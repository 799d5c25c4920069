//! The git panel: diffs, commits and what is read out of git's output.
use crate::hexdump::{digit, hex_digit, hex_repr, push_zero_padded_hex, zero_pad};
use crate::worker::{lossy_text, utf8_lossy, Job, JobId, JobKind, JobResult, JobResultKind};
use crate::text::{
    sub_chars,
    chars_of, contains_seq, contains_str, occurs_at, occurs_at_exec, push_char, spec_lines,
    split_lines, starts_with, str_eq,
    string_of,
};
use std::collections::HashSet;
use vstd::prelude::*;

verus! {

/// Number of lines that start with `c`.
pub open spec fn count_starting_with(lines: Seq<Seq<char>>, c: char) -> nat
    decreases lines.len(),
{
    if lines.len() == 0 {
        0
    } else {
        count_starting_with(lines.drop_last(), c) + if lines.last().len() > 0 && lines.last()[0]
            == c {
            1nat
        } else {
            0nat
        }
    }
}

proof fn lemma_count_starting_with_le(lines: Seq<Seq<char>>, c: char)
    ensures
        count_starting_with(lines, c) <= lines.len(),
    decreases lines.len(),
{
    if lines.len() > 0 {
        lemma_count_starting_with_le(lines.drop_last(), c);
    }
}

/// The body of one hunk of a unified diff: its lines (without the "@@"
/// header), and how many of them add or remove a line.
#[derive(Clone, Debug)]
pub struct Hunk {
    pub lines: Vec<String>,
    pub add: usize,
    pub remove: usize,
}

pub open spec fn string_seq_view(v: Seq<String>) -> Seq<Seq<char>> {
    Seq::new(v.len(), |i: int| v[i]@)
}

impl View for Hunk {
    type V = Seq<Seq<char>>;

    open spec fn view(&self) -> Seq<Seq<char>> {
        string_seq_view(self.lines@)
    }
}

impl Hunk {
    /// `add` and `remove` count the lines that start with '+' and '-'.
    pub open spec fn wf(&self) -> bool {
        &&& self.add == count_starting_with(self@, '+')
        &&& self.remove == count_starting_with(self@, '-')
    }

    pub fn from_lines(lines: Vec<String>) -> (r: Hunk)
        ensures
            r@ == string_seq_view(lines@),
            r.wf(),
    {
        let mut add: usize = 0;
        let mut remove: usize = 0;
        let mut i: usize = 0;
        while i < lines.len()
            invariant
                i <= lines.len(),
                add == count_starting_with(string_seq_view(lines@).take(i as int), '+'),
                remove == count_starting_with(string_seq_view(lines@).take(i as int), '-'),
            decreases lines.len() - i,
        {
            let ghost v = string_seq_view(lines@);
            proof {
                assert(v.take(i + 1).drop_last() =~= v.take(i as int));
                lemma_count_starting_with_le(v.take(i as int), '+');
                lemma_count_starting_with_le(v.take(i as int), '-');
            }
            let chars = chars_of(lines[i].as_str());
            if chars.len() > 0 && chars[0] == '+' {
                add += 1;
            } else if chars.len() > 0 && chars[0] == '-' {
                remove += 1;
            }
            i += 1;
        }
        assert(string_seq_view(lines@).take(lines@.len() as int) =~= string_seq_view(lines@));
        Hunk { lines, add, remove }
    }

    /// The hunk's lines, joined with '\n'.
    pub fn to_udiff(&self) -> (r: String)
        ensures
            r@ == join_lines(self@),
    {
        let mut r = String::new();
        let mut i: usize = 0;
        while i < self.lines.len()
            invariant
                i <= self.lines.len(),
                r@ == join_lines(self@.take(i as int)),
            decreases self.lines.len() - i,
        {
            assert(self@.take(i + 1).drop_last() =~= self@.take(i as int));
            if i > 0 {
                push_char(&mut r, '\n');
            }
            r.append(self.lines[i].as_str());
            i += 1;
        }
        assert(self@.take(self.lines.len() as int) =~= self@);
        r
    }
}

/// Lines joined with '\n' in between.
pub open spec fn join_lines(lines: Seq<Seq<char>>) -> Seq<char>
    decreases lines.len(),
{
    if lines.len() == 0 {
        Seq::empty()
    } else if lines.len() == 1 {
        lines[0]
    } else {
        join_lines(lines.drop_last()) + seq!['\n'] + lines.last()
    }
}

/// What the git panel shows of a repository.
#[derive(Clone, Debug)]
pub struct GitInfo {
    pub is_git_repo: bool,
    pub staged: Vec<FileDiff>,
    pub unstaged: Vec<FileDiff>,
    pub recent_commits: Vec<CommitInfo>,
}

/// Where a change is: in the index, in the working tree, or in a commit.
#[derive(Clone, Copy, Debug, PartialEq, Eq, Structural)]
pub enum ChangeKind {
    Staged,
    Unstaged,
    Committed(GitHash),
}

/// The two tabs of the git panel.
#[derive(Clone, Copy, Debug, PartialEq, Eq, Structural)]
pub enum Tab {
    Changes,
    Commits,
}

/// The changes of one file.
#[derive(Clone, Debug)]
pub struct FileDiff {
    pub file_a: String,
    pub file_b: String,
    pub hunks: Vec<Hunk>,
    pub add: usize,
    pub remove: usize,
}

pub open spec fn dev_null() -> Seq<char> {
    "dev/null"@
}

/// What the panel shows as the name of a changed file.
pub open spec fn spec_title(a: Seq<char>, b: Seq<char>) -> Seq<char> {
    if a == dev_null() {
        b
    } else if b == dev_null() {
        a
    } else if a == b {
        a
    } else {
        a + " -> "@ + b
    }
}

impl FileDiff {
    pub fn title(&self) -> (r: String)
        ensures
            r@ == spec_title(self.file_a@, self.file_b@),
    {
        if str_eq(self.file_a.as_str(), "dev/null") {
            self.file_b.clone()
        } else if str_eq(self.file_b.as_str(), "dev/null") {
            self.file_a.clone()
        } else if str_eq(self.file_a.as_str(), self.file_b.as_str()) {
            self.file_a.clone()
        } else {
            let mut r = self.file_a.clone();
            r.append(" -> ");
            r.append(self.file_b.as_str());
            r
        }
    }
}

/// The first 64 bits of a git object hash.
#[derive(Clone, Copy, Debug, PartialEq, Eq, Hash, Structural)]
pub struct GitHash(u64);

impl GitHash {
    pub closed spec fn value(&self) -> u64 {
        self.0
    }

    /// The hash as 16 lower-case hex digits.
    pub fn to_hex(&self) -> (r: String)
        ensures
            r@ == zero_pad(hex_repr(self.value() as nat), 16),
    {
        let mut out: Vec<char> = Vec::new();
        push_zero_padded_hex(&mut out, self.0, 16);
        assert(out@ =~= zero_pad(hex_repr(self.0 as nat), 16));
        string_of(&out)
    }
}

pub open spec fn header_prefix() -> Seq<char> {
    "diff --git a/"@
}

pub open spec fn header_separator() -> Seq<char> {
    " b/"@
}

/// `p` is the first index where the header prefix stands.
pub open spec fn is_first_prefix(line: Seq<char>, p: int) -> bool {
    &&& occurs_at(line, p, header_prefix())
    &&& forall|k: int| 0 <= k < p ==> !occurs_at(line, k, header_prefix())
}

/// `q` is the last index, past a non-empty first name, where " b/" stands
/// with a non-empty second name after it.
pub open spec fn is_last_separator(line: Seq<char>, p: int, q: int) -> bool {
    &&& p + header_prefix().len() < q
    &&& q + header_separator().len() < line.len()
    &&& occurs_at(line, q, header_separator())
    &&& forall|k: int|
        q < k && k + header_separator().len() < line.len() ==> !occurs_at(
            line,
            k,
            header_separator(),
        )
}

/// The two file names of a `diff --git a/(.+) b/(.+)` line: the pattern
/// matches from the first "diff --git a/", and the first name runs up to the
/// last " b/" that leaves a non-empty second name.
pub open spec fn spec_parse_line_header(line: Seq<char>) -> Option<(Seq<char>, Seq<char>)> {
    if exists|p: int, q: int| is_first_prefix(line, p) && is_last_separator(line, p, q) {
        let (p, q) = choose|p: int, q: int| is_first_prefix(line, p) && is_last_separator(line, p, q);
        Some(
            (
                line.subrange(p + header_prefix().len(), q),
                line.subrange(q + header_separator().len(), line.len() as int),
            ),
        )
    } else {
        None
    }
}

/// The two file names of a diff header line, as `(a, b)`.
pub fn parse_line_header(line: &Vec<char>) -> (r: Option<(String, String)>)
    ensures
        match spec_parse_line_header(line@) {
            Some((a, b)) => r matches Some((ra, rb)) && ra@ == a && rb@ == b,
            None => r is None,
        },
{
    let pre = chars_of("diff --git a/");
    let sep = chars_of(" b/");
    proof {
        reveal_strlit("diff --git a/");
        reveal_strlit(" b/");
    }
    let len = line.len();
    let pre_len = pre.len();
    let sep_len = sep.len();
    assert(pre_len == 13 && sep_len == 3);
    if len < pre_len {
        proof {
            assert forall|a: int, b: int| !(is_first_prefix(line@, a) && is_last_separator(line@, a, b)) by {
            }
        }
        return None;
    }
    let mut p: usize = 0;
    let mut found = false;
    while p <= len - pre_len
        invariant_except_break
            !found,
        invariant
            pre@ == header_prefix(),
            pre_len == pre@.len(),
            pre_len == 13,
            pre_len <= len,
            len == line@.len(),
            p <= len - pre_len + 1,
            forall|k: int| 0 <= k < p ==> !occurs_at(line@, k, header_prefix()),
        ensures
            found ==> p <= len - pre_len && occurs_at(line@, p as int, header_prefix()),
            !found ==> p == len - pre_len + 1,
            forall|k: int| 0 <= k < p ==> !occurs_at(line@, k, header_prefix()),
        decreases len - pre_len + 1 - p,
    {
        if occurs_at_exec(line, p, &pre) {
            found = true;
            break;
        }
        p += 1;
    }
    if !found {
        proof {
            assert forall|a: int, b: int| !(is_first_prefix(line@, a) && is_last_separator(line@, a, b)) by {
                if is_first_prefix(line@, a) {
                    assert(a < p);
                }
            }
        }
        return None;
    }
    // p is the first index of the prefix.
    if len - sep_len - 1 <= p + pre_len {
        proof {
            assert forall|a: int, b: int| !(is_first_prefix(line@, a) && is_last_separator(line@, a, b)) by {
                if is_first_prefix(line@, a) && a != p {
                    if a < p {
                    } else {
                        assert(!occurs_at(line@, p as int, header_prefix()));
                    }
                }
            }
        }
        return None;
    }
    let mut q: usize = len - sep_len - 1;
    let mut found_q = false;
    while q > p + pre_len
        invariant_except_break
            !found_q,
        invariant
            pre_len == pre@.len(),
            sep_len == sep@.len(),
            pre_len == 13,
            sep_len == 3,
            q >= p + pre_len,
            pre@ == header_prefix(),
            sep@ == header_separator(),
            len == line@.len(),
            p + pre@.len() < len,
            q + sep@.len() < len,
            forall|k: int| q < k && k + sep@.len() < len ==> !occurs_at(line@, k, header_separator()),
        ensures
            found_q ==> q > p + pre_len && occurs_at(line@, q as int, header_separator()),
            !found_q ==> q == p + pre_len,
        decreases q,
    {
        if occurs_at_exec(line, q, &sep) {
            found_q = true;
            break;
        }
        q -= 1;
    }
    proof {
        assert(is_first_prefix(line@, p as int));
        assert forall|a: int| is_first_prefix(line@, a) implies a == p by {
            if a < p {
            } else if a > p {
            }
        }
    }
    if !found_q {
        proof {
            assert forall|a: int, b: int| !(is_first_prefix(line@, a) && is_last_separator(line@, a, b)) by {
                if is_first_prefix(line@, a) && is_last_separator(line@, a, b) {
                    assert(a == p);
                    assert(b > q);
                }
            }
        }
        return None;
    }
    proof {
        assert(is_last_separator(line@, p as int, q as int));
        assert forall|a: int, b: int| is_first_prefix(line@, a) && is_last_separator(line@, a, b) implies a == p && b == q by {
            assert(a == p);
            if b < q {
                assert(!occurs_at(line@, q as int, header_separator()));
            } else if b > q {
            }
        }
    }
    let a = sub_chars(line, p + pre_len, q);
    let b = sub_chars(line, q + sep_len, len);
    Some((string_of(&a), string_of(&b)))
}

/// What the diff reader has seen so far: the finished files, the names of
/// the current file, its finished hunks, the lines of the current hunk,
/// and whether it is skipping header lines until the next "@".
pub struct DiffReader {
    pub files: Seq<(Seq<char>, Seq<char>, Seq<Seq<Seq<char>>>)>,
    pub curr_file: (Seq<char>, Seq<char>),
    pub hunks: Seq<Seq<Seq<char>>>,
    pub curr_hunk: Seq<Seq<char>>,
    pub ignore: bool,
}

pub open spec fn reader_init() -> DiffReader {
    DiffReader {
        files: Seq::empty(),
        curr_file: (Seq::empty(), Seq::empty()),
        hunks: Seq::empty(),
        curr_hunk: Seq::empty(),
        ignore: false,
    }
}

/// The finished hunks with the current one added, if it has lines.
pub open spec fn flushed_hunks(r: DiffReader) -> Seq<Seq<Seq<char>>> {
    if r.curr_hunk.len() > 0 {
        r.hunks.push(r.curr_hunk)
    } else {
        r.hunks
    }
}

/// The finished files with the current one added, if it has hunks.
pub open spec fn flushed_files(
    r: DiffReader,
    hunks: Seq<Seq<Seq<char>>>,
) -> Seq<(Seq<char>, Seq<char>, Seq<Seq<Seq<char>>>)> {
    if hunks.len() > 0 {
        r.files.push((r.curr_file.0, r.curr_file.1, hunks))
    } else {
        r.files
    }
}

pub open spec fn reader_step(r: DiffReader, line: Seq<char>) -> DiffReader {
    if starts_with(line, "@"@) || starts_with(line, "diff"@) {
        let hunks = flushed_hunks(r);
        if starts_with(line, "diff"@) {
            DiffReader {
                files: flushed_files(r, hunks),
                curr_file: spec_parse_line_header(line).unwrap(),
                hunks: Seq::empty(),
                curr_hunk: Seq::empty(),
                ignore: true,
            }
        } else {
            DiffReader { hunks, curr_hunk: Seq::empty(), ignore: false, ..r }
        }
    } else if r.ignore {
        r
    } else {
        DiffReader { curr_hunk: r.curr_hunk.push(line), ..r }
    }
}

pub open spec fn reader_fold(lines: Seq<Seq<char>>) -> DiffReader
    decreases lines.len(),
{
    if lines.len() == 0 {
        reader_init()
    } else {
        reader_step(reader_fold(lines.drop_last()), lines.last())
    }
}

/// The files of a `git diff` output, each with the hunk bodies as lines.
pub open spec fn spec_parse_git_diff(diff: Seq<char>) -> Seq<(Seq<char>, Seq<char>, Seq<Seq<Seq<char>>>)> {
    let r = reader_fold(spec_lines(diff));
    flushed_files(r, flushed_hunks(r))
}

/// Number of lines that start with "diff".
pub open spec fn header_count(lines: Seq<Seq<char>>) -> nat
    decreases lines.len(),
{
    if lines.len() == 0 {
        0
    } else {
        header_count(lines.drop_last()) + if starts_with(lines.last(), "diff"@) {
            1nat
        } else {
            0nat
        }
    }
}

/// `names` are the names that a "diff" line among `lines` gives.
pub open spec fn names_of_header(names: (Seq<char>, Seq<char>), lines: Seq<Seq<char>>) -> bool {
    exists|h: int|
        0 <= h < lines.len() && starts_with(lines[h], "diff"@) && #[trigger] spec_parse_line_header(
            lines[h],
        ).unwrap() == names
}

/// A file of the result: it has hunks, none of them empty, and its names
/// come from a header line.
pub open spec fn file_from_header(
    f: (Seq<char>, Seq<char>, Seq<Seq<Seq<char>>>),
    lines: Seq<Seq<char>>,
) -> bool {
    &&& f.2.len() > 0
    &&& forall|j: int| 0 <= j < f.2.len() ==> (#[trigger] f.2[j]).len() > 0
    &&& names_of_header((f.0, f.1), lines)
}

pub open spec fn reader_inv(r: DiffReader, lines: Seq<Seq<char>>) -> bool {
    &&& forall|k: int| 0 <= k < r.files.len() ==> file_from_header(#[trigger] r.files[k], lines)
    &&& forall|j: int| 0 <= j < r.hunks.len() ==> (#[trigger] r.hunks[j]).len() > 0
    &&& r.files.len() + 1 <= header_count(lines)
    &&& names_of_header(r.curr_file, lines)
}

proof fn lemma_names_of_header_grow(names: (Seq<char>, Seq<char>), lines: Seq<Seq<char>>, line: Seq<char>)
    requires
        names_of_header(names, lines),
    ensures
        names_of_header(names, lines.push(line)),
{
    let h = choose|h: int|
        0 <= h < lines.len() && starts_with(lines[h], "diff"@) && #[trigger] spec_parse_line_header(
            lines[h],
        ).unwrap() == names;
    assert(lines.push(line)[h] == lines[h]);
}

proof fn lemma_reader_inv(lines: Seq<Seq<char>>)
    requires
        lines.len() > 0,
        starts_with(lines[0], "diff"@),
    ensures
        reader_inv(reader_fold(lines), lines),
    decreases lines.len(),
{
    let prefix = lines.drop_last();
    let line = lines.last();
    assert(lines == prefix.push(line));
    let n = (lines.len() - 1) as int;
    assert(lines[n] == line);
    if prefix.len() == 0 {
        assert(reader_fold(prefix) == reader_init());
        assert(starts_with(line, "diff"@));
        assert(spec_parse_line_header(lines[0]).unwrap() == reader_fold(lines).curr_file);
    } else {
        assert(prefix[0] == lines[0]);
        lemma_reader_inv(prefix);
        let r = reader_fold(prefix);
        let hunks = flushed_hunks(r);
        assert forall|k: int| 0 <= k < r.files.len() implies file_from_header(#[trigger] r.files[k], lines) by {
            assert(file_from_header(r.files[k], prefix));
            lemma_names_of_header_grow((r.files[k].0, r.files[k].1), prefix, line);
        }
        lemma_names_of_header_grow(r.curr_file, prefix, line);
        if starts_with(line, "@"@) || starts_with(line, "diff"@) {
            assert forall|j: int| 0 <= j < hunks.len() implies (#[trigger] hunks[j]).len() > 0 by {
                if j < r.hunks.len() {
                    assert(hunks[j] == r.hunks[j]);
                }
            }
            if starts_with(line, "diff"@) {
                let files = flushed_files(r, hunks);
                assert forall|k: int| 0 <= k < files.len() implies file_from_header(#[trigger] files[k], lines) by {
                    if k < r.files.len() {
                        assert(files[k] == r.files[k]);
                    }
                }
                assert(spec_parse_line_header(lines[n]).unwrap() == reader_fold(lines).curr_file);
            }
        }
    }
}

/// Law: on the output of `git diff` (its first line is a header), every
/// file of the result has hunks and no hunk is empty; each file's names
/// come from a "diff" header line, and there are no more files than
/// header lines.
pub proof fn law_parse_git_diff_files_have_hunks(diff: Seq<char>)
    requires
        spec_lines(diff).len() > 0 ==> starts_with(spec_lines(diff)[0], "diff"@),
    ensures
        spec_parse_git_diff(diff).len() <= header_count(spec_lines(diff)),
        forall|k: int|
            0 <= k < spec_parse_git_diff(diff).len() ==> file_from_header(
                #[trigger] spec_parse_git_diff(diff)[k],
                spec_lines(diff),
            ),
{
    let lines = spec_lines(diff);
    let r = reader_fold(lines);
    let hunks = flushed_hunks(r);
    let files = flushed_files(r, hunks);
    if lines.len() == 0 {
        assert(r == reader_init());
        assert(hunks.len() == 0);
    } else {
        lemma_reader_inv(lines);
        assert forall|j: int| 0 <= j < hunks.len() implies (#[trigger] hunks[j]).len() > 0 by {
            if j < r.hunks.len() {
                assert(hunks[j] == r.hunks[j]);
            }
        }
        assert forall|k: int| 0 <= k < files.len() implies file_from_header(#[trigger] files[k], lines) by {
            if k < r.files.len() {
                assert(files[k] == r.files[k]);
            }
        }
    }
}

/// Every line that starts with "diff" is a `diff --git a/.. b/..` header.
pub open spec fn headers_well_formed(diff: Seq<char>) -> bool {
    forall|k: int|
        0 <= k < spec_lines(diff).len() && starts_with(#[trigger] spec_lines(diff)[k], "diff"@)
            ==> spec_parse_line_header(spec_lines(diff)[k]) is Some
}

pub open spec fn sum_count(hunks: Seq<Seq<Seq<char>>>, c: char) -> nat
    decreases hunks.len(),
{
    if hunks.len() == 0 {
        0
    } else {
        sum_count(hunks.drop_last(), c) + count_starting_with(hunks.last(), c)
    }
}

pub open spec fn sum_len(hunks: Seq<Seq<Seq<char>>>) -> nat
    decreases hunks.len(),
{
    if hunks.len() == 0 {
        0
    } else {
        sum_len(hunks.drop_last()) + hunks.last().len()
    }
}

proof fn lemma_sum_count_le(hunks: Seq<Seq<Seq<char>>>, c: char)
    ensures
        sum_count(hunks, c) <= sum_len(hunks),
    decreases hunks.len(),
{
    if hunks.len() > 0 {
        lemma_sum_count_le(hunks.drop_last(), c);
        lemma_count_starting_with_le(hunks.last(), c);
    }
}

/// Number of hunk lines over all the files.
pub open spec fn files_len(files: Seq<(Seq<char>, Seq<char>, Seq<Seq<Seq<char>>>)>) -> nat
    decreases files.len(),
{
    if files.len() == 0 {
        0
    } else {
        files_len(files.drop_last()) + sum_len(files.last().2)
    }
}

/// Number of hunk lines that start with `c`, over all the files.
pub open spec fn files_count(files: Seq<(Seq<char>, Seq<char>, Seq<Seq<Seq<char>>>)>, c: char) -> nat
    decreases files.len(),
{
    if files.len() == 0 {
        0
    } else {
        files_count(files.drop_last(), c) + sum_count(files.last().2, c)
    }
}

proof fn lemma_files_count_le(files: Seq<(Seq<char>, Seq<char>, Seq<Seq<Seq<char>>>)>, c: char)
    ensures
        files_count(files, c) <= files_len(files),
    decreases files.len(),
{
    if files.len() > 0 {
        lemma_files_count_le(files.drop_last(), c);
        lemma_sum_count_le(files.last().2, c);
    }
}

pub open spec fn hunks_view(hunks: Seq<Hunk>) -> Seq<Seq<Seq<char>>> {
    Seq::new(hunks.len(), |i: int| hunks[i]@)
}

impl FileDiff {
    /// Each hunk counts its lines, and the file sums them up.
    pub open spec fn wf(&self) -> bool {
        &&& forall|i: int| 0 <= i < self.hunks@.len() ==> (#[trigger] self.hunks@[i]).wf()
        &&& self.add == sum_count(hunks_view(self.hunks@), '+')
        &&& self.remove == sum_count(hunks_view(self.hunks@), '-')
    }

    pub open spec fn spec_view(&self) -> (Seq<char>, Seq<char>, Seq<Seq<Seq<char>>>) {
        (self.file_a@, self.file_b@, hunks_view(self.hunks@))
    }
}

/// The files that a `git diff` output changes.
pub fn parse_git_diff(diff: &str) -> (r: Vec<FileDiff>)
    requires
        headers_well_formed(diff@),
    ensures
        r@.len() == spec_parse_git_diff(diff@).len(),
        forall|k: int|
            0 <= k < r@.len() ==> (#[trigger] r@[k]).spec_view() == spec_parse_git_diff(diff@)[k]
                && r@[k].wf(),
        files_count(spec_parse_git_diff(diff@), '+') <= usize::MAX,
        files_count(spec_parse_git_diff(diff@), '-') <= usize::MAX,
{
    let lines = split_lines(diff);
    let ghost ls = spec_lines(diff@);
    let mut files: Vec<FileDiff> = Vec::new();
    let mut curr_file: (String, String) = (String::new(), String::new());
    let mut hunks: Vec<Hunk> = Vec::new();
    let mut curr_hunk: Vec<String> = Vec::new();
    let mut ignore_until_at = false;
    let at = chars_of("@");
    let diff_word = chars_of("diff");
    let mut i: usize = 0;
    while i < lines.len()
        invariant
            i <= lines.len(),
            lines@.len() == ls.len(),
            forall|k: int| 0 <= k < lines@.len() ==> #[trigger] lines@[k]@ == ls[k],
            ls == spec_lines(diff@),
            headers_well_formed(diff@),
            at@ == "@"@,
            diff_word@ == "diff"@,
            ({
                let st = reader_fold(ls.take(i as int));
                &&& files@.len() == st.files.len()
                &&& forall|k: int|
                    0 <= k < files@.len() ==> (#[trigger] files@[k]).spec_view() == st.files[k]
                        && files@[k].wf()
                &&& curr_file.0@ == st.curr_file.0
                &&& curr_file.1@ == st.curr_file.1
                &&& hunks_view(hunks@) == st.hunks
                &&& forall|k: int| 0 <= k < hunks@.len() ==> (#[trigger] hunks@[k]).wf()
                &&& string_seq_view(curr_hunk@) == st.curr_hunk
                &&& ignore_until_at == st.ignore
                &&& files_len(st.files) + sum_len(st.hunks) + st.curr_hunk.len() <= i
            }),
        decreases lines.len() - i,
    {
        let line = chars_of(lines[i].as_str());
        let ghost st = reader_fold(ls.take(i as int));
        proof {
            assert(ls.take(i + 1).drop_last() =~= ls.take(i as int));
            assert(ls.take(i + 1).last() == ls[i as int]);
        }
        let is_at = occurs_at_exec(&line, 0, &at);
        let is_diff = occurs_at_exec(&line, 0, &diff_word);
        if is_at || is_diff {
            if curr_hunk.len() > 0 {
                let h = Hunk::from_lines(curr_hunk);
                hunks.push(h);
                curr_hunk = Vec::new();
                proof {
                    assert(hunks_view(hunks@) =~= st.hunks.push(st.curr_hunk));
                    assert(hunks_view(hunks@).drop_last() =~= st.hunks);
                }
            } else {
                curr_hunk = Vec::new();
            }
            assert(hunks_view(hunks@) == flushed_hunks(st));
            assert(string_seq_view(curr_hunk@) =~= Seq::<Seq<char>>::empty());

            if is_diff {
                ignore_until_at = true;

                if hunks.len() > 0 {
                    let old_file = curr_file;
                    let fd = make_file_diff(old_file, hunks);
                    files.push(fd);
                    hunks = Vec::new();
                    curr_file = (String::new(), String::new());
                }
                proof {
                    assert(starts_with(ls[i as int], "diff"@));
                }
                match parse_line_header(&line) {
                    Some(names) => {
                        curr_file = names;
                    },
                    None => {},
                }
                hunks = Vec::new();
            } else {
                ignore_until_at = false;
            }
        } else if ignore_until_at {
        } else {
            curr_hunk.push(lines[i].clone());
            assert(string_seq_view(curr_hunk@) =~= st.curr_hunk.push(ls[i as int]));
        }
        proof {
            let st2 = reader_fold(ls.take(i + 1));
            let fh = flushed_hunks(st);
            if st.curr_hunk.len() > 0 {
                assert(st.hunks.push(st.curr_hunk).drop_last() =~= st.hunks);
            }
            if fh.len() > 0 {
                assert(flushed_files(st, fh).drop_last() =~= st.files);
            }
            assert(st2 == reader_step(st, ls[i as int]));
            assert(hunks_view(hunks@) == st2.hunks);
        }
        i += 1;
    }
    assert(ls.take(lines@.len() as int) =~= ls);
    let ghost st = reader_fold(ls);
    if curr_hunk.len() > 0 {
        let h = Hunk::from_lines(curr_hunk);
        hunks.push(h);
        assert(hunks_view(hunks@) =~= st.hunks.push(st.curr_hunk));
        assert(st.hunks.push(st.curr_hunk).drop_last() =~= st.hunks);
    }
    assert(hunks_view(hunks@) == flushed_hunks(st));
    assert(sum_len(hunks_view(hunks@)) <= lines@.len());
    proof {
        let fl = flushed_files(st, flushed_hunks(st));
        if flushed_hunks(st).len() > 0 {
            assert(fl.drop_last() =~= st.files);
        }
        assert(files_len(fl) <= lines@.len());
        lemma_files_count_le(fl, '+');
        lemma_files_count_le(fl, '-');
    }
    if hunks.len() > 0 {
        let fd = make_file_diff(curr_file, hunks);
        files.push(fd);
    }
    files
}

fn make_file_diff(file: (String, String), hunks: Vec<Hunk>) -> (r: FileDiff)
    requires
        sum_len(hunks_view(hunks@)) <= usize::MAX,
        forall|k: int| 0 <= k < hunks@.len() ==> (#[trigger] hunks@[k]).wf(),
    ensures
        r.spec_view() == (file.0@, file.1@, hunks_view(hunks@)),
        r.wf(),
{
    let ghost hv = hunks_view(hunks@);
    proof {
        lemma_sum_count_le(hv, '+');
        lemma_sum_count_le(hv, '-');
    }
    let mut add: usize = 0;
    let mut remove: usize = 0;
    let mut j: usize = 0;
    while j < hunks.len()
        invariant
            j <= hunks@.len(),
            hv == hunks_view(hunks@),
            forall|k: int| 0 <= k < hunks@.len() ==> (#[trigger] hunks@[k]).wf(),
            sum_len(hv) <= usize::MAX,
            add == sum_count(hv.take(j as int), '+'),
            remove == sum_count(hv.take(j as int), '-'),
        decreases hunks@.len() - j,
    {
        proof {
            assert(hv.take(j + 1).drop_last() =~= hv.take(j as int));
            lemma_sum_count_le(hv.take(j + 1), '+');
            lemma_sum_count_le(hv.take(j + 1), '-');
            lemma_sum_len_take(hv, j + 1);
            assert(hunks@[j as int]@ == hv[j as int]);
        }
        add = add + hunks[j].add;
        remove = remove + hunks[j].remove;
        j += 1;
    }
    assert(hv.take(hunks@.len() as int) =~= hv);
    FileDiff { file_a: file.0, file_b: file.1, hunks, add, remove }
}

proof fn lemma_sum_len_take(hv: Seq<Seq<Seq<char>>>, j: int)
    requires
        0 <= j <= hv.len(),
    ensures
        sum_len(hv.take(j)) <= sum_len(hv),
    decreases hv.len() - j,
{
    if j < hv.len() {
        lemma_sum_len_take(hv, j + 1);
        assert(hv.take(j + 1).drop_last() =~= hv.take(j));
    }
    if j == hv.len() {
        assert(hv.take(j) =~= hv);
    }
}

pub open spec fn is_lower_hex(c: char) -> bool {
    ('0' <= c && c <= '9') || ('a' <= c && c <= 'f')
}

pub open spec fn hex_char_value(c: char) -> nat {
    if '0' <= c && c <= '9' {
        (c as int - '0' as int) as nat
    } else {
        (c as int - 'a' as int + 10) as nat
    }
}

/// The number that hex digits stand for.
pub open spec fn hex_value(s: Seq<char>) -> nat
    decreases s.len(),
{
    if s.len() == 0 {
        0
    } else {
        hex_value(s.drop_last()) * 16 + hex_char_value(s.last())
    }
}

/// 16 hex digits stand at `p`, and at least one more character follows.
pub open spec fn hash_at(line: Seq<char>, p: int) -> bool {
    &&& 0 <= p
    &&& p + 16 < line.len()
    &&& forall|j: int| p <= j < p + 16 ==> is_lower_hex(#[trigger] line[j])
}

pub open spec fn is_first_hash(line: Seq<char>, p: int) -> bool {
    &&& hash_at(line, p)
    &&& forall|k: int| 0 <= k < p ==> !hash_at(line, k)
}

/// The hash that a `git log --oneline --abbrev=16` line starts with, as the
/// pattern `([0-9a-f]{16}).+` finds it: the first 16 hex digits with
/// something after them.
pub open spec fn spec_log_line_hash(line: Seq<char>) -> Option<nat> {
    if exists|p: int| is_first_hash(line, p) {
        let p = choose|p: int| is_first_hash(line, p);
        Some(hex_value(line.subrange(p, p + 16)))
    } else {
        None
    }
}

pub open spec fn spec_log_hashes(lines: Seq<Seq<char>>) -> Seq<nat>
    decreases lines.len(),
{
    if lines.len() == 0 {
        Seq::empty()
    } else {
        let rest = spec_log_hashes(lines.drop_last());
        match spec_log_line_hash(lines.last()) {
            Some(h) => rest.push(h),
            None => rest,
        }
    }
}

proof fn lemma_hex_value_bound(s: Seq<char>)
    requires
        forall|j: int| 0 <= j < s.len() ==> is_lower_hex(#[trigger] s[j]),
    ensures
        hex_value(s) < pow16_nat(s.len()),
    decreases s.len(),
{
    if s.len() > 0 {
        lemma_hex_value_bound(s.drop_last());
        let a = hex_value(s.drop_last());
        let b = pow16_nat((s.len() - 1) as nat);
        assert(a * 16 + hex_char_value(s.last()) < b * 16) by (nonlinear_arith)
            requires
                a < b,
                hex_char_value(s.last()) < 16,
        ;
    }
}

pub open spec fn pow16_nat(k: nat) -> nat
    decreases k,
{
    if k == 0 { 1 } else { 16 * pow16_nat((k - 1) as nat) }
}

fn hex_at(line: &Vec<char>, p: usize) -> (r: bool)
    ensures
        r == hash_at(line@, p as int),
{
    if p >= line.len() || line.len() - p <= 16 {
        return false;
    }
    let len = line.len();
    let mut j: usize = 0;
    while j < 16
        invariant
            j <= 16,
            len == line@.len(),
            p + 16 < line@.len(),
            forall|k: int| p <= k < p + j ==> is_lower_hex(#[trigger] line@[k]),
        decreases 16 - j,
    {
        let c = line[p + j];
        if !(('0' <= c && c <= '9') || ('a' <= c && c <= 'f')) {
            return false;
        }
        j += 1;
    }
    true
}

fn parse_hex16(line: &Vec<char>, p: usize) -> (r: u64)
    requires
        hash_at(line@, p as int),
    ensures
        r == hex_value(line@.subrange(p as int, p + 16)),
{
    let mut v: u64 = 0;
    let len = line.len();
    let mut j: usize = 0;
    while j < 16
        invariant
            j <= 16,
            len == line@.len(),
            hash_at(line@, p as int),
            v == hex_value(line@.subrange(p as int, p + j)),
        decreases 16 - j,
    {
        let ghost sub = line@.subrange(p as int, p + j + 1);
        proof {
            assert(sub.drop_last() =~= line@.subrange(p as int, p + j));
            assert forall|k: int| 0 <= k < sub.len() implies is_lower_hex(#[trigger] sub[k]) by {
                assert(sub[k] == line@[p + k]);
            }
            lemma_hex_value_bound(sub);
            reveal_with_fuel(pow16_nat, 17);
            assert(pow16_nat(16) == 0x1_0000_0000_0000_0000);
            lemma_pow16_mono((j + 1) as nat, 16);
        }
        let c = line[p + j];
        let d: u64 = if '0' <= c && c <= '9' {
            (c as u64) - ('0' as u64)
        } else {
            (c as u64) - ('a' as u64) + 10
        };
        v = v * 16 + d;
        j += 1;
    }
    v
}

proof fn lemma_pow16_mono(a: nat, b: nat)
    requires
        a <= b,
    ensures
        pow16_nat(a) <= pow16_nat(b),
    decreases b - a,
{
    if a < b {
        lemma_pow16_mono(a, (b - 1) as nat);
    }
}

/// The hash of a log line, if it has one (see `spec_log_line_hash`).
pub fn parse_log_line(line: &Vec<char>) -> (r: Option<GitHash>)
    ensures
        match spec_log_line_hash(line@) {
            Some(h) => r matches Some(g) && g.value() == h,
            None => r is None,
        },
{
    let mut p: usize = 0;
    while p < line.len()
        invariant
            p <= line@.len(),
            forall|k: int| 0 <= k < p ==> !hash_at(line@, k),
        decreases line@.len() - p,
    {
        if hex_at(line, p) {
            proof {
                assert(is_first_hash(line@, p as int));
                assert forall|k: int| is_first_hash(line@, k) implies k == p by {
                    if k > p {
                        assert(!is_first_hash(line@, k));
                    }
                }
            }
            return Some(GitHash(parse_hex16(line, p)));
        }
        p += 1;
    }
    proof {
        assert forall|k: int| !is_first_hash(line@, k) by {
            if is_first_hash(line@, k) {
                assert(k < p);
            }
        }
    }
    None
}

/// The commit hashes of a `git log --oneline --abbrev=16` output, in order;
/// lines without a hash are skipped.
pub fn parse_git_log(stdout: &str) -> (r: Vec<GitHash>)
    ensures
        r@.len() == spec_log_hashes(spec_lines(stdout@)).len(),
        forall|k: int|
            0 <= k < r@.len() ==> (#[trigger] r@[k]).value() == spec_log_hashes(
                spec_lines(stdout@),
            )[k],
{
    let lines = split_lines(stdout);
    let ghost ls = spec_lines(stdout@);
    let mut r: Vec<GitHash> = Vec::new();
    let mut i: usize = 0;
    while i < lines.len()
        invariant
            i <= lines.len(),
            lines@.len() == ls.len(),
            forall|k: int| 0 <= k < lines@.len() ==> #[trigger] lines@[k]@ == ls[k],
            r@.len() == spec_log_hashes(ls.take(i as int)).len(),
            forall|k: int|
                0 <= k < r@.len() ==> (#[trigger] r@[k]).value() == spec_log_hashes(
                    ls.take(i as int),
                )[k],
        decreases lines.len() - i,
    {
        proof {
            assert(ls.take(i + 1).drop_last() =~= ls.take(i as int));
        }
        let line = chars_of(lines[i].as_str());
        match parse_log_line(&line) {
            Some(h) => {
                r.push(h);
            },
            None => {},
        }
        i += 1;
    }
    assert(ls.take(lines@.len() as int) =~= ls);
    r
}

/// A commit, as the git panel lists it.
#[derive(Clone, Debug)]
pub struct CommitInfo {
    pub commit_hash: GitHash,
    pub tree_hash: GitHash,
    // If the commit has several parents, this is the first one.
    pub parent: Option<GitHash>,
    pub title: String,
    pub message: Option<String>,
    pub author_name: String,
    pub author_email: String,
    pub committer_name: String,
    pub committer_email: String,
    // Changes against the parent.
    pub diff: Option<Vec<FileDiff>>,
    pub add: usize,
    pub remove: usize,
}

pub open spec fn opt_string_view(o: Option<String>) -> Option<Seq<char>> {
    match o {
        Some(s) => Some(s@),
        None => None,
    }
}

pub open spec fn is_hash_text(s: Seq<char>) -> bool {
    s.len() == 16 && forall|j: int| 0 <= j < 16 ==> is_lower_hex(#[trigger] s[j])
}

/// What `regex::Regex::captures` gives for the pattern of a git commit
/// object (`COMMIT_INFO_PATTERN`) on a text: `None` where it does not
/// match, else the 13 groups (0 is the whole match).
pub uninterp spec fn commit_info_captures(text: Seq<char>) -> Option<Seq<Option<Seq<char>>>>;

/// Tree hash, an optional first parent, author, committer, a title line and
/// an optional rest of the message. `(?s)` lets `.` match line breaks.
pub const COMMIT_INFO_PATTERN: &'static str = r"(?s)tree ([0-9a-f]{16})[0-9a-f]+\n(?:parent ([0-9a-f]{16})[0-9a-f]+\n)?(?:parent [0-9a-f]+\n)*author (.+) <(.+)> (\d+) (.+)\ncommitter (.+) <(.+)> (\d+) (.+)\n([^\n]+)(?:\n(.+))?";

/// `regex::Regex::new(COMMIT_INFO_PATTERN)` and `Regex::captures` on `text`.
/// The contract claims: the result is the named capture list, it has 13
/// groups, the groups outside an optional part are present, and groups 1
/// and 2 (when present) are 16 lower-case hex digits, as the pattern says.
/// The pattern is a fixed valid one, so `Regex::new` does not fail.
#[verifier::external_body]
fn capture_commit_info(text: &str) -> (r: Option<Vec<Option<String>>>)
    ensures
        match commit_info_captures(text@) {
            None => r is None,
            Some(caps) => r matches Some(v) && v@.len() == caps.len() && forall|i: int|
                0 <= i < v@.len() ==> opt_string_view(#[trigger] v@[i]) == caps[i],
        },
        r matches Some(v) ==> v@.len() == 13 && (forall|i: int|
            0 <= i < 13 && i != 2 && i != 12 ==> (#[trigger] v@[i]) is Some) && is_hash_text(
            v@[1]->0@,
        ) && (v@[2] matches Some(p) ==> is_hash_text(p@)),
{
    let re = regex::Regex::new(COMMIT_INFO_PATTERN).unwrap();
    match re.captures(text) {
        Some(cap) => {
            let mut groups = Vec::with_capacity(13);
            for i in 0..13 {
                groups.push(cap.get(i).map(|m| m.as_str().to_string()));
            }
            Some(groups)
        },
        None => None,
    }
}

fn hash_of_text(s: &String) -> (r: GitHash)
    requires
        is_hash_text(s@),
    ensures
        r.value() == hex_value(s@),
{
    let mut chars = chars_of(s.as_str());
    chars.push('.');
    proof {
        assert(hash_at(chars@, 0));
        assert(chars@.subrange(0, 16) =~= s@);
    }
    GitHash(parse_hex16(&chars, 0))
}

fn take_group(v: &Vec<Option<String>>, i: usize) -> (r: String)
    requires
        i < v@.len(),
        v@[i as int] is Some,
    ensures
        r@ == v@[i as int]->0@,
{
    match &v[i] {
        Some(s) => s.clone(),
        None => String::new(),
    }
}

/// The commit fields that the capture groups give (the diff is added later).
pub open spec fn commit_from_captures(commit: GitHash, caps: Seq<Option<Seq<char>>>, c: CommitInfo) -> bool {
    &&& c.commit_hash == commit
    &&& c.tree_hash.value() == hex_value(caps[1]->0)
    &&& match caps[2] {
        Some(p) => c.parent matches Some(h) && h.value() == hex_value(p),
        None => c.parent is None,
    }
    &&& c.author_name@ == caps[3]->0
    &&& c.author_email@ == caps[4]->0
    &&& c.committer_name@ == caps[7]->0
    &&& c.committer_email@ == caps[8]->0
    &&& c.title@ == caps[11]->0
    &&& opt_string_view(c.message) == caps[12]
    &&& c.diff is None
    &&& c.add == 0
    &&& c.remove == 0
}

/// Reads a `git cat-file commit` output. It gives `None` where the output
/// is not a commit object.
pub fn parse_commit_info(commit: GitHash, text: &str) -> (r: Option<CommitInfo>)
    ensures
        match commit_info_captures(text@) {
            None => r is None,
            Some(caps) => r matches Some(c) && commit_from_captures(commit, caps, c),
        },
{
    match capture_commit_info(text) {
        None => None,
        Some(groups) => {
            let parent = match &groups[2] {
                Some(p) => Some(hash_of_text(p)),
                None => None,
            };
            let message = match &groups[12] {
                Some(m) => Some(m.clone()),
                None => None,
            };
            let ghost caps = commit_info_captures(text@)->0;
            assert(opt_string_view(groups@[1]) == caps[1]);
            assert(opt_string_view(groups@[2]) == caps[2]);
            assert(opt_string_view(groups@[3]) == caps[3]);
            assert(opt_string_view(groups@[4]) == caps[4]);
            assert(opt_string_view(groups@[7]) == caps[7]);
            assert(opt_string_view(groups@[8]) == caps[8]);
            assert(opt_string_view(groups@[11]) == caps[11]);
            assert(opt_string_view(groups@[12]) == caps[12]);
            let tree = match &groups[1] {
                Some(t) => hash_of_text(t),
                None => GitHash(0),
            };
            Some(CommitInfo {
                commit_hash: commit,
                tree_hash: tree,
                parent,
                title: take_group(&groups, 11),
                message,
                author_name: take_group(&groups, 3),
                author_email: take_group(&groups, 4),
                committer_name: take_group(&groups, 7),
                committer_email: take_group(&groups, 8),
                diff: None,
                add: 0,
                remove: 0,
            })
        },
    }
}

/// `after` is `before` with the changes of a `git diff` output attached:
/// the file diffs it parses to, and how many lines they add and remove.
pub open spec fn diff_attached(before: CommitInfo, after: CommitInfo, diff: Seq<char>) -> bool {
    &&& after.diff matches Some(d) && d@.len() == spec_parse_git_diff(diff).len() && (forall|k: int|
        0 <= k < d@.len() ==> (#[trigger] d@[k]).spec_view() == spec_parse_git_diff(diff)[k]
            && d@[k].wf())
    &&& after.add == files_count(spec_parse_git_diff(diff), '+')
    &&& after.remove == files_count(spec_parse_git_diff(diff), '-')
    &&& after.commit_hash == before.commit_hash
    &&& after.tree_hash == before.tree_hash
    &&& after.parent == before.parent
    &&& after.title == before.title
    &&& after.message == before.message
    &&& after.author_name == before.author_name
    &&& after.author_email == before.author_email
    &&& after.committer_name == before.committer_name
    &&& after.committer_email == before.committer_email
}

/// The commit with its changes against the parent, read from a `git diff`
/// output.
pub fn attach_commit_diff(info: &mut CommitInfo, diff: &str)
    requires
        headers_well_formed(diff@),
    ensures
        diff_attached(*old(info), *final(info), diff@),
{
    let files = parse_git_diff(diff);
    let ghost spec_files = spec_parse_git_diff(diff@);
    let mut add: usize = 0;
    let mut remove: usize = 0;
    let mut i: usize = 0;
    while i < files.len()
        invariant
            i <= files@.len(),
            files@.len() == spec_files.len(),
            forall|k: int|
                0 <= k < files@.len() ==> (#[trigger] files@[k]).spec_view() == spec_files[k]
                    && files@[k].wf(),
            files_count(spec_files, '+') <= usize::MAX,
            files_count(spec_files, '-') <= usize::MAX,
            add == files_count(spec_files.take(i as int), '+'),
            remove == files_count(spec_files.take(i as int), '-'),
        decreases files@.len() - i,
    {
        proof {
            assert(spec_files.take(i + 1).drop_last() =~= spec_files.take(i as int));
            lemma_files_count_take(spec_files, i + 1, '+');
            lemma_files_count_take(spec_files, i + 1, '-');
            assert(files@[i as int].spec_view().2 == spec_files[i as int].2);
        }
        add = add + files[i].add;
        remove = remove + files[i].remove;
        i += 1;
    }
    assert(spec_files.take(files@.len() as int) =~= spec_files);
    info.add = add;
    info.remove = remove;
    info.diff = Some(files);
}

proof fn lemma_files_count_take(
    files: Seq<(Seq<char>, Seq<char>, Seq<Seq<Seq<char>>>)>,
    j: int,
    c: char,
)
    requires
        0 <= j <= files.len(),
    ensures
        files_count(files.take(j), c) <= files_count(files, c),
    decreases files.len() - j,
{
    if j < files.len() {
        lemma_files_count_take(files, j + 1, c);
        assert(files.take(j + 1).drop_last() =~= files.take(j));
    } else {
        assert(files.take(j) =~= files);
    }
}

/// Whether every "diff" line of a `git diff` output is a header that
/// `parse_git_diff` can read.
pub fn check_diff_headers(diff: &str) -> (r: bool)
    ensures
        r == headers_well_formed(diff@),
{
    let lines = split_lines(diff);
    let ghost ls = spec_lines(diff@);
    let diff_word = chars_of("diff");
    let mut i: usize = 0;
    while i < lines.len()
        invariant
            i <= lines.len(),
            lines@.len() == ls.len(),
            ls == spec_lines(diff@),
            forall|k: int| 0 <= k < lines@.len() ==> #[trigger] lines@[k]@ == ls[k],
            diff_word@ == "diff"@,
            forall|k: int|
                0 <= k < i && starts_with(#[trigger] ls[k], "diff"@) ==> spec_parse_line_header(
                    ls[k],
                ) is Some,
        decreases lines.len() - i,
    {
        let line = chars_of(lines[i].as_str());
        if occurs_at_exec(&line, 0, &diff_word) {
            match parse_line_header(&line) {
                Some(_) => {},
                None => {
                    return false;
                },
            }
        }
        i += 1;
    }
    true
}

/// Decimal representation of `n`, without leading zeros.
pub open spec fn dec_repr(n: nat) -> Seq<char>
    decreases n,
{
    if n < 10 {
        seq![hex_digit(n as int)]
    } else {
        dec_repr(n / 10).push(hex_digit((n % 10) as int))
    }
}

pub(crate) fn dec_repr_of(n: u64) -> (r: Vec<char>)
    ensures
        r@ == dec_repr(n as nat),
    decreases n,
{
    if n < 10 {
        let mut r = Vec::new();
        r.push(digit(n));
        assert(r@ =~= seq![hex_digit(n as int)]);
        r
    } else {
        let mut r = dec_repr_of(n / 10);
        r.push(digit(n % 10));
        r
    }
}

/// How a change kind is printed with `{:?}`.
pub open spec fn change_label(kind: ChangeKind) -> Seq<char> {
    match kind {
        ChangeKind::Staged => "Staged"@,
        ChangeKind::Unstaged => "Unstaged"@,
        ChangeKind::Committed(h) => "Committed(GitHash("@ + dec_repr(h.value() as nat) + "))"@,
    }
}

/// The key under which the panel remembers that a file's diff is unfolded.
pub open spec fn expand_key(kind: ChangeKind, title: Seq<char>) -> Seq<char> {
    change_label(kind) + "-"@ + title
}

/// The key under which the panel remembers that the diff of a file with
/// this title is unfolded.
pub fn file_diff_key(kind: ChangeKind, title: &String) -> (r: String)
    ensures
        r@ == expand_key(kind, title@),
{
    let mut r = match kind {
        ChangeKind::Staged => "Staged".to_string(),
        ChangeKind::Unstaged => "Unstaged".to_string(),
        ChangeKind::Committed(h) => {
            let mut c = "Committed(GitHash(".to_string();
            let digits = string_of(&dec_repr_of(h.0));
            c.append(digits.as_str());
            c.append("))");
            c
        },
    };
    r.append("-");
    r.append(title.as_str());
    r
}

/// The keys that a list holds.
pub open spec fn key_set(v: Seq<String>) -> Set<Seq<char>> {
    Set::new(|k: Seq<char>| exists|i: int| 0 <= i < v.len() && v[i]@ == k)
}

/// No key stands twice in the list.
pub open spec fn distinct_keys(v: Seq<String>) -> bool {
    forall|i: int, j: int| 0 <= i < j < v.len() ==> v[i]@ != v[j]@
}

fn find_key(v: &Vec<String>, k: &String) -> (r: Option<usize>)
    ensures
        match r {
            Some(i) => i < v@.len() && v@[i as int]@ == k@,
            None => !key_set(v@).contains(k@),
        },
{
    let mut i: usize = 0;
    while i < v.len()
        invariant
            i <= v@.len(),
            forall|j: int| 0 <= j < i ==> v@[j]@ != k@,
        decreases v@.len() - i,
    {
        if v[i] == *k {
            return Some(i);
        }
        i += 1;
    }
    None
}

fn insert_key(v: &mut Vec<String>, k: String)
    requires
        distinct_keys(old(v)@),
    ensures
        distinct_keys(final(v)@),
        key_set(final(v)@) == key_set(old(v)@).insert(k@),
{
    match find_key(v, &k) {
        Some(i) => {
            assert(key_set(v@).insert(k@) =~= key_set(v@));
        },
        None => {
            let ghost before = v@;
            v.push(k);
            assert forall|x: Seq<char>| #[trigger] key_set(v@).contains(x) == key_set(before).insert(
                k@,
            ).contains(x) by {
                if key_set(before).contains(x) {
                    let j = choose|j: int| 0 <= j < before.len() && before[j]@ == x;
                    assert(v@[j] == before[j]);
                }
                if key_set(v@).contains(x) {
                    let j = choose|j: int| 0 <= j < v@.len() && v@[j]@ == x;
                    if j < before.len() {
                        assert(v@[j] == before[j]);
                    }
                }
                if x == k@ {
                    assert(v@[before.len() as int]@ == x);
                }
            }
            assert(key_set(v@) =~= key_set(before).insert(k@));
            assert forall|i: int, j: int| 0 <= i < j < v@.len() implies v@[i]@ != v@[j]@ by {
                if j == before.len() {
                    assert(v@[i] == before[i]);
                    assert(key_set(before).contains(before[i]@));
                } else {
                    assert(v@[i] == before[i] && v@[j] == before[j]);
                }
            }
        },
    }
}

fn remove_key_at(v: &mut Vec<String>, i: usize)
    requires
        distinct_keys(old(v)@),
        i < old(v)@.len(),
    ensures
        distinct_keys(final(v)@),
        key_set(final(v)@) == key_set(old(v)@).remove(old(v)@[i as int]@),
{
    let ghost before = v@;
    let ghost k = before[i as int]@;
    v.remove(i);
    assert forall|x: Seq<char>| #[trigger] key_set(v@).contains(x) == key_set(before).remove(k).contains(x) by {
        if key_set(v@).contains(x) {
            let j = choose|j: int| 0 <= j < v@.len() && v@[j]@ == x;
            if j < i {
                assert(v@[j] == before[j]);
            } else {
                assert(v@[j] == before[j + 1]);
            }
        }
        if key_set(before).remove(k).contains(x) {
            let j = choose|j: int| 0 <= j < before.len() && before[j]@ == x;
            assert(j != i);
            if j < i {
                assert(v@[j] == before[j]);
            } else {
                assert(v@[j - 1] == before[j]);
            }
        }
    }
    assert(key_set(v@) =~= key_set(before).remove(k));
    assert forall|a: int, b: int| 0 <= a < b < v@.len() implies v@[a]@ != v@[b]@ by {
        let a0 = if a < i { a } else { a + 1 };
        let b0 = if b < i { b } else { b + 1 };
        assert(v@[a] == before[a0]);
        assert(v@[b] == before[b0]);
    }
}

/// Adds the key if it is absent, removes it if it is there.
pub open spec fn toggled(s: Set<Seq<char>>, k: Seq<char>) -> Set<Seq<char>> {
    if s.contains(k) {
        s.remove(k)
    } else {
        s.insert(k)
    }
}

/// Law: unfolding and folding again (or the other way round) leaves the
/// unfolded diffs as they were.
pub proof fn lemma_toggle_twice(s: Set<Seq<char>>, k: Seq<char>)
    ensures
        toggled(toggled(s, k), k) == s,
{
    assert(toggled(toggled(s, k), k) =~= s);
}

fn toggle_key(v: &mut Vec<String>, k: String)
    requires
        distinct_keys(old(v)@),
    ensures
        distinct_keys(final(v)@),
        key_set(final(v)@) == toggled(key_set(old(v)@), k@),
{
    match find_key(v, &k) {
        Some(i) => {
            assert(key_set(v@).contains(k@));
            remove_key_at(v, i);
        },
        None => {
            insert_key(v, k);
        },
    }
}

/// Unfolds a commit, or folds it where it was unfolded.
fn toggle_commit(set: &mut HashSet<u64>, h: GitHash)
    ensures
        final(set)@ == if old(set)@.contains(h.value()) {
            old(set)@.remove(h.value())
        } else {
            old(set)@.insert(h.value())
        },
{
    broadcast use vstd::std_specs::hash::group_hash_axioms;

    let k = h.0;
    if set.contains(&k) {
        set.remove(&k);
    } else {
        set.insert(k);
    }
}

/// A change small enough to be shown unfolded when the panel first loads.
pub open spec fn is_small_diff(d: FileDiff) -> bool {
    d.add + d.remove < 30
}

/// The keys of the small diffs of a list, for changes of the given kind.
pub open spec fn small_diff_keys(diffs: Seq<FileDiff>, kind: ChangeKind) -> Set<Seq<char>> {
    Set::new(
        |k: Seq<char>|
            exists|j: int|
                0 <= j < diffs.len() && is_small_diff(#[trigger] diffs[j]) && k == expand_key(
                    kind,
                    spec_title(diffs[j].file_a@, diffs[j].file_b@),
                ),
    )
}

/// What is unfolded when git information first arrives: the small staged
/// and unstaged diffs.
pub open spec fn first_load_keys(i: GitInfo) -> Set<Seq<char>> {
    small_diff_keys(i.staged@, ChangeKind::Staged).union(
        small_diff_keys(i.unstaged@, ChangeKind::Unstaged),
    )
}

fn unfold_small_diffs(keys: &mut Vec<String>, diffs: &Vec<FileDiff>, kind: ChangeKind)
    requires
        distinct_keys(old(keys)@),
    ensures
        distinct_keys(final(keys)@),
        key_set(final(keys)@) == key_set(old(keys)@).union(small_diff_keys(diffs@, kind)),
{
    let ghost start = key_set(keys@);
    let mut i: usize = 0;
    while i < diffs.len()
        invariant
            i <= diffs@.len(),
            distinct_keys(keys@),
            key_set(keys@) == start.union(small_diff_keys(diffs@.take(i as int), kind)),
        decreases diffs@.len() - i,
    {
        let d = &diffs[i];
        let ghost prev = key_set(keys@);
        if d.add < 30 && d.remove < 30 - d.add {
            let title = d.title();
            let key = file_diff_key(kind, &title);
            insert_key(keys, key);
            assert(small_diff_keys(diffs@.take(i + 1), kind) =~= small_diff_keys(
                diffs@.take(i as int),
                kind,
            ).insert(key@)) by {
                assert(diffs@.take(i + 1)[i as int] == diffs@[i as int]);
                assert forall|k: Seq<char>| #[trigger] small_diff_keys(diffs@.take(i + 1), kind).contains(k)
                    implies small_diff_keys(diffs@.take(i as int), kind).insert(key@).contains(k) by {
                    let j = choose|j: int|
                        0 <= j < i + 1 && is_small_diff(#[trigger] diffs@.take(i + 1)[j]) && k
                            == expand_key(
                            kind,
                            spec_title(diffs@.take(i + 1)[j].file_a@, diffs@.take(i + 1)[j].file_b@),
                        );
                    if j < i {
                        assert(diffs@.take(i as int)[j] == diffs@.take(i + 1)[j]);
                    }
                }
                assert forall|k: Seq<char>| #[trigger] small_diff_keys(diffs@.take(i as int), kind).contains(k)
                    implies small_diff_keys(diffs@.take(i + 1), kind).contains(k) by {
                    let j = choose|j: int|
                        0 <= j < i && is_small_diff(#[trigger] diffs@.take(i as int)[j]) && k
                            == expand_key(
                            kind,
                            spec_title(diffs@.take(i as int)[j].file_a@, diffs@.take(i as int)[j].file_b@),
                        );
                    assert(diffs@.take(i as int)[j] == diffs@.take(i + 1)[j]);
                }
            }
            assert(key_set(keys@) =~= start.union(small_diff_keys(diffs@.take(i + 1), kind)));
        } else {
            assert(small_diff_keys(diffs@.take(i + 1), kind) =~= small_diff_keys(
                diffs@.take(i as int),
                kind,
            )) by {
                assert forall|k: Seq<char>| #[trigger] small_diff_keys(diffs@.take(i + 1), kind).contains(k)
                    implies small_diff_keys(diffs@.take(i as int), kind).contains(k) by {
                    let j = choose|j: int|
                        0 <= j < i + 1 && is_small_diff(#[trigger] diffs@.take(i + 1)[j]) && k
                            == expand_key(
                            kind,
                            spec_title(diffs@.take(i + 1)[j].file_a@, diffs@.take(i + 1)[j].file_b@),
                        );
                    assert(j != i);
                    assert(diffs@.take(i as int)[j] == diffs@.take(i + 1)[j]);
                }
                assert forall|k: Seq<char>| #[trigger] small_diff_keys(diffs@.take(i as int), kind).contains(k)
                    implies small_diff_keys(diffs@.take(i + 1), kind).contains(k) by {
                    let j = choose|j: int|
                        0 <= j < i && is_small_diff(#[trigger] diffs@.take(i as int)[j]) && k
                            == expand_key(
                            kind,
                            spec_title(diffs@.take(i as int)[j].file_a@, diffs@.take(i as int)[j].file_b@),
                        );
                    assert(diffs@.take(i as int)[j] == diffs@.take(i + 1)[j]);
                }
            }
        }
        i += 1;
    }
    assert(diffs@.take(diffs@.len() as int) =~= diffs@);
}

/// The state of the git panel.
pub struct IcedContext {
    pub path: String,
    /// The background job that loads `git_info`, while one is in flight.
    pub git_info_job_id: Option<JobId>,
    pub git_info: Option<GitInfo>,
    /// Keys (see `expand_key`) of the file diffs that are unfolded.
    pub expanded_file_diffs: Vec<String>,
    /// The commits whose details are unfolded, by hash value.
    pub expanded_commits: HashSet<u64>,
    pub selected_tab: Tab,
    pub hovered_tab: Option<Tab>,
    pub error: Option<String>,
}

impl IcedContext {
    /// The list of unfolded diffs holds no key twice.
    pub open spec fn wf(&self) -> bool {
        distinct_keys(self.expanded_file_diffs@)
    }

    /// A panel for the repository at `path`, whose first load is the job
    /// `init_job_id`.
    pub fn new(path: &str, init_job_id: JobId) -> (r: IcedContext)
        ensures
            r.wf(),
            r.path@ == path@,
            r.git_info_job_id == Some(init_job_id),
            r.git_info is None,
            r.expanded_file_diffs@.len() == 0,
            r.expanded_commits@ == Set::<u64>::empty(),
            r.selected_tab == Tab::Changes,
            r.hovered_tab is None,
            r.error is None,
    {
        IcedContext {
            path: path.to_string(),
            git_info_job_id: Some(init_job_id),
            git_info: None,
            expanded_file_diffs: Vec::new(),
            expanded_commits: HashSet::new(),
            selected_tab: Tab::Changes,
            hovered_tab: None,
            error: None,
        }
    }
}

/// What the git panel reacts to.
pub enum IcedMessage {
    /// A frame of the animation clock; there are 10 a second.
    Tick { frame: usize },
    HoverTab(Tab),
    UnhoverTab,
    SelectTab(Tab),
    ExpandFileDiff(String),
    ExpandCommit(GitHash),
    Stage(usize, usize),
    Unstage(usize, usize),
    Revert(usize, usize),
    /// Handed to the worker pool by the caller, not to `update`.
    BackgroundJob(Job),
    BackgroundJobResult(JobResult),
    /// Shown to the user by the caller, not handed to `update`.
    Notify(String),
}

fn same_job(a: Option<JobId>, b: Option<JobId>) -> (r: bool)
    ensures
        r == (a == b),
{
    match (a, b) {
        (Some(x), Some(y)) => x.0 == y.0,
        (None, None) => true,
        _ => false,
    }
}

/// Reacts to one message. The result is the message that the caller
/// handles next, if any: a job to hand to the workers, or a notice for the
/// user.
pub fn update(context: &mut IcedContext, message: IcedMessage) -> (r: Option<IcedMessage>)
    requires
        old(context).wf(),
        !(message is BackgroundJob),
        !(message is Notify),
    ensures
        final(context).wf(),
        match message {
            IcedMessage::Tick { frame } => if old(context).git_info_job_id is None && frame % 16 == 0 {
                r matches Some(IcedMessage::BackgroundJob(job)) && (job.kind matches JobKind::GetGitInfo {
                    path,
                } && path@ == old(context).path@) && *final(context) == (IcedContext {
                    git_info_job_id: Some(job.id),
                    ..*old(context)
                })
            } else {
                r is None && *final(context) == *old(context)
            },
            IcedMessage::HoverTab(t) => r is None && *final(context) == (IcedContext {
                hovered_tab: Some(t),
                ..*old(context)
            }),
            IcedMessage::UnhoverTab => r is None && *final(context) == (IcedContext {
                hovered_tab: None,
                ..*old(context)
            }),
            IcedMessage::SelectTab(t) => r is None && *final(context) == (IcedContext {
                selected_tab: t,
                ..*old(context)
            }),
            IcedMessage::ExpandFileDiff(d) => r is None && key_set(final(context).expanded_file_diffs@)
                == toggled(key_set(old(context).expanded_file_diffs@), d@) && *final(context) == (
            IcedContext { expanded_file_diffs: final(context).expanded_file_diffs, ..*old(context) }),
            IcedMessage::ExpandCommit(c) => r is None && final(context).expanded_commits@ == (
            if old(context).expanded_commits@.contains(c.value()) {
                old(context).expanded_commits@.remove(c.value())
            } else {
                old(context).expanded_commits@.insert(c.value())
            }) && *final(context) == (IcedContext {
                expanded_commits: final(context).expanded_commits,
                ..*old(context)
            }),
            IcedMessage::Stage(_, _) => *final(context) == *old(context) && (r matches Some(
                IcedMessage::Notify(n),
            ) && n@ == "Not implemented: Stage changes"@),
            IcedMessage::Unstage(_, _) => *final(context) == *old(context) && (r matches Some(
                IcedMessage::Notify(n),
            ) && n@ == "Not implemented: Unstage changes"@),
            IcedMessage::Revert(_, _) => *final(context) == *old(context) && (r matches Some(
                IcedMessage::Notify(n),
            ) && n@ == "Not implemented: Revert changes"@),
            IcedMessage::BackgroundJobResult(jr) => r is None && match jr.kind {
                JobResultKind::GetGitInfo(i) => if old(context).git_info_job_id == jr.id {
                    &&& final(context).git_info == Some(i)
                    &&& final(context).git_info_job_id is None
                    &&& old(context).git_info is None ==> key_set(
                        final(context).expanded_file_diffs@,
                    ) == first_load_keys(i)
                    &&& old(context).git_info is Some ==> final(context).expanded_file_diffs
                        == old(context).expanded_file_diffs
                    &&& !i.is_git_repo ==> (final(context).error matches Some(e) && e@
                        == "Not a git repository"@)
                    &&& i.is_git_repo ==> final(context).error == old(context).error
                    &&& final(context).path == old(context).path
                    &&& final(context).expanded_commits == old(context).expanded_commits
                    &&& final(context).selected_tab == old(context).selected_tab
                    &&& final(context).hovered_tab == old(context).hovered_tab
                } else {
                    *final(context) == *old(context)
                },
                JobResultKind::GetGitInfoError(e) => *final(context) == (IcedContext {
                    error: Some(e),
                    ..*old(context)
                }),
                _ => *final(context) == *old(context),
            },
            _ => true,
        },
{
    match message {
        IcedMessage::Tick { frame } => {
            if context.git_info_job_id.is_none() && frame % 16 == 0 {
                let new_job_id = JobId::new();
                context.git_info_job_id = Some(new_job_id);
                return Some(
                    IcedMessage::BackgroundJob(
                        Job { id: new_job_id, kind: JobKind::GetGitInfo { path: context.path.clone() } },
                    ),
                );
            }
            None
        },
        IcedMessage::HoverTab(t) => {
            context.hovered_tab = Some(t);
            None
        },
        IcedMessage::UnhoverTab => {
            context.hovered_tab = None;
            None
        },
        IcedMessage::SelectTab(t) => {
            context.selected_tab = t;
            None
        },
        IcedMessage::ExpandFileDiff(d) => {
            toggle_key(&mut context.expanded_file_diffs, d);
            None
        },
        IcedMessage::ExpandCommit(c) => {
            toggle_commit(&mut context.expanded_commits, c);
            None
        },
        IcedMessage::Stage(_, _) => Some(IcedMessage::Notify("Not implemented: Stage changes".to_string())),
        IcedMessage::Unstage(_, _) => Some(IcedMessage::Notify("Not implemented: Unstage changes".to_string())),
        IcedMessage::Revert(_, _) => Some(IcedMessage::Notify("Not implemented: Revert changes".to_string())),
        IcedMessage::BackgroundJob(_) => None,
        IcedMessage::BackgroundJobResult(job_result) => {
            let JobResult { id, kind } = job_result;
            match kind {
                JobResultKind::GetGitInfo(i) => {
                    if same_job(context.git_info_job_id, id) {
                        let first_load = context.git_info.is_none();
                        if first_load {
                            let mut keys: Vec<String> = Vec::new();
                            unfold_small_diffs(&mut keys, &i.staged, ChangeKind::Staged);
                            unfold_small_diffs(&mut keys, &i.unstaged, ChangeKind::Unstaged);
                            proof {
                                assert(key_set(Seq::<String>::empty()) =~= Set::<Seq<char>>::empty());
                                assert(key_set(keys@) =~= first_load_keys(i));
                            }
                            context.expanded_file_diffs = keys;
                        }
                        if !i.is_git_repo {
                            context.error = Some("Not a git repository".to_string());
                        }
                        context.git_info = Some(i);
                        context.git_info_job_id = None;
                    }
                },
                JobResultKind::GetGitInfoError(e) => {
                    context.error = Some(e);
                },
                _ => {},
            }
            None
        },
        IcedMessage::Notify(_) => None,
    }
}

/// A git invocation that loading the panel needs.
#[derive(Clone, Copy, Debug, PartialEq, Eq, Structural)]
pub enum GitCommand {
    /// Tells whether the directory is a repository.
    Status,
    /// Changes of the working tree against the index.
    DiffUnstaged,
    /// Changes of the index against the last commit.
    DiffStaged,
    /// The last 100 commits, one line each.
    Log,
    /// The commit object.
    CatFile(GitHash),
    /// Changes of a commit against its (first) parent.
    DiffCommit { parent: GitHash, commit: GitHash },
}

/// A hash the way git's command line takes it: 16 hex digits.
pub open spec fn hash_arg(h: GitHash) -> Seq<char> {
    zero_pad(hex_repr(h.value() as nat), 16)
}

/// The arguments that follow `git`.
pub open spec fn spec_git_args(c: GitCommand) -> Seq<Seq<char>> {
    match c {
        GitCommand::Status => seq!["status"@],
        GitCommand::DiffUnstaged => seq!["diff"@, "-U5"@, "--diff-algorithm=patience"@, "--no-color"@],
        GitCommand::DiffStaged => seq![
            "diff"@,
            "--cached"@,
            "-U5"@,
            "--diff-algorithm=patience"@,
            "--no-color"@,
        ],
        GitCommand::Log => seq!["log"@, "--oneline"@, "--abbrev=16"@, "-n100"@, "--no-color"@],
        GitCommand::CatFile(h) => seq!["cat-file"@, "commit"@, hash_arg(h)],
        GitCommand::DiffCommit { parent, commit } => seq![
            "diff"@,
            hash_arg(parent),
            hash_arg(commit),
            "-U5"@,
            "--diff-algorithm=patience"@,
            "--no-color"@,
        ],
    }
}

pub open spec fn strings_view(v: Seq<String>) -> Seq<Seq<char>> {
    v.map_values(|s: String| s@)
}

fn push_arg(v: &mut Vec<String>, a: &str)
    ensures
        strings_view(final(v)@) == strings_view(old(v)@).push(a@),
{
    v.push(a.to_string());
    assert(strings_view(v@) =~= strings_view(old(v)@).push(a@));
}

fn push_hash_arg(v: &mut Vec<String>, h: GitHash)
    ensures
        strings_view(final(v)@) == strings_view(old(v)@).push(hash_arg(h)),
{
    v.push(h.to_hex());
    assert(strings_view(v@) =~= strings_view(old(v)@).push(hash_arg(h)));
}

impl GitCommand {
    /// The arguments that follow `git`.
    pub fn args(&self) -> (r: Vec<String>)
        ensures
            strings_view(r@) == spec_git_args(*self),
    {
        let mut r: Vec<String> = Vec::new();
        assert(strings_view(r@) =~= Seq::<Seq<char>>::empty());
        match *self {
            GitCommand::Status => {
                push_arg(&mut r, "status");
            },
            GitCommand::DiffUnstaged => {
                push_arg(&mut r, "diff");
                push_arg(&mut r, "-U5");
                push_arg(&mut r, "--diff-algorithm=patience");
                push_arg(&mut r, "--no-color");
            },
            GitCommand::DiffStaged => {
                push_arg(&mut r, "diff");
                push_arg(&mut r, "--cached");
                push_arg(&mut r, "-U5");
                push_arg(&mut r, "--diff-algorithm=patience");
                push_arg(&mut r, "--no-color");
            },
            GitCommand::Log => {
                push_arg(&mut r, "log");
                push_arg(&mut r, "--oneline");
                push_arg(&mut r, "--abbrev=16");
                push_arg(&mut r, "-n100");
                push_arg(&mut r, "--no-color");
            },
            GitCommand::CatFile(h) => {
                push_arg(&mut r, "cat-file");
                push_arg(&mut r, "commit");
                push_hash_arg(&mut r, h);
            },
            GitCommand::DiffCommit { parent, commit } => {
                push_arg(&mut r, "diff");
                push_hash_arg(&mut r, parent);
                push_hash_arg(&mut r, commit);
                push_arg(&mut r, "-U5");
                push_arg(&mut r, "--diff-algorithm=patience");
                push_arg(&mut r, "--no-color");
            },
        }
        proof {
            assert(strings_view(r@) =~= spec_git_args(*self));
        }
        r
    }
}

/// What a `git cat-file commit` output gives.
pub enum CommitLoad {
    /// The output is not a commit object.
    Malformed,
    /// A root commit: nothing more to load.
    Loaded(CommitInfo),
    /// The commit's changes against its parent are still to be read, with
    /// this command.
    NeedsDiff(CommitInfo, GitCommand),
}

/// Reads a commit object. A commit with a parent still needs its diff
/// against that parent (see `attach_commit_diff`).
pub fn load_commit_info(commit: GitHash, cat_file_output: &str) -> (r: CommitLoad)
    ensures
        match commit_info_captures(cat_file_output@) {
            None => r is Malformed,
            Some(caps) => match caps[2] {
                None => r matches CommitLoad::Loaded(c) && commit_from_captures(commit, caps, c),
                Some(_) => r matches CommitLoad::NeedsDiff(c, cmd) && commit_from_captures(
                    commit,
                    caps,
                    c,
                ) && (c.parent matches Some(p) && cmd == (GitCommand::DiffCommit { parent: p, commit })),
            },
        },
{
    match parse_commit_info(commit, cat_file_output) {
        None => CommitLoad::Malformed,
        Some(c) => match c.parent {
            Some(p) => CommitLoad::NeedsDiff(c, GitCommand::DiffCommit { parent: p, commit }),
            None => CommitLoad::Loaded(c),
        },
    }
}

/// Where loading the panel's information stands: the output of which
/// command comes next.
#[derive(Clone, Copy, Debug, PartialEq, Eq, Structural)]
pub enum LoadStage {
    Status,
    DiffUnstaged,
    DiffStaged,
    Log,
    CatFile,
    CommitDiff,
    Finished,
}

/// What the caller does after a step of loading.
pub enum LoadStep {
    /// Runs `git` with this command's arguments and hands its output to the next step.
    Run(GitCommand),
    Done(GitInfo),
    /// Git gave an output that cannot be read.
    Failed(String),
}

/// Loads what the git panel shows, one git command at a time: whether the
/// directory is a repository, the unstaged and the staged changes, and
/// the most recent commits with their changes. The caller runs the
/// commands; the loader decides what comes next.
pub struct GitInfoLoader {
    pub stage: LoadStage,
    pub is_git_repo: bool,
    pub unstaged: Vec<FileDiff>,
    pub staged: Vec<FileDiff>,
    /// The commits that `git log` listed, newest first.
    pub hashes: Vec<GitHash>,
    /// The commits loaded so far, in the order of `hashes`.
    pub commits: Vec<CommitInfo>,
    /// The commit whose diff against its parent is being read.
    pub pending: Option<CommitInfo>,
}

/// How long the commits may take to load, in milliseconds: once it is
/// over, the commits loaded so far are shown.
pub const COMMITS_TIME_LIMIT_MS: u64 = 10_000;

/// Every file diff counts its lines, and every commit is complete.
pub open spec fn info_complete(i: GitInfo) -> bool {
    &&& forall|k: int| 0 <= k < i.staged@.len() ==> (#[trigger] i.staged@[k]).wf()
    &&& forall|k: int| 0 <= k < i.unstaged@.len() ==> (#[trigger] i.unstaged@[k]).wf()
    &&& forall|k: int| 0 <= k < i.recent_commits@.len() ==> commit_complete(#[trigger] i.recent_commits@[k])
}

/// The information that loading ends with: what `l` read, with these commits.
pub open spec fn finished_info(i: GitInfo, l: GitInfoLoader, commits: Seq<CommitInfo>) -> bool {
    &&& i.is_git_repo == l.is_git_repo
    &&& i.staged == l.staged
    &&& i.unstaged == l.unstaged
    &&& i.recent_commits@ == commits
}

/// A loaded commit: one with a parent has its changes against it, a root
/// commit has none.
pub open spec fn commit_complete(c: CommitInfo) -> bool {
    &&& (c.parent is Some) == (c.diff is Some)
    &&& c.diff matches Some(d) ==> forall|k: int| 0 <= k < d@.len() ==> (#[trigger] d@[k]).wf()
    &&& c.diff is None ==> c.add == 0 && c.remove == 0
}

/// The stages before the commits, counted down to the commit listing.
pub open spec fn load_phase(l: GitInfoLoader) -> nat {
    match l.stage {
        LoadStage::Status => 4,
        LoadStage::DiffUnstaged => 3,
        LoadStage::DiffStaged => 2,
        LoadStage::Log => 1,
        _ => 0,
    }
}

/// While commits load: twice the commits still to load, one less while a
/// commit's diff is being read.
pub open spec fn commit_rank(l: GitInfoLoader) -> nat {
    match l.stage {
        LoadStage::CatFile => (2 * (l.hashes@.len() - l.commits@.len())) as nat,
        LoadStage::CommitDiff => (2 * (l.hashes@.len() - l.commits@.len()) - 1) as nat,
        _ => 0,
    }
}

/// The messages with which loading fails on an output that cannot be read.
pub open spec fn load_failure(m: Seq<char>) -> bool {
    ||| m == "git diff gave a file header that cannot be read"@
    ||| m == "git cat-file gave no commit object"@
    ||| m == "no commit was loading"@
    ||| m == "loading has finished"@
}

/// A step that asks for another command brings the loader closer to its end.
pub open spec fn load_progress(before: GitInfoLoader, after: GitInfoLoader) -> bool {
    ||| load_phase(after) < load_phase(before)
    ||| load_phase(after) == load_phase(before) && commit_rank(after) < commit_rank(before)
}

/// The file diffs are those that a `git diff` output parses to.
pub open spec fn diffs_parsed_from(d: Seq<FileDiff>, diff: Seq<char>) -> bool {
    &&& d.len() == spec_parse_git_diff(diff).len()
    &&& forall|k: int|
        0 <= k < d.len() ==> (#[trigger] d[k]).spec_view() == spec_parse_git_diff(diff)[k] && d[k].wf()
}

fn take_vec<T>(v: &mut Vec<T>) -> (r: Vec<T>)
    ensures
        r == *old(v),
        final(v)@.len() == 0,
{
    let mut t: Vec<T> = Vec::new();
    std::mem::swap(&mut t, v);
    t
}

/// What one step of loading does: `before` and `after` are the loader
/// before and after the step, which took the standard output and standard
/// error of the command asked for and the milliseconds since the commit
/// list was read, and answered `r`.
#[verifier::opaque]
pub open spec fn load_step_spec(
    before: GitInfoLoader,
    stdout: Seq<char>,
    stderr: Seq<char>,
    elapsed_ms: u64,
    after: GitInfoLoader,
    r: LoadStep,
) -> bool {
    &&& after.wf()
    &&& (r is Run) == (after.stage != LoadStage::Finished)
    &&& r is Run ==> load_progress(before, after)
    &&& r matches LoadStep::Done(i) ==> info_complete(i)
    &&& r matches LoadStep::Failed(m) ==> load_failure(m@)
    // While commits load, the rest of what was read stays.
    &&& r is Run && (before.stage == LoadStage::CatFile || before.stage == LoadStage::CommitDiff)
        ==> after.hashes == before.hashes && after.staged == before.staged && after.unstaged
        == before.unstaged && after.is_git_repo == before.is_git_repo
    // After the first step, loading ends with what was read, and with
    // commits in the order of the list.
    &&& r is Done && before.stage != LoadStage::Status ==> ({
        let i = r->Done_0;
        &&& i.is_git_repo == before.is_git_repo
        &&& i.staged == before.staged
        &&& i.unstaged == before.unstaged
        &&& i.recent_commits@.len() <= before.hashes@.len()
        &&& forall|k: int|
            0 <= k < i.recent_commits@.len() ==> (#[trigger] i.recent_commits@[k]).commit_hash
                == before.hashes@[k]
    })
    &&& match before.stage {
        LoadStage::Status => if contains_seq(stderr, "fatal: not a git repository"@) {
            r matches LoadStep::Done(i) && !i.is_git_repo && i.staged@.len() == 0
                && i.unstaged@.len() == 0 && i.recent_commits@.len() == 0
        } else {
            &&& r == LoadStep::Run(GitCommand::DiffUnstaged)
            &&& after.stage == LoadStage::DiffUnstaged
            &&& after.is_git_repo
            &&& after.unstaged == before.unstaged
            &&& after.staged == before.staged
        },
        LoadStage::DiffUnstaged => if headers_well_formed(stdout) {
            &&& r == LoadStep::Run(GitCommand::DiffStaged)
            &&& after.stage == LoadStage::DiffStaged
            &&& diffs_parsed_from(after.unstaged@, stdout)
            &&& after.staged == before.staged
            &&& after.is_git_repo == before.is_git_repo
        } else {
            r is Failed
        },
        LoadStage::DiffStaged => if headers_well_formed(stdout) {
            &&& r == LoadStep::Run(GitCommand::Log)
            &&& after.stage == LoadStage::Log
            &&& diffs_parsed_from(after.staged@, stdout)
            &&& after.unstaged == before.unstaged
            &&& after.is_git_repo == before.is_git_repo
        } else {
            r is Failed
        },
        LoadStage::Log => {
            let hs = spec_log_hashes(spec_lines(stdout));
            if hs.len() == 0 {
                r matches LoadStep::Done(i) && finished_info(i, before, Seq::empty())
            } else {
                &&& after.hashes@.len() == hs.len()
                &&& forall|k: int|
                    0 <= k < hs.len() ==> (#[trigger] after.hashes@[k]).value() == hs[k]
                &&& after.commits@.len() == 0
                &&& r == LoadStep::Run(GitCommand::CatFile(after.hashes@[0]))
                &&& after.staged == before.staged
                &&& after.unstaged == before.unstaged
                &&& after.is_git_repo == before.is_git_repo
            }
        },
        LoadStage::CatFile => {
            let h = before.hashes@[before.commits@.len() as int];
            match commit_info_captures(stdout) {
                None => r is Failed,
                Some(caps) => match caps[2] {
                    None => exists|c: CommitInfo|
                        commit_from_captures(h, caps, c) && ({
                            let cs = before.commits@.push(c);
                            if elapsed_ms > COMMITS_TIME_LIMIT_MS || cs.len() == before.hashes@.len() {
                                r matches LoadStep::Done(i) && finished_info(i, before, cs)
                            } else {
                                &&& r == LoadStep::Run(
                                    GitCommand::CatFile(before.hashes@[cs.len() as int]),
                                )
                                &&& after.commits@ == cs
                            }
                        }),
                    Some(_) => {
                        &&& after.stage == LoadStage::CommitDiff
                        &&& after.pending matches Some(c) && commit_from_captures(
                            h,
                            caps,
                            c,
                        ) && (c.parent matches Some(p) && r == LoadStep::Run(
                            GitCommand::DiffCommit { parent: p, commit: h },
                        ))
                        &&& after.commits == before.commits
                    },
                },
            }
        },
        LoadStage::CommitDiff => if headers_well_formed(stdout) {
            exists|c: CommitInfo|
                diff_attached(before.pending->0, c, stdout) && ({
                    let cs = before.commits@.push(c);
                    if elapsed_ms > COMMITS_TIME_LIMIT_MS || cs.len() == before.hashes@.len() {
                        r matches LoadStep::Done(i) && finished_info(i, before, cs)
                    } else {
                        &&& r == LoadStep::Run(
                            GitCommand::CatFile(before.hashes@[cs.len() as int]),
                        )
                        &&& after.commits@ == cs
                    }
                })
        } else {
            r is Failed
        },
        LoadStage::Finished => true,
    }
}

impl GitInfoLoader {
    /// The commits loaded so far are those that the log listed first, in
    /// order; while a commit is loading, there is one more to load.
    pub open spec fn wf(&self) -> bool {
        &&& self.commits@.len() <= self.hashes@.len()
        &&& forall|k: int|
            0 <= k < self.commits@.len() ==> (#[trigger] self.commits@[k]).commit_hash
                == self.hashes@[k]
        &&& (self.stage == LoadStage::CatFile || self.stage == LoadStage::CommitDiff)
            ==> self.commits@.len() < self.hashes@.len()
        &&& self.stage == LoadStage::CommitDiff ==> (self.pending matches Some(c) && c.commit_hash
            == self.hashes@[self.commits@.len() as int] && c.parent is Some && c.diff is None)
        &&& forall|k: int| 0 <= k < self.staged@.len() ==> (#[trigger] self.staged@[k]).wf()
        &&& forall|k: int| 0 <= k < self.unstaged@.len() ==> (#[trigger] self.unstaged@[k]).wf()
        &&& forall|k: int| 0 <= k < self.commits@.len() ==> commit_complete(#[trigger] self.commits@[k])
    }

    /// A loader at its start, with the first command to run.
    pub fn start() -> (r: (GitInfoLoader, GitCommand))
        ensures
            r.0.wf(),
            r.0.stage == LoadStage::Status,
            r.0.unstaged@.len() == 0,
            r.0.staged@.len() == 0,
            r.0.hashes@.len() == 0,
            r.0.commits@.len() == 0,
            r.0.pending is None,
            !r.0.is_git_repo,
            r.1 == GitCommand::Status,
    {
        (
            GitInfoLoader {
                stage: LoadStage::Status,
                is_git_repo: false,
                unstaged: Vec::new(),
                staged: Vec::new(),
                hashes: Vec::new(),
                commits: Vec::new(),
                pending: None,
            },
            GitCommand::Status,
        )
    }

    fn finish(&mut self) -> (r: LoadStep)
        requires
            forall|k: int| 0 <= k < old(self).staged@.len() ==> (#[trigger] old(self).staged@[k]).wf(),
            forall|k: int| 0 <= k < old(self).unstaged@.len() ==> (#[trigger] old(self).unstaged@[k]).wf(),
            forall|k: int| 0 <= k < old(self).commits@.len() ==> commit_complete(#[trigger] old(self).commits@[k]),
        ensures
            r matches LoadStep::Done(i) && finished_info(i, *old(self), old(self).commits@)
                && info_complete(i),
            final(self).stage == LoadStage::Finished,
            final(self).commits@.len() == 0,
            final(self).staged@.len() == 0,
            final(self).unstaged@.len() == 0,
    {
        let staged = take_vec(&mut self.staged);
        let unstaged = take_vec(&mut self.unstaged);
        let recent_commits = take_vec(&mut self.commits);
        self.stage = LoadStage::Finished;
        LoadStep::Done(GitInfo { is_git_repo: self.is_git_repo, staged, unstaged, recent_commits })
    }

    fn fail(&mut self, message: &str) -> (r: LoadStep)
        requires
            old(self).wf(),
        ensures
            r matches LoadStep::Failed(m) && m@ == message@,
            final(self).wf(),
            final(self).stage == LoadStage::Finished,
    {
        self.stage = LoadStage::Finished;
        LoadStep::Failed(message.to_string())
    }

    /// A commit is loaded: it is kept, and the next one is asked for unless
    /// all are loaded or the time is over.
    fn finish_commit(&mut self, c: CommitInfo, elapsed_ms: u64) -> (r: LoadStep)
        requires
            old(self).commits@.len() < old(self).hashes@.len(),
            forall|k: int|
                0 <= k < old(self).commits@.len() ==> (#[trigger] old(self).commits@[k]).commit_hash
                    == old(self).hashes@[k],
            c.commit_hash == old(self).hashes@[old(self).commits@.len() as int],
            commit_complete(c),
            forall|k: int| 0 <= k < old(self).staged@.len() ==> (#[trigger] old(self).staged@[k]).wf(),
            forall|k: int| 0 <= k < old(self).unstaged@.len() ==> (#[trigger] old(self).unstaged@[k]).wf(),
            forall|k: int| 0 <= k < old(self).commits@.len() ==> commit_complete(#[trigger] old(self).commits@[k]),
        ensures
            final(self).wf(),
            ({
                let cs = old(self).commits@.push(c);
                if elapsed_ms > COMMITS_TIME_LIMIT_MS || cs.len() == old(self).hashes@.len() {
                    &&& r matches LoadStep::Done(i) && finished_info(i, *old(self), cs)
                    &&& final(self).stage == LoadStage::Finished
                } else {
                    &&& r == LoadStep::Run(GitCommand::CatFile(old(self).hashes@[cs.len() as int]))
                    &&& final(self).stage == LoadStage::CatFile
                    &&& final(self).commits@ == cs
                    &&& final(self).pending is None
                    &&& final(self).hashes == old(self).hashes
                    &&& final(self).staged == old(self).staged
                    &&& final(self).unstaged == old(self).unstaged
                    &&& final(self).is_git_repo == old(self).is_git_repo
                }
            }),
    {
        let ghost before = self.commits@;
        self.commits.push(c);
        self.pending = None;
        assert forall|k: int| 0 <= k < self.commits@.len() implies commit_complete(
            #[trigger] self.commits@[k],
        ) && self.commits@[k].commit_hash == self.hashes@[k] by {
            if k < before.len() {
                assert(self.commits@[k] == before[k]);
            }
        }
        if elapsed_ms > COMMITS_TIME_LIMIT_MS || self.commits.len() == self.hashes.len() {
            self.finish()
        } else {
            self.stage = LoadStage::CatFile;
            LoadStep::Run(GitCommand::CatFile(self.hashes[self.commits.len()]))
        }
    }

    /// Takes the output of the command that the previous step asked for and
    /// says what comes next. `elapsed_ms` is the time since the commit list
    /// was read (it matters only while commits load).
    pub fn step(&mut self, stdout: &str, stderr: &str, elapsed_ms: u64) -> (r: LoadStep)
        requires
            old(self).wf(),
            old(self).stage != LoadStage::Finished,
        ensures
            load_step_spec(*old(self), stdout@, stderr@, elapsed_ms, *final(self), r),
    {
        reveal(load_step_spec);
        match self.stage {
            LoadStage::Status => {
                if contains_str(stderr, "fatal: not a git repository") {
                    self.is_git_repo = false;
                    self.staged = Vec::new();
                    self.unstaged = Vec::new();
                    self.commits = Vec::new();
                    self.finish()
                } else {
                    self.is_git_repo = true;
                    self.stage = LoadStage::DiffUnstaged;
                    LoadStep::Run(GitCommand::DiffUnstaged)
                }
            },
            LoadStage::DiffUnstaged => {
                if !check_diff_headers(stdout) {
                    return self.fail("git diff gave a file header that cannot be read");
                }
                self.unstaged = parse_git_diff(stdout);
                self.stage = LoadStage::DiffStaged;
                LoadStep::Run(GitCommand::DiffStaged)
            },
            LoadStage::DiffStaged => {
                if !check_diff_headers(stdout) {
                    return self.fail("git diff gave a file header that cannot be read");
                }
                self.staged = parse_git_diff(stdout);
                self.stage = LoadStage::Log;
                LoadStep::Run(GitCommand::Log)
            },
            LoadStage::Log => {
                self.hashes = parse_git_log(stdout);
                self.commits = Vec::new();
                if self.hashes.len() == 0 {
                    self.finish()
                } else {
                    self.stage = LoadStage::CatFile;
                    LoadStep::Run(GitCommand::CatFile(self.hashes[0]))
                }
            },
            LoadStage::CatFile => {
                let h = self.hashes[self.commits.len()];
                match load_commit_info(h, stdout) {
                    CommitLoad::Malformed => self.fail("git cat-file gave no commit object"),
                    CommitLoad::Loaded(c) => self.finish_commit(c, elapsed_ms),
                    CommitLoad::NeedsDiff(c, cmd) => {
                        self.pending = Some(c);
                        self.stage = LoadStage::CommitDiff;
                        LoadStep::Run(cmd)
                    },
                }
            },
            LoadStage::CommitDiff => {
                if !check_diff_headers(stdout) {
                    return self.fail("git diff gave a file header that cannot be read");
                }
                let mut p: Option<CommitInfo> = None;
                std::mem::swap(&mut p, &mut self.pending);
                match p {
                    Some(mut c) => {
                        attach_commit_diff(&mut c, stdout);
                        self.finish_commit(c, elapsed_ms)
                    },
                    None => self.fail("no commit was loading"),
                }
            },
            LoadStage::Finished => self.fail("loading has finished"),
        }
    }
}

/// One run of git while loading: the loader before it, the command run,
/// the bytes of the standard output and standard error that git gave
/// (read as UTF-8, with `U+FFFD` for what is not), the milliseconds
/// counted since the commit list was read, the loader after the step that
/// took the output, and what that step answered.
pub struct LoadRecord {
    pub before: GitInfoLoader,
    pub cmd: GitCommand,
    pub out: (Vec<u8>, Vec<u8>),
    pub elapsed_ms: u64,
    pub after: GitInfoLoader,
    pub step: LoadStep,
}

/// A loader as `GitInfoLoader::start` makes it.
pub open spec fn loader_at_start(l: GitInfoLoader) -> bool {
    &&& l.wf()
    &&& l.stage == LoadStage::Status
    &&& l.unstaged@.len() == 0
    &&& l.staged@.len() == 0
    &&& l.hashes@.len() == 0
    &&& l.commits@.len() == 0
    &&& l.pending is None
    &&& !l.is_git_repo
}

/// The command that loading asks for after the runs `t`.
pub open spec fn next_command(t: Seq<LoadRecord>) -> GitCommand {
    if t.len() == 0 {
        GitCommand::Status
    } else {
        t.last().step->Run_0
    }
}

/// `rec` is a step of loading in `path`: its output is one that `run` can
/// give for its command there, and the step took that output.
pub open spec fn record_ok<R>(path: &str, run: R, rec: LoadRecord) -> bool
    where
        R: Fn(&str, GitCommand) -> Result<(Vec<u8>, Vec<u8>), String>,
{
    &&& call_ensures(run, (path, rec.cmd), Ok(rec.out))
    &&& load_step_spec(rec.before, utf8_lossy(rec.out.0@), utf8_lossy(rec.out.1@), rec.elapsed_ms, rec.after, rec.step)
}

/// `b` follows `a`: it starts from the loader that `a` left, with the
/// command that `a` asked for.
pub open spec fn records_linked(a: LoadRecord, b: LoadRecord) -> bool {
    b.before == a.after && a.step == LoadStep::Run(b.cmd)
}

/// `t` is a run of the loader in `path`: it starts from `start`, each
/// command is the one that the step before asked for, each output is one
/// that `run` can give for that command in `path`, and each step took that
/// output.
pub open spec fn valid_load<R>(path: &str, run: R, t: Seq<LoadRecord>) -> bool
    where
        R: Fn(&str, GitCommand) -> Result<(Vec<u8>, Vec<u8>), String>,
{
    &&& t.len() > 0 ==> loader_at_start(t[0].before) && t[0].cmd == GitCommand::Status
    &&& forall|k: int| 0 < k < t.len() ==> #[trigger] records_linked(t[k - 1], t[k])
    &&& forall|k: int| 0 <= k < t.len() ==> #[trigger] record_ok(path, run, t[k])
}

/// What the loaded information is, read off the runs: a directory is a
/// repository unless `git status` says otherwise, in which case nothing
/// else runs; in a repository, the unstaged changes are what `git diff`
/// printed, the staged ones what `git diff --cached` printed, and the
/// commits are those that `git log` listed, in order (the first ones, where
/// time ran out).
pub open spec fn read_from_git(i: GitInfo, t: Seq<LoadRecord>) -> bool {
    &&& t.len() > 0
    &&& i.is_git_repo == !contains_seq(utf8_lossy(t[0].out.1@), "fatal: not a git repository"@)
    &&& !i.is_git_repo ==> t.len() == 1 && i.staged@.len() == 0 && i.unstaged@.len() == 0
        && i.recent_commits@.len() == 0
    &&& i.is_git_repo ==> {
        let hs = spec_log_hashes(spec_lines(utf8_lossy(t[3].out.0@)));
        &&& t.len() >= 4
        &&& t[1].cmd == GitCommand::DiffUnstaged
        &&& diffs_parsed_from(i.unstaged@, utf8_lossy(t[1].out.0@))
        &&& t[2].cmd == GitCommand::DiffStaged
        &&& diffs_parsed_from(i.staged@, utf8_lossy(t[2].out.0@))
        &&& t[3].cmd == GitCommand::Log
        &&& i.recent_commits@.len() <= hs.len()
        &&& forall|k: int|
            0 <= k < i.recent_commits@.len() ==> (#[trigger] i.recent_commits@[k]).commit_hash.value()
                == hs[k]
    }
}

proof fn lemma_valid_load_push<R>(path: &str, run: R, t: Seq<LoadRecord>, rec: LoadRecord)
    where
        R: Fn(&str, GitCommand) -> Result<(Vec<u8>, Vec<u8>), String>,
    requires
        valid_load(path, run, t),
        t.len() == 0 ==> loader_at_start(rec.before) && rec.cmd == GitCommand::Status,
        t.len() > 0 ==> records_linked(t.last(), rec),
        record_ok(path, run, rec),
    ensures
        valid_load(path, run, t.push(rec)),
{
    let u = t.push(rec);
    assert forall|k: int| 0 < k < u.len() implies #[trigger] records_linked(u[k - 1], u[k]) by {
        if k < t.len() {
            assert(u[k] == t[k] && u[k - 1] == t[k - 1]);
            assert(records_linked(t[k - 1], t[k]));
        } else {
            assert(u[k - 1] == t.last());
        }
    }
    assert forall|k: int| 0 <= k < u.len() implies #[trigger] record_ok(path, run, u[k]) by {
        if k < t.len() {
            assert(u[k] == t[k]);
            assert(record_ok(path, run, t[k]));
        }
    }
}

/// Loads what the git panel shows of the repository at `path`: whether it
/// is one, the unstaged and the staged changes, and the last commits with
/// their changes (as many as load within `COMMITS_TIME_LIMIT_MS`). `run`
/// runs `git` in `path` with a command's arguments and gives the bytes of
/// its standard output and standard error (read as UTF-8, with `U+FFFD`
/// for what is not), or the error of running it; `clock` gives
/// the milliseconds since some fixed moment. An error of `run`, or an
/// output that cannot be read, ends the load with an error: the error of
/// `run`, or the message that says which output could not be read.
pub fn get_git_info<R, C>(path: &str, run: R, clock: C) -> (r: Result<GitInfo, String>)
    where
        R: Fn(&str, GitCommand) -> Result<(Vec<u8>, Vec<u8>), String>,
        C: Fn() -> u64,
    requires
        forall|p: &str, c: GitCommand| call_requires(run, (p, c)),
        call_requires(clock, ()),
    ensures
        r matches Ok(i) ==> info_complete(i) && exists|t: Seq<LoadRecord>|
            #[trigger] valid_load(path, run, t) && t.len() > 0 && t.last().step == LoadStep::Done(i)
                && read_from_git(i, t),
        r matches Err(e) ==> exists|t: Seq<LoadRecord>|
            #[trigger] valid_load(path, run, t) && ({
                ||| t.len() > 0 && t.last().step == LoadStep::Failed(e) && load_failure(e@)
                ||| (t.len() == 0 || t.last().step is Run) && call_ensures(
                    run,
                    (path, next_command(t)),
                    Err(e),
                )
            }),
{
    let (mut loader, first) = GitInfoLoader::start();
    let mut cmd = first;
    let mut started: u64 = 0;
    let ghost mut t: Seq<LoadRecord> = Seq::empty();
    loop
        invariant
            loader.wf(),
            loader.stage != LoadStage::Finished,
            forall|p: &str, c: GitCommand| call_requires(run, (p, c)),
            call_requires(clock, ()),
            valid_load(path, run, t),
            t.len() == 0 ==> loader_at_start(loader) && cmd == GitCommand::Status,
            t.len() > 0 ==> t.last().after == loader && t.last().step == LoadStep::Run(cmd),
            (loader.stage == LoadStage::Status) == (t.len() == 0),
            loader.stage == LoadStage::DiffUnstaged ==> t.len() == 1 && cmd == GitCommand::DiffUnstaged,
            loader.stage == LoadStage::DiffStaged ==> t.len() == 2 && cmd == GitCommand::DiffStaged,
            loader.stage == LoadStage::Log ==> t.len() == 3 && cmd == GitCommand::Log,
            loader.stage == LoadStage::CatFile || loader.stage == LoadStage::CommitDiff ==> t.len() >= 4,
            t.len() >= 1 ==> loader.is_git_repo && !contains_seq(utf8_lossy(t[0].out.1@), "fatal: not a git repository"@),
            t.len() >= 2 ==> t[1].cmd == GitCommand::DiffUnstaged && diffs_parsed_from(loader.unstaged@, utf8_lossy(t[1].out.0@)),
            t.len() >= 3 ==> t[2].cmd == GitCommand::DiffStaged && diffs_parsed_from(loader.staged@, utf8_lossy(t[2].out.0@)),
            t.len() >= 4 ==> t[3].cmd == GitCommand::Log && loader.hashes@.len() == spec_log_hashes(
                spec_lines(utf8_lossy(t[3].out.0@)),
            ).len() && forall|k: int|
                0 <= k < loader.hashes@.len() ==> (#[trigger] loader.hashes@[k]).value() == spec_log_hashes(
                    spec_lines(utf8_lossy(t[3].out.0@)),
                )[k],
        decreases load_phase(loader), commit_rank(loader),
    {
        let res = run(path, cmd);
        let output = match res {
            Ok(output) => output,
            Err(e) => {
                assert(valid_load(path, run, t) && (t.len() == 0 || t.last().step is Run) && call_ensures(
                    run,
                    (path, next_command(t)),
                    Err(e),
                ));
                return Err(e);
            },
        };
        let ghost out = output;
        let stdout = lossy_text(output.0.as_slice());
        let stderr = lossy_text(output.1.as_slice());
        if loader.stage == LoadStage::Log {
            started = clock();
        }
        let now = clock();
        let elapsed = if now >= started {
            now - started
        } else {
            0
        };
        let ghost before = loader;
        let step = loader.step(stdout.as_str(), stderr.as_str(), elapsed);
        let ghost rec = LoadRecord { before, cmd, out, elapsed_ms: elapsed, after: loader, step };
        proof {
            assert(record_ok(path, run, rec));
            lemma_valid_load_push(path, run, t, rec);
            reveal(load_step_spec);
            assert(t.push(rec)[t.len() as int] == rec);
            if t.len() > 0 {
                assert(t.push(rec)[0] == t[0]);
            }
            if t.len() > 1 {
                assert(t.push(rec)[1] == t[1]);
            }
            if t.len() > 2 {
                assert(t.push(rec)[2] == t[2]);
            }
            if t.len() > 3 {
                assert(t.push(rec)[3] == t[3]);
            }
            t = t.push(rec);
        }
        match step {
            LoadStep::Run(next) => {
                cmd = next;
            },
            LoadStep::Done(info) => {
                assert(valid_load(path, run, t) && t.len() > 0 && t.last().step == LoadStep::Done(info)
                    && read_from_git(info, t));
                return Ok(info);
            },
            LoadStep::Failed(message) => {
                assert(valid_load(path, run, t) && t.len() > 0 && t.last().step == LoadStep::Failed(message)
                    && load_failure(message@));
                return Err(message);
            },
        }
    }
}

} // verus!
