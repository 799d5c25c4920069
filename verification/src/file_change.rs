//! How a unified diff is laid out for display: context, removed and added
//! lines in their colors, and a word-level diff where a change is small.
use crate::chat::join_with_newlines;
use crate::git::{join_lines, string_seq_view};
use crate::text::{chars_of, occurs_at_exec, push_char, spec_lines, split_lines, starts_with, string_of, sub_chars};
use vstd::prelude::*;

verus! {

/// The color of a whole line.
#[derive(Clone, Copy, Debug, PartialEq, Eq, Structural)]
pub enum LineColor {
    /// Context.
    White,
    /// A removed line.
    Red,
    /// An added line.
    Green,
    /// Anything else (a hunk header).
    Yellow,
}

/// What a word of a word-level diff is.
#[derive(Clone, Copy, Debug, PartialEq, Eq, Structural)]
pub enum WordTag {
    Equal,
    Delete,
    Insert,
}

/// One row of the display.
#[derive(Clone, Debug)]
pub enum UdiffRow {
    /// A whole line in one color.
    Line(String, LineColor),
    /// A line of words, the changed ones highlighted.
    Words(Vec<(WordTag, String)>),
}

/// A row as plain values.
pub enum RowSpec {
    Line(Seq<char>, LineColor),
    Words(Seq<(WordTag, Seq<char>)>),
}

pub open spec fn words_view(w: Seq<(WordTag, String)>) -> Seq<(WordTag, Seq<char>)> {
    w.map_values(|p: (WordTag, String)| (p.0, p.1@))
}

pub open spec fn row_view(r: UdiffRow) -> RowSpec {
    match r {
        UdiffRow::Line(s, c) => RowSpec::Line(s@, c),
        UdiffRow::Words(w) => RowSpec::Words(words_view(w@)),
    }
}

/// The characters after which a word ends.
pub open spec fn is_word_break(c: char) -> bool {
    c == ' ' || c == '\t' || c == '\n' || c == '(' || c == ')' || c == '{' || c == '}' || c == '['
        || c == ']' || c == '<' || c == '>' || c == '.' || c == ',' || c == '+' || c == '-'
}

/// A text cut into words, each ending right after a break character (the
/// last one may end without one).
pub open spec fn split_words(s: Seq<char>) -> Seq<Seq<char>>
    decreases s.len(),
{
    if s.len() == 0 {
        Seq::empty()
    } else {
        let p = split_words(s.drop_last());
        if p.len() > 0 && !is_word_break(p.last().last()) {
            p.update(p.len() - 1, p.last().push(s.last()))
        } else {
            p.push(seq![s.last()])
        }
    }
}

/// What `similar`'s patience diff of two lists of words gives: each word
/// with what it is (kept, deleted from the first list, inserted from the
/// second), in order.
pub uninterp spec fn patience_word_diff(old: Seq<Seq<char>>, new: Seq<Seq<char>>) -> Seq<(WordTag, Seq<char>)>;

/// `TextDiffConfig` with `Algorithm::Patience`, `diff_slices(old, new)` and
/// `iter_all_changes` (similar crate), each change taken with its tag and
/// value. The contract claims that the result is the named diff, and what
/// any diff of the two lists gives: its operations cover both lists in
/// order, so the kept and deleted words are the old words, and the kept
/// and inserted words the new ones.
#[verifier::external_body]
fn word_diff(old: &Vec<String>, new: &Vec<String>) -> (r: Vec<(WordTag, String)>)
    ensures
        words_view(r@) == patience_word_diff(string_seq_view(old@), string_seq_view(new@)),
        side_words(words_view(r@), WordTag::Insert) == string_seq_view(old@),
        side_words(words_view(r@), WordTag::Delete) == string_seq_view(new@),
{
    let old: Vec<&str> = old.iter().map(|s| s.as_str()).collect();
    let new: Vec<&str> = new.iter().map(|s| s.as_str()).collect();
    let mut config = similar::TextDiffConfig::default();
    config.algorithm(similar::Algorithm::Patience);
    let diff = config.diff_slices(&old, &new);
    diff.iter_all_changes().map(|c| (match c.tag() {
        similar::ChangeTag::Equal => WordTag::Equal,
        similar::ChangeTag::Delete => WordTag::Delete,
        similar::ChangeTag::Insert => WordTag::Insert,
    }, c.value().to_string())).collect()
}

/// The changes whose tag is not `skip`, in order.
pub open spec fn side(changes: Seq<(WordTag, Seq<char>)>, skip: WordTag) -> Seq<(WordTag, Seq<char>)>
    decreases changes.len(),
{
    if changes.len() == 0 {
        Seq::empty()
    } else {
        let p = side(changes.drop_last(), skip);
        if changes.last().0 != skip {
            p.push(changes.last())
        } else {
            p
        }
    }
}

/// The words of the changes whose tag is not `skip`, in order.
pub open spec fn side_words(changes: Seq<(WordTag, Seq<char>)>, skip: WordTag) -> Seq<Seq<char>> {
    side(changes, skip).map_values(|c: (WordTag, Seq<char>)| c.1)
}

/// The words of the old side (kept and deleted), then a line break, then
/// the words of the new side (kept and inserted).
pub open spec fn two_sides(changes: Seq<(WordTag, Seq<char>)>) -> Seq<(WordTag, Seq<char>)> {
    side(changes, WordTag::Insert).push((WordTag::Equal, seq!['\n'])) + side(changes, WordTag::Delete)
}

/// Words laid out in rows: a word that ends a line closes its row (without
/// its line break); a last row without a line break is kept.
pub struct WordRows {
    pub rows: Seq<RowSpec>,
    pub current: Seq<(WordTag, Seq<char>)>,
}

pub open spec fn word_rows_fold(words: Seq<(WordTag, Seq<char>)>) -> WordRows
    decreases words.len(),
{
    if words.len() == 0 {
        WordRows { rows: Seq::empty(), current: Seq::empty() }
    } else {
        let prev = word_rows_fold(words.drop_last());
        let (tag, w) = words.last();
        if w.len() > 0 && w.last() == '\n' {
            WordRows {
                rows: prev.rows.push(RowSpec::Words(prev.current.push((tag, w.drop_last())))),
                current: Seq::empty(),
            }
        } else {
            WordRows { rows: prev.rows, current: prev.current.push((tag, w)) }
        }
    }
}

pub open spec fn word_rows(words: Seq<(WordTag, Seq<char>)>) -> Seq<RowSpec> {
    let f = word_rows_fold(words);
    if f.current.len() > 0 {
        f.rows.push(RowSpec::Words(f.current))
    } else {
        f.rows
    }
}

pub open spec fn colored(lines: Seq<Seq<char>>, color: LineColor) -> Seq<RowSpec> {
    lines.map_values(|l: Seq<char>| RowSpec::Line(l, color))
}

/// The rows of a run of removed and added lines: in their colors, or, when
/// both sides have fewer than three lines, as a word-level diff.
pub open spec fn hunk_rows(add: Seq<Seq<char>>, remove: Seq<Seq<char>>) -> Seq<RowSpec> {
    if add.len() == 0 {
        colored(remove, LineColor::Red)
    } else if remove.len() == 0 {
        colored(add, LineColor::Green)
    } else if add.len() < 3 && remove.len() < 3 {
        word_rows(
            two_sides(
                patience_word_diff(split_words(join_lines(remove)), split_words(join_lines(add))),
            ),
        )
    } else {
        colored(remove, LineColor::Red) + colored(add, LineColor::Green)
    }
}

/// How far the layout of a diff has come: the rows so far, and the
/// context, added and removed lines not laid out yet.
pub struct UdiffScan {
    pub rows: Seq<RowSpec>,
    pub context: Seq<Seq<char>>,
    pub add: Seq<Seq<char>>,
    pub remove: Seq<Seq<char>>,
}

pub open spec fn flush_context(s: UdiffScan) -> UdiffScan {
    UdiffScan { rows: s.rows + colored(s.context, LineColor::White), context: Seq::empty(), ..s }
}

pub open spec fn flush_hunk(s: UdiffScan) -> UdiffScan {
    UdiffScan {
        rows: s.rows + hunk_rows(s.add, s.remove),
        add: Seq::empty(),
        remove: Seq::empty(),
        ..s
    }
}

pub open spec fn has_hunk(s: UdiffScan) -> bool {
    s.add.len() > 0 || s.remove.len() > 0
}

pub open spec fn udiff_step(s: UdiffScan, line: Seq<char>) -> UdiffScan {
    if starts_with(line, " "@) {
        let s1 = if has_hunk(s) { flush_hunk(s) } else { s };
        UdiffScan { context: s1.context.push(line), ..s1 }
    } else if starts_with(line, "+"@) || starts_with(line, "-"@) {
        let s1 = if s.context.len() > 0 { flush_context(s) } else { s };
        if starts_with(line, "+"@) {
            UdiffScan { add: s1.add.push(line), ..s1 }
        } else {
            UdiffScan { remove: s1.remove.push(line), ..s1 }
        }
    } else {
        let s1 = if s.context.len() > 0 {
            flush_context(s)
        } else if has_hunk(s) {
            flush_hunk(s)
        } else {
            s
        };
        UdiffScan { rows: s1.rows.push(RowSpec::Line(line, LineColor::Yellow)), ..s1 }
    }
}

pub open spec fn udiff_fold(lines: Seq<Seq<char>>) -> UdiffScan
    decreases lines.len(),
{
    if lines.len() == 0 {
        UdiffScan { rows: Seq::empty(), context: Seq::empty(), add: Seq::empty(), remove: Seq::empty() }
    } else {
        udiff_step(udiff_fold(lines.drop_last()), lines.last())
    }
}

/// The rows that show a unified diff.
pub open spec fn spec_udiff_rows(udiff: Seq<char>) -> Seq<RowSpec> {
    let s = udiff_fold(spec_lines(udiff));
    if s.context.len() > 0 {
        flush_context(s).rows
    } else if has_hunk(s) {
        flush_hunk(s).rows
    } else {
        s.rows
    }
}

pub open spec fn rows_match(r: Seq<UdiffRow>, s: Seq<RowSpec>) -> bool {
    &&& r.len() == s.len()
    &&& forall|k: int| 0 <= k < r.len() ==> row_view(#[trigger] r[k]) == s[k]
}

proof fn lemma_rows_match_push(r: Seq<UdiffRow>, s: Seq<RowSpec>, x: UdiffRow)
    requires
        rows_match(r, s),
    ensures
        rows_match(r.push(x), s.push(row_view(x))),
{
    assert forall|k: int| 0 <= k < r.push(x).len() implies row_view(#[trigger] r.push(x)[k])
        == s.push(row_view(x))[k] by {
        if k < r.len() {
            assert(r.push(x)[k] == r[k]);
        }
    }
}

fn is_break_char(c: char) -> (r: bool)
    ensures
        r == is_word_break(c),
{
    c == ' ' || c == '\t' || c == '\n' || c == '(' || c == ')' || c == '{' || c == '}' || c == '['
        || c == ']' || c == '<' || c == '>' || c == '.' || c == ',' || c == '+' || c == '-'
}

/// Cuts a text into words (see `split_words`).
pub fn words_of(s: &String) -> (r: Vec<String>)
    ensures
        string_seq_view(r@) == split_words(s@),
{
    let chars = chars_of(s.as_str());
    let mut done: Vec<String> = Vec::new();
    let mut current = String::new();
    let mut i: usize = 0;
    while i < chars.len()
        invariant
            i <= chars@.len(),
            chars@ == s@,
            current@.len() > 0 ==> !is_word_break(current@.last()),
            forall|k: int|
                0 <= k < done@.len() ==> (#[trigger] done@[k])@.len() > 0 && is_word_break(
                    done@[k]@.last(),
                ),
            split_words(s@.take(i as int)) == if current@.len() > 0 {
                string_seq_view(done@).push(current@)
            } else {
                string_seq_view(done@)
            },
        decreases chars@.len() - i,
    {
        let c = chars[i];
        let ghost prev_done = string_seq_view(done@);
        let ghost prev_done_vec = done@;
        let ghost prev_current = current@;
        let ghost pre = split_words(s@.take(i as int));
        assert(s@.take(i + 1).drop_last() =~= s@.take(i as int));
        assert(s@.take(i + 1).last() == c);
        proof {
            if prev_current.len() > 0 {
                assert(pre.last() == prev_current);
                assert(split_words(s@.take(i + 1)) =~= prev_done.push(prev_current.push(c)));
            } else {
                if pre.len() > 0 {
                    assert(pre.last() == prev_done_vec.last()@);
                }
                assert(split_words(s@.take(i + 1)) =~= prev_done.push(seq![c]));
                assert(prev_current.push(c) =~= seq![c]);
            }
        }
        push_char(&mut current, c);
        if is_break_char(c) {
            let word = current;
            current = String::new();
            done.push(word);
            proof {
                assert(string_seq_view(done@) =~= prev_done.push(prev_current.push(c)));
                assert forall|k: int| 0 <= k < done@.len() implies (#[trigger] done@[k])@.len() > 0
                    && is_word_break(done@[k]@.last()) by {
                    if k < prev_done_vec.len() {
                        assert(done@[k] == prev_done_vec[k]);
                    }
                }
            }
        }
        i += 1;
    }
    assert(s@.take(chars@.len() as int) =~= s@);
    if current.as_str().is_empty() {
        done
    } else {
        let ghost prev_done = string_seq_view(done@);
        let ghost last = current@;
        done.push(current);
        assert(string_seq_view(done@) =~= prev_done.push(last));
        done
    }
}

proof fn lemma_rows_match_append(r1: Seq<UdiffRow>, s1: Seq<RowSpec>, r2: Seq<UdiffRow>, s2: Seq<RowSpec>)
    requires
        rows_match(r1, s1),
        rows_match(r2, s2),
    ensures
        rows_match(r1 + r2, s1 + s2),
{
    assert forall|k: int| 0 <= k < (r1 + r2).len() implies row_view(#[trigger] (r1 + r2)[k]) == (s1
        + s2)[k] by {
        if k < r1.len() {
            assert((r1 + r2)[k] == r1[k]);
        } else {
            assert((r1 + r2)[k] == r2[k - r1.len()]);
        }
    }
}

fn side_of(changes: &Vec<(WordTag, String)>, skip: WordTag, out: &mut Vec<(WordTag, String)>)
    ensures
        words_view(final(out)@) == words_view(old(out)@) + side(words_view(changes@), skip),
{
    let ghost start = words_view(out@);
    let mut i: usize = 0;
    while i < changes.len()
        invariant
            i <= changes@.len(),
            words_view(out@) == start + side(words_view(changes@.take(i as int)), skip),
        decreases changes@.len() - i,
    {
        assert(words_view(changes@.take(i + 1)).drop_last() =~= words_view(changes@.take(i as int)));
        let ghost before = words_view(out@);
        let (tag, word) = (changes[i].0, changes[i].1.clone());
        let keep = match (tag, skip) {
            (WordTag::Equal, WordTag::Equal) => false,
            (WordTag::Delete, WordTag::Delete) => false,
            (WordTag::Insert, WordTag::Insert) => false,
            _ => true,
        };
        if keep {
            out.push((tag, word));
            assert(words_view(out@) =~= before.push((tag, word@)));
        }
        i += 1;
    }
    assert(changes@.take(changes@.len() as int) =~= changes@);
}

fn without_last_char(w: &String) -> (r: String)
    requires
        w@.len() > 0,
    ensures
        r@ == w@.drop_last(),
{
    let chars = chars_of(w.as_str());
    let cut = sub_chars(&chars, 0, chars.len() - 1);
    string_of(&cut)
}

/// Lays out the words of a word-level diff in rows (see `word_rows`).
pub fn lay_out_words(changes: &Vec<(WordTag, String)>) -> (r: Vec<UdiffRow>)
    ensures
        rows_match(r@, word_rows(two_sides(words_view(changes@)))),
{
    let mut words: Vec<(WordTag, String)> = Vec::new();
    side_of(changes, WordTag::Insert, &mut words);
    assert(words_view(Seq::<(WordTag, String)>::empty()) =~= Seq::<(WordTag, Seq<char>)>::empty());
    let ghost first = words_view(words@);
    words.push((WordTag::Equal, "\n".to_string()));
    proof {
        reveal_strlit("\n");
        assert("\n"@ =~= seq!['\n']);
        assert(words_view(words@) =~= first.push((WordTag::Equal, seq!['\n'])));
    }
    side_of(changes, WordTag::Delete, &mut words);
    let ghost all = two_sides(words_view(changes@));
    assert(words_view(words@) =~= all);
    let mut rows: Vec<UdiffRow> = Vec::new();
    let mut current: Vec<(WordTag, String)> = Vec::new();
    let mut i: usize = 0;
    while i < words.len()
        invariant
            i <= words@.len(),
            words_view(words@) == all,
            rows_match(rows@, word_rows_fold(all.take(i as int)).rows),
            words_view(current@) == word_rows_fold(all.take(i as int)).current,
        decreases words@.len() - i,
    {
        assert(all.take(i + 1).drop_last() =~= all.take(i as int));
        let ghost prev = word_rows_fold(all.take(i as int));
        let tag = words[i].0;
        let chars = chars_of(words[i].1.as_str());
        assert(all.take(i + 1).last() == (tag, chars@));
        if chars.len() > 0 && chars[chars.len() - 1] == '\n' {
            let word = without_last_char(&words[i].1);
            let ghost before = words_view(current@);
            current.push((tag, word));
            assert(words_view(current@) =~= before.push((tag, chars@.drop_last())));
            let row = UdiffRow::Words(current);
            current = Vec::new();
            proof {
                lemma_rows_match_push(rows@, prev.rows, row);
            }
            rows.push(row);
            assert(words_view(current@) =~= Seq::<(WordTag, Seq<char>)>::empty());
        } else {
            let word = words[i].1.clone();
            let ghost before = words_view(current@);
            current.push((tag, word));
            assert(words_view(current@) =~= before.push((tag, chars@)));
        }
        i += 1;
    }
    assert(all.take(words@.len() as int) =~= all);
    if current.len() > 0 {
        let ghost f = word_rows_fold(all);
        let row = UdiffRow::Words(current);
        proof {
            lemma_rows_match_push(rows@, f.rows, row);
        }
        rows.push(row);
    }
    rows
}

fn colored_rows(lines: &Vec<String>, color: LineColor) -> (r: Vec<UdiffRow>)
    ensures
        rows_match(r@, colored(string_seq_view(lines@), color)),
{
    let mut r: Vec<UdiffRow> = Vec::new();
    let mut i: usize = 0;
    while i < lines.len()
        invariant
            i <= lines@.len(),
            rows_match(r@, colored(string_seq_view(lines@).take(i as int), color)),
        decreases lines@.len() - i,
    {
        let row = UdiffRow::Line(lines[i].clone(), color);
        proof {
            lemma_rows_match_push(r@, colored(string_seq_view(lines@).take(i as int), color), row);
            assert(colored(string_seq_view(lines@).take(i + 1), color) =~= colored(
                string_seq_view(lines@).take(i as int),
                color,
            ).push(row_view(row)));
        }
        r.push(row);
        i += 1;
    }
    assert(string_seq_view(lines@).take(lines@.len() as int) =~= string_seq_view(lines@));
    r
}

/// A word that ends a line.
pub open spec fn ends_line(w: (WordTag, Seq<char>)) -> bool {
    w.1.len() > 0 && w.1.last() == '\n'
}

proof fn lemma_word_rows_fold(words: Seq<(WordTag, Seq<char>)>)
    ensures
        forall|k: int| 0 <= k < word_rows_fold(words).rows.len() ==> #[trigger] word_rows_fold(words).rows[k] is Words,
        (exists|i: int| 0 <= i < words.len() && #[trigger] ends_line(words[i])) ==> word_rows_fold(words).rows.len() > 0,
    decreases words.len(),
{
    if words.len() > 0 {
        let p = words.drop_last();
        lemma_word_rows_fold(p);
        let f = word_rows_fold(p);
        let g = word_rows_fold(words);
        assert forall|k: int| 0 <= k < g.rows.len() implies #[trigger] g.rows[k] is Words by {
            if k < f.rows.len() {
                assert(g.rows[k] == f.rows[k]);
            }
        }
        if exists|i: int| 0 <= i < words.len() && #[trigger] ends_line(words[i]) {
            let i = choose|i: int| 0 <= i < words.len() && #[trigger] ends_line(words[i]);
            if i < p.len() {
                assert(ends_line(p[i]));
            }
        }
    }
}

/// The lines, each a row in the color.
pub open spec fn lines_in(lines: Seq<Seq<char>>, color: LineColor) -> Seq<RowSpec> {
    Seq::new(lines.len(), |i: int| RowSpec::Line(lines[i], color))
}

/// Law: a run of removed and added lines with both sides there and each
/// side shorter than three lines is shown as a word-level diff: word rows
/// only, at least one. Otherwise it is shown line by line: the removed lines
/// in red, then the added lines in green.
pub proof fn law_small_runs_diff_words(add: Seq<Seq<char>>, remove: Seq<Seq<char>>)
    ensures
        0 < add.len() < 3 && 0 < remove.len() < 3 ==> hunk_rows(add, remove).len() > 0 && forall|k: int|
            0 <= k < hunk_rows(add, remove).len() ==> #[trigger] hunk_rows(add, remove)[k] is Words,
        !(0 < add.len() < 3 && 0 < remove.len() < 3) ==> hunk_rows(add, remove) == lines_in(remove, LineColor::Red)
            + lines_in(add, LineColor::Green),
{
    if 0 < add.len() < 3 && 0 < remove.len() < 3 {
        let ws = two_sides(
            patience_word_diff(split_words(join_lines(remove)), split_words(join_lines(add))),
        );
        let left = side(
            patience_word_diff(split_words(join_lines(remove)), split_words(join_lines(add))),
            WordTag::Insert,
        );
        assert(ws[left.len() as int] == (WordTag::Equal, seq!['\n']));
        assert(ends_line(ws[left.len() as int]));
        lemma_word_rows_fold(ws);
    } else {
        assert(colored(remove, LineColor::Red) =~= lines_in(remove, LineColor::Red));
        assert(colored(add, LineColor::Green) =~= lines_in(add, LineColor::Green));
        assert(lines_in(remove, LineColor::Red) + lines_in(add, LineColor::Green) =~= if add.len() == 0 {
            lines_in(remove, LineColor::Red)
        } else if remove.len() == 0 {
            lines_in(add, LineColor::Green)
        } else {
            lines_in(remove, LineColor::Red) + lines_in(add, LineColor::Green)
        });
    }
}

/// The pieces of text one after another.
pub open spec fn concat_all(ss: Seq<Seq<char>>) -> Seq<char>
    decreases ss.len(),
{
    if ss.len() == 0 {
        Seq::empty()
    } else {
        concat_all(ss.drop_last()) + ss.last()
    }
}

/// The texts of the words one after another.
pub open spec fn concat_words(ws: Seq<(WordTag, Seq<char>)>) -> Seq<char>
    decreases ws.len(),
{
    if ws.len() == 0 {
        Seq::empty()
    } else {
        concat_words(ws.drop_last()) + ws.last().1
    }
}

/// What a row reads as.
pub open spec fn row_text(r: RowSpec) -> Seq<char> {
    match r {
        RowSpec::Line(l, _) => l,
        RowSpec::Words(ws) => concat_words(ws),
    }
}

pub open spec fn row_texts(rows: Seq<RowSpec>) -> Seq<Seq<char>> {
    Seq::new(rows.len(), |k: int| row_text(rows[k]))
}

/// A line break stands in a word only as its last character.
pub open spec fn breaks_only_last(w: Seq<char>) -> bool {
    forall|i: int| 0 <= i < w.len() - 1 ==> w[i] != '\n'
}

proof fn lemma_join_push(xs: Seq<Seq<char>>, y: Seq<char>)
    ensures
        join_lines(xs.push(y)) == if xs.len() == 0 {
            y
        } else {
            join_lines(xs) + seq!['\n'] + y
        },
{
    assert(xs.push(y).drop_last() =~= xs);
}

proof fn lemma_concat_words_append(a: Seq<(WordTag, Seq<char>)>, b: Seq<(WordTag, Seq<char>)>)
    ensures
        concat_words(a + b) == concat_words(a) + concat_words(b),
    decreases b.len(),
{
    if b.len() == 0 {
        assert(a + b =~= a);
        assert(concat_words(a) + Seq::<char>::empty() =~= concat_words(a));
    } else {
        lemma_concat_words_append(a, b.drop_last());
        assert((a + b).drop_last() =~= a + b.drop_last());
        assert(concat_words(a) + concat_words(b.drop_last()) + b.last().1 =~= concat_words(a) + (
        concat_words(b.drop_last()) + b.last().1));
    }
}

proof fn lemma_concat_side(changes: Seq<(WordTag, Seq<char>)>, skip: WordTag)
    ensures
        concat_words(side(changes, skip)) == concat_all(side_words(changes, skip)),
    decreases changes.len(),
{
    if changes.len() > 0 {
        lemma_concat_side(changes.drop_last(), skip);
        let p = side(changes.drop_last(), skip);
        if changes.last().0 != skip {
            assert(side_words(changes, skip).drop_last() =~= side_words(changes.drop_last(), skip));
            assert(side(changes, skip).drop_last() =~= p);
        } else {
            assert(side_words(changes, skip) =~= side_words(changes.drop_last(), skip));
        }
    } else {
        assert(side_words(changes, skip) =~= Seq::<Seq<char>>::empty());
    }
}

proof fn lemma_split_words(s: Seq<char>)
    ensures
        concat_all(split_words(s)) == s,
        forall|k: int| 0 <= k < split_words(s).len() ==> breaks_only_last(#[trigger] split_words(s)[k]),
        forall|k: int| 0 <= k < split_words(s).len() ==> (#[trigger] split_words(s)[k]).len() > 0,
        forall|k: int|
            0 <= k < split_words(s).len() - 1 ==> is_word_break((#[trigger] split_words(s)[k]).last()),
    decreases s.len(),
{
    if s.len() > 0 {
        let q = s.drop_last();
        let c = s.last();
        lemma_split_words(q);
        let p = split_words(q);
        let r = split_words(s);
        if p.len() > 0 && !is_word_break(p.last().last()) {
            let w = p.last().push(c);
            assert(r == p.update(p.len() - 1, w));
            assert(r.drop_last() =~= p.drop_last());
            assert(concat_all(p) == concat_all(p.drop_last()) + p.last());
            assert(concat_all(p.drop_last()) + p.last() + seq![c] =~= concat_all(p.drop_last()) + w);
            assert(q.push(c) =~= s);
            assert(breaks_only_last(w)) by {
                assert forall|i: int| 0 <= i < w.len() - 1 implies w[i] != '\n' by {
                    if i < p.last().len() - 1 {
                        assert(breaks_only_last(p[p.len() - 1]));
                    } else {
                        assert(w[i] == p.last().last());
                    }
                }
            }
            assert forall|k: int| 0 <= k < r.len() implies breaks_only_last(#[trigger] r[k]) && r[k].len() > 0 by {
                if k < p.len() - 1 {
                    assert(r[k] == p[k]);
                }
            }
            assert forall|k: int| 0 <= k < r.len() - 1 implies is_word_break((#[trigger] r[k]).last()) by {
                assert(r[k] == p[k]);
            }
        } else {
            assert(r == p.push(seq![c]));
            assert(r.drop_last() =~= p);
            assert(q.push(c) =~= s);
            assert forall|k: int| 0 <= k < r.len() implies breaks_only_last(#[trigger] r[k]) && r[k].len() > 0 by {
                if k < p.len() {
                    assert(r[k] == p[k]);
                }
            }
            assert forall|k: int| 0 <= k < r.len() - 1 implies is_word_break((#[trigger] r[k]).last()) by {
                assert(r[k] == p[k]);
                if k == p.len() - 1 {
                }
            }
        }
    }
}

proof fn lemma_join_push_append(xs: Seq<Seq<char>>, c: Seq<char>, w: Seq<char>)
    ensures
        join_lines(xs.push(c + w)) == join_lines(xs.push(c)) + w,
{
    lemma_join_push(xs, c + w);
    lemma_join_push(xs, c);
    if xs.len() > 0 {
        assert(join_lines(xs) + seq!['\n'] + (c + w) =~= join_lines(xs) + seq!['\n'] + c + w);
    }
}

proof fn lemma_word_rows_text(words: Seq<(WordTag, Seq<char>)>)
    ensures
        join_lines(row_texts(word_rows_fold(words).rows).push(concat_words(word_rows_fold(words).current)))
            == concat_words(words),
    decreases words.len(),
{
    if words.len() == 0 {
        assert(row_texts(Seq::<RowSpec>::empty()).push(Seq::<char>::empty()) =~= seq![Seq::<char>::empty()]);
    } else {
        let p = words.drop_last();
        lemma_word_rows_text(p);
        let f = word_rows_fold(p);
        let (tag, w) = words.last();
        let c = concat_words(f.current);
        let xs = row_texts(f.rows);
        if w.len() > 0 && w.last() == '\n' {
            let w2 = w.drop_last();
            let cur2 = f.current.push((tag, w2));
            assert(cur2.drop_last() =~= f.current);
            assert(concat_words(cur2) == c + w2);
            let rows2 = f.rows.push(RowSpec::Words(cur2));
            assert(row_texts(rows2) =~= xs.push(c + w2));
            lemma_join_push_append(xs, c, w2);
            lemma_join_push(row_texts(rows2), Seq::<char>::empty());
            assert(join_lines(row_texts(rows2)) + seq!['\n'] + Seq::<char>::empty() =~= join_lines(xs.push(c))
                + w2.push('\n'));
            assert(w2.push('\n') =~= w);
        } else {
            let cur2 = f.current.push((tag, w));
            assert(cur2.drop_last() =~= f.current);
            assert(concat_words(cur2) == c + w);
            lemma_join_push_append(xs, c, w);
        }
    }
}

/// The rows of a small run, read one after another with line breaks, are
/// the removed lines and then the added lines (a last empty line left out),
/// where the word diff keeps every word of both sides.
proof fn lemma_small_hunk_text(add: Seq<Seq<char>>, remove: Seq<Seq<char>>)
    requires
        0 < add.len() < 3 && 0 < remove.len() < 3,
        ({
            let old_words = split_words(join_lines(remove));
            let new_words = split_words(join_lines(add));
            &&& side_words(patience_word_diff(old_words, new_words), WordTag::Insert) == old_words
            &&& side_words(patience_word_diff(old_words, new_words), WordTag::Delete) == new_words
        }),
    ensures
        ({
            let j = join_lines(row_texts(hunk_rows(add, remove)));
            let t = join_lines(remove) + seq!['\n'] + join_lines(add);
            j == t || j + seq!['\n'] == t
        }),
{
    let old_words = split_words(join_lines(remove));
    let new_words = split_words(join_lines(add));
    let d = patience_word_diff(old_words, new_words);
    let l = side(d, WordTag::Insert);
    let r = side(d, WordTag::Delete);
    let ws = two_sides(d);
    lemma_concat_side(d, WordTag::Insert);
    lemma_concat_side(d, WordTag::Delete);
    lemma_split_words(join_lines(remove));
    lemma_split_words(join_lines(add));
    let sep = (WordTag::Equal, seq!['\n']);
    lemma_concat_words_append(l.push(sep), r);
    assert(l.push(sep).drop_last() =~= l);
    assert(concat_words(ws) == join_lines(remove) + seq!['\n'] + join_lines(add));
    lemma_word_rows_text(ws);
    let f = word_rows_fold(ws);
    let rows = word_rows(ws);
    assert(hunk_rows(add, remove) == rows);
    if f.current.len() > 0 {
        assert(row_texts(rows) =~= row_texts(f.rows).push(concat_words(f.current)));
    } else {
        assert(concat_words(f.current) =~= Seq::<char>::empty());
        assert(row_texts(rows) =~= row_texts(f.rows));
        lemma_join_push(row_texts(f.rows), Seq::<char>::empty());
        if f.rows.len() > 0 {
            assert(join_lines(row_texts(f.rows)) + seq!['\n'] + Seq::<char>::empty() =~= join_lines(
                row_texts(f.rows),
            ) + seq!['\n']);
        } else {
            assert(row_texts(f.rows) =~= Seq::<Seq<char>>::empty());
        }
    }
}

/// What a line of a diff starts with: ' ' (context), '+', '-', or else.
pub open spec fn line_kind(line: Seq<char>) -> int {
    if line.len() > 0 && line[0] == ' ' {
        0
    } else if line.len() > 0 && line[0] == '+' {
        1
    } else if line.len() > 0 && line[0] == '-' {
        2
    } else {
        3
    }
}

proof fn lemma_starts_with_char(line: Seq<char>)
    ensures
        starts_with(line, " "@) == (line.len() > 0 && line[0] == ' '),
        starts_with(line, "+"@) == (line.len() > 0 && line[0] == '+'),
        starts_with(line, "-"@) == (line.len() > 0 && line[0] == '-'),
{
    reveal_strlit(" ");
    reveal_strlit("+");
    reveal_strlit("-");
    assert(" "@ =~= seq![' ']);
    assert("+"@ =~= seq!['+']);
    assert("-"@ =~= seq!['-']);
    lemma_starts_with_one(line, ' ');
    lemma_starts_with_one(line, '+');
    lemma_starts_with_one(line, '-');
}

proof fn lemma_starts_with_one(line: Seq<char>, c: char)
    ensures
        starts_with(line, seq![c]) == (line.len() > 0 && line[0] == c),
{
    if line.len() > 0 {
        assert(line.subrange(0, 1)[0] == line[0]);
        if line[0] == c {
            assert(line.subrange(0, 1) =~= seq![c]);
        }
    }
}

proof fn lemma_fold_same_kind(lines: Seq<Seq<char>>, kind: int)
    requires
        forall|k: int| 0 <= k < lines.len() ==> line_kind(#[trigger] lines[k]) == kind,
    ensures
        ({
            let f = udiff_fold(lines);
            &&& kind == 0 ==> f.rows.len() == 0 && f.context == lines && f.add.len() == 0 && f.remove.len() == 0
            &&& kind == 1 ==> f.rows.len() == 0 && f.context.len() == 0 && f.add == lines && f.remove.len() == 0
            &&& kind == 2 ==> f.rows.len() == 0 && f.context.len() == 0 && f.add.len() == 0 && f.remove == lines
            &&& kind == 3 ==> f.rows == lines_in(lines, LineColor::Yellow) && f.context.len() == 0 && f.add.len()
                == 0 && f.remove.len() == 0
        }),
    decreases lines.len(),
{
    if lines.len() > 0 {
        let p = lines.drop_last();
        assert forall|k: int| 0 <= k < p.len() implies line_kind(#[trigger] p[k]) == kind by {
            assert(p[k] == lines[k]);
        }
        lemma_fold_same_kind(p, kind);
        let line = lines.last();
        assert(line_kind(lines[lines.len() - 1]) == kind);
        lemma_starts_with_char(line);
        assert(p.push(line) =~= lines);
        if kind == 3 {
            assert(lines_in(p, LineColor::Yellow).push(RowSpec::Line(line, LineColor::Yellow)) =~= lines_in(
                lines,
                LineColor::Yellow,
            ));
        }
    } else {
        assert(lines_in(lines, LineColor::Yellow) =~= Seq::<RowSpec>::empty());
    }
}

/// Law: a diff of context lines only shows each of them in white; of
/// removed lines only, each in red; of added lines only, each in green; and
/// of other lines only (headers), each in yellow.
pub proof fn law_udiff_line_colors(udiff: Seq<char>)
    ensures
        ({
            let lines = spec_lines(udiff);
            &&& (forall|k: int| 0 <= k < lines.len() ==> line_kind(#[trigger] lines[k]) == 0)
                ==> spec_udiff_rows(udiff) == lines_in(lines, LineColor::White)
            &&& (forall|k: int| 0 <= k < lines.len() ==> line_kind(#[trigger] lines[k]) == 1)
                ==> spec_udiff_rows(udiff) == lines_in(lines, LineColor::Green)
            &&& (forall|k: int| 0 <= k < lines.len() ==> line_kind(#[trigger] lines[k]) == 2)
                ==> spec_udiff_rows(udiff) == lines_in(lines, LineColor::Red)
            &&& (forall|k: int| 0 <= k < lines.len() ==> line_kind(#[trigger] lines[k]) == 3)
                ==> spec_udiff_rows(udiff) == lines_in(lines, LineColor::Yellow)
        }),
{
    let lines = spec_lines(udiff);
    let empty = UdiffScan { rows: Seq::empty(), context: Seq::empty(), add: Seq::empty(), remove: Seq::empty() };
    assert(colored(lines, LineColor::White) =~= lines_in(lines, LineColor::White));
    assert(colored(lines, LineColor::Green) =~= lines_in(lines, LineColor::Green));
    assert(colored(lines, LineColor::Red) =~= lines_in(lines, LineColor::Red));
    if forall|k: int| 0 <= k < lines.len() ==> line_kind(#[trigger] lines[k]) == 0 {
        lemma_fold_same_kind(lines, 0);
        assert(Seq::<RowSpec>::empty() + colored(lines, LineColor::White) =~= colored(lines, LineColor::White));
        if lines.len() == 0 {
            assert(lines_in(lines, LineColor::White) =~= Seq::<RowSpec>::empty());
        }
    }
    if forall|k: int| 0 <= k < lines.len() ==> line_kind(#[trigger] lines[k]) == 1 {
        lemma_fold_same_kind(lines, 1);
        assert(Seq::<RowSpec>::empty() + colored(lines, LineColor::Green) =~= colored(lines, LineColor::Green));
        if lines.len() == 0 {
            assert(lines_in(lines, LineColor::Green) =~= Seq::<RowSpec>::empty());
        }
    }
    if forall|k: int| 0 <= k < lines.len() ==> line_kind(#[trigger] lines[k]) == 2 {
        lemma_fold_same_kind(lines, 2);
        assert(Seq::<RowSpec>::empty() + colored(lines, LineColor::Red) =~= colored(lines, LineColor::Red));
        if lines.len() == 0 {
            assert(lines_in(lines, LineColor::Red) =~= Seq::<RowSpec>::empty());
        }
    }
    if forall|k: int| 0 <= k < lines.len() ==> line_kind(#[trigger] lines[k]) == 3 {
        lemma_fold_same_kind(lines, 3);
    }
}

/// Lays out a run of removed and added lines (see `hunk_rows`).
pub fn lay_out_hunk(add: &Vec<String>, remove: &Vec<String>) -> (r: Vec<UdiffRow>)
    ensures
        rows_match(r@, hunk_rows(string_seq_view(add@), string_seq_view(remove@))),
        // A word-level diff keeps every word of both sides: its kept and
        // deleted words are the removed text's, its kept and inserted words
        // the added text's.
        0 < add@.len() < 3 && 0 < remove@.len() < 3 ==> ({
            let old_words = split_words(join_lines(string_seq_view(remove@)));
            let new_words = split_words(join_lines(string_seq_view(add@)));
            &&& side_words(patience_word_diff(old_words, new_words), WordTag::Insert) == old_words
            &&& side_words(patience_word_diff(old_words, new_words), WordTag::Delete) == new_words
        }),
        // The rows, read one after another with line breaks, are the
        // removed lines and then the added lines (a last empty line left out).
        0 < add@.len() < 3 && 0 < remove@.len() < 3 ==> ({
            let j = join_lines(row_texts(hunk_rows(string_seq_view(add@), string_seq_view(remove@))));
            let t = join_lines(string_seq_view(remove@)) + seq!['\n'] + join_lines(string_seq_view(add@));
            j == t || j + seq!['\n'] == t
        }),
{
    if add.len() == 0 {
        colored_rows(remove, LineColor::Red)
    } else if remove.len() == 0 {
        colored_rows(add, LineColor::Green)
    } else if add.len() < 3 && remove.len() < 3 {
        let old_words = words_of(&join_with_newlines(remove));
        let new_words = words_of(&join_with_newlines(add));
        let changes = word_diff(&old_words, &new_words);
        proof {
            lemma_small_hunk_text(string_seq_view(add@), string_seq_view(remove@));
        }
        lay_out_words(&changes)
    } else {
        let mut r = colored_rows(remove, LineColor::Red);
        let mut g = colored_rows(add, LineColor::Green);
        proof {
            lemma_rows_match_append(
                r@,
                colored(string_seq_view(remove@), LineColor::Red),
                g@,
                colored(string_seq_view(add@), LineColor::Green),
            );
        }
        r.append(&mut g);
        r
    }
}

/// The rows that show a unified diff: context lines in white, hunk
/// headers and other lines in yellow, and each run of removed and added
/// lines as `lay_out_hunk` lays it out.
pub fn render_udiff(udiff: &str) -> (r: Vec<UdiffRow>)
    ensures
        rows_match(r@, spec_udiff_rows(udiff@)),
{
    let lines = split_lines(udiff);
    let ghost ls = spec_lines(udiff@);
    let space = chars_of(" ");
    let plus = chars_of("+");
    let minus = chars_of("-");
    let mut rows: Vec<UdiffRow> = Vec::new();
    let mut context: Vec<String> = Vec::new();
    let mut add: Vec<String> = Vec::new();
    let mut remove: Vec<String> = Vec::new();
    let mut i: usize = 0;
    while i < lines.len()
        invariant
            i <= lines@.len(),
            lines@.len() == ls.len(),
            forall|k: int| 0 <= k < lines@.len() ==> #[trigger] lines@[k]@ == ls[k],
            space@ == " "@,
            plus@ == "+"@,
            minus@ == "-"@,
            ({
                let st = udiff_fold(ls.take(i as int));
                &&& rows_match(rows@, st.rows)
                &&& string_seq_view(context@) == st.context
                &&& string_seq_view(add@) == st.add
                &&& string_seq_view(remove@) == st.remove
            }),
        decreases lines@.len() - i,
    {
        assert(ls.take(i + 1).drop_last() =~= ls.take(i as int));
        let ghost st = udiff_fold(ls.take(i as int));
        let line = chars_of(lines[i].as_str());
        if occurs_at_exec(&line, 0, &space) {
            if add.len() > 0 || remove.len() > 0 {
                let mut h = lay_out_hunk(&add, &remove);
                proof {
                    lemma_rows_match_append(rows@, st.rows, h@, hunk_rows(st.add, st.remove));
                }
                rows.append(&mut h);
                add = Vec::new();
                remove = Vec::new();
            }
            let ghost before = string_seq_view(context@);
            context.push(lines[i].clone());
            assert(string_seq_view(context@) =~= before.push(ls[i as int]));
            assert(string_seq_view(add@) =~= udiff_fold(ls.take(i + 1)).add);
            assert(string_seq_view(remove@) =~= udiff_fold(ls.take(i + 1)).remove);
        } else if occurs_at_exec(&line, 0, &plus) || occurs_at_exec(&line, 0, &minus) {
            if context.len() > 0 {
                let mut c = colored_rows(&context, LineColor::White);
                proof {
                    lemma_rows_match_append(rows@, st.rows, c@, colored(st.context, LineColor::White));
                }
                rows.append(&mut c);
                context = Vec::new();
            }
            assert(string_seq_view(context@) =~= udiff_fold(ls.take(i + 1)).context);
            if occurs_at_exec(&line, 0, &plus) {
                let ghost before = string_seq_view(add@);
                add.push(lines[i].clone());
                assert(string_seq_view(add@) =~= before.push(ls[i as int]));
            } else {
                let ghost before = string_seq_view(remove@);
                remove.push(lines[i].clone());
                assert(string_seq_view(remove@) =~= before.push(ls[i as int]));
            }
        } else {
            if context.len() > 0 {
                let mut c = colored_rows(&context, LineColor::White);
                proof {
                    lemma_rows_match_append(rows@, st.rows, c@, colored(st.context, LineColor::White));
                }
                rows.append(&mut c);
                context = Vec::new();
            } else if add.len() > 0 || remove.len() > 0 {
                let mut h = lay_out_hunk(&add, &remove);
                proof {
                    lemma_rows_match_append(rows@, st.rows, h@, hunk_rows(st.add, st.remove));
                }
                rows.append(&mut h);
                add = Vec::new();
                remove = Vec::new();
            }
            let ghost mid = rows@;
            let row = UdiffRow::Line(lines[i].clone(), LineColor::Yellow);
            proof {
                let s1 = if st.context.len() > 0 {
                    flush_context(st)
                } else if has_hunk(st) {
                    flush_hunk(st)
                } else {
                    st
                };
                lemma_rows_match_push(mid, s1.rows, row);
            }
            rows.push(row);
            assert(string_seq_view(context@) =~= udiff_fold(ls.take(i + 1)).context);
            assert(string_seq_view(add@) =~= udiff_fold(ls.take(i + 1)).add);
            assert(string_seq_view(remove@) =~= udiff_fold(ls.take(i + 1)).remove);
        }
        i += 1;
    }
    assert(ls.take(lines@.len() as int) =~= ls);
    let ghost st = udiff_fold(ls);
    if context.len() > 0 {
        let mut c = colored_rows(&context, LineColor::White);
        proof {
            lemma_rows_match_append(rows@, st.rows, c@, colored(st.context, LineColor::White));
        }
        rows.append(&mut c);
    } else if add.len() > 0 || remove.len() > 0 {
        let mut h = lay_out_hunk(&add, &remove);
        proof {
            lemma_rows_match_append(rows@, st.rows, h@, hunk_rows(st.add, st.remove));
        }
        rows.append(&mut h);
    }
    rows
}

} // verus!
