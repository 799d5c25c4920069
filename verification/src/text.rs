//! Character-level helpers for the texts that the front end shows.
use vstd::prelude::*;
use vstd::std_specs::iter::IteratorSpec;

verus! {

broadcast use vstd::string::group_string_axioms;

/// `String::push`: appends one character.
#[verifier::external_body]
pub(crate) fn push_char(s: &mut String, c: char)
    ensures
        final(s)@ == old(s)@.push(c),
{
    s.push(c);
}

/// The characters of `s`, in order.
pub fn chars_of(s: &str) -> (r: Vec<char>)
    ensures
        r@ == s@,
{
    let mut it = s.chars();
    let mut r: Vec<char> = Vec::new();
    loop
        invariant
            r@ + it.remaining() == s@,
            it.obeys_prophetic_iter_laws(),
            it.decrease() is Some,
        ensures
            r@ == s@,
        decreases it.decrease()->0,
    {
        match it.next() {
            Some(c) => {
                r.push(c);
            },
            None => {
                break;
            },
        }
    }
    r
}

/// The characters as a `String`.
pub fn string_of(chars: &Vec<char>) -> (r: String)
    ensures
        r@ == chars@,
{
    let mut r = String::new();
    let mut i: usize = 0;
    while i < chars.len()
        invariant
            i <= chars.len(),
            r@ == chars@.take(i as int),
        decreases chars.len() - i,
    {
        push_char(&mut r, chars[i]);
        assert(chars@.take(i + 1) =~= chars@.take(i as int).push(chars@[i as int]));
        i += 1;
    }
    assert(chars@.take(chars.len() as int) =~= chars@);
    r
}

/// Display weight of a character: a Hangul syllable is drawn wider than
/// the other characters (10 against 7).
pub open spec fn char_weight(c: char) -> int {
    if '가' <= c && c <= '힣' { 10 } else { 7 }
}

/// Sum of the display weights of the characters.
pub open spec fn total_weight(s: Seq<char>) -> int
    decreases s.len(),
{
    if s.len() == 0 {
        0
    } else {
        total_weight(s.drop_last()) + char_weight(s.last())
    }
}

/// Law: a Hangul syllable (U+AC00 to U+D7A3) weighs 10 sevenths of a
/// column, any other character 7; so a text of Hangul syllables weighs 10
/// for each of them, and one of other characters 7 for each.
pub proof fn law_hangul_weighs_more(c: char, s: Seq<char>)
    ensures
        char_weight(c) == if 0xAC00 <= c as u32 <= 0xD7A3 { 10int } else { 7int },
        (forall|i: int| 0 <= i < s.len() ==> 0xAC00 <= #[trigger] s[i] as u32 <= 0xD7A3) ==> total_weight(s)
            == 10 * s.len(),
        (forall|i: int| 0 <= i < s.len() ==> !(0xAC00 <= #[trigger] s[i] as u32 <= 0xD7A3)) ==> total_weight(
            s,
        ) == 7 * s.len(),
    decreases s.len(),
{
    assert('가' as u32 == 0xAC00);
    assert('힣' as u32 == 0xD7A3);
    if s.len() > 0 {
        let p = s.drop_last();
        law_hangul_weighs_more(s.last(), p);
        assert forall|i: int| 0 <= i < p.len() implies p[i] == s[i] by {}
        if forall|i: int| 0 <= i < s.len() ==> 0xAC00 <= #[trigger] s[i] as u32 <= 0xD7A3 {
            assert(0xAC00 <= s[s.len() - 1] as u32 <= 0xD7A3);
            assert(forall|i: int| 0 <= i < p.len() ==> 0xAC00 <= #[trigger] p[i] as u32 <= 0xD7A3);
        }
        if forall|i: int| 0 <= i < s.len() ==> !(0xAC00 <= #[trigger] s[i] as u32 <= 0xD7A3) {
            assert(!(0xAC00 <= s[s.len() - 1] as u32 <= 0xD7A3));
            assert(forall|i: int| 0 <= i < p.len() ==> !(0xAC00 <= #[trigger] p[i] as u32 <= 0xD7A3));
        }
    }
}

fn weight_of(c: char) -> (w: usize)
    ensures
        w == char_weight(c),
{
    if '가' <= c && c <= '힣' { 10 } else { 7 }
}

proof fn lemma_total_weight_push(s: Seq<char>, c: char)
    ensures
        total_weight(s.push(c)) == total_weight(s) + char_weight(c),
{
    assert(s.push(c).drop_last() =~= s);
}

proof fn lemma_total_weight_take_step(s: Seq<char>, i: int)
    requires
        0 <= i < s.len(),
    ensures
        total_weight(s.take(i + 1)) == total_weight(s.take(i)) + char_weight(s[i]),
{
    assert(s.take(i + 1) =~= s.take(i).push(s[i]));
    lemma_total_weight_push(s.take(i), s[i]);
}

/// Law: the weight of a longer prefix is at least that of a shorter one.
pub proof fn lemma_total_weight_take_monotone(s: Seq<char>, i: int, j: int)
    requires
        0 <= i <= j <= s.len(),
    ensures
        total_weight(s.take(i)) <= total_weight(s.take(j)),
    decreases j - i,
{
    if i < j {
        lemma_total_weight_take_step(s, j - 1);
        lemma_total_weight_take_monotone(s, i, j - 1);
    }
}

/// Width of `s` in columns of the monospace font, where a Hangul syllable
/// counts as 10/7 of a column (rounded down over the whole string).
pub fn count_chars(s: &str) -> (r: usize)
    requires
        total_weight(s@) <= usize::MAX,
    ensures
        r == total_weight(s@) / 7,
{
    let chars = chars_of(s);
    let mut sum: usize = 0;
    let mut i: usize = 0;
    while i < chars.len()
        invariant
            i <= chars.len(),
            chars@ == s@,
            sum == total_weight(s@.take(i as int)),
            total_weight(s@) <= usize::MAX,
        decreases chars.len() - i,
    {
        proof {
            lemma_total_weight_take_step(s@, i as int);
            lemma_total_weight_take_monotone(s@, i + 1, s@.len() as int);
            assert(s@.take(s@.len() as int) =~= s@);
        }
        sum = sum + weight_of(chars[i]);
        i += 1;
    }
    assert(s@.take(s@.len() as int) =~= s@);
    sum / 7
}

/// The longest prefix of `s` whose display weight stays within `n` columns.
pub fn take_chars(s: &str, n: usize) -> (r: String)
    requires
        s@.len() > 0 ==> n * 7 <= usize::MAX,
    ensures
        r@.len() <= s@.len(),
        r@ == s@.take(r@.len() as int),
        total_weight(r@) <= n * 7,
        r@.len() < s@.len() ==> total_weight(s@.take(r@.len() as int + 1)) > n * 7,
{
    let chars = chars_of(s);
    let mut weight: u128 = 0;
    let mut taken: Vec<char> = Vec::new();
    let mut i: usize = 0;
    while i < chars.len()
        invariant_except_break
            weight == total_weight(s@.take(i as int)),
            weight <= n * 7,
        invariant
            i <= chars.len(),
            chars@ == s@,
            taken@ == s@.take(i as int),
            s@.len() > 0 ==> n * 7 <= usize::MAX,
        ensures
            taken@ == s@.take(i as int),
            total_weight(taken@) <= n * 7,
            i < s@.len() ==> total_weight(s@.take(i + 1)) > n * 7,
        decreases chars.len() - i,
    {
        proof {
            lemma_total_weight_take_step(s@, i as int);
        }
        let ch = chars[i];
        weight = weight + weight_of(ch) as u128;

        if weight > (n * 7) as u128 {
            break;
        }

        taken.push(ch);
        assert(s@.take(i + 1) =~= s@.take(i as int).push(ch));
        i += 1;
    }
    string_of(&taken)
}

/// `n` spaces.
pub fn spaces(n: usize) -> (r: String)
    ensures
        r@ == Seq::new(n as nat, |i: int| ' '),
{
    let mut r = String::new();
    let mut i: usize = 0;
    while i < n
        invariant
            i <= n,
            r@ == Seq::new(i as nat, |k: int| ' '),
        decreases n - i,
    {
        push_char(&mut r, ' ');
        assert(r@ =~= Seq::new((i + 1) as nat, |k: int| ' '));
        i += 1;
    }
    r
}

/// `s` cut at every '\n' (the pieces do not hold the '\n' itself).
pub open spec fn split_newlines(s: Seq<char>) -> Seq<Seq<char>>
    decreases s.len(),
{
    if s.len() == 0 {
        seq![Seq::empty()]
    } else {
        let rest = split_newlines(s.drop_last());
        if s.last() == '\n' {
            rest.push(Seq::empty())
        } else {
            rest.update(rest.len() - 1, rest.last().push(s.last()))
        }
    }
}

/// The line without a '\r' at its end.
pub open spec fn strip_cr(line: Seq<char>) -> Seq<char> {
    if line.len() > 0 && line.last() == '\r' {
        line.drop_last()
    } else {
        line
    }
}

/// The lines of a text, as `str::lines` yields them: the text is cut at
/// '\n', a '\r' right before a '\n' is dropped, and a last empty piece
/// (after a final '\n', or of an empty text) is not a line.
pub open spec fn spec_lines(s: Seq<char>) -> Seq<Seq<char>> {
    let pieces = split_newlines(s);
    let n = pieces.len();
    let full = if pieces.last().len() == 0 { pieces.drop_last() } else { pieces };
    Seq::new(full.len(), |k: int| if k < n - 1 { strip_cr(full[k]) } else { full[k] })
}

proof fn lemma_split_newlines_nonempty(s: Seq<char>)
    ensures
        split_newlines(s).len() >= 1,
    decreases s.len(),
{
    if s.len() > 0 {
        lemma_split_newlines_nonempty(s.drop_last());
    }
}

/// The lines of `s` (see `spec_lines`).
pub fn split_lines(s: &str) -> (r: Vec<String>)
    ensures
        r@.len() == spec_lines(s@).len(),
        forall|k: int| 0 <= k < r@.len() ==> #[trigger] r@[k]@ == spec_lines(s@)[k],
{
    let chars = chars_of(s);
    let mut lines: Vec<String> = Vec::new();
    let mut cur: Vec<char> = Vec::new();
    let mut i: usize = 0;
    while i < chars.len()
        invariant
            i <= chars.len(),
            chars@ == s@,
            split_newlines(s@.take(i as int)).len() == lines@.len() + 1,
            forall|k: int|
                0 <= k < lines@.len() ==> #[trigger] lines@[k]@ == strip_cr(
                    split_newlines(s@.take(i as int))[k],
                ),
            cur@ == split_newlines(s@.take(i as int)).last(),
        decreases chars.len() - i,
    {
        let c = chars[i];
        proof {
            assert(s@.take(i + 1).drop_last() =~= s@.take(i as int));
            lemma_split_newlines_nonempty(s@.take(i as int));
        }
        if c == '\n' {
            let n = cur.len();
            let line = if n > 0 && cur[n - 1] == '\r' {
                let mut t = cur.clone();
                t.pop();
                t
            } else {
                cur.clone()
            };
            proof {
                if n > 0 && cur@[n - 1] == '\r' {
                    assert(line@ =~= cur@.drop_last());
                }
            }
            lines.push(string_of(&line));
            cur = Vec::new();
        } else {
            cur.push(c);
        }
        i += 1;
    }
    assert(s@.take(chars.len() as int) =~= s@);
    let ghost pieces = split_newlines(s@);
    let n = cur.len();
    if n > 0 {
        lines.push(string_of(&cur));
    }
    proof {
        assert(pieces.len() == lines@.len() || (n == 0 && pieces.len() == lines@.len() + 1));
    }
    lines
}

/// `pat` stands in `s` at index `i`.
pub open spec fn occurs_at(s: Seq<char>, i: int, pat: Seq<char>) -> bool {
    0 <= i && i + pat.len() <= s.len() && s.subrange(i, i + pat.len()) == pat
}

pub open spec fn starts_with(s: Seq<char>, pat: Seq<char>) -> bool {
    occurs_at(s, 0, pat)
}

pub fn occurs_at_exec(s: &Vec<char>, i: usize, pat: &Vec<char>) -> (r: bool)
    ensures
        r == occurs_at(s@, i as int, pat@),
{
    if i > s.len() || pat.len() > s.len() - i {
        return false;
    }
    let mut k: usize = 0;
    while k < pat.len()
        invariant
            k <= pat.len(),
            i + pat.len() <= s.len(),
            forall|j: int| 0 <= j < k ==> s@[i + j] == pat@[j],
        decreases pat.len() - k,
    {
        if s[i + k] != pat[k] {
            assert(s@.subrange(i as int, i + pat@.len())[k as int] != pat@[k as int]);
            return false;
        }
        k += 1;
    }
    assert(s@.subrange(i as int, i + pat@.len()) =~= pat@);
    true
}

/// Whether two texts are equal.
pub fn str_eq(a: &str, b: &str) -> (r: bool)
    ensures
        r == (a@ == b@),
{
    let x = chars_of(a);
    let y = chars_of(b);
    if x.len() != y.len() {
        return false;
    }
    let r = occurs_at_exec(&x, 0, &y);
    assert(r ==> x@.subrange(0, y@.len() as int) =~= x@);
    proof {
        if a@ == b@ {
            assert(x@.subrange(0, y@.len() as int) =~= y@);
        }
    }
    r
}

/// The characters `from .. to` of `v`.
pub fn sub_chars(v: &Vec<char>, from: usize, to: usize) -> (r: Vec<char>)
    requires
        from <= to <= v@.len(),
    ensures
        r@ == v@.subrange(from as int, to as int),
{
    let mut r: Vec<char> = Vec::new();
    let mut i = from;
    while i < to
        invariant
            from <= i <= to <= v@.len(),
            r@ == v@.subrange(from as int, i as int),
        decreases to - i,
    {
        r.push(v[i]);
        assert(v@.subrange(from as int, i + 1) =~= v@.subrange(from as int, i as int).push(v@[i as int]));
        i += 1;
    }
    r
}

/// `pat` stands somewhere in `s`.
pub open spec fn contains_seq(s: Seq<char>, pat: Seq<char>) -> bool {
    exists|i: int| occurs_at(s, i, pat)
}

/// Whether `pat` stands somewhere in `s`.
pub fn contains_str(s: &str, pat: &str) -> (r: bool)
    ensures
        r == contains_seq(s@, pat@),
{
    let sv = chars_of(s);
    let pv = chars_of(pat);
    if pv.len() > sv.len() {
        proof {
            assert forall|i: int| !occurs_at(s@, i, pat@) by {}
        }
        return false;
    }
    if pv.len() == 0 {
        assert(occurs_at(s@, 0, pat@)) by {
            assert(s@.subrange(0, 0) =~= pat@);
        }
        return true;
    }
    let mut i: usize = 0;
    while i <= sv.len() - pv.len()
        invariant
            sv@ == s@,
            pv@ == pat@,
            0 < pv.len() <= sv.len(),
            i <= sv.len() - pv.len() + 1,
            forall|k: int| 0 <= k < i ==> !occurs_at(s@, k, pat@),
        decreases sv.len() - pv.len() + 1 - i,
    {
        if occurs_at_exec(&sv, i, &pv) {
            return true;
        }
        i += 1;
    }
    proof {
        assert forall|k: int| !occurs_at(s@, k, pat@) by {
            if occurs_at(s@, k, pat@) {
                assert(k < i);
            }
        }
    }
    false
}

/// How many bytes the UTF-8 encoding of a character takes.
pub open spec fn char_utf8_len(c: char) -> nat {
    if (c as int) < 0x80 {
        1
    } else if (c as int) < 0x800 {
        2
    } else if (c as int) < 0x10000 {
        3
    } else {
        4
    }
}

/// How many bytes the UTF-8 encoding of a text takes: the length of a
/// `String` that holds it.
pub open spec fn utf8_len(s: Seq<char>) -> nat
    decreases s.len(),
{
    if s.len() == 0 {
        0
    } else {
        utf8_len(s.drop_last()) + char_utf8_len(s.last())
    }
}

pub proof fn lemma_utf8_len_concat(a: Seq<char>, b: Seq<char>)
    ensures
        utf8_len(a + b) == utf8_len(a) + utf8_len(b),
    decreases b.len(),
{
    if b.len() == 0 {
        assert(a + b =~= a);
    } else {
        lemma_utf8_len_concat(a, b.drop_last());
        assert((a + b).drop_last() =~= a + b.drop_last());
    }
}

fn utf8_len_of(c: char) -> (r: usize)
    ensures
        r == char_utf8_len(c),
{
    if (c as u32) < 0x80 {
        1
    } else if (c as u32) < 0x800 {
        2
    } else if (c as u32) < 0x10000 {
        3
    } else {
        4
    }
}

/// How many bytes the UTF-8 encoding of the characters `from .. to` of `v`
/// takes, where the whole of `v` takes at most `usize::MAX` bytes.
pub fn utf8_len_between(v: &Vec<char>, from: usize, to: usize) -> (r: usize)
    requires
        from <= to <= v@.len(),
        utf8_len(v@) <= usize::MAX,
    ensures
        r == utf8_len(v@.subrange(from as int, to as int)),
{
    proof {
        lemma_utf8_len_concat(v@.take(from as int), v@.subrange(from as int, to as int));
        lemma_utf8_len_concat(v@.take(to as int), v@.skip(to as int));
        assert(v@.take(from as int) + v@.subrange(from as int, to as int) =~= v@.take(to as int));
        assert(v@.take(to as int) + v@.skip(to as int) =~= v@);
    }
    let mut r: usize = 0;
    let mut i = from;
    while i < to
        invariant
            from <= i <= to <= v@.len(),
            r == utf8_len(v@.subrange(from as int, i as int)),
            utf8_len(v@.subrange(from as int, to as int)) <= usize::MAX,
        decreases to - i,
    {
        proof {
            assert(v@.subrange(from as int, i + 1).drop_last() =~= v@.subrange(from as int, i as int));
            lemma_utf8_len_concat(v@.subrange(from as int, i + 1), v@.subrange(i + 1, to as int));
            assert(v@.subrange(from as int, i + 1) + v@.subrange(i + 1, to as int) =~= v@.subrange(
                from as int,
                to as int,
            ));
        }
        r = r + utf8_len_of(v[i]);
        i += 1;
    }
    r
}

/// Whether the UTF-8 encoding of `s` takes more than `limit` bytes.
pub fn utf8_len_exceeds(s: &str, limit: usize) -> (r: bool)
    ensures
        r == (utf8_len(s@) > limit),
{
    let v = chars_of(s);
    let mut acc: usize = 0;
    let mut i: usize = 0;
    while i < v.len()
        invariant
            i <= v@.len(),
            v@ == s@,
            acc == utf8_len(v@.take(i as int)),
            acc <= limit,
        decreases v@.len() - i,
    {
        proof {
            assert(v@.take(i + 1).drop_last() =~= v@.take(i as int));
        }
        let n = utf8_len_of(v[i]);
        if n > limit - acc {
            proof {
                lemma_utf8_len_concat(v@.take(i + 1), v@.skip(i + 1));
                assert(v@.take(i + 1) + v@.skip(i + 1) =~= v@);
            }
            return true;
        }
        acc = acc + n;
        i += 1;
    }
    assert(v@.take(v@.len() as int) =~= v@);
    false
}

} // verus!
