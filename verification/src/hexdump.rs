//! Hex dump of binary files, as the file browser previews them.
use crate::text::string_of;
use vstd::prelude::*;

verus! {

/// Lower-case hexadecimal digit of `n` (0 ~ 15).
pub open spec fn hex_digit(n: int) -> char {
    if n < 10 {
        ('0' as int + n) as char
    } else {
        ('a' as int + n - 10) as char
    }
}

/// Lower-case hexadecimal representation of `n`, without leading zeros.
pub open spec fn hex_repr(n: nat) -> Seq<char>
    decreases n,
{
    if n < 16 {
        seq![hex_digit(n as int)]
    } else {
        hex_repr(n / 16).push(hex_digit((n % 16) as int))
    }
}

/// `s` with zeros in front of it, so that it has at least `w` characters.
pub open spec fn zero_pad(s: Seq<char>, w: int) -> Seq<char> {
    if s.len() < w {
        Seq::new((w - s.len()) as nat, |i: int| '0') + s
    } else {
        s
    }
}

/// `s` with spaces after it, so that it has at least `w` characters.
pub open spec fn space_pad(s: Seq<char>, w: int) -> Seq<char> {
    if s.len() < w {
        s + Seq::new((w - s.len()) as nat, |i: int| ' ')
    } else {
        s
    }
}

/// The two hexadecimal digits of a byte.
pub open spec fn hex_byte(b: u8) -> Seq<char> {
    seq![hex_digit(b as int / 16), hex_digit(b as int % 16)]
}

/// The bytes in hexadecimal, separated by single spaces.
pub open spec fn hex_join(bytes: Seq<u8>) -> Seq<char>
    decreases bytes.len(),
{
    if bytes.len() == 0 {
        Seq::empty()
    } else if bytes.len() == 1 {
        hex_byte(bytes[0])
    } else {
        hex_join(bytes.drop_last()) + seq![' '] + hex_byte(bytes.last())
    }
}

/// How a byte is shown in the text column: NUL as '.', other control
/// characters and non-ASCII bytes as '_', printable ASCII as itself.
pub open spec fn ascii_char(b: u8) -> char {
    if b == 0 {
        '.'
    } else if b < 32 {
        '_'
    } else if b < 127 {
        b as char
    } else {
        '_'
    }
}

pub open spec fn ascii_of(bytes: Seq<u8>) -> Seq<char> {
    Seq::new(bytes.len(), |i: int| ascii_char(bytes[i]))
}

/// One line of the dump, for a chunk of at most 16 bytes at `address`.
pub open spec fn dump_line(chunk: Seq<u8>, address: nat) -> Seq<char> {
    let pre = chunk.take(if chunk.len() < 8 { chunk.len() as int } else { 8 });
    let post = if chunk.len() < 8 { Seq::empty() } else { chunk.skip(8) };
    zero_pad(hex_repr(address), 8) + " | "@ + space_pad(hex_join(pre), 23) + "    "@ + space_pad(
        hex_join(post),
        23,
    ) + " | "@ + space_pad(ascii_of(pre), 8) + "  "@ + space_pad(ascii_of(post), 8) + " \n"@
}

/// The whole dump: one line per 16 bytes, the first one at `offset`.
pub open spec fn spec_dump_hex(bytes: Seq<u8>, offset: nat) -> Seq<char>
    decreases bytes.len(),
{
    if bytes.len() == 0 {
        Seq::empty()
    } else if bytes.len() <= 16 {
        dump_line(bytes, offset)
    } else {
        dump_line(bytes.take(16), offset) + spec_dump_hex(bytes.skip(16), offset + 16)
    }
}

proof fn lemma_hex_repr_len(n: nat, k: nat)
    requires
        1 <= k,
        n < pow16(k),
    ensures
        hex_repr(n).len() <= k,
    decreases n,
{
    if n >= 16 {
        assert(k >= 2) by {
            if k == 1 {
                assert(pow16(1) == 16 * pow16(0));
            }
        };
        assert(pow16(k) == 16 * pow16((k - 1) as nat));
        assert(n / 16 < pow16((k - 1) as nat));
        lemma_hex_repr_len(n / 16, (k - 1) as nat);
    }
}

/// 16 to the power of `k`.
pub open spec fn pow16(k: nat) -> nat
    decreases k,
{
    if k == 0 { 1 } else { 16 * pow16((k - 1) as nat) }
}

proof fn lemma_hex_join_len(bytes: Seq<u8>)
    ensures
        bytes.len() > 0 ==> hex_join(bytes).len() == 3 * bytes.len() - 1,
        bytes.len() == 0 ==> hex_join(bytes).len() == 0,
    decreases bytes.len(),
{
    if bytes.len() > 1 {
        lemma_hex_join_len(bytes.drop_last());
    }
}

/// Law: every line of the dump is 84 characters long (line break included)
/// while the address fits in 8 hex digits.
pub proof fn lemma_dump_line_len(chunk: Seq<u8>, address: nat)
    requires
        1 <= chunk.len() <= 16,
        address < 0x1_0000_0000,
    ensures
        dump_line(chunk, address).len() == 84,
{
    reveal_with_fuel(pow16, 9);
    assert(pow16(8) == 0x1_0000_0000);
    lemma_hex_repr_len(address, 8);
    let pre = chunk.take(if chunk.len() < 8 { chunk.len() as int } else { 8 });
    let post = if chunk.len() < 8 { Seq::empty() } else { chunk.skip(8) };
    lemma_hex_join_len(pre);
    lemma_hex_join_len(post);
    reveal_strlit(" | ");
    reveal_strlit("    ");
    reveal_strlit("  ");
    reveal_strlit(" \n");
}

/// Law: a dump takes 84 characters for each 16 bytes or part of them, while
/// the addresses fit in 8 hex digits.
pub proof fn lemma_dump_hex_len(bytes: Seq<u8>, offset: nat)
    requires
        offset + bytes.len() <= 0x1_0000_0000,
    ensures
        spec_dump_hex(bytes, offset).len() == 84 * ((bytes.len() + 15) / 16),
    decreases bytes.len(),
{
    if bytes.len() == 0 {
    } else if bytes.len() <= 16 {
        lemma_dump_line_len(bytes, offset);
    } else {
        lemma_dump_line_len(bytes.take(16), offset);
        lemma_dump_hex_len(bytes.skip(16), offset + 16);
        assert((bytes.len() - 16 + 15) / 16 + 1 == (bytes.len() + 15) / 16);
    }
}

/// The number that a lower-case hexadecimal digit stands for, or -1 for
/// any other character.
pub open spec fn hex_value(c: char) -> int {
    if '0' <= c <= '9' {
        c as int - '0' as int
    } else if 'a' <= c <= 'f' {
        c as int - 'a' as int + 10
    } else {
        -1
    }
}

proof fn lemma_hex_digit_value(n: int)
    requires
        0 <= n < 16,
    ensures
        hex_value(hex_digit(n)) == n,
{
    if n < 10 {
        assert((('0' as int + n) as char) as int == '0' as int + n);
    } else {
        assert((('a' as int + n - 10) as char) as int == 'a' as int + n - 10);
    }
}

proof fn lemma_hex_join_at(bytes: Seq<u8>, i: int)
    requires
        0 <= i < bytes.len(),
    ensures
        hex_join(bytes).len() == 3 * bytes.len() - 1,
        hex_join(bytes)[3 * i] == hex_digit(bytes[i] as int / 16),
        hex_join(bytes)[3 * i + 1] == hex_digit(bytes[i] as int % 16),
    decreases bytes.len(),
{
    lemma_hex_join_len(bytes);
    if bytes.len() > 1 {
        let p = bytes.drop_last();
        lemma_hex_join_len(p);
        if i < p.len() {
            lemma_hex_join_at(p, i);
        }
    }
}

/// The number that lower-case hexadecimal digits stand for.
pub open spec fn hex_number(s: Seq<char>) -> int
    decreases s.len(),
{
    if s.len() == 0 {
        0
    } else {
        hex_number(s.drop_last()) * 16 + hex_value(s.last())
    }
}

proof fn lemma_hex_number_of_repr(n: nat)
    ensures
        hex_number(hex_repr(n)) == n,
    decreases n,
{
    if n < 16 {
        lemma_hex_digit_value(n as int);
        assert(hex_repr(n).drop_last() =~= Seq::<char>::empty());
        assert(hex_number(Seq::<char>::empty()) == 0);
        assert(hex_number(hex_repr(n)) == hex_value(hex_digit(n as int)));
    } else {
        lemma_hex_number_of_repr(n / 16);
        lemma_hex_digit_value((n % 16) as int);
        assert(hex_repr(n).drop_last() =~= hex_repr(n / 16));
        assert(hex_repr(n).last() == hex_digit((n % 16) as int));
        assert((n / 16) as int * 16 + (n % 16) as int == n) by (nonlinear_arith);
        assert(hex_number(hex_repr(n)) == hex_number(hex_repr(n / 16)) * 16 + (n % 16) as int);
    }
}

proof fn lemma_hex_number_zeros(k: nat, s: Seq<char>)
    ensures
        hex_number(Seq::new(k, |i: int| '0') + s) == hex_number(s),
    decreases k + s.len(),
{
    if s.len() > 0 {
        lemma_hex_number_zeros(k, s.drop_last());
        assert((Seq::new(k, |i: int| '0') + s).drop_last() =~= Seq::new(k, |i: int| '0') + s.drop_last());
    } else if k > 0 {
        lemma_hex_number_zeros((k - 1) as nat, s);
        assert((Seq::new(k, |i: int| '0') + s).drop_last() =~= Seq::new((k - 1) as nat, |i: int| '0') + s);
        assert(Seq::new(k, |i: int| '0') + s =~= Seq::new(k, |i: int| '0'));
        assert(hex_value('0') == 0);
    } else {
        assert(Seq::new(k, |i: int| '0') + s =~= Seq::<char>::empty());
    }
}

/// Law: a dump line starts with its address in eight lower-case
/// hexadecimal digits.
pub proof fn law_dump_line_address(chunk: Seq<u8>, address: nat)
    requires
        1 <= chunk.len() <= 16,
        address < 0x1_0000_0000,
    ensures
        dump_line(chunk, address).len() >= 8,
        forall|i: int| 0 <= i < 8 ==> 0 <= #[trigger] hex_value(dump_line(chunk, address)[i]) < 16,
        hex_number(dump_line(chunk, address).take(8)) == address,
{
    reveal_with_fuel(pow16, 9);
    assert(pow16(8) == 0x1_0000_0000);
    lemma_hex_repr_len(address, 8);
    lemma_dump_line_len(chunk, address);
    let r = hex_repr(address);
    let z = zero_pad(r, 8);
    assert(z.len() == 8);
    assert(dump_line(chunk, address).take(8) =~= z);
    lemma_hex_number_of_repr(address);
    if r.len() < 8 {
        lemma_hex_number_zeros((8 - r.len()) as nat, r);
    }
    assert forall|i: int| 0 <= i < 8 implies 0 <= #[trigger] hex_value(dump_line(chunk, address)[i]) < 16 by {
        assert(dump_line(chunk, address)[i] == z[i]);
        lemma_hex_repr_digits(address);
        if r.len() < 8 && i < 8 - r.len() {
            assert(z[i] == '0');
        } else {
            let d = if r.len() < 8 { i - (8 - r.len()) } else { i };
            assert(z[i] == r[d]);
        }
    }
}

proof fn lemma_hex_repr_digits(n: nat)
    ensures
        forall|i: int| 0 <= i < hex_repr(n).len() ==> 0 <= #[trigger] hex_value(hex_repr(n)[i]) < 16,
    decreases n,
{
    if n < 16 {
        lemma_hex_digit_value(n as int);
    } else {
        lemma_hex_repr_digits(n / 16);
        lemma_hex_digit_value((n % 16) as int);
        assert forall|i: int| 0 <= i < hex_repr(n).len() implies 0 <= #[trigger] hex_value(hex_repr(n)[i]) < 16 by {
            if i < hex_repr(n / 16).len() {
                assert(hex_repr(n)[i] == hex_repr(n / 16)[i]);
            }
        }
    }
}

/// The column of the hexadecimal part of a dump line where the first digit
/// of the byte at `i` of its chunk stands: eight bytes, four spaces, eight
/// more.
pub open spec fn hex_column(i: int) -> int {
    if i < 8 {
        11 + 3 * i
    } else {
        14 + 3 * i
    }
}

/// Law: in the hexadecimal part of a dump line, each byte of the chunk
/// stands in its column as two lower-case hexadecimal digits that read as
/// the byte's value.
pub proof fn law_dump_line_hex(chunk: Seq<u8>, address: nat, i: int)
    requires
        1 <= chunk.len() <= 16,
        address < 0x1_0000_0000,
        0 <= i < chunk.len(),
    ensures
        ({
            let line = dump_line(chunk, address);
            &&& 0 <= hex_value(line[hex_column(i)]) < 16
            &&& 0 <= hex_value(line[hex_column(i) + 1]) < 16
            &&& hex_value(line[hex_column(i)]) * 16 + hex_value(line[hex_column(i) + 1]) == chunk[i]
        }),
{
    reveal_with_fuel(pow16, 9);
    assert(pow16(8) == 0x1_0000_0000);
    lemma_hex_repr_len(address, 8);
    let pre = chunk.take(if chunk.len() < 8 { chunk.len() as int } else { 8 });
    let post = if chunk.len() < 8 { Seq::empty() } else { chunk.skip(8) };
    lemma_hex_join_len(pre);
    lemma_hex_join_len(post);
    reveal_strlit(" | ");
    reveal_strlit("    ");
    let z = zero_pad(hex_repr(address), 8);
    assert(z.len() == 8);
    let h1 = space_pad(hex_join(pre), 23);
    let h2 = space_pad(hex_join(post), 23);
    assert(h1.len() == 23);
    let rest = " | "@ + space_pad(ascii_of(pre), 8) + "  "@ + space_pad(ascii_of(post), 8) + " \n"@;
    let line = z + " | "@ + h1 + "    "@ + h2 + rest;
    assert(dump_line(chunk, address) == line);
    let b = chunk[i];
    lemma_hex_digit_value(b as int / 16);
    lemma_hex_digit_value(b as int % 16);
    if i < 8 {
        assert(pre[i] == b);
        lemma_hex_join_at(pre, i);
        assert(line[11 + 3 * i] == h1[3 * i]);
        assert(line[12 + 3 * i] == h1[3 * i + 1]);
    } else {
        assert(post[i - 8] == b);
        lemma_hex_join_at(post, i - 8);
        assert(line[14 + 3 * i] == h2[3 * (i - 8)]);
        assert(line[15 + 3 * i] == h2[3 * (i - 8) + 1]);
    }
}

/// The column of the text part of a dump line where the byte at `i` of its
/// chunk is shown: eight bytes, two spaces, eight more.
pub open spec fn text_column(i: int) -> int {
    if i < 8 {
        64 + i
    } else {
        66 + i
    }
}

/// How a byte reads in the text part: a printable ASCII byte (space to
/// `~`) as itself, NUL as '.', any other byte as '_'.
pub open spec fn shown_as_text(b: u8) -> char {
    if 0x20 <= b <= 0x7e {
        b as char
    } else if b == 0 {
        '.'
    } else {
        '_'
    }
}

/// Law: in the text part of a dump line, each byte of the chunk stands in
/// its column as it reads (a printable ASCII byte as itself).
pub proof fn law_dump_line_text(chunk: Seq<u8>, address: nat, i: int)
    requires
        1 <= chunk.len() <= 16,
        address < 0x1_0000_0000,
        0 <= i < chunk.len(),
    ensures
        dump_line(chunk, address)[text_column(i)] == shown_as_text(chunk[i]),
{
    reveal_with_fuel(pow16, 9);
    assert(pow16(8) == 0x1_0000_0000);
    lemma_hex_repr_len(address, 8);
    let pre = chunk.take(if chunk.len() < 8 { chunk.len() as int } else { 8 });
    let post = if chunk.len() < 8 { Seq::empty() } else { chunk.skip(8) };
    lemma_hex_join_len(pre);
    lemma_hex_join_len(post);
    reveal_strlit(" | ");
    reveal_strlit("    ");
    reveal_strlit("  ");
    reveal_strlit(" \n");
    let a = zero_pad(hex_repr(address), 8) + " | "@ + space_pad(hex_join(pre), 23) + "    "@ + space_pad(
        hex_join(post),
        23,
    ) + " | "@;
    assert(a.len() == 64);
    let t1 = space_pad(ascii_of(pre), 8);
    let t2 = space_pad(ascii_of(post), 8);
    assert(t1.len() == 8);
    let line = a + t1 + "  "@ + t2 + " \n"@;
    assert(dump_line(chunk, address) == line);
    if i < 8 {
        assert(line[64 + i] == t1[i]);
        assert(t1[i] == ascii_of(pre)[i]);
        assert(pre[i] == chunk[i]);
    } else {
        assert(line[66 + i] == t2[i - 8]);
        assert(t2[i - 8] == ascii_of(post)[i - 8]);
        assert(post[i - 8] == chunk[i]);
    }
}

/// Law: in a whole dump, byte `j` stands in line `j / 16`, in the text
/// column of its place in the line, as it reads (a printable ASCII byte as
/// itself).
#[verifier::spinoff_prover]
#[verifier::rlimit(40)]
pub proof fn law_dump_text(bytes: Seq<u8>, offset: nat, j: int)
    requires
        offset + bytes.len() <= 0x1_0000_0000,
        0 <= j < bytes.len(),
    ensures
        spec_dump_hex(bytes, offset)[84 * (j / 16) + text_column(j % 16)] == shown_as_text(bytes[j]),
    decreases bytes.len(),
{
    if bytes.len() <= 16 {
        law_dump_line_text(bytes, offset, j);
        assert(j / 16 == 0 && j % 16 == j);
        assert(spec_dump_hex(bytes, offset) == dump_line(bytes, offset));
        assert(84 * (j / 16) + text_column(j % 16) == text_column(j));
    } else {
        let first = dump_line(bytes.take(16), offset);
        let rest = spec_dump_hex(bytes.skip(16), offset + 16);
        assert(spec_dump_hex(bytes, offset) == first + rest);
        lemma_dump_line_len(bytes.take(16), offset);
        if j < 16 {
            law_dump_line_text(bytes.take(16), offset, j);
            assert(j / 16 == 0 && j % 16 == j);
            assert(text_column(j) < 84);
        } else {
            law_dump_text(bytes.skip(16), offset + 16, j - 16);
            assert((j - 16) / 16 == j / 16 - 1);
            assert((j - 16) % 16 == j % 16);
            assert(bytes.skip(16)[j - 16] == bytes[j]);
            let k = 84 * ((j - 16) / 16) + text_column((j - 16) % 16);
            assert(84 * (j / 16) + text_column(j % 16) == 84 + k);
            assert(k < rest.len()) by {
                lemma_dump_hex_len(bytes.skip(16), offset + 16);
                assert(84 * ((j - 16) / 16) + 84 <= 84 * ((bytes.len() - 16 + 15) / 16)) by (nonlinear_arith)
                    requires
                        0 <= j - 16 < bytes.len() - 16,
                ;
            }
            assert((first + rest)[84 + k] == rest[k]);
        }
    }
}

pub(crate) fn digit(n: u64) -> (c: char)
    requires
        n < 16,
    ensures
        c == hex_digit(n as int),
{
    if n < 10 {
        proof {
            assert(('0' as int + n) < 0xD800);
        }
        (('0' as u8) + (n as u8)) as char
    } else {
        (('a' as u8) + (n as u8) - 10) as char
    }
}

pub fn hex_repr_of(n: u64) -> (r: Vec<char>)
    ensures
        r@ == hex_repr(n as nat),
    decreases n,
{
    if n < 16 {
        let mut r = Vec::new();
        r.push(digit(n));
        assert(r@ =~= seq![hex_digit(n as int)]);
        r
    } else {
        let mut r = hex_repr_of(n / 16);
        r.push(digit(n % 16));
        r
    }
}

fn append_chars(out: &mut Vec<char>, s: &str)
    ensures
        final(out)@ == old(out)@ + s@,
{
    let chars = crate::text::chars_of(s);
    let mut i: usize = 0;
    while i < chars.len()
        invariant
            i <= chars.len(),
            chars@ == s@,
            out@ == old(out)@ + s@.take(i as int),
        decreases chars.len() - i,
    {
        out.push(chars[i]);
        assert(s@.take(i + 1) =~= s@.take(i as int).push(s@[i as int]));
        i += 1;
    }
    assert(s@.take(s@.len() as int) =~= s@);
}

fn pad_with(out: &mut Vec<char>, start: usize, w: usize, c: char)
    requires
        start <= old(out)@.len(),
    ensures
        old(out)@.len() - start < w ==> final(out)@ == old(out)@ + Seq::new(
            (w - (old(out)@.len() - start)) as nat,
            |i: int| c,
        ),
        old(out)@.len() - start >= w ==> final(out)@ == old(out)@,
{
    let len0 = out.len();
    let mut k = len0 - start;
    while k < w
        invariant
            start <= len0,
            len0 == old(out)@.len(),
            len0 - start <= k,
            k <= w || k == len0 - start,
            out@ == old(out)@ + Seq::new((k - (len0 - start)) as nat, |i: int| c),
        decreases w - k,
    {
        out.push(c);
        assert(out@ =~= old(out)@ + Seq::new((k + 1 - (len0 - start)) as nat, |i: int| c));
        k += 1;
    }
    assert(len0 - start >= w ==> out@ =~= old(out)@);
}

fn push_hex_join(out: &mut Vec<char>, bytes: &[u8], from: usize, to: usize)
    requires
        from <= to <= bytes@.len(),
    ensures
        final(out)@ == old(out)@ + hex_join(bytes@.subrange(from as int, to as int)),
{
    let mut i = from;
    while i < to
        invariant
            from <= i <= to <= bytes@.len(),
            out@ == old(out)@ + hex_join(bytes@.subrange(from as int, i as int)),
        decreases to - i,
    {
        let b = bytes[i];
        let ghost before = out@;
        if i > from {
            out.push(' ');
        }
        out.push(digit((b / 16) as u64));
        out.push(digit((b % 16) as u64));
        proof {
            let sub = bytes@.subrange(from as int, i + 1);
            assert(sub.drop_last() =~= bytes@.subrange(from as int, i as int));
            assert(sub.last() == b);
            if i > from {
                assert(out@ =~= before + seq![' '] + hex_byte(b));
            } else {
                assert(out@ =~= before + hex_byte(b));
                assert(bytes@.subrange(from as int, i as int) =~= Seq::empty());
            }
        }
        i += 1;
    }
}

fn ascii_byte(b: u8) -> (c: char)
    ensures
        c == ascii_char(b),
{
    if b == 0 {
        '.'
    } else if b < 32 {
        '_'
    } else if b < 127 {
        b as char
    } else {
        '_'
    }
}

fn push_ascii(out: &mut Vec<char>, bytes: &[u8], from: usize, to: usize)
    requires
        from <= to <= bytes@.len(),
    ensures
        final(out)@ == old(out)@ + ascii_of(bytes@.subrange(from as int, to as int)),
{
    let mut i = from;
    while i < to
        invariant
            from <= i <= to <= bytes@.len(),
            out@ == old(out)@ + ascii_of(bytes@.subrange(from as int, i as int)),
        decreases to - i,
    {
        out.push(ascii_byte(bytes[i]));
        assert(ascii_of(bytes@.subrange(from as int, i + 1)) =~= ascii_of(
            bytes@.subrange(from as int, i as int),
        ).push(ascii_char(bytes@[i as int])));
        i += 1;
    }
}

/// Appends `n` in hex, with zeros in front so that it takes at least `w` digits.
pub fn push_zero_padded_hex(out: &mut Vec<char>, n: u64, w: usize)
    ensures
        final(out)@ == old(out)@ + zero_pad(hex_repr(n as nat), w as int),
{
    let ghost start = out@;
    let addr = hex_repr_of(n);
    let addr_len = addr.len();
    if addr_len < w {
        let mut k: usize = addr_len;
        while k < w
            invariant
                addr_len <= k <= w,
                out@ == start + Seq::new((k - addr_len) as nat, |i: int| '0'),
            decreases w - k,
        {
            out.push('0');
            assert(out@ =~= start + Seq::new((k + 1 - addr_len) as nat, |i: int| '0'));
            k += 1;
        }
    }
    let ghost zeros = out@;
    let mut i: usize = 0;
    while i < addr.len()
        invariant
            i <= addr.len(),
            addr_len == addr.len(),
            out@ == zeros + addr@.take(i as int),
        decreases addr.len() - i,
    {
        out.push(addr[i]);
        assert(addr@.take(i + 1) =~= addr@.take(i as int).push(addr@[i as int]));
        i += 1;
    }
    assert(addr@.take(addr_len as int) =~= addr@);
    if addr_len < w {
        assert(out@ =~= start + zero_pad(hex_repr(n as nat), w as int));
    } else {
        assert(zeros =~= start);
        assert(out@ =~= start + zero_pad(hex_repr(n as nat), w as int));
    }
}

fn push_hex_field(out: &mut Vec<char>, bytes: &[u8], from: usize, to: usize)
    requires
        from <= to <= bytes@.len(),
    ensures
        final(out)@ == old(out)@ + space_pad(hex_join(bytes@.subrange(from as int, to as int)), 23),
{
    let start = out.len();
    push_hex_join(out, bytes, from, to);
    pad_with(out, start, 23, ' ');
    assert(final(out)@ =~= old(out)@ + space_pad(
        hex_join(bytes@.subrange(from as int, to as int)),
        23,
    ));
}

fn push_ascii_field(out: &mut Vec<char>, bytes: &[u8], from: usize, to: usize)
    requires
        from <= to <= bytes@.len(),
    ensures
        final(out)@ == old(out)@ + space_pad(ascii_of(bytes@.subrange(from as int, to as int)), 8),
{
    let start = out.len();
    push_ascii(out, bytes, from, to);
    pad_with(out, start, 8, ' ');
    assert(final(out)@ =~= old(out)@ + space_pad(
        ascii_of(bytes@.subrange(from as int, to as int)),
        8,
    ));
}

#[verifier::rlimit(40)]
#[verifier::spinoff_prover]
fn push_line(out: &mut Vec<char>, bytes: &[u8], from: usize, to: usize, address: usize)
    requires
        from <= to <= bytes@.len(),
        to - from <= 16,
    ensures
        final(out)@ == old(out)@ + dump_line(bytes@.subrange(from as int, to as int), address as nat),
{
    let ghost chunk = bytes@.subrange(from as int, to as int);
    let len = to - from;
    let mid = if len < 8 { to } else { from + 8 };
    let post_from = if len < 8 { to } else { from + 8 };
    let ghost pre = chunk.take(if chunk.len() < 8 { chunk.len() as int } else { 8 });
    let ghost post = if chunk.len() < 8 { Seq::empty() } else { chunk.skip(8) };
    proof {
        assert(pre =~= bytes@.subrange(from as int, mid as int));
        assert(post =~= bytes@.subrange(post_from as int, to as int));
    }
    let ghost start = out@;
    push_zero_padded_hex(out, address as u64, 8);
    append_chars(out, " | ");
    push_hex_field(out, bytes, from, mid);
    append_chars(out, "    ");
    push_hex_field(out, bytes, post_from, to);
    append_chars(out, " | ");
    push_ascii_field(out, bytes, from, mid);
    append_chars(out, "  ");
    push_ascii_field(out, bytes, post_from, to);
    append_chars(out, " \n");
    assert(out@ =~= start + dump_line(chunk, address as nat));
}

/// Hex dump of `bytes`: each line shows the address (at least 8 hex digits,
/// counted from `offset`), up to 16 bytes in hex (in two groups of 8) and
/// the same bytes as text.
#[verifier::spinoff_prover]
pub fn dump_hex(bytes: &[u8], offset: usize) -> (r: String)
    requires
        bytes@.len() > 0 ==> offset + (bytes@.len() - 1) / 16 * 16 <= usize::MAX,
    ensures
        r@ == spec_dump_hex(bytes@, offset as nat),
{
    let mut out: Vec<char> = Vec::new();
    let len = bytes.len();
    let mut from: usize = 0;
    assert(bytes@.skip(0) =~= bytes@);
    assert(out@ + spec_dump_hex(bytes@, offset as nat) =~= spec_dump_hex(bytes@, offset as nat));
    while from < len
        invariant
            len == bytes@.len(),
            from <= len,
            from % 16 == 0 || from == len,
            len > 0 ==> offset + (len - 1) / 16 * 16 <= usize::MAX,
            out@ + spec_dump_hex(bytes@.skip(from as int), (offset + from) as nat) == spec_dump_hex(
                bytes@,
                offset as nat,
            ),
        decreases len - from,
    {
        let to = if len - from <= 16 { len } else { from + 16 };
        proof {
            assert((len - 1) / 16 * 16 >= from) by (nonlinear_arith)
                requires
                    from < len,
                    from % 16 == 0,
            ;
        }
        let ghost rest = bytes@.skip(from as int);
        let ghost before = out@;
        push_line(&mut out, bytes, from, to, offset + from);
        proof {
            if len - from <= 16 {
                assert(rest =~= bytes@.subrange(from as int, to as int));
                assert(bytes@.skip(to as int) =~= Seq::<u8>::empty());
            } else {
                assert(rest.take(16) =~= bytes@.subrange(from as int, to as int));
                assert(rest.skip(16) =~= bytes@.skip(to as int));
            }
        }
        from = to;
    }
    assert(bytes@.skip(from as int) =~= Seq::<u8>::empty());
    assert(out@ =~= spec_dump_hex(bytes@, offset as nat));
    string_of(&out)
}

} // verus!
