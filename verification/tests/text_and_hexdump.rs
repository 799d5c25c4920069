use neukgu::hexdump::{dump_hex, hex_repr_of};
use neukgu::text::{chars_of, contains_str, count_chars, split_lines, str_eq, string_of, take_chars};

#[test]
fn count_chars_counts_hangul_wider() {
    assert_eq!(count_chars("hello"), 5);
    assert_eq!(count_chars(""), 0);
    // 10 + 10 = 20 sevenths of a column
    assert_eq!(count_chars("가나"), 2);
    // 7 + 10 + 10 + 10 = 37 sevenths
    assert_eq!(count_chars("a가나다"), 5);
}

#[test]
fn take_chars_keeps_the_widest_prefix_that_fits() {
    assert_eq!(take_chars("hello", 3), "hel");
    assert_eq!(take_chars("hello", 10), "hello");
    assert_eq!(take_chars("hello", 0), "");
    // the second syllable would take the weight to 20 > 14
    assert_eq!(take_chars("가나다", 2), "가");
    assert_eq!(take_chars("", 5), "");
}

#[test]
fn split_lines_behaves_like_str_lines() {
    let cases = ["", "a", "a\n", "a\r\nb", "a\n\nb\n", "\n", "x\ry\n"];
    for c in cases {
        let expected: Vec<String> = c.lines().map(|l| l.to_string()).collect();
        assert_eq!(split_lines(c), expected, "{c:?}");
    }
}

#[test]
fn contains_and_equality() {
    assert!(contains_str("fatal: not a git repository", "not a git"));
    assert!(!contains_str("abc", "abd"));
    assert!(contains_str("abc", ""));
    assert!(str_eq("dev/null", "dev/null"));
    assert!(!str_eq("a", "b"));
    assert_eq!(string_of(&chars_of("héllo")), "héllo");
}

#[test]
fn hex_repr_has_no_leading_zeros() {
    assert_eq!(hex_repr_of(0).into_iter().collect::<String>(), "0");
    assert_eq!(hex_repr_of(255).into_iter().collect::<String>(), "ff");
    assert_eq!(hex_repr_of(0x1234abcd).into_iter().collect::<String>(), "1234abcd");
}

#[test]
fn dump_hex_of_a_short_chunk() {
    let expected = format!("00000000 | {:<23}    {:<23} | {:<8}  {:<8} \n", "41 42 00 0a", "", "AB._", "");
    assert_eq!(dump_hex(&[0x41, 0x42, 0x00, 0x0a], 0), expected);
}

#[test]
fn dump_hex_splits_lines_of_sixteen_bytes() {
    let bytes: Vec<u8> = (0u8..20).map(|b| b + 0x61).collect();
    let line1 = format!(
        "00000010 | {:<23}    {:<23} | {:<8}  {:<8} \n",
        "61 62 63 64 65 66 67 68",
        "69 6a 6b 6c 6d 6e 6f 70",
        "abcdefgh",
        "ijklmnop"
    );
    let line2 = format!("00000020 | {:<23}    {:<23} | {:<8}  {:<8} \n", "71 72 73 74", "", "qrst", "");
    let dump = dump_hex(&bytes, 16);
    assert_eq!(dump, format!("{line1}{line2}"));
    // every line is 84 characters long, line break included
    for line in dump.split_inclusive('\n') {
        assert_eq!(line.chars().count(), 84);
    }
}

#[test]
fn dump_hex_of_nothing_is_empty() {
    assert_eq!(dump_hex(&[], 0), "");
}

#[test]
fn dump_hex_marks_non_ascii_bytes() {
    let expected = format!("00000000 | {:<23}    {:<23} | {:<8}  {:<8} \n", "7f 80 1f 20", "", "___ ", "");
    assert_eq!(dump_hex(&[0x7f, 0x80, 0x1f, 0x20], 0), expected);
}
