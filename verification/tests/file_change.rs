use neukgu::file_change::{render_udiff, words_of, LineColor, UdiffRow, WordTag};

fn line(text: &str, color: LineColor) -> String {
    format!("{:?}", UdiffRow::Line(text.to_string(), color))
}

fn split_like_std(text: &str) -> Vec<String> {
    text.split_inclusive(|ch| {
        matches!(ch, ' ' | '\t' | '\n' | '(' | ')' | '{' | '}' | '[' | ']' | '<' | '>' | '.' | ',' | '+' | '-')
    })
    .map(|w| w.to_string())
    .collect()
}

#[test]
fn words_end_after_break_characters() {
    assert_eq!(words_of(&String::from("let x = f(a, b);")), vec!["let ", "x ", "= ", "f(", "a,", " ", "b)", ";"]);
    for text in ["", "abc", "a..b", "x<T>[0]{}\n", "  -+\t", "fn main() {\n    1 + 2\n}"] {
        assert_eq!(words_of(&text.to_string()), split_like_std(text), "{text:?}");
    }
    assert_eq!(words_of(&String::from("")), Vec::<String>::new());
    assert_eq!(words_of(&String::from("a\n")), vec!["a\n"]);
    assert_eq!(words_of(&String::from("--")), vec!["-", "-"]);
}

#[test]
fn long_runs_are_shown_line_by_line() {
    let rows: Vec<String> = render_udiff("@@ -1,3 +1,1 @@\n-1\n-2\n-3\n+4\n x").iter().map(|r| format!("{r:?}")).collect();
    assert_eq!(
        rows,
        vec![
            line("@@ -1,3 +1,1 @@", LineColor::Yellow),
            line("-1", LineColor::Red),
            line("-2", LineColor::Red),
            line("-3", LineColor::Red),
            line("+4", LineColor::Green),
            line(" x", LineColor::White),
        ]
    );
}

#[test]
fn one_sided_runs_keep_their_color() {
    let rows: Vec<String> = render_udiff(" a\n+b\n+c\n d\n-e").iter().map(|r| format!("{r:?}")).collect();
    assert_eq!(
        rows,
        vec![
            line(" a", LineColor::White),
            line("+b", LineColor::Green),
            line("+c", LineColor::Green),
            line(" d", LineColor::White),
            line("-e", LineColor::Red),
        ]
    );
}

#[test]
fn a_small_change_is_shown_word_by_word() {
    let rows = render_udiff(" fn f() {\n-    let x = 1;\n+    let x = 2;\n }");
    assert_eq!(rows.len(), 4);
    assert_eq!(format!("{:?}", rows[0]), line(" fn f() {", LineColor::White));
    assert_eq!(format!("{:?}", rows[3]), line(" }", LineColor::White));
    match (&rows[1], &rows[2]) {
        (UdiffRow::Words(old), UdiffRow::Words(new)) => {
            let old_text: String = old.iter().map(|(_, w)| w.as_str()).collect();
            let new_text: String = new.iter().map(|(_, w)| w.as_str()).collect();
            assert_eq!(old_text, "-    let x = 1;");
            assert_eq!(new_text, "+    let x = 2;");
            assert!(old.iter().all(|(t, _)| *t != WordTag::Insert));
            assert!(new.iter().all(|(t, _)| *t != WordTag::Delete));
            assert!(old.iter().any(|(t, w)| *t == WordTag::Delete && w == "1;"));
            assert!(new.iter().any(|(t, w)| *t == WordTag::Insert && w == "2;"));
            assert!(old.iter().any(|(t, w)| *t == WordTag::Equal && w == "let "));
        },
        other => panic!("{other:?}"),
    }
}

#[test]
fn nothing_to_show() {
    assert!(render_udiff("").is_empty());
}
