use neukgu::file_editor::{IcedContext, SaveStep};

#[test]
fn saving_keeps_a_diff_of_each_change() {
    let mut e = IcedContext::new(String::from("/tmp/notes.md"), String::from("a\nb\nc\n"));
    assert!(matches!(e.save(), SaveStep::NothingToSave));
    e.editor_text = String::from("a\nB\nc\n");
    match e.save() {
        SaveStep::Write { path, content } => {
            assert_eq!(path, "/tmp/notes.md");
            assert_eq!(content, "a\nB\nc\n");
        },
        SaveStep::NothingToSave => panic!("nothing saved"),
    }
    assert_eq!(e.diffs.len(), 1);
    assert_eq!(e.diffs[0], "@@ -1,3 +1,3 @@\n a\n-b\n+B\n c\n");
    assert_eq!(e.last_saved_content, "a\nB\nc\n");
    // the same text again is nothing to save
    assert!(matches!(e.save(), SaveStep::NothingToSave));
    assert_eq!(e.diffs.len(), 1);
}

#[test]
fn the_history_view_toggles() {
    let mut e = IcedContext::new(String::from("x"), String::new());
    e.toggle_history_view();
    assert!(e.history_view);
    e.toggle_history_view();
    assert!(!e.history_view);
}
