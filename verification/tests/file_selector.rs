use neukgu::browser::FileEntry;
use neukgu::file_selector::{update, IcedContext, IcedMessage};

fn entry(path: &str) -> FileEntry {
    FileEntry {
        name: path.rsplit('/').next().unwrap().to_string(),
        path: path.to_string(),
        is_dir: false,
        has_neukgu_index: false,
        size: Some(10),
        error: None,
    }
}

fn selector() -> IcedContext {
    IcedContext {
        home_dir: String::from("/home/u"),
        cwd: String::from("/home/u"),
        current_entry: entry("/home/u"),
        entries: vec![],
        selected: vec![],
        hovered: None,
        error: None,
    }
}

fn picked(c: &IcedContext) -> Vec<String> {
    c.selected.iter().map(|e| e.path.clone()).collect()
}

#[test]
fn a_file_is_picked_once() {
    let mut c = selector();
    assert!(update(&mut c, IcedMessage::Select(entry("/home/u/a.txt"))).is_none());
    assert!(update(&mut c, IcedMessage::Select(entry("/home/u/b.txt"))).is_none());
    match update(&mut c, IcedMessage::Select(entry("/home/u/a.txt"))) {
        Some(IcedMessage::Notify(n)) => assert_eq!(n, "It's already selected."),
        _ => panic!("a second pick is refused"),
    }
    assert_eq!(picked(&c), vec!["/home/u/a.txt", "/home/u/b.txt"]);
}

#[test]
fn unselecting_drops_the_path_and_keeps_the_order() {
    let mut c = selector();
    for p in ["/x/1", "/x/2", "/x/3"] {
        update(&mut c, IcedMessage::Select(entry(p)));
    }
    update(&mut c, IcedMessage::Unselect(String::from("/x/2")));
    assert_eq!(picked(&c), vec!["/x/1", "/x/3"]);
    update(&mut c, IcedMessage::Unselect(String::from("/x/9")));
    assert_eq!(picked(&c), vec!["/x/1", "/x/3"]);
    update(&mut c, IcedMessage::Select(entry("/x/2")));
    assert_eq!(picked(&c), vec!["/x/1", "/x/3", "/x/2"]);
}

#[test]
fn entering_a_directory_resets_hover_and_error() {
    let mut c = selector();
    update(&mut c, IcedMessage::Hover(Some(String::from("a.txt"))));
    assert_eq!(c.hovered.as_deref(), Some("a.txt"));
    c.error = Some(String::from("permission denied"));
    c.enter_dir(String::from("/home/u/src"), vec![entry("/home/u/src/main.rs")], entry("/home/u/src"));
    assert_eq!(c.cwd, "/home/u/src");
    assert_eq!(c.entries.len(), 1);
    assert!(c.hovered.is_none());
    assert!(c.error.is_none());
}
