use neukgu::browser::{key_action, popup_after_job, select_entry, FileEntry, KeyAction, Popup};
use neukgu::keys::{Key, Modifiers};
use neukgu::worker::{JobId, JobResult, JobResultKind, RgMatch};

const NONE: Modifiers = Modifiers { ctrl: false, alt: false, shift: false };
const CTRL: Modifiers = Modifiers { ctrl: true, alt: false, shift: false };
const ALT: Modifiers = Modifiers { ctrl: false, alt: true, shift: false };

fn entry(name: &str, is_dir: bool) -> FileEntry {
    FileEntry {
        name: String::from(name),
        path: format!("/home/{name}"),
        is_dir,
        has_neukgu_index: false,
        size: None,
        error: None,
    }
}

fn entries() -> Vec<FileEntry> {
    vec![entry("docs", true), entry("a.txt", false), entry("b.txt", false)]
}

#[test]
fn arrows_move_the_selection_within_the_list() {
    assert_eq!(select_entry(None, 1, 3), 0);
    assert_eq!(select_entry(Some(0), 1, 3), 1);
    assert_eq!(select_entry(Some(2), 1, 3), 2);
    assert_eq!(select_entry(Some(1), -10, 3), 0);
    assert_eq!(select_entry(None, -1, 3), 0);
    assert_eq!(select_entry(Some(0), 10, 30), 10);
    // an empty list still selects its first place
    assert_eq!(select_entry(None, 1, 0), 0);
}

#[test]
fn keys_of_the_listing() {
    let cwd = String::from("/home");
    let es = entries();
    let act = |key: Key, m: Modifiers, popup: &Option<Popup>, selected: Option<usize>| key_action(key, m, popup, &cwd, &es, selected, false);
    assert!(matches!(act(Key::Escape, NONE, &None, None), KeyAction::ClosePopup));
    assert!(matches!(act(Key::ArrowUp, ALT, &None, None), KeyAction::ChDirToParent));
    assert!(matches!(act(Key::ArrowDown, NONE, &None, None), KeyAction::SelectEntry(0)));
    assert!(matches!(act(Key::ArrowDown, CTRL, &None, Some(0)), KeyAction::SelectEntry(2)));
    assert!(matches!(act(Key::ArrowUp, NONE, &None, Some(2)), KeyAction::SelectEntry(1)));
    assert!(matches!(act(Key::Enter, NONE, &None, Some(0)), KeyAction::ChDir(p) if p == "/home/docs"));
    assert!(matches!(act(Key::Enter, NONE, &None, Some(1)), KeyAction::OpenPopup(Popup::Preview { path }) if path == "/home/a.txt"));
    assert!(matches!(act(Key::Enter, NONE, &None, Some(7)), KeyAction::Nothing));
    assert!(matches!(act(Key::Delete, NONE, &None, Some(2)), KeyAction::OpenPopup(Popup::AskDelete { is_dir: false, path }) if path == "/home/b.txt"));
    assert!(matches!(act(Key::Character('c'), CTRL, &None, None), KeyAction::OpenPopup(Popup::Create { path }) if path == "/home"));
    assert!(matches!(act(Key::Character('i'), CTRL, &None, None), KeyAction::OpenPopup(Popup::Init { path }) if path == "/home"));
    // launching needs a working directory
    assert!(matches!(act(Key::Character('l'), CTRL, &None, None), KeyAction::Nothing));
    assert!(matches!(key_action(Key::Character('l'), CTRL, &None, &cwd, &es, None, true), KeyAction::Launch(p) if p == "/home"));
    assert!(matches!(act(Key::Character('-'), CTRL, &None, None), KeyAction::ZoomOut));
    assert!(matches!(act(Key::Character('='), CTRL, &None, None), KeyAction::ZoomIn));
    assert!(matches!(act(Key::Character('c'), NONE, &None, None), KeyAction::Nothing));
}

#[test]
fn a_popup_blocks_the_listing_keys() {
    let cwd = String::from("/home");
    let es = entries();
    let help = Some(Popup::Help);
    assert!(matches!(key_action(Key::ArrowDown, NONE, &help, &cwd, &es, None, false), KeyAction::Nothing));
    assert!(matches!(key_action(Key::Enter, NONE, &help, &cwd, &es, Some(0), false), KeyAction::Nothing));
    assert!(matches!(key_action(Key::Character('h'), CTRL, &help, &cwd, &es, None, false), KeyAction::Nothing));
    let ask = Some(Popup::AskDelete { is_dir: true, path: String::from("/home/docs") });
    assert!(matches!(key_action(Key::Character('y'), CTRL, &ask, &cwd, &es, None, false), KeyAction::DeleteDirectory(p) if p == "/home/docs"));
    let ask = Some(Popup::AskDelete { is_dir: false, path: String::from("/home/a.txt") });
    assert!(matches!(key_action(Key::Character('y'), CTRL, &ask, &cwd, &es, None, false), KeyAction::DeleteFile(p) if p == "/home/a.txt"));
}

fn rg_match(n: usize) -> RgMatch {
    RgMatch { path: format!("f{n}"), line: String::from("x"), line_number: n, submatches: vec![(0, 1)] }
}

#[test]
fn a_search_result_replaces_the_search_popup() {
    let id = JobId(7);
    let waiting = Some(Popup::Find { error: None, job: Some(id) });
    let matches: Vec<RgMatch> = (0..600).map(rg_match).collect();
    let result = JobResult { id: Some(id), kind: JobResultKind::Rg { regex: String::from("x"), matches, count: 600 } };
    match popup_after_job(waiting.clone(), result) {
        Some(Popup::FindResult { regex, matches, truncate, match_count }) => {
            assert_eq!(regex, "x");
            assert_eq!(matches.len(), 512);
            assert_eq!(truncate, Some(88));
            assert_eq!(match_count, 600);
        },
        other => panic!("{other:?}"),
    }
    let timeout = JobResult { id: Some(id), kind: JobResultKind::RgTimeout };
    match popup_after_job(waiting.clone(), timeout) {
        Some(Popup::Find { error: Some(e), job: None }) => assert_eq!(e, "ripgrep timeout"),
        other => panic!("{other:?}"),
    }
    // an answer to another job changes nothing
    let other = JobResult { id: Some(JobId(8)), kind: JobResultKind::RgTimeout };
    assert!(matches!(popup_after_job(waiting, other), Some(Popup::Find { error: None, job: Some(JobId(7)) })));
    assert!(matches!(popup_after_job(Some(Popup::Help), JobResult { id: None, kind: JobResultKind::RgTimeout }), Some(Popup::Help)));
}
