use neukgu::popup::{popup_buttons, PopupButton};
use neukgu::browser::{arrange_entries, clip_submatches, entry_label, truncate_find_result, FileEntry};
use neukgu::chat::{extract_code_blocks, Popup as ChatPopup};
use neukgu::launcher::{arrange_entries as arrange_launcher_entries, FileEntry as LauncherEntry};
use neukgu::worker::RgMatch;
use neukgu::working_dir::Popup as WorkingDirPopup;

#[test]
fn code_blocks_are_extracted_with_their_language() {
    let turn = "Here:\n```rust\nfn main() {}\nlet x = 1;\n```\ntext\n```\nplain\n```\n```py\nunclosed";
    let blocks = extract_code_blocks(turn);
    assert_eq!(
        blocks,
        vec![
            (String::from("fn main() {}\nlet x = 1;"), Some(String::from("rust"))),
            (String::from("plain"), None),
        ]
    );
}

#[test]
fn fences_need_a_plain_language_name() {
    // "```c++" is no fence, so nothing opens
    assert!(extract_code_blocks("```c++\nx\n```").is_empty());
    // inside a block, a fence with a language is an ordinary line
    let blocks = extract_code_blocks("```\n```rust\n```");
    assert_eq!(blocks, vec![(String::from("```rust"), None)]);
    // an empty block
    assert_eq!(extract_code_blocks("```\n```\n"), vec![(String::new(), None)]);
    assert!(extract_code_blocks("").is_empty());
}

#[test]
fn popups_with_text_inputs() {
    assert!(ChatPopup::ChangeTitle.has_short_text_input());
    assert!(ChatPopup::Find { re: None, error: None }.has_short_text_input());
    assert!(!ChatPopup::Help.has_short_text_input());
    assert!(WorkingDirPopup::Find { re: None, error: None }.has_short_text_input());
    assert!(!WorkingDirPopup::Reset.has_short_text_input());
    assert!(WorkingDirPopup::Reset.has_long_text_input());
    assert!(!WorkingDirPopup::AskQuit.has_long_text_input());
}

fn entry(name: &str, is_dir: bool) -> FileEntry {
    FileEntry {
        name: name.to_string(),
        path: format!("/home/{name}"),
        is_dir,
        has_neukgu_index: false,
        size: if is_dir { None } else { Some(1) },
        error: None,
    }
}

#[test]
fn directories_come_before_files_in_read_order() {
    let entries = vec![entry("b.txt", false), entry("src", true), entry("a.txt", false), entry("docs", true)];
    let names: Vec<String> = arrange_entries(entries).into_iter().map(|e| e.name).collect();
    assert_eq!(names, vec!["src", "docs", "b.txt", "a.txt"]);
    assert!(arrange_entries(vec![]).is_empty());
}

#[test]
fn the_launcher_lists_the_parent_first() {
    let mk = |name: &str, is_dir: bool| LauncherEntry {
        name: name.to_string(),
        path: name.to_string(),
        is_dir,
        has_neukgu_index: false,
        size: None,
        error: None,
    };
    let names: Vec<String> = arrange_launcher_entries(mk("..", true), vec![mk("x", false), mk("y", true)])
        .into_iter()
        .map(|e| e.name)
        .collect();
    assert_eq!(names, vec!["..", "y", "x"]);
}

fn rg_match(n: usize) -> RgMatch {
    RgMatch { path: String::from("a"), line: String::from("x"), line_number: n, submatches: vec![] }
}

#[test]
fn search_results_are_cut_at_512() {
    let (shown, cut) = truncate_find_result((0..600).map(rg_match).collect());
    assert_eq!(shown.len(), 512);
    assert_eq!(shown[511].line_number, 511);
    assert_eq!(cut, Some(88));
    let (shown, cut) = truncate_find_result((0..511).map(rg_match).collect());
    assert_eq!(shown.len(), 511);
    assert_eq!(cut, None);
    let (shown, cut) = truncate_find_result((0..512).map(rg_match).collect());
    assert_eq!(shown.len(), 512);
    assert_eq!(cut, Some(0));
}

#[test]
fn highlights_are_cut_to_the_line() {
    assert_eq!(clip_submatches(10, &vec![(0, 3), (4, 12), (8, 9), (12, 15)]), vec![(0, 3), (8, 9)]);
    assert_eq!(clip_submatches(0, &vec![(0, 0)]), vec![]);
}

#[test]
fn entry_labels_fill_the_name_column() {
    let label = entry_label(&String::from("src"), true);
    assert_eq!(label, format!("src/{}", " ".repeat(39)));
    assert_eq!(entry_label(&String::from("a.txt"), false), format!("a.txt {}", " ".repeat(37)));
    let long = "x".repeat(50);
    assert_eq!(entry_label(&long, false), format!("{}... ", "x".repeat(39)));
    // Hangul syllables are wider: 5 of them take 50/7 = 7 columns
    assert_eq!(entry_label(&String::from("가나다라마"), true), format!("가나다라마/{}", " ".repeat(35)));
}

#[test]
fn a_popup_frame_shows_the_buttons_that_apply() {
    assert_eq!(popup_buttons(true, false, true, false), vec![PopupButton::Close, PopupButton::Copy]);
    assert_eq!(popup_buttons(false, true, false, true), vec![PopupButton::Back, PopupButton::ScratchPad]);
    assert!(popup_buttons(false, false, false, false).is_empty());
    assert_eq!(
        popup_buttons(true, true, true, true),
        vec![PopupButton::Close, PopupButton::Back, PopupButton::Copy, PopupButton::ScratchPad],
    );
}
