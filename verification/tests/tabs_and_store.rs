use neukgu::model_store::{
    default_api_keys, update, ApiKey, IcedContext, IcedMessage, StoreAction, StoreOpen,
};
use neukgu::tab::TabId;
use neukgu::keys::{Key, Modifiers};
use neukgu::tabs::{key_route, notify, tick_notes, Focus, KeyRoute, TabStrip};

fn strip(n: u64, selected: Option<usize>) -> TabStrip {
    let mut s = TabStrip::new();
    for i in 0..n {
        s.insert_tab(TabId(i));
    }
    s.selected_tab = selected;
    s
}

fn ids(s: &TabStrip) -> Vec<u64> {
    s.tab_ids.iter().map(|t| t.0).collect()
}

#[test]
fn new_tabs_open_right_after_the_selected_one() {
    let mut s = TabStrip::new();
    assert_eq!(s.insert_tab(TabId(1)), 0);
    assert_eq!(s.insert_tab(TabId(2)), 1);
    s.select_tab(0);
    assert_eq!(s.insert_tab(TabId(3)), 1);
    assert_eq!(ids(&s), vec![1, 3, 2]);
    assert_eq!(s.selected_tab, Some(1));
    s.select_index();
    assert_eq!(s.insert_tab(TabId(4)), 0);
    assert_eq!(ids(&s), vec![4, 1, 3, 2]);
}

#[test]
fn closing_a_tab_moves_the_selection_left() {
    let mut s = strip(3, Some(2));
    assert_eq!(s.close_tab(1), Focus::Tab(1));
    assert_eq!(s.selected_tab, Some(1));
    let mut s = strip(3, Some(0));
    assert_eq!(s.close_tab(2), Focus::Unchanged);
    assert_eq!(s.selected_tab, Some(0));
    assert_eq!(s.close_tab(0), Focus::Unchanged);
    assert_eq!(s.selected_tab, Some(0));
    assert_eq!(s.close_tab(0), Focus::Index);
    assert_eq!(s.selected_tab, None);
    assert!(s.tab_ids.is_empty());
}

#[test]
fn shortcuts_select_pages() {
    let mut s = strip(3, None);
    assert_eq!(s.select_by_digit(2), Focus::Tab(0));
    assert_eq!(s.select_by_digit(2), Focus::Unchanged);
    assert_eq!(s.select_by_digit(4), Focus::Tab(2));
    assert_eq!(s.select_by_digit(5), Focus::Unchanged);
    assert_eq!(s.selected_tab, Some(2));
    assert_eq!(s.select_by_digit(0), Focus::Unchanged);
    assert_eq!(s.select_by_digit(1), Focus::Index);
    assert_eq!(s.selected_tab, None);
    let mut s = strip(9, None);
    assert_eq!(s.select_by_digit(0), Focus::Tab(8));
}

#[test]
fn a_listed_tab_opens_only_if_it_is_still_there() {
    let mut s = strip(3, None);
    assert_eq!(s.open_tab(TabId(1), 1), Focus::Tab(1));
    assert_eq!(s.open_tab(TabId(1), 2), Focus::Unchanged);
    assert_eq!(s.open_tab(TabId(1), 7), Focus::Unchanged);
    assert_eq!(s.selected_tab, Some(1));
    assert_eq!(s.find_tab(TabId(2)), Some(2));
    assert_eq!(s.find_tab(TabId(9)), None);
}

#[test]
fn at_most_three_notes_and_they_fade() {
    let mut notes = vec![];
    for n in ["a", "b", "c", "d"] {
        notify(&mut notes, n.to_string());
    }
    let texts: Vec<&str> = notes.iter().map(|(t, _)| t.as_str()).collect();
    assert_eq!(texts, vec!["b", "c", "d"]);
    assert!(notes.iter().all(|(_, life)| *life == 60));
    for _ in 0..59 {
        tick_notes(&mut notes);
    }
    assert_eq!(notes.len(), 3);
    assert!(notes.iter().all(|(_, life)| *life == 1));
    tick_notes(&mut notes);
    assert!(notes.is_empty());
}

#[test]
fn a_fresh_store_starts_with_the_default_keys() {
    let store = IcedContext::new(String::from("/index"));
    assert!(store.is_locked);
    match store.load_api_keys(None, b"pw") {
        StoreOpen::Fresh(keys) => {
            let names: Vec<&str> = keys.iter().map(|k| k.name.as_str()).collect();
            assert_eq!(names, vec!["OPENAI_API_KEY", "ANTHROPIC_API_KEY", "MOCK_API_KEY"]);
            assert_eq!(keys[2].key, "mock-1234");
        },
        _ => panic!("no file, a fresh store"),
    }
    assert_eq!(default_api_keys().len(), 3);
}

#[test]
fn saved_keys_come_back_under_the_same_password() {
    let mut store = IcedContext::new(String::from("/index"));
    update(&mut store, IcedMessage::EditShortTextEdit(String::from("hunter2")));
    let password = match update(&mut store, IcedMessage::EnterPassword) {
        StoreAction::Unlock(p) => p,
        _ => panic!("entering a password tries it"),
    };
    assert_eq!(password, b"hunter2".to_vec());
    store.unlock(password, Some(default_api_keys()));
    assert!(!store.is_locked);
    assert!(store.short_text_editor_content.is_empty());
    update(&mut store, IcedMessage::AddApiKey);
    update(&mut store, IcedMessage::SetApiKeyName(3, String::from("GEMINI_API_KEY")));
    update(&mut store, IcedMessage::SetApiKeyKey(3, String::from("g-1")));
    update(&mut store, IcedMessage::DeleteApiKey(0));
    assert_eq!(store.api_keys.len(), 3);
    assert_eq!(store.api_keys[2].name, "GEMINI_API_KEY");
    assert_eq!(store.api_keys[2].key, "g-1");
    assert!(matches!(update(&mut store, IcedMessage::Save), StoreAction::Save));

    let json = b"[{\"name\":\"GEMINI_API_KEY\",\"key\":\"g-1\"}]";
    let file = store.seal_api_keys(json).unwrap();
    match store.load_api_keys(Some(&file), b"hunter2") {
        StoreOpen::Decrypted(v) => assert_eq!(v, json.to_vec()),
        _ => panic!("the right password opens the store"),
    }
    assert!(matches!(store.load_api_keys(Some(&file), b"hunter3"), StoreOpen::WrongPassword));
}

#[test]
fn a_wrong_password_leaves_the_store_locked() {
    let mut store = IcedContext::new(String::from("/index"));
    assert!(store.seal_api_keys(b"[]").is_none());
    update(&mut store, IcedMessage::EditShortTextEdit(String::from("nope")));
    store.unlock(b"nope".to_vec(), None);
    assert!(store.is_locked);
    assert!(store.password_error);
    assert!(store.short_text_editor_content.is_empty());
    let keys: Vec<ApiKey> = vec![];
    assert!(store.api_keys.len() == keys.len());
    match update(&mut store, IcedMessage::CopyString(String::from("sk"))) {
        StoreAction::Copy(s) => assert_eq!(s, "sk"),
        _ => panic!("copying puts the text on the clipboard"),
    }
}

#[test]
fn main_window_keys_are_routed() {
    let ctrl = Modifiers { ctrl: true, alt: false, shift: false };
    let alt = Modifiers { ctrl: false, alt: true, shift: false };
    let ctrl_shift = Modifiers { ctrl: true, alt: false, shift: true };
    let none = Modifiers { ctrl: false, alt: false, shift: false };
    assert_eq!(key_route(None, false, Key::Character('t'), ctrl), KeyRoute::NewBrowserTab);
    assert_eq!(key_route(Some(2), false, Key::Character('w'), ctrl), KeyRoute::KillTab(2));
    assert_eq!(key_route(None, false, Key::Character('w'), ctrl), KeyRoute::Nothing);
    assert_eq!(key_route(None, false, Key::Character('3'), alt), KeyRoute::SelectByDigit(3));
    assert_eq!(key_route(None, false, Key::Character('0'), alt), KeyRoute::SelectByDigit(0));
    assert_eq!(key_route(None, false, Key::Character('m'), ctrl_shift), KeyRoute::ToggleTextEditor);
    assert_eq!(key_route(None, false, Key::Character('p'), ctrl_shift), KeyRoute::ToggleSlideRule);
    assert_eq!(key_route(None, false, Key::Character('c'), ctrl_shift), KeyRoute::ToggleCalendar);
    assert_eq!(key_route(None, true, Key::Escape, ctrl_shift), KeyRoute::ScratchPad);
    assert_eq!(key_route(None, false, Key::Escape, ctrl_shift), KeyRoute::Nothing);
    assert_eq!(key_route(Some(1), false, Key::Enter, none), KeyRoute::Tab(1));
    assert_eq!(key_route(None, false, Key::Character('x'), ctrl), KeyRoute::Index);
}

#[test]
fn closing_another_tab_keeps_the_selected_one() {
    let mut s = strip(4, Some(2));
    let selected = s.tab_ids[2];
    s.close_tab(0);
    assert_eq!(s.tab_ids[s.selected_tab.unwrap()], selected);
    let mut s = strip(4, Some(1));
    let selected = s.tab_ids[1];
    s.close_tab(3);
    assert_eq!(s.tab_ids[s.selected_tab.unwrap()], selected);
}
