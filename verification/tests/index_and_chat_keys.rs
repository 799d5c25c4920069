use neukgu::chat::{key_action as chat_key_action, KeyAction as ChatAction, Popup as ChatPopup};
use neukgu::index::{key_action as index_key_action, KeyAction as IndexAction, Popup as IndexPopup};
use neukgu::keys::{Key, Modifiers};
use neukgu::zoom::{zoom_in, zoom_out};

const NONE: Modifiers = Modifiers { ctrl: false, alt: false, shift: false };
const CTRL: Modifiers = Modifiers { ctrl: true, alt: false, shift: false };
const CTRL_SHIFT: Modifiers = Modifiers { ctrl: true, alt: false, shift: true };

#[test]
fn index_keys_open_popups_when_none_is_open() {
    assert!(matches!(index_key_action(&None, Key::Character('c'), CTRL), IndexAction::OpenPopup(IndexPopup::NewChat)));
    assert!(matches!(index_key_action(&None, Key::Character('m'), CTRL), IndexAction::OpenPopup(IndexPopup::ModelStore)));
    assert!(matches!(index_key_action(&None, Key::Character('p'), CTRL), IndexAction::OpenPopup(IndexPopup::NewProject)));
    assert!(matches!(index_key_action(&Some(IndexPopup::Help), Key::Character('p'), CTRL), IndexAction::Nothing));
    assert!(matches!(index_key_action(&None, Key::Escape, NONE), IndexAction::Nothing));
    assert!(matches!(index_key_action(&Some(IndexPopup::Help), Key::Escape, NONE), IndexAction::ClosePopup));
    assert!(matches!(index_key_action(&None, Key::ArrowDown, CTRL), IndexAction::SnapMainView { bottom: true }));
    assert!(matches!(index_key_action(&Some(IndexPopup::Help), Key::ArrowUp, CTRL), IndexAction::SnapPopup { bottom: false }));
    assert!(matches!(index_key_action(&None, Key::Character('c'), CTRL_SHIFT), IndexAction::Nothing));
}

#[test]
fn index_confirms_deletions() {
    let ask = Some(IndexPopup::AskDeleteChat { id: 9, title: None });
    assert!(matches!(index_key_action(&ask, Key::Character('y'), CTRL), IndexAction::DeleteChat(9)));
    let ask = Some(IndexPopup::AskDeleteProject { project_name: String::from("p"), working_dir: String::from("/w") });
    assert!(matches!(index_key_action(&ask, Key::Character('y'), CTRL), IndexAction::DeleteProject { project_name, working_dir } if project_name == "p" && working_dir == "/w"));
    assert!(matches!(index_key_action(&Some(IndexPopup::AskDeleteChatSystemPrompt(2)), Key::Character('y'), CTRL), IndexAction::DeleteChatSystemPrompt(2)));
    assert!(matches!(index_key_action(&Some(IndexPopup::Help), Key::Character('y'), CTRL), IndexAction::Nothing));
}

#[test]
fn chat_keys() {
    let pattern = Some(String::from("todo"));
    assert!(matches!(chat_key_action(&None, false, &pattern, Key::Character('f'), CTRL), ChatAction::OpenPopup(ChatPopup::Find { re: Some(re), error: None }) if re == "todo"));
    assert!(matches!(chat_key_action(&None, false, &None, Key::Tab, CTRL), ChatAction::FocusInput));
    assert!(matches!(chat_key_action(&Some(ChatPopup::Help), true, &None, Key::Character('c'), CTRL), ChatAction::CopyPopupContent));
    assert!(matches!(chat_key_action(&Some(ChatPopup::Help), false, &None, Key::Character('c'), CTRL), ChatAction::Nothing));
    // the popup that asks for API keys cannot be closed
    assert!(matches!(chat_key_action(&Some(ChatPopup::GetApiKeys), false, &None, Key::Escape, NONE), ChatAction::Nothing));
    assert!(matches!(chat_key_action(&Some(ChatPopup::Logs), false, &None, Key::Escape, NONE), ChatAction::ClosePopup));
    assert!(matches!(chat_key_action(&None, false, &None, Key::ArrowUp, CTRL), ChatAction::SnapChatView { bottom: false }));
    assert!(matches!(chat_key_action(&None, false, &None, Key::Character('='), CTRL), ChatAction::ZoomIn));
}

#[test]
fn zoom_steps_stop_at_the_limits() {
    assert_eq!(zoom_in(10), (11, None));
    assert_eq!(zoom_in(24), (24, Some(String::from("Cannot zoom in anymore."))));
    assert_eq!(zoom_out(10), (9, None));
    assert_eq!(zoom_out(4), (4, Some(String::from("Cannot zoom out anymore."))));
}
