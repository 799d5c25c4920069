use neukgu::keys::{Key, Modifiers};
use neukgu::scratch_pad::{update, Alignment, Content, Followup, IcedContext, IcedMessage, Tab};

const PLAIN: Modifiers = Modifiers { ctrl: false, alt: false, shift: false };
const ALT: Modifiers = Modifiers { ctrl: false, alt: true, shift: false };

fn followup_message(f: Option<Followup>) -> Option<IcedMessage> {
    match f {
        Some(Followup::Send(m)) => Some(m),
        _ => None,
    }
}

#[test]
fn a_new_scratch_pad_is_hidden_and_empty() {
    let c = IcedContext::new();
    assert_eq!(c.tab, Tab::Hidden);
    assert!(c.is_expanded);
    assert_eq!(c.alignment, Alignment::Right);
    assert_eq!(c.zoom_tenths, 10);
    assert!(c.title.is_none());
    assert_eq!(c.editor_text, "");
}

#[test]
fn the_editor_keeps_its_text_while_the_viewer_is_shown() {
    let mut c = IcedContext::new();
    c.toggle_text_editor();
    assert_eq!(c.tab, Tab::TextEdit);
    update(&mut c, IcedMessage::EditText(String::from("my notes")));
    c.open_content(
        Some(String::from("a.rs")),
        Content::Text { content: String::from("fn main() {}"), extension: Some(String::from("rs")) },
    );
    assert_eq!(c.tab, Tab::TextView);
    assert_eq!(c.editor_text, "fn main() {}");
    assert_eq!(c.title.as_deref(), Some("a.rs"));
    c.toggle_text_editor();
    assert_eq!(c.tab, Tab::TextEdit);
    assert_eq!(c.editor_text, "my notes");
    c.toggle_text_viewer();
    assert_eq!(c.editor_text, "fn main() {}");
    assert_eq!(c.text_editor_context, "my notes");
}

#[test]
fn toggling_a_tab_twice_hides_the_pad() {
    let mut c = IcedContext::new();
    c.toggle_image();
    assert_eq!(c.tab, Tab::Image);
    c.toggle_image();
    assert_eq!(c.tab, Tab::Hidden);
    c.toggle_slide_rule();
    assert_eq!(c.tab, Tab::SlideRule);
    c.toggle_text_viewer();
    assert_eq!(c.tab, Tab::TextView);
    c.toggle_text_viewer();
    assert_eq!(c.tab, Tab::Hidden);
}

#[test]
fn opening_an_image_shows_the_image_tab() {
    let mut c = IcedContext::new();
    c.open_content(None, Content::Image { path: String::from("/tmp/a.png") });
    assert_eq!(c.tab, Tab::Image);
    assert_eq!(c.image_path, "/tmp/a.png");
    // opening another image keeps the tab open
    c.open_content(None, Content::Image { path: String::from("/tmp/b.png") });
    assert_eq!(c.tab, Tab::Image);
    assert_eq!(c.image_path, "/tmp/b.png");
}

#[test]
fn closing_drops_unsaved_edits() {
    let mut c = IcedContext::new();
    c.toggle_text_editor();
    update(&mut c, IcedMessage::EditText(String::from("draft")));
    update(&mut c, IcedMessage::Close);
    assert_eq!(c.tab, Tab::Hidden);
    c.toggle_text_editor();
    assert_eq!(c.editor_text, "");
}

#[test]
fn keys_ask_for_messages() {
    let mut c = IcedContext::new();
    let esc = update(&mut c, IcedMessage::KeyPressed { key: Key::Escape, modifiers: PLAIN });
    assert!(matches!(followup_message(esc), Some(IcedMessage::Close)));
    let with_alt = update(&mut c, IcedMessage::KeyPressed { key: Key::Escape, modifiers: ALT });
    assert!(with_alt.is_none());
    let up = update(&mut c, IcedMessage::KeyPressed { key: Key::ArrowUp, modifiers: PLAIN });
    assert!(matches!(up, Some(Followup::ScrollToTop)));
    let down = update(&mut c, IcedMessage::KeyPressed { key: Key::ArrowDown, modifiers: PLAIN });
    assert!(matches!(down, Some(Followup::ScrollToBottom)));
    // the pad starts at the right edge
    let right = update(&mut c, IcedMessage::KeyPressed { key: Key::ArrowRight, modifiers: PLAIN });
    assert!(right.is_none());
    let left = update(&mut c, IcedMessage::KeyPressed { key: Key::ArrowLeft, modifiers: PLAIN });
    assert!(matches!(followup_message(left), Some(IcedMessage::SetAlignment(Alignment::Center))));
    update(&mut c, IcedMessage::SetAlignment(Alignment::Left));
    let left_again = update(&mut c, IcedMessage::KeyPressed { key: Key::ArrowLeft, modifiers: PLAIN });
    assert!(left_again.is_none());
    let e = update(&mut c, IcedMessage::KeyPressed { key: Key::Character('e'), modifiers: PLAIN });
    assert!(matches!(followup_message(e), Some(IcedMessage::ToggleExpand)));
    let minus = update(&mut c, IcedMessage::KeyPressed { key: Key::Character('-'), modifiers: PLAIN });
    assert!(matches!(followup_message(minus), Some(IcedMessage::ZoomOut)));
    let plus = update(&mut c, IcedMessage::KeyPressed { key: Key::Character('='), modifiers: PLAIN });
    assert!(matches!(followup_message(plus), Some(IcedMessage::ZoomIn)));
    let x = update(&mut c, IcedMessage::KeyPressed { key: Key::Character('x'), modifiers: PLAIN });
    assert!(x.is_none());
}

#[test]
fn zoom_stays_between_its_limits() {
    let mut c = IcedContext::new();
    for _ in 0..40 {
        update(&mut c, IcedMessage::ZoomIn);
    }
    assert_eq!(c.zoom_tenths, 25);
    update(&mut c, IcedMessage::ZoomOut);
    assert_eq!(c.zoom_tenths, 24);
    for _ in 0..40 {
        update(&mut c, IcedMessage::ZoomOut);
    }
    assert_eq!(c.zoom_tenths, 1);
    update(&mut c, IcedMessage::ZoomIn);
    assert_eq!(c.zoom_tenths, 2);
}

#[test]
fn expanding_toggles() {
    let mut c = IcedContext::new();
    update(&mut c, IcedMessage::ToggleExpand);
    assert!(!c.is_expanded);
    update(&mut c, IcedMessage::ToggleExpand);
    assert!(c.is_expanded);
}
