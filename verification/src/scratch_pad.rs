//! The scratch pad: a side panel that shows a text, an image, a text
//! editor or the slide rule, one at a time.
use vstd::prelude::*;
use crate::keys::{Key, Modifiers};

verus! {

/// What the scratch pad shows.
#[derive(Clone, Copy, Debug, PartialEq, Eq, Structural)]
pub enum Tab {
    Hidden,
    TextView,
    TextEdit,
    Image,
    SlideRule,
}

/// Content handed to the scratch pad.
#[derive(Clone, Debug)]
pub enum Content {
    Image { path: String },
    Text { content: String, extension: Option<String> },
}

/// Where the scratch pad stands in the window.
#[derive(Clone, Copy, Debug, PartialEq, Eq, Structural)]
pub enum Alignment {
    Left,
    Center,
    Right,
}

/// What the scratch pad reacts to.
#[derive(Clone, Debug)]
pub enum IcedMessage {
    KeyPressed { key: Key, modifiers: Modifiers },
    ToggleExpand,
    SetAlignment(Alignment),
    /// The editor's text after the user edited it.
    EditText(String),
    ZoomIn,
    ZoomOut,
    Close,
}

/// What the caller does after `update`.
#[derive(Clone, Debug)]
pub enum Followup {
    /// Hand this message to `update` next.
    Send(IcedMessage),
    ScrollToTop,
    ScrollToBottom,
}

/// The smallest and the largest zoom, in tenths.
pub const MIN_ZOOM_TENTHS: u32 = 1;

pub const MAX_ZOOM_TENTHS: u32 = 25;

/// The state of the scratch pad. One text editor serves both text tabs:
/// each tab keeps its text while another one is shown.
pub struct IcedContext {
    pub title: Option<String>,
    pub tab: Tab,
    pub is_expanded: bool,
    pub alignment: Alignment,
    /// The zoom factor, in tenths.
    pub zoom_tenths: u32,
    /// The text of the text viewer, and its extension.
    pub text_viewer_context: (String, Option<String>),
    /// The text of the text editor tab.
    pub text_editor_context: String,
    pub image_path: String,
    /// What the shared editor shows now.
    pub editor_text: String,
}

/// The state after the shown text tab keeps what the editor shows.
pub open spec fn saved(s: IcedContext) -> IcedContext {
    match s.tab {
        Tab::TextView => IcedContext {
            text_viewer_context: (s.editor_text, s.text_viewer_context.1),
            ..s
        },
        Tab::TextEdit => IcedContext { text_editor_context: s.editor_text, ..s },
        _ => s,
    }
}

/// Opening or closing the text viewer.
pub open spec fn toggled_text_viewer(s: IcedContext) -> IcedContext {
    let t = saved(s);
    if s.tab == Tab::TextView {
        IcedContext { tab: Tab::Hidden, ..t }
    } else {
        IcedContext { tab: Tab::TextView, editor_text: t.text_viewer_context.0, ..t }
    }
}

/// Opening or closing the text editor.
pub open spec fn toggled_text_editor(s: IcedContext) -> IcedContext {
    let t = saved(s);
    if s.tab == Tab::TextEdit {
        IcedContext { tab: Tab::Hidden, ..t }
    } else {
        IcedContext { tab: Tab::TextEdit, editor_text: t.text_editor_context, ..t }
    }
}

/// Opening or closing a tab that does not use the editor.
pub open spec fn toggled_plain(s: IcedContext, tab: Tab) -> IcedContext {
    let t = saved(s);
    if s.tab == tab {
        IcedContext { tab: Tab::Hidden, ..t }
    } else {
        IcedContext { tab, ..t }
    }
}

impl IcedContext {
    /// A hidden, empty scratch pad.
    pub fn new() -> (r: IcedContext)
        ensures
            r.tab == Tab::Hidden,
            r.is_expanded,
            r.alignment == Alignment::Right,
            r.zoom_tenths == 10,
            r.title is None,
            r.text_viewer_context.0@.len() == 0,
            r.text_viewer_context.1 is None,
            r.text_editor_context@.len() == 0,
            r.image_path@.len() == 0,
            r.editor_text@.len() == 0,
    {
        IcedContext {
            title: None,
            tab: Tab::Hidden,
            is_expanded: true,
            alignment: Alignment::Right,
            zoom_tenths: 10,
            text_viewer_context: (String::new(), None),
            text_editor_context: String::new(),
            image_path: String::new(),
            editor_text: String::new(),
        }
    }

    /// The shown text tab keeps what the editor shows.
    pub fn save_context(&mut self)
        ensures
            *final(self) == saved(*old(self)),
    {
        match self.tab {
            Tab::TextView => {
                self.text_viewer_context.0 = self.editor_text.clone();
            },
            Tab::TextEdit => {
                self.text_editor_context = self.editor_text.clone();
            },
            Tab::Hidden | Tab::Image | Tab::SlideRule => {},
        }
    }

    pub fn toggle_text_viewer(&mut self)
        ensures
            *final(self) == toggled_text_viewer(*old(self)),
    {
        let was = self.tab;
        self.save_context();
        if was == Tab::TextView {
            self.tab = Tab::Hidden;
        } else {
            self.tab = Tab::TextView;
            let text = self.text_viewer_context.0.clone();
            self.set_text_editor_content(text);
        }
    }

    pub fn toggle_text_editor(&mut self)
        ensures
            *final(self) == toggled_text_editor(*old(self)),
    {
        let was = self.tab;
        self.save_context();
        if was == Tab::TextEdit {
            self.tab = Tab::Hidden;
        } else {
            self.tab = Tab::TextEdit;
            let text = self.text_editor_context.clone();
            self.set_text_editor_content(text);
        }
    }

    pub fn toggle_image(&mut self)
        ensures
            *final(self) == toggled_plain(*old(self), Tab::Image),
    {
        let was = self.tab;
        self.save_context();
        self.tab = if was == Tab::Image {
            Tab::Hidden
        } else {
            Tab::Image
        };
    }

    pub fn toggle_slide_rule(&mut self)
        ensures
            *final(self) == toggled_plain(*old(self), Tab::SlideRule),
    {
        let was = self.tab;
        self.save_context();
        self.tab = if was == Tab::SlideRule {
            Tab::Hidden
        } else {
            Tab::SlideRule
        };
    }

    /// Puts a text into the editor.
    pub fn set_text_editor_content(&mut self, c: String)
        ensures
            *final(self) == (IcedContext { editor_text: c, ..*old(self) }),
    {
        self.editor_text = c;
    }

    /// Shows content: an image in the image tab, a text in the text
    /// viewer (whose text it replaces).
    pub fn open_content(&mut self, title: Option<String>, content: Content)
        ensures
            match content {
                Content::Image { path } => {
                    let s = IcedContext { title, image_path: path, ..*old(self) };
                    *final(self) == if s.tab != Tab::Image {
                        toggled_plain(s, Tab::Image)
                    } else {
                        s
                    }
                },
                Content::Text { content, extension } => {
                    let s = IcedContext { title, text_viewer_context: (content, extension), ..*old(self) };
                    *final(self) == IcedContext {
                        editor_text: content,
                        ..(if s.tab != Tab::TextView {
                            toggled_text_viewer(s)
                        } else {
                            s
                        })
                    }
                },
            },
    {
        self.title = title;
        match content {
            Content::Image { path } => {
                self.image_path = path;
                if self.tab != Tab::Image {
                    self.toggle_image();
                }
            },
            Content::Text { content, extension } => {
                self.text_viewer_context = (content.clone(), extension);
                if self.tab != Tab::TextView {
                    self.toggle_text_viewer();
                }
                self.set_text_editor_content(content);
            },
        }
    }
}

/// The message that a key press asks for, if any.
pub open spec fn key_followup(key: Key, alt: bool, alignment: Alignment) -> Option<Followup> {
    if alt {
        None
    } else {
        match key {
            Key::Escape => Some(Followup::Send(IcedMessage::Close)),
            Key::ArrowUp => Some(Followup::ScrollToTop),
            Key::ArrowDown => Some(Followup::ScrollToBottom),
            Key::ArrowLeft => match alignment {
                Alignment::Left => None,
                Alignment::Center => Some(Followup::Send(IcedMessage::SetAlignment(Alignment::Left))),
                Alignment::Right => Some(Followup::Send(IcedMessage::SetAlignment(Alignment::Center))),
            },
            Key::ArrowRight => match alignment {
                Alignment::Left => Some(Followup::Send(IcedMessage::SetAlignment(Alignment::Center))),
                Alignment::Center => Some(Followup::Send(IcedMessage::SetAlignment(Alignment::Right))),
                Alignment::Right => None,
            },
            Key::Character(c) => if c == 'e' {
                Some(Followup::Send(IcedMessage::ToggleExpand))
            } else if c == '-' {
                Some(Followup::Send(IcedMessage::ZoomOut))
            } else if c == '=' {
                Some(Followup::Send(IcedMessage::ZoomIn))
            } else {
                None
            },
            _ => None,
        }
    }
}

/// One step of zooming in: up to the largest zoom, and a tenth past it
/// from anything larger.
pub open spec fn zoomed_in(z: int) -> int {
    if z < 24 { z + 1 } else { 25 }
}

/// One step of zooming out, down to the smallest zoom.
pub open spec fn zoomed_out(z: int) -> int {
    if z > 2 { z - 1 } else { 1 }
}

/// Reacts to one message; the result says what the caller does next.
pub fn update(context: &mut IcedContext, message: IcedMessage) -> (r: Option<Followup>)
    ensures
        match message {
            IcedMessage::KeyPressed { key, modifiers } => r == key_followup(key, modifiers.alt, old(context).alignment)
                && *final(context) == *old(context),
            IcedMessage::ToggleExpand => r is None && *final(context) == (IcedContext {
                is_expanded: !old(context).is_expanded,
                ..*old(context)
            }),
            IcedMessage::SetAlignment(a) => r is None && *final(context) == (IcedContext {
                alignment: a,
                ..*old(context)
            }),
            IcedMessage::EditText(t) => r is None && *final(context) == (IcedContext {
                editor_text: t,
                ..*old(context)
            }),
            IcedMessage::ZoomIn => r is None && final(context).zoom_tenths == zoomed_in(
                old(context).zoom_tenths as int,
            ) && *final(context) == (IcedContext {
                zoom_tenths: final(context).zoom_tenths,
                ..*old(context)
            }),
            IcedMessage::ZoomOut => r is None && final(context).zoom_tenths == zoomed_out(
                old(context).zoom_tenths as int,
            ) && *final(context) == (IcedContext {
                zoom_tenths: final(context).zoom_tenths,
                ..*old(context)
            }),
            IcedMessage::Close => r is None && *final(context) == (IcedContext {
                tab: Tab::Hidden,
                ..*old(context)
            }),
        },
{
    match message {
        IcedMessage::KeyPressed { key, modifiers } => {
            if modifiers.alt {
                return None;
            }
            match key {
                Key::Escape => Some(Followup::Send(IcedMessage::Close)),
                Key::ArrowUp => Some(Followup::ScrollToTop),
                Key::ArrowDown => Some(Followup::ScrollToBottom),
                Key::ArrowLeft => match context.alignment {
                    Alignment::Left => None,
                    Alignment::Center => Some(Followup::Send(IcedMessage::SetAlignment(Alignment::Left))),
                    Alignment::Right => Some(Followup::Send(IcedMessage::SetAlignment(Alignment::Center))),
                },
                Key::ArrowRight => match context.alignment {
                    Alignment::Left => Some(Followup::Send(IcedMessage::SetAlignment(Alignment::Center))),
                    Alignment::Center => Some(Followup::Send(IcedMessage::SetAlignment(Alignment::Right))),
                    Alignment::Right => None,
                },
                Key::Character(c) => if c == 'e' {
                    Some(Followup::Send(IcedMessage::ToggleExpand))
                } else if c == '-' {
                    Some(Followup::Send(IcedMessage::ZoomOut))
                } else if c == '=' {
                    Some(Followup::Send(IcedMessage::ZoomIn))
                } else {
                    None
                },
                _ => None,
            }
        },
        IcedMessage::ToggleExpand => {
            context.is_expanded = !context.is_expanded;
            None
        },
        IcedMessage::SetAlignment(a) => {
            context.alignment = a;
            None
        },
        IcedMessage::EditText(t) => {
            context.set_text_editor_content(t);
            None
        },
        IcedMessage::ZoomIn => {
            let z = if context.zoom_tenths < 24 { context.zoom_tenths } else { 24 };
            context.zoom_tenths = z + 1;
            None
        },
        IcedMessage::ZoomOut => {
            let z = if context.zoom_tenths > 2 { context.zoom_tenths } else { 2 };
            context.zoom_tenths = z - 1;
            None
        },
        IcedMessage::Close => {
            context.tab = Tab::Hidden;
            None
        },
    }
}

/// Law: zooming in and out keeps the zoom between the smallest and the
/// largest zoom, once it is there.
pub proof fn lemma_zoom_stays_in_range(z: int)
    requires
        MIN_ZOOM_TENTHS <= z <= MAX_ZOOM_TENTHS,
    ensures
        MIN_ZOOM_TENTHS <= zoomed_in(z) <= MAX_ZOOM_TENTHS,
        MIN_ZOOM_TENTHS <= zoomed_out(z) <= MAX_ZOOM_TENTHS,
{
}

/// Law: what the text editor shows survives showing any other tab, or
/// hiding the scratch pad, and coming back to the editor.
pub proof fn lemma_editor_text_survives(s: IcedContext, other: Tab)
    requires
        s.tab == Tab::TextEdit,
    ensures
        toggled_text_editor(toggled_text_viewer(s)).editor_text == s.editor_text,
        toggled_text_editor(toggled_text_editor(s)).editor_text == s.editor_text,
        other != Tab::TextEdit ==> toggled_text_editor(toggled_plain(s, other)).editor_text
            == s.editor_text,
{
}

/// Law: the text viewer shows again what it showed, after any other tab.
pub proof fn lemma_viewer_text_survives(s: IcedContext, other: Tab)
    requires
        s.tab == Tab::TextView,
    ensures
        toggled_text_viewer(toggled_text_editor(s)).editor_text == s.editor_text,
        toggled_text_viewer(toggled_text_viewer(s)).editor_text == s.editor_text,
        other != Tab::TextView ==> toggled_text_viewer(toggled_plain(s, other)).editor_text
            == s.editor_text,
{
}

} // verus!
