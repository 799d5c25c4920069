//! The index page: its popups and its key bindings.
use crate::keys::{Key, Modifiers};
use crate::worker::JobId;
use vstd::prelude::*;

verus! {

/// The popups of the index page.
#[derive(Clone, Debug)]
pub enum Popup {
    NewProject,
    ProjectConfig,
    /// The settings of a project, by its id.
    ExistingProjectConfig(u64),
    Skills,
    /// A skill; `None` for a new one.
    Skill { name: Option<String> },
    NewChat,
    ChatConfig,
    /// The settings of a chat, by its id.
    ExistingChatConfig(u64),
    ChatSystemPrompts,
    EditChatSystemPrompt(usize),
    Instruction { working_dir: String },
    AskDeleteProject { project_name: String, working_dir: String },
    AskDeleteSkill(String),
    AskDeleteChat { id: u64, title: Option<String> },
    AskDeleteChatSystemPrompt(usize),
    /// A search in the chats; `job_id` is set when a worker starts it.
    FindInChats { job_id: Option<JobId>, error: Option<String> },
    /// The chats that matched, by id, with the matching lines.
    FindInChatsResult { regex: String, matches: Vec<(u64, Vec<String>)> },
    ModelStore,
    Help,
    Error(String),
}

/// What a key press asks of the index page.
#[derive(Clone, Debug)]
pub enum KeyAction {
    Nothing,
    ClosePopup,
    /// Scroll the page, or the popup where one is open, to its top or its
    /// bottom.
    SnapMainView { bottom: bool },
    SnapPopup { bottom: bool },
    OpenPopup(Popup),
    DeleteProject { project_name: String, working_dir: String },
    DeleteSkill(String),
    DeleteChat(u64),
    DeleteChatSystemPrompt(usize),
    ZoomIn,
    ZoomOut,
}

/// The key bindings of the index page (its help message lists them).
pub open spec fn spec_key_action(popup: Option<Popup>, key: Key, m: Modifiers) -> KeyAction {
    match key {
        Key::Escape => if m.none() && popup is Some {
            KeyAction::ClosePopup
        } else {
            KeyAction::Nothing
        },
        Key::ArrowUp | Key::ArrowDown => {
            let bottom = key is ArrowDown;
            if !m.ctrl_only() {
                KeyAction::Nothing
            } else if popup is None {
                KeyAction::SnapMainView { bottom }
            } else {
                KeyAction::SnapPopup { bottom }
            }
        },
        Key::Character(c) => if !m.ctrl_only() {
            KeyAction::Nothing
        } else if c == 'y' {
            match popup {
                Some(Popup::AskDeleteProject { project_name, working_dir }) => KeyAction::DeleteProject {
                    project_name,
                    working_dir,
                },
                Some(Popup::AskDeleteSkill(name)) => KeyAction::DeleteSkill(name),
                Some(Popup::AskDeleteChat { id, .. }) => KeyAction::DeleteChat(id),
                Some(Popup::AskDeleteChatSystemPrompt(i)) => KeyAction::DeleteChatSystemPrompt(i),
                _ => KeyAction::Nothing,
            }
        } else if c == '-' {
            KeyAction::ZoomOut
        } else if c == '=' {
            KeyAction::ZoomIn
        } else if popup is Some {
            KeyAction::Nothing
        } else if c == 'c' {
            KeyAction::OpenPopup(Popup::NewChat)
        } else if c == 'h' {
            KeyAction::OpenPopup(Popup::Help)
        } else if c == 'm' {
            KeyAction::OpenPopup(Popup::ModelStore)
        } else if c == 'p' {
            KeyAction::OpenPopup(Popup::NewProject)
        } else {
            KeyAction::Nothing
        },
        _ => KeyAction::Nothing,
    }
}

/// What a key press asks of the index page, given its popup.
pub fn key_action(popup: &Option<Popup>, key: Key, m: Modifiers) -> (r: KeyAction)
    ensures
        r == spec_key_action(*popup, key, m),
{
    let ctrl_only = m.ctrl && !m.alt && !m.shift;
    match key {
        Key::Escape => if !m.ctrl && !m.alt && !m.shift && popup.is_some() {
            KeyAction::ClosePopup
        } else {
            KeyAction::Nothing
        },
        Key::ArrowUp | Key::ArrowDown => {
            let bottom = match key {
                Key::ArrowDown => true,
                _ => false,
            };
            if !ctrl_only {
                KeyAction::Nothing
            } else if popup.is_none() {
                KeyAction::SnapMainView { bottom }
            } else {
                KeyAction::SnapPopup { bottom }
            }
        },
        Key::Character(c) => if !ctrl_only {
            KeyAction::Nothing
        } else if c == 'y' {
            match popup {
                Some(Popup::AskDeleteProject { project_name, working_dir }) => KeyAction::DeleteProject {
                    project_name: project_name.clone(),
                    working_dir: working_dir.clone(),
                },
                Some(Popup::AskDeleteSkill(name)) => KeyAction::DeleteSkill(name.clone()),
                Some(Popup::AskDeleteChat { id, .. }) => KeyAction::DeleteChat(*id),
                Some(Popup::AskDeleteChatSystemPrompt(i)) => KeyAction::DeleteChatSystemPrompt(*i),
                _ => KeyAction::Nothing,
            }
        } else if c == '-' {
            KeyAction::ZoomOut
        } else if c == '=' {
            KeyAction::ZoomIn
        } else if popup.is_some() {
            KeyAction::Nothing
        } else if c == 'c' {
            KeyAction::OpenPopup(Popup::NewChat)
        } else if c == 'h' {
            KeyAction::OpenPopup(Popup::Help)
        } else if c == 'm' {
            KeyAction::OpenPopup(Popup::ModelStore)
        } else if c == 'p' {
            KeyAction::OpenPopup(Popup::NewProject)
        } else {
            KeyAction::Nothing
        },
        _ => KeyAction::Nothing,
    }
}

} // verus!
