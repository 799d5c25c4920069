use neukgu::keys::{Key, Modifiers};
use neukgu::working_dir::{
    apply_find, key_action, log_display, select_turn, FileChange, FindOutcome, FindState, KeyAction, KeyContext, LlmQuestion,
    Popup, QuestionStep, TurnChange, ViewAction, ViewMessage, ViewState, TurnVisibility, UserResponse, LOG_DISPLAY_MAX, turn_text_diff,
};

const NONE: Modifiers = Modifiers { ctrl: false, alt: false, shift: false };
const CTRL: Modifiers = Modifiers { ctrl: true, alt: false, shift: false };

fn context() -> KeyContext {
    KeyContext {
        popup: None,
        has_prev_popup: false,
        llm_request: false,
        interrupt_focused: false,
        history: vec![100, 101, 102],
        selected_turn: None,
        is_paused: false,
        has_copy_buffer: false,
        has_text_diff: false,
        turn_result_path: None,
        find_pattern: None,
        loaded_turn_log: None,
        working_dir: String::from("/work"),
    }
}

#[test]
fn turn_selection_stays_in_the_history() {
    assert_eq!(select_turn(None, 1, 3), 0);
    assert_eq!(select_turn(Some(1), 10, 3), 2);
    assert_eq!(select_turn(Some(1), -10, 3), 0);
    assert_eq!(select_turn(None, -1, 0), 0);
}

#[test]
fn keys_on_the_list_of_turns() {
    let mut c = context();
    assert!(matches!(key_action(&c, Key::ArrowDown, NONE), KeyAction::SelectTurn(0)));
    c.selected_turn = Some(1);
    assert!(matches!(key_action(&c, Key::Enter, NONE), KeyAction::OpenPopup { curr: Popup::Turn(1, 101), prev: None }));
    assert!(matches!(key_action(&c, Key::Character('v'), CTRL), KeyAction::ToggleTurnVisibility(101)));
    assert!(matches!(key_action(&c, Key::Space, NONE), KeyAction::Pause));
    c.is_paused = true;
    assert!(matches!(key_action(&c, Key::Space, NONE), KeyAction::Resume));
    assert!(matches!(key_action(&c, Key::Escape, NONE), KeyAction::OpenPopup { curr: Popup::AskQuit, prev: None }));
    assert!(matches!(key_action(&c, Key::Character('g'), CTRL), KeyAction::OpenPopup { curr: Popup::FileChanges(v), prev: None } if v.is_empty()));
    assert!(matches!(key_action(&c, Key::Character('o'), CTRL), KeyAction::OpenBrowser { dir, file: None } if dir == "/work"));
    assert!(matches!(key_action(&c, Key::Tab, CTRL), KeyAction::FocusInterrupt));
    c.find_pattern = Some(String::from("fn main"));
    assert!(matches!(key_action(&c, Key::Character('f'), CTRL), KeyAction::OpenPopup { curr: Popup::Find { re: Some(re), error: None }, prev: None } if re == "fn main"));
    assert!(matches!(key_action(&c, Key::Character('h'), CTRL), KeyAction::OpenPopup { curr: Popup::Help, .. }));
    assert!(matches!(key_action(&c, Key::Character('u'), CTRL), KeyAction::OpenPopup { curr: Popup::TokenUsage, .. }));
}

#[test]
fn a_question_of_the_agent_blocks_the_list() {
    let mut c = context();
    c.llm_request = true;
    assert!(matches!(key_action(&c, Key::ArrowDown, NONE), KeyAction::Nothing));
    assert!(matches!(key_action(&c, Key::Escape, NONE), KeyAction::Nothing));
    assert!(matches!(key_action(&c, Key::Character('-'), CTRL), KeyAction::ZoomOut));
}

#[test]
fn keys_in_a_turn_popup() {
    let mut c = context();
    c.popup = Some(Popup::Turn(1, 101));
    assert!(matches!(key_action(&c, Key::ArrowLeft, NONE), KeyAction::OpenPopup { curr: Popup::Turn(0, 100), prev: None }));
    assert!(matches!(key_action(&c, Key::ArrowRight, NONE), KeyAction::OpenPopup { curr: Popup::Turn(2, 102), prev: None }));
    c.popup = Some(Popup::Turn(2, 102));
    assert!(matches!(key_action(&c, Key::ArrowRight, NONE), KeyAction::Nothing));
    assert!(matches!(key_action(&c, Key::Escape, NONE), KeyAction::ClosePopup));
    assert!(matches!(key_action(&c, Key::ArrowDown, CTRL), KeyAction::SnapPopup { bottom: true }));
    assert!(matches!(key_action(&c, Key::Character('d'), CTRL), KeyAction::Nothing));
    c.has_text_diff = true;
    assert!(matches!(key_action(&c, Key::Character('d'), CTRL), KeyAction::OpenPopup { curr: Popup::Diff, prev: Some(Popup::Turn(2, 102)) }));
    c.turn_result_path = Some((String::from("/work/src"), Some(String::from("main.rs"))));
    assert!(matches!(key_action(&c, Key::Character('o'), CTRL), KeyAction::OpenBrowser { dir, file: Some(f) } if dir == "/work/src" && f == "main.rs"));
    c.loaded_turn_log = Some((102, 7));
    assert!(matches!(key_action(&c, Key::Character('s'), CTRL), KeyAction::OpenPopup { curr: Popup::Log(title, 7), prev: Some(Popup::Turn(2, 102)) } if title == "102"));
    c.has_prev_popup = true;
    assert!(matches!(key_action(&c, Key::Backspace, NONE), KeyAction::BackPopup));
}

#[test]
fn confirming_a_popup() {
    let mut c = context();
    c.popup = Some(Popup::AskRollBack { id: 101, title: String::from("turn 2") });
    assert!(matches!(key_action(&c, Key::Character('y'), CTRL), KeyAction::RollBack(101)));
    c.popup = Some(Popup::AskQuit);
    assert!(matches!(key_action(&c, Key::Character('y'), CTRL), KeyAction::KillBeProcess));
    c.popup = Some(Popup::GetApiKeys);
    assert!(matches!(key_action(&c, Key::Escape, NONE), KeyAction::Nothing));
    let changes = vec![FileChange { path: String::from("a"), diff: String::from("+x"), expanded: false }];
    c.popup = Some(Popup::FileChanges(changes.clone()));
    c.has_copy_buffer = true;
    assert!(matches!(key_action(&c, Key::Character('c'), CTRL), KeyAction::CopyPopupContent));
    match c.popup.clone() {
        Some(Popup::FileChanges(v)) => assert_eq!(v[0].diff, "+x"),
        _ => panic!("not cloned"),
    }
}

#[test]
fn a_search_finds_the_first_match_in_each_title() {
    let titles = vec![String::from("read main.rs"), String::from("run tests"), String::from("edit main.rs and lib.rs")];
    let mut state = FindState::new();
    assert!(matches!(apply_find(&mut state, String::from(r"\w+\.rs"), &titles), FindOutcome::Closed));
    assert_eq!(state.result, vec![Some((5, 12)), None, Some((5, 12))]);
    assert_eq!(state.pattern.as_ref().map(|p| p.pattern_text()), Some(String::from(r"\w+\.rs")));
    // a new title list is searched again
    let more = vec![String::from("x.rs")];
    state.update_find_result(&more);
    assert_eq!(state.result, vec![Some((0, 4))]);
    // an empty pattern ends the search
    assert!(matches!(apply_find(&mut state, String::new(), &titles), FindOutcome::Closed));
    assert!(state.pattern.is_none());
    assert!(state.result.is_empty());
}

#[test]
fn an_invalid_search_reopens_the_popup() {
    let titles = vec![String::from("a")];
    let mut state = FindState::new();
    apply_find(&mut state, String::from("a"), &titles);
    match apply_find(&mut state, String::from("(unclosed"), &titles) {
        FindOutcome::Reopen(Popup::Find { re: Some(p), error: Some(e) }) => {
            assert_eq!(p, "(unclosed");
            assert!(e.contains("unclosed"), "{e}");
        },
        _ => panic!("not reopened"),
    }
    // the earlier search stays
    assert_eq!(state.result, vec![Some((0, 1))]);
}

#[test]
fn turn_visibility_goes_round_in_three_steps() {
    let mut v = TurnVisibility::new();
    v.toggle(7);
    assert!(v.hidden_turns.contains(&7) && !v.pinned_turns.contains(&7));
    v.toggle(7);
    assert!(!v.hidden_turns.contains(&7) && v.pinned_turns.contains(&7));
    v.toggle(3);
    assert!(v.hidden_turns.contains(&3));
    v.toggle(7);
    assert!(!v.hidden_turns.contains(&7) && !v.pinned_turns.contains(&7));
    assert!(v.hidden_turns.contains(&3));
}

#[test]
fn a_question_is_asked_once_and_answered() {
    let mut q = LlmQuestion::new();
    assert_eq!(q.on_llm_request(None), QuestionStep::Nothing);
    assert_eq!(q.on_llm_request(Some((5, String::from("which file?")))), QuestionStep::Ask);
    assert_eq!(q.on_llm_request(Some((5, String::from("which file?")))), QuestionStep::Nothing);
    q.respond(Some(String::from("a.rs")));
    assert!(q.llm_request.is_none());
    assert!(q.processed_llm_requests.contains(&5));
    assert_eq!(q.user_response, Some((5, UserResponse::Answer(String::from("a.rs")))));
    // the model still shows the answered question: nothing happens
    assert_eq!(q.on_llm_request(Some((5, String::from("which file?")))), QuestionStep::Nothing);
    assert!(q.llm_request.is_none());
}

#[test]
fn a_question_can_be_dismissed_or_withdrawn() {
    let mut q = LlmQuestion::new();
    assert_eq!(q.on_llm_request(Some((1, String::from("q1")))), QuestionStep::Ask);
    assert_eq!(q.on_llm_request(None), QuestionStep::Withdrawn);
    assert!(q.llm_request.is_none());
    assert_eq!(q.on_llm_request(Some((2, String::from("q2")))), QuestionStep::Ask);
    q.respond(None);
    assert_eq!(q.user_response, Some((2, UserResponse::Reject)));
}

#[test]
fn a_long_log_is_replaced_by_a_note() {
    let (shown, syntax, copy) = log_display(String::from("{\"a\": 1}"), String::from("json"));
    assert_eq!((shown.as_str(), syntax.as_str(), copy.as_str()), ("{\"a\": 1}", "json", "{\"a\": 1}"));
    let exact = "x".repeat(LOG_DISPLAY_MAX);
    let (shown, _, _) = log_display(exact.clone(), String::from("json"));
    assert_eq!(shown, exact);
    let long = "\u{e9}".repeat(LOG_DISPLAY_MAX / 2 + 1);
    let (shown, syntax, copy) = log_display(long.clone(), String::from("json"));
    assert!(shown.starts_with("The log is too long to display."));
    assert_eq!(syntax, "txt");
    assert_eq!(copy, long);
}

#[test]
fn the_turn_popup_keeps_the_diff_of_a_write_or_a_patch() {
    assert_eq!(turn_text_diff(TurnChange::Write(Some(String::from("-a\n+b")))), Some(String::from("-a\n+b")));
    assert_eq!(turn_text_diff(TurnChange::Write(None)), None);
    assert_eq!(
        turn_text_diff(TurnChange::Patch(vec![String::from("-a\n+b"), String::from("-c\n+d")])),
        Some(String::from("-a\n+b\n-c\n+d"))
    );
    assert_eq!(turn_text_diff(TurnChange::Patch(vec![])), Some(String::new()));
    assert_eq!(turn_text_diff(TurnChange::Other), None);
}

fn view_state() -> ViewState {
    ViewState {
        popup: None,
        prev_popup: None,
        find: FindState::new(),
        visibility: TurnVisibility::new(),
        question: LlmQuestion::new(),
        pause: None,
        question_from_user: None,
        is_interrupt_button_hovered: true,
    }
}

fn change(path: &str, expanded: bool) -> FileChange {
    FileChange { path: String::from(path), diff: String::new(), expanded }
}

#[test]
fn the_view_pauses_resumes_and_asks() {
    let mut v = view_state();
    assert!(matches!(v.update(ViewMessage::Pause), ViewAction::InterruptAndTick));
    assert_eq!(v.pause, Some(true));
    assert!(matches!(v.update(ViewMessage::Resume), ViewAction::Nothing));
    assert_eq!(v.pause, Some(false));
    assert!(matches!(v.update(ViewMessage::Interrupt { id: 3, question: String::new() }), ViewAction::Nothing));
    assert!(v.question_from_user.is_none());
    assert!(!v.is_interrupt_button_hovered);
    assert!(matches!(v.update(ViewMessage::Interrupt { id: 3, question: String::from("why?") }), ViewAction::SendQuestion));
    assert_eq!(v.question_from_user, Some((3, String::from("why?"))));
    assert!(matches!(v.update(ViewMessage::ToggleTurnVisibility(9)), ViewAction::InterruptAndTick));
    assert!(v.visibility.hidden_turns.contains(&9));
}

#[test]
fn the_view_answers_and_dismisses_questions() {
    let mut v = view_state();
    v.question.on_llm_request(Some((4, String::from("q"))));
    assert!(matches!(v.update(ViewMessage::AnswerLlmRequest(String::from("yes"))), ViewAction::ClearAnswer));
    assert_eq!(v.question.user_response, Some((4, UserResponse::Answer(String::from("yes")))));
    v.question.on_llm_request(Some((5, String::from("q2"))));
    assert!(matches!(v.update(ViewMessage::DismissLlmRequest), ViewAction::ClearAnswer));
    assert_eq!(v.question.user_response, Some((5, UserResponse::Reject)));
}

#[test]
fn the_view_closes_and_goes_back_to_popups() {
    let mut v = view_state();
    v.popup = Some(Popup::Find { re: None, error: None });
    v.prev_popup = Some(Popup::Help);
    assert!(matches!(v.update(ViewMessage::ClosePopup), ViewAction::ClosePopup));
    assert!(v.popup.is_none() && v.find.pattern.is_none() && v.find.result.is_empty());
    assert!(matches!(v.update(ViewMessage::BackPopup), ViewAction::Reopen(Popup::Help)));
    assert!(matches!(v.popup, Some(Popup::Help)));
    assert!(v.prev_popup.is_none());
    assert!(matches!(v.update(ViewMessage::BackPopup), ViewAction::Nothing));
    assert!(matches!(v.popup, Some(Popup::Help)));
}

#[test]
fn the_view_folds_file_changes() {
    let mut v = view_state();
    v.popup = Some(Popup::FileChanges(vec![change("a.rs", false), change("logs/1", false), change("a.rs", false)]));
    v.update(ViewMessage::ExpandFileChange(String::from("a.rs")));
    match &v.popup {
        Some(Popup::FileChanges(cs)) => assert_eq!(cs.iter().map(|c| c.expanded).collect::<Vec<_>>(), vec![true, false, false]),
        _ => panic!("the popup changed"),
    }
    v.update(ViewMessage::ExpandAllFileChanges { log: true, expand: true });
    match &v.popup {
        Some(Popup::FileChanges(cs)) => assert_eq!(cs.iter().map(|c| c.expanded).collect::<Vec<_>>(), vec![true, true, false]),
        _ => panic!("the popup changed"),
    }
    v.update(ViewMessage::ExpandAllFileChanges { log: false, expand: false });
    match &v.popup {
        Some(Popup::FileChanges(cs)) => assert_eq!(cs.iter().map(|c| c.expanded).collect::<Vec<_>>(), vec![false, true, false]),
        _ => panic!("the popup changed"),
    }
}
