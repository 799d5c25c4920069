//! The chat view: its popups, and the code blocks of a model's answer.
use crate::git::{join_lines, string_seq_view};
use crate::text::{chars_of, push_char, spec_lines, split_lines, str_eq, string_of, sub_chars};
use crate::keys::{Key, Modifiers};
use vstd::prelude::*;

verus! {

/// A search result that the model's web search gave.
#[derive(Clone, Debug)]
pub struct WebSearchResult {
    pub title: String,
    pub url: String,
}

/// The popups of the chat view.
#[derive(Clone, Debug)]
pub enum Popup {
    GetApiKeys,
    Logs,
    /// A log, by its title and id.
    Log(String, u64),
    TokenUsage,
    Help,
    ChangeTitle,
    Thinking(String),
    WebSearchResults(Vec<WebSearchResult>),
    CodeBlock { code: String, ext: Option<String> },
    /// An image, by its id.
    Image(u64),
    Find { re: Option<String>, error: Option<String> },
    FileSelector,
}

impl Popup {
    /// Whether the popup holds a one-line text input.
    pub fn has_short_text_input(&self) -> (r: bool)
        ensures
            r == (self is ChangeTitle || self is Find),
    {
        match self {
            Popup::ChangeTitle | Popup::Find { .. } => true,
            _ => false,
        }
    }
}

pub open spec fn is_ascii_alnum(c: char) -> bool {
    ('a' <= c && c <= 'z') || ('A' <= c && c <= 'Z') || ('0' <= c && c <= '9')
}

/// Where a line opens a code block (three backticks, then letters and
/// digits only, to the end of the line), the name of the language that
/// follows the backticks.
pub open spec fn fence_language(line: Seq<char>) -> Option<Seq<char>> {
    if line.len() >= 3 && line.take(3) == "```"@ && (forall|i: int|
        3 <= i < line.len() ==> is_ascii_alnum(#[trigger] line[i])) {
        Some(line.skip(3))
    } else {
        None
    }
}

/// How far the reading of an answer has come: whether it is inside a
/// block, the blocks closed so far, and the lines and language of the
/// open block.
pub struct BlockScan {
    pub inside: bool,
    pub blocks: Seq<(Seq<char>, Option<Seq<char>>)>,
    pub lines: Seq<Seq<char>>,
    pub ext: Option<Seq<char>>,
}

pub open spec fn scan_start() -> BlockScan {
    BlockScan { inside: false, blocks: Seq::empty(), lines: Seq::empty(), ext: None }
}

/// Reads one more line. Outside a block, a fence line opens one; inside,
/// a line of three backticks closes it, and any other line belongs to it.
pub open spec fn scan_step(s: BlockScan, line: Seq<char>) -> BlockScan {
    if !s.inside && fence_language(line) is Some {
        let lang = fence_language(line)->0;
        BlockScan { inside: true, ext: if lang.len() > 0 { Some(lang) } else { s.ext }, ..s }
    } else if s.inside && line == "```"@ {
        BlockScan {
            inside: false,
            blocks: s.blocks.push((join_lines(s.lines), s.ext)),
            lines: Seq::empty(),
            ext: None,
        }
    } else if s.inside {
        BlockScan { lines: s.lines.push(line), ..s }
    } else {
        s
    }
}

pub open spec fn scan(lines: Seq<Seq<char>>) -> BlockScan
    decreases lines.len(),
{
    if lines.len() == 0 {
        scan_start()
    } else {
        scan_step(scan(lines.drop_last()), lines.last())
    }
}

/// The code blocks of a text, each with its language where one is named;
/// a block that is not closed is left out.
pub open spec fn spec_code_blocks(turn: Seq<char>) -> Seq<(Seq<char>, Option<Seq<char>>)> {
    scan(spec_lines(turn)).blocks
}

/// The language that a fence line names, where it names one.
pub open spec fn named_language(lang: Seq<char>) -> Option<Seq<char>> {
    if lang.len() > 0 {
        Some(lang)
    } else {
        None
    }
}

/// `b` is a code block of `lines`: the lines strictly between a fence line
/// (line `o`) and the first line of three backticks after it (line `c`),
/// joined, with the language that the fence line names.
pub open spec fn fenced_block(b: (Seq<char>, Option<Seq<char>>), lines: Seq<Seq<char>>) -> bool {
    exists|o: int, c: int|
        #![trigger lines[o], lines[c]]
        0 <= o < c < lines.len() && fence_language(lines[o]) is Some && lines[c] == "```"@ && (
        forall|j: int| o < j < c ==> lines[j] != "```"@) && b.0 == join_lines(
            lines.subrange(o + 1, c),
        ) && b.1 == named_language(fence_language(lines[o])->0)
}

pub open spec fn scan_inv(s: BlockScan, lines: Seq<Seq<char>>) -> bool {
    &&& forall|k: int| 0 <= k < s.blocks.len() ==> fenced_block(#[trigger] s.blocks[k], lines)
    &&& !s.inside ==> s.ext is None && s.lines.len() == 0
    &&& s.inside ==> exists|o: int|
        #![trigger lines[o]]
        0 <= o < lines.len() && fence_language(lines[o]) is Some && (forall|j: int|
            o < j < lines.len() ==> lines[j] != "```"@) && s.lines == lines.subrange(o + 1, lines.len() as int)
            && s.ext == named_language(fence_language(lines[o])->0)
}

proof fn lemma_fenced_block_grows(b: (Seq<char>, Option<Seq<char>>), lines: Seq<Seq<char>>, line: Seq<char>)
    requires
        fenced_block(b, lines),
    ensures
        fenced_block(b, lines.push(line)),
{
    let (o, c) = choose|o: int, c: int|
        #![trigger lines[o], lines[c]]
        0 <= o < c < lines.len() && fence_language(lines[o]) is Some && lines[c] == "```"@ && (
        forall|j: int| o < j < c ==> lines[j] != "```"@) && b.0 == join_lines(
            lines.subrange(o + 1, c),
        ) && b.1 == named_language(fence_language(lines[o])->0);
    let u = lines.push(line);
    assert(u[o] == lines[o] && u[c] == lines[c]);
    assert(u.subrange(o + 1, c) =~= lines.subrange(o + 1, c));
    assert forall|j: int| o < j < c implies u[j] != "```"@ by {
        assert(u[j] == lines[j]);
    }
}

proof fn lemma_scan_inv(lines: Seq<Seq<char>>)
    ensures
        scan_inv(scan(lines), lines),
    decreases lines.len(),
{
    if lines.len() > 0 {
        let p = lines.drop_last();
        let line = lines.last();
        let n = p.len() as int;
        lemma_scan_inv(p);
        let s = scan(p);
        assert(lines == p.push(line));
        assert(lines[n] == line);
        let t = scan_step(s, line);
        assert forall|k: int| 0 <= k < s.blocks.len() implies fenced_block(#[trigger] s.blocks[k], lines) by {
            lemma_fenced_block_grows(s.blocks[k], p, line);
        }
        if !s.inside && fence_language(line) is Some {
            assert(lines.subrange(n + 1, lines.len() as int) =~= Seq::<Seq<char>>::empty());
            assert(t.lines == lines.subrange(n + 1, lines.len() as int));
        } else if s.inside && line == "```"@ {
            let o = choose|o: int|
                #![trigger p[o]]
                0 <= o < p.len() && fence_language(p[o]) is Some && (forall|j: int|
                    o < j < p.len() ==> p[j] != "```"@) && s.lines == p.subrange(o + 1, p.len() as int)
                    && s.ext == named_language(fence_language(p[o])->0);
            assert(lines[o] == p[o]);
            assert(lines.subrange(o + 1, n) =~= p.subrange(o + 1, p.len() as int));
            assert forall|j: int| o < j < n implies lines[j] != "```"@ by {
                assert(lines[j] == p[j]);
            }
            assert(fenced_block((join_lines(s.lines), s.ext), lines));
            assert forall|k: int| 0 <= k < t.blocks.len() implies fenced_block(#[trigger] t.blocks[k], lines) by {
                if k < s.blocks.len() {
                    assert(t.blocks[k] == s.blocks[k]);
                }
            }
        } else if s.inside {
            let o = choose|o: int|
                #![trigger p[o]]
                0 <= o < p.len() && fence_language(p[o]) is Some && (forall|j: int|
                    o < j < p.len() ==> p[j] != "```"@) && s.lines == p.subrange(o + 1, p.len() as int)
                    && s.ext == named_language(fence_language(p[o])->0);
            assert(lines[o] == p[o]);
            assert(t.lines =~= lines.subrange(o + 1, lines.len() as int));
            assert forall|j: int| o < j < lines.len() implies lines[j] != "```"@ by {
                if j < n {
                    assert(lines[j] == p[j]);
                }
            }
        }
    }
}

/// Law: every code block found in a text is the lines strictly between a
/// fence line and the next line of three backticks, joined, with the
/// language that the fence line names.
pub proof fn law_code_blocks_are_fenced(turn: Seq<char>)
    ensures
        forall|k: int|
            0 <= k < spec_code_blocks(turn).len() ==> fenced_block(
                #[trigger] spec_code_blocks(turn)[k],
                spec_lines(turn),
            ),
{
    lemma_scan_inv(spec_lines(turn));
}

pub open spec fn block_view(b: (String, Option<String>)) -> (Seq<char>, Option<Seq<char>>) {
    (
        b.0@,
        match b.1 {
            Some(e) => Some(e@),
            None => None,
        },
    )
}

fn fence_language_of(line: &Vec<char>) -> (r: Option<Vec<char>>)
    ensures
        match fence_language(line@) {
            Some(l) => r matches Some(v) && v@ == l,
            None => r is None,
        },
{
    if line.len() < 3 || line[0] != '`' || line[1] != '`' || line[2] != '`' {
        proof {
            if line@.len() >= 3 {
                reveal_strlit("```");
                assert(line@.take(3) != "```"@) by {
                    assert(line@.take(3)[0] == line@[0]);
                    assert(line@.take(3)[1] == line@[1]);
                    assert(line@.take(3)[2] == line@[2]);
                }
            }
        }
        return None;
    }
    proof {
        reveal_strlit("```");
        assert(line@.take(3) =~= "```"@);
    }
    let mut i: usize = 3;
    while i < line.len()
        invariant
            3 <= i <= line@.len(),
            forall|j: int| 3 <= j < i ==> is_ascii_alnum(#[trigger] line@[j]),
        decreases line@.len() - i,
    {
        let c = line[i];
        if !(('a' <= c && c <= 'z') || ('A' <= c && c <= 'Z') || ('0' <= c && c <= '9')) {
            return None;
        }
        i += 1;
    }
    let rest = sub_chars(line, 3, line.len());
    assert(rest@ =~= line@.skip(3));
    Some(rest)
}

pub fn join_with_newlines(lines: &Vec<String>) -> (r: String)
    ensures
        r@ == join_lines(string_seq_view(lines@)),
{
    let mut r = String::new();
    let mut i: usize = 0;
    while i < lines.len()
        invariant
            i <= lines@.len(),
            r@ == join_lines(string_seq_view(lines@).take(i as int)),
        decreases lines@.len() - i,
    {
        assert(string_seq_view(lines@).take(i + 1).drop_last() =~= string_seq_view(lines@).take(
            i as int,
        ));
        if i > 0 {
            push_char(&mut r, '\n');
        }
        r.append(lines[i].as_str());
        i += 1;
    }
    assert(string_seq_view(lines@).take(lines@.len() as int) =~= string_seq_view(lines@));
    r
}

/// The code blocks of a model's answer, in order, each with the language
/// named after its opening backticks (if any).
pub fn extract_code_blocks(turn: &str) -> (r: Vec<(String, Option<String>)>)
    ensures
        r@.len() == spec_code_blocks(turn@).len(),
        forall|k: int| 0 <= k < r@.len() ==> block_view(#[trigger] r@[k]) == spec_code_blocks(turn@)[k],
{
    let lines = split_lines(turn);
    let ghost ls = spec_lines(turn@);
    let mut inside_code_block = false;
    let mut code_blocks: Vec<(String, Option<String>)> = Vec::new();
    let mut curr_block: Vec<String> = Vec::new();
    let mut curr_ext: Option<String> = None;
    let mut i: usize = 0;
    while i < lines.len()
        invariant
            i <= lines@.len(),
            lines@.len() == ls.len(),
            forall|k: int| 0 <= k < lines@.len() ==> #[trigger] lines@[k]@ == ls[k],
            ({
                let s = scan(ls.take(i as int));
                &&& s.inside == inside_code_block
                &&& s.lines == string_seq_view(curr_block@)
                &&& s.ext == match curr_ext {
                    Some(e) => Some(e@),
                    None => None::<Seq<char>>,
                }
                &&& s.blocks.len() == code_blocks@.len()
                &&& forall|k: int| 0 <= k < code_blocks@.len() ==> block_view(#[trigger] code_blocks@[k]) == s.blocks[k]
            }),
        decreases lines@.len() - i,
    {
        let ghost prev = scan(ls.take(i as int));
        assert(ls.take(i + 1).drop_last() =~= ls.take(i as int));
        let line = chars_of(lines[i].as_str());
        let fence = if inside_code_block {
            None
        } else {
            fence_language_of(&line)
        };
        match fence {
            Some(lang) => {
                inside_code_block = true;
                if lang.len() > 0 {
                    curr_ext = Some(string_of(&lang));
                }
            },
            None => {
                if inside_code_block && str_eq(lines[i].as_str(), "```") {
                    let block = join_with_newlines(&curr_block);
                    let ext = curr_ext;
                    let ghost before = code_blocks@;
                    code_blocks.push((block, ext));
                    curr_block = Vec::new();
                    curr_ext = None;
                    inside_code_block = false;
                    proof {
                        assert(string_seq_view(curr_block@) =~= Seq::<Seq<char>>::empty());
                        assert forall|k: int| 0 <= k < code_blocks@.len() implies block_view(
                            #[trigger] code_blocks@[k],
                        ) == scan(ls.take(i + 1)).blocks[k] by {
                            if k < before.len() {
                                assert(code_blocks@[k] == before[k]);
                            }
                        }
                    }
                } else if inside_code_block {
                    let ghost before = curr_block@;
                    curr_block.push(lines[i].clone());
                    assert(string_seq_view(curr_block@) =~= string_seq_view(before).push(ls[i as int]));
                }
            },
        }
        i += 1;
    }
    assert(ls.take(lines@.len() as int) =~= ls);
    code_blocks
}

/// What a key press asks of the chat view.
#[derive(Clone, Debug)]
pub enum KeyAction {
    Nothing,
    ClosePopup,
    /// Scroll the chat, or the popup where one is open, to its top or its
    /// bottom.
    SnapChatView { bottom: bool },
    SnapPopup { bottom: bool },
    FocusInput,
    CopyPopupContent,
    OpenPopup(Popup),
    ZoomIn,
    ZoomOut,
}

/// The key bindings of the chat view, given its popup, whether it has
/// something to copy and the pattern of its last search.
pub open spec fn spec_key_action(
    popup: Option<Popup>,
    has_copy_buffer: bool,
    find_pattern: Option<String>,
    key: Key,
    m: Modifiers,
) -> KeyAction {
    match key {
        Key::Escape => if m.none() && !(popup is None || popup matches Some(Popup::GetApiKeys)) {
            KeyAction::ClosePopup
        } else {
            KeyAction::Nothing
        },
        Key::ArrowUp | Key::ArrowDown => {
            let bottom = key is ArrowDown;
            if !m.ctrl_only() {
                KeyAction::Nothing
            } else if popup is None {
                KeyAction::SnapChatView { bottom }
            } else {
                KeyAction::SnapPopup { bottom }
            }
        },
        Key::Tab => if m.ctrl_only() && popup is None {
            KeyAction::FocusInput
        } else {
            KeyAction::Nothing
        },
        Key::Character(c) => if !m.ctrl_only() {
            KeyAction::Nothing
        } else if c == 'c' {
            if has_copy_buffer {
                KeyAction::CopyPopupContent
            } else {
                KeyAction::Nothing
            }
        } else if c == '-' {
            KeyAction::ZoomOut
        } else if c == '=' {
            KeyAction::ZoomIn
        } else if popup is Some {
            KeyAction::Nothing
        } else if c == 'f' {
            KeyAction::OpenPopup(Popup::Find { re: find_pattern, error: None })
        } else if c == 'h' {
            KeyAction::OpenPopup(Popup::Help)
        } else if c == 'l' {
            KeyAction::OpenPopup(Popup::Logs)
        } else if c == 'u' {
            KeyAction::OpenPopup(Popup::TokenUsage)
        } else {
            KeyAction::Nothing
        },
        _ => KeyAction::Nothing,
    }
}

/// What a key press asks of the chat view.
pub fn key_action(popup: &Option<Popup>, has_copy_buffer: bool, find_pattern: &Option<String>, key: Key, m: Modifiers) -> (r: KeyAction)
    ensures
        r == spec_key_action(*popup, has_copy_buffer, *find_pattern, key, m),
{
    let ctrl_only = m.ctrl && !m.alt && !m.shift;
    match key {
        Key::Escape => {
            let can_close = match popup {
                None | Some(Popup::GetApiKeys) => false,
                _ => true,
            };
            if !m.ctrl && !m.alt && !m.shift && can_close {
                KeyAction::ClosePopup
            } else {
                KeyAction::Nothing
            }
        },
        Key::ArrowUp | Key::ArrowDown => {
            let bottom = match key {
                Key::ArrowDown => true,
                _ => false,
            };
            if !ctrl_only {
                KeyAction::Nothing
            } else if popup.is_none() {
                KeyAction::SnapChatView { bottom }
            } else {
                KeyAction::SnapPopup { bottom }
            }
        },
        Key::Tab => if ctrl_only && popup.is_none() {
            KeyAction::FocusInput
        } else {
            KeyAction::Nothing
        },
        Key::Character(c) => if !ctrl_only {
            KeyAction::Nothing
        } else if c == 'c' {
            if has_copy_buffer {
                KeyAction::CopyPopupContent
            } else {
                KeyAction::Nothing
            }
        } else if c == '-' {
            KeyAction::ZoomOut
        } else if c == '=' {
            KeyAction::ZoomIn
        } else if popup.is_some() {
            KeyAction::Nothing
        } else if c == 'f' {
            let re = match find_pattern {
                Some(p) => Some(p.clone()),
                None => None,
            };
            KeyAction::OpenPopup(Popup::Find { re, error: None })
        } else if c == 'h' {
            KeyAction::OpenPopup(Popup::Help)
        } else if c == 'l' {
            KeyAction::OpenPopup(Popup::Logs)
        } else if c == 'u' {
            KeyAction::OpenPopup(Popup::TokenUsage)
        } else {
            KeyAction::Nothing
        },
        _ => KeyAction::Nothing,
    }
}

} // verus!
