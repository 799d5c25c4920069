//! Project and chat settings, and the edits that the settings panels make
//! to them.
use std::collections::HashMap;
use vstd::prelude::*;

verus! {

broadcast use vstd::std_specs::hash::group_hash_axioms;

/// How often the agent may stop to ask the user a question.
#[derive(Clone, Copy, Debug, PartialEq, Eq, Structural)]
pub enum Questionable {
    Always,
    Maybe,
    Never,
}

/// A model an agent or a chat can use.
#[derive(Clone, Copy, Debug, PartialEq, Eq, Structural)]
pub enum Model {
    /// No model: the agent is switched off.
    Disabled,
    /// A model of the catalogue, by its number there, and whether it can
    /// search the web.
    Known { id: u32, web_search: bool },
}

impl Model {
    pub open spec fn spec_supports_web_search(self) -> bool {
        self matches Model::Known { web_search, .. } && web_search
    }

    pub fn supports_web_search(&self) -> (r: bool)
        ensures
            r == self.spec_supports_web_search(),
    {
        match self {
            Model::Known { web_search, .. } => *web_search,
            Model::Disabled => false,
        }
    }
}

/// A tool of the agent, by its place in the catalogue of tools.
#[derive(Clone, Copy, Debug, PartialEq, Eq, Hash, Structural)]
pub struct ToolKind(pub u8);

/// How many tools the catalogue holds.
pub const TOOL_KIND_COUNT: u8 = 16;

/// The place of the image-editing tool in the catalogue.
pub const IMAGE_EDIT_TOOL: u8 = 15;

impl ToolKind {
    /// The image-editing tool, which follows the image-edit agent's setting.
    pub fn image_edit() -> (r: ToolKind)
        ensures
            r == ToolKind(IMAGE_EDIT_TOOL),
    {
        ToolKind(IMAGE_EDIT_TOOL)
    }

    /// The tools of the catalogue, in its order.
    pub fn all() -> (r: Vec<ToolKind>)
        ensures
            r@ == catalogue(TOOL_KIND_COUNT as nat),
    {
        let mut r: Vec<ToolKind> = Vec::new();
        let mut i: u8 = 0;
        while i < TOOL_KIND_COUNT
            invariant
                i <= TOOL_KIND_COUNT,
                r@ == catalogue(i as nat),
            decreases TOOL_KIND_COUNT - i,
        {
            r.push(ToolKind(i));
            i += 1;
        }
        r
    }
}

/// The first `n` tools of the catalogue, in its order.
pub open spec fn catalogue(n: nat) -> Seq<ToolKind>
    decreases n,
{
    if n == 0 {
        Seq::empty()
    } else {
        catalogue((n - 1) as nat).push(ToolKind((n - 1) as u8))
    }
}

/// A kind of permission that the agent's tools ask for, by its number.
#[derive(Clone, Copy, Debug, PartialEq, Eq, Hash, Structural)]
pub struct ToolPermissionKind(pub u8);

/// What the agent does when a tool needs a permission.
#[derive(Clone, Copy, Debug, PartialEq, Eq, Structural)]
pub enum PermissionConfig {
    Allow,
    Deny,
    Ask,
}

/// Whether the model may think before it answers.
#[derive(Clone, Copy, Debug, PartialEq, Eq, Structural)]
pub enum Thinking {
    Enabled,
    Disabled,
}

/// The models that each agent of a project uses.
#[derive(Clone, Copy, Debug, PartialEq, Eq, Structural)]
pub struct Agents {
    pub big: Model,
    pub small: Model,
    pub search: Model,
    pub summary: Model,
    pub image_edit: Model,
}

/// Endpoints of OpenAI-compatible services that the user configured.
#[derive(Clone, Debug)]
pub struct EtcModels {
    pub openai_etc1_base_url: Option<String>,
    pub openai_etc1_model: Option<String>,
    pub openai_etc2_base_url: Option<String>,
    pub openai_etc2_model: Option<String>,
    pub openai_etc3_base_url: Option<String>,
    pub openai_etc3_model: Option<String>,
}

/// The settings of a project.
#[derive(Clone, Debug)]
pub struct Config {
    pub agents: Agents,
    /// Seconds the agent waits for the user's answer.
    pub user_response_timeout: u64,
    pub llm_context_max_len: u64,
    pub text_file_max_len: u64,
    pub text_file_max_lines: u64,
    pub dir_max_entries: u64,
    pub stdout_max_len: u64,
    /// The tools the agent may use, in catalogue order.
    pub activated_tools: Vec<ToolKind>,
    /// The skills of the project, by name, and whether each is enabled.
    pub skills: Vec<(String, bool)>,
    /// By the number of the permission kind.
    pub tool_permissions: HashMap<u8, PermissionConfig>,
    /// By the name of the binary that a command runs.
    pub run_permissions: Vec<(String, PermissionConfig)>,
    pub etc_models: EtcModels,
}

/// An edit that the project settings panel makes.
#[derive(Clone, Debug)]
pub enum SetProjectConfig {
    BigAgent(Model),
    SmallAgent(Model),
    SearchAgent(Model),
    SummaryAgent(Model),
    ImageEditAgent(Model),
    AgentQuestionable(Questionable),
    ContextSize(u64),
    ToggleTool(ToolKind, bool),
    ToggleSkill(String, bool),
    SetToolPermission(ToolPermissionKind, PermissionConfig),
    SetRunPermission(String, PermissionConfig),
    OpenaiEtc1BaseUrl(String),
    OpenaiEtc1Model(String),
    OpenaiEtc2BaseUrl(String),
    OpenaiEtc2Model(String),
    OpenaiEtc3BaseUrl(String),
    OpenaiEtc3Model(String),
}

/// A list of named entries holds each name at most once.
pub open spec fn distinct_names<V>(v: Seq<(String, V)>) -> bool {
    forall|i: int, j: int| 0 <= i < j < v.len() ==> v[i].0@ != v[j].0@
}

pub open spec fn has_name<V>(v: Seq<(String, V)>, k: Seq<char>) -> bool {
    exists|i: int| 0 <= i < v.len() && v[i].0@ == k
}

/// The value of the entry with this name (meaningful where there is one).
pub open spec fn value_of<V>(v: Seq<(String, V)>, k: Seq<char>) -> V {
    v[choose|i: int| 0 <= i < v.len() && v[i].0@ == k].1
}

/// `after` is `before` with the entry `k` set to `x`, added if absent.
pub open spec fn named_set<V>(before: Seq<(String, V)>, after: Seq<(String, V)>, k: Seq<char>, x: V) -> bool {
    &&& forall|n: Seq<char>| #[trigger] has_name(after, n) == (has_name(before, n) || n == k)
    &&& forall|n: Seq<char>|
        #[trigger] has_name(after, n) ==> value_of(after, n) == if n == k {
            x
        } else {
            value_of(before, n)
        }
}

proof fn lemma_value_at<V>(v: Seq<(String, V)>, i: int)
    requires
        distinct_names(v),
        0 <= i < v.len(),
    ensures
        has_name(v, v[i].0@),
        value_of(v, v[i].0@) == v[i].1,
{
    let j = choose|j: int| 0 <= j < v.len() && v[j].0@ == v[i].0@;
    assert(j == i);
}

fn find_name<V>(v: &Vec<(String, V)>, k: &String) -> (r: Option<usize>)
    ensures
        match r {
            Some(i) => i < v@.len() && v@[i as int].0@ == k@,
            None => !has_name(v@, k@),
        },
{
    let mut i: usize = 0;
    while i < v.len()
        invariant
            i <= v@.len(),
            forall|j: int| 0 <= j < i ==> v@[j].0@ != k@,
        decreases v@.len() - i,
    {
        if v[i].0 == *k {
            return Some(i);
        }
        i += 1;
    }
    None
}

fn set_named<V: Copy>(v: &mut Vec<(String, V)>, k: String, x: V)
    requires
        distinct_names(old(v)@),
    ensures
        distinct_names(final(v)@),
        named_set(old(v)@, final(v)@, k@, x),
{
    let ghost before = v@;
    match find_name(v, &k) {
        Some(i) => {
            v[i] = (k, x);
            assert forall|a: int, b: int| 0 <= a < b < v@.len() implies v@[a].0@ != v@[b].0@ by {
                assert(a != i ==> v@[a] == before[a]);
                assert(b != i ==> v@[b] == before[b]);
            }
            assert forall|n: Seq<char>| #[trigger] has_name(v@, n) == (has_name(before, n) || n == k@) by {
                if has_name(v@, n) {
                    let j = choose|j: int| 0 <= j < v@.len() && v@[j].0@ == n;
                    assert(j != i ==> v@[j] == before[j]);
                }
                if has_name(before, n) {
                    let j = choose|j: int| 0 <= j < before.len() && before[j].0@ == n;
                    assert(j != i ==> v@[j] == before[j]);
                    assert(j == i ==> v@[j].0@ == n);
                }
                if n == k@ {
                    assert(v@[i as int].0@ == n);
                }
            }
            assert forall|n: Seq<char>| #[trigger] has_name(v@, n) implies value_of(v@, n) == if n == k@ {
                x
            } else {
                value_of(before, n)
            } by {
                let j = choose|j: int| 0 <= j < v@.len() && v@[j].0@ == n;
                lemma_value_at(v@, j);
                if j != i {
                    assert(v@[j] == before[j]);
                    lemma_value_at(before, j);
                }
            }
        },
        None => {
            v.push((k, x));
            let ghost last = (before.len()) as int;
            assert forall|a: int, b: int| 0 <= a < b < v@.len() implies v@[a].0@ != v@[b].0@ by {
                assert(v@[a] == before[a]);
                if b == last {
                    assert(has_name(before, before[a].0@));
                } else {
                    assert(v@[b] == before[b]);
                }
            }
            assert forall|n: Seq<char>| #[trigger] has_name(v@, n) == (has_name(before, n) || n == k@) by {
                if has_name(v@, n) {
                    let j = choose|j: int| 0 <= j < v@.len() && v@[j].0@ == n;
                    assert(j != last ==> v@[j] == before[j]);
                }
                if has_name(before, n) {
                    let j = choose|j: int| 0 <= j < before.len() && before[j].0@ == n;
                    assert(v@[j] == before[j]);
                }
                if n == k@ {
                    assert(v@[last].0@ == n);
                }
            }
            assert forall|n: Seq<char>| #[trigger] has_name(v@, n) implies value_of(v@, n) == if n == k@ {
                x
            } else {
                value_of(before, n)
            } by {
                let j = choose|j: int| 0 <= j < v@.len() && v@[j].0@ == n;
                lemma_value_at(v@, j);
                if j != last {
                    assert(v@[j] == before[j]);
                    lemma_value_at(before, j);
                }
            }
        },
    }
}

/// Whether a tool is on after `t` is switched on (`activate`) or off in `tools`.
pub open spec fn tool_kept(tools: Seq<ToolKind>, t: ToolKind, activate: bool, c: ToolKind) -> bool {
    if activate {
        tools.contains(c) || c == t
    } else {
        tools.contains(c) && c != t
    }
}

/// Of the first `n` tools of the catalogue, those that are on after the
/// switch, in catalogue order.
pub open spec fn toggled_tools_upto(n: nat, tools: Seq<ToolKind>, t: ToolKind, activate: bool) -> Seq<ToolKind>
    decreases n,
{
    if n == 0 {
        Seq::empty()
    } else {
        let prev = toggled_tools_upto((n - 1) as nat, tools, t, activate);
        if tool_kept(tools, t, activate, ToolKind((n - 1) as u8)) {
            prev.push(ToolKind((n - 1) as u8))
        } else {
            prev
        }
    }
}

/// The tool list after `t` is switched on (`activate`) or off: the tools
/// of the catalogue that are on, in catalogue order, each once.
pub open spec fn toggled_tools(tools: Seq<ToolKind>, t: ToolKind, activate: bool) -> Seq<ToolKind> {
    toggled_tools_upto(TOOL_KIND_COUNT as nat, tools, t, activate)
}

fn toggle_tool(tools: &mut Vec<ToolKind>, tool: ToolKind, activate: bool)
    ensures
        final(tools)@ == toggled_tools(old(tools)@, tool, activate),
{
    let ghost before = tools@;
    let mut r: Vec<ToolKind> = Vec::new();
    let mut c: u8 = 0;
    while c < TOOL_KIND_COUNT
        invariant
            c <= TOOL_KIND_COUNT,
            tools@ == before,
            r@ == toggled_tools_upto(c as nat, before, tool, activate),
        decreases TOOL_KIND_COUNT - c,
    {
        let candidate = ToolKind(c);
        let mut present = false;
        let mut i: usize = 0;
        while i < tools.len()
            invariant
                i <= tools@.len(),
                tools@ == before,
                candidate == ToolKind(c),
                present == (exists|j: int| 0 <= j < i && tools@[j] == candidate),
            decreases tools@.len() - i,
        {
            if tools[i].0 == c {
                present = true;
                assert(tools@[i as int] == candidate);
            }
            i += 1;
        }
        let keep = if activate {
            present || tool.0 == c
        } else {
            present && tool.0 != c
        };
        proof {
            assert(before.contains(candidate) == present);
            assert(tool_kept(before, tool, activate, candidate) == keep);
        }
        if keep {
            r.push(candidate);
        }
        c += 1;
    }
    *tools = r;
}

/// Seconds the agent waits for the user's answer.
pub open spec fn spec_response_timeout(q: Questionable) -> u64 {
    match q {
        Questionable::Never => 0,
        Questionable::Always => 999_999,
        Questionable::Maybe => 300,
    }
}

/// An empty text clears an optional setting.
pub open spec fn optional_text(s: String) -> Option<String> {
    if s@.len() == 0 {
        None
    } else {
        Some(s)
    }
}

fn optional(s: String) -> (r: Option<String>)
    ensures
        r == optional_text(s),
{
    if s.as_str().is_empty() {
        None
    } else {
        Some(s)
    }
}

/// What an edit leaves alone is every field but the ones that it sets.
pub open spec fn config_edit_ok(old: Config, set: SetProjectConfig, new: Config) -> bool {
    match set {
        SetProjectConfig::BigAgent(m) => new == (Config { agents: Agents { big: m, ..old.agents }, ..old }),
        SetProjectConfig::SmallAgent(m) => new == (Config {
            agents: Agents { small: m, ..old.agents },
            ..old
        }),
        SetProjectConfig::SearchAgent(m) => new == (Config {
            agents: Agents { search: m, ..old.agents },
            ..old
        }),
        SetProjectConfig::SummaryAgent(m) => new == (Config {
            agents: Agents { summary: m, ..old.agents },
            ..old
        }),
        SetProjectConfig::ImageEditAgent(m) => new == (Config {
            agents: Agents { image_edit: m, ..old.agents },
            activated_tools: new.activated_tools,
            ..old
        }) && new.activated_tools@ == toggled_tools(
            old.activated_tools@,
            ToolKind(IMAGE_EDIT_TOOL),
            m != Model::Disabled,
        ),
        SetProjectConfig::AgentQuestionable(q) => new == (Config {
            user_response_timeout: spec_response_timeout(q),
            ..old
        }),
        SetProjectConfig::ContextSize(n) => new == (Config {
            llm_context_max_len: (n * 65536) as u64,
            text_file_max_len: (n * 8192) as u64,
            text_file_max_lines: (n * 128) as u64,
            dir_max_entries: (n * 128) as u64,
            stdout_max_len: (n * 1280) as u64,
            ..old
        }),
        SetProjectConfig::ToggleTool(t, a) => new == (Config {
            activated_tools: new.activated_tools,
            ..old
        }) && new.activated_tools@ == toggled_tools(old.activated_tools@, t, a),
        SetProjectConfig::ToggleSkill(skill, e) => new == (Config { skills: new.skills, ..old })
            && named_set(old.skills@, new.skills@, skill@, e),
        SetProjectConfig::SetToolPermission(k, p) => new == (Config {
            tool_permissions: new.tool_permissions,
            ..old
        }) && new.tool_permissions@ == old.tool_permissions@.insert(k.0, p),
        SetProjectConfig::SetRunPermission(bin, p) => new == (Config {
            run_permissions: new.run_permissions,
            ..old
        }) && named_set(old.run_permissions@, new.run_permissions@, bin@, p),
        SetProjectConfig::OpenaiEtc1BaseUrl(url) => new == (Config {
            etc_models: EtcModels { openai_etc1_base_url: optional_text(url), ..old.etc_models },
            ..old
        }),
        SetProjectConfig::OpenaiEtc1Model(model) => new == (Config {
            etc_models: EtcModels { openai_etc1_model: optional_text(model), ..old.etc_models },
            ..old
        }),
        SetProjectConfig::OpenaiEtc2BaseUrl(url) => new == (Config {
            etc_models: EtcModels { openai_etc2_base_url: optional_text(url), ..old.etc_models },
            ..old
        }),
        SetProjectConfig::OpenaiEtc2Model(model) => new == (Config {
            etc_models: EtcModels { openai_etc2_model: optional_text(model), ..old.etc_models },
            ..old
        }),
        SetProjectConfig::OpenaiEtc3BaseUrl(url) => new == (Config {
            etc_models: EtcModels { openai_etc3_base_url: optional_text(url), ..old.etc_models },
            ..old
        }),
        SetProjectConfig::OpenaiEtc3Model(model) => new == (Config {
            etc_models: EtcModels { openai_etc3_model: optional_text(model), ..old.etc_models },
            ..old
        }),
    }
}

/// Whether the settings hold each skill and each binary at most once.
pub open spec fn config_wf(c: Config) -> bool {
    &&& distinct_names(c.skills@)
    &&& distinct_names(c.run_permissions@)
}

/// Applies an edit of the project settings panel.
pub fn set_project_config(config: &mut Config, set: SetProjectConfig)
    requires
        config_wf(*old(config)),
        set matches SetProjectConfig::ContextSize(n) ==> n * 65536 <= u64::MAX,
        set matches SetProjectConfig::ToggleSkill(skill, _) ==> has_name(old(config).skills@, skill@),
    ensures
        config_wf(*final(config)),
        config_edit_ok(*old(config), set, *final(config)),
{
    match set {
        SetProjectConfig::BigAgent(m) => {
            config.agents.big = m;
        },
        SetProjectConfig::SmallAgent(m) => {
            config.agents.small = m;
        },
        SetProjectConfig::SearchAgent(m) => {
            config.agents.search = m;
        },
        SetProjectConfig::SummaryAgent(m) => {
            config.agents.summary = m;
        },
        SetProjectConfig::ImageEditAgent(m) => {
            config.agents.image_edit = m;
            let disabled = match m {
                Model::Disabled => true,
                Model::Known { .. } => false,
            };
            toggle_tool(&mut config.activated_tools, ToolKind::image_edit(), !disabled);
        },
        SetProjectConfig::AgentQuestionable(q) => {
            let timeout: u64 = match q {
                Questionable::Never => 0,
                Questionable::Always => 999_999,
                Questionable::Maybe => 300,
            };
            config.user_response_timeout = timeout;
        },
        SetProjectConfig::ContextSize(n) => {
            config.llm_context_max_len = n * 65536;
            config.text_file_max_len = n * 8192;
            config.text_file_max_lines = n * 128;
            config.dir_max_entries = n * 128;
            config.stdout_max_len = n * 1280;
        },
        SetProjectConfig::ToggleTool(tool, activate) => {
            toggle_tool(&mut config.activated_tools, tool, activate);
        },
        SetProjectConfig::ToggleSkill(skill, enable) => {
            set_named(&mut config.skills, skill, enable);
        },
        SetProjectConfig::SetToolPermission(k, p) => {
            config.tool_permissions.insert(k.0, p);
        },
        SetProjectConfig::SetRunPermission(bin, p) => {
            set_named(&mut config.run_permissions, bin, p);
        },
        SetProjectConfig::OpenaiEtc1BaseUrl(url) => {
            config.etc_models.openai_etc1_base_url = optional(url);
        },
        SetProjectConfig::OpenaiEtc1Model(model) => {
            config.etc_models.openai_etc1_model = optional(model);
        },
        SetProjectConfig::OpenaiEtc2BaseUrl(url) => {
            config.etc_models.openai_etc2_base_url = optional(url);
        },
        SetProjectConfig::OpenaiEtc2Model(model) => {
            config.etc_models.openai_etc2_model = optional(model);
        },
        SetProjectConfig::OpenaiEtc3BaseUrl(url) => {
            config.etc_models.openai_etc3_base_url = optional(url);
        },
        SetProjectConfig::OpenaiEtc3Model(model) => {
            config.etc_models.openai_etc3_model = optional(model);
        },
    }
}

/// The settings of a chat.
#[derive(Clone, Debug)]
pub struct ChatConfig {
    pub model: Model,
    pub thinking: Thinking,
    pub enable_web_search: bool,
    pub system_prompt: String,
    pub etc_models: EtcModels,
}

/// An edit that the chat settings panel makes.
#[derive(Clone, Debug)]
pub enum SetChatConfig {
    Model(Model),
    Thinking(bool),
    WebSearch(bool),
    /// Picks one of the system prompts, by its place in the list.
    ChooseSystemPrompt(usize),
    OpenaiEtc1BaseUrl(String),
    OpenaiEtc1Model(String),
    OpenaiEtc2BaseUrl(String),
    OpenaiEtc2Model(String),
    OpenaiEtc3BaseUrl(String),
    OpenaiEtc3Model(String),
}

/// What an edit of the chat settings does; every other field stays.
pub open spec fn chat_edit_ok(old: ChatConfig, system_prompts: Seq<String>, set: SetChatConfig, new: ChatConfig) -> bool {
    match set {
        SetChatConfig::Model(m) => new == (ChatConfig {
            model: m,
            enable_web_search: old.enable_web_search && m.spec_supports_web_search(),
            ..old
        }),
        SetChatConfig::Thinking(t) => new == (ChatConfig {
            thinking: if t {
                Thinking::Enabled
            } else {
                Thinking::Disabled
            },
            ..old
        }),
        SetChatConfig::WebSearch(w) => new == (ChatConfig { enable_web_search: w, ..old }),
        SetChatConfig::ChooseSystemPrompt(i) => new == (ChatConfig {
            system_prompt: new.system_prompt,
            ..old
        }) && new.system_prompt@ == system_prompts[i as int]@,
        SetChatConfig::OpenaiEtc1BaseUrl(url) => new == (ChatConfig {
            etc_models: EtcModels { openai_etc1_base_url: optional_text(url), ..old.etc_models },
            ..old
        }),
        SetChatConfig::OpenaiEtc1Model(model) => new == (ChatConfig {
            etc_models: EtcModels { openai_etc1_model: optional_text(model), ..old.etc_models },
            ..old
        }),
        SetChatConfig::OpenaiEtc2BaseUrl(url) => new == (ChatConfig {
            etc_models: EtcModels { openai_etc2_base_url: optional_text(url), ..old.etc_models },
            ..old
        }),
        SetChatConfig::OpenaiEtc2Model(model) => new == (ChatConfig {
            etc_models: EtcModels { openai_etc2_model: optional_text(model), ..old.etc_models },
            ..old
        }),
        SetChatConfig::OpenaiEtc3BaseUrl(url) => new == (ChatConfig {
            etc_models: EtcModels { openai_etc3_base_url: optional_text(url), ..old.etc_models },
            ..old
        }),
        SetChatConfig::OpenaiEtc3Model(model) => new == (ChatConfig {
            etc_models: EtcModels { openai_etc3_model: optional_text(model), ..old.etc_models },
            ..old
        }),
    }
}

/// Applies an edit of the chat settings panel. A model that cannot search
/// the web switches web search off.
pub fn set_chat_config(config: &mut ChatConfig, system_prompts: &[String], set: SetChatConfig)
    requires
        set matches SetChatConfig::ChooseSystemPrompt(i) ==> i < system_prompts@.len(),
    ensures
        chat_edit_ok(*old(config), system_prompts@, set, *final(config)),
{
    match set {
        SetChatConfig::Model(model) => {
            config.model = model;
            if !config.model.supports_web_search() {
                config.enable_web_search = false;
            }
        },
        SetChatConfig::Thinking(t) => {
            if t {
                config.thinking = Thinking::Enabled;
            } else {
                config.thinking = Thinking::Disabled;
            }
        },
        SetChatConfig::WebSearch(w) => {
            config.enable_web_search = w;
        },
        SetChatConfig::ChooseSystemPrompt(i) => {
            config.system_prompt = system_prompts[i].clone();
        },
        SetChatConfig::OpenaiEtc1BaseUrl(url) => {
            config.etc_models.openai_etc1_base_url = optional(url);
        },
        SetChatConfig::OpenaiEtc1Model(model) => {
            config.etc_models.openai_etc1_model = optional(model);
        },
        SetChatConfig::OpenaiEtc2BaseUrl(url) => {
            config.etc_models.openai_etc2_base_url = optional(url);
        },
        SetChatConfig::OpenaiEtc2Model(model) => {
            config.etc_models.openai_etc2_model = optional(model);
        },
        SetChatConfig::OpenaiEtc3BaseUrl(url) => {
            config.etc_models.openai_etc3_base_url = optional(url);
        },
        SetChatConfig::OpenaiEtc3Model(model) => {
            config.etc_models.openai_etc3_model = optional(model);
        },
    }
}

proof fn lemma_toggled_upto_increasing(n: nat, tools: Seq<ToolKind>, t: ToolKind, activate: bool)
    requires
        n <= 256,
    ensures
        forall|i: int, j: int|
            0 <= i < j < toggled_tools_upto(n, tools, t, activate).len() ==> (#[trigger] toggled_tools_upto(
                n,
                tools,
                t,
                activate,
            )[i]).0 < (#[trigger] toggled_tools_upto(n, tools, t, activate)[j]).0,
        forall|i: int|
            0 <= i < toggled_tools_upto(n, tools, t, activate).len() ==> (#[trigger] toggled_tools_upto(
                n,
                tools,
                t,
                activate,
            )[i]).0 < n,
    decreases n,
{
    if n > 0 {
        lemma_toggled_upto_increasing((n - 1) as nat, tools, t, activate);
        let prev = toggled_tools_upto((n - 1) as nat, tools, t, activate);
        let last = ToolKind((n - 1) as u8);
        assert(last.0 == n - 1);
        let cur = toggled_tools_upto(n, tools, t, activate);
        if tool_kept(tools, t, activate, last) {
            assert(cur == prev.push(last));
            assert forall|i: int| 0 <= i < cur.len() implies (#[trigger] cur[i]).0 < n by {
                if i < prev.len() {
                    assert(cur[i] == prev[i]);
                }
            }
            assert forall|i: int, j: int| 0 <= i < j < cur.len() implies (#[trigger] cur[i]).0 < (
            #[trigger] cur[j]).0 by {
                assert(cur[i] == prev[i]);
                if j < prev.len() {
                    assert(cur[j] == prev[j]);
                }
            }
        } else {
            assert(cur == prev);
        }
    }
}

/// Law: after any switch of a tool, the tool list is in catalogue order
/// and holds no tool twice.
pub proof fn lemma_toggled_tools_sorted(tools: Seq<ToolKind>, t: ToolKind, activate: bool)
    ensures
        forall|i: int, j: int|
            0 <= i < j < toggled_tools(tools, t, activate).len() ==> (#[trigger] toggled_tools(
                tools,
                t,
                activate,
            )[i]).0 < (#[trigger] toggled_tools(tools, t, activate)[j]).0,
{
    lemma_toggled_upto_increasing(TOOL_KIND_COUNT as nat, tools, t, activate);
}

proof fn lemma_toggled_upto_contains(n: nat, tools: Seq<ToolKind>, t: ToolKind, activate: bool, c: ToolKind)
    requires
        n <= 256,
    ensures
        toggled_tools_upto(n, tools, t, activate).contains(c) <==> (c.0 < n && tool_kept(
            tools,
            t,
            activate,
            c,
        )),
    decreases n,
{
    if n > 0 {
        lemma_toggled_upto_increasing((n - 1) as nat, tools, t, activate);
        lemma_toggled_upto_contains((n - 1) as nat, tools, t, activate, c);
        let prev = toggled_tools_upto((n - 1) as nat, tools, t, activate);
        let last = ToolKind((n - 1) as u8);
        if tool_kept(tools, t, activate, last) {
            if prev.push(last).contains(c) {
                let k = choose|k: int| 0 <= k < prev.push(last).len() && prev.push(last)[k] == c;
                if k < prev.len() {
                    assert(prev.contains(c));
                }
            }
            if prev.contains(c) {
                let k = choose|k: int| 0 <= k < prev.len() && prev[k] == c;
                assert(prev.push(last)[k] == c);
            }
            if c == last {
                assert(prev.push(last)[prev.len() as int] == c);
            }
        }
    }
}

/// Law: switching a tool of the catalogue on puts it in the list, switching
/// it off takes it out, and every other tool stays as it was.
pub proof fn lemma_toggle_tool_effect(tools: Seq<ToolKind>, t: ToolKind, activate: bool, c: ToolKind)
    requires
        c.0 < TOOL_KIND_COUNT,
    ensures
        c == t ==> (toggled_tools(tools, t, activate).contains(c) <==> activate),
        c != t ==> (toggled_tools(tools, t, activate).contains(c) <==> tools.contains(c)),
{
    lemma_toggled_upto_contains(TOOL_KIND_COUNT as nat, tools, t, activate, c);
}

} // verus!
