use neukgu::config::{
    set_chat_config, set_project_config, Agents, ChatConfig, Config, EtcModels, Model, PermissionConfig,
    Questionable, SetChatConfig, SetProjectConfig, Thinking, ToolKind, ToolPermissionKind, TOOL_KIND_COUNT,
};
use std::collections::HashMap;

fn etc() -> EtcModels {
    EtcModels {
        openai_etc1_base_url: None,
        openai_etc1_model: None,
        openai_etc2_base_url: None,
        openai_etc2_model: None,
        openai_etc3_base_url: None,
        openai_etc3_model: None,
    }
}

fn gpt() -> Model {
    Model::Known { id: 1, web_search: true }
}

fn config() -> Config {
    Config {
        agents: Agents { big: gpt(), small: gpt(), search: gpt(), summary: gpt(), image_edit: Model::Disabled },
        user_response_timeout: 300,
        llm_context_max_len: 0,
        text_file_max_len: 0,
        text_file_max_lines: 0,
        dir_max_entries: 0,
        stdout_max_len: 0,
        activated_tools: vec![ToolKind(0), ToolKind(3)],
        skills: vec![(String::from("review"), false)],
        tool_permissions: HashMap::new(),
        run_permissions: vec![],
        etc_models: etc(),
    }
}

#[test]
fn agents_are_set_one_by_one() {
    let mut c = config();
    let small = Model::Known { id: 2, web_search: false };
    set_project_config(&mut c, SetProjectConfig::SmallAgent(small));
    assert_eq!(c.agents.small, small);
    assert_eq!(c.agents.big, gpt());
}

#[test]
fn the_image_edit_agent_switches_its_tool() {
    let mut c = config();
    set_project_config(&mut c, SetProjectConfig::ImageEditAgent(Model::Known { id: 9, web_search: false }));
    assert_eq!(c.activated_tools, vec![ToolKind(0), ToolKind(3), ToolKind::image_edit()]);
    set_project_config(&mut c, SetProjectConfig::ImageEditAgent(Model::Disabled));
    assert_eq!(c.activated_tools, vec![ToolKind(0), ToolKind(3)]);
    assert_eq!(c.agents.image_edit, Model::Disabled);
}

#[test]
fn questionable_sets_the_response_timeout() {
    let mut c = config();
    set_project_config(&mut c, SetProjectConfig::AgentQuestionable(Questionable::Never));
    assert_eq!(c.user_response_timeout, 0);
    set_project_config(&mut c, SetProjectConfig::AgentQuestionable(Questionable::Always));
    assert_eq!(c.user_response_timeout, 999_999);
    set_project_config(&mut c, SetProjectConfig::AgentQuestionable(Questionable::Maybe));
    assert_eq!(c.user_response_timeout, 300);
}

#[test]
fn context_size_scales_every_limit() {
    let mut c = config();
    set_project_config(&mut c, SetProjectConfig::ContextSize(3));
    assert_eq!(c.llm_context_max_len, 3 * 65536);
    assert_eq!(c.text_file_max_len, 3 * 8192);
    assert_eq!(c.text_file_max_lines, 3 * 128);
    assert_eq!(c.dir_max_entries, 3 * 128);
    assert_eq!(c.stdout_max_len, 3 * 1280);
}

#[test]
fn tools_stay_sorted_and_unique() {
    let mut c = config();
    set_project_config(&mut c, SetProjectConfig::ToggleTool(ToolKind(2), true));
    set_project_config(&mut c, SetProjectConfig::ToggleTool(ToolKind(3), true));
    assert_eq!(c.activated_tools, vec![ToolKind(0), ToolKind(2), ToolKind(3)]);
    set_project_config(&mut c, SetProjectConfig::ToggleTool(ToolKind(0), false));
    assert_eq!(c.activated_tools, vec![ToolKind(2), ToolKind(3)]);
    // a tool outside the catalogue is dropped
    set_project_config(&mut c, SetProjectConfig::ToggleTool(ToolKind(TOOL_KIND_COUNT + 4), true));
    assert_eq!(c.activated_tools, vec![ToolKind(2), ToolKind(3)]);
    assert_eq!(ToolKind::all().len(), TOOL_KIND_COUNT as usize);
}

#[test]
fn skills_and_permissions() {
    let mut c = config();
    set_project_config(&mut c, SetProjectConfig::ToggleSkill(String::from("review"), true));
    assert_eq!(c.skills, vec![(String::from("review"), true)]);
    set_project_config(&mut c, SetProjectConfig::SetToolPermission(ToolPermissionKind(1), PermissionConfig::Deny));
    assert_eq!(c.tool_permissions.get(&1), Some(&PermissionConfig::Deny));
    set_project_config(&mut c, SetProjectConfig::SetRunPermission(String::from("cargo"), PermissionConfig::Allow));
    set_project_config(&mut c, SetProjectConfig::SetRunPermission(String::from("git"), PermissionConfig::Ask));
    set_project_config(&mut c, SetProjectConfig::SetRunPermission(String::from("cargo"), PermissionConfig::Deny));
    assert_eq!(
        c.run_permissions,
        vec![(String::from("cargo"), PermissionConfig::Deny), (String::from("git"), PermissionConfig::Ask)]
    );
}

#[test]
fn an_empty_text_clears_an_endpoint() {
    let mut c = config();
    set_project_config(&mut c, SetProjectConfig::OpenaiEtc2BaseUrl(String::from("http://localhost:8080")));
    assert_eq!(c.etc_models.openai_etc2_base_url.as_deref(), Some("http://localhost:8080"));
    set_project_config(&mut c, SetProjectConfig::OpenaiEtc2BaseUrl(String::new()));
    assert_eq!(c.etc_models.openai_etc2_base_url, None);
}

fn chat() -> ChatConfig {
    ChatConfig {
        model: gpt(),
        thinking: Thinking::Disabled,
        enable_web_search: true,
        system_prompt: String::new(),
        etc_models: etc(),
    }
}

#[test]
fn a_model_without_web_search_switches_it_off() {
    let mut c = chat();
    set_chat_config(&mut c, &[], SetChatConfig::Model(Model::Known { id: 5, web_search: false }));
    assert!(!c.enable_web_search);
    set_chat_config(&mut c, &[], SetChatConfig::Model(gpt()));
    assert!(!c.enable_web_search);
    set_chat_config(&mut c, &[], SetChatConfig::WebSearch(true));
    assert!(c.enable_web_search);
}

#[test]
fn chat_settings() {
    let mut c = chat();
    set_chat_config(&mut c, &[], SetChatConfig::Thinking(true));
    assert_eq!(c.thinking, Thinking::Enabled);
    let prompts = [String::from("be brief"), String::from("be kind")];
    set_chat_config(&mut c, &prompts, SetChatConfig::ChooseSystemPrompt(1));
    assert_eq!(c.system_prompt, "be kind");
    set_chat_config(&mut c, &prompts, SetChatConfig::OpenaiEtc3Model(String::from("qwen")));
    assert_eq!(c.etc_models.openai_etc3_model.as_deref(), Some("qwen"));
}
