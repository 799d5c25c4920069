use neukgu::api_key::{input_label, missing_api_keys, update, IcedContext, IcedMessage};

fn needed(env_var: &str, agent: &str, set: bool) -> (String, String, bool) {
    (String::from(env_var), String::from(agent), set)
}

fn strings(v: &[&str]) -> Vec<String> {
    v.iter().map(|s| String::from(*s)).collect()
}

#[test]
fn missing_keys_are_grouped_and_sorted() {
    let needed = vec![
        needed("OPENAI_API_KEY", "big", false),
        needed("ANTHROPIC_API_KEY", "small", false),
        needed("OPENAI_API_KEY", "search", false),
        needed("GOOGLE_API_KEY", "summary", true),
        needed("XAI_API_KEY", "image", false),
    ];
    let entered = vec![(String::from("XAI_API_KEY"), String::from("xai-secret"))];
    let missing = missing_api_keys(&needed, &entered);
    assert_eq!(
        missing,
        vec![
            (String::from("ANTHROPIC_API_KEY"), strings(&["small"])),
            (String::from("OPENAI_API_KEY"), strings(&["big", "search"])),
        ],
    );
}

#[test]
fn nothing_is_missing_where_every_key_is_there() {
    let needed = vec![needed("A", "big", true), needed("B", "small", false)];
    let entered = vec![(String::from("B"), String::from("b"))];
    assert!(missing_api_keys(&needed, &entered).is_empty());
    assert!(missing_api_keys(&vec![], &vec![]).is_empty());
}

#[test]
fn keys_sort_as_strings_do() {
    let needed = vec![needed("b", "x", false), needed("ab", "y", false), needed("a", "z", false), needed("B", "w", false)];
    let keys: Vec<String> = missing_api_keys(&needed, &vec![]).into_iter().map(|(k, _)| k).collect();
    let mut sorted = keys.clone();
    sorted.sort();
    assert_eq!(keys, sorted);
    assert_eq!(keys, strings(&["B", "a", "ab", "b"]));
}

#[test]
fn labels_name_the_agents() {
    assert_eq!(input_label(&String::from("OPENAI_API_KEY"), &strings(&["big", "search"])), "OPENAI_API_KEY (big-agent, search-agent)");
    assert_eq!(input_label(&String::from("K"), &strings(&["small"])), "K (small-agent)");
    assert_eq!(input_label(&String::from("K"), &vec![]), "K");
}

#[test]
fn the_first_empty_input_takes_the_focus() {
    let mut c = IcedContext::new(vec![(String::from("A"), strings(&["big"])), (String::from("B"), strings(&["small"]))]);
    assert_eq!(c.focus(), Some(0));
    update(&mut c, IcedMessage::EditKey1(String::from("a-key")));
    assert_eq!(c.focus(), Some(1));
    update(&mut c, IcedMessage::EditKey2(String::from("b-key")));
    // the two other inputs are not shown, but still empty
    assert_eq!(c.focus(), Some(2));
    update(&mut c, IcedMessage::EditKey3(String::from("c")));
    update(&mut c, IcedMessage::EditKey4(String::from("d")));
    assert_eq!(c.focus(), None);
    assert_eq!(update(&mut c, IcedMessage::Focus(1)), Some(1));
    assert_eq!(update(&mut c, IcedMessage::Enter), None);
}

#[test]
fn enter_moves_on_until_the_last_key() {
    let c = IcedContext::new(vec![(String::from("A"), vec![]), (String::from("B"), vec![])]);
    assert!(matches!(c.on_submit(0), IcedMessage::Focus(1)));
    assert!(matches!(c.on_submit(1), IcedMessage::Enter));
    let five: Vec<(String, Vec<String>)> = ["A", "B", "C", "D", "E"].iter().map(|k| (String::from(*k), vec![])).collect();
    let c = IcedContext::new(five);
    assert!(matches!(c.on_submit(2), IcedMessage::Focus(3)));
    assert!(matches!(c.on_submit(3), IcedMessage::Enter));
}

#[test]
fn entered_keys_pair_names_with_inputs() {
    let mut c = IcedContext::new(vec![(String::from("A"), vec![]), (String::from("B"), vec![])]);
    update(&mut c, IcedMessage::EditKey1(String::from("a-key")));
    update(&mut c, IcedMessage::EditKey3(String::from("ignored")));
    assert_eq!(
        c.entered_keys(),
        vec![(String::from("A"), String::from("a-key")), (String::from("B"), String::new())],
    );
}
