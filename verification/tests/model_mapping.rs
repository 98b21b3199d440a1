use gemini_openai_gateway::config::ModelConfig;
use gemini_openai_gateway::models::{build_model_list, resolve_model};

#[test]
fn test_build_model_list_contains_primary() {
    let cfg = ModelConfig::default();
    let list = build_model_list(&cfg);

    assert_eq!(list.object, "list");
    let model_ids: Vec<String> = list.data.into_iter().map(|m| m.id).collect();
    assert!(model_ids.contains(&"gemini-2.5-flash".to_string()));
    assert!(model_ids.contains(&"gemini-2.5-pro".to_string()));
    assert!(model_ids.contains(&"gemini-2.0-flash".to_string()));
    assert!(model_ids.contains(&"gemini-2.0-flash-lite".to_string()));
}

#[test]
fn model_list_is_sorted_and_lists_primary_once() {
    let cfg = ModelConfig::default();
    let list = build_model_list(&cfg);
    let ids: Vec<String> = list.data.iter().map(|m| m.id.clone()).collect();
    let mut sorted = ids.clone();
    sorted.sort();
    assert_eq!(ids, sorted);
    assert_eq!(ids.iter().filter(|id| id.as_str() == "gemini-3.8-flash").count(), 1);
    assert_eq!(ids.len(), cfg.aliases.len());
    for item in &list.data {
        assert_eq!(item.object, "model");
        assert_eq!(item.created, 1_726_000_000);
        assert_eq!(item.owned_by, "google");
    }
}

#[test]
fn model_list_with_no_aliases_holds_the_primary() {
    let cfg = ModelConfig {
        primary: "gemini-x".to_string(),
        thinking_level: "high".to_string(),
        force_model: false,
        aliases: vec![("b".to_string(), "gemini-x".to_string()), ("a".to_string(), "gemini-x".to_string())],
    };
    let list = build_model_list(&cfg);
    let ids: Vec<String> = list.data.into_iter().map(|m| m.id).collect();
    assert_eq!(ids, vec!["a".to_string(), "b".to_string(), "gemini-x".to_string()]);
}

#[test]
fn aliases_resolve_to_their_targets() {
    let cfg = ModelConfig::default();
    assert_eq!(resolve_model(&cfg, "gpt-4o"), "gemini-3.8-flash");
    assert_eq!(resolve_model(&cfg, "o1"), "gemini-2.5-pro");
    assert_eq!(resolve_model(&cfg, "gpt-4o-mini"), "gemini-3.5-flash-lite");
    assert_eq!(resolve_model(&cfg, "gemini-2.0-flash-lite"), "gemini-3.5-flash-lite");
}

#[test]
fn unknown_models_resolve_to_primary_unless_gemini() {
    let cfg = ModelConfig::default();
    assert_eq!(resolve_model(&cfg, "unknown-model"), "gemini-3.8-flash");
    assert_eq!(resolve_model(&cfg, "gemini-9.9-ultra"), "gemini-9.9-ultra");
    assert_eq!(resolve_model(&cfg, "xgemini-1"), "gemini-3.8-flash");
}
