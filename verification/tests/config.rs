use composer::config::{
    api_key_env_names, resolve_chain, resolve_role, role_or_orchestrator, secrets, validate,
    Config, ConfigError, ForgeloopCfg, PolicyCfg, ProviderCfg, RoleCfg, ServerCfg, DEFAULT_CONFIG,
};
use composer::gateway::ProviderKind;
use composer::table::Table;

fn text_at(table: &toml::Value, key: &str) -> Option<String> {
    table.get(key).and_then(|v| v.as_str()).map(|s| s.to_string())
}

fn load(source: &str) -> Config {
    let v: toml::Value = toml::from_str(source).unwrap();
    let mut providers = Table::new();
    for (name, p) in v["providers"].as_table().unwrap() {
        providers = providers.with(
            name.clone(),
            ProviderCfg {
                base_url: text_at(p, "base_url").unwrap(),
                api_key_env: text_at(p, "api_key_env"),
                kind: text_at(p, "kind").unwrap_or_default(),
            },
        );
    }
    let mut roles = Table::new();
    for (name, r) in v["roles"].as_table().unwrap() {
        let escalation = match r.get("escalation").and_then(|e| e.as_array()) {
            Some(items) => items.iter().map(|i| i.as_str().unwrap().to_string()).collect(),
            None => Vec::new(),
        };
        roles = roles.with(
            name.clone(),
            RoleCfg {
                provider: text_at(r, "provider").unwrap(),
                model: text_at(r, "model").unwrap(),
                escalation,
            },
        );
    }
    Config {
        server: ServerCfg { port: v["server"]["port"].as_integer().unwrap() as u16 },
        providers,
        roles,
        policy: PolicyCfg::default(),
        forgeloop: ForgeloopCfg { dir: v.get("forgeloop").and_then(|f| text_at(f, "dir")) },
    }
}

fn env(vars: &[(&str, &str)]) -> Vec<(String, String)> {
    vars.iter().map(|(k, v)| (k.to_string(), v.to_string())).collect()
}

#[test]
fn default_config_has_an_orchestrator() {
    let cfg = load(DEFAULT_CONFIG);
    assert_eq!(cfg.server.port, 8642);
    assert!(validate(&cfg).is_ok());
    let pc = resolve_role(&cfg, &[], "orchestrator").unwrap();
    assert_eq!(pc.base_url, "http://127.0.0.1:11434/v1");
    assert_eq!(pc.model, "qwen2.5:14b-instruct");
    assert_eq!(pc.api_key, None);
    assert_eq!(api_key_env_names(&cfg), vec!["FIREWORKS_API_KEY".to_string()]);
}

#[test]
fn resolve_role_picks_up_api_key_env_and_secrets_includes_it() {
    let cfg = load(
        r#"[server]
port = 9000

[providers.stub]
base_url = "http://127.0.0.1:0/v1"
api_key_env = "FC_TEST_KEY_T3"

[roles.orchestrator]
provider = "stub"
model = "stub-model"
"#,
    );
    let env = env(&[("OTHER", "x"), ("FC_TEST_KEY_T3", "sk-test-SECRET-999")]);
    let pc = resolve_role(&cfg, &env, "orchestrator").unwrap();
    assert_eq!(pc.model, "stub-model");
    assert_eq!(pc.api_key.as_deref(), Some("sk-test-SECRET-999"));
    let secs = secrets(&cfg, &env);
    assert!(secs.contains(&"sk-test-SECRET-999".to_string()));
}

#[test]
fn forgeloop_dir_and_escalation_chain_parse() {
    let cfg = load(
        r#"[server]
port = 9000

[providers.a]
base_url = "http://127.0.0.1:1/v1"

[providers.b]
base_url = "http://127.0.0.1:2/v1"

[roles.orchestrator]
provider = "a"
model = "m-a"
escalation = ["fallback"]

[roles.fallback]
provider = "b"
model = "m-b"

[forgeloop]
dir = "/tmp/fl"
"#,
    );
    assert_eq!(cfg.forgeloop.dir.as_deref(), Some("/tmp/fl"));
    let chain = resolve_chain(&cfg, &[], "orchestrator").unwrap();
    assert_eq!(chain.len(), 2);
    assert_eq!(chain[0].0, "orchestrator");
    assert_eq!(chain[0].1.model, "m-a");
    assert_eq!(chain[1].0, "fallback");
    assert_eq!(chain[1].1.model, "m-b");
}

#[test]
fn escalation_to_unknown_role_errors() {
    let cfg = load(
        r#"[server]
port = 9000

[providers.a]
base_url = "http://127.0.0.1:1/v1"

[roles.orchestrator]
provider = "a"
model = "m-a"
escalation = ["ghost"]
"#,
    );
    assert!(resolve_chain(&cfg, &[], "orchestrator").is_err());
    assert_eq!(
        resolve_chain(&cfg, &[], "orchestrator").unwrap_err(),
        ConfigError::UnknownRole("ghost".into())
    );
}

fn sample(kind: &str, provider: &str) -> Config {
    load(&format!(
        "[server]\nport = 1\n[providers.p]\nbase_url = \"u\"\nkind = \"{kind}\"\napi_key_env = \"K\"\n[roles.worker]\nprovider = \"{provider}\"\nmodel = \"m\"\n"
    ))
}

#[test]
fn unusable_configurations_are_told_apart() {
    let cfg = sample("", "p");
    assert_eq!(validate(&cfg), Err(ConfigError::NoOrchestrator));
    assert_eq!(
        validate(&cfg).unwrap_err().message(),
        "config.toml must define a roles.orchestrator"
    );
    assert_eq!(
        resolve_role(&cfg, &[], "nobody").unwrap_err().message(),
        "unknown role: nobody"
    );
    assert_eq!(
        resolve_role(&sample("", "q"), &[], "worker").unwrap_err().message(),
        "unknown provider: q"
    );
    assert_eq!(
        resolve_role(&sample("odd", "p"), &[], "worker").unwrap_err().message(),
        "unknown provider kind: odd"
    );
    for (kind, expected) in [
        ("", ProviderKind::OpenAI),
        ("openai", ProviderKind::OpenAI),
        ("anthropic", ProviderKind::Anthropic),
    ] {
        assert_eq!(resolve_role(&sample(kind, "p"), &[], "worker").unwrap().kind, expected);
    }
}

#[test]
fn empty_keys_count_as_missing() {
    let cfg = sample("", "p");
    let empty = env(&[("K", "")]);
    assert_eq!(resolve_role(&cfg, &empty, "worker").unwrap().api_key, None);
    assert!(secrets(&cfg, &empty).is_empty());
    assert_eq!(secrets(&cfg, &env(&[("K", "v")])), vec!["v".to_string()]);
}

#[test]
fn unknown_roles_run_as_the_orchestrator() {
    let cfg = sample("", "p");
    assert_eq!(role_or_orchestrator(&cfg, "worker"), "worker");
    assert_eq!(role_or_orchestrator(&cfg, "nobody"), "orchestrator");
}

#[test]
fn policy_defaults() {
    let p = PolicyCfg::default();
    assert!(!p.auto_approve_edits);
    assert_eq!(p.approval_timeout_secs, 300);
    assert!(p.rules.is_empty());
}

#[test]
fn tables_keep_their_keys_in_order() {
    let t = Table::new().with("b".to_string(), 1).with("a".to_string(), 2).with("b".to_string(), 3);
    assert_eq!(t.len(), 2);
    assert_eq!((t.key_at(0).as_str(), *t.value_at(0)), ("a", 2));
    assert_eq!((t.key_at(1).as_str(), *t.value_at(1)), ("b", 3));
    assert_eq!(t.get("b"), Some(&3));
    assert_eq!(t.get("c"), None);
}
