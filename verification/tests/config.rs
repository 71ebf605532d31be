use p2ptokens::client::{split_csv, ollama_enabled, BackendConfig, RunConfig};
use p2ptokens::adapters::BackendKind;
use p2ptokens::config::PlatformConfig;

#[test]
fn defaults_reproduce_public_network() {
    let c = PlatformConfig::default();
    assert_eq!(c.network.id, "public");
    assert_eq!(c.brand.product_name, "p2ptokens");
    assert!(c.join_secret().is_none());
}

#[test]
fn env_overrides_apply_and_secret_makes_network_private() {
    let c = PlatformConfig::load(
        None,
        Some("http://coord:4000".into()),
        Some("acme".into()),
        Some("  s3cret ".into()),
    );
    assert_eq!(c.coordinator.url, "http://coord:4000");
    assert_eq!(c.network.id, "acme");
    assert!(c.network.private);
    assert_eq!(c.join_secret().as_deref(), Some("s3cret"));
}

#[test]
fn a_config_file_is_kept_where_the_environment_is_silent() {
    let mut file = PlatformConfig::default();
    file.network.id = "acme".into();
    file.brand.product_name = "Acme AI".into();
    let c = PlatformConfig::load(Some(file), None, None, None);
    assert_eq!(c.network.id, "acme");
    assert_eq!(c.brand.product_name, "Acme AI");
    assert!(!c.network.private);
}

#[test]
fn blank_secret_on_private_network_is_no_secret() {
    let mut c = PlatformConfig::default();
    c.network.private = true;
    c.network.join_secret = "   ".into();
    assert!(c.join_secret().is_none());
}

#[test]
fn csv_lists_are_trimmed_and_skip_empty_items() {
    assert_eq!(split_csv(" a, b ,,c ,"), vec!["a", "b", "c"]);
    assert!(split_csv("").is_empty());
    assert!(split_csv(" , ").is_empty());
}

#[test]
fn ollama_is_on_unless_disabled() {
    assert!(ollama_enabled(None));
    assert!(ollama_enabled(Some("1")));
    assert!(!ollama_enabled(Some("0")));
    assert!(!ollama_enabled(Some("FALSE")));
    assert!(ollama_enabled(Some("no")));
}

#[test]
fn backends_follow_the_configuration() {
    let bc = BackendConfig::from_env(
        Some("false".into()),
        None,
        Some("http://x".into()),
        None,
        Some("m1,m2".into()),
        Some("key".into()),
        None,
    );
    assert!(!bc.ollama);
    assert_eq!(bc.endpoint_models, vec!["m1", "m2"]);
    assert_eq!(bc.backends(), vec![BackendKind::Compat]);
    let all = BackendConfig::from_env(None, None, None, None, None, Some("k".into()), Some("c".into()));
    assert_eq!(all.backends(), vec![BackendKind::Ollama, BackendKind::Anthropic]);
}

#[test]
fn run_config_from_platform() {
    let mut p = PlatformConfig::default();
    p.relay.addr = "  ".into();
    let r = RunConfig::from_platform(p.clone());
    assert!(r.relay_addr.is_none());
    assert_eq!(r.network_id, "public");
    assert!(r.data_dir.is_none());
    p.relay.addr = "/ip4/1.2.3.4/tcp/4001".into();
    p.network.private = true;
    p.network.join_secret = "s".into();
    let r2 = RunConfig::from_platform(p);
    assert_eq!(r2.relay_addr.as_deref(), Some("/ip4/1.2.3.4/tcp/4001"));
    assert_eq!(r2.join_secret.as_deref(), Some("s"));
}
