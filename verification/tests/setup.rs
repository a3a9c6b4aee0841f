use llm_loop::cli::command::CliCommand;
use llm_loop::cli::doctor::{
    check_line, doctor_result, named_provider, run_checks, Check, CheckLevel, KeyedProvider,
    SetupFacts,
};
use llm_loop::config::{
    merge_config, AppConfig, ChannelConfig, LogConfig, ModelProviderConfig,
};
use llm_loop::home::{resolve_configured_work_dir, AppPaths};
use llm_loop::logger::{error, info, log_line, log_path, should_truncate};
use llm_loop::plan_store::{plan_path, plan_temp_path};

#[test]
fn parse_empty_args_as_daemon() {
    let command = CliCommand::parse(Vec::<String>::new()).unwrap();

    assert_eq!(command, CliCommand::Daemon);
}

#[test]
fn parse_login_command() {
    let command = CliCommand::parse(vec!["login".to_string()]).unwrap();

    assert_eq!(command, CliCommand::Login);
}

#[test]
fn parse_doctor_command() {
    let command = CliCommand::parse(vec!["doctor".to_string()]).unwrap();

    assert_eq!(command, CliCommand::Doctor);
}

#[test]
fn parse_resources_command() {
    let command = CliCommand::parse(vec!["resources".to_string()]).unwrap();

    assert_eq!(command, CliCommand::Resources);
}

#[test]
fn parse_unknown_command_as_error() {
    let error = CliCommand::parse(vec!["wat".to_string()]).unwrap_err();

    assert!(error.to_text().contains("unknown command"));
}

#[test]
fn parse_explains_how_to_call() {
    let usage = "usage: llm-loop [login|doctor|resources]";
    let help = CliCommand::parse(vec!["-h".to_string()]).unwrap_err();
    assert_eq!(help.to_text(), format!("cli error: {usage}"));
    let extra =
        CliCommand::parse(vec!["login".to_string(), "now".to_string()]).unwrap_err();
    assert_eq!(
        extra.to_text(),
        format!("cli error: command `login` does not accept extra args\n{usage}")
    );
}

#[test]
fn missing_config_uses_default() {
    let config = AppConfig::default();
    assert!(config.provider.custom_provider.is_none());
    assert!(config.channels.is_empty());
    assert_eq!(config.log.path.as_deref(), Some("/tmp/llm-loop.log"));
}

fn profile(base_url: &str, env_key: &str) -> ModelProviderConfig {
    let mut profile = ModelProviderConfig::default();
    profile.base_url = Some(base_url.to_string());
    profile.env_key = Some(env_key.to_string());
    profile
}

#[test]
fn merged_config_reads_codex_model_providers() {
    let mut codex = AppConfig::default();
    codex
        .model_providers
        .insert("shared".to_string(), profile("http://codex.example/v1", "CODEX_KEY"));
    let mut own = AppConfig::default();
    own.custom_provider = Some("shared".to_string());
    own.provider.model = Some("gpt-test".to_string());

    let config = merge_config(own, codex);
    assert_eq!(config.provider.custom_provider.as_deref(), Some("shared"));
    assert_eq!(
        config.model_providers.get("shared").unwrap().base_url.as_deref(),
        Some("http://codex.example/v1")
    );
}

#[test]
fn merged_config_prefers_llm_loop_provider_on_duplicate_key() {
    let mut codex = AppConfig::default();
    codex
        .model_providers
        .insert("shared".to_string(), profile("http://codex.example/v1", "CODEX_KEY"));
    let mut own = AppConfig::default();
    own.provider.model = Some("gpt-test".to_string());
    own.provider.custom_provider = Some("shared".to_string());
    own.model_providers
        .insert("shared".to_string(), profile("http://loop.example/v1", "LOOP_KEY"));

    let config = merge_config(own, codex);
    let shared = config.model_providers.get("shared").unwrap();
    assert_eq!(shared.base_url.as_deref(), Some("http://loop.example/v1"));
    assert_eq!(shared.env_key.as_deref(), Some("LOOP_KEY"));
}

#[test]
fn merged_config_uses_model_provider_as_codex_custom_provider() {
    let mut own = AppConfig::default();
    own.model_provider = Some("fake_custom".to_string());
    own.model = Some("gpt-test".to_string());
    let mut fake = ModelProviderConfig::default();
    fake.base_url = Some("http://loop.example/v1".to_string());
    fake.experimental_bearer_token = Some("fake-bearer-token".to_string());
    own.model_providers.insert("fake_custom".to_string(), fake);

    let config = merge_config(own, AppConfig::default());
    assert_eq!(config.provider.kind, "codex");
    assert_eq!(config.provider.model.as_deref(), Some("gpt-test"));
    assert_eq!(
        config.provider.custom_provider.as_deref(),
        Some("fake_custom")
    );
}

#[test]
fn profiles_of_another_kind_replace_the_provider() {
    let mut own = AppConfig::default();
    own.model_provider = Some("fake_claude".to_string());
    let mut fake = ModelProviderConfig::default();
    fake.kind = Some("keyed".to_string());
    fake.model = Some("fake-model".to_string());
    fake.base_url = Some("https://fake-provider.example/api/anthropic".to_string());
    fake.api_key = Some("fake-api-key".to_string());
    fake.max_tokens = Some(4096);
    own.model_providers.insert("fake_claude".to_string(), fake);

    let config = merge_config(own, AppConfig::default());
    assert_eq!(config.provider.kind, "keyed");
    assert_eq!(config.provider.model.as_deref(), Some("fake-model"));
    assert_eq!(
        config.provider.base_url.as_deref(),
        Some("https://fake-provider.example/api/anthropic")
    );
    assert_eq!(config.provider.api_key.as_deref(), Some("fake-api-key"));
    assert_eq!(config.provider.max_tokens, Some(4096));
}

#[test]
fn work_dir_defaults_to_home() {
    let home = "/tmp/llm-loop-home-default";
    let paths = AppPaths::from_home(home);

    assert_eq!(paths.work_dir, home);
    assert_eq!(
        paths.channel_data_dir,
        "/tmp/llm-loop-home-default/.llm-loop/channel"
    );
    assert_eq!(
        paths.channel_store_dir,
        "/tmp/llm-loop-home-default/.llm-loop/channel/store"
    );
    assert_eq!(
        paths.skills_dir,
        "/tmp/llm-loop-home-default/.llm-loop/skills"
    );
    assert_eq!(paths.mems_dir, "/tmp/llm-loop-home-default/.llm-loop/mems");
    assert_eq!(
        paths.crons_dir,
        "/tmp/llm-loop-home-default/.llm-loop/crons"
    );
}

#[test]
fn work_dir_can_be_configured() {
    let paths = AppPaths::from_home("/tmp/llm-loop-home-configured")
        .with_work_dir(Some("/tmp/llm-loop-work"), None);

    assert_eq!(paths.work_dir, "/tmp/llm-loop-work");
}

#[test]
fn tildes_stand_for_the_home_directory() {
    assert_eq!(
        resolve_configured_work_dir(" ~/w ", Some("/h")).as_deref(),
        Some("/h/w")
    );
    assert_eq!(resolve_configured_work_dir("~", Some("/h")).as_deref(), Some("/h"));
    assert_eq!(resolve_configured_work_dir("~", None), None);
    assert_eq!(resolve_configured_work_dir("  ", Some("/h")), None);
}

fn facts() -> SetupFacts {
    SetupFacts {
        config: true,
        work_dir: true,
        app_dir: true,
        sessions: false,
        channel: true,
        skills: true,
        mems: true,
        crons: true,
        auth: true,
        env: vec!["TELEGRAM_BOT_TOKEN".to_string()],
    }
}

fn keyed() -> KeyedProvider {
    KeyedProvider {
        kind: "keyed".to_string(),
        title: "Keyed".to_string(),
    }
}

fn find<'a>(checks: &'a [Check], name: &str) -> &'a Check {
    checks.iter().find(|check| check.name == name).unwrap()
}

#[test]
fn doctor_checks_the_setup() {
    let paths = AppPaths::from_home("/h");
    let mut config = AppConfig::default();
    config.provider.model = Some("m".to_string());
    let checks = run_checks(&keyed(), &config, &paths, &facts());
    assert_eq!(find(&checks, "sessions").level, CheckLevel::Warn);
    assert_eq!(find(&checks, "codex.auth").level, CheckLevel::Passed);
    assert_eq!(find(&checks, "channels").level, CheckLevel::Warn);
    assert!(doctor_result(&checks).is_ok());
    assert_eq!(
        check_line(find(&checks, "config")),
        "  ok  config                       config path: /h/.llm-loop/config.toml"
    );

    let channel = |kind: &str| {
        let mut channel = ChannelConfig::default();
        channel.name = kind.to_string();
        channel.kind = kind.to_string();
        assert!(!channel.enabled);
        channel.enabled = true;
        channel
    };
    config.channels = vec![channel("telegram"), channel("qq"), channel("ws")];
    config.provider.kind = "keyed".to_string();
    let checks = run_checks(&keyed(), &config, &paths, &facts());
    assert_eq!(find(&checks, "channel.telegram.bot_token").level, CheckLevel::Passed);
    assert_eq!(find(&checks, "channel.qq.app_secret").level, CheckLevel::Fail);
    assert_eq!(
        find(&checks, "channel.ws").message,
        "unsupported channel kind: ws"
    );
    assert_eq!(
        find(&checks, "keyed.api-key").message,
        "Keyed API key configured"
    );
    assert_eq!(
        doctor_result(&checks).unwrap_err().to_text(),
        "cli error: doctor found failed checks"
    );
}

#[test]
fn doctor_asks_for_the_key_of_the_named_provider() {
    let paths = AppPaths::from_home("/h");
    let mut config = AppConfig::default();
    assert_eq!(named_provider(&config.provider).kind, "");
    config.provider.kind = "moon".to_string();
    let named = named_provider(&config.provider);
    assert_eq!(named.title, "Moon");
    let checks = run_checks(&named, &config, &paths, &facts());
    assert_eq!(find(&checks, "moon.api-key").level, CheckLevel::Fail);
    assert_eq!(find(&checks, "moon.max-tokens").level, CheckLevel::Fail);
    config.provider.api_key = Some("k".to_string());
    config.provider.max_tokens = Some(4096);
    let checks = run_checks(&named, &config, &paths, &facts());
    assert_eq!(find(&checks, "moon.api-key").level, CheckLevel::Passed);
    assert_eq!(
        find(&checks, "moon.max-tokens").message,
        "Moon max-tokens configured"
    );
}

#[test]
fn doctor_looks_for_the_profile() {
    let paths = AppPaths::from_home("/h");
    let mut config = AppConfig::default();
    config.provider.custom_provider = Some("p".to_string());
    let checks = run_checks(&keyed(), &config, &paths, &facts());
    assert_eq!(
        find(&checks, "provider.custom_provider").message,
        "profile `p` is missing"
    );
    config
        .model_providers
        .insert("p".to_string(), ModelProviderConfig::default());
    let checks = run_checks(&keyed(), &config, &paths, &facts());
    assert_eq!(find(&checks, "provider.base_url").level, CheckLevel::Fail);
    assert_eq!(find(&checks, "provider.env_key").level, CheckLevel::Warn);
    config.provider.kind = "moon".to_string();
    let checks = run_checks(&keyed(), &config, &paths, &facts());
    assert_eq!(
        find(&checks, "provider.kind").message,
        "unsupported provider kind: moon"
    );
    config.provider.kind = String::new();
    let unnamed = KeyedProvider {
        kind: String::new(),
        title: String::new(),
    };
    let checks = run_checks(&unnamed, &config, &paths, &facts());
    assert_eq!(find(&checks, "provider.kind").level, CheckLevel::Fail);
}

#[test]
fn log_lines_carry_time_and_level() {
    assert_eq!(log_line("t", "INFO", "m"), "t INFO m\n");
    let line = info("started");
    assert!(line.ends_with(" INFO started\n"));
    assert_eq!(line.chars().nth(10), Some('T'));
    assert!(error("broken").ends_with(" ERROR broken\n"));
    let config = LogConfig {
        path: Some("~/x.log".to_string()),
        max_size: 10,
    };
    assert_eq!(log_path(&config, Some("/h")), "/h/x.log");
    assert_eq!(log_path(&config, None), "/tmp/llm-loop.log");
    assert!(should_truncate(Some(10), 10));
    assert!(!should_truncate(Some(9), 10));
    assert!(!should_truncate(Some(9), 0));
    assert!(!should_truncate(None, 1));
}

#[test]
fn plans_are_kept_by_hash() {
    assert_eq!(plan_path("/p", "abc"), "/p/abc.json");
    assert_eq!(plan_temp_path("/p", "abc"), "/p/abc.json.tmp");
}
