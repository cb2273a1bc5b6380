use webpipe::ast::{Config, ConfigProperty, ConfigValue};
use webpipe::config::ConfigManager;
use webpipe::error::WebPipeError;

fn sample_configs() -> Vec<Config> {
    vec![Config {
        name: "app".to_string(),
        properties: vec![
            ConfigProperty { key: "host".to_string(), value: ConfigValue::String("localhost".to_string()) },
            ConfigProperty { key: "enabled".to_string(), value: ConfigValue::Boolean(true) },
            ConfigProperty { key: "port".to_string(), value: ConfigValue::Number(8080) },
            ConfigProperty {
                key: "apiKey".to_string(),
                value: ConfigValue::EnvVar { var: "MISSING_ENV".to_string(), default: Some("fallback".to_string()) },
            },
        ],
    }]
}

fn sample_manager() -> ConfigManager {
    ConfigManager::new(sample_configs())
}

#[test]
fn resolve_values_and_getters() {
    let cm = sample_manager();
    assert_eq!(cm.get_string_value("app", "host").unwrap(), "localhost");
    assert_eq!(cm.get_bool_value("app", "enabled").unwrap(), true);
    assert_eq!(cm.get_number_value("app", "port").unwrap(), 8080);

    let as_json = cm.resolve_config_as_json("app").unwrap();
    assert_eq!(as_json.get("apiKey").unwrap().as_str().unwrap(), "fallback");
}

#[test]
fn env_without_default_errors_and_missing_config_errors() {
    let cm = sample_manager();
    let err = cm
        .resolve_config_value(&ConfigValue::EnvVar { var: "NO_SUCH_ENV".to_string(), default: None })
        .unwrap_err();
    match err {
        WebPipeError::ConfigError(_) => {}
        other => panic!("unexpected error: {}", other.to_string()),
    }

    let err2 = cm.resolve_config_as_json("nope").unwrap_err();
    match err2 {
        WebPipeError::ConfigError(_) => {}
        other => panic!("unexpected error: {}", other.to_string()),
    }
}

#[test]
fn environment_snapshot_wins_over_default() {
    let cm = ConfigManager::with_env(sample_configs(), vec![("MISSING_ENV".to_string(), "from-env".to_string())]);
    assert_eq!(cm.get_string_value("app", "apiKey").unwrap(), "from-env");
}

#[test]
fn error_messages_name_what_is_missing() {
    let cm = sample_manager();
    assert_eq!(
        cm.resolve_config_as_json("nope").unwrap_err().to_string(),
        "Configuration error: Config 'nope' not found"
    );
    assert_eq!(
        cm.get_string_value("app", "port").unwrap_err().to_string(),
        "Configuration error: String value 'port' not found in config 'app'"
    );
    assert_eq!(
        cm.get_bool_value("app", "host").unwrap_err().to_string(),
        "Configuration error: Boolean value 'host' not found in config 'app'"
    );
    assert_eq!(
        cm.get_number_value("app", "nothing").unwrap_err().to_string(),
        "Configuration error: Number value 'nothing' not found in config 'app'"
    );
    let err = cm
        .resolve_config_value(&ConfigValue::EnvVar { var: "NO_SUCH_ENV".to_string(), default: None })
        .unwrap_err();
    assert_eq!(
        err.to_string(),
        "Configuration error: Environment variable NO_SUCH_ENV not found and no default provided"
    );
}

#[test]
fn later_config_and_later_property_win() {
    let mut cs = sample_configs();
    cs.push(Config {
        name: "app".to_string(),
        properties: vec![
            ConfigProperty { key: "host".to_string(), value: ConfigValue::String("a".to_string()) },
            ConfigProperty { key: "host".to_string(), value: ConfigValue::String("b".to_string()) },
        ],
    });
    let cm = ConfigManager::new(cs);
    assert_eq!(cm.get_string_value("app", "host").unwrap(), "b");
    assert!(cm.get_bool_value("app", "enabled").is_err());
    assert_eq!(cm.get_config("app").unwrap().properties.len(), 2);
    assert!(cm.get_config("other").is_none());
}
