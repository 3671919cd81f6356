use tabulite::config::{default_config_path, default_theme, load_config, AppConfig, ConfigFile};

#[test]
fn test_load_config_missing_file() {
    let config = load_config(None);
    assert_eq!(config.theme, "Default Light");
}

#[test]
fn config_file_theme_is_used() {
    let config = load_config(Some(ConfigFile { theme: Some("light".to_string()) }));
    assert_eq!(config.theme, "light");
}

#[test]
fn config_file_without_theme_uses_default() {
    let config = load_config(Some(ConfigFile { theme: None }));
    assert_eq!(config.theme, "Default Light");
}

#[test]
fn default_config_has_default_theme() {
    assert_eq!(default_theme(), "Default Light");
    assert_eq!(AppConfig::default().theme, "Default Light");
}

#[test]
fn test_xdg_config_home_respected() {
    let path = default_config_path(Some("/tmp/test_xdg_config".to_string()), Some("/home/u/.config".to_string()));
    assert!(path.is_some());
    let path = path.unwrap();
    assert!(path.contains("test_xdg_config"));
    assert!(path.ends_with("tabulite/config.toml"));
}

#[test]
fn test_xdg_config_home_empty_ignored() {
    let path = default_config_path(Some(String::new()), Some("/home/u/.config".to_string()));
    assert!(path.is_some());
}

#[test]
fn xdg_config_home_gives_the_full_path() {
    let path = default_config_path(Some("/tmp/test_xdg_config".to_string()), Some("/home/u/.config".to_string()));
    assert_eq!(path.unwrap(), "/tmp/test_xdg_config/tabulite/config.toml");
    let path = default_config_path(Some("/tmp/x/".to_string()), None);
    assert_eq!(path.unwrap(), "/tmp/x/tabulite/config.toml");
}

#[test]
fn empty_xdg_config_home_is_ignored() {
    let path = default_config_path(Some(String::new()), Some("/home/u/.config".to_string()));
    assert_eq!(path.unwrap(), "/home/u/.config/tabulite/config.toml");
    assert!(default_config_path(Some(String::new()), None).is_none());
    assert!(default_config_path(None, None).is_none());
}
