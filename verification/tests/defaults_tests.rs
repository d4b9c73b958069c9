use display_presets::{resolve_config_file_path, ConfigPathError};

#[test]
fn test_default_timeout() {
    assert_eq!(10, display_presets::default_timeout())
}

#[test]
fn when_xdg_config_home_is_set() {
    assert_eq!(
        Ok("/home/user/.config/display-presets.json".to_string()),
        resolve_config_file_path(
            Some("/home/user/.config".to_string()),
            Some("/home/user".to_string())
        )
    );
}

#[test]
fn when_xdg_config_home_is_not_set() {
    assert_eq!(
        Ok("/home/user/.config/display-presets.json".to_string()),
        resolve_config_file_path(None, Some("/home/user".to_string()))
    );
}

#[test]
fn when_no_config_directory_is_known() {
    assert_eq!(
        Err(ConfigPathError::NoConfigDir),
        resolve_config_file_path(None, None)
    );
}
