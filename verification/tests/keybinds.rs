use syncread::keybinds::KeybindProfile;

#[test]
fn test_keybind_profile_creation() {
    let profile = KeybindProfile::new_sync_profile();
    let config = profile.generate_config();

    assert!(config.contains("SPACE"));
    assert!(config.contains("cycle pause"));
    assert!(config.contains("playlist-next"));
}

#[test]
fn test_add_custom_keybind() {
    let mut profile = KeybindProfile::new_sync_profile();
    profile.add_keybind("x".to_string(), "show-text hello".to_string());

    let config = profile.generate_config();
    assert!(config.contains("x"));
    assert!(config.contains("show-text hello"));
}

#[test]
fn test_remove_keybind() {
    let mut profile = KeybindProfile::new_sync_profile();
    profile.remove_keybind("q");
    let config = profile.generate_config();
    assert!(!config.contains("\nq "));
    assert!(config.contains("cycle pause"));
}

#[test]
fn test_config_header_lines() {
    let profile = KeybindProfile::new_sync_profile();
    let config = profile.generate_config();
    assert!(config.starts_with(
        "# SyncRead MPV Keybind Profile\n# Generated automatically - do not edit manually\n\n"
    ));
}

#[test]
fn test_config_line_padding() {
    let mut profile = KeybindProfile::new_sync_profile();
    profile.add_keybind("y".to_string(), "quit".to_string());
    let config = profile.generate_config();
    // A one-character key is padded to twenty columns before the command.
    assert!(config.contains("y                    quit\n"));
}
