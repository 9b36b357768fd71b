use std::path::PathBuf;

use zankyou::config_manager::ConfigManager;

#[test]
fn config_manager_hands_out_value_once() {
    let mut manager = ConfigManager::from_value(5u32);
    assert_eq!(manager.take_config(), Some(5));
    assert_eq!(manager.take_config(), None);
}

#[test]
fn config_manager_from_file_path_holds_path() {
    let mut manager: ConfigManager<u32> = ConfigManager::from_file_path("config.toml");
    assert_eq!(manager.take_config(), None);
    assert_eq!(manager.file_path(), Some(&PathBuf::from("config.toml")));
    let manager = ConfigManager::from_value(1u8);
    assert_eq!(manager.file_path(), None);
}
