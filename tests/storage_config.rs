use touchgrass::config::BackendFault;
use touchgrass::storage::config::{get_configs, remove_configs, set_configs, Config, ConfigError};

#[test]
fn configs_text_round_trip() {
    let c = Config { block_time_start: 480, block_time_end: 1020 };
    let text = set_configs(&c);
    assert_eq!(text, b"{\"block_time_start\":480,\"block_time_end\":1020}".to_vec());
    assert_eq!(get_configs(Ok(Some(text))), Ok(c));
}

#[test]
fn configs_missing_item_is_empty() {
    assert_eq!(get_configs(Ok(None)), Err(ConfigError::EmptyStorage));
}

#[test]
fn configs_bad_text_is_corrupted() {
    assert_eq!(get_configs(Ok(Some(b"{}".to_vec()))), Err(ConfigError::CorruptedConfig));
    assert_eq!(
        get_configs(Ok(Some(b"{\"block_time_start\":1,\"block_time_end\":02}".to_vec()))),
        Err(ConfigError::CorruptedConfig)
    );
}

#[test]
fn configs_faults() {
    assert_eq!(get_configs(Err(BackendFault::Denied)), Err(ConfigError::WontAllowStorage));
    assert_eq!(get_configs(Err(BackendFault::Unavailable)), Err(ConfigError::StorageNotFound));
    assert_eq!(remove_configs(Ok(())), Ok(()));
    assert_eq!(remove_configs(Err(BackendFault::Denied)), Err(ConfigError::WontAllowStorage));
    assert_eq!(remove_configs(Err(BackendFault::Unavailable)), Err(ConfigError::StorageNotFound));
}

#[test]
fn config_error_messages() {
    assert_eq!(ConfigError::EmptyStorage.to_string(), "StorageError: The storage is empty\n");
    assert_eq!(ConfigError::CorruptedConfig.to_string(), "StorageError: The config is corrupted\n");
}
