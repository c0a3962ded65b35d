use touchgrass::config::{
    get_storage, remove_storage, set_storage, update_storage, BackendFault, Config, EmptyStruct,
    Storage, StorageError, StorageSerdeWrapper,
};
use touchgrass::store::MemoryBackend;

fn sample() -> Storage {
    Storage {
        user_config: Config { block_time_start: 480, block_time_end: 1020, active_days: 3 },
        total_usage: 42,
    }
}

#[test]
fn set_then_get_returns_the_record() {
    let mut backend = MemoryBackend::new();
    assert_eq!(backend.set(sample()), Ok(()));
    assert_eq!(backend.get(), Ok(sample()));
}

#[test]
fn set_then_get_extreme_values() {
    let values = [
        Storage::default(),
        Storage {
            user_config: Config {
                block_time_start: u32::MAX,
                block_time_end: 1439,
                active_days: 255,
            },
            total_usage: u32::MAX,
        },
        Storage {
            user_config: Config { block_time_start: 1320, block_time_end: 360, active_days: 0 },
            total_usage: 10,
        },
    ];
    for s in values {
        let mut backend = MemoryBackend::new();
        assert_eq!(backend.set(s), Ok(()));
        assert_eq!(backend.get(), Ok(s));
    }
}

#[test]
fn set_replaces_earlier_record() {
    let mut backend = MemoryBackend::new();
    assert_eq!(backend.set(Storage::default()), Ok(()));
    assert_eq!(backend.set(sample()), Ok(()));
    assert_eq!(backend.get(), Ok(sample()));
}

#[test]
fn fresh_backend_reads_empty_not_default() {
    let backend = MemoryBackend::new();
    assert_eq!(backend.get(), Err(StorageError::EmptyStorage));
}

#[test]
fn all_zero_record_is_not_empty() {
    let mut backend = MemoryBackend::new();
    assert_eq!(backend.set(Storage::default()), Ok(()));
    assert_eq!(backend.get(), Ok(Storage::default()));
}

#[test]
fn update_on_empty_starts_from_default() {
    let mut backend = MemoryBackend::new();
    let updated = backend.update(|s: Storage| s.add_minute());
    let expected = Storage { user_config: Config::default(), total_usage: 1 };
    assert_eq!(updated, Ok(expected));
    assert_eq!(backend.get(), Ok(expected));
}

#[test]
fn update_applies_to_stored_record() {
    let mut backend = MemoryBackend::new();
    assert_eq!(backend.set(sample()), Ok(()));
    let config = Config { block_time_start: 1, block_time_end: 2, active_days: 64 };
    let updated = backend.update(move |s: Storage| s.with_config(config));
    let expected = Storage { user_config: config, total_usage: 42 };
    assert_eq!(updated, Ok(expected));
    assert_eq!(backend.get(), Ok(expected));
}

#[test]
fn update_on_corrupted_slot_fails_and_keeps_bytes() {
    let mut backend = MemoryBackend::new();
    assert_eq!(backend.write(b"not a record".to_vec()), Ok(()));
    assert_eq!(backend.update(|s: Storage| s.add_minute()), Err(StorageError::CorruptedConfig));
    assert_eq!(backend.read(), Ok(b"not a record".to_vec()));
}

#[test]
fn remove_on_empty_is_ok() {
    let mut backend = MemoryBackend::new();
    assert_eq!(backend.remove(), Ok(()));
    assert_eq!(backend.get(), Err(StorageError::EmptyStorage));
}

#[test]
fn remove_then_get_is_empty() {
    let mut backend = MemoryBackend::new();
    assert_eq!(backend.set(sample()), Ok(()));
    assert_eq!(backend.remove(), Ok(()));
    assert_eq!(backend.get(), Err(StorageError::EmptyStorage));
}

#[test]
fn unparsable_bytes_are_corrupted() {
    let mut backend = MemoryBackend::new();
    assert_eq!(backend.write(vec![0xff, 0x00, 0x7b]), Ok(()));
    assert_eq!(backend.get(), Err(StorageError::CorruptedConfig));
}

#[test]
fn near_miss_records_are_corrupted() {
    let cases: [&[u8]; 6] = [
        b"{\"config\":{\"user_config\":{\"block_time_start\":0480,\"block_time_end\":1020,\"active_days\":3},\"total_usage\":0}}",
        b"{\"config\":{\"user_config\":{\"block_time_start\":480,\"block_time_end\":1020,\"active_days\":256},\"total_usage\":0}}",
        b"{\"config\":{\"user_config\":{\"block_time_start\":4294967296,\"block_time_end\":1020,\"active_days\":3},\"total_usage\":0}}",
        b"{\"config\":{\"user_config\":{\"block_time_start\":480,\"block_time_end\":1020,\"active_days\":3},\"total_usage\":0}}x",
        b"{\"config\":{\"user_config\":{\"block_time_start\":,\"block_time_end\":1020,\"active_days\":3},\"total_usage\":0}}",
        b"",
    ];
    for case in cases {
        assert_eq!(get_storage(Ok(case.to_vec())), Err(StorageError::CorruptedConfig));
    }
}

#[test]
fn failing_backend_reports_fault() {
    let mut denied = MemoryBackend::failing(BackendFault::Denied);
    assert_eq!(denied.get(), Err(StorageError::WontAllowStorage));
    assert_eq!(denied.set(sample()), Err(StorageError::WontAllowStorage));
    assert_eq!(denied.remove(), Err(StorageError::WontAllowStorage));
    assert_eq!(denied.update(|s: Storage| s.add_minute()), Err(StorageError::WontAllowStorage));
    let missing = MemoryBackend::failing(BackendFault::Unavailable);
    assert_eq!(missing.get(), Err(StorageError::StorageNotFound));
}

#[test]
fn record_bytes_are_exact() {
    let bytes = set_storage(&sample());
    assert_eq!(
        String::from_utf8(bytes).unwrap(),
        "{\"config\":{\"user_config\":{\"block_time_start\":480,\"block_time_end\":1020,\"active_days\":3},\"total_usage\":42}}"
    );
    let empty = StorageSerdeWrapper::EmptyStorage(EmptyStruct {}).to_bytes();
    assert_eq!(empty, b"{}".to_vec());
}

#[test]
fn wrapper_decodes_both_cases() {
    assert_eq!(
        StorageSerdeWrapper::from_bytes(b"{}"),
        Ok(StorageSerdeWrapper::EmptyStorage(EmptyStruct {}))
    );
    let bytes = set_storage(&sample());
    assert_eq!(
        StorageSerdeWrapper::from_bytes(&bytes),
        Ok(StorageSerdeWrapper::Storage(sample()))
    );
    assert_eq!(StorageSerdeWrapper::from_bytes(b"{ }"), Err(StorageError::CorruptedConfig));
}

#[test]
fn wrapper_into_storage() {
    assert_eq!(Storage::try_from(StorageSerdeWrapper::Storage(sample())), Ok(sample()));
    assert_eq!(
        Storage::try_from(StorageSerdeWrapper::EmptyStorage(EmptyStruct {})),
        Err(StorageError::EmptyStorage)
    );
}

#[test]
fn get_storage_interprets_reads() {
    assert_eq!(get_storage(Ok(b"{}".to_vec())), Err(StorageError::EmptyStorage));
    assert_eq!(get_storage(Ok(set_storage(&sample()))), Ok(sample()));
    assert_eq!(get_storage(Err(BackendFault::Denied)), Err(StorageError::WontAllowStorage));
    assert_eq!(get_storage(Err(BackendFault::Unavailable)), Err(StorageError::StorageNotFound));
}

#[test]
fn remove_storage_maps_outcomes() {
    assert_eq!(remove_storage(Ok(())), Ok(()));
    assert_eq!(remove_storage(Err(BackendFault::Denied)), Err(StorageError::WontAllowStorage));
    assert_eq!(remove_storage(Err(BackendFault::Unavailable)), Err(StorageError::StorageNotFound));
}

#[test]
fn update_storage_plans_write() {
    let planned = update_storage(Ok(b"{}".to_vec()), |s: Storage| s.add_minute());
    let expected = Storage { user_config: Config::default(), total_usage: 1 };
    assert_eq!(planned, Ok((expected, set_storage(&expected))));
    let corrupted = update_storage(Ok(b"{".to_vec()), |s: Storage| s.add_minute());
    assert_eq!(corrupted, Err(StorageError::CorruptedConfig));
    let denied = update_storage(Err(BackendFault::Denied), |s: Storage| s.add_minute());
    assert_eq!(denied, Err(StorageError::WontAllowStorage));
}

#[test]
fn config_get_and_flush() {
    let stored = set_storage(&sample());
    assert_eq!(Config::get_config(Ok(stored.clone())), Ok(sample().user_config));
    assert_eq!(Config::get_config(Ok(b"{}".to_vec())), Err(StorageError::EmptyStorage));
    let config = Config { block_time_start: 60, block_time_end: 120, active_days: 127 };
    let expected = Storage { user_config: config, total_usage: 42 };
    assert_eq!(config.flush_config(Ok(stored)), Ok((expected, set_storage(&expected))));
    let fresh = Storage { user_config: config, total_usage: 0 };
    assert_eq!(config.flush_config(Ok(b"{}".to_vec())), Ok((fresh, set_storage(&fresh))));
}

#[test]
fn add_minute_counts_and_saturates() {
    assert_eq!(sample().add_minute().total_usage, 43);
    assert_eq!(sample().add_minute().user_config, sample().user_config);
    let full = Storage { user_config: Config::default(), total_usage: u32::MAX };
    assert_eq!(full.add_minute().total_usage, u32::MAX);
}

#[test]
fn storage_error_messages() {
    assert_eq!(
        StorageError::WontAllowStorage.to_string(),
        "StorageError: The user has not allowed storage\n"
    );
    assert_eq!(StorageError::EmptyStorage.to_string(), "StorageError: The storage is empty\n");
    assert_eq!(
        StorageError::StorageNotFound.to_string(),
        "StorageError: The window context/storage context was not found\n"
    );
    assert_eq!(StorageError::CorruptedConfig.to_string(), "StorageError: The config is corrupted\n");
}
