//! Files, identifiers, validity periods and settings of the relay.

use std::time::Duration;

use glacialcast::files::{
    check_bounded_file, plan_config, prepare_native_root, quarantine_name,
    validate_existing_database, ConfigPlan, FileError, FileFacts, RootPlan,
};
use glacialcast::ids::{
    check_schema_version, decode_uuid, from_sql_u64, to_sql_u64, uuid_bytes, uuid_text,
    SqlValueError,
};
use glacialcast::pki::{duration_ms, expiry, ValidityError, DAY_MS};
use glacialcast::runtime::{
    default_publisher_addr, default_viewer_addr, resolve_settings, AccessReload, LimitConfig,
    ReloadReport, RetentionConfig, RuntimeError,
};
use glacialcast::text::encode_hex;

const FILE: FileFacts = FileFacts {
    is_symlink: false,
    is_file: true,
    is_dir: false,
    length: 100,
    mode: 0o100600,
    links: 1,
};

const DIRECTORY: FileFacts = FileFacts {
    is_symlink: false,
    is_file: false,
    is_dir: true,
    length: 4_096,
    mode: 0o040700,
    links: 2,
};

#[test]
fn recognized_v1_store_is_renamed_without_deletion() {
    assert_eq!(
        prepare_native_root(&Some(DIRECTORY), true, false, false),
        Ok(RootPlan::Quarantine)
    );
    assert_eq!(
        quarantine_name("store", 17, 0x0123_4567_89ab_cdef_0123_4567_89ab_cdef),
        "store.v1-quarantine-17-01234567-89ab-cdef-0123-456789abcdef"
    );
    assert_eq!(prepare_native_root(&Some(DIRECTORY), true, true, false), Ok(RootPlan::Open));
    assert_eq!(prepare_native_root(&Some(DIRECTORY), false, false, false), Ok(RootPlan::Open));
    assert_eq!(prepare_native_root(&None, false, false, true), Ok(RootPlan::Open));
    assert_eq!(
        prepare_native_root(&Some(FILE), false, false, true),
        Err(FileError::RootNotDirectory)
    );
    let linked = FileFacts { is_symlink: true, ..DIRECTORY };
    assert_eq!(
        prepare_native_root(&Some(linked), true, false, false),
        Err(FileError::RootNotDirectory)
    );
}

#[test]
fn database_symlinks_and_public_permissions_fail_closed() {
    let symlink = FileFacts { is_symlink: true, is_file: false, mode: 0o120777, ..FILE };
    assert_eq!(validate_existing_database(&Some(symlink)), Err(FileError::DatabaseNotRegular));
    let public = FileFacts { mode: 0o100644, ..FILE };
    assert_eq!(validate_existing_database(&Some(public)), Err(FileError::NotPrivate));
    let twice = FileFacts { links: 2, ..FILE };
    assert_eq!(validate_existing_database(&Some(twice)), Err(FileError::DatabaseNotRegular));
    assert_eq!(validate_existing_database(&Some(FILE)), Ok(()));
    assert_eq!(validate_existing_database(&None), Ok(()));
}

#[test]
fn material_is_bounded_and_private_where_it_has_to_be() {
    assert_eq!(check_bounded_file(&FILE, 100, true), Ok(()));
    assert_eq!(check_bounded_file(&FILE, 99, true), Err(FileError::NotBoundedFile));
    assert_eq!(check_bounded_file(&DIRECTORY, 9_999, false), Err(FileError::NotBoundedFile));
    let public = FileFacts { mode: 0o100604, ..FILE };
    assert_eq!(check_bounded_file(&public, 100, true), Err(FileError::NotPrivate));
    assert_eq!(check_bounded_file(&public, 100, false), Ok(()));
    assert_eq!(plan_config(false, false, false), Ok(ConfigPlan::Defaults));
    assert_eq!(plan_config(true, false, false), Ok(ConfigPlan::Defaults));
    assert_eq!(plan_config(true, true, false), Err(FileError::ConfigMissing));
    assert_eq!(plan_config(true, true, true), Ok(ConfigPlan::Read));
}

#[test]
fn validity_days_reject_zero_and_convert_without_overflow() {
    assert!(duration_ms(0).is_err());
    assert_eq!(duration_ms(1).unwrap(), DAY_MS);
    assert_eq!(duration_ms(u32::MAX), Ok(i64::from(u32::MAX) * 86_400_000));
    assert_eq!(expiry(5, 2), Ok(172_800_005));
    assert_eq!(expiry(5, 0), Err(ValidityError::NotPositive));
    assert_eq!(expiry(i64::MAX - 1, 1), Err(ValidityError::ExpiryOverflows));
}

#[test]
fn numbers_and_identifiers_fit_their_rows() {
    assert_eq!(to_sql_u64(7), Ok(7));
    assert_eq!(to_sql_u64(u64::MAX), Err(SqlValueError::BeyondDurableBound));
    assert_eq!(from_sql_u64(i64::MAX), Ok(0x7fff_ffff_ffff_ffff));
    assert_eq!(from_sql_u64(-1), Err(SqlValueError::NegativeInState));
    assert_eq!(check_schema_version(0, 2), Ok(()));
    assert_eq!(check_schema_version(2, 2), Ok(()));
    assert_eq!(
        check_schema_version(1, 2),
        Err(SqlValueError::UnsupportedVersion { version: 1 })
    );
    let id: u128 = 0x0123_4567_89ab_cdef_0011_2233_4455_6677;
    assert_eq!(uuid_bytes(id), id.to_be_bytes());
    assert_eq!(decode_uuid(&uuid_bytes(id)), Ok(id));
    assert_eq!(decode_uuid(&[0; 15]), Err(SqlValueError::IdentifierLength { length: 15 }));
    assert_eq!(uuid_text(id), "01234567-89ab-cdef-0011-223344556677");
}

#[test]
fn defaults_are_public_and_bounded_to_one_day_or_one_hundred_mibibytes() {
    let retention = RetentionConfig::default();
    assert_eq!(retention.bytes_per_stream, Some(100 * 1024 * 1024));
    assert_eq!(retention.seconds_per_stream, Some(86_400));
    let settings = resolve_settings(None, None, &retention, &LimitConfig::default()).unwrap();
    assert_eq!(settings.retention_bytes, Some(104_857_600));
    assert_eq!(settings.retention_age, Some(Duration::from_secs(86_400)));
    assert_eq!(settings.service.max_connections, 256);
    assert_eq!(default_viewer_addr(), "0.0.0.0:8899");
    assert_eq!(default_publisher_addr(), "0.0.0.0:8900");
}

#[test]
fn unknown_config_and_zero_retention_are_rejected() {
    let retention = RetentionConfig::default();
    let limits = LimitConfig::default();
    assert_eq!(
        resolve_settings(Some(0), None, &retention, &limits).err(),
        Some(RuntimeError::RetentionNotPositive)
    );
    assert_eq!(
        resolve_settings(None, Some(0), &retention, &limits).err(),
        Some(RuntimeError::RetentionNotPositive)
    );
    let none = LimitConfig { max_connections: 0, ..LimitConfig::default() };
    assert_eq!(
        resolve_settings(None, None, &retention, &none).err(),
        Some(RuntimeError::LimitsInvalid)
    );
    let patient = LimitConfig { idle_seconds: 3_601, ..LimitConfig::default() };
    assert_eq!(
        resolve_settings(None, None, &retention, &patient).err(),
        Some(RuntimeError::LimitsInvalid)
    );
    let settings = resolve_settings(Some(5), Some(6), &retention, &limits).unwrap();
    assert_eq!(settings.retention_bytes, Some(5));
    assert_eq!(settings.retention_age, Some(Duration::from_secs(6)));
}

#[test]
fn bytes_are_shown_in_hexadecimal() {
    assert_eq!(encode_hex(&[0x00, 0x9f, 0xa0, 0xff]), "009fa0ff");
    assert_eq!(encode_hex(&[]), "");
}

#[test]
fn revocation_lists_are_reloaded_when_they_change() {
    let mut reload = AccessReload::new();
    assert!(reload.is_news(&vec![1]));
    assert_eq!(reload.take(Ok(vec![1])), ReloadReport::Reloaded);
    assert!(!reload.is_news(&vec![1]));
    assert_eq!(reload.take(Ok(vec![1])), ReloadReport::Unchanged);
    assert_eq!(reload.take(Err("gone".to_string())), ReloadReport::Failed);
    assert_ne!(reload.take(Err("gone".to_string())), ReloadReport::Failed);
    assert_eq!(reload.take(Err("damaged".to_string())), ReloadReport::Failed);
    assert_eq!(reload.last_bytes, Some(vec![1]));
    assert_eq!(reload.take(Ok(vec![2])), ReloadReport::Reloaded);
}
