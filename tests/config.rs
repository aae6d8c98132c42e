use zbackend_fs::backend::{root_dir, FileSystemBackend};
use zbackend_fs::config::{contains_parent_dir, extract_bool, join, storage_settings, BoolOption, ConfigError, ConfigValue};
use zbackend_fs::files::OnClosure;

fn cfg(entries: Vec<(&str, ConfigValue)>) -> Vec<(Vec<u8>, ConfigValue)> {
    entries.into_iter().map(|(k, v)| (k.as_bytes().to_vec(), v)).collect()
}

fn s(v: &str) -> ConfigValue {
    ConfigValue::Str(v.as_bytes().to_vec())
}

#[test]
fn settings_with_defaults() {
    let c = cfg(vec![("dir", s("store"))]);
    let st = storage_settings(b"/root", Some(&c)).unwrap();
    assert!(!st.read_only);
    assert!(!st.follow_links);
    assert!(st.keep_mime);
    assert_eq!(st.on_closure, OnClosure::DoNothing);
    assert_eq!(st.base_dir, b"/root/store".to_vec());
}

#[test]
fn settings_with_every_option() {
    let c = cfg(vec![
        ("read_only", ConfigValue::Bool(true)),
        ("follow_links", ConfigValue::Bool(true)),
        ("keep_mime_types", ConfigValue::Bool(false)),
        ("on_closure", s("delete_all")),
        ("dir", s("a/b")),
    ]);
    let st = storage_settings(b"/root/", Some(&c)).unwrap();
    assert!(st.read_only);
    assert!(st.follow_links);
    assert!(!st.keep_mime);
    assert_eq!(st.on_closure, OnClosure::DeleteAll);
    assert_eq!(st.base_dir, b"/root/a/b".to_vec());
}

#[test]
fn each_configuration_error() {
    assert_eq!(storage_settings(b"/r", None).unwrap_err(), ConfigError::NotAnObject);
    let c = cfg(vec![("read_only", s("yes")), ("dir", s("d"))]);
    assert_eq!(storage_settings(b"/r", Some(&c)).unwrap_err(), ConfigError::NotABoolean(BoolOption::ReadOnly));
    let c = cfg(vec![("follow_links", ConfigValue::Other), ("dir", s("d"))]);
    assert_eq!(storage_settings(b"/r", Some(&c)).unwrap_err(), ConfigError::NotABoolean(BoolOption::FollowLinks));
    let c = cfg(vec![("keep_mime_types", s("no")), ("dir", s("d"))]);
    assert_eq!(storage_settings(b"/r", Some(&c)).unwrap_err(), ConfigError::NotABoolean(BoolOption::KeepMimeTypes));
    let c = cfg(vec![("on_closure", s("wipe")), ("dir", s("d"))]);
    assert_eq!(storage_settings(b"/r", Some(&c)).unwrap_err(), ConfigError::InvalidOnClosure);
    let c = cfg(vec![("on_closure", ConfigValue::Bool(true)), ("dir", s("d"))]);
    assert_eq!(storage_settings(b"/r", Some(&c)).unwrap_err(), ConfigError::InvalidOnClosure);
    let c = cfg(vec![]);
    assert_eq!(storage_settings(b"/r", Some(&c)).unwrap_err(), ConfigError::MissingDir);
    let c = cfg(vec![("dir", ConfigValue::Bool(false))]);
    assert_eq!(storage_settings(b"/r", Some(&c)).unwrap_err(), ConfigError::MissingDir);
    let c = cfg(vec![("dir", s("/abs"))]);
    assert_eq!(storage_settings(b"/r", Some(&c)).unwrap_err(), ConfigError::AbsoluteDir);
    let c = cfg(vec![("dir", s("a/../b"))]);
    assert_eq!(storage_settings(b"/r", Some(&c)).unwrap_err(), ConfigError::ParentDirInPath);
}

#[test]
fn extract_bool_cases() {
    let c = cfg(vec![("read_only", ConfigValue::Bool(true))]);
    assert_eq!(extract_bool(&c, BoolOption::ReadOnly, false), Ok(true));
    assert_eq!(extract_bool(&c, BoolOption::FollowLinks, false), Ok(false));
    assert_eq!(extract_bool(&c, BoolOption::KeepMimeTypes, true), Ok(true));
}

#[test]
fn paths() {
    assert!(contains_parent_dir(b".."));
    assert!(contains_parent_dir(b"x/.."));
    assert!(!contains_parent_dir(b"x/..y"));
    assert_eq!(join(b"/home/u", b"d"), b"/home/u/d".to_vec());
    assert_eq!(join(b"", b"d"), b"d".to_vec());
    assert_eq!(root_dir(None, b"/home/u/.zenoh"), b"/home/u/.zenoh/zbackend_fs".to_vec());
    assert_eq!(root_dir(Some(b"/data"), b"/home/u"), b"/data".to_vec());
}

#[test]
fn backend_status_and_storage() {
    let b = FileSystemBackend::new(b"/data".to_vec(), b"v1".to_vec());
    let st = b.get_admin_status();
    assert_eq!(st, vec![(b"root".to_vec(), b"/data".to_vec()), (b"version".to_vec(), b"v1".to_vec())]);
    let c = cfg(vec![("dir", s("x"))]);
    assert_eq!(b.create_storage(Some(&c)).unwrap().base_dir, b"/data/x".to_vec());
}
