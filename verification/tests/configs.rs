use ojo::explorer::{Explorer, ExplorerConfig};
use ojo::watcher::{Watcher, WatcherConfig};

#[test]
fn test_config_default() {
    let config = ExplorerConfig::default();
    assert_eq!(config.port, 8080);
    assert_eq!(config.host, "127.0.0.1");
}

#[test]
fn lib_test_config_default() {
    let config = WatcherConfig::default();
    assert_eq!(config.watch, false);
    assert!(config.cleanup_age_secs.is_none());
}

#[test]
fn test_watcher_config_default() {
    let config = ojo::service::WatcherConfig::default();
    assert!(config.cleanup_age_secs.is_none());
}

#[test]
fn test_explorer_config_default() {
    let config = ojo::service::ExplorerConfig::default();
    assert_eq!(config.port, 8080);
    assert_eq!(config.host, "127.0.0.1");
}

#[test]
fn constructors_keep_configuration() {
    assert!(Watcher::new(WatcherConfig::default()).is_ok());
    assert!(Explorer::new(ExplorerConfig::default()).is_ok());
    assert!(ojo::service::Watcher::new(ojo::service::WatcherConfig::default()).is_ok());
    assert!(ojo::service::Explorer::new(ojo::service::ExplorerConfig::default()).is_ok());
    let c = ojo::service::WatcherConfig::default();
    assert_eq!(c.input_dir, "./traces/output");
    assert_eq!(c.db_path, "./traces.db");
}
