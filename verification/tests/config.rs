use mqdish::shared::config::{candidate_paths, default_paths, effective_prefetch, personal_path, AMQPParams, AppConfig, BusParams, ConfigError, Connection, Credentials};

#[test]
fn default_configuration_follows_host_parallelism() {
    let config = AppConfig::with_parallelism(8);
    assert_eq!(config.topic, "mqdish");
    assert_eq!(config.concurrency, 8);
    assert!(matches!(config.credentials, Credentials::Anonymous));
    match config.connection {
        Connection::DSN(dsn) => assert_eq!(dsn, "amqp://"),
        Connection::Params(_) => panic!("expected a connection string"),
    }
    match config.bus_params {
        BusParams::AMQP(params) => {
            assert_eq!(params.vhost, "/");
            assert_eq!(params.prefetch, 8);
            assert_eq!(params.heartbeat, None);
            assert_eq!(params.consumer_timeout, None);
            assert!(params.requeue);
        }
    }
}

#[test]
fn default_prefetch_never_lifts_the_cap_for_many_workers() {
    assert_eq!(AMQPParams::with_parallelism(65_536 + 7).prefetch, 65_535);
    assert_eq!(AMQPParams::with_parallelism(65_536).prefetch, 65_535);
    assert_eq!(AMQPParams::with_parallelism(65_535).prefetch, 65_535);
    assert_eq!(AMQPParams::with_parallelism(65_534).prefetch, 65_534);
    assert_eq!(AMQPParams::with_parallelism(1).prefetch, 1);
    assert_eq!(AMQPParams::with_parallelism(usize::MAX).prefetch, 65_535);
}

#[test]
fn named_prefetch_wins_over_the_workers() {
    assert_eq!(effective_prefetch(Some(3), 8), 3);
    assert_eq!(effective_prefetch(Some(0), 8), 0);
    assert_eq!(effective_prefetch(None, 8), 8);
    assert_eq!(effective_prefetch(None, 70_000), 65_535);
    assert_eq!(effective_prefetch(Some(65_535), 1), 65_535);
}

#[test]
fn named_file_is_the_only_candidate() {
    let paths = candidate_paths(Some("./custom.yaml".to_string()));
    assert_eq!(paths, vec!["./custom.yaml".to_string()]);
}

#[test]
fn default_search_starts_with_fixed_places() {
    let paths = candidate_paths(None);
    assert!(paths.len() == 2 || paths.len() == 3);
    assert_eq!(paths[0], "/etc/mqdish/config.yaml");
    assert_eq!(paths[1], "./mqdish.yaml");
}

#[test]
fn personal_file_lies_under_the_home_directory() {
    let paths = candidate_paths(None);
    if paths.len() == 3 && !paths[2].is_empty() {
        assert!(paths[2].ends_with("config.yaml"));
        assert!(paths[2].contains(".config"));
        assert!(paths[2].contains("mqdish"));
        assert_ne!(paths[2], ".config/mqdish/config.yaml");
    }
}

#[test]
fn personal_file_comes_last() {
    let paths = default_paths(Some("/home/alice/.config/mqdish/config.yaml".to_string()));
    assert_eq!(
        paths,
        vec![
            "/etc/mqdish/config.yaml".to_string(),
            "./mqdish.yaml".to_string(),
            "/home/alice/.config/mqdish/config.yaml".to_string(),
        ]
    );
    assert_eq!(default_paths(None).len(), 2);
}

#[test]
fn not_found_lists_candidates() {
    let paths = vec!["/etc/mqdish/config.yaml".to_string(), "./mqdish.yaml".to_string()];
    let error = ConfigError::not_found(&paths);
    match &error {
        ConfigError::NotFound(list) => assert_eq!(list, "/etc/mqdish/config.yaml, ./mqdish.yaml"),
    }
    assert_eq!(
        error.message(),
        "No config file found in directories: /etc/mqdish/config.yaml, ./mqdish.yaml"
    );
    match ConfigError::not_found(&Vec::new()) {
        ConfigError::NotFound(list) => assert_eq!(list, ""),
    }
}

#[test]
fn personal_path_follows_the_home_directory() {
    let home = std::path::PathBuf::from("/home/alice");
    let expected = home.join(".config").join("mqdish").join("config.yaml");
    assert_eq!(personal_path(Some(home)), Some(expected.to_str().unwrap().to_string()));
    assert_eq!(
        personal_path(Some(std::path::PathBuf::from("/"))),
        Some("/.config/mqdish/config.yaml".to_string())
    );
    assert_eq!(personal_path(None), None);
}
