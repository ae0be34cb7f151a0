use sap_core::config::Config;

fn config_from_values() -> Config {
    Config {
        sap_server_listen: "127.0.0.1:8080".to_string(),
        database_url: "sqlite://sap.db".to_string(),
        nfs_dir: "/srv/nfs".to_string(),
        tmp_dir: "/tmp/sap".to_string(),
        prometheus_url: None,
    }
}

#[test]
fn it_inits_a_config() {
    let config = config_from_values();
    assert_ne!(config.sap_server_listen, "".to_string())
}

#[test]
fn it_gets_a_config_from_the_lazy_static() {
    let config = &config_from_values();
    assert_ne!(config.sap_server_listen, "".to_string())
}

#[test]
fn completeness_requires_all_four_values() {
    let mut config = config_from_values();
    assert!(config.is_complete());
    config.tmp_dir = String::new();
    assert!(!config.is_complete());
}
