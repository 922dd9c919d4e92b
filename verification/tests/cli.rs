use volki_web::cli::{WebBuildCommand, WebDevCommand, WebHubCommand, WebStartCommand};

#[test]
fn test_build_name() {
    assert_eq!(WebBuildCommand.name(), "web:build");
}

#[test]
fn test_build_requires_config() {
    assert!(WebBuildCommand.requires_config());
}

#[test]
fn test_dev_name() {
    assert_eq!(WebDevCommand.name(), "web:dev");
}

#[test]
fn test_dev_requires_config() {
    assert!(WebDevCommand.requires_config());
}

#[test]
fn test_dev_has_port_option() {
    let opts = WebDevCommand.options();
    assert!(opts.iter().any(|o| o.name == "port"));
}

#[test]
fn test_dev_has_host_option() {
    let opts = WebDevCommand.options();
    assert!(opts.iter().any(|o| o.name == "host"));
}

#[test]
fn test_web_hub_name() {
    assert_eq!(WebHubCommand.name(), "web");
}

#[test]
fn test_web_hub_no_config_required() {
    assert!(!WebHubCommand.requires_config());
}

#[test]
fn test_web_hub_description_nonempty() {
    assert!(!WebHubCommand.description().is_empty());
}

#[test]
fn test_start_name() {
    assert_eq!(WebStartCommand.name(), "web:start");
}

#[test]
fn test_start_requires_config() {
    assert!(WebStartCommand.requires_config());
}

