use rainbox::config::AppConfig;
use rainbox::constants::PackageManagerType;
use rainbox::operations::OperationType;
use rainbox::paths::PathHelper;

#[test]
fn manager_ids_and_display_names() {
    assert_eq!(PackageManagerType::Brew.id(), "brew");
    assert_eq!(PackageManagerType::BrewCask.id(), "brew-cask");
    assert_eq!(PackageManagerType::Brew.display_name(), "Homebrew");
    assert_eq!(PackageManagerType::Luarocks.display_name(), "LuaRocks");
    assert_eq!(PackageManagerType::Uv.display_name(), "uv");
}

#[test]
fn manager_from_str_roundtrips_every_id() {
    let all = PackageManagerType::all();
    assert_eq!(all.len(), 12);
    for m in all.iter() {
        assert_eq!(PackageManagerType::from_str(m.id()), Some(*m));
    }
    assert_eq!(PackageManagerType::from_str("apt"), None);
    assert_eq!(PackageManagerType::from_str(""), None);
}

#[test]
fn config_set_get_and_replace() {
    let mut config = AppConfig::new();
    assert_eq!(config.get_command_path("npm"), None);
    config.set_command_path("npm".to_string(), "/usr/bin/npm".to_string());
    assert_eq!(config.get_command_path("npm"), Some("/usr/bin/npm".to_string()));
    config.set_command_path("npm".to_string(), "/opt/npm".to_string());
    assert_eq!(config.get_command_path("npm"), Some("/opt/npm".to_string()));
    config.set_command_path("brew".to_string(), "/opt/brew".to_string());
    assert_eq!(config.entries().len(), 2);
}

#[test]
fn config_default_is_empty() {
    let config = AppConfig::default();
    assert!(config.entries().is_empty());
}

#[test]
fn path_helper_builds_the_layout() {
    assert_eq!(PathHelper::packages_dir("/d"), "/d/packages".to_string());
    assert_eq!(PathHelper::package_file("/d", "npm"), "/d/packages/npm.txt".to_string());
    assert_eq!(
        PathHelper::package_local_file("/d", "npm"),
        "/d/packages/npm.local.txt".to_string()
    );
    assert_eq!(PathHelper::scripts_dir("/d"), "/d/scripts".to_string());
    assert_eq!(
        PathHelper::package_sync_script("/d"),
        "/d/scripts/package-sync.sh".to_string()
    );
}

#[test]
fn operation_names_and_events() {
    let op = OperationType::Install;
    assert_eq!(op.as_str(), "install");
    assert_eq!(op.progress_event(), "install-progress");
    assert_eq!(op.error_event(), "install-error");
    assert_eq!(op.complete_event(), "install-complete");
    assert_eq!(op.complete_message(), "Installation finished");
    assert_eq!(op.start_message(), "Installation started".to_string());
}
