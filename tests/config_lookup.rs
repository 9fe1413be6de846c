use banger::config_lookup::{join_path, ConfigLookup, XdgLookup};

const CLI_CONFIG: &str = "cli_banger.toml";
const ENV_CONFIG: &str = "env_banger.toml";
const XDG_CONFIG_HOME: &str = "/CONFIG_HOME";
const HOME: &str = "/HOME";
const XDG_CONFIG_DIRS: &str = "/CONFIG_DIR1:/CONFIG_DIR2";
const SYSCONFDIR: &str = "/SYSCONF";

const XDG_CONFIG_HOME_FILE: &str = "/CONFIG_HOME/banger/banger.toml";
const HOME_FILE: &str = "/HOME/.config/banger/banger.toml";
const XDG_CONFIG_DIRS_FILE: &str = "/CONFIG_DIR2/banger/banger.toml";
const SYSCONFDIR_FILE: &str = "/SYSCONF/xdg/banger/banger.toml";
const ETC_XDG_FILE: &str = "/etc/xdg/banger/banger.toml";
const BINARY_DIR_FILE: &str = "/BINARY_DIR/banger.toml";

const CONFIG_FILES: [&str; 8] = [
    CLI_CONFIG,
    ENV_CONFIG,
    XDG_CONFIG_HOME_FILE,
    HOME_FILE,
    XDG_CONFIG_DIRS_FILE,
    SYSCONFDIR_FILE,
    ETC_XDG_FILE,
    BINARY_DIR_FILE,
];

fn full_env_var(var: &str) -> Option<String> {
    match var {
        "HOME" => Some(HOME.to_string()),
        "XDG_CONFIG_HOME" => Some(XDG_CONFIG_HOME.to_string()),
        "XDG_CONFIG_DIRS" => Some(XDG_CONFIG_DIRS.to_string()),
        "sysconfdir" => Some(SYSCONFDIR.to_string()),
        _ => None,
    }
}

fn with_banger_config(var: &str) -> Option<String> {
    match var {
        "BANGER_CONFIG" => Some(ENV_CONFIG.to_string()),
        _ => full_env_var(var),
    }
}

#[test]
fn cli() {
    let lookup = ConfigLookup::new_custom(
        Some(CLI_CONFIG.to_string()),
        &full_env_var,
        BINARY_DIR_FILE.to_string(),
    );
    let file_exists = |file: &str| CONFIG_FILES.contains(&file);
    assert_eq!(
        Some(CLI_CONFIG.to_string()),
        lookup.lookup_custom(&|_: &str| true, &file_exists)
    );
}

#[test]
fn no_cli() {
    let lookup = ConfigLookup::new_custom(
        Some(CLI_CONFIG.to_string()),
        &full_env_var,
        BINARY_DIR_FILE.to_string(),
    );
    let file_exists = |file: &str| CONFIG_FILES[1..].contains(&file);
    assert_eq!(None, lookup.lookup_custom(&|_: &str| true, &file_exists));
}

#[test]
fn env() {
    let lookup = ConfigLookup::new_custom(None, &with_banger_config, BINARY_DIR_FILE.to_string());
    let file_exists = |file: &str| CONFIG_FILES[1..].contains(&file);
    assert_eq!(
        Some(ENV_CONFIG.to_string()),
        lookup.lookup_custom(&|_: &str| true, &file_exists)
    );
}

#[test]
fn no_env() {
    let lookup = ConfigLookup::new_custom(None, &with_banger_config, BINARY_DIR_FILE.to_string());
    let file_exists = |file: &str| CONFIG_FILES[2..].contains(&file);
    assert_eq!(None, lookup.lookup_custom(&|_: &str| true, &file_exists));
}

#[test]
fn xdg_config_home() {
    let lookup = ConfigLookup::new_custom(None, &full_env_var, BINARY_DIR_FILE.to_string());
    let file_exists = |file: &str| CONFIG_FILES[2..].contains(&file);
    assert_eq!(
        Some(XDG_CONFIG_HOME_FILE.to_string()),
        lookup.lookup_custom(&|_: &str| true, &file_exists)
    );
}

#[test]
fn home() {
    let lookup = ConfigLookup::new_custom(None, &full_env_var, BINARY_DIR_FILE.to_string());
    let file_exists = |file: &str| CONFIG_FILES[3..].contains(&file);
    assert_eq!(
        Some(HOME_FILE.to_string()),
        lookup.lookup_custom(&|_: &str| true, &file_exists)
    );
}

#[test]
fn xdg_config_dirs() {
    let lookup = ConfigLookup::new_custom(None, &full_env_var, BINARY_DIR_FILE.to_string());
    let file_exists = |file: &str| CONFIG_FILES[4..].contains(&file);
    assert_eq!(
        Some(XDG_CONFIG_DIRS_FILE.to_string()),
        lookup.lookup_custom(&|_: &str| true, &file_exists)
    );
}

#[test]
fn sysconfdir() {
    let lookup = ConfigLookup::new_custom(None, &full_env_var, BINARY_DIR_FILE.to_string());
    let file_exists = |file: &str| CONFIG_FILES[5..].contains(&file);
    assert_eq!(
        Some(SYSCONFDIR_FILE.to_string()),
        lookup.lookup_custom(&|_: &str| true, &file_exists)
    );
}

#[test]
fn etc_xdg() {
    let lookup = ConfigLookup::new_custom(None, &full_env_var, BINARY_DIR_FILE.to_string());
    let file_exists = |file: &str| CONFIG_FILES[6..].contains(&file);
    assert_eq!(
        Some(ETC_XDG_FILE.to_string()),
        lookup.lookup_custom(&|_: &str| true, &file_exists)
    );
}

#[test]
fn binary_path() {
    let lookup = ConfigLookup::new_custom(None, &full_env_var, BINARY_DIR_FILE.to_string());
    let file_exists = |file: &str| file == BINARY_DIR_FILE;
    assert_eq!(
        Some(BINARY_DIR_FILE.to_string()),
        lookup.lookup_custom(&|_: &str| true, &file_exists)
    );
}

#[test]
fn missing_directory_skips_candidate() {
    let lookup = ConfigLookup::new_custom(None, &full_env_var, BINARY_DIR_FILE.to_string());
    let file_exists = |file: &str| CONFIG_FILES[2..].contains(&file);
    let dir_exists = |dir: &str| dir != XDG_CONFIG_HOME;
    assert_eq!(Some(HOME_FILE.to_string()), lookup.lookup_custom(&dir_exists, &file_exists));
    assert_eq!(None, lookup.lookup_custom(&|_: &str| false, &file_exists));
}

#[test]
fn relative_values_are_dropped() {
    let xdg = XdgLookup::from_values(
        Some("relative/home".to_string()),
        Some("/abs".to_string()),
        Some("/one::two:/three:".to_string()),
        None,
    );
    assert_eq!(None, xdg.home_dir);
    assert_eq!(Some("/abs".to_string()), xdg.xdg_config_home);
    assert_eq!(vec!["/one".to_string(), "/three".to_string()], xdg.xdg_config_dirs);
    assert_eq!(None, xdg.sysconfdir);
    assert_eq!(Vec::<String>::new(), XdgLookup::parse_absolute_dirlist(None));
    assert_eq!(
        vec!["/a/".to_string()],
        XdgLookup::parse_absolute_dirlist(Some("/a/".to_string()))
    );
}

#[test]
fn join_paths() {
    assert_eq!("/a/b", join_path("/a", "b"));
    assert_eq!("/a/b", join_path("/a/", "b"));
    assert_eq!("b", join_path("", "b"));
}
