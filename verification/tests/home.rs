use rustup::home::{
    cargo_bin_with_env, category_home, path_from_env, same_text, EnvSnapshot, HomeCategory,
    HomeError,
};
use rustup::path::UnixPath;

const CATEGORIES: [HomeCategory; 4] = [
    HomeCategory::Cache,
    HomeCategory::Config,
    HomeCategory::Data,
    HomeCategory::State,
];

fn path(text: &str) -> UnixPath {
    UnixPath::new(text.as_bytes().to_vec())
}

fn env(vars: &[(&str, &str)], current_dir: Option<&str>) -> EnvSnapshot {
    EnvSnapshot {
        vars: vars
            .iter()
            .map(|(key, value)| (key.to_string(), value.as_bytes().to_vec()))
            .collect(),
        current_dir: current_dir.map(path),
    }
}

#[test]
fn categories_have_their_own_variables() {
    let names: Vec<(&str, &str, &str)> = CATEGORIES
        .iter()
        .map(|c| (c.override_env_var(), c.xdg_env_var(), c.fallback_subdir()))
        .collect();
    assert_eq!(
        names,
        vec![
            ("RUSTUP_CACHE_HOME", "XDG_CACHE_HOME", ".cache"),
            ("RUSTUP_CONFIG_HOME", "XDG_CONFIG_HOME", ".config"),
            ("RUSTUP_DATA_HOME", "XDG_DATA_HOME", ".local/share"),
            ("RUSTUP_STATE_HOME", "XDG_STATE_HOME", ".local/state"),
        ]
    );
}

#[test]
fn category_override_is_verbatim() {
    for category in CATEGORIES {
        for value in ["/absolute", "relative/dir", "."] {
            let env = env(
                &[
                    (category.override_env_var(), value),
                    ("RUSTUP_HOME", "/rustup"),
                ],
                Some("/cwd"),
            );
            assert_eq!(category_home(category, &env, None), Ok(path(value)));
        }
    }
}

#[test]
fn rustup_home_comes_second() {
    let absolute = env(&[("RUSTUP_HOME", "/opt/rustup")], None);
    assert_eq!(
        category_home(HomeCategory::Data, &absolute, Some(path("/default"))),
        Ok(path("/opt/rustup"))
    );
    let relative = env(&[("RUSTUP_HOME", "rustup")], Some("/cwd"));
    assert_eq!(
        category_home(HomeCategory::Data, &relative, Some(path("/default"))),
        Ok(path("/cwd/rustup"))
    );
    let nowhere = env(&[("RUSTUP_HOME", "rustup")], None);
    assert_eq!(
        category_home(HomeCategory::Data, &nowhere, Some(path("/default"))),
        Err(HomeError::CurrentDir)
    );
}

#[test]
fn platform_default_comes_last() {
    let empty = env(&[("RUSTUP_STATE_HOME", ""), ("RUSTUP_HOME", "")], None);
    assert_eq!(
        category_home(HomeCategory::State, &empty, Some(path("/home/me/.local/state"))),
        Ok(path("/home/me/.local/state/rustup"))
    );
    assert_eq!(
        category_home(HomeCategory::State, &empty, None),
        Err(HomeError::PlatformDefault)
    );
}

#[test]
fn other_overrides_do_not_matter() {
    let env = env(
        &[("RUSTUP_CACHE_HOME", "/cache"), ("CARGO_HOME", "/cargo")],
        None,
    );
    assert_eq!(
        category_home(HomeCategory::Config, &env, Some(path("/config"))),
        Ok(path("/config/rustup"))
    );
}

#[test]
fn bin_home_follows_its_own_order() {
    let own = env(&[("CARGO_BIN_HOME", "bins"), ("CARGO_HOME", "/cargo")], None);
    assert_eq!(cargo_bin_with_env(&own, None), Ok(path("bins")));
    let cargo = env(&[("CARGO_BIN_HOME", ""), ("CARGO_HOME", "/cargo")], None);
    assert_eq!(
        cargo_bin_with_env(&cargo, Some(path("/default"))),
        Ok(path("/cargo/bin"))
    );
    let relative = env(&[("CARGO_HOME", "cargo/")], Some("/cwd/"));
    assert_eq!(
        cargo_bin_with_env(&relative, None),
        Ok(path("/cwd/cargo/bin"))
    );
    let nowhere = env(&[("CARGO_HOME", "cargo")], None);
    assert_eq!(
        cargo_bin_with_env(&nowhere, Some(path("/default"))),
        Err(HomeError::CurrentDir)
    );
    let unset = env(&[("CARGO_HOME", "")], None);
    assert_eq!(
        cargo_bin_with_env(&unset, Some(path("/home/me/.local/bin"))),
        Ok(path("/home/me/.local/bin"))
    );
    assert_eq!(
        cargo_bin_with_env(&unset, None),
        Err(HomeError::PlatformDefault)
    );
}

#[test]
fn empty_variables_hold_no_path() {
    let env = env(&[("SET", "x"), ("EMPTY", ""), ("SET", "y")], None);
    assert_eq!(path_from_env("SET", &env), Some(path("x")));
    assert_eq!(path_from_env("EMPTY", &env), None);
    assert_eq!(path_from_env("UNSET", &env), None);
    assert_eq!(env.var_os("EMPTY"), Some(&Vec::new()));
    assert_eq!(env.var_os("UNSET"), None);
}

#[test]
fn texts_are_compared_whole() {
    assert!(same_text("HOME", "HOME"));
    assert!(!same_text("HOME", "HOM"));
    assert!(!same_text("HOME", "home"));
}
