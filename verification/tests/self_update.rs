use rustup::home::EnvSnapshot;
use rustup::path::UnixPath;
use rustup::self_update::{
    do_anti_sudo_check, do_write_env_files, home_mismatch, run_update, self_replace, EnvScript,
    ExitCode, HomeCheck, ReplaceAction, ReplaceEvent, UpdaterAction, UpdaterEvent,
};

fn path(text: &str) -> UnixPath {
    UnixPath::new(text.as_bytes().to_vec())
}

fn env(vars: &[(&str, &str)]) -> EnvSnapshot {
    EnvSnapshot {
        vars: vars
            .iter()
            .map(|(key, value)| (key.to_string(), value.as_bytes().to_vec()))
            .collect(),
        current_dir: None,
    }
}

#[test]
fn different_homes_stop_the_installation() {
    let process = env(&[("HOME", "/home/me")]);
    let verdict = do_anti_sudo_check(false, &process, Some(path("/root")));
    assert_eq!(verdict.exit_code, ExitCode(1));
    assert_eq!(
        verdict.home,
        HomeCheck::Differs {
            env_home: path("/home/me"),
            euid_home: path("/root"),
        }
    );
    // The user is told, and goes on.
    let verdict = do_anti_sudo_check(true, &process, Some(path("/root")));
    assert_eq!(verdict.exit_code, ExitCode(0));
    assert!(matches!(verdict.home, HomeCheck::Differs { .. }));
}

#[test]
fn sudo_check_can_be_waived() {
    let skipped = env(&[("HOME", "/home/me"), ("RUSTUP_INIT_SKIP_SUDO_CHECK", "yes")]);
    let verdict = do_anti_sudo_check(false, &skipped, Some(path("/root")));
    assert_eq!(verdict.exit_code, ExitCode(0));
    assert_eq!(verdict.home, HomeCheck::Fine);
    assert_eq!(home_mismatch(&skipped, None), HomeCheck::Fine);
    let not_skipped = env(&[("HOME", "/home/me"), ("RUSTUP_INIT_SKIP_SUDO_CHECK", "no")]);
    let verdict = do_anti_sudo_check(false, &not_skipped, Some(path("/root")));
    assert_eq!(verdict.exit_code, ExitCode(1));
}

#[test]
fn only_known_homes_can_differ() {
    let process = env(&[("HOME", "/home/me/")]);
    assert_eq!(home_mismatch(&process, Some(path("/home//me"))), HomeCheck::Fine);
    assert_eq!(home_mismatch(&process, None), HomeCheck::NoUserData);
    assert_eq!(home_mismatch(&env(&[]), Some(path("/root"))), HomeCheck::Fine);
    assert_eq!(home_mismatch(&env(&[]), None), HomeCheck::NoUserData);
    let empty = env(&[("HOME", "")]);
    assert!(matches!(
        home_mismatch(&empty, Some(path("/root"))),
        HomeCheck::Differs { .. }
    ));
    assert_eq!(
        do_anti_sudo_check(false, &process, None).exit_code,
        ExitCode(0)
    );
}

fn script(name: &str, content: &str) -> EnvScript {
    EnvScript {
        name: name.to_string(),
        content: content.to_string(),
    }
}

#[test]
fn each_script_is_written_once() {
    let scripts = vec![
        script("env", "posix"),
        script("env", "posix"),
        script("env.fish", "fish"),
        script("env", "other"),
        script("env.fish", "fish"),
        script("env", "posix"),
    ];
    assert_eq!(do_write_env_files(&scripts), vec![0, 2, 3]);
    assert_eq!(do_write_env_files(&[]), Vec::<usize>::new());
}

#[test]
fn updater_replaces_the_program() {
    let setup = path("/tmp/rustup-init");
    match run_update(&setup, UpdaterEvent::Begin) {
        UpdaterAction::Run { program, argument } => {
            assert_eq!(program, setup);
            assert_eq!(argument, "--self-replace");
        }
        _ => panic!("the updater is not run"),
    }
    assert!(matches!(
        run_update(&setup, UpdaterEvent::NotStarted),
        UpdaterAction::UnableToRun
    ));
    assert!(matches!(
        run_update(&setup, UpdaterEvent::Exited { success: false }),
        UpdaterAction::FailedToReplace
    ));
    assert!(matches!(
        run_update(&setup, UpdaterEvent::Exited { success: true }),
        UpdaterAction::Exit(ExitCode(0))
    ));
}

#[test]
fn replacement_installs_into_bin() {
    assert!(matches!(
        self_replace(ReplaceEvent::Begin),
        ReplaceAction::FindCargoHome
    ));
    for wanted in [true, false] {
        let event = ReplaceEvent::CargoHome {
            path: path("/home/me/.cargo"),
            force_hard_links: wanted,
        };
        match self_replace(event) {
            ReplaceAction::InstallBins { dir, force_hard_links } => {
                assert_eq!(dir, path("/home/me/.cargo/bin"));
                assert_eq!(force_hard_links, wanted);
            }
            _ => panic!("nothing is installed"),
        }
    }
    assert!(matches!(
        self_replace(ReplaceEvent::Installed),
        ReplaceAction::Exit(ExitCode(0))
    ));
    assert!(matches!(self_replace(ReplaceEvent::Failed), ReplaceAction::Fail));
}
