use std::collections::BTreeMap;

use rustup::path::UnixPath;
use rustup::rcfiles::{
    add_path_setup_to_rcfiles, remove_legacy_paths, remove_legacy_source_command,
    remove_path_setup_from_rcfiles, AdditionAction, AdditionEvent, LegacyPass, RemovalAction,
    RemovalEvent,
};
use rustup::text::{contains_part, ends_with_newline, find_exact_line, remove_line};

type Files = BTreeMap<Vec<u8>, String>;

fn paths(names: &[&str]) -> Vec<UnixPath> {
    names
        .iter()
        .map(|name| UnixPath::new(name.as_bytes().to_vec()))
        .collect()
}

fn files(entries: &[(&str, &str)]) -> Files {
    entries
        .iter()
        .map(|(name, text)| (name.as_bytes().to_vec(), text.to_string()))
        .collect()
}

/// Performs the accesses of a removal; gives whether it came to its end.
fn drive_removal(
    rcfiles: &[UnixPath],
    files: &mut Files,
    mut step: impl FnMut(RemovalEvent) -> RemovalAction,
) -> bool {
    let mut event = RemovalEvent::Begin;
    loop {
        event = match step(event) {
            RemovalAction::Check { index } => RemovalEvent::Checked {
                index,
                is_file: files.contains_key(&rcfiles[index].bytes),
            },
            RemovalAction::Load { index } => RemovalEvent::Loaded {
                index,
                contents: files[&rcfiles[index].bytes].clone(),
            },
            RemovalAction::Store { index, contents } => {
                files.insert(rcfiles[index].bytes.clone(), contents);
                RemovalEvent::Stored { index }
            }
            RemovalAction::Done => return true,
            RemovalAction::Fail => return false,
        };
    }
}

fn remove(command: &str, rcfiles: &[UnixPath], files: &mut Files) {
    assert!(drive_removal(rcfiles, files, |event| {
        remove_path_setup_from_rcfiles(command, rcfiles, event)
    }));
}

/// Performs the accesses of an addition; gives the position of an rcfile without a
/// parent directory, if one ended it.
fn add(command: &str, rcfiles: &[UnixPath], files: &mut Files) -> Option<usize> {
    let mut event = AdditionEvent::Begin;
    loop {
        event = match add_path_setup_to_rcfiles(command, rcfiles, event) {
            AdditionAction::Load { index } => AdditionEvent::Loaded {
                index,
                contents: files.get(&rcfiles[index].bytes).cloned(),
            },
            AdditionAction::Append { index, dir, text } => {
                assert_eq!(Some(dir), rcfiles[index].parent());
                files
                    .entry(rcfiles[index].bytes.clone())
                    .or_default()
                    .push_str(&text);
                AdditionEvent::Appended { index }
            }
            AdditionAction::NoParent { index } => return Some(index),
            AdditionAction::Done => return None,
            AdditionAction::Fail => panic!("no access failed"),
        };
    }
}

#[test]
fn exact_lines_are_found() {
    assert_eq!(find_exact_line(b"a\nb\nb\n", b"b\n"), Some(2));
    assert_eq!(find_exact_line(b"b\na\n", b"b\n"), Some(0));
    // The line has to begin and to end.
    assert_eq!(find_exact_line(b"ab\nb", b"b\n"), None);
    assert_eq!(find_exact_line(b"", b"b\n"), None);
    assert_eq!(find_exact_line(b"ab\nb\n", b"b\n"), Some(3));
    assert_eq!(find_exact_line(b"x\n\ny\n", b"\n"), Some(2));
    assert_eq!(find_exact_line(b"a\nb\nc\n", b"a\nb\n"), Some(0));
}

#[test]
fn lines_leave_the_rest_alone() {
    assert_eq!(remove_line("ä\nö\nü\n", "ö\n"), Some("ä\nü\n".to_string()));
    assert_eq!(remove_line("ö", "ö\n"), None);
    assert_eq!(remove_line("ö\nö\n", "ö\n"), Some("ö\n".to_string()));
    assert!(contains_part("abc", "bc"));
    assert!(contains_part("abc", ""));
    assert!(!contains_part("abc", "cb"));
    assert!(ends_with_newline("a\n"));
    assert!(!ends_with_newline("a"));
    assert!(!ends_with_newline(""));
}

#[test]
fn removal_removes_from_each_rcfile() {
    let rcfiles = paths(&["/h/.profile", "/h/.missing", "/h/.bashrc"]);
    let mut files = files(&[
        ("/h/.profile", "one\n. env\ntwo\n. env\n"),
        ("/h/.bashrc", " . env\n. env \n"),
        ("/h/.other", ". env\n"),
    ]);
    remove(". env", &rcfiles, &mut files);
    assert_eq!(files[b"/h/.profile".as_slice()], "one\ntwo\n. env\n");
    assert_eq!(files[b"/h/.bashrc".as_slice()], " . env\n. env \n");
    assert_eq!(files[b"/h/.other".as_slice()], ". env\n");
    assert_eq!(files.len(), 3);
}

#[test]
fn failed_access_ends_the_walk() {
    let rcfiles = paths(&["/a", "/b"]);
    assert!(matches!(
        remove_path_setup_from_rcfiles("x", &rcfiles, RemovalEvent::Failed),
        RemovalAction::Fail
    ));
    assert!(matches!(
        remove_legacy_source_command("x\n", &rcfiles, RemovalEvent::Failed),
        RemovalAction::Fail
    ));
    assert!(matches!(
        remove_legacy_paths("/c", &rcfiles, LegacyPass::ExportPath, RemovalEvent::Failed),
        (LegacyPass::ExportPath, RemovalAction::Fail)
    ));
    assert!(matches!(
        add_path_setup_to_rcfiles("x", &rcfiles, AdditionEvent::Failed),
        AdditionAction::Fail
    ));
}

#[test]
fn walk_over_nothing_is_done() {
    assert!(matches!(
        remove_path_setup_from_rcfiles("x", &[], RemovalEvent::Begin),
        RemovalAction::Done
    ));
    assert!(matches!(
        add_path_setup_to_rcfiles("x", &[], AdditionEvent::Begin),
        AdditionAction::Done
    ));
}

#[test]
fn legacy_removal_removes_both_lines() {
    let rcfiles = paths(&["/h/.profile", "/h/.zshenv"]);
    let mut files = files(&[
        (
            "/h/.profile",
            "source \"$HOME/.cargo/env\"\nexport PATH=\"$HOME/.cargo/bin:$PATH\"\nkept\n",
        ),
        ("/h/.zshenv", "source \"/elsewhere/env\"\n"),
    ]);
    let mut pass = LegacyPass::ExportPath;
    assert!(drive_removal(&rcfiles, &mut files, |event| {
        let (next, action) = remove_legacy_paths("$HOME/.cargo", &rcfiles, pass, event);
        pass = next;
        action
    }));
    assert_eq!(pass, LegacyPass::SourceEnv);
    assert_eq!(files[b"/h/.profile".as_slice()], "kept\n");
    assert_eq!(
        files[b"/h/.zshenv".as_slice()],
        "source \"/elsewhere/env\"\n"
    );
}

#[test]
fn legacy_command_is_removed_with_its_newline() {
    let rcfiles = paths(&["/h/.profile"]);
    let mut files = files(&[("/h/.profile", "a\nb\nc")]);
    assert!(drive_removal(&rcfiles, &mut files, |event| {
        remove_legacy_source_command("b\n", &rcfiles, event)
    }));
    assert_eq!(files[b"/h/.profile".as_slice()], "a\nc");
}

#[test]
fn addition_adds_to_each_rcfile() {
    let rcfiles = paths(&["/h/.profile", "/h/.missing", "/h/.bashrc", "/h/.empty", "/h/.has"]);
    let mut files = files(&[
        ("/h/.profile", "one\n"),
        ("/h/.bashrc", "two"),
        ("/h/.empty", ""),
        ("/h/.has", "# . env"),
    ]);
    assert_eq!(add(". env", &rcfiles, &mut files), None);
    assert_eq!(files[b"/h/.profile".as_slice()], "one\n. env");
    assert_eq!(files[b"/h/.missing".as_slice()], ". env");
    assert_eq!(files[b"/h/.bashrc".as_slice()], "two\n. env");
    assert_eq!(files[b"/h/.empty".as_slice()], "\n. env");
    assert_eq!(files[b"/h/.has".as_slice()], "# . env");
}

#[test]
fn adding_twice_is_adding_once() {
    let rcfiles = paths(&["/h/.profile"]);
    let mut files = files(&[("/h/.profile", "one")]);
    add(". env\n", &rcfiles, &mut files);
    let once = files.clone();
    add(". env\n", &rcfiles, &mut files);
    assert_eq!(files, once);
}

#[test]
fn removal_undoes_addition() {
    let rcfiles = paths(&["/h/.profile"]);
    let mut files = files(&[("/h/.profile", "one\n")]);
    add(". env\n", &rcfiles, &mut files);
    assert_eq!(files[b"/h/.profile".as_slice()], "one\n. env\n");
    remove(". env", &rcfiles, &mut files);
    assert_eq!(files[b"/h/.profile".as_slice()], "one\n");
}

#[test]
fn rcfile_without_a_parent_is_an_error() {
    let rcfiles = paths(&["/h/.profile", "/"]);
    let mut files = Files::new();
    assert_eq!(add(". env", &rcfiles, &mut files), Some(1));
    assert_eq!(files[b"/h/.profile".as_slice()], ". env");
}

#[test]
fn removal_undoes_addition_of_a_line() {
    let rcfiles = paths(&["/h/.profile"]);
    let mut files = files(&[("/h/.profile", "one")]);
    add(". env", &rcfiles, &mut files);
    files
        .get_mut(b"/h/.profile".as_slice())
        .unwrap()
        .push('\n');
    assert_eq!(files[b"/h/.profile".as_slice()], "one\n. env\n");
    remove(". env", &rcfiles, &mut files);
    assert_eq!(files[b"/h/.profile".as_slice()], "one\n");
}

#[test]
fn adding_to_all_twice_is_adding_once() {
    // The last rcfile ends the walk, each time.
    let rcfiles = paths(&["/h/.profile", "/h/.bashrc", "/h/.profile", "/"]);
    let mut files = files(&[("/h/.profile", "one"), ("/h/.other", "kept")]);
    assert_eq!(add(". env", &rcfiles, &mut files), Some(3));
    let once = files.clone();
    assert_eq!(once[b"/h/.profile".as_slice()], "one\n. env");
    assert_eq!(once[b"/h/.bashrc".as_slice()], ". env");
    assert_eq!(once[b"/h/.other".as_slice()], "kept");
    assert_eq!(once.len(), 3);
    assert_eq!(add(". env", &rcfiles, &mut files), Some(3));
    assert_eq!(files, once);
}

#[test]
fn removing_from_all_undoes_adding() {
    let rcfiles = paths(&["/h/.profile", "/h/.bashrc", "/h/.zshenv"]);
    let mut files = files(&[
        ("/h/.profile", "one"),
        ("/h/.zshenv", "two\n"),
        ("/h/.other", "kept"),
    ]);
    add(". env\n", &rcfiles, &mut files);
    remove(". env", &rcfiles, &mut files);
    assert_eq!(files[b"/h/.profile".as_slice()], "one\n");
    assert_eq!(files[b"/h/.bashrc".as_slice()], "");
    assert_eq!(files[b"/h/.zshenv".as_slice()], "two\n");
    assert_eq!(files[b"/h/.other".as_slice()], "kept");
}
