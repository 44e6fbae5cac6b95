//! Upkeep of the shell profiles (rcfiles) that put the installed tools on the
//! search path.
//!
//! Each operation walks over the rcfiles and alternates file access with
//! decisions. The decisions stand here: from what the last access brought to the
//! access that comes next. An access that failed ends the walk.

use vstd::prelude::*;
use vstd::string::*;
use vstd::utf8::*;

use crate::path::{parent_of, UnixPath};
use crate::text::{
    contains_part, ends_line, ends_with_newline, first_line, holds_part, lemma_encode_joined,
    remove_line, text_bytes, without_line, NEWLINE,
};

verus! {

/// What the last access to the rcfiles brought, while lines are removed.
#[derive(Debug)]
pub enum RemovalEvent {
    /// Nothing was accessed yet.
    Begin,
    /// Whether the rcfile is an existing file.
    Checked { index: usize, is_file: bool },
    /// The text of the rcfile.
    Loaded { index: usize, contents: String },
    /// The rcfile holds its new text.
    Stored { index: usize },
    /// The access failed.
    Failed,
}

/// The next access to the rcfiles, while lines are removed.
#[derive(Debug)]
pub enum RemovalAction {
    /// Find out whether the rcfile is an existing file.
    Check { index: usize },
    /// Read the rcfile.
    Load { index: usize },
    /// Replace the text of the rcfile.
    Store { index: usize, contents: String },
    /// All rcfiles are done.
    Done,
    /// Give up with the error of the failed access.
    Fail,
}

/// A removal event, with the text as bytes.
pub enum RemovalEventView {
    Begin,
    Checked { index: int, is_file: bool },
    Loaded { index: int, contents: Seq<u8> },
    Stored { index: int },
    Failed,
}

/// A removal action, with the text as bytes.
pub enum RemovalActionView {
    Check { index: int },
    Load { index: int },
    Store { index: int, contents: Seq<u8> },
    Done,
    Fail,
}

impl View for RemovalEvent {
    type V = RemovalEventView;

    open spec fn view(&self) -> RemovalEventView {
        match self {
            RemovalEvent::Begin => RemovalEventView::Begin,
            RemovalEvent::Checked { index, is_file } => RemovalEventView::Checked {
                index: *index as int,
                is_file: *is_file,
            },
            RemovalEvent::Loaded { index, contents } => RemovalEventView::Loaded {
                index: *index as int,
                contents: encode_utf8(contents@),
            },
            RemovalEvent::Stored { index } => RemovalEventView::Stored { index: *index as int },
            RemovalEvent::Failed => RemovalEventView::Failed,
        }
    }
}

impl View for RemovalAction {
    type V = RemovalActionView;

    open spec fn view(&self) -> RemovalActionView {
        match self {
            RemovalAction::Check { index } => RemovalActionView::Check { index: *index as int },
            RemovalAction::Load { index } => RemovalActionView::Load { index: *index as int },
            RemovalAction::Store { index, contents } => RemovalActionView::Store {
                index: *index as int,
                contents: encode_utf8(contents@),
            },
            RemovalAction::Done => RemovalActionView::Done,
            RemovalAction::Fail => RemovalActionView::Fail,
        }
    }
}

/// Go on with the rcfile at `index`, where there is one.
pub open spec fn check_from(count: nat, index: int) -> RemovalActionView {
    if index < count {
        RemovalActionView::Check { index }
    } else {
        RemovalActionView::Done
    }
}

/// How the walk that removes `line` from `count` rcfiles goes on: each existing
/// file is read, and rewritten without the first of its lines that is `line`
/// where it has one.
pub open spec fn removal_step(
    line: Seq<u8>,
    count: nat,
    event: RemovalEventView,
) -> RemovalActionView {
    match event {
        RemovalEventView::Begin => check_from(count, 0),
        RemovalEventView::Checked { index, is_file } => if is_file {
            RemovalActionView::Load { index }
        } else {
            check_from(count, index + 1)
        },
        RemovalEventView::Loaded { index, contents } => if first_line(contents, line) is Some {
            RemovalActionView::Store { index, contents: without_line(contents, line) }
        } else {
            check_from(count, index + 1)
        },
        RemovalEventView::Stored { index } => check_from(count, index + 1),
        RemovalEventView::Failed => RemovalActionView::Fail,
    }
}

/// The line that holds `command` alone.
pub open spec fn command_line(command: Seq<u8>) -> Seq<u8> {
    command.push(NEWLINE)
}

fn check_next(count: usize, index: usize) -> (r: RemovalAction)
    ensures
        r@ == check_from(count as nat, index + 1),
{
    if index < count && index + 1 < count {
        RemovalAction::Check { index: index + 1 }
    } else {
        RemovalAction::Done
    }
}

/// Removes the line `source_cmd`, its newline included, from each existing
/// rcfile: the access that follows on `event`.
pub fn remove_legacy_source_command(
    source_cmd: &str,
    rcfiles: &[UnixPath],
    event: RemovalEvent,
) -> (r: RemovalAction)
    requires
        event is Loaded ==> ends_line(text_bytes(source_cmd)),
    ensures
        r@ == removal_step(text_bytes(source_cmd), rcfiles@.len(), event@),
{
    let count: usize = rcfiles.len();
    match event {
        RemovalEvent::Begin => if count > 0 {
            RemovalAction::Check { index: 0 }
        } else {
            RemovalAction::Done
        },
        RemovalEvent::Checked { index, is_file } => if is_file {
            RemovalAction::Load { index }
        } else {
            check_next(count, index)
        },
        RemovalEvent::Loaded { index, contents } => match remove_line(
            contents.as_str(),
            source_cmd,
        ) {
            Some(kept) => RemovalAction::Store { index, contents: kept },
            None => check_next(count, index),
        },
        RemovalEvent::Stored { index } => check_next(count, index),
        RemovalEvent::Failed => RemovalAction::Fail,
    }
}

/// The newline as a text has one byte.
proof fn lemma_newline_text()
    ensures
        encode_utf8("\n"@) == seq![NEWLINE],
{
    reveal_strlit("\n");
    assert(is_ascii_chars("\n"@));
    is_ascii_chars_encode_utf8("\n"@);
    assert(encode_utf8("\n"@) =~= seq![NEWLINE]);
}

/// Removes the first exact line that is `command` from each existing rcfile: the
/// access that follows on `event`.
pub fn remove_path_setup_from_rcfiles(
    command: &str,
    rcfiles: &[UnixPath],
    event: RemovalEvent,
) -> (r: RemovalAction)
    ensures
        r@ == removal_step(command_line(text_bytes(command)), rcfiles@.len(), event@),
{
    let mut line: String = command.to_owned();
    line.append("\n");
    proof {
        lemma_newline_text();
        lemma_encode_joined(command@, "\n"@);
        assert(encode_utf8(line@) =~= command_line(text_bytes(command)));
    }
    remove_legacy_source_command(line.as_str(), rcfiles, event)
}

/// Which of the two lines that older installers wrote is being removed.
#[derive(Debug, Clone, Copy, PartialEq, Eq, Structural)]
pub enum LegacyPass {
    /// The line that extends `PATH`, written before shells had scripts of their own.
    ExportPath,
    /// The line that reads the script with `source`, which not every shell has.
    SourceEnv,
}

/// The line that a pass removes, for the home directory `cargo_home`.
pub open spec fn legacy_line(pass: LegacyPass, cargo_home: Seq<u8>) -> Seq<u8> {
    match pass {
        LegacyPass::ExportPath => encode_utf8("export PATH=\""@) + cargo_home + encode_utf8(
            "/bin:$PATH\"\n"@,
        ),
        LegacyPass::SourceEnv => encode_utf8("source \""@) + cargo_home + encode_utf8("/env\"\n"@),
    }
}

/// How the walk over the rcfiles goes on, one pass after the other.
pub open spec fn legacy_step(
    cargo_home: Seq<u8>,
    count: nat,
    pass: LegacyPass,
    event: RemovalEventView,
) -> (LegacyPass, RemovalActionView) {
    let action = removal_step(legacy_line(pass, cargo_home), count, event);
    if action is Done && pass == LegacyPass::ExportPath {
        (
            LegacyPass::SourceEnv,
            removal_step(
                legacy_line(LegacyPass::SourceEnv, cargo_home),
                count,
                RemovalEventView::Begin,
            ),
        )
    } else {
        (pass, action)
    }
}

/// `text` with `before` in front of it and `after` behind it.
fn enclose(before: &str, text: &str, after: &str) -> (r: String)
    ensures
        r@ == before@ + text@ + after@,
        encode_utf8(r@) == encode_utf8(before@) + encode_utf8(text@) + encode_utf8(after@),
{
    let mut r: String = before.to_owned();
    r.append(text);
    r.append(after);
    proof {
        lemma_encode_joined(before@, text@);
        lemma_encode_joined(before@ + text@, after@);
    }
    r
}

/// The line that a pass removes, for the home directory `cargo_home`.
fn legacy_command(pass: LegacyPass, cargo_home: &str) -> (r: String)
    ensures
        encode_utf8(r@) == legacy_line(pass, text_bytes(cargo_home)),
        ends_line(encode_utf8(r@)),
{
    proof {
        reveal_strlit("/bin:$PATH\"\n");
        reveal_strlit("/env\"\n");
        assert(is_ascii_chars("/bin:$PATH\"\n"@));
        assert(is_ascii_chars("/env\"\n"@));
        is_ascii_chars_encode_utf8("/bin:$PATH\"\n"@);
        is_ascii_chars_encode_utf8("/env\"\n"@);
        assert("/bin:$PATH\"\n"@[11] == '\n');
        assert("/env\"\n"@[5] == '\n');
        assert(encode_utf8("/bin:$PATH\"\n"@)[11] == NEWLINE);
        assert(encode_utf8("/env\"\n"@)[5] == NEWLINE);
    }
    match pass {
        LegacyPass::ExportPath => enclose("export PATH=\"", cargo_home, "/bin:$PATH\"\n"),
        LegacyPass::SourceEnv => enclose("source \"", cargo_home, "/env\"\n"),
    }
}

/// Removes the lines that older installers wrote for the home directory
/// `cargo_home` from each existing rcfile: the access that follows on `event`,
/// and the pass that it belongs to.
pub fn remove_legacy_paths(
    cargo_home: &str,
    rcfiles: &[UnixPath],
    pass: LegacyPass,
    event: RemovalEvent,
) -> (r: (LegacyPass, RemovalAction))
    ensures
        (r.0, r.1@) == legacy_step(text_bytes(cargo_home), rcfiles@.len(), pass, event@),
{
    let command = legacy_command(pass, cargo_home);
    let action = remove_legacy_source_command(command.as_str(), rcfiles, event);
    match (pass, action) {
        (LegacyPass::ExportPath, RemovalAction::Done) => {
            let second = legacy_command(LegacyPass::SourceEnv, cargo_home);
            (
                LegacyPass::SourceEnv,
                remove_legacy_source_command(second.as_str(), rcfiles, RemovalEvent::Begin),
            )
        },
        (_, action) => (pass, action),
    }
}

/// What the last access to the rcfiles brought, while a command is added.
#[derive(Debug)]
pub enum AdditionEvent {
    /// Nothing was accessed yet.
    Begin,
    /// The text of the rcfile, or nothing where it could not be read.
    Loaded { index: usize, contents: Option<String> },
    /// The rcfile was extended.
    Appended { index: usize },
    /// The access failed.
    Failed,
}

/// The next access to the rcfiles, while a command is added.
#[derive(Debug)]
pub enum AdditionAction {
    /// Read the rcfile.
    Load { index: usize },
    /// See to it that `dir` exists, then extend the rcfile by `text`.
    Append { index: usize, dir: UnixPath, text: String },
    /// Give up: the path of the rcfile has no parent directory.
    NoParent { index: usize },
    /// All rcfiles are done.
    Done,
    /// Give up with the error of the failed access.
    Fail,
}

/// An addition event, with the text as bytes.
pub enum AdditionEventView {
    Begin,
    Loaded { index: int, contents: Option<Seq<u8>> },
    Appended { index: int },
    Failed,
}

/// An addition action, with path and text as bytes.
pub enum AdditionActionView {
    Load { index: int },
    Append { index: int, dir: Seq<u8>, text: Seq<u8> },
    NoParent { index: int },
    Done,
    Fail,
}

/// The bytes of a text that may be missing.
pub open spec fn optional_bytes(contents: Option<String>) -> Option<Seq<u8>> {
    match contents {
        Some(text) => Some(encode_utf8(text@)),
        None => None,
    }
}

impl View for AdditionEvent {
    type V = AdditionEventView;

    open spec fn view(&self) -> AdditionEventView {
        match self {
            AdditionEvent::Begin => AdditionEventView::Begin,
            AdditionEvent::Loaded { index, contents } => AdditionEventView::Loaded {
                index: *index as int,
                contents: optional_bytes(*contents),
            },
            AdditionEvent::Appended { index } => AdditionEventView::Appended {
                index: *index as int,
            },
            AdditionEvent::Failed => AdditionEventView::Failed,
        }
    }
}

impl View for AdditionAction {
    type V = AdditionActionView;

    open spec fn view(&self) -> AdditionActionView {
        match self {
            AdditionAction::Load { index } => AdditionActionView::Load { index: *index as int },
            AdditionAction::Append { index, dir, text } => AdditionActionView::Append {
                index: *index as int,
                dir: dir@,
                text: encode_utf8(text@),
            },
            AdditionAction::NoParent { index } => AdditionActionView::NoParent {
                index: *index as int,
            },
            AdditionAction::Done => AdditionActionView::Done,
            AdditionAction::Fail => AdditionActionView::Fail,
        }
    }
}

/// Whether a text already holds the command.
pub open spec fn has_command(contents: Option<Seq<u8>>, command: Seq<u8>) -> bool {
    contents is Some && holds_part(contents.unwrap(), command)
}

/// What extends a text so that the command starts a line of its own: a text
/// that was read and does not end its last line gets a newline first.
pub open spec fn addition(contents: Option<Seq<u8>>, command: Seq<u8>) -> Seq<u8> {
    if contents is Some && !ends_line(contents.unwrap()) {
        seq![NEWLINE] + command
    } else {
        command
    }
}

/// Go on with the rcfile at `index`, where there is one.
pub open spec fn load_from(count: nat, index: int) -> AdditionActionView {
    if index < count {
        AdditionActionView::Load { index }
    } else {
        AdditionActionView::Done
    }
}

/// How the walk that adds `command` to the rcfiles goes on: each is read, and
/// extended unless it already holds the command.
pub open spec fn addition_step(
    command: Seq<u8>,
    rcfiles: Seq<Seq<u8>>,
    event: AdditionEventView,
) -> AdditionActionView {
    match event {
        AdditionEventView::Begin => load_from(rcfiles.len(), 0),
        AdditionEventView::Loaded { index, contents } => if has_command(contents, command) {
            load_from(rcfiles.len(), index + 1)
        } else {
            match parent_of(rcfiles[index]) {
                Some(dir) => AdditionActionView::Append {
                    index,
                    dir,
                    text: addition(contents, command),
                },
                None => AdditionActionView::NoParent { index },
            }
        },
        AdditionEventView::Appended { index } => load_from(rcfiles.len(), index + 1),
        AdditionEventView::Failed => AdditionActionView::Fail,
    }
}

/// The paths of a list, by value.
pub open spec fn path_values(paths: Seq<UnixPath>) -> Seq<Seq<u8>> {
    Seq::new(paths.len(), |i: int| paths[i]@)
}

fn load_next(count: usize, index: usize) -> (r: AdditionAction)
    ensures
        r@ == load_from(count as nat, index + 1),
{
    if index < count && index + 1 < count {
        AdditionAction::Load { index: index + 1 }
    } else {
        AdditionAction::Done
    }
}

/// Adds `source_cmd` to each rcfile that does not hold it: the access that
/// follows on `event`.
pub fn add_path_setup_to_rcfiles(
    source_cmd: &str,
    rcfiles: &[UnixPath],
    event: AdditionEvent,
) -> (r: AdditionAction)
    requires
        event matches AdditionEvent::Loaded { index, .. } ==> index < rcfiles@.len(),
    ensures
        r@ == addition_step(text_bytes(source_cmd), path_values(rcfiles@), event@),
{
    let count: usize = rcfiles.len();
    match event {
        AdditionEvent::Begin => if count > 0 {
            AdditionAction::Load { index: 0 }
        } else {
            AdditionAction::Done
        },
        AdditionEvent::Loaded { index, contents } => {
            let mut text: String = String::new();
            match contents {
                Some(read) => {
                    if contains_part(read.as_str(), source_cmd) {
                        return load_next(count, index);
                    }
                    if !ends_with_newline(read.as_str()) {
                        text.append("\n");
                    }
                },
                None => {},
            }
            let ghost lead = text@;
            text.append(source_cmd);
            proof {
                lemma_newline_text();
                lemma_encode_joined(lead, source_cmd@);
                assert(encode_utf8(Seq::<char>::empty()) =~= seq![]);
                assert(Seq::<u8>::empty() + text_bytes(source_cmd) =~= text_bytes(source_cmd));
                assert(Seq::<char>::empty() + "\n"@ =~= "\n"@);
                assert(encode_utf8(text@) == addition(event@->Loaded_contents, text_bytes(source_cmd)));
            }
            match rcfiles[index].parent() {
                Some(dir) => AdditionAction::Append { index, dir, text },
                None => AdditionAction::NoParent { index },
            }
        },
        AdditionEvent::Appended { index } => load_next(count, index),
        AdditionEvent::Failed => AdditionAction::Fail,
    }
}

} // verus!
