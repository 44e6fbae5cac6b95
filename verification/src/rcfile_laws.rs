//! What the walks over the rcfiles come to, on files that can all be accessed,
//! and how adding and removing a command undo each other.

use vstd::prelude::*;
use vstd::utf8::*;

use crate::path::{parent_of, UnixPath};
use crate::rcfiles::{
    addition, addition_step, command_line, has_command, legacy_line, legacy_step, path_values,
    removal_step, AdditionAction, AdditionActionView, AdditionEvent, AdditionEventView, LegacyPass,
    RemovalAction, RemovalActionView, RemovalEvent, RemovalEventView,
};
use crate::text::{
    ends_line, first_line, found_line_is_the_first_whole_line, lemma_first_line_from, line_at,
    line_that_stands_is_found, part_is_held_where_it_stands, removal_keeps_the_rest_in_place,
    removed_line_can_be_put_back, stands_at, without_line, NEWLINE,
};

verus! {

/// The text of each existing file, by the bytes of its path.
pub type Files = Map<Seq<u8>, Seq<u8>>;

/// Whether an event speaks of one of `count` rcfiles.
pub open spec fn removal_event_in_range(count: nat, event: RemovalEventView) -> bool {
    match event {
        RemovalEventView::Begin => true,
        RemovalEventView::Checked { index, .. } => 0 <= index < count,
        RemovalEventView::Loaded { index, .. } => 0 <= index < count,
        RemovalEventView::Stored { index } => 0 <= index < count,
        RemovalEventView::Failed => true,
    }
}

/// How far a removal has to go after an event.
pub open spec fn removal_distance(count: nat, event: RemovalEventView) -> int {
    match event {
        RemovalEventView::Begin => (4 * count + 4) as int,
        RemovalEventView::Checked { index, .. } => 4 * (count - index) + 3,
        RemovalEventView::Loaded { index, .. } => 4 * (count - index) + 2,
        RemovalEventView::Stored { index } => 4 * (count - index) + 1,
        RemovalEventView::Failed => 0,
    }
}

/// What an access does to the files, and what it brings. `None` ends the walk.
pub open spec fn removal_access(
    rcfiles: Seq<Seq<u8>>,
    files: Files,
    action: RemovalActionView,
) -> Option<(Files, RemovalEventView)> {
    match action {
        RemovalActionView::Check { index } => Some(
            (
                files,
                RemovalEventView::Checked { index, is_file: files.contains_key(rcfiles[index]) },
            ),
        ),
        RemovalActionView::Load { index } => Some(
            (files, RemovalEventView::Loaded { index, contents: files[rcfiles[index]] }),
        ),
        RemovalActionView::Store { index, contents } => Some(
            (files.insert(rcfiles[index], contents), RemovalEventView::Stored { index }),
        ),
        RemovalActionView::Done => None,
        RemovalActionView::Fail => None,
    }
}

/// The files once the walk that removes `line`, taken up after `event`, is over.
pub open spec fn removal_result(
    line: Seq<u8>,
    rcfiles: Seq<Seq<u8>>,
    files: Files,
    event: RemovalEventView,
) -> Files
    decreases removal_distance(rcfiles.len(), event),
    when removal_event_in_range(rcfiles.len(), event)
{
    match removal_access(rcfiles, files, removal_step(line, rcfiles.len(), event)) {
        Some((after, next)) => removal_result(line, rcfiles, after, next),
        None => files,
    }
}

/// The files with `line` removed once from the existing file at `path`.
pub open spec fn removed_at(line: Seq<u8>, path: Seq<u8>, files: Files) -> Files {
    if files.contains_key(path) {
        files.insert(path, without_line(files[path], line))
    } else {
        files
    }
}

/// The files with `line` removed once for each rcfile from `from` on, in turn.
pub open spec fn removed_from(
    line: Seq<u8>,
    rcfiles: Seq<Seq<u8>>,
    from: int,
    files: Files,
) -> Files
    decreases rcfiles.len() - from,
{
    if 0 <= from < rcfiles.len() {
        removed_from(line, rcfiles, from + 1, removed_at(line, rcfiles[from], files))
    } else {
        files
    }
}

proof fn lemma_removal_from_check(
    line: Seq<u8>,
    rcfiles: Seq<Seq<u8>>,
    index: int,
    files: Files,
)
    requires
        0 <= index < rcfiles.len(),
    ensures
        removal_result(
            line,
            rcfiles,
            files,
            RemovalEventView::Checked { index, is_file: files.contains_key(rcfiles[index]) },
        ) == removed_from(line, rcfiles, index, files),
    decreases rcfiles.len() - index,
{
    let path = rcfiles[index];
    let checked = RemovalEventView::Checked { index, is_file: files.contains_key(path) };
    let after = removed_at(line, path, files);
    if files.contains_key(path) {
        let loaded = RemovalEventView::Loaded { index, contents: files[path] };
        assert(removal_result(line, rcfiles, files, checked) == removal_result(
            line,
            rcfiles,
            files,
            loaded,
        ));
        if first_line(files[path], line) is Some {
            let stored = RemovalEventView::Stored { index };
            assert(removal_result(line, rcfiles, files, loaded) == removal_result(
                line,
                rcfiles,
                after,
                stored,
            ));
        } else {
            assert(after =~= files);
        }
    }
    if index + 1 < rcfiles.len() {
        lemma_removal_from_check(line, rcfiles, index + 1, after);
    } else {
        assert(removed_from(line, rcfiles, index + 1, after) == after);
    }
}

/// The walk that removes a line removes it once for each rcfile that exists, in
/// turn, and does nothing else to any file.
pub proof fn removal_removes_from_each_rcfile(line: Seq<u8>, rcfiles: Seq<Seq<u8>>, files: Files)
    ensures
        removal_result(line, rcfiles, files, RemovalEventView::Begin) == removed_from(
            line,
            rcfiles,
            0,
            files,
        ),
{
    if rcfiles.len() > 0 {
        lemma_removal_from_check(line, rcfiles, 0, files);
    }
}

/// What stands at each path once a line is removed from the rcfiles, where none
/// is listed twice.
pub proof fn removal_leaves_other_files(
    line: Seq<u8>,
    rcfiles: Seq<Seq<u8>>,
    from: int,
    files: Files,
)
    requires
        0 <= from <= rcfiles.len(),
        rcfiles.no_duplicates(),
    ensures
        removed_from(line, rcfiles, from, files).dom() == files.dom(),
        forall|path: Seq<u8>|
            #![trigger removed_from(line, rcfiles, from, files)[path]]
            files.contains_key(path) ==> removed_from(line, rcfiles, from, files)[path] == (
            if exists|i: int| from <= i < rcfiles.len() && rcfiles[i] == path {
                without_line(files[path], line)
            } else {
                files[path]
            }),
    decreases rcfiles.len() - from,
{
    if from < rcfiles.len() {
        let after = removed_at(line, rcfiles[from], files);
        removal_leaves_other_files(line, rcfiles, from + 1, after);
        let result = removed_from(line, rcfiles, from, files);
        assert(after.dom() =~= files.dom());
        assert(result == removed_from(line, rcfiles, from + 1, after));
        assert forall|path: Seq<u8>|
            #![trigger removed_from(line, rcfiles, from, files)[path]]
            files.contains_key(path) implies result[path] == (if exists|i: int|
            from <= i < rcfiles.len() && rcfiles[i] == path {
            without_line(files[path], line)
        } else {
            files[path]
        }) by {
            let later = exists|i: int| from + 1 <= i < rcfiles.len() && rcfiles[i] == path;
            assert(removed_from(line, rcfiles, from + 1, after)[path] == (if later {
                without_line(after[path], line)
            } else {
                after[path]
            }));
            if path == rcfiles[from] {
                assert(!later);
            }
            if exists|i: int| from <= i < rcfiles.len() && rcfiles[i] == path {
                let i = choose|i: int| from <= i < rcfiles.len() && rcfiles[i] == path;
                if i != from {
                    assert(from + 1 <= i < rcfiles.len() && rcfiles[i] == path);
                    assert(later);
                }
            }
        }
    }
}

/// The files once the walk that removes both legacy lines, taken up in `pass`
/// after `event`, is over.
pub open spec fn legacy_result(
    cargo_home: Seq<u8>,
    rcfiles: Seq<Seq<u8>>,
    files: Files,
    pass: LegacyPass,
    event: RemovalEventView,
) -> Files
    decreases
            (if pass == LegacyPass::ExportPath {
                1int
            } else {
                0int
            }),
            removal_distance(rcfiles.len(), event),
    when removal_event_in_range(rcfiles.len(), event)
{
    let (next_pass, action) = legacy_step(cargo_home, rcfiles.len(), pass, event);
    match removal_access(rcfiles, files, action) {
        Some((after, next)) => legacy_result(cargo_home, rcfiles, after, next_pass, next),
        None => files,
    }
}

proof fn lemma_last_legacy_pass(
    cargo_home: Seq<u8>,
    rcfiles: Seq<Seq<u8>>,
    files: Files,
    event: RemovalEventView,
)
    requires
        removal_event_in_range(rcfiles.len(), event),
    ensures
        legacy_result(cargo_home, rcfiles, files, LegacyPass::SourceEnv, event) == removal_result(
            legacy_line(LegacyPass::SourceEnv, cargo_home),
            rcfiles,
            files,
            event,
        ),
    decreases removal_distance(rcfiles.len(), event),
{
    let line = legacy_line(LegacyPass::SourceEnv, cargo_home);
    match removal_access(rcfiles, files, removal_step(line, rcfiles.len(), event)) {
        Some((after, next)) => {
            lemma_last_legacy_pass(cargo_home, rcfiles, after, next);
        },
        None => {},
    }
}

proof fn lemma_first_legacy_pass(
    cargo_home: Seq<u8>,
    rcfiles: Seq<Seq<u8>>,
    files: Files,
    event: RemovalEventView,
)
    requires
        removal_event_in_range(rcfiles.len(), event),
        !(event is Failed),
    ensures
        legacy_result(cargo_home, rcfiles, files, LegacyPass::ExportPath, event) == removal_result(
            legacy_line(LegacyPass::SourceEnv, cargo_home),
            rcfiles,
            removal_result(
                legacy_line(LegacyPass::ExportPath, cargo_home),
                rcfiles,
                files,
                event,
            ),
            RemovalEventView::Begin,
        ),
    decreases removal_distance(rcfiles.len(), event),
{
    let line = legacy_line(LegacyPass::ExportPath, cargo_home);
    match removal_access(rcfiles, files, removal_step(line, rcfiles.len(), event)) {
        Some((after, next)) => {
            lemma_first_legacy_pass(cargo_home, rcfiles, after, next);
        },
        None => {
            lemma_last_legacy_pass(cargo_home, rcfiles, files, RemovalEventView::Begin);
        },
    }
}

/// The walk over the legacy lines removes first the one, then the other, from
/// every rcfile that exists.
pub proof fn legacy_removal_removes_both_lines(
    cargo_home: Seq<u8>,
    rcfiles: Seq<Seq<u8>>,
    files: Files,
)
    ensures
        legacy_result(
            cargo_home,
            rcfiles,
            files,
            LegacyPass::ExportPath,
            RemovalEventView::Begin,
        ) == removed_from(
            legacy_line(LegacyPass::SourceEnv, cargo_home),
            rcfiles,
            0,
            removed_from(legacy_line(LegacyPass::ExportPath, cargo_home), rcfiles, 0, files),
        ),
{
    let first = legacy_line(LegacyPass::ExportPath, cargo_home);
    let second = legacy_line(LegacyPass::SourceEnv, cargo_home);
    lemma_first_legacy_pass(cargo_home, rcfiles, files, RemovalEventView::Begin);
    removal_removes_from_each_rcfile(first, rcfiles, files);
    removal_removes_from_each_rcfile(second, rcfiles, removed_from(first, rcfiles, 0, files));
}

/// Whether an event speaks of one of `count` rcfiles.
pub open spec fn addition_event_in_range(count: nat, event: AdditionEventView) -> bool {
    match event {
        AdditionEventView::Begin => true,
        AdditionEventView::Loaded { index, .. } => 0 <= index < count,
        AdditionEventView::Appended { index } => 0 <= index < count,
        AdditionEventView::Failed => true,
    }
}

/// How far an addition has to go after an event.
pub open spec fn addition_distance(count: nat, event: AdditionEventView) -> int {
    match event {
        AdditionEventView::Begin => (3 * count + 3) as int,
        AdditionEventView::Loaded { index, .. } => 3 * (count - index) + 2,
        AdditionEventView::Appended { index } => 3 * (count - index) + 1,
        AdditionEventView::Failed => 0,
    }
}

/// The text at a path, if there is a file.
pub open spec fn text_at(files: Files, path: Seq<u8>) -> Option<Seq<u8>> {
    if files.contains_key(path) {
        Some(files[path])
    } else {
        None
    }
}

/// A text, or nothing at all for a file that is not there.
pub open spec fn text_or_nothing(contents: Option<Seq<u8>>) -> Seq<u8> {
    match contents {
        Some(text) => text,
        None => seq![],
    }
}

/// What an access does to the files, and what it brings. `None` ends the walk.
pub open spec fn addition_access(
    rcfiles: Seq<Seq<u8>>,
    files: Files,
    action: AdditionActionView,
) -> Option<(Files, AdditionEventView)> {
    match action {
        AdditionActionView::Load { index } => Some(
            (
                files,
                AdditionEventView::Loaded { index, contents: text_at(files, rcfiles[index]) },
            ),
        ),
        AdditionActionView::Append { index, dir, text } => Some(
            (
                files.insert(
                    rcfiles[index],
                    text_or_nothing(text_at(files, rcfiles[index])) + text,
                ),
                AdditionEventView::Appended { index },
            ),
        ),
        AdditionActionView::NoParent { index } => None,
        AdditionActionView::Done => None,
        AdditionActionView::Fail => None,
    }
}

/// The files once the walk that adds `command`, taken up after `event`, is over.
pub open spec fn addition_result(
    command: Seq<u8>,
    rcfiles: Seq<Seq<u8>>,
    files: Files,
    event: AdditionEventView,
) -> Files
    decreases addition_distance(rcfiles.len(), event),
    when addition_event_in_range(rcfiles.len(), event)
{
    match addition_access(rcfiles, files, addition_step(command, rcfiles, event)) {
        Some((after, next)) => addition_result(command, rcfiles, after, next),
        None => files,
    }
}

/// A text once the command was added to it: unchanged where it held the command.
pub open spec fn text_with_command(contents: Option<Seq<u8>>, command: Seq<u8>) -> Seq<u8> {
    if has_command(contents, command) {
        contents.unwrap()
    } else {
        text_or_nothing(contents) + addition(contents, command)
    }
}

/// The files with `command` added for each rcfile from `from` on, in turn, up to
/// the first that would have to be extended and has no parent directory.
pub open spec fn added_from(
    command: Seq<u8>,
    rcfiles: Seq<Seq<u8>>,
    from: int,
    files: Files,
) -> Files
    decreases rcfiles.len() - from,
{
    if 0 <= from < rcfiles.len() {
        let path = rcfiles[from];
        if !has_command(text_at(files, path), command) && parent_of(path) is None {
            files
        } else {
            added_from(
                command,
                rcfiles,
                from + 1,
                files.insert(path, text_with_command(text_at(files, path), command)),
            )
        }
    } else {
        files
    }
}

proof fn lemma_addition_from_load(
    command: Seq<u8>,
    rcfiles: Seq<Seq<u8>>,
    index: int,
    files: Files,
)
    requires
        0 <= index < rcfiles.len(),
    ensures
        addition_result(
            command,
            rcfiles,
            files,
            AdditionEventView::Loaded { index, contents: text_at(files, rcfiles[index]) },
        ) == added_from(command, rcfiles, index, files),
    decreases rcfiles.len() - index,
{
    let path = rcfiles[index];
    let contents = text_at(files, path);
    let loaded = AdditionEventView::Loaded { index, contents };
    let after = files.insert(path, text_with_command(contents, command));
    if has_command(contents, command) {
        assert(after =~= files);
    } else if parent_of(path) is Some {
        let appended = AdditionEventView::Appended { index };
        assert(addition_result(command, rcfiles, files, loaded) == addition_result(
            command,
            rcfiles,
            after,
            appended,
        ));
    }
    if has_command(contents, command) || parent_of(path) is Some {
        if index + 1 < rcfiles.len() {
            lemma_addition_from_load(command, rcfiles, index + 1, after);
        } else {
            assert(added_from(command, rcfiles, index + 1, after) == after);
        }
    }
}

/// The walk that adds a command adds it to each rcfile that does not hold it, in
/// turn, and does nothing else to any file.
pub proof fn addition_adds_to_each_rcfile(command: Seq<u8>, rcfiles: Seq<Seq<u8>>, files: Files)
    ensures
        addition_result(command, rcfiles, files, AdditionEventView::Begin) == added_from(
            command,
            rcfiles,
            0,
            files,
        ),
{
    if rcfiles.len() > 0 {
        lemma_addition_from_load(command, rcfiles, 0, files);
    }
}

/// A text to which a command was added holds it, so that adding it again leaves
/// the text as it is.
pub proof fn adding_twice_is_adding_once(contents: Option<Seq<u8>>, command: Seq<u8>)
    ensures
        has_command(Some(text_with_command(contents, command)), command),
        text_with_command(Some(text_with_command(contents, command)), command)
            == text_with_command(contents, command),
{
    let text = text_with_command(contents, command);
    if !has_command(contents, command) {
        let at = text.len() - command.len();
        assert(text.subrange(at, at + command.len()) =~= command);
        assert(stands_at(text, command, at));
    }
}

/// A text that holds the command stays as it is, whatever rcfiles are extended.
proof fn lemma_added_stays(
    command: Seq<u8>,
    rcfiles: Seq<Seq<u8>>,
    from: int,
    files: Files,
    path: Seq<u8>,
)
    requires
        0 <= from <= rcfiles.len(),
        has_command(text_at(files, path), command),
    ensures
        text_at(added_from(command, rcfiles, from, files), path) == text_at(files, path),
    decreases rcfiles.len() - from,
{
    if from < rcfiles.len() {
        let next = rcfiles[from];
        let contents = text_at(files, next);
        if has_command(contents, command) || parent_of(next) is Some {
            let after = files.insert(next, text_with_command(contents, command));
            assert(text_at(after, path) == text_at(files, path));
            lemma_added_stays(command, rcfiles, from + 1, after, path);
        }
    }
}

proof fn lemma_added_again(command: Seq<u8>, rcfiles: Seq<Seq<u8>>, from: int, files: Files)
    requires
        0 <= from <= rcfiles.len(),
    ensures
        added_from(command, rcfiles, from, added_from(command, rcfiles, from, files))
            == added_from(command, rcfiles, from, files),
    decreases rcfiles.len() - from,
{
    if from < rcfiles.len() {
        let path = rcfiles[from];
        let contents = text_at(files, path);
        if has_command(contents, command) || parent_of(path) is Some {
            let once = files.insert(path, text_with_command(contents, command));
            let after = added_from(command, rcfiles, from + 1, once);
            adding_twice_is_adding_once(contents, command);
            lemma_added_stays(command, rcfiles, from + 1, once, path);
            assert(after.insert(path, text_with_command(text_at(after, path), command)) =~= after);
            lemma_added_again(command, rcfiles, from + 1, once);
        }
    }
}

/// Adding a command to the rcfiles once more changes no file.
pub proof fn adding_to_all_twice_is_adding_once(
    command: Seq<u8>,
    rcfiles: Seq<Seq<u8>>,
    files: Files,
)
    ensures
        ({
            let once = addition_result(command, rcfiles, files, AdditionEventView::Begin);
            addition_result(command, rcfiles, once, AdditionEventView::Begin) == once
        }),
{
    let once = addition_result(command, rcfiles, files, AdditionEventView::Begin);
    addition_adds_to_each_rcfile(command, rcfiles, files);
    addition_adds_to_each_rcfile(command, rcfiles, once);
    lemma_added_again(command, rcfiles, 0, files);
}

/// What stands at `path` once a command is added to the rcfiles, where each of them
/// has a parent directory: the text with the command for an rcfile, else what stood
/// there.
pub proof fn addition_leaves_other_files(
    command: Seq<u8>,
    rcfiles: Seq<Seq<u8>>,
    from: int,
    files: Files,
    path: Seq<u8>,
)
    requires
        0 <= from <= rcfiles.len(),
        forall|i: int| from <= i < rcfiles.len() ==> parent_of(#[trigger] rcfiles[i]) is Some,
    ensures
        text_at(added_from(command, rcfiles, from, files), path) == (if exists|i: int|
            from <= i < rcfiles.len() && rcfiles[i] == path {
            Some(text_with_command(text_at(files, path), command))
        } else {
            text_at(files, path)
        }),
    decreases rcfiles.len() - from,
{
    if from < rcfiles.len() {
        let next = rcfiles[from];
        let contents = text_at(files, next);
        let after = files.insert(next, text_with_command(contents, command));
        addition_leaves_other_files(command, rcfiles, from + 1, after, path);
        let later = exists|i: int| from + 1 <= i < rcfiles.len() && rcfiles[i] == path;
        if path == next {
            adding_twice_is_adding_once(contents, command);
            assert(text_at(after, path) == Some(text_with_command(contents, command)));
        } else {
            assert(text_at(after, path) == text_at(files, path));
            if exists|i: int| from <= i < rcfiles.len() && rcfiles[i] == path {
                let i = choose|i: int| from <= i < rcfiles.len() && rcfiles[i] == path;
                assert(from + 1 <= i < rcfiles.len() && rcfiles[i] == path);
                assert(later);
            }
        }
    }
}

/// A text that was read with its last line ended; nothing for a file that was not
/// there.
pub open spec fn ended_text(contents: Option<Seq<u8>>) -> Seq<u8> {
    if contents is Some && !ends_line(contents.unwrap()) {
        contents.unwrap().push(NEWLINE)
    } else {
        text_or_nothing(contents)
    }
}

/// Removing a command that was just added as a line of its own gives back the
/// text, with its last line ended.
pub proof fn removal_undoes_addition(contents: Option<Seq<u8>>, command: Seq<u8>)
    requires
        !command.contains(NEWLINE),
        !has_command(contents, command_line(command)),
    ensures
        without_line(
            text_with_command(contents, command_line(command)),
            command_line(command),
        ) == ended_text(contents),
{
    let line = command_line(command);
    let old_text = text_or_nothing(contents);
    let kept = if contents is Some && !ends_line(contents.unwrap()) {
        old_text.push(NEWLINE)
    } else {
        old_text
    };
    let text = text_with_command(contents, line);
    assert(text =~= kept + line);
    let start = kept.len() as int;
    assert(text.subrange(start, start + line.len()) =~= line);
    assert(start > 0 ==> text[start - 1] == NEWLINE);
    assert(line_at(text, line, start));
    assert(forall|i: int| 0 <= i < line.len() - 1 ==> line[i] != NEWLINE) by {
        assert forall|i: int| 0 <= i < line.len() - 1 implies line[i] != NEWLINE by {
            assert(line[i] == command[i]);
            assert(command.contains(command[i]));
        }
    }
    lemma_first_line_from(text, line, 0);
    let at = first_line(text, line).unwrap();
    assert(first_line(text, line) is Some);
    assert(at <= start);
    if at < start {
        let window = text.subrange(at, at + line.len());
        assert(window == line);
        if at + line.len() < start {
            assert(old_text.subrange(at, at + line.len()) =~= line);
            assert(stands_at(old_text, line, at));
        } else if at + line.len() > start {
            assert(window[start - 1 - at] == text[start - 1]);
            assert(line[start - 1 - at] != NEWLINE);
        } else if kept == old_text {
            assert(old_text.subrange(at, at + line.len()) =~= line);
            assert(stands_at(old_text, line, at));
        }
        assert(at + line.len() == start);
        assert(kept =~= text.subrange(0, at) + line);
        assert(text.subrange(at + line.len(), text.len() as int) =~= line);
        assert(without_line(text, line) =~= kept);
    } else {
        assert(text.subrange(at + line.len(), text.len() as int) =~= seq![]);
        assert(without_line(text, line) =~= kept);
    }
}

/// Where the rcfile is extended by a whole line, a newline following on the text:
/// removing a command that was just added so gives back the text, with its last
/// line ended.
pub proof fn removal_undoes_addition_of_a_line(contents: Option<Seq<u8>>, command: Seq<u8>)
    requires
        !command.contains(NEWLINE),
        !has_command(contents, command),
    ensures
        without_line(
            text_with_command(contents, command).push(NEWLINE),
            command_line(command),
        ) == ended_text(contents),
{
    let line = command_line(command);
    if has_command(contents, line) {
        let text = contents.unwrap();
        let at = choose|at: int| stands_at(text, line, at);
        assert(text.subrange(at, at + command.len()) =~= text.subrange(
            at,
            at + line.len(),
        ).drop_last());
        assert(line.drop_last() =~= command);
        assert(stands_at(text, command, at));
    }
    assert(text_with_command(contents, command).push(NEWLINE) =~= text_with_command(
        contents,
        line,
    ));
    removal_undoes_addition(contents, command);
}

/// Removing a command from the rcfiles to which it was just added as a line of its
/// own gives each of them its text back, with its last line ended, and leaves every
/// other file as it was. (Each rcfile is listed once, has a parent directory, and did
/// not hold the line.)
pub proof fn removing_from_all_undoes_adding(
    command: Seq<u8>,
    rcfiles: Seq<Seq<u8>>,
    files: Files,
    path: Seq<u8>,
)
    requires
        !command.contains(NEWLINE),
        rcfiles.no_duplicates(),
        forall|i: int| 0 <= i < rcfiles.len() ==> parent_of(#[trigger] rcfiles[i]) is Some,
        forall|i: int|
            0 <= i < rcfiles.len() ==> !has_command(
                text_at(files, #[trigger] rcfiles[i]),
                command_line(command),
            ),
    ensures
        ({
            let line = command_line(command);
            let added = addition_result(line, rcfiles, files, AdditionEventView::Begin);
            text_at(removal_result(line, rcfiles, added, RemovalEventView::Begin), path) == (
            if rcfiles.contains(path) {
                Some(ended_text(text_at(files, path)))
            } else {
                text_at(files, path)
            })
        }),
{
    let line = command_line(command);
    let added = added_from(line, rcfiles, 0, files);
    let removed = removed_from(line, rcfiles, 0, added);
    addition_adds_to_each_rcfile(line, rcfiles, files);
    removal_removes_from_each_rcfile(line, rcfiles, added);
    addition_leaves_other_files(line, rcfiles, 0, files, path);
    removal_leaves_other_files(line, rcfiles, 0, added);
    let listed = exists|i: int| 0 <= i < rcfiles.len() && rcfiles[i] == path;
    assert(listed == rcfiles.contains(path));
    assert(removed.contains_key(path) == added.contains_key(path));
    if added.contains_key(path) {
        assert(removed[path] == (if listed {
            without_line(added[path], line)
        } else {
            added[path]
        }));
    }
    if listed {
        let i = choose|i: int| 0 <= i < rcfiles.len() && rcfiles[i] == path;
        assert(!has_command(text_at(files, rcfiles[i]), line));
        removal_undoes_addition(text_at(files, path), command);
    }
}

/// A text that holds no such line stays as it is, and one that does loses
/// exactly the bytes of one line.
pub proof fn removal_takes_one_line(text: Seq<u8>, line: Seq<u8>)
    requires
        line.len() > 0,
    ensures
        without_line(text, line) == text <==> first_line(text, line) is None,
        first_line(text, line) is Some ==> without_line(text, line).len() == text.len()
            - line.len(),
{
    lemma_first_line_from(text, line, 0);
}

/// A removal visits the rcfiles one by one: it begins with the first, and goes on from
/// each to the next until there is none. Only existing files are read, and a failed
/// access ends it.
pub proof fn removal_visits_each_rcfile(line: Seq<u8>, count: nat, index: int, is_file: bool)
    requires
        0 <= index,
    ensures
        removal_step(line, count, RemovalEventView::Begin) == (if count > 0 {
            RemovalActionView::Check { index: 0 }
        } else {
            RemovalActionView::Done
        }),
        is_file ==> removal_step(line, count, RemovalEventView::Checked { index, is_file }) == (
        RemovalActionView::Load { index }),
        !is_file ==> removal_step(line, count, RemovalEventView::Checked { index, is_file }) == (
        if index + 1 < count {
            RemovalActionView::Check { index: index + 1 }
        } else {
            RemovalActionView::Done
        }),
        removal_step(line, count, RemovalEventView::Stored { index }) == (if index + 1 < count {
            RemovalActionView::Check { index: index + 1 }
        } else {
            RemovalActionView::Done
        }),
        removal_step(line, count, RemovalEventView::Failed) == RemovalActionView::Fail,
{
}

/// A text that was read is rewritten exactly where the line stands in it as a whole
/// line (`at` is any such place), and then without the bytes of one such line: there is
/// a place for the line in the new text that gives the old one back.
pub proof fn rewritten_text_lost_one_line(
    line: Seq<u8>,
    count: nat,
    index: int,
    text: Seq<u8>,
    at: int,
)
    requires
        0 <= index,
        line.len() > 0,
    ensures
        ({
            let action = removal_step(
                line,
                count,
                RemovalEventView::Loaded { index, contents: text },
            );
            &&& 0 <= at && at + line.len() <= text.len() && text.subrange(at, at + line.len())
                == line && (at == 0 || text[at - 1] == 10) ==> action is Store
            &&& action matches RemovalActionView::Store { index: stored, contents } ==> {
                &&& stored == index
                &&& exists|cut: int|
                    #![trigger contents.take(cut)]
                    0 <= cut <= contents.len() && contents.take(cut) + line + contents.skip(cut)
                        == text && (cut == 0 || text[cut - 1] == 10)
            }
            &&& !(action is Store) ==> action == (if index + 1 < count {
                RemovalActionView::Check { index: index + 1 }
            } else {
                RemovalActionView::Done
            })
        }),
{
    if 0 <= at && at + line.len() <= text.len() && text.subrange(at, at + line.len()) == line && (at
        == 0 || text[at - 1] == 10) {
        line_that_stands_is_found(text, line, at);
    }
    if first_line(text, line) is Some {
        let cut = first_line(text, line)->0;
        let rest = without_line(text, line);
        found_line_is_the_first_whole_line(text, line, cut, 0);
        removed_line_can_be_put_back(text, line);
        removal_keeps_the_rest_in_place(text, line, 0);
        assert(rest.take(cut) =~= rest.subrange(0, cut));
        assert(rest.skip(cut) =~= rest.subrange(cut, rest.len() as int));
        let action = removal_step(line, count, RemovalEventView::Loaded { index, contents: text });
        assert(action == (RemovalActionView::Store { index, contents: rest }));
        let contents = action->contents;
        assert(contents == rest);
        assert(contents.take(cut) + line + contents.skip(cut) == text);
    }
}

/// Of several such lines the first goes, and all bytes in front of it and behind it
/// keep their order.
pub proof fn first_line_goes(
    line: Seq<u8>,
    count: nat,
    index: int,
    text: Seq<u8>,
    at: int,
    contents: Seq<u8>,
    i: int,
)
    requires
        0 <= index,
        line.len() > 0,
        0 <= at,
        at + line.len() <= text.len(),
        text.subrange(at, at + line.len()) == line,
        at == 0 || text[at - 1] == 10,
        forall|k: int|
            #![trigger text.skip(k)]
            0 <= k < at && text.skip(k).take(line.len() as int) == line ==> k > 0 && text[k - 1]
                != 10,
        removal_step(line, count, RemovalEventView::Loaded { index, contents: text }) == (
        RemovalActionView::Store { index, contents }),
    ensures
        contents.len() == text.len() - line.len(),
        0 <= i < at ==> contents[i] == text[i],
        at <= i < contents.len() ==> contents[i] == text[i + line.len()],
{
    line_that_stands_is_found(text, line, at);
    let first = first_line(text, line)->0;
    found_line_is_the_first_whole_line(text, line, first, at);
    if first < at {
        assert(text.skip(first).take(line.len() as int) =~= text.subrange(
            first,
            first + line.len(),
        ));
    }
    removal_keeps_the_rest_in_place(text, line, i);
}

/// The line that a command makes is the command with a newline behind it, and the lines
/// that older installers wrote enclose the home directory byte for byte.
pub proof fn lines_hold_their_commands(command: Seq<u8>, cargo_home: Seq<u8>)
    ensures
        command_line(command) == command + seq![10u8],
        legacy_line(LegacyPass::ExportPath, cargo_home) == encode_utf8("export PATH=\""@)
            + cargo_home + encode_utf8("/bin:$PATH\"\n"@),
        legacy_line(LegacyPass::SourceEnv, cargo_home) == encode_utf8("source \""@) + cargo_home
            + encode_utf8("/env\"\n"@),
{
    assert(command_line(command) =~= command + seq![10u8]);
}

/// The first pass goes on as a removal of its line does until that is done, and the
/// second begins where the first is done; nothing leads back.
pub proof fn passes_follow_on_each_other(
    cargo_home: Seq<u8>,
    count: nat,
    event: RemovalEventView,
)
    ensures
        ({
            let one = removal_step(legacy_line(LegacyPass::ExportPath, cargo_home), count, event);
            let two = removal_step(legacy_line(LegacyPass::SourceEnv, cargo_home), count, event);
            let begin = removal_step(
                legacy_line(LegacyPass::SourceEnv, cargo_home),
                count,
                RemovalEventView::Begin,
            );
            &&& one != RemovalActionView::Done ==> legacy_step(
                cargo_home,
                count,
                LegacyPass::ExportPath,
                event,
            ) == (LegacyPass::ExportPath, one)
            &&& one == RemovalActionView::Done ==> legacy_step(
                cargo_home,
                count,
                LegacyPass::ExportPath,
                event,
            ) == (LegacyPass::SourceEnv, begin)
            &&& legacy_step(cargo_home, count, LegacyPass::SourceEnv, event) == (
                LegacyPass::SourceEnv,
                two,
            )
        }),
{
}

/// An addition visits the rcfiles one by one, reading each, and goes on from one that
/// was extended to the next; a failed access ends it.
pub proof fn addition_visits_each_rcfile(command: Seq<u8>, rcfiles: Seq<Seq<u8>>, index: int)
    requires
        0 <= index,
    ensures
        addition_step(command, rcfiles, AdditionEventView::Begin) == (if rcfiles.len() > 0 {
            AdditionActionView::Load { index: 0 }
        } else {
            AdditionActionView::Done
        }),
        addition_step(command, rcfiles, AdditionEventView::Appended { index }) == (if index + 1
            < rcfiles.len() {
            AdditionActionView::Load { index: index + 1 }
        } else {
            AdditionActionView::Done
        }),
        addition_step(command, rcfiles, AdditionEventView::Failed) == AdditionActionView::Fail,
{
}

/// An rcfile is passed over only where the command stands in it, byte for byte; wherever
/// it stands, at `at` or elsewhere, the rcfile is passed over. Any other is extended, in
/// its parent directory, by text that ends in the command: by the command alone where
/// the rcfile cannot be read or ends its last line, with a newline in front where it
/// does not.
pub proof fn rcfile_is_extended_unless_it_holds_the_command(
    command: Seq<u8>,
    rcfiles: Seq<Seq<u8>>,
    index: int,
    contents: Option<Seq<u8>>,
    at: int,
)
    requires
        0 <= index < rcfiles.len(),
    ensures
        ({
            let action = addition_step(
                command,
                rcfiles,
                AdditionEventView::Loaded { index, contents },
            );
            let next = if index + 1 < rcfiles.len() {
                AdditionActionView::Load { index: index + 1 }
            } else {
                AdditionActionView::Done
            };
            &&& contents is Some && 0 <= at && at + command.len() <= contents->0.len()
                && contents->0.subrange(at, at + command.len()) == command ==> action == next
            &&& action is Load || action is Done ==> contents is Some && exists|k: int|
                #![trigger contents->0.skip(k)]
                0 <= k && k + command.len() <= contents->0.len() && contents->0.skip(k).take(
                    command.len() as int,
                ) == command
            &&& action matches AdditionActionView::Append { index: extended, dir, text } ==> {
                &&& extended == index
                &&& parent_of(rcfiles[index]) == Some(dir)
                &&& if contents is None || (contents->0.len() > 0
                    && contents->0[contents->0.len() - 1] == 10) {
                    text == command
                } else {
                    text == seq![10u8] + command
                }
            }
            &&& action matches AdditionActionView::NoParent { index: stuck } ==> stuck == index
                && parent_of(rcfiles[index]) is None
            &&& !(action is Fail)
        }),
{
    if let Some(text) = contents {
        if 0 <= at && at + command.len() <= text.len() && text.subrange(at, at + command.len())
            == command {
            assert(stands_at(text, command, at));
        }
        part_is_held_where_it_stands(seq![], command, seq![], text);
    }
}

/// Once an addition is over, the command stands, byte for byte, in every rcfile, where
/// each has a parent directory. A file in which it stood before is as it was; one in
/// which it did not has gained the command at its end, behind a newline where its last
/// line was not ended, and nothing else.
pub proof fn command_stands_in_every_rcfile(
    command: Seq<u8>,
    rcfiles: Seq<Seq<u8>>,
    files: Files,
    i: int,
)
    requires
        0 <= i < rcfiles.len(),
        forall|k: int| 0 <= k < rcfiles.len() ==> parent_of(#[trigger] rcfiles[k]) is Some,
    ensures
        ({
            let path = rcfiles[i];
            let after = addition_result(command, rcfiles, files, AdditionEventView::Begin);
            let stood = files.contains_key(path) && exists|k: int|
                #![trigger files[path].skip(k)]
                0 <= k && k + command.len() <= files[path].len() && files[path].skip(k).take(
                    command.len() as int,
                ) == command;
            &&& after.contains_key(path)
            &&& exists|k: int|
                #![trigger after[path].skip(k)]
                0 <= k && k + command.len() <= after[path].len() && after[path].skip(k).take(
                    command.len() as int,
                ) == command
            &&& stood ==> after[path] == files[path]
            &&& !stood && !files.contains_key(path) ==> after[path] == command
            &&& !stood && files.contains_key(path) && files[path].len() > 0
                && files[path][files[path].len() - 1] == 10 ==> after[path] == files[path]
                + command
            &&& !stood && files.contains_key(path) && (files[path].len() == 0
                || files[path][files[path].len() - 1] != 10) ==> after[path] == files[path] + seq![
                10u8,
            ] + command
        }),
{
    let path = rcfiles[i];
    let contents = text_at(files, path);
    let after = addition_result(command, rcfiles, files, AdditionEventView::Begin);
    addition_adds_to_each_rcfile(command, rcfiles, files);
    addition_leaves_other_files(command, rcfiles, 0, files, path);
    adding_twice_is_adding_once(contents, command);
    let stood = files.contains_key(path) && exists|k: int|
        #![trigger files[path].skip(k)]
        0 <= k && k + command.len() <= files[path].len() && files[path].skip(k).take(
            command.len() as int,
        ) == command;
    if stood {
        let k = choose|k: int|
            #![trigger files[path].skip(k)]
            0 <= k && k + command.len() <= files[path].len() && files[path].skip(k).take(
                command.len() as int,
            ) == command;
        assert(files[path].subrange(k, k + command.len()) =~= files[path].skip(k).take(
            command.len() as int,
        ));
        assert(stands_at(files[path], command, k));
        assert(has_command(contents, command));
    } else {
        if files.contains_key(path) {
            part_is_held_where_it_stands(seq![], command, seq![], files[path]);
            if !ends_line(files[path]) {
                assert(files[path] + (seq![10u8] + command) =~= files[path] + seq![10u8] + command);
            }
        } else {
            assert(Seq::<u8>::empty() + command =~= command);
        }
    }
    part_is_held_where_it_stands(seq![], command, seq![], after[path]);
}

/// Once a removal is over, there are the same files as before; every file that is no
/// rcfile is as it was; and an rcfile that is listed once has lost the bytes of one whole
/// line, or held none such.
pub proof fn removal_takes_at_most_one_line_of_each_rcfile(
    line: Seq<u8>,
    rcfiles: Seq<Seq<u8>>,
    files: Files,
    path: Seq<u8>,
    at: int,
)
    requires
        line.len() > 0,
        rcfiles.no_duplicates(),
        files.contains_key(path),
    ensures
        ({
            let after = removal_result(line, rcfiles, files, RemovalEventView::Begin);
            let text = files[path];
            &&& after.dom() == files.dom()
            &&& !rcfiles.contains(path) ==> after[path] == text
            &&& rcfiles.contains(path) && 0 <= at && at + line.len() <= text.len()
                && text.subrange(at, at + line.len()) == line && (at == 0 || text[at - 1] == 10)
                ==> after[path] != text
            &&& after[path] != text ==> exists|cut: int|
                #![trigger after[path].take(cut)]
                0 <= cut <= after[path].len() && after[path].take(cut) + line + after[path].skip(
                    cut,
                ) == text && (cut == 0 || text[cut - 1] == 10)
        }),
{
    let after = removal_result(line, rcfiles, files, RemovalEventView::Begin);
    let text = files[path];
    removal_removes_from_each_rcfile(line, rcfiles, files);
    removal_leaves_other_files(line, rcfiles, 0, files);
    let listed = exists|i: int| 0 <= i < rcfiles.len() && rcfiles[i] == path;
    assert(listed == rcfiles.contains(path));
    assert(removed_from(line, rcfiles, 0, files)[path] == (if listed {
        without_line(text, line)
    } else {
        text
    }));
    removal_keeps_the_rest_in_place(text, line, 0);
    if 0 <= at && at + line.len() <= text.len() && text.subrange(at, at + line.len()) == line && (at
        == 0 || text[at - 1] == 10) {
        line_that_stands_is_found(text, line, at);
    }
    if after[path] != text {
        let cut = first_line(text, line)->0;
        let rest = after[path];
        found_line_is_the_first_whole_line(text, line, cut, 0);
        removed_line_can_be_put_back(text, line);
        assert(rest.take(cut) =~= rest.subrange(0, cut));
        assert(rest.skip(cut) =~= rest.subrange(cut, rest.len() as int));
    }
}

/// What a step of a removal says is told with its position and the bytes of its text.
pub proof fn removals_are_told_as_they_are(event: RemovalEvent, action: RemovalAction)
    ensures
        event is Begin <==> event@ is Begin,
        event is Failed <==> event@ is Failed,
        event matches RemovalEvent::Checked { index, is_file } ==> event@ == (
        RemovalEventView::Checked { index: index as int, is_file }),
        event matches RemovalEvent::Loaded { index, contents } ==> event@ == (
        RemovalEventView::Loaded { index: index as int, contents: encode_utf8(contents@) }),
        event matches RemovalEvent::Stored { index } ==> event@ == (RemovalEventView::Stored {
            index: index as int,
        }),
        action is Done <==> action@ is Done,
        action is Fail <==> action@ is Fail,
        action matches RemovalAction::Check { index } ==> action@ == (RemovalActionView::Check {
            index: index as int,
        }),
        action matches RemovalAction::Load { index } ==> action@ == (RemovalActionView::Load {
            index: index as int,
        }),
        action matches RemovalAction::Store { index, contents } ==> action@ == (
        RemovalActionView::Store { index: index as int, contents: encode_utf8(contents@) }),
{
}

/// What a step of an addition says is told with its position and the bytes of its path
/// and text, and each rcfile by the bytes of its path.
pub proof fn additions_are_told_as_they_are(
    event: AdditionEvent,
    action: AdditionAction,
    rcfiles: Seq<UnixPath>,
    i: int,
)
    ensures
        event is Begin <==> event@ is Begin,
        event is Failed <==> event@ is Failed,
        event matches AdditionEvent::Loaded { index, contents: Some(text) } ==> event@ == (
        AdditionEventView::Loaded { index: index as int, contents: Some(encode_utf8(text@)) }),
        event matches AdditionEvent::Loaded { index, contents: None } ==> event@ == (
        AdditionEventView::Loaded { index: index as int, contents: None }),
        event matches AdditionEvent::Appended { index } ==> event@ == (
        AdditionEventView::Appended { index: index as int }),
        action is Done <==> action@ is Done,
        action is Fail <==> action@ is Fail,
        action matches AdditionAction::Load { index } ==> action@ == (AdditionActionView::Load {
            index: index as int,
        }),
        action matches AdditionAction::Append { index, dir, text } ==> action@ == (
        AdditionActionView::Append {
            index: index as int,
            dir: dir.bytes@,
            text: encode_utf8(text@),
        }),
        action matches AdditionAction::NoParent { index } ==> action@ == (
        AdditionActionView::NoParent { index: index as int }),
        path_values(rcfiles).len() == rcfiles.len(),
        0 <= i < rcfiles.len() ==> path_values(rcfiles)[i] == rcfiles[i].bytes@,
{
}

} // verus!
