//! Decisions of the installer's own installation and update.

use vstd::prelude::*;
use vstd::string::*;
use vstd::utf8::*;

use crate::home::{optional_path, same_text, EnvSnapshot, EnvView};
use crate::path::{components, copy_range, joined, same_bytes, UnixPath};

verus! {

/// The code with which the program ends.
#[derive(Debug, Clone, Copy, PartialEq, Eq, Structural)]
pub struct ExitCode(pub i32);

/// How `$HOME` stands to the home directory of the effective user.
#[derive(Debug, PartialEq, Eq)]
pub enum HomeCheck {
    /// Nothing speaks against going on.
    Fine,
    /// The user's data could not be had.
    NoUserData,
    /// The two name different directories.
    Differs { env_home: UnixPath, euid_home: UnixPath },
}

/// A home check, with the paths as bytes.
pub enum HomeCheckView {
    Fine,
    NoUserData,
    Differs { env_home: Seq<u8>, euid_home: Seq<u8> },
}

impl View for HomeCheck {
    type V = HomeCheckView;

    open spec fn view(&self) -> HomeCheckView {
        match self {
            HomeCheck::Fine => HomeCheckView::Fine,
            HomeCheck::NoUserData => HomeCheckView::NoUserData,
            HomeCheck::Differs { env_home, euid_home } => HomeCheckView::Differs {
                env_home: env_home@,
                euid_home: euid_home@,
            },
        }
    }
}

/// How `$HOME` stands to `passwd_home`. Only what is set can differ, and
/// different spellings of one path do not; a set skip variable ends the matter.
pub open spec fn home_check_of(process: EnvView, passwd_home: Option<Seq<u8>>) -> HomeCheckView {
    if process.value("RUSTUP_INIT_SKIP_SUDO_CHECK"@) == Some(encode_utf8("yes"@)) {
        HomeCheckView::Fine
    } else {
        match (passwd_home, process.value("HOME"@)) {
            (None, _) => HomeCheckView::NoUserData,
            (Some(euid_home), None) => HomeCheckView::Fine,
            (Some(euid_home), Some(env_home)) => if components(env_home) == components(euid_home) {
                HomeCheckView::Fine
            } else {
                HomeCheckView::Differs { env_home, euid_home }
            },
        }
    }
}

/// Compares `$HOME` with the home directory of the effective user.
pub fn home_mismatch(process: &EnvSnapshot, passwd_home: Option<UnixPath>) -> (r: HomeCheck)
    ensures
        r@ == home_check_of(process@, optional_path(passwd_home)),
{
    // The test runner should set this, nothing else.
    match process.var_os("RUSTUP_INIT_SKIP_SUDO_CHECK") {
        Some(value) => {
            if same_bytes(value.as_slice(), "yes".as_bytes()) {
                return HomeCheck::Fine;
            }
        },
        None => {},
    }
    match (passwd_home, process.var_os("HOME")) {
        (None, _) => HomeCheck::NoUserData,
        (Some(_), None) => HomeCheck::Fine,
        (Some(euid_home), Some(value)) => {
            let env_home = UnixPath { bytes: copy_range(value.as_slice(), 0, value.len()) };
            assert(env_home@ =~= value@);
            if env_home.same_path(&euid_home) {
                HomeCheck::Fine
            } else {
                HomeCheck::Differs { env_home, euid_home }
            }
        },
    }
}

/// What the check for an installation under `sudo` comes to: what it found, for
/// the user to be told, and the code to go on or to end with.
#[derive(Debug)]
pub struct SudoVerdict {
    pub home: HomeCheck,
    pub exit_code: ExitCode,
}

/// On some systems `sudo` does not change `$HOME`, and an installation would
/// leave root-owned files in the user's home directory. Unless the user has
/// waived all questions, such an installation ends here.
pub fn do_anti_sudo_check(
    no_prompt: bool,
    process: &EnvSnapshot,
    passwd_home: Option<UnixPath>,
) -> (r: SudoVerdict)
    ensures
        r.home@ == home_check_of(process@, optional_path(passwd_home)),
        r.exit_code == (if r.home@ is Differs && !no_prompt {
            ExitCode(1)
        } else {
            ExitCode(0)
        }),
{
    let home = home_mismatch(process, passwd_home);
    let exit_code = match &home {
        HomeCheck::Differs { .. } => if no_prompt {
            ExitCode(0)
        } else {
            ExitCode(1)
        },
        _ => ExitCode(0),
    };
    SudoVerdict { home, exit_code }
}

/// A script that sets up the environment of a shell.
#[derive(Debug, PartialEq, Eq)]
pub struct EnvScript {
    pub name: String,
    pub content: String,
}

/// The texts of a script.
pub struct EnvScriptView {
    pub name: Seq<char>,
    pub content: Seq<char>,
}

impl View for EnvScript {
    type V = EnvScriptView;

    open spec fn view(&self) -> EnvScriptView {
        EnvScriptView { name: self.name@, content: self.content@ }
    }
}

/// The scripts of a list, by value.
pub open spec fn script_values(scripts: Seq<EnvScript>) -> Seq<EnvScriptView> {
    Seq::new(scripts.len(), |i: int| scripts[i]@)
}

/// The positions, in order, whose script does not stand at an earlier one.
pub open spec fn first_positions(scripts: Seq<EnvScriptView>) -> Seq<int>
    decreases scripts.len(),
{
    if scripts.len() == 0 {
        seq![]
    } else {
        let before = scripts.drop_last();
        if before.contains(scripts.last()) {
            first_positions(before)
        } else {
            first_positions(before).push(scripts.len() - 1)
        }
    }
}

/// Positions as numbers.
pub open spec fn positions(list: Seq<usize>) -> Seq<int> {
    Seq::new(list.len(), |i: int| list[i] as int)
}

/// Whether two scripts are the same.
fn same_script(a: &EnvScript, b: &EnvScript) -> (r: bool)
    ensures
        r == (a@ == b@),
{
    same_text(a.name.as_str(), b.name.as_str()) && same_text(
        a.content.as_str(),
        b.content.as_str(),
    )
}

/// The scripts to write for a list of shells, given the script of each: every
/// script once, for the first shell that has it, in the order of the shells.
pub fn do_write_env_files(scripts: &[EnvScript]) -> (r: Vec<usize>)
    ensures
        positions(r@) == first_positions(script_values(scripts@)),
{
    let mut written: Vec<usize> = Vec::new();
    let ghost values = script_values(scripts@);
    let mut i: usize = 0;
    assert(values.take(0) =~= seq![]);
    assert(positions(written@) =~= seq![]);
    while i < scripts.len()
        invariant
            i <= scripts@.len(),
            values == script_values(scripts@),
            positions(written@) == first_positions(values.take(i as int)),
        decreases scripts@.len() - i,
    {
        let mut seen: bool = false;
        let mut j: usize = 0;
        while j < i && !seen
            invariant
                j <= i < scripts@.len(),
                values == script_values(scripts@),
                seen ==> exists|k: int| 0 <= k < i && values[k] == values[i as int],
                !seen ==> forall|k: int| 0 <= k < j ==> values[k] != values[i as int],
            decreases i - j + (if seen {
                0int
            } else {
                1int
            }),
        {
            if same_script(&scripts[j], &scripts[i]) {
                assert(values[j as int] == values[i as int]);
                seen = true;
            } else {
                assert(values[j as int] != values[i as int]);
                j = j + 1;
            }
        }
        let ghost before = values.take(i as int);
        let ghost upto = values.take(i + 1);
        proof {
            assert(upto.drop_last() =~= before);
            assert(upto.last() == values[i as int]);
            if seen {
                let k = choose|k: int| 0 <= k < i && values[k] == values[i as int];
                assert(before[k] == values[i as int]);
            }
            assert(seen == before.contains(values[i as int]));
        }
        if !seen {
            let ghost old_written = written@;
            written.push(i);
            assert(positions(written@) =~= positions(old_written).push(i as int));
        }
        i = i + 1;
    }
    assert(values.take(i as int) =~= values);
    written
}

/// A position that is written is one of the list.
proof fn lemma_first_positions(scripts: Seq<EnvScriptView>, k: int)
    requires
        0 <= k < first_positions(scripts).len(),
    ensures
        0 <= first_positions(scripts)[k] < scripts.len(),
    decreases scripts.len(),
{
    if scripts.len() > 0 {
        let before = scripts.drop_last();
        if k < first_positions(before).len() {
            lemma_first_positions(before, k);
        }
    }
}

/// The script of every position is written, for that position or an earlier one.
pub proof fn each_script_is_written(scripts: Seq<EnvScriptView>, i: int)
    requires
        0 <= i < scripts.len(),
    ensures
        exists|k: int|
            0 <= k < first_positions(scripts).len() && 0 <= #[trigger] first_positions(scripts)[k]
                <= i && scripts[first_positions(scripts)[k]] == scripts[i],
    decreases scripts.len(),
{
    let before = scripts.drop_last();
    let inner = first_positions(before);
    let all = first_positions(scripts);
    let last = scripts.len() - 1;
    if i < last || before.contains(scripts[last]) {
        let e = if i < last {
            i
        } else {
            choose|e: int| 0 <= e < before.len() && before[e] == scripts[last]
        };
        assert(before[e] == scripts[i]);
        each_script_is_written(before, e);
        let k = choose|k: int|
            0 <= k < inner.len() && 0 <= #[trigger] inner[k] <= e && before[inner[k]] == before[e];
        assert(all[k] == inner[k]);
        assert(scripts[all[k]] == before[inner[k]]);
    } else {
        assert(all[all.len() - 1] == last);
    }
}

/// No script is written twice, and the scripts keep their order.
pub proof fn no_script_is_written_twice(scripts: Seq<EnvScriptView>, k: int, l: int)
    requires
        0 <= k < l < first_positions(scripts).len(),
    ensures
        first_positions(scripts)[k] < first_positions(scripts)[l],
        scripts[first_positions(scripts)[k]] != scripts[first_positions(scripts)[l]],
    decreases scripts.len(),
{
    let before = scripts.drop_last();
    let inner = first_positions(before);
    let all = first_positions(scripts);
    lemma_first_positions(before, k);
    assert(all[k] == inner[k]);
    assert(scripts[all[k]] == before[inner[k]]);
    if l < inner.len() {
        lemma_first_positions(before, l);
        no_script_is_written_twice(before, k, l);
        assert(all[l] == inner[l]);
        assert(scripts[all[l]] == before[inner[l]]);
    } else {
        assert(all[l] == scripts.len() - 1);
        assert(before.contains(before[inner[k]]));
    }
}

/// What became of the updater.
#[derive(Debug, Clone, Copy, PartialEq, Eq, Structural)]
pub enum UpdaterEvent {
    /// It was not run yet.
    Begin,
    /// It could not be run.
    NotStarted,
    /// It ended.
    Exited { success: bool },
}

/// What to do about the updater.
#[derive(Debug)]
pub enum UpdaterAction {
    /// Run the program with the argument.
    Run { program: UnixPath, argument: &'static str },
    /// Give up: the updater could not be run.
    UnableToRun,
    /// Give up: the updater failed to replace the installed program.
    FailedToReplace,
    /// The update is done.
    Exit(ExitCode),
}

/// Tells the updater at `setup_path` to replace the installed programs, then to
/// delete itself: what to do after `event`.
pub fn run_update(setup_path: &UnixPath, event: UpdaterEvent) -> (r: UpdaterAction)
    ensures
        event is Begin <==> r is Run,
        r matches UpdaterAction::Run { program, argument } ==> program@ == setup_path@ && argument@
            == "--self-replace"@,
        event is NotStarted <==> r is UnableToRun,
        event == (UpdaterEvent::Exited { success: false }) <==> r is FailedToReplace,
        event == (UpdaterEvent::Exited { success: true }) <==> r is Exit,
        r matches UpdaterAction::Exit(code) ==> code == ExitCode(0),
{
    match event {
        UpdaterEvent::Begin => UpdaterAction::Run {
            program: setup_path.clone(),
            argument: "--self-replace",
        },
        UpdaterEvent::NotStarted => UpdaterAction::UnableToRun,
        UpdaterEvent::Exited { success } => if success {
            UpdaterAction::Exit(ExitCode(0))
        } else {
            UpdaterAction::FailedToReplace
        },
    }
}

/// How far the replacement of the installed programs has come.
#[derive(Debug)]
pub enum ReplaceEvent {
    /// Nothing was done yet.
    Begin,
    /// The home directory of the installed programs, and whether the process wants
    /// hard links.
    CargoHome { path: UnixPath, force_hard_links: bool },
    /// The programs are installed.
    Installed,
    /// The last step failed.
    Failed,
}

/// The next step of the replacement.
#[derive(Debug)]
pub enum ReplaceAction {
    /// Find the home directory of the installed programs, and whether the process
    /// wants hard links.
    FindCargoHome,
    /// Install the running program, and the links to it, in the directory; hard
    /// links where they are forced.
    InstallBins { dir: UnixPath, force_hard_links: bool },
    /// The replacement is done.
    Exit(ExitCode),
    /// Give up with the error of the failed step.
    Fail,
}

/// The final step of a self-upgrade: replaces the program in the `bin` directory
/// by the running one, and updates the links to it. What to do after `event`.
pub fn self_replace(event: ReplaceEvent) -> (r: ReplaceAction)
    ensures
        event is Begin <==> r is FindCargoHome,
        event is CargoHome <==> r is InstallBins,
        r matches ReplaceAction::InstallBins { dir, force_hard_links } ==> dir@ == joined(
            event->CargoHome_path@,
            encode_utf8("bin"@),
        ) && force_hard_links == event->CargoHome_force_hard_links,
        event is Installed <==> r is Exit,
        r matches ReplaceAction::Exit(code) ==> code == ExitCode(0),
        event is Failed <==> r is Fail,
{
    match event {
        ReplaceEvent::Begin => ReplaceAction::FindCargoHome,
        ReplaceEvent::CargoHome { path, force_hard_links } => ReplaceAction::InstallBins {
            dir: path.join("bin".as_bytes()),
            force_hard_links,
        },
        ReplaceEvent::Installed => ReplaceAction::Exit(ExitCode(0)),
        ReplaceEvent::Failed => ReplaceAction::Fail,
    }
}

/// An installation ends here only where `$HOME` is set, the user's home is known,
/// the two name different paths, and neither the user nor the test runner has
/// waived the check.
pub proof fn sudo_check_waivers(process: EnvView, passwd_home: Option<Seq<u8>>)
    ensures
        home_check_of(process, passwd_home) is Differs <==> {
            &&& process.value("RUSTUP_INIT_SKIP_SUDO_CHECK"@) != Some(encode_utf8("yes"@))
            &&& passwd_home is Some
            &&& process.value("HOME"@) is Some
            &&& components(process.value("HOME"@).unwrap()) != components(passwd_home.unwrap())
        },
{
}

/// The two homes are found to differ exactly where both are known, their components are
/// not the same, and the skip variable is not `yes`; then both are told, byte for byte.
pub proof fn differing_homes_are_told(process: EnvView, passwd_home: Option<Seq<u8>>)
    ensures
        ({
            let skip = "RUSTUP_INIT_SKIP_SUDO_CHECK"@;
            let skipped = process.vars.contains_key(skip) && process.vars[skip] == seq![
                121u8,
                101,
                115,
            ];
            let check = home_check_of(process, passwd_home);
            &&& check is Differs <==> {
                &&& !skipped
                &&& passwd_home is Some
                &&& process.vars.contains_key("HOME"@)
                &&& components(process.vars["HOME"@]) != components(passwd_home->0)
            }
            &&& check is NoUserData <==> !skipped && passwd_home is None
            &&& check matches HomeCheckView::Differs { env_home, euid_home } ==> env_home
                == process.vars["HOME"@] && Some(euid_home) == passwd_home
        }),
{
    reveal_strlit("yes");
    assert(is_ascii_chars("yes"@));
    is_ascii_chars_encode_utf8("yes"@);
    assert(encode_utf8("yes"@) =~= seq![121u8, 101, 115]) by {
        assert("yes"@[0] == 'y' && "yes"@[1] == 'e' && "yes"@[2] == 's');
    }
}

/// What a check has found is told with the bytes of its paths.
pub proof fn checks_are_told_with_their_paths(check: HomeCheck)
    ensures
        check is Fine <==> check@ is Fine,
        check is NoUserData <==> check@ is NoUserData,
        check matches HomeCheck::Differs { env_home, euid_home } ==> check@ == (
        HomeCheckView::Differs { env_home: env_home.bytes@, euid_home: euid_home.bytes@ }),
{
}

/// A position is written exactly where no earlier one has the same script, text for
/// text.
pub proof fn first_of_each_script_is_written(scripts: Seq<EnvScriptView>, i: int)
    requires
        0 <= i < scripts.len(),
    ensures
        first_positions(scripts).contains(i) <==> forall|j: int|
            0 <= j < i ==> #[trigger] scripts[j] != scripts[i],
    decreases scripts.len(),
{
    let before = scripts.drop_last();
    let inner = first_positions(before);
    let all = first_positions(scripts);
    let last = scripts.len() - 1;
    if i < last {
        first_of_each_script_is_written(before, i);
        assert(forall|j: int| 0 <= j <= i ==> before[j] == #[trigger] scripts[j]);
        if all.contains(i) {
            let k = choose|k: int| 0 <= k < all.len() && all[k] == i;
            assert(k < inner.len());
            assert(inner[k] == i);
        }
        if inner.contains(i) {
            let k = choose|k: int| 0 <= k < inner.len() && inner[k] == i;
            assert(all[k] == i);
        }
        if inner.contains(i) {
            assert forall|j: int| 0 <= j < i implies #[trigger] scripts[j] != scripts[i] by {
                assert(before[j] != before[i]);
            }
        }
        if forall|j: int| 0 <= j < i ==> #[trigger] scripts[j] != scripts[i] {
            assert forall|j: int| 0 <= j < i implies #[trigger] before[j] != before[i] by {
                assert(scripts[j] != scripts[i]);
            }
        }
    } else {
        assert(scripts.last() == scripts[i]);
        if before.contains(scripts.last()) {
            let j = choose|j: int| 0 <= j < before.len() && before[j] == scripts.last();
            assert(scripts[j] == scripts[i]);
            if all.contains(i) {
                let k = choose|k: int| 0 <= k < all.len() && all[k] == i;
                lemma_first_positions(before, k);
            }
        } else {
            assert(all[all.len() - 1] == i);
            assert forall|j: int| 0 <= j < i implies #[trigger] scripts[j] != scripts[i] by {
                assert(before[j] == scripts[j]);
            }
        }
    }
}

/// Scripts and positions of a list are told one by one, each as it is.
pub proof fn scripts_are_told_one_by_one(scripts: Seq<EnvScript>, list: Seq<usize>, i: int)
    ensures
        script_values(scripts).len() == scripts.len(),
        0 <= i < scripts.len() ==> script_values(scripts)[i].name == scripts[i].name@
            && script_values(scripts)[i].content == scripts[i].content@,
        positions(list).len() == list.len(),
        0 <= i < list.len() ==> positions(list)[i] == list[i],
{
}

} // verus!
