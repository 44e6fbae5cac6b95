//! Category-home resolution for callers that have enabled category mode.
//!
//! Category homes resolve a non-empty category override, then a non-empty
//! `RUSTUP_HOME`, then the platform default. The bin home resolves non-empty
//! `CARGO_BIN_HOME`, then non-empty `CARGO_HOME` plus `bin`, then the platform
//! default.
//!
//! Category overrides and `CARGO_BIN_HOME` remain verbatim, including when
//! relative. Relative `RUSTUP_HOME` and `CARGO_HOME` resolve under the current
//! directory.

use vstd::prelude::*;
use vstd::string::*;
use vstd::utf8::*;

use crate::path::{
    absolute, components, copy_range, joined, joined_name_is_last_component, same_bytes, UnixPath,
};

verus! {

/// The homes of all categories.
#[derive(Debug, PartialEq, Eq)]
pub struct HomeDirs {
    pub cache: UnixPath,
    pub config: UnixPath,
    pub data: UnixPath,
    pub state: UnixPath,
}

/// What a home directory is for.
#[derive(Debug, Clone, Copy, PartialEq, Eq, Structural)]
pub enum HomeCategory {
    Cache,
    Config,
    Data,
    State,
}

/// Why a home could not be resolved.
#[derive(Debug, Clone, Copy, PartialEq, Eq, Structural)]
pub enum HomeError {
    /// A relative home needs the current directory, which is not known.
    CurrentDir,
    /// The platform offers no default.
    PlatformDefault,
}

/// The variable that overrides the home of a category.
pub open spec fn override_variable(category: HomeCategory) -> Seq<char> {
    match category {
        HomeCategory::Cache => "RUSTUP_CACHE_HOME"@,
        HomeCategory::Config => "RUSTUP_CONFIG_HOME"@,
        HomeCategory::Data => "RUSTUP_DATA_HOME"@,
        HomeCategory::State => "RUSTUP_STATE_HOME"@,
    }
}

/// The variable of the desktop convention for a category.
pub open spec fn xdg_variable(category: HomeCategory) -> Seq<char> {
    match category {
        HomeCategory::Cache => "XDG_CACHE_HOME"@,
        HomeCategory::Config => "XDG_CONFIG_HOME"@,
        HomeCategory::Data => "XDG_DATA_HOME"@,
        HomeCategory::State => "XDG_STATE_HOME"@,
    }
}

/// The directory of a category under the user's home.
pub open spec fn home_subdir(category: HomeCategory) -> Seq<char> {
    match category {
        HomeCategory::Cache => ".cache"@,
        HomeCategory::Config => ".config"@,
        HomeCategory::Data => ".local/share"@,
        HomeCategory::State => ".local/state"@,
    }
}

impl HomeCategory {
    /// The variable that overrides the home of this category.
    pub fn override_env_var(self) -> (r: &'static str)
        ensures
            r@ == override_variable(self),
    {
        match self {
            HomeCategory::Cache => "RUSTUP_CACHE_HOME",
            HomeCategory::Config => "RUSTUP_CONFIG_HOME",
            HomeCategory::Data => "RUSTUP_DATA_HOME",
            HomeCategory::State => "RUSTUP_STATE_HOME",
        }
    }

    /// The variable of the desktop convention for this category.
    pub fn xdg_env_var(self) -> (r: &'static str)
        ensures
            r@ == xdg_variable(self),
    {
        match self {
            HomeCategory::Cache => "XDG_CACHE_HOME",
            HomeCategory::Config => "XDG_CONFIG_HOME",
            HomeCategory::Data => "XDG_DATA_HOME",
            HomeCategory::State => "XDG_STATE_HOME",
        }
    }

    /// The directory of this category under the user's home.
    pub fn fallback_subdir(self) -> (r: &'static str)
        ensures
            r@ == home_subdir(self),
    {
        match self {
            HomeCategory::Cache => ".cache",
            HomeCategory::Config => ".config",
            HomeCategory::Data => ".local/share",
            HomeCategory::State => ".local/state",
        }
    }
}

/// What is read of the process environment: its variables, and the current
/// directory where that is known.
#[derive(Debug)]
pub struct EnvSnapshot {
    pub vars: Vec<(String, Vec<u8>)>,
    pub current_dir: Option<UnixPath>,
}

/// An environment: the value of each variable that is set, and the current
/// directory where that is known.
pub struct EnvView {
    pub vars: Map<Seq<char>, Seq<u8>>,
    pub current_dir: Option<Seq<u8>>,
}

/// The variables of a list; of two entries with one name the first counts.
pub open spec fn listed_vars(vars: Seq<(String, Vec<u8>)>) -> Map<Seq<char>, Seq<u8>>
    decreases vars.len(),
{
    if vars.len() == 0 {
        Map::empty()
    } else {
        listed_vars(vars.drop_first()).insert(vars[0].0@, vars[0].1@)
    }
}

/// The bytes of a path that may be missing.
pub open spec fn optional_path(path: Option<UnixPath>) -> Option<Seq<u8>> {
    match path {
        Some(known) => Some(known@),
        None => None,
    }
}

impl View for EnvSnapshot {
    type V = EnvView;

    open spec fn view(&self) -> EnvView {
        EnvView { vars: listed_vars(self.vars@), current_dir: optional_path(self.current_dir) }
    }
}

impl EnvView {
    /// The value of a variable, if it is set.
    pub open spec fn value(self, key: Seq<char>) -> Option<Seq<u8>> {
        if self.vars.contains_key(key) {
            Some(self.vars[key])
        } else {
            None
        }
    }

    /// The value of a variable that is set and not empty.
    pub open spec fn path(self, key: Seq<char>) -> Option<Seq<u8>> {
        match self.value(key) {
            Some(value) => if value.len() > 0 {
                Some(value)
            } else {
                None
            },
            None => None,
        }
    }

    /// `path` as it stands where it is absolute, under the current directory
    /// where it is not.
    pub open spec fn resolved(self, path: Seq<u8>) -> Result<Seq<u8>, HomeError> {
        if absolute(path) {
            Ok(path)
        } else {
            match self.current_dir {
                Some(dir) => Ok(joined(dir, path)),
                None => Err(HomeError::CurrentDir),
            }
        }
    }
}

/// The home of a category.
pub open spec fn category_home_of(
    category: HomeCategory,
    env: EnvView,
    platform_default: Option<Seq<u8>>,
) -> Result<Seq<u8>, HomeError> {
    match env.path(override_variable(category)) {
        Some(path) => Ok(path),
        None => match env.path("RUSTUP_HOME"@) {
            Some(path) => env.resolved(path),
            None => match platform_default {
                Some(dir) => Ok(joined(dir, encode_utf8("rustup"@))),
                None => Err(HomeError::PlatformDefault),
            },
        },
    }
}

/// The directory of the installed programs.
pub open spec fn cargo_bin_of(
    env: EnvView,
    platform_default: Option<Seq<u8>>,
) -> Result<Seq<u8>, HomeError> {
    match env.path("CARGO_BIN_HOME"@) {
        Some(path) => Ok(path),
        None => match env.path("CARGO_HOME"@) {
            Some(path) => match env.resolved(path) {
                Ok(home) => Ok(joined(home, encode_utf8("bin"@))),
                Err(error) => Err(error),
            },
            None => match platform_default {
                Some(dir) => Ok(dir),
                None => Err(HomeError::PlatformDefault),
            },
        },
    }
}

/// A resolved home, by value.
pub open spec fn home_value(r: Result<UnixPath, HomeError>) -> Result<Seq<u8>, HomeError> {
    match r {
        Ok(path) => Ok(path@),
        Err(error) => Err(error),
    }
}

/// Whether two texts are the same.
pub fn same_text(a: &str, b: &str) -> (r: bool)
    ensures
        r == (a@ == b@),
{
    proof {
        encode_utf8_decode_utf8(a@);
        encode_utf8_decode_utf8(b@);
    }
    same_bytes(a.as_bytes(), b.as_bytes())
}

impl EnvSnapshot {
    /// The value of a variable, if it is set.
    pub fn var_os(&self, key: &str) -> (r: Option<&Vec<u8>>)
        ensures
            r is Some <==> self@.value(key@) is Some,
            r matches Some(value) ==> self@.value(key@) == Some(value@),
    {
        let mut i: usize = 0;
        assert(self.vars@.skip(0) =~= self.vars@);
        while i < self.vars.len()
            invariant
                i <= self.vars@.len(),
                listed_vars(self.vars@).contains_key(key@) == listed_vars(
                    self.vars@.skip(i as int),
                ).contains_key(key@),
                listed_vars(self.vars@).contains_key(key@) ==> listed_vars(self.vars@)[key@]
                    == listed_vars(self.vars@.skip(i as int))[key@],
            decreases self.vars@.len() - i,
        {
            let ghost rest = self.vars@.skip(i as int);
            assert(rest.drop_first() =~= self.vars@.skip(i + 1));
            assert(rest[0] == self.vars@[i as int]);
            if same_text(self.vars[i].0.as_str(), key) {
                return Some(&self.vars[i].1);
            }
            i = i + 1;
        }
        None
    }

    /// `path` as it stands where it is absolute, under the current directory
    /// where it is not.
    fn resolve(&self, path: UnixPath) -> (r: Result<UnixPath, HomeError>)
        ensures
            home_value(r) == self@.resolved(path@),
    {
        if path.is_absolute() {
            Ok(path)
        } else {
            match &self.current_dir {
                Some(dir) => Ok(dir.join(path.bytes.as_slice())),
                None => Err(HomeError::CurrentDir),
            }
        }
    }
}

/// The path that a variable holds, if it is set and not empty.
pub fn path_from_env(key: &str, env: &EnvSnapshot) -> (r: Option<UnixPath>)
    ensures
        optional_path(r) == env@.path(key@),
{
    match env.var_os(key) {
        Some(value) => if value.len() > 0 {
            Some(UnixPath { bytes: copy_range(value.as_slice(), 0, value.len()) })
        } else {
            None
        },
        None => None,
    }
}

/// The home of a category. `platform_default` is the directory that the platform
/// has for the category, where it has one.
pub fn category_home(
    category: HomeCategory,
    env: &EnvSnapshot,
    platform_default: Option<UnixPath>,
) -> (r: Result<UnixPath, HomeError>)
    ensures
        home_value(r) == category_home_of(category, env@, optional_path(platform_default)),
{
    if let Some(path) = path_from_env(category.override_env_var(), env) {
        return Ok(path);
    }
    if let Some(path) = path_from_env("RUSTUP_HOME", env) {
        return env.resolve(path);
    }
    match platform_default {
        Some(dir) => Ok(dir.join("rustup".as_bytes())),
        None => Err(HomeError::PlatformDefault),
    }
}

/// The directory of the installed programs. `platform_default` is the directory
/// that the platform has for programs, where it has one.
pub fn cargo_bin_with_env(
    env: &EnvSnapshot,
    platform_default: Option<UnixPath>,
) -> (r: Result<UnixPath, HomeError>)
    ensures
        home_value(r) == cargo_bin_of(env@, optional_path(platform_default)),
{
    if let Some(path) = path_from_env("CARGO_BIN_HOME", env) {
        return Ok(path);
    }
    if let Some(path) = path_from_env("CARGO_HOME", env) {
        return match env.resolve(path) {
            Ok(home) => Ok(home.join("bin".as_bytes())),
            Err(error) => Err(error),
        };
    }
    match platform_default {
        Some(dir) => Ok(dir),
        None => Err(HomeError::PlatformDefault),
    }
}

/// A non-empty category override is the home, whatever else is set.
pub proof fn category_override_is_verbatim(
    category: HomeCategory,
    env: EnvView,
    platform_default: Option<Seq<u8>>,
    path: Seq<u8>,
)
    requires
        env.value(override_variable(category)) == Some(path),
        path.len() > 0,
    ensures
        category_home_of(category, env, platform_default) == Ok::<Seq<u8>, HomeError>(path),
{
}

/// A non-empty `CARGO_BIN_HOME` is the bin home, whatever else is set.
pub proof fn cargo_bin_override_is_verbatim(
    env: EnvView,
    platform_default: Option<Seq<u8>>,
    path: Seq<u8>,
)
    requires
        env.value("CARGO_BIN_HOME"@) == Some(path),
        path.len() > 0,
    ensures
        cargo_bin_of(env, platform_default) == Ok::<Seq<u8>, HomeError>(path),
{
}

/// A variable that is set to nothing counts as one that is not set.
pub proof fn empty_variable_counts_as_unset(
    category: HomeCategory,
    env: EnvView,
    platform_default: Option<Seq<u8>>,
    key: Seq<char>,
)
    requires
        env.value(key) == Some(Seq::<u8>::empty()),
    ensures
        ({
            let unset = EnvView { vars: env.vars.remove(key), current_dir: env.current_dir };
            &&& category_home_of(category, env, platform_default) == category_home_of(
                category,
                unset,
                platform_default,
            )
            &&& cargo_bin_of(env, platform_default) == cargo_bin_of(unset, platform_default)
        }),
{
    let unset = EnvView { vars: env.vars.remove(key), current_dir: env.current_dir };
    assert forall|other: Seq<char>| env.path(other) == unset.path(other) by {}
}

/// The home of a category rests on its override, `RUSTUP_HOME`, the current
/// directory and the platform default alone.
pub proof fn category_home_rests_on_two_variables(
    category: HomeCategory,
    one: EnvView,
    other: EnvView,
    platform_default: Option<Seq<u8>>,
)
    requires
        one.path(override_variable(category)) == other.path(override_variable(category)),
        one.path("RUSTUP_HOME"@) == other.path("RUSTUP_HOME"@),
        one.current_dir == other.current_dir,
    ensures
        category_home_of(category, one, platform_default) == category_home_of(
            category,
            other,
            platform_default,
        ),
{
}

/// A relative `RUSTUP_HOME` lies under the current directory, and is absolute
/// where that is.
pub proof fn relative_rustup_home_lies_under_current_dir(
    category: HomeCategory,
    env: EnvView,
    platform_default: Option<Seq<u8>>,
    path: Seq<u8>,
    dir: Seq<u8>,
)
    requires
        env.path(override_variable(category)) is None,
        env.path("RUSTUP_HOME"@) == Some(path),
        !absolute(path),
        env.current_dir == Some(dir),
    ensures
        category_home_of(category, env, platform_default) matches Ok(home) && {
            &&& dir.is_prefix_of(home)
            &&& home == joined(dir, path)
            &&& absolute(dir) ==> absolute(home)
        },
{
    let home = joined(dir, path);
    assert(home.subrange(0, dir.len() as int) =~= dir);
}

/// A relative `CARGO_HOME` lies under the current directory, with `bin` behind it.
pub proof fn relative_cargo_home_lies_under_current_dir(
    env: EnvView,
    platform_default: Option<Seq<u8>>,
    path: Seq<u8>,
    dir: Seq<u8>,
)
    requires
        env.path("CARGO_BIN_HOME"@) is None,
        env.path("CARGO_HOME"@) == Some(path),
        !absolute(path),
        env.current_dir == Some(dir),
    ensures
        cargo_bin_of(env, platform_default) matches Ok(bin) && {
            &&& dir.is_prefix_of(bin)
            &&& components(bin) == components(joined(dir, path)).push(encode_utf8("bin"@))
            &&& absolute(dir) ==> absolute(bin)
        },
{
    let home = joined(dir, path);
    reveal_strlit("bin");
    assert(is_ascii_chars("bin"@));
    is_ascii_chars_encode_utf8("bin"@);
    let name = encode_utf8("bin"@);
    assert(name =~= seq![98u8, 105u8, 110u8]) by {
        assert("bin"@[0] == 'b' && "bin"@[1] == 'i' && "bin"@[2] == 'n');
    }
    joined_name_is_last_component(home, name);
    let bin = joined(home, name);
    assert(bin.subrange(0, dir.len() as int) =~= dir);
}

/// No two categories share a variable or a directory.
pub proof fn categories_are_kept_apart(one: HomeCategory, other: HomeCategory)
    requires
        one != other,
    ensures
        override_variable(one) != override_variable(other),
        xdg_variable(one) != xdg_variable(other),
        home_subdir(one) != home_subdir(other),
{
    reveal_strlit("RUSTUP_CACHE_HOME");
    reveal_strlit("RUSTUP_CONFIG_HOME");
    reveal_strlit("RUSTUP_DATA_HOME");
    reveal_strlit("RUSTUP_STATE_HOME");
    reveal_strlit("XDG_CACHE_HOME");
    reveal_strlit("XDG_CONFIG_HOME");
    reveal_strlit("XDG_DATA_HOME");
    reveal_strlit("XDG_STATE_HOME");
    reveal_strlit(".cache");
    reveal_strlit(".config");
    reveal_strlit(".local/share");
    reveal_strlit(".local/state");
    assert("RUSTUP_CACHE_HOME"@.len() == 17 && "RUSTUP_CONFIG_HOME"@.len() == 18);
    assert("RUSTUP_DATA_HOME"@.len() == 16 && "RUSTUP_STATE_HOME"@.len() == 17);
    assert("XDG_CACHE_HOME"@.len() == 14 && "XDG_CONFIG_HOME"@.len() == 15);
    assert("XDG_DATA_HOME"@.len() == 13 && "XDG_STATE_HOME"@.len() == 14);
    assert(".cache"@.len() == 6 && ".config"@.len() == 7 && ".local/share"@.len() == 12);
    assert("RUSTUP_CACHE_HOME"@[7] == 'C' && "RUSTUP_STATE_HOME"@[7] == 'S');
    assert("XDG_CACHE_HOME"@[4] == 'C' && "XDG_STATE_HOME"@[4] == 'S');
    assert(".local/share"@[8] == 'h' && ".local/state"@[8] == 't');
}

/// The variables and directories of each category.
pub proof fn categories_have_their_names()
    ensures
        override_variable(HomeCategory::Cache) == "RUSTUP_CACHE_HOME"@,
        override_variable(HomeCategory::Config) == "RUSTUP_CONFIG_HOME"@,
        override_variable(HomeCategory::Data) == "RUSTUP_DATA_HOME"@,
        override_variable(HomeCategory::State) == "RUSTUP_STATE_HOME"@,
        xdg_variable(HomeCategory::Cache) == "XDG_CACHE_HOME"@,
        xdg_variable(HomeCategory::Config) == "XDG_CONFIG_HOME"@,
        xdg_variable(HomeCategory::Data) == "XDG_DATA_HOME"@,
        xdg_variable(HomeCategory::State) == "XDG_STATE_HOME"@,
        home_subdir(HomeCategory::Cache) == ".cache"@,
        home_subdir(HomeCategory::Config) == ".config"@,
        home_subdir(HomeCategory::Data) == ".local/share"@,
        home_subdir(HomeCategory::State) == ".local/state"@,
{
}

/// A variable of a snapshot has the value of the first entry with its name, and none
/// where no entry has it. It holds a path where that value is not empty.
pub proof fn first_entry_of_a_name_counts(env: EnvSnapshot, key: Seq<char>, i: int)
    ensures
        0 <= i < env.vars@.len() && env.vars@[i].0@ == key && (forall|j: int|
            0 <= j < i ==> #[trigger] env.vars@[j].0@ != key) ==> env@.value(key) == Some(
            env.vars@[i].1@,
        ),
        (forall|j: int| 0 <= j < env.vars@.len() ==> #[trigger] env.vars@[j].0@ != key)
            ==> env@.value(key) is None,
        env@.current_dir is Some <==> env.current_dir is Some,
        env.current_dir matches Some(dir) ==> env@.current_dir == Some(dir.bytes@),
{
    if forall|j: int| 0 <= j < env.vars@.len() ==> #[trigger] env.vars@[j].0@ != key {
        lemma_listed(env.vars@, key, env.vars@.len() as int);
    } else if 0 <= i < env.vars@.len() && env.vars@[i].0@ == key && (forall|j: int|
        0 <= j < i ==> #[trigger] env.vars@[j].0@ != key) {
        lemma_listed(env.vars@, key, i);
    }
}

proof fn lemma_listed(vars: Seq<(String, Vec<u8>)>, key: Seq<char>, i: int)
    requires
        0 <= i <= vars.len(),
        forall|j: int| 0 <= j < i ==> #[trigger] vars[j].0@ != key,
        i < vars.len() ==> vars[i].0@ == key,
    ensures
        listed_vars(vars).contains_key(key) <==> i < vars.len(),
        i < vars.len() ==> listed_vars(vars)[key] == vars[i].1@,
    decreases vars.len(),
{
    if vars.len() > 0 && i > 0 {
        let rest = vars.drop_first();
        assert forall|j: int| 0 <= j < i - 1 implies #[trigger] rest[j].0@ != key by {
            assert(rest[j] == vars[j + 1]);
        }
        assert(vars[0].0@ != key);
        lemma_listed(rest, key, i - 1);
    }
}

/// What a variable is set to is its value, and a path where it is not empty.
pub proof fn set_variable_has_its_value(env: EnvView, key: Seq<char>)
    ensures
        env.vars.contains_key(key) ==> env.value(key) == Some(env.vars[key]),
        !env.vars.contains_key(key) ==> env.value(key) is None,
        env.vars.contains_key(key) && env.vars[key].len() > 0 ==> env.path(key) == Some(
            env.vars[key],
        ),
        !env.vars.contains_key(key) || env.vars[key].len() == 0 ==> env.path(key) is None,
{
}

/// A category's own variable decides alone, whatever it holds besides nothing: the home
/// is its value, byte for byte.
pub proof fn own_variable_decides(
    category: HomeCategory,
    key: Seq<char>,
    env: EnvView,
    platform_default: Option<Seq<u8>>,
)
    requires
        category == HomeCategory::Cache ==> key == "RUSTUP_CACHE_HOME"@,
        category == HomeCategory::Config ==> key == "RUSTUP_CONFIG_HOME"@,
        category == HomeCategory::Data ==> key == "RUSTUP_DATA_HOME"@,
        category == HomeCategory::State ==> key == "RUSTUP_STATE_HOME"@,
        env.vars.contains_key(key),
        env.vars[key].len() > 0,
    ensures
        category_home_of(category, env, platform_default) == Ok::<Seq<u8>, HomeError>(
            env.vars[key],
        ),
{
}

/// Where a category's own variable says nothing, `RUSTUP_HOME` is the home of every
/// category alike: byte for byte where it is absolute, else behind the current
/// directory and one separator. Without a current directory there is no such home.
pub proof fn rustup_home_serves_every_category(
    category: HomeCategory,
    key: Seq<char>,
    env: EnvView,
    platform_default: Option<Seq<u8>>,
)
    requires
        category == HomeCategory::Cache ==> key == "RUSTUP_CACHE_HOME"@,
        category == HomeCategory::Config ==> key == "RUSTUP_CONFIG_HOME"@,
        category == HomeCategory::Data ==> key == "RUSTUP_DATA_HOME"@,
        category == HomeCategory::State ==> key == "RUSTUP_STATE_HOME"@,
        env.vars.contains_key(key) ==> env.vars[key].len() == 0,
        env.vars.contains_key("RUSTUP_HOME"@),
        env.vars["RUSTUP_HOME"@].len() > 0,
    ensures
        ({
            let path = env.vars["RUSTUP_HOME"@];
            let home = category_home_of(category, env, platform_default);
            if path[0] == 47 {
                home == Ok::<Seq<u8>, HomeError>(path)
            } else {
                match env.current_dir {
                    Some(dir) => home == Ok::<Seq<u8>, HomeError>(
                        if dir.len() == 0 || dir[dir.len() - 1] == 47 {
                            dir + path
                        } else {
                            dir + seq![47u8] + path
                        },
                    ),
                    None => home == Err::<Seq<u8>, HomeError>(HomeError::CurrentDir),
                }
            }
        }),
{
    if let Some(dir) = env.current_dir {
        assert(dir.push(47) =~= dir + seq![47u8]);
    }
}

/// Where no variable says anything, the home of every category is the directory
/// `rustup` in the one that the platform has for it, which all programs share. Without
/// such a directory there is no home.
pub proof fn platform_home_has_a_directory_of_its_own(
    category: HomeCategory,
    key: Seq<char>,
    env: EnvView,
    platform_default: Option<Seq<u8>>,
)
    requires
        category == HomeCategory::Cache ==> key == "RUSTUP_CACHE_HOME"@,
        category == HomeCategory::Config ==> key == "RUSTUP_CONFIG_HOME"@,
        category == HomeCategory::Data ==> key == "RUSTUP_DATA_HOME"@,
        category == HomeCategory::State ==> key == "RUSTUP_STATE_HOME"@,
        env.vars.contains_key(key) ==> env.vars[key].len() == 0,
        env.vars.contains_key("RUSTUP_HOME"@) ==> env.vars["RUSTUP_HOME"@].len() == 0,
    ensures
        match platform_default {
            Some(dir) => category_home_of(category, env, platform_default) matches Ok(home) && {
                &&& components(home) == components(dir).push(seq![114u8, 117, 115, 116, 117, 112])
                &&& dir.is_prefix_of(home)
                &&& home.len() <= dir.len() + 7
            },
            None => category_home_of(category, env, platform_default) == Err::<Seq<u8>, HomeError>(
                HomeError::PlatformDefault,
            ),
        },
{
    lemma_rustup_bytes();
    if let Some(dir) = platform_default {
        let name = seq![114u8, 117, 115, 116, 117, 112];
        assert(!name.contains(47)) by {
            assert forall|i: int| 0 <= i < name.len() implies name[i] != 47 by {}
        }
        joined_name_is_last_component(dir, name);
        assert(joined(dir, name).subrange(0, dir.len() as int) =~= dir);
    }
}

proof fn lemma_rustup_bytes()
    ensures
        encode_utf8("rustup"@) == seq![114u8, 117, 115, 116, 117, 112],
{
    reveal_strlit("rustup");
    assert(is_ascii_chars("rustup"@));
    is_ascii_chars_encode_utf8("rustup"@);
    assert(encode_utf8("rustup"@) =~= seq![114u8, 117, 115, 116, 117, 112]) by {
        assert("rustup"@[0] == 'r' && "rustup"@[1] == 'u' && "rustup"@[2] == 's');
        assert("rustup"@[3] == 't' && "rustup"@[4] == 'u' && "rustup"@[5] == 'p');
    }
}

proof fn lemma_bin_bytes()
    ensures
        encode_utf8("bin"@) == seq![98u8, 105, 110],
{
    reveal_strlit("bin");
    assert(is_ascii_chars("bin"@));
    is_ascii_chars_encode_utf8("bin"@);
    assert(encode_utf8("bin"@) =~= seq![98u8, 105, 110]) by {
        assert("bin"@[0] == 'b' && "bin"@[1] == 'i' && "bin"@[2] == 'n');
    }
}

/// Where `CARGO_BIN_HOME` says nothing, the programs lie in `bin` below `CARGO_HOME`,
/// itself below the current directory where it is relative. Without a current directory
/// there is no such place.
pub proof fn programs_lie_in_bin_below_cargo_home(
    env: EnvView,
    platform_default: Option<Seq<u8>>,
    home: Seq<u8>,
)
    requires
        env.vars.contains_key("CARGO_BIN_HOME"@) ==> env.vars["CARGO_BIN_HOME"@].len() == 0,
        env.vars.contains_key("CARGO_HOME"@),
        env.vars["CARGO_HOME"@].len() > 0,
        ({
            let path = env.vars["CARGO_HOME"@];
            if path[0] == 47 {
                home == path
            } else {
                match env.current_dir {
                    Some(dir) => home == (if dir.len() == 0 || dir[dir.len() - 1] == 47 {
                        dir + path
                    } else {
                        dir + seq![47u8] + path
                    }),
                    None => true,
                }
            }
        }),
    ensures
        env.vars["CARGO_HOME"@][0] != 47 && env.current_dir is None ==> cargo_bin_of(
            env,
            platform_default,
        ) == Err::<Seq<u8>, HomeError>(HomeError::CurrentDir),
        env.vars["CARGO_HOME"@][0] == 47 || env.current_dir is Some ==> (cargo_bin_of(
            env,
            platform_default,
        ) matches Ok(bin) && {
            &&& components(bin) == components(home).push(seq![98u8, 105, 110])
            &&& home.is_prefix_of(bin)
            &&& bin.len() <= home.len() + 4
        }),
{
    lemma_bin_bytes();
    if let Some(dir) = env.current_dir {
        assert(dir.push(47) =~= dir + seq![47u8]);
    }
    let name = seq![98u8, 105, 110];
    assert(!name.contains(47)) by {
        assert forall|i: int| 0 <= i < name.len() implies name[i] != 47 by {}
    }
    joined_name_is_last_component(home, name);
    assert(joined(home, name).subrange(0, home.len() as int) =~= home);
}

/// `CARGO_BIN_HOME` decides alone where it says anything. Where neither it nor
/// `CARGO_HOME` does, the programs lie where the platform has them, if it has a place.
pub proof fn programs_lie_where_told_or_where_the_platform_has_them(
    env: EnvView,
    platform_default: Option<Seq<u8>>,
)
    ensures
        env.vars.contains_key("CARGO_BIN_HOME"@) && env.vars["CARGO_BIN_HOME"@].len() > 0
            ==> cargo_bin_of(env, platform_default) == Ok::<Seq<u8>, HomeError>(
            env.vars["CARGO_BIN_HOME"@],
        ),
        (env.vars.contains_key("CARGO_BIN_HOME"@) ==> env.vars["CARGO_BIN_HOME"@].len() == 0) && (
        env.vars.contains_key("CARGO_HOME"@) ==> env.vars["CARGO_HOME"@].len() == 0)
            ==> cargo_bin_of(env, platform_default) == (match platform_default {
            Some(dir) => Ok::<Seq<u8>, HomeError>(dir),
            None => Err(HomeError::PlatformDefault),
        }),
{
}

/// A home that was resolved is its bytes, and a path that may be missing is there with
/// its bytes or not at all.
pub proof fn homes_are_their_bytes(r: Result<UnixPath, HomeError>, path: Option<UnixPath>)
    ensures
        r matches Ok(home) ==> home_value(r) == Ok::<Seq<u8>, HomeError>(home.bytes@),
        r matches Err(error) ==> home_value(r) == Err::<Seq<u8>, HomeError>(error),
        path matches Some(known) ==> optional_path(path) == Some(known.bytes@),
        path is None ==> optional_path(path) is None,
{
}

} // verus!
