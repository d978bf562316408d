//! Where configuration files are looked for, and how the user-level and the
//! project-level configuration are combined into one.
use crate::config::{aggregate, Config};
use vstd::prelude::*;
use vstd::string::StringExecFns;

verus! {

/// Name of the project-level file, looked for in the working directory and its ancestors.
pub const LOCAL_CONFIG_FILE_NAME: &'static str = ".shwrap.yaml";

/// Name of the user-level file.
pub const USER_CONFIG_FILE_NAME: &'static str = "default.yaml";

/// Directory of the user-level file, before `~` is expanded.
pub const USER_CONFIG_DIR_PATH: &'static str = "~/.config/shwrap";

/// `name` inside directory `dir`: a `/` is put between them unless `dir`
/// is empty or already ends with one.
pub open spec fn joined(dir: Seq<char>, name: Seq<char>) -> Seq<char> {
    if dir.len() == 0 || dir.last() == '/' {
        dir + name
    } else {
        dir + "/"@ + name
    }
}

/// Relies on `shellexpand::tilde`: a leading `~` alone or before `/` is
/// replaced by the home directory when it is known; anything else is
/// returned as it is.
#[verifier::external_body]
fn expand_home(s: &str) -> (r: String)
    ensures
        !(s@.len() > 0 && s@[0] == '~') ==> r@ == s@,
        r@ == s@ || exists|home: Seq<char>| r@ == home + s@.drop_first(),
{
    shellexpand::tilde(s).into_owned()
}

/// The parent directory of a path as `Path::parent` gives it: the path
/// without its final component, or nothing for a root or an empty path.
/// It depends on the path alone.
pub uninterp spec fn parent_of(dir: Seq<char>) -> Option<Seq<char>>;

/// Relies on `Path::parent`: the path without its final component, which
/// is shorter; nothing for a root or an empty path.
#[verifier::external_body]
fn parent_dir(dir: &str) -> (r: Option<String>)
    ensures
        r.is_some() == parent_of(dir@).is_some(),
        r.is_some() ==> r.unwrap()@ == parent_of(dir@).unwrap(),
        r.is_some() ==> r.unwrap()@.len() < dir@.len(),
        dir@.len() == 0 ==> r.is_none(),
{
    std::path::Path::new(dir).parent().map(|p| p.to_string_lossy().into_owned())
}

/// What the search for the project-level file does next.
#[derive(Debug, PartialEq, Eq)]
pub enum LocalStep {
    /// This directory holds the file.
    Found(String),
    /// Look in this directory next.
    Probe(String),
    /// No directory up to the root holds the file.
    NotFound,
}

/// `name` inside directory `dir`.
pub fn join_path(dir: &str, name: &str) -> (r: String)
    ensures
        r@ == joined(dir@, name@),
{
    let n = dir.unicode_len();
    let mut r = dir.to_owned();
    if n > 0 && dir.get_char(n - 1) != '/' {
        r.append("/");
    }
    r.append(name);
    r
}

/// Finds configuration files and combines what they hold.
pub struct ConfigLoader;

impl ConfigLoader {
    /// The name of the project-level file.
    pub fn local_config_name() -> (r: &'static str)
        ensures
            r@ == LOCAL_CONFIG_FILE_NAME@,
    {
        LOCAL_CONFIG_FILE_NAME
    }

    /// The name of the user-level file.
    pub fn user_config_name() -> (r: &'static str)
        ensures
            r@ == USER_CONFIG_FILE_NAME@,
    {
        USER_CONFIG_FILE_NAME
    }

    /// The directory of the user-level file, before `~` is expanded.
    pub fn user_config_dir() -> (r: &'static str)
        ensures
            r@ == USER_CONFIG_DIR_PATH@,
    {
        USER_CONFIG_DIR_PATH
    }

    /// The directory of the user-level file, with `~` expanded where the
    /// home directory is known.
    pub fn get_user_config_dir() -> (r: String)
        ensures
            r@ == USER_CONFIG_DIR_PATH@ || exists|home: Seq<char>| r@ == home + USER_CONFIG_DIR_PATH@.drop_first(),
    {
        expand_home(USER_CONFIG_DIR_PATH)
    }

    /// Where the user-level file would be: `default.yaml` in
    /// `~/.config/shwrap`, with `~` replaced by the home directory where it
    /// is known.
    pub fn user_config_path() -> (r: String)
        ensures
            r@ == joined(USER_CONFIG_DIR_PATH@, USER_CONFIG_FILE_NAME@) || exists|home: Seq<char>|
                r@ == joined(home + USER_CONFIG_DIR_PATH@.drop_first(), USER_CONFIG_FILE_NAME@),
    {
        let dir = Self::get_user_config_dir();
        join_path(dir.as_str(), USER_CONFIG_FILE_NAME)
    }

    /// One step of the search for the project-level file, upwards from a
    /// starting directory: `found` says whether `dir` holds the file. The
    /// search stops at `dir` if it does, goes on with the parent directory
    /// if there is one, and ends with nothing at a root. Each directory
    /// probed is shorter than the one before, so the search ends.
    pub fn next_local_step(dir: String, found: bool) -> (r: LocalStep)
        ensures
            found ==> r == LocalStep::Found(dir),
            !found ==> match parent_of(dir@) {
                Some(p) => r is Probe && r->Probe_0@ == p && p.len() < dir@.len(),
                None => r is NotFound,
            },
            !found && dir@.len() == 0 ==> r is NotFound,
    {
        if found {
            LocalStep::Found(dir)
        } else {
            match parent_dir(dir.as_str()) {
                Some(p) => LocalStep::Probe(p),
                None => LocalStep::NotFound,
            }
        }
    }

    /// The project-level file in `dir`, the directory found to hold one.
    pub fn get_local_config_file(dir: Option<String>) -> (r: Option<String>)
        ensures
            r.is_some() == dir.is_some(),
            r.is_some() ==> r.unwrap()@ == joined(dir.unwrap()@, LOCAL_CONFIG_FILE_NAME@),
    {
        match dir {
            Some(d) => Some(join_path(d.as_str(), LOCAL_CONFIG_FILE_NAME)),
            None => None,
        }
    }

    /// The file that takes precedence of those found: the project-level
    /// one, else the user-level one.
    pub fn get_config_file(local: Option<String>, user: Option<String>) -> (r: Option<String>)
        ensures
            r == (if local.is_some() {
                local
            } else {
                user
            }),
    {
        match local {
            Some(l) => Some(l),
            None => user,
        }
    }

    /// Combines the configurations read from the files found: nothing if
    /// neither was found, the one found if only one was, else the
    /// user-level one aggregated with the project-level one, which takes
    /// precedence.
    pub fn load(user: Option<Config>, local: Option<Config>) -> (r: Option<Config>)
        ensures
            r.is_some() == (user.is_some() || local.is_some()),
            user.is_some() && local.is_none() ==> r.unwrap()@ == user.unwrap()@,
            user.is_none() && local.is_some() ==> r.unwrap()@ == local.unwrap()@,
            user.is_some() && local.is_some() ==> r.unwrap()@ == aggregate(
                user.unwrap()@,
                local.unwrap()@,
            ),
    {
        match (user, local) {
            (Some(u), Some(l)) => Some(Config::merge(u, l)),
            (Some(u), None) => Some(u),
            (None, Some(l)) => Some(l),
            (None, None) => None,
        }
    }
}

} // verus!
