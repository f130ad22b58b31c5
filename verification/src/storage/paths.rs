//! Cross-platform configuration directories.

use vstd::prelude::*;
use std::path::PathBuf;

verus! {

/// The standard library's owned path type, carried through unchanged.
#[verifier::external_type_specification]
#[verifier::external_body]
pub struct ExPathBuf(PathBuf);

/// The components of a path (as `Path::components` yields them), each as text.
pub uninterp spec fn path_components(p: PathBuf) -> Seq<Seq<char>>;

/// A single ordinary path component: non-empty, not `.` or `..`, free of
/// separators and of the drive colon.
pub open spec fn is_plain_name(s: Seq<char>) -> bool {
    &&& s.len() > 0
    &&& s != seq!['.']
    &&& s != seq!['.', '.']
    &&& forall|i: int| 0 <= i < s.len() ==> #[trigger] s[i] != '/' && s[i] != '\\' && s[i] != ':'
}

/// The user's configuration directory from `dirs::config_dir`, if the platform
/// has one. It depends on the environment; nothing is said of it.
#[verifier::external_body]
fn platform_config_dir() -> (r: Option<PathBuf>) {
    dirs::config_dir()
}

/// The relative path `.` (`PathBuf::from`). Trusted: its components are the single `.`.
#[verifier::external_body]
fn current_dir_path() -> (r: PathBuf)
    ensures
        path_components(r) == seq![seq!['.']],
{
    PathBuf::from(".")
}

/// Appends a plain name to a path (`PathBuf::push`). Trusted: as std documents,
/// a relative path is joined to the end, so the components gain this one name.
#[verifier::external_body]
fn push_name(p: &mut PathBuf, name: &str)
    requires
        is_plain_name(name@),
    ensures
        path_components(*final(p)) == path_components(*old(p)).push(name@),
{
    p.push(name)
}

/// The name of the configuration directory.
pub open spec fn config_dir_name() -> Seq<char> {
    seq!['u', 'n', 'd', 'e', 'r', 't', 'o', 'w']
}

/// The name of the profile file.
pub open spec fn profile_file_name() -> Seq<char> {
    seq!['p', 'r', 'o', 'f', 'i', 'l', 'e', '.', 't', 'o', 'm', 'l']
}

/// The components of the configuration directory for a platform configuration
/// directory: that directory and `undertow`, or `.` and `undertow` where the
/// platform has none.
pub open spec fn config_dir_components(platform: Option<PathBuf>) -> Seq<Seq<char>> {
    match platform {
        Some(d) => path_components(d),
        None => seq![seq!['.']],
    }.push(config_dir_name())
}

/// The configuration directory for a given platform configuration directory:
/// `undertow` under it, or under `.` where there is none.
pub fn config_dir_in(platform: Option<PathBuf>) -> (r: PathBuf)
    ensures
        path_components(r) == config_dir_components(platform),
{
    let mut dir = match platform {
        Some(d) => d,
        None => current_dir_path(),
    };
    let name = "undertow";
    proof {
        reveal_strlit("undertow");
        assert(name@ =~= config_dir_name());
        assert(is_plain_name(name@));
    }
    push_name(&mut dir, name);
    dir
}

/// The path of the profile file for a given platform configuration directory:
/// `profile.toml` in the configuration directory.
pub fn profile_path_in(platform: Option<PathBuf>) -> (r: PathBuf)
    ensures
        path_components(r) == config_dir_components(platform).push(profile_file_name()),
{
    let mut path = config_dir_in(platform);
    let name = "profile.toml";
    proof {
        reveal_strlit("profile.toml");
        assert(name@ =~= profile_file_name());
    }
    push_name(&mut path, name);
    path
}

/// The configuration directory: `undertow` under the platform's configuration
/// directory, or under `.` where the platform has none. Which directory the
/// platform gives depends on the environment.
pub fn config_dir() -> (r: PathBuf)
    ensures
        exists|platform: Option<PathBuf>| path_components(r) == config_dir_components(platform),
{
    let platform = platform_config_dir();
    let ghost g = platform;
    let r = config_dir_in(platform);
    assert(path_components(r) == config_dir_components(g));
    r
}

/// The full path of the profile file: `profile.toml` in the configuration directory.
pub fn profile_path() -> (r: PathBuf)
    ensures
        exists|platform: Option<PathBuf>|
            path_components(r) == config_dir_components(platform).push(profile_file_name()),
{
    let platform = platform_config_dir();
    let ghost g = platform;
    let r = profile_path_in(platform);
    assert(path_components(r) == config_dir_components(g).push(profile_file_name()));
    r
}

} // verus!
