//! Where a release puts its files.
use vstd::prelude::*;
use vstd::string::StringExecFns;

verus! {

/// `parent`, a slash, `child`.
pub open spec fn joined(parent: Seq<char>, child: Seq<char>) -> Seq<char> {
    parent + seq!['/'] + child
}

/// The path of `child` under `parent`.
pub fn join(parent: &str, child: &str) -> (r: String)
    ensures
        r@ == joined(parent@, child@),
{
    proof {
        reveal_strlit("/");
        assert("/"@ =~= seq!['/']);
    }
    parent.to_owned().concat("/").concat(child)
}

/// The directory that holds every output of one version of the crate `name`.
pub fn release_dir(release_path: &str, name: &str, version: &str) -> (r: String)
    ensures
        r@ == joined(joined(release_path@, name@), version@),
{
    let base = join(release_path, name);
    join(base.as_str(), version)
}

/// Where the build of `target` leaves the binary `name`, under the working
/// directory `dir`.
pub fn build_path(dir: &str, target: &str, name: &str) -> (r: String)
    ensures
        r@ == dir@ + "/target/"@ + target@ + "/release/"@ + name@,
{
    dir.to_owned().concat("/target/").concat(target).concat("/release/").concat(name)
}

/// The name of a binary on a platform that marks binaries by an extension.
pub fn with_exe(path: &str) -> (r: String)
    ensures
        r@ == path@ + ".exe"@,
{
    path.to_owned().concat(".exe")
}

/// The name of the archive of the build recorded as `output`.
pub fn archive_name(output: &str) -> (r: String)
    ensures
        r@ == output@ + ".zip"@,
{
    output.to_owned().concat(".zip")
}

} // verus!
