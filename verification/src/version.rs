//! The long version text of the command-line program.
use crate::text::string_push_str;
use vstd::prelude::*;

verus! {

/// The long version text: the package version, then the commit, build time,
/// target and profile it was built with, one per line.
pub open spec fn long_version_spec(
    version: Seq<char>,
    commit: Seq<char>,
    build_time: Seq<char>,
    target: Seq<char>,
    profile: Seq<char>,
) -> Seq<char> {
    version + "\ncommit:  "@ + commit + "\nbuild:   "@ + build_time + "\ntarget:  "@ + target
        + "\nprofile: "@ + profile
}

/// The long version text from the build's facts.
pub fn long_version(version: &str, commit: &str, build_time: &str, target: &str, profile: &str) -> (r:
    String)
    ensures
        r@ == long_version_spec(version@, commit@, build_time@, target@, profile@),
{
    let mut s = version.to_owned();
    string_push_str(&mut s, "\ncommit:  ");
    string_push_str(&mut s, commit);
    string_push_str(&mut s, "\nbuild:   ");
    string_push_str(&mut s, build_time);
    string_push_str(&mut s, "\ntarget:  ");
    string_push_str(&mut s, target);
    string_push_str(&mut s, "\nprofile: ");
    string_push_str(&mut s, profile);
    s
}

} // verus!
