//! Per-package collection decisions: the ignore-list, the missing-license
//! rule, license validation, and registry URL synthesis. The caller checks
//! a package's license first and appends its record (see
//! [`crate::notices::Notices::append_dependency`]) only afterwards, once
//! the package's source tree has been scanned.

use vstd::prelude::*;
use vstd::string::StringExecFns;

use crate::error::NoticeError;
use crate::expr::{eval, failed_leaves, leaves};
use crate::notices::{add_views, licences_nodup, Notices};
use crate::parse::parsed_expr;
use crate::req::{req_views, LicenseRequirement};

verus! {

/// Is `name` on the configured ignore-list?
pub open spec fn spec_ignored(ignore: Seq<String>, name: Seq<char>) -> bool {
    exists|i: int| 0 <= i < ignore.len() && ignore[i]@ == name
}

/// Membership of a package name in the ignore-list.
pub fn should_ignore(name: &String, ignore: &Vec<String>) -> (b: bool)
    ensures
        b == spec_ignored(ignore@, name@),
{
    let mut i: usize = 0;
    while i < ignore.len()
        invariant
            0 <= i <= ignore@.len(),
            forall|k: int| 0 <= k < i ==> ignore@[k]@ != name@,
        decreases ignore@.len() - i,
    {
        if ignore[i] == *name {
            return true;
        }
        i += 1;
    }
    false
}

/// The registry page synthesized for a crate from the public crate registry.
pub open spec fn crates_io_url(name: Seq<char>, version: Seq<char>) -> Seq<char> {
    "https://crates.io/crates/"@ + name + "/"@ + version
}

/// The registry page synthesized for an npm package.
pub open spec fn npm_url(name: Seq<char>, version: Seq<char>) -> Seq<char> {
    "https://www.npmjs.com/package/"@ + name + "/v/"@ + version
}

/// The package URL of a cargo dependency: a crates-io origin yields the
/// synthesized registry page, any other origin is used verbatim.
pub fn cargo_package_url(name: &String, version: &String, from_crates_io: bool, origin: &String) -> (r:
    String)
    ensures
        from_crates_io ==> r@ == crates_io_url(name@, version@),
        !from_crates_io ==> r@ == origin@,
{
    if from_crates_io {
        let mut s = String::new();
        s.append("https://crates.io/crates/");
        s.append(name.as_str());
        s.append("/");
        s.append(version.as_str());
        proof {
            assert(s@ =~= crates_io_url(name@, version@));
        }
        s
    } else {
        origin.clone()
    }
}

/// The package URL of an npm dependency.
pub fn npm_package_url(name: &String, version: &String) -> (r: String)
    ensures
        r@ == npm_url(name@, version@),
{
    let mut s = String::new();
    s.append("https://www.npmjs.com/package/");
    s.append(name.as_str());
    s.append("/v/");
    s.append(version.as_str());
    proof {
        assert(s@ =~= npm_url(name@, version@));
    }
    s
}

/// Checks one collected package's license before anything else is done for
/// it: an ignored package contributes nothing (`Ok(false)`); a package
/// without a declared license aborts the run naming it; otherwise the
/// license string must parse (see [`parsed_expr`]) and evaluate true
/// against the allow-list, and exactly then the result is `Ok(true)` with
/// every requirement of the expression recorded. Any error, and any
/// non-`Ok(true)` outcome, leaves the aggregate untouched; the dependency
/// list is never touched here — the caller appends the record after the
/// scan.
pub fn check_package_license(
    notices: &mut Notices,
    allowed: &Vec<LicenseRequirement>,
    ignore: &Vec<String>,
    name: &String,
    license: &Option<String>,
) -> (r: Result<bool, NoticeError>)
    ensures
        r matches Ok(b) ==> b == !spec_ignored(ignore@, name@),
        spec_ignored(ignore@, name@) ==> (r matches Ok(false) && *final(notices) == *old(
            notices,
        )),
        !spec_ignored(ignore@, name@) && license is None ==> (r matches Err(e)
            && e matches NoticeError::MissingLicense { package } && package@ == name@),
        license matches Some(l) ==> (!spec_ignored(ignore@, name@) ==> ((r matches Ok(true))
            <==> (parsed_expr(l@) matches Some(e) && eval(e, allowed@)))),
        license matches Some(l) ==> (!spec_ignored(ignore@, name@) && parsed_expr(l@) is None
            ==> (r matches Err(e) && e matches NoticeError::ParseFailure { .. })),
        license matches Some(l) ==> (parsed_expr(l@) matches Some(x) ==> ((!spec_ignored(
            ignore@,
            name@,
        ) && !eval(x, allowed@)) ==> (r matches Err(err) && err
            matches NoticeError::NotAllowed { failed } && req_views(failed@) == failed_leaves(
            x,
            allowed@,
        )))),
        license matches Some(l) ==> (parsed_expr(l@) matches Some(x) ==> (r matches Ok(true)
            ==> req_views(final(notices).licences@) == add_views(
            req_views(old(notices).licences@),
            leaves(x),
        ))),
        final(notices).dependencies == old(notices).dependencies,
        r is Err ==> *final(notices) == *old(notices),
        r matches Ok(false) ==> *final(notices) == *old(notices),
        old(notices).licences@.is_prefix_of(final(notices).licences@),
        licences_nodup(old(notices).licences@) ==> licences_nodup(final(notices).licences@),
{
    if should_ignore(name, ignore) {
        return Ok(false);
    }
    let lic = match license {
        Some(l) => l,
        None => {
            return Err(NoticeError::MissingLicense { package: name.clone() });
        },
    };
    match crate::notices::handle_package_license(lic.as_str(), allowed, notices) {
        Ok(()) => Ok(true),
        Err(e) => Err(e),
    }
}

} // verus!
