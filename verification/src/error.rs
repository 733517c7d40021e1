//! The failures that abort a notice-collection run.

use vstd::prelude::*;
use vstd::string::StringExecFns;

use crate::req::LicenseRequirement;

verus! {

/// Any error aborts the whole run: a notices document missing a dependency's
/// license information is worse than no document.
#[derive(Debug)]
pub enum NoticeError {
    /// A dependency declared no license at all.
    MissingLicense { package: String },
    /// A license string did not parse as an SPDX expression.
    ParseFailure { message: String },
    /// A license expression is not satisfied by the allow-list; holds every
    /// unmet leaf requirement, in encounter order.
    NotAllowed { failed: Vec<LicenseRequirement> },
    /// An allow-list entry did not reduce to exactly one requirement.
    NotSingleRequirement { entry: String },
    /// The license-text corpus lacks an identifier that passed validation:
    /// a corpus mismatch, not bad input.
    CorpusMissing { id: String },
}

/// The canonical renderings of a list of requirements.
pub open spec fn req_strs(l: Seq<LicenseRequirement>) -> Seq<Seq<char>> {
    l.map_values(|q: LicenseRequirement| q@.req_str)
}

/// What each error says. An unmet-allow-list error enumerates every failing
/// requirement, comma-separated, in encounter order, so a maintainer can
/// fix the allow-list in one pass.
pub open spec fn spec_message(e: NoticeError) -> Seq<char> {
    match e {
        NoticeError::MissingLicense { package } => "Package "@ + package@
            + " does not have a license"@,
        NoticeError::ParseFailure { message } => "failed to parse license expression: "@
            + message@,
        NoticeError::NotAllowed { failed } => "None of the following licenses were allowed in the `allowed_licenses` configuration: "@
            + crate::scan::join_with(req_strs(failed@), ", "@),
        NoticeError::NotSingleRequirement { entry } => "License must be a single requirement: "@
            + entry@,
        NoticeError::CorpusMissing { id } => "license text not found for "@ + id@,
    }
}

impl NoticeError {
    /// Renders the error for display.
    pub fn message(&self) -> (r: String)
        ensures
            r@ == spec_message(*self),
    {
        match self {
            NoticeError::MissingLicense { package } => {
                let mut s = String::new();
                s.append("Package ");
                s.append(package.as_str());
                s.append(" does not have a license");
                proof {
                    assert(s@ =~= spec_message(*self));
                }
                s
            },
            NoticeError::ParseFailure { message } => {
                let mut s = String::new();
                s.append("failed to parse license expression: ");
                s.append(message.as_str());
                proof {
                    assert(s@ =~= spec_message(*self));
                }
                s
            },
            NoticeError::NotAllowed { failed } => {
                let mut s = String::new();
                s.append(
                    "None of the following licenses were allowed in the `allowed_licenses` configuration: ",
                );
                let ghost mid = s@;
                let n = failed.len();
                if n > 0 {
                    s.append(failed[0].req_str.as_str());
                    proof {
                        assert(req_strs(failed@).subrange(0, 1) =~= seq![failed@[0]@.req_str]);
                        assert(s@ =~= mid + crate::scan::join_with(
                            req_strs(failed@).subrange(0, 1),
                            ", "@,
                        ));
                    }
                    let mut i: usize = 1;
                    while i < n
                        invariant
                            1 <= i <= n,
                            n == failed@.len(),
                            s@ == mid + crate::scan::join_with(
                                req_strs(failed@).subrange(0, i as int),
                                ", "@,
                            ),
                        decreases n - i,
                    {
                        proof {
                            assert(req_strs(failed@).subrange(0, i as int + 1).drop_last()
                                =~= req_strs(failed@).subrange(0, i as int));
                            assert(req_strs(failed@).subrange(0, i as int + 1).last() == failed@[
                                i as int]@.req_str);
                        }
                        s.append(", ");
                        s.append(failed[i].req_str.as_str());
                        proof {
                            assert(s@ =~= mid + crate::scan::join_with(
                                req_strs(failed@).subrange(0, i as int + 1),
                                ", "@,
                            ));
                        }
                        i += 1;
                    }
                    proof {
                        assert(req_strs(failed@).subrange(0, n as int) =~= req_strs(failed@));
                    }
                } else {
                    proof {
                        assert(req_strs(failed@) =~= Seq::<Seq<char>>::empty());
                        assert(s@ =~= spec_message(*self));
                    }
                }
                proof {
                    assert(s@ =~= spec_message(*self));
                }
                s
            },
            NoticeError::NotSingleRequirement { entry } => {
                let mut s = String::new();
                s.append("License must be a single requirement: ");
                s.append(entry.as_str());
                proof {
                    assert(s@ =~= spec_message(*self));
                }
                s
            },
            NoticeError::CorpusMissing { id } => {
                let mut s = String::new();
                s.append("license text not found for ");
                s.append(id.as_str());
                proof {
                    assert(s@ =~= spec_message(*self));
                }
                s
            },
        }
    }
}

} // verus!
