//! A single license requirement: one SPDX license identifier, an optional
//! exception identifier, and an "or-later" marker.

use vstd::prelude::*;

verus! {

/// Mathematical model of a [`LicenseRequirement`].
#[verifier::ext_equal]
pub ghost struct ReqView {
    /// Canonical SPDX rendering of the whole requirement,
    /// e.g. `Apache-2.0 WITH LLVM-exception`.
    pub req_str: Seq<char>,
    /// The bare license identifier when the license is a recognized SPDX id;
    /// `None` for user-supplied license references.
    pub license_id: Option<Seq<char>>,
    /// Whether the requirement allows any later version of the license.
    pub or_later: bool,
    /// The exception identifier named after `WITH`, if any.
    pub exception_id: Option<Seq<char>>,
}

/// A single SPDX license requirement. Immutable once parsed; equality is
/// structural over all fields.
#[derive(Debug)]
pub struct LicenseRequirement {
    pub req_str: String,
    pub license_id: Option<String>,
    pub or_later: bool,
    pub exception_id: Option<String>,
}

impl View for LicenseRequirement {
    type V = ReqView;

    open spec fn view(&self) -> ReqView {
        ReqView {
            req_str: self.req_str@,
            license_id: match self.license_id {
                Some(s) => Some(s@),
                None => None,
            },
            or_later: self.or_later,
            exception_id: match self.exception_id {
                Some(s) => Some(s@),
                None => None,
            },
        }
    }
}

impl Clone for LicenseRequirement {
    fn clone(&self) -> (r: Self)
        ensures
            r == *self,
    {
        LicenseRequirement {
            req_str: self.req_str.clone(),
            license_id: match &self.license_id {
                Some(s) => Some(s.clone()),
                None => None,
            },
            or_later: self.or_later,
            exception_id: match &self.exception_id {
                Some(s) => Some(s.clone()),
                None => None,
            },
        }
    }
}

/// The views of a sequence of requirements.
pub open spec fn req_views(s: Seq<LicenseRequirement>) -> Seq<ReqView> {
    s.map_values(|r: LicenseRequirement| r@)
}

/// Structural equality of two requirements, decided over their views.
impl LicenseRequirement {
    pub fn same_as(&self, other: &LicenseRequirement) -> (r: bool)
        ensures
            r == (self@ == other@),
    {
        let ids_eq = match (&self.license_id, &other.license_id) {
            (Some(a), Some(b)) => *a == *b,
            (None, None) => true,
            _ => false,
        };
        let excs_eq = match (&self.exception_id, &other.exception_id) {
            (Some(a), Some(b)) => *a == *b,
            (None, None) => true,
            _ => false,
        };
        let r = self.req_str == other.req_str && ids_eq && self.or_later == other.or_later
            && excs_eq;
        proof {
            if r {
                assert(self@ =~= other@);
            }
        }
        r
    }
}

/// Does `list` hold a requirement structurally equal to `r`?
pub open spec fn has_req(list: Seq<LicenseRequirement>, r: ReqView) -> bool {
    exists|i: int| 0 <= i < list.len() && list[i]@ == r
}

/// Membership of a requirement in a list, decided over views.
pub fn req_in_list(r: &LicenseRequirement, list: &Vec<LicenseRequirement>) -> (b: bool)
    ensures
        b == has_req(list@, r@),
{
    let mut i: usize = 0;
    while i < list.len()
        invariant
            0 <= i <= list@.len(),
            forall|k: int| 0 <= k < i ==> list@[k]@ != r@,
        decreases list@.len() - i,
    {
        if list[i].same_as(r) {
            return true;
        }
        i += 1;
    }
    false
}

} // verus!
