//! The central mutable model: one record per dependency, and a deduplicated,
//! insertion-ordered list of every license requirement seen across all
//! dependencies.

use vstd::prelude::*;

use crate::error::NoticeError;
use crate::expr::{eval, failed_leaves, leaves, LicenseExpression};
use crate::parse::parsed_expr;
use crate::req::{has_req, req_views, LicenseRequirement, ReqView};

verus! {

/// One entry per third-party dependency. Created once when the dependency's
/// license check passes; never mutated afterwards.
#[derive(Debug)]
pub struct Dep {
    /// The dependency's name.
    pub name: String,
    /// The registry page (or raw source origin) of the dependency.
    pub package_url: String,
    /// The literal license expression string the dependency declared.
    pub license_id: String,
    /// The extracted notice strings, unique, in first-seen order.
    pub notices: Vec<String>,
}

/// The aggregated model all renderers consume.
#[derive(Debug)]
pub struct Notices {
    /// Ordered dependency records, append-only, in collector-then-discovery
    /// order.
    pub dependencies: Vec<Dep>,
    /// Deduplicated license requirements, insertion-ordered, first seen
    /// first.
    pub licences: Vec<LicenseRequirement>,
}

/// What one insertion does to the requirement list: nothing when a
/// structurally equal entry already stands there, else an append.
pub open spec fn add_license_spec(l: Seq<LicenseRequirement>, q: LicenseRequirement) -> Seq<
    LicenseRequirement,
> {
    if has_req(l, q@) {
        l
    } else {
        l.push(q)
    }
}

/// The same insertion, over views alone.
pub open spec fn add_view(l: Seq<ReqView>, v: ReqView) -> Seq<ReqView> {
    if l.contains(v) {
        l
    } else {
        l.push(v)
    }
}

/// Inserting a whole sequence of requirement views, left to right.
pub open spec fn add_views(l: Seq<ReqView>, vs: Seq<ReqView>) -> Seq<ReqView>
    decreases vs.len(),
{
    if vs.len() == 0 {
        l
    } else {
        add_view(add_views(l, vs.drop_last()), vs.last())
    }
}

/// No two entries of the requirement list are structurally equal.
pub open spec fn licences_nodup(l: Seq<LicenseRequirement>) -> bool {
    forall|i: int, j: int| 0 <= i < j < l.len() ==> l[i]@ != l[j]@
}

/// Membership in the requirement list and in its view sequence coincide.
pub proof fn lemma_has_req_views(l: Seq<LicenseRequirement>, v: ReqView)
    ensures
        has_req(l, v) <==> req_views(l).contains(v),
{
    if has_req(l, v) {
        let i = choose|i: int| 0 <= i < l.len() && l[i]@ == v;
        assert(req_views(l)[i] == v);
    }
    if req_views(l).contains(v) {
        let i = choose|i: int| 0 <= i < req_views(l).len() && req_views(l)[i] == v;
        assert(l[i]@ == v);
    }
}

/// Requirement deduplication: inserting a requirement that is already
/// present — in particular inserting the same requirement a second time,
/// from another dependency — leaves the list unchanged: same length, every
/// entry at its first-seen position.
pub proof fn lemma_add_license_idempotent(
    l: Seq<LicenseRequirement>,
    q: LicenseRequirement,
    q2: LicenseRequirement,
)
    requires
        q2@ == q@,
    ensures
        add_license_spec(add_license_spec(l, q), q2) == add_license_spec(l, q),
{
    if !has_req(l, q@) {
        assert(l.push(q)[l.len() as int]@ == q2@);
    }
}

/// Inserting views only ever extends the list: the old entries stay, in
/// place, as a prefix.
pub proof fn lemma_add_views_prefix(l: Seq<ReqView>, vs: Seq<ReqView>)
    ensures
        l.is_prefix_of(add_views(l, vs)),
    decreases vs.len(),
{
    if vs.len() > 0 {
        lemma_add_views_prefix(l, vs.drop_last());
    }
}

/// Insertion loses nothing: everything inserted, and everything already
/// there, stands in the result.
pub proof fn lemma_add_views_complete(l: Seq<ReqView>, vs: Seq<ReqView>)
    ensures
        forall|i: int| 0 <= i < vs.len() ==> #[trigger] add_views(l, vs).contains(vs[i]),
        forall|i: int| 0 <= i < l.len() ==> #[trigger] add_views(l, vs).contains(l[i]),
    decreases vs.len(),
{
    if vs.len() == 0 {
        assert forall|i: int| 0 <= i < l.len() implies #[trigger] add_views(l, vs).contains(
            l[i],
        ) by {
            assert(add_views(l, vs) == l);
            assert(l.contains(l[i]));
        }
    } else {
        lemma_add_views_complete(l, vs.drop_last());
        let a = add_views(l, vs.drop_last());
        let v = vs.last();
        assert(add_views(l, vs) == add_view(a, v));
        assert forall|i: int| 0 <= i < l.len() implies #[trigger] add_views(l, vs).contains(
            l[i],
        ) by {
            assert(a.contains(l[i]));
            lemma_add_view_contains(a, v, l[i]);
        }
        assert forall|i: int| 0 <= i < vs.len() implies #[trigger] add_views(l, vs).contains(
            vs[i],
        ) by {
            if i < vs.len() - 1 {
                assert(vs.drop_last()[i] == vs[i]);
                assert(a.contains(vs[i]));
                lemma_add_view_contains(a, v, vs[i]);
            } else {
                lemma_add_view_contains(a, v, v);
            }
        }
    }
}

/// One insertion keeps everything that was there and makes the inserted
/// view a member.
proof fn lemma_add_view_contains(a: Seq<ReqView>, v: ReqView, x: ReqView)
    requires
        a.contains(x) || x == v,
    ensures
        add_view(a, v).contains(x),
{
    if a.contains(v) {
        assert(a.contains(x));
    } else {
        if a.contains(x) {
            let i = choose|i: int| 0 <= i < a.len() && a[i] == x;
            assert(a.push(v)[i] == x);
        } else {
            assert(a.push(v)[a.len() as int] == x);
        }
    }
}

impl Default for Notices {
    /// The empty aggregate: no dependencies, no requirements.
    fn default() -> (r: Notices)
        ensures
            r.dependencies@ == Seq::<Dep>::empty(),
            r.licences@ == Seq::<LicenseRequirement>::empty(),
    {
        Notices { dependencies: Vec::new(), licences: Vec::new() }
    }
}

impl Notices {
    /// Inserts a requirement unless a structurally equal entry already
    /// exists; a no-op otherwise. Dependency records are untouched.
    pub fn add_license(&mut self, req: LicenseRequirement)
        ensures
            final(self).dependencies == old(self).dependencies,
            final(self).licences@ == add_license_spec(old(self).licences@, req),
            req_views(final(self).licences@) == add_view(req_views(old(self).licences@), req@),
            licences_nodup(old(self).licences@) ==> licences_nodup(final(self).licences@),
    {
        proof {
            lemma_has_req_views(self.licences@, req@);
        }
        if !crate::req::req_in_list(&req, &self.licences) {
            let ghost pre = self.licences@;
            self.licences.push(req);
            proof {
                assert(req_views(pre.push(req)) =~= req_views(pre).push(req@));
            }
        }
    }

    /// Appends a dependency record unconditionally: two ecosystems may
    /// legitimately list packages with the same name.
    pub fn append_dependency(&mut self, dep: Dep)
        ensures
            final(self).dependencies@ == old(self).dependencies@.push(dep),
            final(self).licences == old(self).licences,
    {
        self.dependencies.push(dep);
    }
}

/// Validates an already parsed expression against the allow-list and, on
/// success, records every requirement the expression references — also those
/// an `OR` branch did not need — deduplicated, in encounter order. On
/// failure the aggregate is untouched and every unmet leaf requirement is
/// reported, in encounter order.
pub fn handle_license(
    expr: &LicenseExpression,
    allowed: &Vec<LicenseRequirement>,
    notices: &mut Notices,
) -> (r: Result<(), NoticeError>)
    ensures
        r is Ok <==> eval(*expr, allowed@),
        final(notices).dependencies == old(notices).dependencies,
        r is Ok ==> req_views(final(notices).licences@) == add_views(
            req_views(old(notices).licences@),
            leaves(*expr),
        ),
        r is Ok ==> forall|i: int|
            0 <= i < leaves(*expr).len() ==> req_views(final(notices).licences@).contains(
                #[trigger] leaves(*expr)[i],
            ),
        r is Ok ==> licences_nodup(old(notices).licences@) ==> licences_nodup(
            final(notices).licences@,
        ),
        old(notices).licences@.is_prefix_of(final(notices).licences@),
        r is Err ==> *final(notices) == *old(notices),
        r matches Err(e) ==> e matches NoticeError::NotAllowed { failed } && req_views(failed@)
            == failed_leaves(*expr, allowed@),
{
    if let Err(failed) = expr.evaluate(allowed) {
        proof {
            assert(notices.licences@.is_prefix_of(notices.licences@));
        }
        return Err(NoticeError::NotAllowed { failed });
    }
    let reqs = expr.requirements();
    let ghost lvs = leaves(*expr);
    let ghost start = req_views(notices.licences@);
    let n = reqs.len();
    let mut i: usize = 0;
    while i < n
        invariant
            0 <= i <= n,
            n == reqs@.len(),
            req_views(reqs@) =~= lvs,
            req_views(notices.licences@) == add_views(start, lvs.subrange(0, i as int)),
            licences_nodup(old(notices).licences@) ==> licences_nodup(notices.licences@),
            notices.dependencies == old(notices).dependencies,
            old(notices).licences@.is_prefix_of(notices.licences@),
        decreases n - i,
    {
        proof {
            assert(lvs.subrange(0, i as int + 1).drop_last() =~= lvs.subrange(0, i as int));
        }
        let ghost pre = notices.licences@;
        let q = reqs[i].clone();
        notices.add_license(q);
        proof {
            if notices.licences@ != pre {
                assert(notices.licences@.subrange(0, pre.len() as int) =~= pre);
                assert(notices.licences@.subrange(
                    0,
                    old(notices).licences@.len() as int,
                ) =~= old(notices).licences@);
            }
        }
        i += 1;
    }
    proof {
        assert(lvs.subrange(0, n as int) =~= lvs);
        lemma_add_views_complete(start, lvs);
    }
    Ok(())
}

/// Parses a dependency's license string and validates it as
/// [`handle_license`] does: succeeds exactly when the string parses (see
/// [`parsed_expr`]) and the expression is satisfied, recording its
/// requirements; a parse failure or an unmet allow-list leaves the whole
/// aggregate untouched. The dependency list is never touched, and the
/// requirement list only ever grows, old entries staying in place.
pub fn handle_package_license(
    license: &str,
    allowed: &Vec<LicenseRequirement>,
    notices: &mut Notices,
) -> (r: Result<(), NoticeError>)
    ensures
        r is Ok <==> (parsed_expr(license@) matches Some(e) && eval(e, allowed@)),
        r is Ok ==> (parsed_expr(license@) matches Some(e) && req_views(
            final(notices).licences@,
        ) == add_views(req_views(old(notices).licences@), leaves(e))),
        r matches Err(err) ==> (match parsed_expr(license@) {
            Option::None => err matches NoticeError::ParseFailure { .. },
            Option::Some(e) => err matches NoticeError::NotAllowed { failed } && req_views(
                failed@,
            ) == failed_leaves(e, allowed@) && !eval(e, allowed@),
        }),
        final(notices).dependencies == old(notices).dependencies,
        r is Err ==> *final(notices) == *old(notices),
        old(notices).licences@.is_prefix_of(final(notices).licences@),
        licences_nodup(old(notices).licences@) ==> licences_nodup(final(notices).licences@),
{
    let expr = match LicenseExpression::parse(license) {
        Ok(e) => e,
        Err(e) => {
            proof {
                assert(notices.licences@.is_prefix_of(notices.licences@));
            }
            return Err(e);
        },
    };
    handle_license(&expr, allowed, notices)
}

} // verus!
