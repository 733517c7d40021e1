//! SPDX license expressions: parsing (through the `spdx` crate), the boolean
//! evaluation semantics against an allow-list, and the flattened requirement
//! list of an expression.

use vstd::prelude::*;

use crate::req::{has_req, req_views, LicenseRequirement, ReqView};

verus! {

/// One node of a license expression in postfix order, as the parser hands
/// them out.
pub enum RawNode {
    /// Conjunction of the two preceding subexpressions.
    And,
    /// Disjunction of the two preceding subexpressions.
    Or,
    /// A single license requirement.
    Leaf(LicenseRequirement),
}

impl Clone for RawNode {
    fn clone(&self) -> (r: Self)
        ensures
            r == *self,
    {
        match self {
            RawNode::And => RawNode::And,
            RawNode::Or => RawNode::Or,
            RawNode::Leaf(q) => RawNode::Leaf(q.clone()),
        }
    }
}

/// A parsed license expression: a boolean combination of license
/// requirements.
pub enum LicenseExpression {
    /// A single license requirement.
    Req(LicenseRequirement),
    /// Both sides must be satisfied.
    And(Box<LicenseExpression>, Box<LicenseExpression>),
    /// At least one side must be satisfied.
    Or(Box<LicenseExpression>, Box<LicenseExpression>),
}

/// The boolean semantics of an expression: a leaf holds when a structurally
/// equal requirement stands in the allow-list, `AND` needs both operands,
/// `OR` needs at least one.
pub open spec fn eval(e: LicenseExpression, allowed: Seq<LicenseRequirement>) -> bool
    decreases e,
{
    match e {
        LicenseExpression::Req(q) => has_req(allowed, q@),
        LicenseExpression::And(a, b) => eval(*a, allowed) && eval(*b, allowed),
        LicenseExpression::Or(a, b) => eval(*a, allowed) || eval(*b, allowed),
    }
}

/// All leaf requirements of an expression, in encounter order.
pub open spec fn leaves(e: LicenseExpression) -> Seq<ReqView>
    decreases e,
{
    match e {
        LicenseExpression::Req(q) => seq![q@],
        LicenseExpression::And(a, b) => leaves(*a) + leaves(*b),
        LicenseExpression::Or(a, b) => leaves(*a) + leaves(*b),
    }
}

/// The leaf requirements that are not members of the allow-list, in
/// encounter order.
pub open spec fn failed_leaves(e: LicenseExpression, allowed: Seq<LicenseRequirement>) -> Seq<
    ReqView,
>
    decreases e,
{
    match e {
        LicenseExpression::Req(q) => if has_req(allowed, q@) {
            Seq::empty()
        } else {
            seq![q@]
        },
        LicenseExpression::And(a, b) => failed_leaves(*a, allowed) + failed_leaves(*b, allowed),
        LicenseExpression::Or(a, b) => failed_leaves(*a, allowed) + failed_leaves(*b, allowed),
    }
}

/// The postfix rendering of an expression; parsing is its inverse.
pub open spec fn postfix(e: LicenseExpression) -> Seq<RawNode>
    decreases e,
{
    match e {
        LicenseExpression::Req(q) => seq![RawNode::Leaf(q)],
        LicenseExpression::And(a, b) => postfix(*a) + postfix(*b) + seq![RawNode::And],
        LicenseExpression::Or(a, b) => postfix(*a) + postfix(*b) + seq![RawNode::Or],
    }
}

/// Whether `nodes[i..]` is a well-formed continuation of a postfix expression
/// when `depth` subexpressions are already on the stack.
pub open spec fn postfix_valid_from(nodes: Seq<RawNode>, i: int, depth: int) -> bool
    decreases nodes.len() - i when 0 <= i <= nodes.len()
{
    if i == nodes.len() {
        depth == 1
    } else {
        match nodes[i] {
            RawNode::Leaf(_) => postfix_valid_from(nodes, i + 1, depth + 1),
            RawNode::And => depth >= 2 && postfix_valid_from(nodes, i + 1, depth - 1),
            RawNode::Or => depth >= 2 && postfix_valid_from(nodes, i + 1, depth - 1),
        }
    }
}

/// A well-formed postfix expression: evaluating it leaves exactly one
/// subexpression on the stack.
pub open spec fn postfix_valid(nodes: Seq<RawNode>) -> bool {
    postfix_valid_from(nodes, 0, 0)
}

/// Concatenated postfix renderings of a stack of subexpressions.
pub open spec fn postfix_all(stack: Seq<LicenseExpression>) -> Seq<RawNode>
    decreases stack.len(),
{
    if stack.len() == 0 {
        Seq::empty()
    } else {
        postfix_all(stack.drop_last()) + postfix(stack.last())
    }
}

/// The postfix parser itself, one node at a time: a leaf is pushed, an
/// operator joins the two topmost subexpressions; at the end exactly one
/// expression must remain. `None` for a malformed list.
pub open spec fn run_postfix(
    ns: Seq<RawNode>,
    i: int,
    stack: Seq<LicenseExpression>,
) -> Option<LicenseExpression>
    decreases ns.len() - i when 0 <= i <= ns.len()
{
    if i == ns.len() {
        if stack.len() == 1 {
            Some(stack[0])
        } else {
            None
        }
    } else {
        match ns[i] {
            RawNode::Leaf(q) => run_postfix(ns, i + 1, stack.push(LicenseExpression::Req(q))),
            RawNode::And => if stack.len() < 2 {
                None
            } else {
                run_postfix(
                    ns,
                    i + 1,
                    stack.drop_last().drop_last().push(
                        LicenseExpression::And(
                            Box::new(stack[stack.len() - 2]),
                            Box::new(stack.last()),
                        ),
                    ),
                )
            },
            RawNode::Or => if stack.len() < 2 {
                None
            } else {
                run_postfix(
                    ns,
                    i + 1,
                    stack.drop_last().drop_last().push(
                        LicenseExpression::Or(
                            Box::new(stack[stack.len() - 2]),
                            Box::new(stack.last()),
                        ),
                    ),
                )
            },
        }
    }
}

/// The expression tree a postfix node list parses to, if it is well formed.
pub open spec fn tree_of(ns: Seq<RawNode>) -> Option<LicenseExpression> {
    run_postfix(ns, 0, Seq::empty())
}

impl LicenseExpression {
    /// Rebuilds the expression tree from the parser's postfix node list:
    /// exactly [`tree_of`] the list. It succeeds exactly on well-formed
    /// postfix sequences, and then the tree renders back to the very same
    /// node list.
    pub fn from_postfix(nodes: &Vec<RawNode>) -> (r: Option<LicenseExpression>)
        ensures
            r == tree_of(nodes@),
            r is Some <==> postfix_valid(nodes@),
            r matches Some(e) ==> postfix(e) =~= nodes@,
    {
        let mut stack: Vec<LicenseExpression> = Vec::new();
        let n = nodes.len();
        let mut i: usize = 0;
        while i < n
            invariant
                0 <= i <= n,
                n == nodes@.len(),
                postfix_all(stack@) =~= nodes@.subrange(0, i as int),
                postfix_valid(nodes@) <==> postfix_valid_from(
                    nodes@,
                    i as int,
                    stack@.len() as int,
                ),
                tree_of(nodes@) == run_postfix(nodes@, i as int, stack@),
            decreases n - i,
        {
            let ghost pre = stack@;
            proof {
                assert(nodes@.subrange(0, i as int + 1) =~= nodes@.subrange(0, i as int).push(
                    nodes@[i as int],
                ));
            }
            let is_leaf = match &nodes[i] {
                RawNode::Leaf(q) => {
                    let leaf = LicenseExpression::Req(q.clone());
                    proof {
                        lemma_postfix_all_push(stack@, leaf);
                        assert(postfix(leaf) =~= seq![nodes@[i as int]]);
                    }
                    stack.push(leaf);
                    proof {
                        assert(stack@ == pre.push(leaf));
                        assert(run_postfix(nodes@, i as int, pre) == run_postfix(
                            nodes@,
                            i as int + 1,
                            stack@,
                        ));
                    }
                    true
                },
                _ => false,
            };
            if !is_leaf {
                if stack.len() < 2 {
                    proof {
                        assert(run_postfix(nodes@, i as int, pre) is None);
                    }
                    return None;
                }
                let right = stack.pop().unwrap();
                let left = stack.pop().unwrap();
                let joined = match &nodes[i] {
                    RawNode::Or => LicenseExpression::Or(Box::new(left), Box::new(right)),
                    _ => LicenseExpression::And(Box::new(left), Box::new(right)),
                };
                proof {
                    assert(pre =~= stack@.push(left).push(right));
                    assert(left == pre[pre.len() - 2]);
                    assert(right == pre.last());
                    assert(stack@ == pre.drop_last().drop_last());
                    lemma_postfix_all_push(stack@.push(left), right);
                    lemma_postfix_all_push(stack@, left);
                    lemma_postfix_all_push(stack@, joined);
                    assert(postfix(joined) =~= postfix(left) + postfix(right) + seq![
                        nodes@[i as int],
                    ]);
                    assert(postfix_all(stack@.push(joined)) =~= nodes@.subrange(0, i as int + 1));
                }
                stack.push(joined);
                proof {
                    assert(stack@ == pre.drop_last().drop_last().push(joined));
                    assert(run_postfix(nodes@, i as int, pre) == run_postfix(
                        nodes@,
                        i as int + 1,
                        stack@,
                    ));
                }
            }
            i += 1;
        }
        if stack.len() == 1 {
            let ghost full = stack@;
            let e = stack.pop().unwrap();
            proof {
                assert(full =~= Seq::empty().push(e));
                lemma_postfix_all_push(Seq::empty(), e);
                assert(postfix_all(full) =~= postfix(e));
                assert(nodes@.subrange(0, n as int) =~= nodes@);
                assert(e == full[0]);
                assert(run_postfix(nodes@, n as int, full) == Some(e));
            }
            Some(e)
        } else {
            proof {
                assert(run_postfix(nodes@, n as int, stack@) is None);
            }
            None
        }
    }

    /// All leaf requirements of the expression, in encounter order.
    pub fn requirements(&self) -> (r: Vec<LicenseRequirement>)
        ensures
            req_views(r@) =~= leaves(*self),
    {
        let mut out: Vec<LicenseRequirement> = Vec::new();
        self.collect_leaves(&mut out);
        proof {
            assert(req_views(Seq::empty().add(out@)) =~= req_views(out@));
        }
        out
    }

    fn collect_leaves(&self, out: &mut Vec<LicenseRequirement>)
        ensures
            req_views(final(out)@) =~= req_views(old(out)@) + leaves(*self),
        decreases *self,
    {
        match self {
            LicenseExpression::Req(q) => {
                out.push(q.clone());
                proof {
                    lemma_req_views_push(old(out)@, (final(out)@).last());
                }
            },
            LicenseExpression::And(a, b) => {
                a.collect_leaves(out);
                b.collect_leaves(out);
            },
            LicenseExpression::Or(a, b) => {
                a.collect_leaves(out);
                b.collect_leaves(out);
            },
        }
    }

    /// Evaluates the expression against the allow-list. Returns `Ok` exactly
    /// when the expression is satisfied; otherwise returns every leaf
    /// requirement missing from the allow-list, in encounter order.
    pub fn evaluate(&self, allowed: &Vec<LicenseRequirement>) -> (r: Result<
        (),
        Vec<LicenseRequirement>,
    >)
        ensures
            r is Ok <==> eval(*self, allowed@),
            r matches Err(f) ==> req_views(f@) =~= failed_leaves(*self, allowed@),
            r matches Err(f) ==> f@.len() > 0,
    {
        let mut failures: Vec<LicenseRequirement> = Vec::new();
        let ok = self.eval_collect(allowed, &mut failures);
        if ok {
            Ok(())
        } else {
            proof {
                lemma_unsat_has_failure(*self, allowed@);
            }
            Err(failures)
        }
    }

    fn eval_collect(&self, allowed: &Vec<LicenseRequirement>, failures: &mut Vec<
        LicenseRequirement,
    >) -> (b: bool)
        ensures
            b == eval(*self, allowed@),
            req_views(final(failures)@) =~= req_views(old(failures)@) + failed_leaves(
                *self,
                allowed@,
            ),
        decreases *self,
    {
        match self {
            LicenseExpression::Req(q) => {
                let member = crate::req::req_in_list(q, allowed);
                if !member {
                    failures.push(q.clone());
                    proof {
                        lemma_req_views_push(old(failures)@, (final(failures)@).last());
                    }
                }
                member
            },
            LicenseExpression::And(a, b) => {
                let ra = a.eval_collect(allowed, failures);
                let rb = b.eval_collect(allowed, failures);
                ra && rb
            },
            LicenseExpression::Or(a, b) => {
                let ra = a.eval_collect(allowed, failures);
                let rb = b.eval_collect(allowed, failures);
                ra || rb
            },
        }
    }
}

/// An unsatisfied expression always has at least one unmet leaf to report.
proof fn lemma_unsat_has_failure(e: LicenseExpression, allowed: Seq<LicenseRequirement>)
    ensures
        !eval(e, allowed) ==> failed_leaves(e, allowed).len() > 0,
    decreases e,
{
    match e {
        LicenseExpression::Req(_) => {},
        LicenseExpression::And(a, b) => {
            lemma_unsat_has_failure(*a, allowed);
            lemma_unsat_has_failure(*b, allowed);
        },
        LicenseExpression::Or(a, b) => {
            lemma_unsat_has_failure(*a, allowed);
            lemma_unsat_has_failure(*b, allowed);
        },
    }
}

proof fn lemma_req_views_push(s: Seq<LicenseRequirement>, x: LicenseRequirement)
    ensures
        req_views(s.push(x)) =~= req_views(s).push(x@),
{
}

proof fn lemma_postfix_all_push(stack: Seq<LicenseExpression>, e: LicenseExpression)
    ensures
        postfix_all(stack.push(e)) =~= postfix_all(stack) + postfix(e),
{
    assert(stack.push(e).drop_last() =~= stack);
    assert(stack.push(e).last() == e);
}

/// The leaf payloads of a postfix node list, in order.
pub open spec fn node_leaves(nodes: Seq<RawNode>) -> Seq<LicenseRequirement>
    decreases nodes.len(),
{
    if nodes.len() == 0 {
        Seq::empty()
    } else {
        match nodes.last() {
            RawNode::Leaf(q) => node_leaves(nodes.drop_last()).push(q),
            RawNode::And => node_leaves(nodes.drop_last()),
            RawNode::Or => node_leaves(nodes.drop_last()),
        }
    }
}

/// Extracts the single requirement of a node list, exactly when the list
/// reduces to one requirement. An allow-list entry that reduces to more than
/// one requirement (or to none) is rejected.
pub fn single_requirement(nodes: &Vec<RawNode>) -> (r: Option<LicenseRequirement>)
    ensures
        r is Some <==> node_leaves(nodes@).len() == 1,
        r matches Some(q) ==> node_leaves(nodes@) =~= seq![q],
{
    let mut found: Option<LicenseRequirement> = None;
    let n = nodes.len();
    let mut i: usize = 0;
    while i < n
        invariant
            0 <= i <= n,
            n == nodes@.len(),
            match found {
                Some(q) => node_leaves(nodes@.subrange(0, i as int)) =~= seq![q],
                None => node_leaves(nodes@.subrange(0, i as int)).len() == 0,
            },
        decreases n - i,
    {
        let ghost pre = nodes@.subrange(0, i as int);
        proof {
            assert(nodes@.subrange(0, i as int + 1).drop_last() =~= pre);
        }
        match &nodes[i] {
            RawNode::Leaf(q) => {
                if found.is_some() {
                    proof {
                        assert(node_leaves(nodes@).len() > 1) by {
                            lemma_node_leaves_prefix(nodes@, i as int + 1);
                        }
                    }
                    return None;
                }
                found = Some(q.clone());
            },
            _ => {},
        }
        i += 1;
    }
    proof {
        assert(nodes@.subrange(0, n as int) =~= nodes@);
    }
    found
}

/// Leaf counts never shrink as a postfix node list grows.
proof fn lemma_node_leaves_prefix(nodes: Seq<RawNode>, i: int)
    requires
        0 <= i <= nodes.len(),
    ensures
        node_leaves(nodes).len() >= node_leaves(nodes.subrange(0, i)).len(),
    decreases nodes.len() - i,
{
    if i < nodes.len() {
        lemma_node_leaves_prefix(nodes, i + 1);
        assert(nodes.subrange(0, i + 1).drop_last() =~= nodes.subrange(0, i));
    } else {
        assert(nodes.subrange(0, i) =~= nodes);
    }
}

} // verus!
