//! Lenient parsing of license expression strings. The grammar work is done
//! by the `spdx` crate behind one trusted wrapper; its result is named by
//! [`spdx_nodes_of`], so every caller can state exactly when a string
//! parses. Everything downstream works on the plain-value node list the
//! wrapper hands back.

use vstd::prelude::*;
use vstd::string::StringExecFns;

use spdx::expression::{ExprNode, Operator};

use crate::error::NoticeError;
use crate::expr::{node_leaves, tree_of, LicenseExpression, RawNode};
use crate::req::LicenseRequirement;

verus! {

/// What the `spdx` parser makes of a license string, in lax mode: the
/// expression's node list in postfix order, converted to plain values, or
/// `None` when the string is not a recognizable license expression. The
/// parser is a function of the string alone.
pub uninterp spec fn spdx_nodes_of(s: Seq<char>) -> Option<Seq<RawNode>>;

/// The expression a license string parses to: the tree of its node list.
/// The `spdx` parser only produces well-formed postfix lists, so in
/// practice the tree exists whenever the node list does.
pub open spec fn parsed_expr(s: Seq<char>) -> Option<LicenseExpression> {
    match spdx_nodes_of(s) {
        Some(ns) => tree_of(ns),
        None => None,
    }
}

/// Relies on `spdx::Expression::parse_mode` with lax parsing (tolerating
/// common real-world deviations such as deprecated identifiers and
/// alternate separators) and `spdx::Expression::iter`, which yields the
/// parsed nodes in postfix order. The body only converts: each operator to
/// its own arm, each requirement to plain values — its canonical rendering,
/// the bare SPDX license identifier when recognized, the or-later marker,
/// and the rendered exception identifier. A failure is rendered as the
/// parser's display message.
#[verifier::external_body]
fn spdx_parse_nodes(s: &str) -> (r: Result<Vec<RawNode>, String>)
    ensures
        r is Ok <==> spdx_nodes_of(s@) is Some,
        r matches Ok(v) ==> spdx_nodes_of(s@) == Some(v@),
{
    let e = spdx::Expression::parse_mode(s, spdx::ParseMode::LAX).map_err(|x| x.to_string())?;
    Ok(e.iter().map(|n| match n {
        ExprNode::Op(Operator::And) => RawNode::And,
        ExprNode::Op(Operator::Or) => RawNode::Or,
        ExprNode::Req(q) => RawNode::Leaf(LicenseRequirement {
            req_str: q.req.to_string(),
            license_id: q.req.license.id().map(|l| l.name.to_string()),
            or_later: matches!(q.req.license, spdx::LicenseItem::Spdx { or_later: true, .. }),
            exception_id: q.req.addition.as_ref().map(|a| a.to_string()),
        }),
    }).collect())
}

/// The postfix node list of a license string, or the parse failure.
fn parse_nodes(s: &str) -> (r: Result<Vec<RawNode>, NoticeError>)
    ensures
        r is Ok <==> spdx_nodes_of(s@) is Some,
        r matches Ok(v) ==> spdx_nodes_of(s@) == Some(v@),
        r matches Err(e) ==> e matches NoticeError::ParseFailure { .. } && spdx_nodes_of(s@)
            is None,
{
    match spdx_parse_nodes(s) {
        Ok(v) => Ok(v),
        Err(m) => Err(NoticeError::ParseFailure { message: m }),
    }
}

impl LicenseExpression {
    /// Parses a free-form license string leniently: succeeds exactly when
    /// the `spdx` parser accepts the string and its node list forms a tree,
    /// and then returns exactly that tree.
    pub fn parse(s: &str) -> (r: Result<LicenseExpression, NoticeError>)
        ensures
            r is Ok <==> parsed_expr(s@) is Some,
            r matches Ok(e) ==> parsed_expr(s@) == Some(e),
            r matches Err(e) ==> e matches NoticeError::ParseFailure { .. } && parsed_expr(s@)
                is None,
    {
        let nodes = match parse_nodes(s) {
            Ok(v) => v,
            Err(e) => {
                return Err(e);
            },
        };
        match LicenseExpression::from_postfix(&nodes) {
            Some(e) => Ok(e),
            None => Err(
                NoticeError::ParseFailure {
                    message: String::from_str("unrecognized license expression"),
                },
            ),
        }
    }
}

/// Parses one allow-list entry: succeeds exactly when the `spdx` parser
/// accepts the entry and it reduces to exactly one requirement, which is
/// returned (see [`crate::expr::single_requirement`]). An expression that
/// combines several requirements is a configuration error at load time.
pub fn parse_allow_list_entry(s: &str) -> (r: Result<LicenseRequirement, NoticeError>)
    ensures
        r is Ok <==> (spdx_nodes_of(s@) matches Some(ns) && node_leaves(ns).len() == 1),
        r matches Ok(q) ==> (spdx_nodes_of(s@) matches Some(ns) && node_leaves(ns) == seq![q]),
        r matches Err(e) ==> ((e matches NoticeError::ParseFailure { .. } && spdx_nodes_of(s@)
            is None) || (e matches NoticeError::NotSingleRequirement { entry } && entry@ == s@
            && spdx_nodes_of(s@) is Some)),
{
    let nodes = match parse_nodes(s) {
        Ok(v) => v,
        Err(e) => {
            return Err(e);
        },
    };
    match crate::expr::single_requirement(&nodes) {
        Some(q) => {
            proof {
                assert(node_leaves(nodes@).len() == 1);
            }
            Ok(q)
        },
        None => Err(NoticeError::NotSingleRequirement { entry: s.to_owned() }),
    }
}

} // verus!
