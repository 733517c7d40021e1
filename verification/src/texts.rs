//! Resolution of a license requirement to its canonical full text, from the
//! static SPDX corpus of the `license` crate. An identifier the corpus
//! lacks is a corpus mismatch, not bad input.

use vstd::prelude::*;
use vstd::string::StringExecFns;

use crate::error::NoticeError;
use crate::notices::Notices;
use crate::req::{LicenseRequirement, ReqView};

verus! {

/// The canonical full text the corpus holds for a license identifier, or
/// `None` when the identifier is not in the corpus.
pub uninterp spec fn license_text_of(id: Seq<char>) -> Option<Seq<char>>;

/// The text the corpus holds for an exception identifier, or `None` when
/// the identifier is not in the corpus.
pub uninterp spec fn exception_text_of(id: Seq<char>) -> Option<Seq<char>>;

/// Relies on `str::parse::<&dyn license::License>` and
/// `license::License::text`: the canonical full text of the license with
/// this SPDX identifier, from the crate's static corpus. The result depends
/// on the identifier alone.
#[verifier::external_body]
fn license_text_lookup(id: &str) -> (r: Option<String>)
    ensures
        match r {
            Some(t) => license_text_of(id@) == Some(t@),
            None => license_text_of(id@) is None,
        },
{
    id.parse::<&dyn license::License>().ok().map(|l| l.text().to_string())
}

/// Relies on `str::parse::<&dyn license::Exception>` and
/// `license::Exception::text`: the text of the exception with this SPDX
/// identifier, from the crate's static corpus. The result depends on the
/// identifier alone.
#[verifier::external_body]
fn exception_text_lookup(id: &str) -> (r: Option<String>)
    ensures
        match r {
            Some(t) => exception_text_of(id@) == Some(t@),
            None => exception_text_of(id@) is None,
        },
{
    id.parse::<&dyn license::Exception>().ok().map(|e| e.text().to_string())
}

/// The full text a requirement resolves to: the license text, and beneath a
/// `WITH EXCEPTION` delimiter the exception text when the requirement
/// carries one. `None` when the corpus lacks either identifier or the
/// license is a bare license reference.
pub open spec fn spec_full_text(q: ReqView) -> Option<Seq<char>> {
    match q.license_id {
        Option::None => Option::None,
        Option::Some(id) => match license_text_of(id) {
            Option::None => Option::None,
            Option::Some(t) => match q.exception_id {
                Option::None => Option::Some(t),
                Option::Some(e) => match exception_text_of(e) {
                    Option::None => Option::None,
                    Option::Some(x) => Option::Some(t + "\n\nWITH EXCEPTION:\n\n"@ + x),
                },
            },
        },
    }
}

/// Resolves one requirement to its full text, or reports the identifier the
/// corpus lacks.
pub fn requirement_text(q: &LicenseRequirement) -> (r: Result<String, NoticeError>)
    ensures
        r is Ok <==> spec_full_text(q@) is Some,
        r matches Ok(t) ==> spec_full_text(q@) == Some(t@),
        r matches Err(e) ==> e matches NoticeError::CorpusMissing { .. },
{
    let id = match &q.license_id {
        Some(i) => i,
        None => {
            return Err(NoticeError::CorpusMissing { id: q.req_str.clone() });
        },
    };
    let text = match license_text_lookup(id.as_str()) {
        Some(t) => t,
        None => {
            return Err(NoticeError::CorpusMissing { id: id.clone() });
        },
    };
    match &q.exception_id {
        None => Ok(text),
        Some(e) => match exception_text_lookup(e.as_str()) {
            None => Err(NoticeError::CorpusMissing { id: e.clone() }),
            Some(x) => {
                let mut t = text;
                t.append("\n\nWITH EXCEPTION:\n\n");
                t.append(x.as_str());
                proof {
                    assert(Some(t@) =~~= spec_full_text(q@));
                }
                Ok(t)
            },
        },
    }
}

/// Does any of the first `n` requirements render to the key `k`?
pub open spec fn has_key(l: Seq<LicenseRequirement>, k: Seq<char>) -> bool {
    exists|i: int| 0 <= i < l.len() && l[i]@.req_str == k
}

/// The views of a list of key/text string pairs.
pub open spec fn pairs_of(v: Seq<(String, String)>) -> Seq<(Seq<char>, Seq<char>)> {
    v.map_values(|p: (String, String)| (p.0@, p.1@))
}

/// The license-text table of a requirement list: one
/// (canonical rendering, full text) pair per requirement, in insertion
/// order, skipping a requirement whose rendering an earlier entry already
/// produced.
pub open spec fn texts_model(l: Seq<LicenseRequirement>) -> Seq<(Seq<char>, Seq<char>)>
    decreases l.len(),
{
    if l.len() == 0 {
        Seq::empty()
    } else if has_key(l.drop_last(), l.last()@.req_str) {
        texts_model(l.drop_last())
    } else {
        texts_model(l.drop_last()).push(
            (l.last()@.req_str, spec_full_text(l.last()@).unwrap()),
        )
    }
}

/// Every requirement that is actually rendered resolves to a text.
pub open spec fn texts_ok(l: Seq<LicenseRequirement>) -> bool
    decreases l.len(),
{
    if l.len() == 0 {
        true
    } else {
        texts_ok(l.drop_last()) && (has_key(l.drop_last(), l.last()@.req_str) || spec_full_text(
            l.last()@,
        ) is Some)
    }
}

/// Does any of the first `i` requirements render to the given key?
fn has_key_upto(l: &Vec<LicenseRequirement>, i: usize, key: &String) -> (b: bool)
    requires
        i <= l@.len(),
    ensures
        b == has_key(l@.subrange(0, i as int), key@),
{
    let mut k: usize = 0;
    while k < i
        invariant
            0 <= k <= i <= l@.len(),
            forall|t: int| 0 <= t < k ==> l@[t]@.req_str != key@,
        decreases i - k,
    {
        if l[k].req_str == *key {
            proof {
                assert(l@.subrange(0, i as int)[k as int]@.req_str == key@);
            }
            return true;
        }
        k += 1;
    }
    proof {
        assert(forall|t: int| 0 <= t < i ==> l@.subrange(0, i as int)[t] == l@[t]);
    }
    false
}

impl Notices {
    /// The (canonical expression string, full text) pairs of every distinct
    /// requirement, in insertion order, computed at render time from the
    /// cached requirement set. Fails naming the identifier when the corpus
    /// lacks a text it should hold.
    pub fn get_license_texts(&self) -> (r: Result<Vec<(String, String)>, NoticeError>)
        ensures
            r is Ok <==> texts_ok(self.licences@),
            r matches Ok(v) ==> pairs_of(v@) == texts_model(self.licences@),
            r matches Err(e) ==> e matches NoticeError::CorpusMissing { .. },
    {
        let mut out: Vec<(String, String)> = Vec::new();
        let n = self.licences.len();
        let mut i: usize = 0;
        while i < n
            invariant
                0 <= i <= n,
                n == self.licences@.len(),
                pairs_of(out@) == texts_model(self.licences@.subrange(0, i as int)),
                texts_ok(self.licences@.subrange(0, i as int)),
            decreases n - i,
        {
            proof {
                assert(self.licences@.subrange(0, i as int + 1).drop_last() =~= self.licences@
                    .subrange(0, i as int));
                assert(self.licences@.subrange(0, i as int + 1).last() == self.licences@[
                    i as int]);
            }
            let q = &self.licences[i];
            if !has_key_upto(&self.licences, i, &q.req_str) {
                let text = match crate::texts::requirement_text(q) {
                    Ok(t) => t,
                    Err(e) => {
                        proof {
                            lemma_texts_ok_prefix(self.licences@, i as int);
                        }
                        return Err(e);
                    },
                };
                let ghost pre = out@;
                let key = q.req_str.clone();
                out.push((key, text));
                proof {
                    assert(pairs_of(out@) =~= pairs_of(pre).push(
                        (self.licences@[i as int]@.req_str, spec_full_text(
                            self.licences@[i as int]@,
                        ).unwrap()),
                    ));
                }
            }
            i += 1;
        }
        proof {
            assert(self.licences@.subrange(0, n as int) =~= self.licences@);
        }
        Ok(out)
    }
}

/// A requirement set with a requirement that is rendered and has no text is
/// not fully resolvable.
proof fn lemma_texts_ok_prefix(l: Seq<LicenseRequirement>, i: int)
    requires
        0 <= i < l.len(),
        !has_key(l.subrange(0, i), l[i]@.req_str),
        spec_full_text(l[i]@) is None,
    ensures
        !texts_ok(l),
    decreases l.len() - i,
{
    if i == l.len() - 1 {
        assert(l.drop_last() =~= l.subrange(0, i));
    } else {
        lemma_texts_ok_prefix(l.drop_last(), i);
        assert(l.drop_last().subrange(0, i) =~= l.subrange(0, i));
    }
}

} // verus!
