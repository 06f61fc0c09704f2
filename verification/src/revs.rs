//! Revision-range expansion, as pure decisions over opaque revision ids.
//!
//! The repository itself is an outside collaborator: it resolves a range
//! expression to its two endpoints and walks ancestor closures, handing
//! back ordered id sequences. What is decided here — which expression
//! shapes are accepted, and which walked ids a `from..to` range keeps — is
//! plain logic on those sequences.

use vstd::prelude::*;

verus! {

/// The accepted shapes of a revision-range expression.
#[derive(Clone, Copy, Debug, PartialEq, Eq, Structural)]
pub enum RevspecKind {
    /// A single revision: it alone is expanded.
    Single,
    /// A `from..to` range: every revision reachable from `to` but not from
    /// `from`, oldest first.
    Range,
}

/// Why a revision-range expression is rejected.
#[derive(Clone, Copy, Debug, PartialEq, Eq, Structural)]
pub enum RevspecError {
    /// The expression resolved to no revision at all.
    NoRevisions,
    /// The expression resolved to only a `to` endpoint.
    ToOnly,
}

/// Decide what an expression means from which endpoints it resolved to.
pub fn revspec_plan(has_from: bool, has_to: bool) -> (r: Result<RevspecKind, RevspecError>)
    ensures
        r == (if !has_from && !has_to {
            Err::<RevspecKind, RevspecError>(RevspecError::NoRevisions)
        } else if !has_from {
            Err::<RevspecKind, RevspecError>(RevspecError::ToOnly)
        } else if !has_to {
            Ok::<RevspecKind, RevspecError>(RevspecKind::Single)
        } else {
            Ok::<RevspecKind, RevspecError>(RevspecKind::Range)
        }),
{
    match (has_from, has_to) {
        (false, false) => Err(RevspecError::NoRevisions),
        (false, true) => Err(RevspecError::ToOnly),
        (true, false) => Ok(RevspecKind::Single),
        (true, true) => Ok(RevspecKind::Range),
    }
}

/// The views of a sequence of revision ids.
pub open spec fn id_views(v: Seq<Vec<u8>>) -> Seq<Seq<u8>> {
    v.map_values(|x: Vec<u8>| x@)
}

/// Keeping exactly the ids that are not among `from`.
pub open spec fn absent_in(from: Seq<Seq<u8>>) -> spec_fn(Seq<u8>) -> bool {
    |id: Seq<u8>| !from.contains(id)
}

/// Whether `v` holds the id `x`.
fn contains_id(v: &Vec<Vec<u8>>, x: &[u8]) -> (r: bool)
    ensures
        r == id_views(v@).contains(x@),
{
    let mut i: usize = 0;
    while i < v.len()
        invariant
            i <= v.len(),
            forall|k: int| 0 <= k < i ==> id_views(v@)[k] != x@,
        decreases v.len() - i,
    {
        if crate::bytes_eq(v[i].as_slice(), x) {
            proof {
                assert(id_views(v@)[i as int] == x@);
            }
            return true;
        }
        i = i + 1;
    }
    false
}

/// Expand a `from..to` range: of the ids reachable from `to`, given oldest
/// first, keep in order exactly those not reachable from `from`.
pub fn expand_range(to_walk: &Vec<Vec<u8>>, from_set: &Vec<Vec<u8>>) -> (r: Vec<Vec<u8>>)
    ensures
        id_views(r@) == id_views(to_walk@).filter(absent_in(id_views(from_set@))),
{
    let mut r: Vec<Vec<u8>> = Vec::new();
    let mut i: usize = 0;
    proof {
        reveal(Seq::filter);
        assert(id_views(to_walk@).take(0) =~= Seq::<Seq<u8>>::empty());
        assert(id_views(r@) =~= id_views(to_walk@).take(0).filter(absent_in(id_views(from_set@))));
    }
    while i < to_walk.len()
        invariant
            i <= to_walk.len(),
            id_views(r@) == id_views(to_walk@).take(i as int).filter(
                absent_in(id_views(from_set@)),
            ),
        decreases to_walk.len() - i,
    {
        let keep = !contains_id(from_set, to_walk[i].as_slice());
        let ghost tv = id_views(to_walk@);
        let ghost pred = absent_in(id_views(from_set@));
        proof {
            reveal(Seq::filter);
            assert(tv.take(i + 1).drop_last() =~= tv.take(i as int));
            assert(tv.take(i + 1).last() == tv[i as int]);
            assert(pred(tv[i as int]) == keep);
        }
        if keep {
            let ghost r0 = id_views(r@);
            r.push(vstd::slice::slice_to_vec(to_walk[i].as_slice()));
            proof {
                assert(id_views(r@) =~= r0.push(tv[i as int]));
            }
        }
        i = i + 1;
    }
    proof {
        assert(id_views(to_walk@).take(to_walk@.len() as int) =~= id_views(to_walk@));
    }
    r
}

/// Abbreviate a revision id's hexadecimal form to its first seven bytes.
pub fn abbrev(hash: &[u8]) -> (r: Vec<u8>)
    ensures
        r@ == (if hash@.len() <= 7 {
            hash@
        } else {
            hash@.take(7)
        }),
{
    if hash.len() <= 7 {
        vstd::slice::slice_to_vec(hash)
    } else {
        vstd::slice::slice_to_vec(vstd::slice::slice_subrange(hash, 0, 7))
    }
}

/// The column name of one revision: its abbreviated id, a space, and the
/// first line of its commit message.
pub fn revision_column_name(short: &[u8], summary: &[u8]) -> (r: Vec<u8>)
    ensures
        r@ == short@ + seq![32u8] + summary@,
{
    let mut r = vstd::slice::slice_to_vec(short);
    r.push(32u8);
    let mut i: usize = 0;
    while i < summary.len()
        invariant
            i <= summary.len(),
            r@ == short@ + seq![32u8] + summary@.take(i as int),
        decreases summary.len() - i,
    {
        let ghost r0 = r@;
        r.push(summary[i]);
        proof {
            assert(r@ =~= short@ + seq![32u8] + summary@.take(i + 1));
        }
        i = i + 1;
    }
    proof {
        assert(summary@.take(summary@.len() as int) =~= summary@);
    }
    r
}

} // verus!
