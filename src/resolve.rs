use vstd::prelude::*;

use crate::cpestructures::CpeEntry;

verus! {

/// What resolution found wanting.
#[derive(Debug, Clone, PartialEq, Eq)]
pub enum Diagnostic {
    /// The reference names no record of the batch; holds the reference.
    Unresolved(String),
    /// Following references led back to a record already on the chain.
    CycleDetected,
    /// The chain was cut at the caller's bound on hops.
    HopLimitReached,
}

/// The records that a reference resolves to, and a diagnostic where it resolves to none.
#[derive(Debug, Clone)]
pub struct Resolution {
    pub matches: Vec<usize>,
    pub diagnostic: Option<Diagnostic>,
}

/// The positions among the first `n` records that `reference` names, in order.
pub open spec fn matches_upto(entries: Seq<CpeEntry>, reference: Seq<char>, n: int) -> Seq<usize>
    decreases n,
{
    if n <= 0 {
        Seq::<usize>::empty()
    } else {
        let prev = matches_upto(entries, reference, n - 1);
        if entries[n - 1].named(reference) {
            prev.push((n - 1) as usize)
        } else {
            prev
        }
    }
}

/// The positions of all records that `reference` names, in order.
pub open spec fn matches_of(entries: Seq<CpeEntry>, reference: Seq<char>) -> Seq<usize> {
    matches_upto(entries, reference, entries.len() as int)
}

/// The record one hop along the chain from `e`: the first that its reference names.
pub open spec fn next_hop(entries: Seq<CpeEntry>, e: CpeEntry) -> Option<usize> {
    match e.replaced_by() {
        None => None,
        Some(reference) => {
            let m = matches_of(entries, reference@);
            if m.len() == 0 {
                None
            } else {
                Some(m[0])
            }
        },
    }
}

/// The matches among the first `n` records are positions below `n`.
pub proof fn lemma_matches_in_range(entries: Seq<CpeEntry>, reference: Seq<char>, n: int)
    requires
        0 <= n <= entries.len(),
    ensures
        forall|k: int| 0 <= k < matches_upto(entries, reference, n).len()
            ==> #[trigger] matches_upto(entries, reference, n)[k] < n,
    decreases n,
{
    if n > 0 {
        lemma_matches_in_range(entries, reference, n - 1);
        let prev = matches_upto(entries, reference, n - 1);
        assert forall|k: int| 0 <= k < matches_upto(entries, reference, n).len()
            implies #[trigger] matches_upto(entries, reference, n)[k] < n by {
            if k < prev.len() {
                assert(prev[k] < n - 1);
            }
        }
    }
}

/// The positions of the records that `reference` names, by legacy or structured name.
pub fn find_named(entries: &Vec<CpeEntry>, reference: &String) -> (r: Vec<usize>)
    ensures
        r@ == matches_of(entries@, reference@),
{
    let mut out: Vec<usize> = Vec::new();
    let mut i: usize = 0;
    while i < entries.len()
        invariant
            i <= entries@.len(),
            out@ == matches_upto(entries@, reference@, i as int),
        decreases entries@.len() - i,
    {
        if entries[i].has_name(reference) {
            out.push(i);
        }
        i = i + 1;
    }
    out
}

/// The records that replace `entry`: none without a reference; otherwise those that
/// the reference names, with `Unresolved` and the reference where there are none.
pub fn resolve(entry: &CpeEntry, entries: &Vec<CpeEntry>) -> (r: Resolution)
    ensures
        match entry.replaced_by() {
            None => r.matches@.len() == 0 && r.diagnostic is None,
            Some(reference) => {
                &&& r.matches@ == matches_of(entries@, reference@)
                &&& r.matches@.len() > 0 ==> r.diagnostic is None
                &&& r.matches@.len() == 0 ==> (r.diagnostic matches Some(Diagnostic::Unresolved(x))
                    && x@ == reference@)
            },
        },
{
    match entry.deprecated_by() {
        None => Resolution { matches: Vec::new(), diagnostic: None },
        Some(reference) => {
            let matches = find_named(entries, reference);
            let diagnostic = if matches.len() == 0 {
                Some(Diagnostic::Unresolved(reference.clone()))
            } else {
                None
            };
            Resolution { matches, diagnostic }
        },
    }
}

/// A chain of replacements: the records visited, the first being the start, and why
/// it ended (`None`: the last record has no reference).
#[derive(Debug, Clone)]
pub struct Chain {
    pub path: Vec<usize>,
    pub end: Option<Diagnostic>,
}

/// Whether `path` follows the chain from its first record: each next record is the
/// first that the previous one's reference names.
pub open spec fn follows(entries: Seq<CpeEntry>, path: Seq<usize>) -> bool {
    &&& path.len() >= 1
    &&& forall|k: int| 0 <= k < path.len() ==> path[k] < entries.len()
    &&& forall|k: int| 0 <= k < path.len() - 1
        ==> next_hop(entries, entries[path[k] as int]) == Some(#[trigger] path[k + 1])
}

/// Follows the chain of replacements from `start` for at most `max_hops` hops, taking
/// at each hop the first record that the reference names. It stops without a
/// diagnostic at a record without reference, and otherwise reports an unresolved
/// reference, a reference back into the chain, or the bound.
pub fn resolve_chain(start: usize, entries: &Vec<CpeEntry>, max_hops: usize) -> (r: Chain)
    requires
        start < entries@.len(),
    ensures
        follows(entries@, r.path@),
        r.path@[0] == start,
        r.path@.no_duplicates(),
        r.path@.len() <= max_hops as int + 1,
        ({
            let last = entries@[r.path@.last() as int];
            match r.end {
                None => last.replaced_by() is None,
                Some(Diagnostic::Unresolved(x)) => last.replaced_by() matches Some(rf) && x@ == rf@
                    && next_hop(entries@, last) is None,
                Some(Diagnostic::CycleDetected) => next_hop(entries@, last) matches Some(n)
                    && r.path@.contains(n),
                Some(Diagnostic::HopLimitReached) => next_hop(entries@, last) matches Some(n)
                    && !r.path@.contains(n) && r.path@.len() == max_hops as int + 1,
            }
        }),
{
    let mut path: Vec<usize> = Vec::new();
    path.push(start);
    let mut cur = start;
    let mut hops: usize = 0;
    loop
        invariant
            follows(entries@, path@),
            path@[0] == start,
            path@.no_duplicates(),
            cur == path@.last(),
            path@.len() == hops as int + 1,
            hops <= max_hops,
        decreases max_hops - hops,
    {
        let found = resolve(&entries[cur], entries);
        if found.matches.len() == 0 {
            let end = match found.diagnostic {
                Some(d) => Some(d),
                None => None,
            };
            return Chain { path, end };
        }
        let next = found.matches[0];
        proof {
            let reference = entries@[cur as int].replaced_by()->0;
            lemma_matches_in_range(entries@, reference@, entries@.len() as int);
        }
        let mut seen = false;
        let mut k: usize = 0;
        while k < path.len()
            invariant
                k <= path@.len(),
                seen == exists|j: int| 0 <= j < k && path@[j] == next,
            decreases path@.len() - k,
        {
            if path[k] == next {
                seen = true;
            }
            k = k + 1;
        }
        if seen {
            return Chain { path, end: Some(Diagnostic::CycleDetected) };
        }
        if hops == max_hops {
            return Chain { path, end: Some(Diagnostic::HopLimitReached) };
        }
        let ghost prev = path@;
        path.push(next);
        proof {
            assert(path@ =~= prev.push(next));
            assert forall|k: int| 0 <= k < path@.len() - 1 implies next_hop(
                entries@,
                entries@[path@[k] as int],
            ) == Some(#[trigger] path@[k + 1]) by {
                if k < prev.len() - 1 {
                    assert(path@[k + 1] == prev[k + 1]);
                }
            }
        }
        cur = next;
        hops = hops + 1;
    }
}

} // verus!
