use vstd::prelude::*;

use crate::codec::{
    closed_field, cpe_prefix, join_fields, lemma_escaped_prefix, lemma_join_append,
};
use crate::cpestructures::{Cpe23Name, CpeEntry};
use crate::order::{
    code_points, codes, codes_le, codes_lt, lemma_between_prefix, lemma_code_injective,
    lemma_codes_lt_asymmetric, lemma_codes_lt_irreflexive, name_lt,
};

verus! {

broadcast use vstd::seq_lib::group_to_multiset_ensures;

/// The order of a sort key: the code points, then the position.
pub open spec fn pair_le(x: (Seq<u32>, usize), y: (Seq<u32>, usize)) -> bool {
    codes_lt(x.0, y.0) || (x.0 == y.0 && x.1 <= y.1)
}

/// The sort keys as their views.
pub open spec fn pair_views(v: Seq<(Vec<u32>, usize)>) -> Seq<(Seq<u32>, usize)> {
    v.map_values(|p: (Vec<u32>, usize)| (p.0@, p.1))
}

/// Relies on slice::sort_unstable: afterwards the pairs are a permutation of what they
/// were, ascending in the tuple order, which compares the vectors lexicographically
/// and then the positions.
#[verifier::external_body]
fn sort_pairs(v: &mut Vec<(Vec<u32>, usize)>)
    ensures
        pair_views(final(v)@).to_multiset() == pair_views(old(v)@).to_multiset(),
        forall|i: int, j: int|
            0 <= i < j < final(v)@.len() ==> pair_le(
                #[trigger] pair_views(final(v)@)[i],
                #[trigger] pair_views(final(v)@)[j],
            ),
{
    v.sort_unstable();
}

/// Whether `t` holds the records of `s`, each once, ordered by canonical name and,
/// between equal names, by position.
pub open spec fn sorted_arrangement(entries: Seq<CpeEntry>, s: Seq<usize>, t: Seq<usize>) -> bool {
    &&& t.len() == s.len()
    &&& t.no_duplicates()
    &&& forall|x: usize| t.contains(x) <==> s.contains(x)
    &&& forall|i: int, j: int|
        0 <= i < j < t.len() ==> pair_le(
            (codes(entries[#[trigger] t[i] as int].canonical()), t[i]),
            (codes(entries[#[trigger] t[j] as int].canonical()), t[j]),
        )
}

/// The sort key of the record at position `x`.
pub open spec fn sort_key(entries: Seq<CpeEntry>, x: usize) -> (Seq<u32>, usize) {
    (codes(entries[x as int].canonical()), x)
}

/// Orders the records at the given positions by canonical name; between equal
/// names the earlier position comes first.
pub fn sort_by_name(entries: &Vec<CpeEntry>, selected: &Vec<usize>) -> (r: Vec<usize>)
    requires
        selected@.no_duplicates(),
        forall|k: int| 0 <= k < selected@.len() ==> selected@[k] < entries@.len(),
    ensures
        sorted_arrangement(entries@, selected@, r@),
{
    let mut pairs: Vec<(Vec<u32>, usize)> = Vec::new();
    let mut k: usize = 0;
    while k < selected.len()
        invariant
            k <= selected@.len(),
            pairs@.len() == k,
            forall|j: int| 0 <= j < selected@.len() ==> selected@[j] < entries@.len(),
            forall|j: int| 0 <= j < k ==> #[trigger] pair_views(pairs@)[j] == sort_key(entries@, selected@[j]),
        decreases selected@.len() - k,
    {
        let idx = selected[k];
        let name = entries[idx].get_cpe23_name();
        let cps = code_points(name.as_str());
        let ghost prev = pair_views(pairs@);
        pairs.push((cps, idx));
        assert(pair_views(pairs@) =~= prev.push((cps@, idx)));
        assert(cps@ == codes(entries@[idx as int].canonical()));
        k = k + 1;
    }
    let ghost before = pair_views(pairs@);
    assert(before =~= selected@.map_values(|x: usize| sort_key(entries@, x)));
    proof {
        assert forall|i: int, j: int| 0 <= i < before.len() && 0 <= j < before.len() && i != j
            implies before[i] != before[j] by {
            assert(selected@[i] != selected@[j]);
        }
        before.lemma_multiset_has_no_duplicates();
    }
    sort_pairs(&mut pairs);
    let ghost after = pair_views(pairs@);
    proof {
        after.lemma_multiset_has_no_duplicates_conv();
    }
    assert forall|j: int| 0 <= j < after.len() implies #[trigger] after[j] == sort_key(entries@, after[j].1)
        && selected@.contains(after[j].1) by {
        assert(after.to_multiset().count(after[j]) > 0);
        assert(before.contains(after[j]));
        let i = choose|i: int| 0 <= i < before.len() && before[i] == after[j];
        assert(before[i] == sort_key(entries@, selected@[i]));
    }
    let mut out: Vec<usize> = Vec::new();
    let mut k: usize = 0;
    while k < pairs.len()
        invariant
            k <= pairs@.len(),
            after == pair_views(pairs@),
            out@ =~= after.take(k as int).map_values(|p: (Seq<u32>, usize)| p.1),
        decreases pairs@.len() - k,
    {
        out.push(pairs[k].1);
        assert(after.take(k as int + 1) =~= after.take(k as int).push(after[k as int]));
        k = k + 1;
    }
    assert(after.take(after.len() as int) =~= after);
    assert forall|x: usize| out@.contains(x) <==> selected@.contains(x) by {
        if selected@.contains(x) {
            let i = choose|i: int| 0 <= i < selected@.len() && selected@[i] == x;
            assert(before[i] == sort_key(entries@, x));
            assert(before.to_multiset().count(sort_key(entries@, x)) > 0);
            assert(after.contains(sort_key(entries@, x)));
            let j = choose|j: int| 0 <= j < after.len() && after[j] == sort_key(entries@, x);
            assert(out@[j] == x);
        }
    }
    assert forall|i: int, j: int| 0 <= i < out@.len() && 0 <= j < out@.len() && i != j
        implies out@[i] != out@[j] by {
        assert(after[i] == sort_key(entries@, after[i].1));
        assert(after[j] == sort_key(entries@, after[j].1));
    }
    assert forall|i: int, j: int| 0 <= i < j < out@.len() implies pair_le(
        (codes(entries@[#[trigger] out@[i] as int].canonical()), out@[i]),
        (codes(entries@[#[trigger] out@[j] as int].canonical()), out@[j]),
    ) by {
        assert(after[i] == sort_key(entries@, after[i].1));
        assert(after[j] == sort_key(entries@, after[j].1));
        assert(pair_le(after[i], after[j]));
    }
    assert(after.to_multiset().len() == after.len());
    assert(before.to_multiset().len() == before.len());
    assert(out@.len() == selected@.len());
    assert(out@.no_duplicates());
    out
}

/// The positions among the first `n` of `t` that adjacent deduplication keeps: the
/// first, and each whose weak identity key differs from its predecessor's.
pub open spec fn dedup_upto(entries: Seq<CpeEntry>, t: Seq<usize>, n: int) -> Seq<usize>
    decreases n,
{
    if n <= 0 {
        Seq::<usize>::empty()
    } else {
        let prev = dedup_upto(entries, t, n - 1);
        if n == 1 || entries[t[n - 1] as int].key() != entries[t[n - 2] as int].key() {
            prev.push(t[n - 1])
        } else {
            prev
        }
    }
}

/// What adjacent deduplication keeps of `t`.
pub open spec fn dedup_keys(entries: Seq<CpeEntry>, t: Seq<usize>) -> Seq<usize> {
    dedup_upto(entries, t, t.len() as int)
}

/// Drops each record whose weak identity key equals that of the record before it.
pub fn dedup_by_key(entries: &Vec<CpeEntry>, sorted: &Vec<usize>) -> (r: Vec<usize>)
    requires
        forall|k: int| 0 <= k < sorted@.len() ==> sorted@[k] < entries@.len(),
    ensures
        r@ == dedup_keys(entries@, sorted@),
{
    let mut out: Vec<usize> = Vec::new();
    let mut k: usize = 0;
    while k < sorted.len()
        invariant
            k <= sorted@.len(),
            forall|j: int| 0 <= j < sorted@.len() ==> sorted@[j] < entries@.len(),
            out@ == dedup_upto(entries@, sorted@, k as int),
        decreases sorted@.len() - k,
    {
        if k == 0 {
            out.push(sorted[k]);
        } else {
            let (v1, p1) = entries[sorted[k]].get_vendor_product();
            let (v2, p2) = entries[sorted[k - 1]].get_vendor_product();
            if !(*v1 == *v2 && *p1 == *p2) {
                out.push(sorted[k]);
            }
        }
        k = k + 1;
    }
    out
}

/// The compression pass: orders the selected records by canonical name, then keeps
/// the first of each run of records with equal weak identity keys.
pub fn compress(entries: &Vec<CpeEntry>, selected: &Vec<usize>) -> (r: Vec<usize>)
    requires
        selected@.no_duplicates(),
        forall|k: int| 0 <= k < selected@.len() ==> selected@[k] < entries@.len(),
    ensures
        exists|t: Seq<usize>|
            #[trigger] sorted_arrangement(entries@, selected@, t) && r@ == dedup_keys(entries@, t),
{
    let sorted = sort_by_name(entries, selected);
    assert forall|k: int| 0 <= k < sorted@.len() implies sorted@[k] < entries@.len() by {
        assert(sorted@.contains(sorted@[k]));
        assert(selected@.contains(sorted@[k]));
    }
    let r = dedup_by_key(entries, &sorted);
    assert(sorted_arrangement(entries@, selected@, sorted@));
    r
}

/// In the sorted order a record whose canonical name is smaller comes first.
pub proof fn lemma_sorted_order(entries: Seq<CpeEntry>, s: Seq<usize>, t: Seq<usize>, p: int, q: int)
    requires
        sorted_arrangement(entries, s, t),
        0 <= p < t.len(),
        0 <= q < t.len(),
        name_lt(entries[t[p] as int].canonical(), entries[t[q] as int].canonical()),
    ensures
        p < q,
{
    let a = codes(entries[t[p] as int].canonical());
    let b = codes(entries[t[q] as int].canonical());
    lemma_codes_lt_irreflexive(a);
    lemma_codes_lt_asymmetric(a, b);
    if q < p {
        assert(pair_le((b, t[q]), (a, t[p])));
    }
}

/// The beginning of a canonical name that holds the version, part, vendor and product.
pub open spec fn key_prefix(n: Cpe23Name) -> Seq<char> {
    join_fields(seq![cpe_prefix(), n.cpe_version@, n.part@]).push(':') + n.vendor@.push(':')
        + n.product@.push(':')
}

/// The fields of a name that follow the product.
pub open spec fn rest_fields(n: Cpe23Name) -> Seq<Seq<char>> {
    n.fields().subrange(4, 12)
}

/// A canonical name is its key prefix followed by the remaining fields.
pub proof fn lemma_canonical_split(n: Cpe23Name)
    ensures
        n.name_view() == key_prefix(n) + join_fields(rest_fields(n)),
{
    let head = seq![cpe_prefix(), n.cpe_version@, n.part@];
    let tail2 = seq![n.product@].add(rest_fields(n));
    let tail1 = seq![n.vendor@].add(tail2);
    assert(seq![cpe_prefix()].add(n.fields()) =~= head + tail1);
    lemma_join_append(head, tail1);
    lemma_join_append(seq![n.vendor@], tail2);
    lemma_join_append(seq![n.product@], rest_fields(n));
    assert(join_fields(seq![n.vendor@]) == n.vendor@);
    assert(join_fields(seq![n.product@]) == n.product@);
    assert(n.name_view() =~= key_prefix(n) + join_fields(rest_fields(n)));
}

/// A closed field followed by a colon is fixed by the text it begins.
pub proof fn lemma_closed_field_unique(u: Seq<char>, v1: Seq<char>, v2: Seq<char>)
    requires
        closed_field(v1),
        closed_field(v2),
        v1.len() + 1 <= u.len(),
        v2.len() + 1 <= u.len(),
        u.take(v1.len() + 1int) == v1.push(':'),
        u.take(v2.len() + 1int) == v2.push(':'),
    ensures
        v1 == v2,
{
    let n1 = v1.len() as int;
    let n2 = v2.len() as int;
    if n1 < n2 {
        assert(u[n1] == u.take(n1 + 1)[n1]);
        assert(u[n1] == u.take(n2 + 1)[n1]);
        assert(v2[n1] == ':');
        assert(v2.take(n1) =~= v1.take(n1)) by {
            assert forall|i: int| 0 <= i < n1 implies v2.take(n1)[i] == v1.take(n1)[i] by {
                assert(u.take(n1 + 1)[i] == u.take(n2 + 1)[i]);
            }
        }
        lemma_escaped_prefix(v2, v1, n1, n1);
    } else if n2 < n1 {
        assert(u[n2] == u.take(n2 + 1)[n2]);
        assert(u[n2] == u.take(n1 + 1)[n2]);
        assert(v1[n2] == ':');
        assert(v1.take(n2) =~= v2.take(n2)) by {
            assert forall|i: int| 0 <= i < n2 implies v1.take(n2)[i] == v2.take(n2)[i] by {
                assert(u.take(n1 + 1)[i] == u.take(n2 + 1)[i]);
            }
        }
        lemma_escaped_prefix(v1, v2, n2, n2);
    } else {
        assert forall|i: int| 0 <= i < n1 implies v1[i] == v2[i] by {
            assert(u.take(n1 + 1)[i] == u.take(n2 + 1)[i]);
        }
        assert(v1 =~= v2);
    }
}

/// A name of the same version and part whose canonical text begins with the key prefix
/// of `a` has the vendor and product of `a`, where those fields are closed.
pub proof fn lemma_same_key_prefix(a: Cpe23Name, b: Cpe23Name)
    requires
        a.cpe_version@ == b.cpe_version@,
        a.part@ == b.part@,
        closed_field(a.vendor@),
        closed_field(a.product@),
        closed_field(b.vendor@),
        closed_field(b.product@),
        key_prefix(a).len() <= b.name_view().len(),
        b.name_view().take(key_prefix(a).len() as int) == key_prefix(a),
    ensures
        a.vendor@ == b.vendor@,
        a.product@ == b.product@,
{
    lemma_canonical_split(b);
    let h = join_fields(seq![cpe_prefix(), a.cpe_version@, a.part@]).push(':');
    assert(join_fields(seq![cpe_prefix(), b.cpe_version@, b.part@]).push(':') == h);
    let nb = b.name_view();
    let ka = key_prefix(a);
    let hl = h.len() as int;
    let u = nb.subrange(hl, nb.len() as int);
    let rest = join_fields(rest_fields(b));
    assert(u =~= b.vendor@.push(':') + b.product@.push(':') + rest);
    assert(ka.subrange(hl, ka.len() as int) =~= a.vendor@.push(':') + a.product@.push(':'));
    let va = a.vendor@.len() as int;
    let vb = b.vendor@.len() as int;
    assert(u.take(va + 1) =~= a.vendor@.push(':')) by {
        assert forall|i: int| 0 <= i < va + 1 implies u.take(va + 1)[i] == a.vendor@.push(':')[i] by {
            assert(nb.take(ka.len() as int)[hl + i] == ka[hl + i]);
        }
    }
    assert(u.take(vb + 1) =~= b.vendor@.push(':'));
    lemma_closed_field_unique(u, a.vendor@, b.vendor@);
    let w = u.subrange(va + 1, u.len() as int);
    assert(w =~= b.product@.push(':') + rest);
    let pa = a.product@.len() as int;
    let pb = b.product@.len() as int;
    assert(w.take(pa + 1) =~= a.product@.push(':')) by {
        assert forall|i: int| 0 <= i < pa + 1 implies w.take(pa + 1)[i] == a.product@.push(':')[i] by {
            assert(nb.take(ka.len() as int)[hl + va + 1 + i] == ka[hl + va + 1 + i]);
        }
    }
    assert(w.take(pb + 1) =~= b.product@.push(':'));
    lemma_closed_field_unique(w, a.product@, b.product@);
}

/// Whether adjacent deduplication keeps position `m` of `t`.
pub open spec fn kept(entries: Seq<CpeEntry>, t: Seq<usize>, m: int) -> bool {
    m == 0 || entries[t[m] as int].key() != entries[t[m - 1] as int].key()
}

/// The positions among the first `n` of `t` that deduplication keeps.
pub open spec fn kept_positions(entries: Seq<CpeEntry>, t: Seq<usize>, n: int) -> Seq<int>
    decreases n,
{
    if n <= 0 {
        Seq::<int>::empty()
    } else {
        let prev = kept_positions(entries, t, n - 1);
        if kept(entries, t, n - 1) {
            prev.push(n - 1)
        } else {
            prev
        }
    }
}

/// What deduplication keeps is the records at the kept positions, in order.
pub proof fn lemma_kept_positions(entries: Seq<CpeEntry>, t: Seq<usize>, n: int)
    requires
        0 <= n <= t.len(),
    ensures
        kept_positions(entries, t, n).len() == dedup_upto(entries, t, n).len(),
        forall|i: int| 0 <= i < kept_positions(entries, t, n).len() ==> {
            let m = #[trigger] kept_positions(entries, t, n)[i];
            &&& 0 <= m < n
            &&& kept(entries, t, m)
            &&& dedup_upto(entries, t, n)[i] == t[m]
        },
        forall|i: int, j: int| 0 <= i < j < kept_positions(entries, t, n).len()
            ==> #[trigger] kept_positions(entries, t, n)[i] < #[trigger] kept_positions(entries, t, n)[j],
    decreases n,
{
    if n > 0 {
        lemma_kept_positions(entries, t, n - 1);
    }
}

/// Whether the selected records agree on version and part and have closed vendor and
/// product fields: then records of one key stand together in canonical order.
pub open spec fn uniform_selection(entries: Seq<CpeEntry>, s: Seq<usize>) -> bool {
    &&& forall|k: int| 0 <= k < s.len() ==> s[k] < entries.len()
    &&& forall|x: usize, y: usize| #![trigger s.contains(x), s.contains(y)]
        s.contains(x) && s.contains(y) ==> {
            &&& entries[x as int].name().cpe_version@ == entries[y as int].name().cpe_version@
            &&& entries[x as int].name().part@ == entries[y as int].name().part@
        }
    &&& forall|x: usize| #[trigger] s.contains(x) ==> {
            &&& closed_field(entries[x as int].name().vendor@)
            &&& closed_field(entries[x as int].name().product@)
        }
}

/// In a sorted arrangement of a uniform selection, a record between two records of one
/// key has that key.
pub proof fn lemma_key_contiguous(entries: Seq<CpeEntry>, s: Seq<usize>, t: Seq<usize>, m1: int, k: int, m2: int)
    requires
        sorted_arrangement(entries, s, t),
        uniform_selection(entries, s),
        0 <= m1 < k < m2 < t.len(),
        entries[t[m1] as int].key() == entries[t[m2] as int].key(),
    ensures
        entries[t[k] as int].key() == entries[t[m1] as int].key(),
{
    let a = entries[t[m1] as int].name();
    let b = entries[t[k] as int].name();
    let c = entries[t[m2] as int].name();
    assert(t.contains(t[m1]) && t.contains(t[k]) && t.contains(t[m2]));
    assert(s.contains(t[m1]) && s.contains(t[k]) && s.contains(t[m2]));
    assert(key_prefix(a) == key_prefix(c));
    let kp = key_prefix(a);
    let cp = codes(kp);
    lemma_canonical_split(a);
    lemma_canonical_split(b);
    lemma_canonical_split(c);
    let xa = codes(a.name_view());
    let xb = codes(b.name_view());
    let xc = codes(c.name_view());
    assert(xa.take(cp.len() as int) =~= cp);
    assert(xc.take(cp.len() as int) =~= cp);
    assert(pair_le((xa, t[m1]), (xb, t[k])));
    assert(pair_le((xb, t[k]), (xc, t[m2])));
    lemma_between_prefix(xa, xb, xc, cp);
    assert(kp.len() <= b.name_view().len());
    assert(b.name_view().take(kp.len() as int) =~= kp) by {
        assert forall|i: int| 0 <= i < kp.len() implies b.name_view().take(kp.len() as int)[i] == kp[i] by {
            assert(xb.take(cp.len() as int)[i] == cp[i]);
            lemma_code_injective(b.name_view()[i], kp[i]);
        }
    }
    lemma_same_key_prefix(a, b);
}

/// Deduplication after sorting, on a uniform selection: no two kept records share a
/// weak identity key, and each kept record has the smallest canonical name among the
/// selected records of its key.
pub proof fn lemma_dedup_law(entries: Seq<CpeEntry>, s: Seq<usize>, t: Seq<usize>)
    requires
        sorted_arrangement(entries, s, t),
        uniform_selection(entries, s),
    ensures
        forall|i: int, j: int| 0 <= i < j < dedup_keys(entries, t).len() ==>
            entries[#[trigger] dedup_keys(entries, t)[i] as int].key()
                != entries[#[trigger] dedup_keys(entries, t)[j] as int].key(),
        forall|i: int, x: usize| #![trigger dedup_keys(entries, t)[i], s.contains(x)]
            0 <= i < dedup_keys(entries, t).len() && s.contains(x)
            && entries[x as int].key() == entries[dedup_keys(entries, t)[i] as int].key()
            ==> !name_lt(entries[x as int].canonical(), entries[dedup_keys(entries, t)[i] as int].canonical()),
{
    let r = dedup_keys(entries, t);
    let n = t.len() as int;
    let kps = kept_positions(entries, t, n);
    lemma_kept_positions(entries, t, n);
    assert forall|i: int, j: int| 0 <= i < j < r.len() implies
        entries[#[trigger] r[i] as int].key() != entries[#[trigger] r[j] as int].key() by {
        let mi = kps[i];
        let mj = kps[j];
        assert(mi < mj);
        if entries[r[i] as int].key() == entries[r[j] as int].key() {
            if mi < mj - 1 {
                lemma_key_contiguous(entries, s, t, mi, mj - 1, mj);
            }
        }
    }
    assert forall|i: int, x: usize| #![trigger r[i], s.contains(x)]
        0 <= i < r.len() && s.contains(x)
        && entries[x as int].key() == entries[r[i] as int].key()
        implies !name_lt(entries[x as int].canonical(), entries[r[i] as int].canonical()) by {
        let m = kps[i];
        assert(t.contains(x));
        let mx = choose|mx: int| 0 <= mx < t.len() && t[mx] == x;
        if mx < m {
            if mx < m - 1 {
                lemma_key_contiguous(entries, s, t, mx, m - 1, m);
            }
            assert(false);
        }
        let a = codes(entries[t[m] as int].canonical());
        let b = codes(entries[x as int].canonical());
        lemma_codes_lt_irreflexive(a);
        if mx > m {
            assert(pair_le((a, t[m]), (b, t[mx])));
            if codes_lt(a, b) {
                lemma_codes_lt_asymmetric(a, b);
            }
        }
    }
}

} // verus!
