use vstd::prelude::*;

verus! {

/// The code points of a text. UTF-8 keeps code-point order, so comparing these
/// lexicographically compares the encoded texts byte by byte.
pub open spec fn codes(s: Seq<char>) -> Seq<u32> {
    s.map_values(|c: char| c as u32)
}

/// Lexicographic order on sequences of code points: the first difference decides,
/// and a proper prefix comes first.
pub open spec fn codes_lt(a: Seq<u32>, b: Seq<u32>) -> bool
    decreases a.len(),
{
    if a.len() == 0 {
        b.len() > 0
    } else if b.len() == 0 {
        false
    } else if a[0] != b[0] {
        a[0] < b[0]
    } else {
        codes_lt(a.drop_first(), b.drop_first())
    }
}

/// Byte-lexicographic order on texts.
pub open spec fn name_lt(a: Seq<char>, b: Seq<char>) -> bool {
    codes_lt(codes(a), codes(b))
}

/// How two texts compare in byte-lexicographic order.
pub open spec fn name_order(a: Seq<char>, b: Seq<char>) -> core::cmp::Ordering {
    if name_lt(a, b) {
        core::cmp::Ordering::Less
    } else if a == b {
        core::cmp::Ordering::Equal
    } else {
        core::cmp::Ordering::Greater
    }
}

/// The code points of `s`.
pub fn code_points(s: &str) -> (r: Vec<u32>)
    ensures
        r@ == codes(s@),
{
    let mut out: Vec<u32> = Vec::new();
    let ghost full = s@;
    for c in it: s.chars()
        invariant
            it.seq() == full,
            full == s@,
            out@ == codes(full.take(it.index() as int)),
    {
        let ghost i = it.index() as int;
        out.push(c as u32);
        assert(codes(full.take(i + 1)) =~= codes(full.take(i)).push(c as u32));
    }
    assert(full.take(full.len() as int) =~= full);
    out
}

/// No code-point sequence comes before itself.
pub proof fn lemma_codes_lt_irreflexive(a: Seq<u32>)
    ensures
        !codes_lt(a, a),
    decreases a.len(),
{
    if a.len() > 0 {
        lemma_codes_lt_irreflexive(a.drop_first());
    }
}

/// Of two code-point sequences, at most one comes before the other.
pub proof fn lemma_codes_lt_asymmetric(a: Seq<u32>, b: Seq<u32>)
    requires
        codes_lt(a, b),
    ensures
        !codes_lt(b, a),
    decreases a.len(),
{
    if a.len() > 0 && b.len() > 0 && a[0] == b[0] {
        lemma_codes_lt_asymmetric(a.drop_first(), b.drop_first());
    }
}

/// Lexicographic order or equality.
pub open spec fn codes_le(a: Seq<u32>, b: Seq<u32>) -> bool {
    codes_lt(a, b) || a == b
}

/// Whatever lies between two sequences that share a prefix shares it too.
pub proof fn lemma_between_prefix(x: Seq<u32>, y: Seq<u32>, z: Seq<u32>, p: Seq<u32>)
    requires
        codes_le(x, y),
        codes_le(y, z),
        p.len() <= x.len(),
        p.len() <= z.len(),
        x.take(p.len() as int) == p,
        z.take(p.len() as int) == p,
    ensures
        p.len() <= y.len(),
        y.take(p.len() as int) == p,
    decreases p.len(),
{
    if p.len() > 0 {
        assert(x[0] == p[0]) by {
            assert(x.take(p.len() as int)[0] == x[0]);
        }
        assert(z[0] == p[0]) by {
            assert(z.take(p.len() as int)[0] == z[0]);
        }
        assert(y.len() > 0);
        assert(y[0] == p[0]);
        let p1 = p.drop_first();
        assert(x.drop_first().take(p1.len() as int) =~= p1) by {
            assert forall|i: int| 0 <= i < p1.len() implies x.drop_first().take(p1.len() as int)[i]
                == p1[i] by {
                assert(x.take(p.len() as int)[i + 1] == x[i + 1]);
            }
        }
        assert(z.drop_first().take(p1.len() as int) =~= p1) by {
            assert forall|i: int| 0 <= i < p1.len() implies z.drop_first().take(p1.len() as int)[i]
                == p1[i] by {
                assert(z.take(p.len() as int)[i + 1] == z[i + 1]);
            }
        }
        lemma_between_prefix(x.drop_first(), y.drop_first(), z.drop_first(), p1);
        assert(y.take(p.len() as int) =~= p) by {
            assert forall|i: int| 0 <= i < p.len() implies y.take(p.len() as int)[i] == p[i] by {
                if i > 0 {
                    assert(y.drop_first().take(p1.len() as int)[i - 1] == y[i]);
                }
            }
        }
    }
}

/// Distinct characters have distinct code points.
pub proof fn lemma_code_injective(a: char, b: char)
    requires
        (a as u32) == (b as u32),
    ensures
        a == b,
{
}

/// Past a common prefix, the order is decided by what follows it.
pub proof fn lemma_codes_lt_skip(a: Seq<u32>, b: Seq<u32>, i: int)
    requires
        0 <= i <= a.len(),
        i <= b.len(),
        a.take(i) == b.take(i),
    ensures
        codes_lt(a, b) == codes_lt(a.skip(i), b.skip(i)),
    decreases i,
{
    if i == 0 {
        assert(a.skip(0) =~= a);
        assert(b.skip(0) =~= b);
    } else {
        assert(a[0] == a.take(i)[0]);
        assert(b[0] == b.take(i)[0]);
        assert(a.drop_first().take(i - 1) =~= b.drop_first().take(i - 1)) by {
            assert forall|k: int| 0 <= k < i - 1 implies #[trigger] a.drop_first().take(i - 1)[k]
                == b.drop_first().take(i - 1)[k] by {
                assert(a.take(i)[k + 1] == b.take(i)[k + 1]);
                assert(a.drop_first()[k] == a[k + 1]);
                assert(b.drop_first()[k] == b[k + 1]);
                assert(a.take(i)[k + 1] == a[k + 1]);
                assert(b.take(i)[k + 1] == b[k + 1]);
                assert(a.drop_first().take(i - 1)[k] == a.drop_first()[k]);
                assert(b.drop_first().take(i - 1)[k] == b.drop_first()[k]);
            }
        }
        lemma_codes_lt_skip(a.drop_first(), b.drop_first(), i - 1);
        assert(a.drop_first().skip(i - 1) =~= a.skip(i));
        assert(b.drop_first().skip(i - 1) =~= b.skip(i));
    }
}

/// Texts with the same code points are the same text.
pub proof fn lemma_codes_injective(a: Seq<char>, b: Seq<char>)
    requires
        codes(a) == codes(b),
    ensures
        a == b,
{
    assert(a.len() == codes(a).len());
    assert(b.len() == codes(b).len());
    assert forall|i: int| 0 <= i < a.len() implies a[i] == b[i] by {
        assert(codes(a)[i] == codes(b)[i]);
        assert(codes(a)[i] == a[i] as u32);
        assert(codes(b)[i] == b[i] as u32);
        lemma_code_injective(a[i], b[i]);
    }
    assert(a =~= b);
}

/// Compares two code-point sequences lexicographically.
pub fn compare_codes(a: &Vec<u32>, b: &Vec<u32>) -> (r: core::cmp::Ordering)
    ensures
        r == (if codes_lt(a@, b@) {
            core::cmp::Ordering::Less
        } else if a@ == b@ {
            core::cmp::Ordering::Equal
        } else {
            core::cmp::Ordering::Greater
        }),
{
    proof {
        lemma_codes_lt_irreflexive(a@);
    }
    let mut i: usize = 0;
    while i < a.len() && i < b.len()
        invariant
            i <= a@.len(),
            i <= b@.len(),
            a@.take(i as int) == b@.take(i as int),
        decreases a@.len() - i,
    {
        if a[i] != b[i] {
            proof {
                lemma_codes_lt_skip(a@, b@, i as int);
                assert(a@.skip(i as int)[0] == a@[i as int]);
                assert(b@.skip(i as int)[0] == b@[i as int]);
                if a@ == b@ {
                    assert(a@[i as int] == b@[i as int]);
                }
            }
            if a[i] < b[i] {
                return core::cmp::Ordering::Less;
            } else {
                return core::cmp::Ordering::Greater;
            }
        }
        assert(a@.take(i as int + 1) =~= a@.take(i as int).push(a@[i as int]));
        assert(b@.take(i as int + 1) =~= b@.take(i as int).push(b@[i as int]));
        i = i + 1;
    }
    proof {
        lemma_codes_lt_skip(a@, b@, i as int);
    }
    if a.len() == b.len() {
        assert(a@ =~= a@.take(i as int));
        assert(b@ =~= b@.take(i as int));
        core::cmp::Ordering::Equal
    } else if i == a.len() {
        assert(b@.skip(i as int).len() > 0);
        core::cmp::Ordering::Less
    } else {
        assert(a@.len() != b@.len());
        core::cmp::Ordering::Greater
    }
}

} // verus!
