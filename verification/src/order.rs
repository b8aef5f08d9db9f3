//! Lexicographic order of byte strings, the order behind every sorted list
//! the library keeps (identifiers, addresses, candidates).

use vstd::prelude::*;

verus! {

/// `a` sorts before `b`: at the first position where they differ, `a` has
/// the smaller byte.
pub open spec fn lex_lt(a: Seq<u8>, b: Seq<u8>) -> bool {
    exists|k: int|
        0 <= k < a.len() && k < b.len() && a[k] < b[k] && #[trigger] a.subrange(0, k) == b.subrange(
            0,
            k,
        )
}

/// The result of a three-way comparison.
#[derive(Clone, Copy, Debug, PartialEq, Eq, Structural)]
pub enum LexOrder {
    Less,
    Equal,
    Greater,
}

/// Compares two byte strings of the same length.
pub fn lex_compare(a: &[u8], b: &[u8]) -> (r: LexOrder)
    requires
        a@.len() == b@.len(),
    ensures
        r == LexOrder::Less <==> lex_lt(a@, b@),
        r == LexOrder::Greater <==> lex_lt(b@, a@),
        r == LexOrder::Equal <==> a@ == b@,
{
    let mut i: usize = 0;
    while i < a.len()
        invariant
            i <= a@.len(),
            a@.len() == b@.len(),
            a@.subrange(0, i as int) == b@.subrange(0, i as int),
        decreases a@.len() - i,
    {
        if a[i] != b[i] {
            proof {
                assert(a@.subrange(0, i as int) == b@.subrange(0, i as int));
                if a@[i as int] < b@[i as int] {
                    assert(lex_lt(a@, b@));
                    lemma_lex_lt_asymmetric(a@, b@);
                } else {
                    assert(b@.subrange(0, i as int) == a@.subrange(0, i as int));
                    assert(lex_lt(b@, a@));
                    lemma_lex_lt_asymmetric(b@, a@);
                }
                
                assert(a@[i as int] != b@[i as int]);
            }
            return if a[i] < b[i] {
                LexOrder::Less
            } else {
                LexOrder::Greater
            };
        }
        proof {
            assert(a@.subrange(0, i + 1) =~= a@.subrange(0, i as int).push(a@[i as int]));
            assert(b@.subrange(0, i + 1) =~= b@.subrange(0, i as int).push(b@[i as int]));
        }
        i = i + 1;
    }
    proof {
        assert(a@ =~= a@.subrange(0, i as int));
        assert(b@ =~= b@.subrange(0, i as int));
        lemma_lex_lt_irreflexive(a@);
    }
    LexOrder::Equal
}

pub proof fn lemma_lex_lt_irreflexive(a: Seq<u8>)
    ensures
        !lex_lt(a, a),
{
}

pub proof fn lemma_lex_lt_asymmetric(a: Seq<u8>, b: Seq<u8>)
    requires
        lex_lt(a, b),
    ensures
        !lex_lt(b, a),
{
    let k = choose|k: int|
        0 <= k < a.len() && k < b.len() && a[k] < b[k] && #[trigger] a.subrange(0, k) == b.subrange(
            0,
            k,
        );
    if lex_lt(b, a) {
        let m = choose|m: int|
            0 <= m < b.len() && m < a.len() && b[m] < a[m] && #[trigger] b.subrange(0, m)
                == a.subrange(0, m);
        if m < k {
            assert(a.subrange(0, k)[m] == b.subrange(0, k)[m]);
        } else if k < m {
            assert(a.subrange(0, m)[k] == b.subrange(0, m)[k]);
        }
    }
}

pub proof fn lemma_lex_lt_transitive(a: Seq<u8>, b: Seq<u8>, c: Seq<u8>)
    requires
        lex_lt(a, b),
        lex_lt(b, c),
    ensures
        lex_lt(a, c),
{
    let k = choose|k: int|
        0 <= k < a.len() && k < b.len() && a[k] < b[k] && #[trigger] a.subrange(0, k) == b.subrange(
            0,
            k,
        );
    let m = choose|m: int|
        0 <= m < b.len() && m < c.len() && b[m] < c[m] && #[trigger] b.subrange(0, m)
            == c.subrange(0, m);
    let n = if k < m {
        k
    } else {
        m
    };
    assert forall|x: int| 0 <= x < n implies a.subrange(0, n)[x] == c.subrange(0, n)[x] by {
        assert(a.subrange(0, k)[x] == b.subrange(0, k)[x]);
        assert(b.subrange(0, m)[x] == c.subrange(0, m)[x]);
    }
    assert(a.subrange(0, n) =~= c.subrange(0, n));
    if k < m {
        assert(b.subrange(0, m)[k] == c.subrange(0, m)[k]);
    } else if m < k {
        assert(a.subrange(0, k)[m] == b.subrange(0, k)[m]);
    }
    assert(a[n] < c[n]);
}

/// Distinct byte strings of one length are ordered one way or the other.
pub proof fn lemma_lex_total(a: Seq<u8>, b: Seq<u8>)
    requires
        a.len() == b.len(),
        a != b,
    ensures
        lex_lt(a, b) || lex_lt(b, a),
    decreases a.len(),
{
    if a.len() > 0 {
        if a[0] != b[0] {
            assert(a.subrange(0, 0) =~= b.subrange(0, 0));
            if a[0] < b[0] {
                assert(lex_lt(a, b));
            } else {
                assert(lex_lt(b, a));
            }
        } else {
            let ta = a.drop_first();
            let tb = b.drop_first();
            assert(ta != tb) by {
                if ta == tb {
                    assert(a =~= seq![a[0]] + ta);
                    assert(b =~= seq![b[0]] + tb);
                }
            }
            lemma_lex_total(ta, tb);
            if lex_lt(ta, tb) {
                let k = choose|k: int|
                    0 <= k < ta.len() && k < tb.len() && ta[k] < tb[k] && #[trigger] ta.subrange(
                        0,
                        k,
                    ) == tb.subrange(0, k);
                assert(a.subrange(0, k + 1) =~= seq![a[0]] + ta.subrange(0, k));
                assert(b.subrange(0, k + 1) =~= seq![b[0]] + tb.subrange(0, k));
                assert(a[k + 1] == ta[k] && b[k + 1] == tb[k]);
                assert(lex_lt(a, b));
            } else {
                let k = choose|k: int|
                    0 <= k < tb.len() && k < ta.len() && tb[k] < ta[k] && #[trigger] tb.subrange(
                        0,
                        k,
                    ) == ta.subrange(0, k);
                assert(a.subrange(0, k + 1) =~= seq![a[0]] + ta.subrange(0, k));
                assert(b.subrange(0, k + 1) =~= seq![b[0]] + tb.subrange(0, k));
                assert(a[k + 1] == ta[k] && b[k + 1] == tb[k]);
                assert(lex_lt(b, a));
            }
        }
    } else {
        assert(a =~= b);
    }
}

} // verus!
