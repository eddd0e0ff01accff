//! The lexicographic order of strings, character by character.

use vstd::prelude::*;
use vstd::std_specs::iter::IteratorSpec;

verus! {

/// Whether `a` and `b` agree before index `k` and `a` comes first there: `a`
/// ends at `k` while `b` goes on, or holds the lesser character at `k`.
pub open spec fn comes_first_at(a: Seq<char>, b: Seq<char>, k: int) -> bool {
    &&& 0 <= k <= a.len()
    &&& k < b.len()
    &&& forall|i: int| 0 <= i < k ==> a[i] == b[i]
    &&& (k == a.len() || a[k] < b[k])
}

/// Whether `a` stands before `b` in lexicographic order.
pub open spec fn precedes(a: Seq<char>, b: Seq<char>) -> bool {
    exists|k: int| comes_first_at(a, b, k)
}

/// Whether each item of `items` stands before the next in lexicographic order.
pub open spec fn increasing(items: Seq<Seq<char>>) -> bool {
    forall|i: int, j: int| 0 <= i < j < items.len() ==> precedes(items[i], items[j])
}

/// How one string stands to another.
#[derive(Debug, Clone, Copy, PartialEq, Eq)]
pub enum Rank {
    Before,
    Same,
    After,
}

/// How `a` stands to `b` in lexicographic order.
pub open spec fn rank_of(a: Seq<char>, b: Seq<char>) -> Rank {
    if precedes(a, b) {
        Rank::Before
    } else if a == b {
        Rank::Same
    } else {
        Rank::After
    }
}

/// No string stands before itself.
pub proof fn lemma_precedes_irreflexive(a: Seq<char>)
    ensures
        !precedes(a, a),
{
}

/// The order is transitive.
pub proof fn lemma_precedes_transitive(a: Seq<char>, b: Seq<char>, c: Seq<char>)
    requires
        precedes(a, b),
        precedes(b, c),
    ensures
        precedes(a, c),
{
    let k1 = choose|k: int| comes_first_at(a, b, k);
    let k2 = choose|k: int| comes_first_at(b, c, k);
    let k = if k1 <= k2 {
        k1
    } else {
        k2
    };
    assert(comes_first_at(a, c, k));
}

/// Of two strings at most one stands before the other.
pub proof fn lemma_precedes_asymmetric(a: Seq<char>, b: Seq<char>)
    requires
        precedes(a, b),
    ensures
        !precedes(b, a),
{
    if precedes(b, a) {
        lemma_precedes_transitive(a, b, a);
        lemma_precedes_irreflexive(a);
    }
}

/// Compares two strings character by character.
pub fn rank(a: &str, b: &str) -> (r: Rank)
    ensures
        r == rank_of(a@, b@),
        r is After <==> precedes(b@, a@),
{
    let mut left = a.chars();
    let mut right = b.chars();
    let ghost mut k: int = 0;
    loop
        invariant
            0 <= k <= a@.len(),
            k <= b@.len(),
            left.remaining() == a@.skip(k),
            right.remaining() == b@.skip(k),
            forall|i: int| 0 <= i < k ==> a@[i] == b@[i],
        decreases a@.len() - k,
    {
        let x = left.next();
        let y = right.next();
        match (x, y) {
            (None, None) => {
                assert(a@ =~= b@);
                return Rank::Same;
            },
            (None, Some(_)) => {
                assert(comes_first_at(a@, b@, k));
                proof {
                    lemma_precedes_asymmetric(a@, b@);
                }
                return Rank::Before;
            },
            (Some(_), None) => {
                assert(comes_first_at(b@, a@, k));
                return Rank::After;
            },
            (Some(c), Some(d)) => {
                if c < d {
                    assert(comes_first_at(a@, b@, k));
                    proof {
                        lemma_precedes_asymmetric(a@, b@);
                    }
                    return Rank::Before;
                }
                if d < c {
                    assert(comes_first_at(b@, a@, k));
                    return Rank::After;
                }
                proof {
                    k = k + 1;
                }
            },
        }
    }
}

/// A set of strings can be written in increasing order in one way only: two
/// increasing lists that hold the same strings are the same list.
pub proof fn lemma_increasing_unique(s: Seq<Seq<char>>, t: Seq<Seq<char>>)
    requires
        increasing(s),
        increasing(t),
        s.to_set() == t.to_set(),
    ensures
        s == t,
    decreases s.len(),
{
    if s.len() == 0 {
        if t.len() > 0 {
            assert(t.to_set().contains(t[0]));
            assert(s.to_set().contains(t[0]));
        }
        assert(s =~= t);
    } else if t.len() == 0 {
        assert(s.to_set().contains(s[0]));
        assert(t.to_set().contains(s[0]));
    } else {
        assert(s.to_set().contains(s[0]));
        assert(t.to_set().contains(s[0]));
        assert(t.to_set().contains(t[0]));
        assert(s.to_set().contains(t[0]));
        let j = choose|j: int| 0 <= j < t.len() && t[j] == s[0];
        let i = choose|i: int| 0 <= i < s.len() && s[i] == t[0];
        if j > 0 {
            assert(precedes(t[0], t[j]));
            if i > 0 {
                assert(precedes(s[0], s[i]));
                lemma_precedes_asymmetric(s[0], t[0]);
            } else {
                lemma_precedes_irreflexive(s[0]);
            }
        }
        assert(s[0] == t[0]);
        let s1 = s.skip(1);
        let t1 = t.skip(1);
        assert(increasing(s1)) by {
            assert forall|a: int, b: int| 0 <= a < b < s1.len() implies precedes(s1[a], s1[b]) by {
                assert(precedes(s[a + 1], s[b + 1]));
            }
        }
        assert(increasing(t1)) by {
            assert forall|a: int, b: int| 0 <= a < b < t1.len() implies precedes(t1[a], t1[b]) by {
                assert(precedes(t[a + 1], t[b + 1]));
            }
        }
        assert forall|x: Seq<char>| s1.to_set().contains(x) <==> t1.to_set().contains(x) by {
            if s1.to_set().contains(x) {
                let a = choose|a: int| 0 <= a < s1.len() && s1[a] == x;
                assert(s[a + 1] == x);
                assert(precedes(s[0], s[a + 1]));
                assert(s.to_set().contains(x));
                assert(t.to_set().contains(x));
                let b = choose|b: int| 0 <= b < t.len() && t[b] == x;
                if b == 0 {
                    lemma_precedes_irreflexive(x);
                }
                assert(t1[b - 1] == x);
            }
            if t1.to_set().contains(x) {
                let b = choose|b: int| 0 <= b < t1.len() && t1[b] == x;
                assert(t[b + 1] == x);
                assert(precedes(t[0], t[b + 1]));
                assert(t.to_set().contains(x));
                assert(s.to_set().contains(x));
                let a = choose|a: int| 0 <= a < s.len() && s[a] == x;
                if a == 0 {
                    lemma_precedes_irreflexive(x);
                }
                assert(s1[a - 1] == x);
            }
        }
        assert(s1.to_set() =~= t1.to_set());
        lemma_increasing_unique(s1, t1);
        assert(s =~= t) by {
            assert(s.len() == t.len());
            assert forall|a: int| 0 <= a < s.len() implies s[a] == t[a] by {
                if a > 0 {
                    assert(s1[a - 1] == t1[a - 1]);
                }
            }
        }
    }
}

/// An increasing list holds no string twice.
pub proof fn lemma_increasing_no_duplicates(items: Seq<Seq<char>>)
    requires
        increasing(items),
    ensures
        items.no_duplicates(),
{
    assert forall|i: int, j: int| 0 <= i < items.len() && 0 <= j < items.len() && i != j implies items[i]
        != items[j] by {
        if i < j {
            assert(precedes(items[i], items[j]));
        } else {
            assert(precedes(items[j], items[i]));
        }
        lemma_precedes_irreflexive(items[i]);
    }
}

} // verus!
