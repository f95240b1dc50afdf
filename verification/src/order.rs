//! Lexicographic order on text, as `String`'s `Ord` orders it (by character
//! code, a proper prefix first), and sorted insertion under it.
use vstd::prelude::*;
use vstd::string::StrSliceExecFns;

verus! {

/// `a` sorts strictly before `b`.
pub open spec fn text_lt(a: Seq<char>, b: Seq<char>) -> bool
    decreases a.len(),
{
    if a.len() == 0 {
        b.len() > 0
    } else if b.len() == 0 {
        false
    } else if (a[0] as int) < (b[0] as int) {
        true
    } else if a[0] == b[0] {
        text_lt(a.drop_first(), b.drop_first())
    } else {
        false
    }
}

/// `s` is strictly increasing, hence free of duplicates.
pub open spec fn strictly_sorted(s: Seq<Seq<char>>) -> bool {
    forall|i: int, j: int| 0 <= i < j < s.len() ==> text_lt(#[trigger] s[i], #[trigger] s[j])
}

/// No text sorts before itself.
pub proof fn lemma_text_lt_irreflexive(a: Seq<char>)
    ensures
        !text_lt(a, a),
    decreases a.len(),
{
    if a.len() > 0 {
        lemma_text_lt_irreflexive(a.drop_first());
    }
}

/// The order is transitive.
pub proof fn lemma_text_lt_transitive(a: Seq<char>, b: Seq<char>, c: Seq<char>)
    requires
        text_lt(a, b),
        text_lt(b, c),
    ensures
        text_lt(a, c),
    decreases a.len(),
{
    if a.len() > 0 && b.len() > 0 && c.len() > 0 && a[0] == b[0] && b[0] == c[0] {
        lemma_text_lt_transitive(a.drop_first(), b.drop_first(), c.drop_first());
    }
}

/// Any two different texts are ordered one way or the other.
pub proof fn lemma_text_lt_total(a: Seq<char>, b: Seq<char>)
    requires
        a != b,
    ensures
        text_lt(a, b) || text_lt(b, a),
    decreases a.len(),
{
    if a.len() > 0 && b.len() > 0 && a[0] == b[0] {
        if a.drop_first() == b.drop_first() {
            assert(a =~= seq![a[0]] + a.drop_first());
            assert(b =~= seq![b[0]] + b.drop_first());
        }
        lemma_text_lt_total(a.drop_first(), b.drop_first());
    } else if a.len() > 0 && b.len() > 0 {
    } else if a.len() == 0 && b.len() == 0 {
        assert(a =~= b);
    }
}

/// The texts of a list of strings.
pub open spec fn texts(v: Seq<String>) -> Seq<Seq<char>> {
    v.map_values(|s: String| s@)
}

/// Whether `a` sorts strictly before `b`.
pub fn text_less(a: &str, b: &str) -> (r: bool)
    ensures
        r == text_lt(a@, b@),
{
    let la = a.unicode_len();
    let lb = b.unicode_len();
    let mut i: usize = 0;
    assert(a@.skip(0) =~= a@);
    assert(b@.skip(0) =~= b@);
    while i < la && i < lb
        invariant
            la == a@.len(),
            lb == b@.len(),
            i <= la,
            i <= lb,
            text_lt(a@, b@) == text_lt(a@.skip(i as int), b@.skip(i as int)),
        decreases la - i,
    {
        let ca = a.get_char(i);
        let cb = b.get_char(i);
        proof {
            assert(a@.skip(i as int)[0] == ca);
            assert(b@.skip(i as int)[0] == cb);
            assert(a@.skip(i as int).drop_first() =~= a@.skip(i + 1));
            assert(b@.skip(i as int).drop_first() =~= b@.skip(i + 1));
        }
        if (ca as u32) < (cb as u32) {
            return true;
        }
        if ca != cb {
            return false;
        }
        i = i + 1;
    }
    proof {
        assert(a@.skip(i as int).len() == la - i);
        assert(b@.skip(i as int).len() == lb - i);
    }
    i == la && i < lb
}

/// Insert `name` into the strictly sorted list `names`, unless it is already
/// there.
pub fn insert_sorted_unique(names: &mut Vec<String>, name: String)
    requires
        strictly_sorted(texts(old(names)@)),
    ensures
        strictly_sorted(texts(final(names)@)),
        forall|t: Seq<char>| texts(final(names)@).contains(t) <==> (texts(old(names)@).contains(t)
            || t == name@),
{
    let ghost old_t = texts(names@);
    let mut p: usize = 0;
    while p < names.len() && text_less(names[p].as_str(), name.as_str())
        invariant
            p <= names.len(),
            names@ == old(names)@,
            old_t == texts(names@),
            forall|q: int| 0 <= q < p ==> text_lt(#[trigger] old_t[q], name@),
        decreases names.len() - p,
    {
        p = p + 1;
    }
    if p < names.len() {
        let same = !text_less(name.as_str(), names[p].as_str());
        if same {
            proof {
                if old_t[p as int] != name@ {
                    lemma_text_lt_total(old_t[p as int], name@);
                }
                assert forall|t: Seq<char>| texts(names@).contains(t) <==> (old_t.contains(t) || t == name@) by {
                    if t == name@ {
                        assert(old_t[p as int] == t);
                    }
                }
            }
            return;
        }
    }
    proof {
        if p < old_t.len() {
            if old_t[p as int] == name@ {
                lemma_text_lt_irreflexive(name@);
            }
            lemma_text_lt_total(old_t[p as int], name@);
            assert(text_lt(name@, old_t[p as int]));
            assert forall|q: int| p <= q < old_t.len() implies text_lt(name@, #[trigger] old_t[q]) by {
                if q > p {
                    lemma_text_lt_transitive(name@, old_t[p as int], old_t[q]);
                }
            }
        }
    }
    let ghost nm = name@;
    names.insert(p, name);
    proof {
        let t = texts(names@);
        assert(t =~= old_t.insert(p as int, nm));
        assert forall|i: int, j: int| 0 <= i < j < t.len() implies text_lt(#[trigger] t[i], #[trigger] t[j]) by {
            if i < p && j < p {
            } else if i < p && j == p {
            } else if i < p && j > p {
                assert(t[j] == old_t[j - 1]);
            } else if i == p {
                assert(t[j] == old_t[j - 1]);
            } else {
                assert(t[i] == old_t[i - 1]);
                assert(t[j] == old_t[j - 1]);
            }
        }
        assert forall|x: Seq<char>| t.contains(x) <==> (old_t.contains(x) || x == nm) by {
            if t.contains(x) {
                let k = choose|k: int| 0 <= k < t.len() && t[k] == x;
                if k < p {
                    assert(old_t[k] == x);
                } else if k > p {
                    assert(old_t[k - 1] == x);
                }
            }
            if old_t.contains(x) {
                let k = choose|k: int| 0 <= k < old_t.len() && old_t[k] == x;
                if k < p {
                    assert(t[k] == x);
                } else {
                    assert(t[k + 1] == x);
                }
            }
            if x == nm {
                assert(t[p as int] == x);
            }
        }
    }
}

/// `s` is strictly increasing.
pub open spec fn ascending(s: Seq<u32>) -> bool {
    forall|i: int, j: int| 0 <= i < j < s.len() ==> s[i] < s[j]
}

/// Insert `x` into the strictly increasing `v`, unless it is already there.
pub fn insert_sorted_u32(v: &mut Vec<u32>, x: u32)
    requires
        ascending(old(v)@),
    ensures
        ascending(final(v)@),
        forall|y: u32| final(v)@.contains(y) <==> (old(v)@.contains(y) || y == x),
{
    let ghost before = v@;
    let mut p: usize = 0;
    while p < v.len() && v[p] < x
        invariant
            p <= v@.len(),
            v@ == before,
            forall|q: int| 0 <= q < p ==> before[q] < x,
        decreases v.len() - p,
    {
        p = p + 1;
    }
    if p < v.len() && v[p] == x {
        proof {
            assert forall|y: u32| v@.contains(y) <==> (before.contains(y) || y == x) by {
                if y == x {
                    assert(v@[p as int] == y);
                }
            }
        }
        return;
    }
    v.insert(p, x);
    proof {
        let t = v@;
        assert(t =~= before.insert(p as int, x));
        assert forall|a: int, b: int| 0 <= a < b < t.len() implies t[a] < t[b] by {
            if a < p && b > p {
                assert(t[b] == before[b - 1]);
            } else if a == p && b > p {
                assert(t[b] == before[b - 1]);
                if p < before.len() {
                    assert(x < before[p as int]);
                }
            } else if a > p {
                assert(t[a] == before[a - 1]);
                assert(t[b] == before[b - 1]);
            }
        }
        assert forall|y: u32| t.contains(y) <==> (before.contains(y) || y == x) by {
            if t.contains(y) {
                let k = choose|k: int| 0 <= k < t.len() && t[k] == y;
                if k < p {
                    assert(before[k] == y);
                } else if k > p {
                    assert(before[k - 1] == y);
                }
            }
            if before.contains(y) {
                let q = choose|q: int| 0 <= q < before.len() && before[q] == y;
                if q < p {
                    assert(t[q] == y);
                } else {
                    assert(t[q + 1] == y);
                }
            }
            if y == x {
                assert(t[p as int] == y);
            }
        }
    }
}

} // verus!
