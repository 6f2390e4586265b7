use vstd::prelude::*;

verus! {

/// `s` with every occurrence of `u` taken out, order kept.
pub open spec fn without(s: Seq<u64>, u: u64) -> Seq<u64>
    decreases s.len(),
{
    if s.len() == 0 {
        seq![]
    } else if s.last() == u {
        without(s.drop_last(), u)
    } else {
        without(s.drop_last(), u).push(s.last())
    }
}

/// `s` with `u` added at the end unless it is there already.
pub open spec fn with_voter(s: Seq<u64>, u: u64) -> Seq<u64> {
    if s.contains(u) {
        s
    } else {
        s.push(u)
    }
}

pub proof fn lemma_without(s: Seq<u64>, u: u64)
    ensures
        !without(s, u).contains(u),
        forall|x: u64| x != u ==> (#[trigger] without(s, u).contains(x) <==> s.contains(x)),
        s.no_duplicates() ==> without(s, u).no_duplicates(),
        !s.contains(u) ==> without(s, u) == s,
    decreases s.len(),
{
    if s.len() > 0 {
        let t = s.drop_last();
        lemma_without(t, u);
        assert(t.push(s.last()) =~= s);
        assert forall|x: u64| x != u implies (#[trigger] without(s, u).contains(x) <==> s.contains(x)) by {
            lemma_push_contains(t, s.last(), x);
            if s.last() != u {
                lemma_push_contains(without(t, u), s.last(), x);
            }
        }
        if s.no_duplicates() {
            assert(t.no_duplicates()) by {
                assert forall|i: int, j: int| 0 <= i < t.len() && 0 <= j < t.len() && i != j implies t[i] != t[j] by {
                    assert(t[i] == s[i] && t[j] == s[j]);
                }
            }
            if s.last() != u {
                let w = without(t, u);
                assert(!t.contains(s.last())) by {
                    if t.contains(s.last()) {
                        let k = choose|k: int| 0 <= k < t.len() && t[k] == s.last();
                        assert(s[k] == s[s.len() - 1]);
                    }
                }
                assert(!w.contains(s.last()));
                assert forall|i: int, j: int| 0 <= i < w.push(s.last()).len() && 0 <= j < w.push(s.last()).len() && i != j
                    implies w.push(s.last())[i] != w.push(s.last())[j] by {
                    if i < w.len() && j < w.len() {
                    } else if i < w.len() {
                        assert(w.contains(w[i]));
                    } else {
                        assert(w.contains(w[j]));
                    }
                }
            }
        }
        if !s.contains(u) {
            assert(!t.contains(u)) by {
                if t.contains(u) {
                    let k = choose|k: int| 0 <= k < t.len() && t[k] == u;
                    assert(s[k] == u);
                }
            }
            assert(s.last() != u) by {
                assert(s[s.len() - 1] == s.last());
            }
        }
    }
}

pub proof fn lemma_push_contains(s: Seq<u64>, a: u64, x: u64)
    ensures
        s.push(a).contains(x) <==> (s.contains(x) || x == a),
{
    let r = s.push(a);
    assert(r[s.len() as int] == a);
    if s.contains(x) {
        let k = choose|k: int| 0 <= k < s.len() && s[k] == x;
        assert(r[k] == x);
    }
    if r.contains(x) {
        let k = choose|k: int| 0 <= k < r.len() && r[k] == x;
        if k < s.len() {
            assert(s[k] == x);
        }
    }
}

pub proof fn lemma_with_voter(s: Seq<u64>, u: u64)
    ensures
        with_voter(s, u).contains(u),
        forall|x: u64| x != u ==> (#[trigger] with_voter(s, u).contains(x) <==> s.contains(x)),
        s.no_duplicates() ==> with_voter(s, u).no_duplicates(),
{
    if !s.contains(u) {
        let r = s.push(u);
        assert(r[s.len() as int] == u);
        assert forall|x: u64| x != u implies (#[trigger] r.contains(x) <==> s.contains(x)) by {
            if s.contains(x) {
                let k = choose|k: int| 0 <= k < s.len() && s[k] == x;
                assert(r[k] == x);
            }
            if r.contains(x) {
                let k = choose|k: int| 0 <= k < r.len() && r[k] == x;
                assert(s[k] == x);
            }
        }
        if s.no_duplicates() {
            assert forall|i: int, j: int| 0 <= i < r.len() && 0 <= j < r.len() && i != j implies r[i] != r[j] by {
                if i < s.len() && j < s.len() {
                } else if i < s.len() {
                    assert(s.contains(s[i]));
                } else {
                    assert(s.contains(s[j]));
                }
            }
        }
    }
}

/// The voters of `v` but `u`.
pub fn remove_voter(v: &Vec<u64>, u: u64) -> (r: Vec<u64>)
    ensures
        r@ == without(v@, u),
{
    let mut r: Vec<u64> = Vec::new();
    let mut i: usize = 0;
    while i < v.len()
        invariant
            i <= v.len(),
            r@ == without(v@.take(i as int), u),
        decreases v.len() - i,
    {
        assert(v@.take(i as int + 1).drop_last() =~= v@.take(i as int));
        if v[i] != u {
            r.push(v[i]);
        }
        i += 1;
    }
    assert(v@.take(v.len() as int) =~= v@);
    r
}

/// Whether `u` is among the voters of `v`.
pub fn has_voter(v: &Vec<u64>, u: u64) -> (r: bool)
    ensures
        r == v@.contains(u),
{
    let mut i: usize = 0;
    while i < v.len()
        invariant
            i <= v.len(),
            forall|k: int| 0 <= k < i ==> v@[k] != u,
        decreases v.len() - i,
    {
        if v[i] == u {
            assert(v@[i as int] == u);
            return true;
        }
        i += 1;
    }
    false
}

} // verus!
