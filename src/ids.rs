//! Sequences of identifiers: removing values, and the lemmas about it.
use vstd::prelude::*;

verus! {

/// `s` with every occurrence of `x` removed, order kept.
pub open spec fn erase(s: Seq<u64>, x: u64) -> Seq<u64>
    decreases s.len(),
{
    if s.len() == 0 {
        s
    } else if s.last() == x {
        erase(s.drop_last(), x)
    } else {
        erase(s.drop_last(), x).push(s.last())
    }
}

/// `s` with every value that occurs in `t` removed, order kept.
pub open spec fn minus(s: Seq<u64>, t: Seq<u64>) -> Seq<u64>
    decreases s.len(),
{
    if s.len() == 0 {
        s
    } else if t.contains(s.last()) {
        minus(s.drop_last(), t)
    } else {
        minus(s.drop_last(), t).push(s.last())
    }
}

/// `n` consecutive identifiers starting at `start`.
pub open spec fn fresh_ids(start: nat, n: nat) -> Seq<u64> {
    Seq::new(n, |i: int| (start + i) as u64)
}

/// What a sequence with one more value at its end contains.
pub proof fn lemma_push_contains(e: Seq<u64>, v: u64)
    ensures
        forall|y: u64| e.push(v).contains(y) <==> (e.contains(y) || y == v),
{
    assert forall|y: u64| e.push(v).contains(y) <==> (e.contains(y) || y == v) by {
        if e.push(v).contains(y) {
            let i = choose|i: int| 0 <= i < e.len() + 1 && e.push(v)[i] == y;
            if i < e.len() {
                assert(e[i] == y);
            }
        }
        if e.contains(y) {
            let i = choose|i: int| 0 <= i < e.len() && e[i] == y;
            assert(e.push(v)[i] == y);
        }
        if y == v {
            assert(e.push(v)[e.len() as int] == y);
        }
    }
}

/// A value not yet in a sequence without duplicates can be added to it.
pub proof fn lemma_push_no_duplicates(e: Seq<u64>, v: u64)
    requires
        e.no_duplicates(),
        !e.contains(v),
    ensures
        e.push(v).no_duplicates(),
{
    let q = e.push(v);
    assert forall|i: int, j: int| 0 <= i < q.len() && 0 <= j < q.len() && i != j implies q[i] != q[j] by {
        if i < e.len() && j < e.len() {
            assert(q[i] == e[i] && q[j] == e[j]);
        } else if i < e.len() {
            assert(e.contains(q[i]));
        } else if j < e.len() {
            assert(e.contains(q[j]));
        }
    }
}

/// Splitting off the last value of a sequence without duplicates.
pub proof fn lemma_drop_last_no_duplicates(s: Seq<u64>)
    requires
        s.len() > 0,
    ensures
        s == s.drop_last().push(s.last()),
        s.no_duplicates() ==> s.drop_last().no_duplicates() && !s.drop_last().contains(s.last()),
{
    let p = s.drop_last();
    assert(s == p.push(s.last()));
    if s.no_duplicates() {
        assert(!p.contains(s.last())) by {
            if p.contains(s.last()) {
                let i = choose|i: int| 0 <= i < p.len() && p[i] == s.last();
                assert(s[i] == s[s.len() - 1]);
            }
        }
        assert forall|i: int, j: int| 0 <= i < p.len() && 0 <= j < p.len() && i != j implies p[i] != p[j] by {
            assert(s[i] == p[i] && s[j] == p[j]);
        }
    }
}

pub proof fn lemma_erase(s: Seq<u64>, x: u64)
    ensures
        forall|y: u64| erase(s, x).contains(y) <==> (s.contains(y) && y != x),
        s.no_duplicates() ==> erase(s, x).no_duplicates(),
        !s.contains(x) ==> erase(s, x) == s,
        erase(s, x).len() <= s.len(),
    decreases s.len(),
{
    if s.len() > 0 {
        let p = s.drop_last();
        lemma_erase(p, x);
        lemma_drop_last_no_duplicates(s);
        lemma_push_contains(p, s.last());
        let e = erase(p, x);
        if s.last() != x {
            lemma_push_contains(e, s.last());
            if s.no_duplicates() {
                lemma_push_no_duplicates(e, s.last());
            }
        }
        assert forall|y: u64| erase(s, x).contains(y) <==> (s.contains(y) && y != x) by {
            assert(s.contains(y) <==> (p.contains(y) || y == s.last()));
        }
    }
}

pub proof fn lemma_minus(s: Seq<u64>, t: Seq<u64>)
    ensures
        forall|y: u64| minus(s, t).contains(y) <==> (s.contains(y) && !t.contains(y)),
        s.no_duplicates() ==> minus(s, t).no_duplicates(),
        minus(s, t).len() <= s.len(),
    decreases s.len(),
{
    if s.len() > 0 {
        let p = s.drop_last();
        lemma_minus(p, t);
        lemma_drop_last_no_duplicates(s);
        lemma_push_contains(p, s.last());
        let e = minus(p, t);
        if !t.contains(s.last()) {
            lemma_push_contains(e, s.last());
            if s.no_duplicates() {
                lemma_push_no_duplicates(e, s.last());
            }
        }
        assert forall|y: u64| minus(s, t).contains(y) <==> (s.contains(y) && !t.contains(y)) by {
            assert(s.contains(y) <==> (p.contains(y) || y == s.last()));
        }
    }
}

} // verus!
