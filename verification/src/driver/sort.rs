//! Diagnostics in source order.

use vstd::prelude::*;

use crate::ast::Diagnostic;

verus! {

/// `sorted` with `d` placed after every diagnostic that starts no later
/// than `d`, and before the rest.
pub open spec fn insert_by_start(sorted: Seq<Diagnostic>, d: Diagnostic) -> Seq<Diagnostic>
    decreases sorted.len(),
{
    if sorted.len() == 0 {
        seq![d]
    } else if sorted.last().span.start <= d.span.start {
        sorted.push(d)
    } else {
        insert_by_start(sorted.drop_last(), d).push(sorted.last())
    }
}

/// `s` sorted by where each diagnostic starts; diagnostics that start at
/// the same offset keep their order.
pub open spec fn sort_by_start(s: Seq<Diagnostic>) -> Seq<Diagnostic>
    decreases s.len(),
{
    if s.len() == 0 {
        Seq::empty()
    } else {
        insert_by_start(sort_by_start(s.drop_last()), s.last())
    }
}

/// Whether the diagnostics come in the order of their start offsets.
pub open spec fn sorted_by_start(s: Seq<Diagnostic>) -> bool {
    forall|i: int, j: int| 0 <= i < j < s.len() ==> (#[trigger] s[i]).span.start <= (#[trigger] s[j]).span.start
}

/// Inserting at `p`, past the last diagnostic that starts no later than
/// `d`, is `insert_by_start`.
proof fn lemma_insert_at(s: Seq<Diagnostic>, d: Diagnostic, p: int)
    requires
        0 <= p <= s.len(),
        forall|k: int| p <= k < s.len() ==> (#[trigger] s[k]).span.start > d.span.start,
        p > 0 ==> s[p - 1].span.start <= d.span.start,
    ensures
        insert_by_start(s, d) == s.take(p).push(d) + s.skip(p),
    decreases s.len(),
{
    if s.len() == 0 {
        assert(s.take(p).push(d) + s.skip(p) =~= seq![d]);
    } else if p == s.len() {
        assert(s.take(p) =~= s);
        assert(s.take(p).push(d) + s.skip(p) =~= s.push(d));
    } else {
        let t = s.drop_last();
        lemma_insert_at(t, d, p);
        assert(t.take(p) =~= s.take(p));
        assert(t.skip(p).push(s.last()) =~= s.skip(p));
        assert((t.take(p).push(d) + t.skip(p)).push(s.last()) =~= s.take(p).push(d) + s.skip(p));
    }
}

/// Inserting into a sorted sequence keeps it sorted.
proof fn lemma_insert_sorted(s: Seq<Diagnostic>, d: Diagnostic)
    requires
        sorted_by_start(s),
    ensures
        sorted_by_start(insert_by_start(s, d)),
        insert_by_start(s, d).len() == s.len() + 1,
        insert_by_start(s, d).to_multiset() == s.to_multiset().insert(d),
    decreases s.len(),
{
    broadcast use vstd::seq_lib::group_to_multiset_ensures;

    if s.len() == 0 {
        assert(seq![d].to_multiset() =~= s.to_multiset().insert(d)) by {
            assert(s =~= Seq::<Diagnostic>::empty());
            assert(seq![d] =~= Seq::<Diagnostic>::empty().push(d));
        }
    } else if s.last().span.start <= d.span.start {
    } else {
        let t = s.drop_last();
        lemma_insert_sorted(t, d);
        let u = insert_by_start(t, d);
        assert forall|k: int| 0 <= k < u.len() implies (#[trigger] u[k]).span.start <= s.last().span.start by {
            lemma_insert_elements(t, d);
            if u[k] != d {
                let m = choose|m: int| 0 <= m < t.len() && t[m] == u[k];
                assert(s[m] == t[m]);
            }
        }
        assert(s =~= t.push(s.last()));
    }
}

/// Every element of an insertion is `d` or an element of `s`.
proof fn lemma_insert_elements(s: Seq<Diagnostic>, d: Diagnostic)
    ensures
        forall|k: int| 0 <= k < insert_by_start(s, d).len() ==> #[trigger] insert_by_start(s, d)[k] == d
            || exists|m: int| 0 <= m < s.len() && s[m] == insert_by_start(s, d)[k],
    decreases s.len(),
{
    if s.len() > 0 && s.last().span.start > d.span.start {
        let t = s.drop_last();
        lemma_insert_elements(t, d);
        let u = insert_by_start(s, d);
        assert forall|k: int| 0 <= k < u.len() implies #[trigger] u[k] == d || exists|m: int| 0 <= m < s.len()
            && s[m] == u[k] by {
            if k == u.len() - 1 {
                assert(s[s.len() - 1] == u[k]);
            } else {
                let v = insert_by_start(t, d);
                assert(u[k] == v[k]);
                if v[k] != d {
                    let m = choose|m: int| 0 <= m < t.len() && t[m] == v[k];
                    assert(s[m] == t[m]);
                }
            }
        }
    } else if s.len() > 0 {
        let u = insert_by_start(s, d);
        assert forall|k: int| 0 <= k < u.len() implies #[trigger] u[k] == d || exists|m: int| 0 <= m < s.len()
            && s[m] == u[k] by {
            if k < s.len() {
                assert(s[k] == u[k]);
            }
        }
    }
}

/// A stable sort is sorted and holds the same diagnostics.
pub proof fn lemma_sort_by_start(s: Seq<Diagnostic>)
    ensures
        sorted_by_start(sort_by_start(s)),
        sort_by_start(s).len() == s.len(),
        sort_by_start(s).to_multiset() == s.to_multiset(),
    decreases s.len(),
{
    broadcast use vstd::seq_lib::group_to_multiset_ensures;

    if s.len() > 0 {
        lemma_sort_by_start(s.drop_last());
        lemma_insert_sorted(sort_by_start(s.drop_last()), s.last());
        assert(s =~= s.drop_last().push(s.last()));
    }
}

/// The diagnostics of `s` that start at offset `at`, in their order in `s`.
pub open spec fn starting_at(s: Seq<Diagnostic>, at: u32) -> Seq<Diagnostic> {
    s.filter(|d: Diagnostic| d.span.start == at)
}

/// Inserting `d` adds it after the diagnostics that start where it does,
/// and leaves those that start elsewhere in their order.
proof fn lemma_insert_keeps_order_at(t: Seq<Diagnostic>, d: Diagnostic, at: u32)
    ensures
        starting_at(insert_by_start(t, d), at) == if d.span.start == at {
            starting_at(t, at).push(d)
        } else {
            starting_at(t, at)
        },
    decreases t.len(),
{
    reveal(Seq::filter);
    if t.len() == 0 {
        let one = seq![d];
        assert(one.drop_last() =~= t);
        assert(one.last() == d);
        assert(starting_at(t, at) == t);
        assert(starting_at(one, at) == if d.span.start == at {
            starting_at(one.drop_last(), at).push(d)
        } else {
            starting_at(one.drop_last(), at)
        });
    } else if t.last().span.start <= d.span.start {
        let u = t.push(d);
        assert(u.drop_last() =~= t);
        assert(u.last() == d);
        assert(starting_at(u, at) == if d.span.start == at {
            starting_at(u.drop_last(), at).push(d)
        } else {
            starting_at(u.drop_last(), at)
        });
    } else {
        lemma_insert_keeps_order_at(t.drop_last(), d, at);
        let r = insert_by_start(t.drop_last(), d);
        let l = t.last();
        let u = r.push(l);
        assert(u.drop_last() =~= r);
        assert(u.last() == l);
        assert(starting_at(u, at) == if l.span.start == at {
            starting_at(r, at).push(l)
        } else {
            starting_at(r, at)
        });
        assert(starting_at(t, at) == if l.span.start == at {
            starting_at(t.drop_last(), at).push(l)
        } else {
            starting_at(t.drop_last(), at)
        });
    }
}

/// The sort is stable: the diagnostics that start at any one offset come
/// out in the order they went in.
pub proof fn lemma_sort_by_start_is_stable(s: Seq<Diagnostic>, at: u32)
    ensures
        starting_at(sort_by_start(s), at) == starting_at(s, at),
    decreases s.len(),
{
    reveal(Seq::filter);
    if s.len() > 0 {
        lemma_sort_by_start_is_stable(s.drop_last(), at);
        lemma_insert_keeps_order_at(sort_by_start(s.drop_last()), s.last(), at);
        assert(sort_by_start(s) == insert_by_start(sort_by_start(s.drop_last()), s.last()));
        assert(starting_at(s, at) == if s.last().span.start == at {
            starting_at(s.drop_last(), at).push(s.last())
        } else {
            starting_at(s.drop_last(), at)
        });
    } else {
        assert(sort_by_start(s) =~= s);
    }
}

/// The diagnostics sorted by where they start; those that start at the
/// same offset keep their order.
pub fn sort_diagnostics(v: Vec<Diagnostic>) -> (r: Vec<Diagnostic>)
    ensures
        r@ == sort_by_start(v@),
{
    let ghost all = v@;
    let mut rest = v;
    let mut out: Vec<Diagnostic> = Vec::new();
    let ghost mut i: int = 0;
    proof {
        assert(all.take(0) =~= Seq::<Diagnostic>::empty());
        assert(all.skip(0) =~= all);
    }
    while rest.len() > 0
        invariant
            0 <= i <= all.len(),
            rest@ == all.skip(i),
            out@ == sort_by_start(all.take(i)),
        decreases rest.len(),
    {
        let d = rest.remove(0);
        let mut p: usize = out.len();
        while p > 0 && out[p - 1].span.start > d.span.start
            invariant
                p <= out.len(),
                forall|k: int| p <= k < out.len() ==> (#[trigger] out@[k]).span.start > d.span.start,
            decreases p,
        {
            p = p - 1;
        }
        proof {
            lemma_insert_at(out@, d, p as int);
            assert(all.take(i + 1).drop_last() =~= all.take(i));
            assert(all.take(i + 1).last() == d);
        }
        out.insert(p, d);
        proof {
            assert(out@ =~= insert_by_start(sort_by_start(all.take(i)), d));
            i = i + 1;
            assert(rest@ =~= all.skip(i));
        }
    }
    proof {
        assert(all.take(i) =~= all);
    }
    out
}

} // verus!
