//! The left-to-right, top-to-bottom order of outputs.
use vstd::prelude::*;
use std::cmp::Ordering;
use crate::model::Output;

verus! {

/// Outputs compare by the `x` of their origin, then by its `y`.
pub open spec fn position_cmp(a: Output, b: Output) -> Ordering {
    if a.rect.x == b.rect.x {
        if a.rect.y > b.rect.y {
            Ordering::Greater
        } else if a.rect.y == b.rect.y {
            Ordering::Equal
        } else {
            Ordering::Less
        }
    } else if a.rect.x < b.rect.x {
        Ordering::Less
    } else {
        Ordering::Greater
    }
}

/// `a` comes no later than `b`.
pub open spec fn position_le(a: Output, b: Output) -> bool {
    position_cmp(a, b) != Ordering::Greater
}

impl Output {
    /// Compares two outputs by position.
    pub fn cmp(&self, other: &Output) -> (r: Ordering)
        ensures
            r == position_cmp(*self, *other),
    {
        if self.rect.x == other.rect.x {
            if self.rect.y > other.rect.y {
                Ordering::Greater
            } else if self.rect.y == other.rect.y {
                Ordering::Equal
            } else {
                Ordering::Less
            }
        } else if self.rect.x < other.rect.x {
            Ordering::Less
        } else {
            Ordering::Greater
        }
    }
}

impl PartialEq for Output {
    fn eq(&self, other: &Output) -> (r: bool) {
        self.rect.x == other.rect.x && self.rect.y == other.rect.y
    }
}

impl vstd::std_specs::cmp::PartialEqSpecImpl for Output {
    open spec fn obeys_eq_spec() -> bool {
        true
    }

    open spec fn eq_spec(&self, other: &Output) -> bool {
        self.rect == other.rect
    }
}

impl PartialOrd for Output {
    fn partial_cmp(&self, other: &Output) -> (r: Option<Ordering>) {
        Some(self.cmp(other))
    }
}

impl vstd::std_specs::cmp::PartialOrdSpecImpl for Output {
    open spec fn obeys_partial_cmp_spec() -> bool {
        true
    }

    open spec fn partial_cmp_spec(&self, other: &Output) -> Option<Ordering> {
        Some(position_cmp(*self, *other))
    }
}

/// Where `o` goes in `s`: after the last element that does not come after it.
pub open spec fn insert_index(s: Seq<Output>, o: Output) -> int
    decreases s.len(),
{
    if s.len() == 0 {
        0
    } else if position_le(s.last(), o) {
        s.len() as int
    } else {
        insert_index(s.drop_last(), o)
    }
}

/// `s` with `o` inserted after every element that does not come after it.
pub open spec fn insert_output(s: Seq<Output>, o: Output) -> Seq<Output>
    decreases s.len(),
{
    if s.len() == 0 {
        seq![o]
    } else if position_le(s.last(), o) {
        s.push(o)
    } else {
        insert_output(s.drop_last(), o).push(s.last())
    }
}

/// The stable sort of `s` by position: each element in turn is inserted
/// after the earlier elements that do not come after it.
pub open spec fn sorted_outputs(s: Seq<Output>) -> Seq<Output>
    decreases s.len(),
{
    if s.len() == 0 {
        s
    } else {
        insert_output(sorted_outputs(s.drop_last()), s.last())
    }
}

/// No output of `s` comes before an earlier one.
pub open spec fn positions_sorted(s: Seq<Output>) -> bool {
    forall|i: int, j: int| 0 <= i < j < s.len() ==> position_le(s[i], s[j])
}

proof fn lemma_insert_form(s: Seq<Output>, o: Output)
    ensures
        0 <= insert_index(s, o) <= s.len(),
        insert_output(s, o) == s.subrange(0, insert_index(s, o)).push(o) + s.subrange(
            insert_index(s, o),
            s.len() as int,
        ),
        insert_index(s, o) == 0 || position_le(s[insert_index(s, o) - 1], o),
        forall|k: int| insert_index(s, o) <= k < s.len() ==> !position_le(#[trigger] s[k], o),
    decreases s.len(),
{
    if s.len() == 0 {
        assert(insert_output(s, o) =~= s.subrange(0, 0).push(o) + s.subrange(0, 0));
    } else if position_le(s.last(), o) {
        assert(insert_output(s, o) =~= s.subrange(0, s.len() as int).push(o) + s.subrange(
            s.len() as int,
            s.len() as int,
        ));
    } else {
        let d = s.drop_last();
        lemma_insert_form(d, o);
        let j = insert_index(s, o);
        assert(insert_output(s, o) =~= s.subrange(0, j).push(o) + s.subrange(j, s.len() as int));
        assert forall|k: int| j <= k < s.len() implies !position_le(#[trigger] s[k], o) by {
            if k < s.len() - 1 {
                assert(s[k] == d[k]);
            }
        }
        if j > 0 {
            assert(s[j - 1] == d[j - 1]);
        }
    }
}

proof fn lemma_insert_sorted(s: Seq<Output>, o: Output)
    requires
        positions_sorted(s),
    ensures
        positions_sorted(insert_output(s, o)),
{
    lemma_insert_form(s, o);
    let j = insert_index(s, o);
    let r = insert_output(s, o);
    assert forall|a: int, b: int| 0 <= a < b < r.len() implies position_le(r[a], r[b]) by {
        if a < j && b < j {
            assert(r[a] == s[a] && r[b] == s[b]);
        } else if a < j && b == j {
            assert(r[a] == s[a] && position_le(s[a], s[j - 1]));
        } else if a < j {
            assert(r[a] == s[a] && r[b] == s[b - 1]);
        } else if a == j {
            assert(r[b] == s[b - 1]);
            assert(!position_le(s[b - 1], o));
        } else {
            assert(r[a] == s[a - 1] && r[b] == s[b - 1]);
        }
    }
}

proof fn lemma_sorted_outputs_sorted(s: Seq<Output>)
    ensures
        positions_sorted(sorted_outputs(s)),
        sorted_outputs(s).len() == s.len(),
    decreases s.len(),
{
    if s.len() > 0 {
        lemma_sorted_outputs_sorted(s.drop_last());
        lemma_insert_sorted(sorted_outputs(s.drop_last()), s.last());
        lemma_insert_form(sorted_outputs(s.drop_last()), s.last());
    }
}

proof fn lemma_sorted_fixed(s: Seq<Output>)
    requires
        positions_sorted(s),
    ensures
        sorted_outputs(s) == s,
    decreases s.len(),
{
    if s.len() > 0 {
        let d = s.drop_last();
        assert(positions_sorted(d)) by {
            assert forall|i: int, j: int| 0 <= i < j < d.len() implies position_le(d[i], d[j]) by {
                assert(d[i] == s[i] && d[j] == s[j]);
            }
        }
        lemma_sorted_fixed(d);
        if d.len() > 0 {
            assert(d.last() == s[s.len() - 2]);
        }
        assert(d.push(s.last()) =~= s);
    }
}

/// Sorting by position a second time changes nothing.
pub proof fn lemma_sort_idempotent(s: Seq<Output>)
    ensures
        sorted_outputs(sorted_outputs(s)) == sorted_outputs(s),
        positions_sorted(sorted_outputs(s)),
{
    lemma_sorted_outputs_sorted(s);
    lemma_sorted_fixed(sorted_outputs(s));
}

/// The position order is a total order: reflexive, antisymmetric up to equal
/// origins, transitive, and any two outputs are comparable.
pub proof fn lemma_position_total_order(a: Output, b: Output, c: Output)
    ensures
        position_le(a, a),
        position_le(a, b) || position_le(b, a),
        position_le(a, b) && position_le(b, a) ==> a.rect == b.rect,
        position_le(a, b) && position_le(b, c) ==> position_le(a, c),
        position_cmp(a, b) == Ordering::Equal <==> a.rect == b.rect,
        position_cmp(a, b) == Ordering::Less <==> position_cmp(b, a) == Ordering::Greater,
{
}

/// Sorting by position keeps exactly the outputs it was given, each as
/// often as before.
pub proof fn lemma_sort_permutes(s: Seq<Output>)
    ensures
        sorted_outputs(s).to_multiset() == s.to_multiset(),
    decreases s.len(),
{
    broadcast use vstd::seq_lib::group_to_multiset_ensures;

    if s.len() > 0 {
        let d = s.drop_last();
        let p = sorted_outputs(d);
        lemma_sort_permutes(d);
        lemma_insert_form(p, s.last());
        let j = insert_index(p, s.last());
        assert(insert_output(p, s.last()) =~= p.insert(j, s.last()));
        assert(d.push(s.last()) =~= s);
    }
}

/// Sorts outputs left to right, then top to bottom; outputs at the same
/// position keep their relative order.
pub fn sort_outputs(v: &mut Vec<Output>)
    ensures
        final(v)@ == sorted_outputs(old(v)@),
{
    let ghost orig = v@;
    let n: usize = v.len();
    let mut i: usize = 0;
    while i < n
        invariant
            n == orig.len(),
            v@.len() == n,
            0 <= i <= n,
            v@.subrange(0, i as int) == sorted_outputs(orig.subrange(0, i as int)),
            v@.subrange(i as int, n as int) == orig.subrange(i as int, n as int),
        decreases n - i,
    {
        let ghost p = v@.subrange(0, i as int);
        let ghost o = v@[i as int];
        let ghost before = v@;
        proof {
            assert(p.subrange(0, i as int) =~= p);
            assert(o == orig[i as int]) by {
                assert(v@.subrange(i as int, n as int)[0] == orig.subrange(i as int, n as int)[0]);
            }
        }
        let mut j: usize = i;
        while j > 0 && !(v[j - 1].rect.x < v[i].rect.x || (v[j - 1].rect.x == v[i].rect.x
            && v[j - 1].rect.y <= v[i].rect.y))
            invariant
                0 <= j <= i < n,
                v@.len() == n,
                p == v@.subrange(0, i as int),
                o == v@[i as int],
                insert_index(p, o) == insert_index(p.subrange(0, j as int), o),
            decreases j,
        {
            proof {
                let q = p.subrange(0, j as int);
                assert(q.drop_last() =~= p.subrange(0, j as int - 1));
                assert(q.last() == v@[j - 1]);
            }
            j = j - 1;
        }
        proof {
            let q = p.subrange(0, j as int);
            if j > 0 {
                assert(q.last() == v@[j - 1]);
            }
            lemma_insert_form(p, o);
            assert(orig.subrange(0, i as int + 1).drop_last() =~= orig.subrange(0, i as int));
        }
        let item = v.remove(i);
        v.insert(j, item);
        proof {
            assert(v@.subrange(0, i as int + 1) =~= insert_output(p, o));
            assert(v@.subrange(i as int + 1, n as int) =~= orig.subrange(i as int + 1, n as int)) by {
                assert forall|k: int| i + 1 <= k < n implies v@[k] == orig[k] by {
                    assert(v@[k] == before[k]);
                    assert(before[k] == before.subrange(i as int, n as int)[k - i]);
                }
            }
        }
        i = i + 1;
    }
    proof {
        assert(v@ =~= v@.subrange(0, n as int));
        assert(orig =~= orig.subrange(0, n as int));
    }
}

} // verus!
