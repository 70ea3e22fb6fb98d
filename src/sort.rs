use vstd::prelude::*;

use crate::entry::FsNode;
use crate::text::chars_of;

verus! {

/// A sequence of indices, as integers.
pub open spec fn ints(s: Seq<usize>) -> Seq<int> {
    s.map_values(|i: usize| i as int)
}

/// Whether `a` comes no later than `b` in the order of names: character by
/// character by code point, a prefix first. On UTF-8 text this is the order
/// of the bytes.
pub open spec fn name_le(a: Seq<char>, b: Seq<char>) -> bool
    decreases a.len(),
{
    if a.len() == 0 {
        true
    } else if b.len() == 0 {
        false
    } else if a[0] != b[0] {
        a[0] < b[0]
    } else {
        name_le(a.drop_first(), b.drop_first())
    }
}

/// The names of a listing's entries.
pub open spec fn names_of(items: Seq<FsNode>) -> Seq<Seq<char>> {
    items.map_values(|n: FsNode| n.name@)
}

/// `l` with `x` placed after every element whose name is no later than its own.
pub open spec fn insert_by_name(names: Seq<Seq<char>>, l: Seq<int>, x: int) -> Seq<int>
    decreases l.len(),
{
    if l.len() == 0 {
        seq![x]
    } else if name_le(names[l.last()], names[x]) {
        l.push(x)
    } else {
        insert_by_name(names, l.drop_last(), x).push(l.last())
    }
}

/// The positions `s` ordered by the names they refer to; positions with equal
/// names keep their order.
pub open spec fn sort_by_name(names: Seq<Seq<char>>, s: Seq<int>) -> Seq<int>
    decreases s.len(),
{
    if s.len() == 0 {
        s
    } else {
        insert_by_name(names, sort_by_name(names, s.drop_last()), s.last())
    }
}

/// Whether the names that the positions `s` refer to never decrease.
pub open spec fn ordered_by_name(names: Seq<Seq<char>>, s: Seq<int>) -> bool {
    forall|k: int| 0 <= k < s.len() - 1 ==> name_le(names[#[trigger] s[k]], names[s[k + 1]])
}

/// Of two names, one comes no later than the other.
pub proof fn lemma_name_le_total(a: Seq<char>, b: Seq<char>)
    ensures
        name_le(a, b) || name_le(b, a),
    decreases a.len(),
{
    if a.len() > 0 && b.len() > 0 && a[0] == b[0] {
        lemma_name_le_total(a.drop_first(), b.drop_first());
    }
}

proof fn lemma_insert_last(names: Seq<Seq<char>>, l: Seq<int>, x: int)
    ensures
        insert_by_name(names, l, x).len() == l.len() + 1,
        insert_by_name(names, l, x).last() == x || (l.len() > 0 && insert_by_name(names, l, x).last()
            == l.last()),
    decreases l.len(),
{
    if l.len() > 0 && !name_le(names[l.last()], names[x]) {
        lemma_insert_last(names, l.drop_last(), x);
    }
}

proof fn lemma_insert_ordered(names: Seq<Seq<char>>, l: Seq<int>, x: int)
    requires
        ordered_by_name(names, l),
    ensures
        ordered_by_name(names, insert_by_name(names, l, x)),
        insert_by_name(names, l, x).to_multiset() == l.to_multiset().insert(x),
    decreases l.len(),
{
    broadcast use vstd::seq_lib::group_to_multiset_ensures;

    if l.len() == 0 {
        assert(seq![x] =~= Seq::<int>::empty().push(x));
    } else if name_le(names[l.last()], names[x]) {
        let r = l.push(x);
        assert forall|k: int| 0 <= k < r.len() - 1 implies name_le(names[#[trigger] r[k]], names[r[k + 1]]) by {
            if k < l.len() - 1 {
                assert(r[k] == l[k] && r[k + 1] == l[k + 1]);
            }
        }
    } else {
        let d = l.drop_last();
        assert(ordered_by_name(names, d)) by {
            assert forall|k: int| 0 <= k < d.len() - 1 implies name_le(names[#[trigger] d[k]], names[d[k + 1]]) by {
                assert(d[k] == l[k] && d[k + 1] == l[k + 1]);
            }
        }
        lemma_insert_ordered(names, d, x);
        lemma_insert_last(names, d, x);
        lemma_name_le_total(names[l.last()], names[x]);
        let m = insert_by_name(names, d, x);
        let r = m.push(l.last());
        if d.len() > 0 && m.last() == d.last() {
            assert(name_le(names[l[l.len() - 2]], names[l[l.len() - 1]]));
        }
        assert forall|k: int| 0 <= k < r.len() - 1 implies name_le(names[#[trigger] r[k]], names[r[k + 1]]) by {
            if k < m.len() - 1 {
                assert(r[k] == m[k] && r[k + 1] == m[k + 1]);
            } else {
                assert(r[k] == m.last());
            }
        }
        assert(l =~= d.push(l.last()));
        assert(m.to_multiset().insert(l.last()) =~= d.to_multiset().insert(l.last()).insert(x));
    }
}

/// Ordering positions by name gives positions whose names never decrease,
/// and the same positions, each as often as before.
pub proof fn lemma_sort_by_name(names: Seq<Seq<char>>, s: Seq<int>)
    ensures
        ordered_by_name(names, sort_by_name(names, s)),
        sort_by_name(names, s).to_multiset() == s.to_multiset(),
    decreases s.len(),
{
    broadcast use vstd::seq_lib::group_to_multiset_ensures;

    if s.len() > 0 {
        lemma_sort_by_name(names, s.drop_last());
        lemma_insert_ordered(names, sort_by_name(names, s.drop_last()), s.last());
        assert(s =~= s.drop_last().push(s.last()));
    }
}

/// Whether `a` comes no later than `b` in the order of names.
pub fn name_le_exec(a: &Vec<char>, b: &Vec<char>) -> (r: bool)
    ensures
        r == name_le(a@, b@),
{
    let mut i: usize = 0;
    assert(a@.skip(0) =~= a@);
    assert(b@.skip(0) =~= b@);
    while i < a.len() && i < b.len() && a[i] == b[i]
        invariant
            i <= a@.len(),
            i <= b@.len(),
            name_le(a@, b@) == name_le(a@.skip(i as int), b@.skip(i as int)),
        decreases a@.len() - i,
    {
        assert(a@.skip(i as int).drop_first() =~= a@.skip(i + 1));
        assert(b@.skip(i as int).drop_first() =~= b@.skip(i + 1));
        i = i + 1;
    }
    if i == a.len() {
        true
    } else if i == b.len() {
        false
    } else {
        a[i] < b[i]
    }
}

/// The positions `idx` into `entries`, ordered by the entries' names; equal
/// names keep their order.
pub fn sort_by_file_name(entries: &Vec<FsNode>, idx: &Vec<usize>) -> (r: Vec<usize>)
    requires
        forall|m: int| 0 <= m < idx@.len() ==> idx@[m] < entries@.len(),
    ensures
        ints(r@) == sort_by_name(names_of(entries@), ints(idx@)),
        ordered_by_name(names_of(entries@), ints(r@)),
        ints(r@).to_multiset() == ints(idx@).to_multiset(),
        forall|m: int| 0 <= m < r@.len() ==> r@[m] < entries@.len(),
{
    let ghost names = names_of(entries@);
    let mut name_chars: Vec<Vec<char>> = Vec::new();
    for j in 0..entries.len()
        invariant
            names == names_of(entries@),
            name_chars@.len() == j,
            forall|m: int| 0 <= m < j ==> (#[trigger] name_chars@[m])@ == names[m],
    {
        name_chars.push(chars_of(entries[j].name.as_str()));
    }
    let mut sorted: Vec<usize> = Vec::new();
    for k in 0..idx.len()
        invariant
            names == names_of(entries@),
            name_chars@.len() == entries@.len(),
            forall|m: int| 0 <= m < entries@.len() ==> (#[trigger] name_chars@[m])@ == names[m],
            forall|m: int| 0 <= m < idx@.len() ==> idx@[m] < entries@.len(),
            forall|m: int| 0 <= m < sorted@.len() ==> sorted@[m] < entries@.len(),
            ints(sorted@) == sort_by_name(names, ints(idx@).take(k as int)),
    {
        let x = idx[k];
        let ghost l = ints(sorted@);
        assert(ints(idx@).take(k + 1).drop_last() =~= ints(idx@).take(k as int));
        let mut p = sorted.len();
        assert(l.take(p as int) =~= l);
        assert(insert_by_name(names, l, x as int) =~= insert_by_name(names, l.take(p as int), x as int) + l.skip(p as int));
        while p > 0 && !name_le_exec(&name_chars[sorted[p - 1]], &name_chars[x])
            invariant
                l == ints(sorted@),
                p <= sorted@.len(),
                x < entries@.len(),
                name_chars@.len() == entries@.len(),
                forall|m: int| 0 <= m < entries@.len() ==> (#[trigger] name_chars@[m])@ == names[m],
                forall|m: int| 0 <= m < sorted@.len() ==> sorted@[m] < entries@.len(),
                insert_by_name(names, l, x as int) == insert_by_name(names, l.take(p as int), x as int)
                    + l.skip(p as int),
            decreases p,
        {
            assert(l.take(p as int).drop_last() =~= l.take(p - 1));
            assert(insert_by_name(names, l.take(p - 1), x as int).push(l[p - 1]) + l.skip(p as int)
                =~= insert_by_name(names, l.take(p - 1), x as int) + l.skip(p - 1));
            p = p - 1;
        }
        sorted.insert(p, x);
        proof {
            if p == 0 {
                assert(l.take(0) =~= Seq::<int>::empty());
            }
            assert(ints(sorted@) =~= l.take(p as int).push(x as int) + l.skip(p as int));
        }
    }
    assert(ints(idx@).take(idx@.len() as int) =~= ints(idx@));
    proof {
        lemma_sort_by_name(names, ints(idx@));
    }
    sorted
}

} // verus!
