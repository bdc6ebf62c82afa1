//! The order in which the bases of a product stand: by rank first, by facet
//! count second. A base of unknown rank or facet count sorts lowest. Names
//! that the order cannot tell apart keep the order in which they came.
use crate::model::{facet_count_of, NameView, rank_of};
use vstd::prelude::*;

verus! {

/// The key that a name sorts by: its rank, or -2 where it is unknown, and
/// its facet count, or 0 where it is unknown.
pub open spec fn name_key(n: NameView) -> (int, nat) {
    (
        match rank_of(n) {
            Some(r) => r,
            None => -2,
        },
        match facet_count_of(n) {
            Some(f) => f,
            None => 0,
        },
    )
}

/// Whether the key `a` stands at or before the key `b`.
pub open spec fn key_le(a: (int, nat), b: (int, nat)) -> bool {
    a.0 < b.0 || (a.0 == b.0 && a.1 <= b.1)
}

/// The key function of names.
pub open spec fn by_name() -> spec_fn(NameView) -> (int, nat) {
    |n: NameView| name_key(n)
}

/// The key function of the components of a compound.
pub open spec fn by_part() -> spec_fn((nat, NameView)) -> (int, nat) {
    |p: (nat, NameView)| name_key(p.1)
}

/// The place at which `x` enters the sorted list `s`: behind the last item
/// that stands at or before it.
pub open spec fn position<A>(s: Seq<A>, x: A, key: spec_fn(A) -> (int, nat)) -> nat
    decreases s.len(),
{
    if s.len() == 0 {
        0
    } else if key_le(key(s.last()), key(x)) {
        s.len()
    } else {
        position(s.drop_last(), x, key)
    }
}

/// The list `s` sorted by `key`, each item entering behind the items that
/// came before it and stand at or before it.
pub open spec fn sort_by<A>(s: Seq<A>, key: spec_fn(A) -> (int, nat)) -> Seq<A>
    decreases s.len(),
{
    if s.len() == 0 {
        s
    } else {
        let rest = sort_by(s.drop_last(), key);
        rest.insert(position(rest, s.last(), key) as int, s.last())
    }
}

/// The names `s` in the order of a product.
pub open spec fn sort(s: Seq<NameView>) -> Seq<NameView> {
    sort_by(s, by_name())
}

/// The components `s` in the order of a compound.
pub open spec fn sort_parts(s: Seq<(nat, NameView)>) -> Seq<(nat, NameView)> {
    sort_by(s, by_part())
}

/// Whether each item of `s` stands at or before the next.
pub open spec fn sorted<A>(s: Seq<A>, key: spec_fn(A) -> (int, nat)) -> bool {
    forall|i: int, j: int| 0 <= i < j < s.len() ==> key_le(key(s[i]), key(s[j]))
}

/// An item enters a list within it or at its end.
pub proof fn lemma_position_bound<A>(s: Seq<A>, x: A, key: spec_fn(A) -> (int, nat))
    ensures
        position(s, x, key) <= s.len(),
    decreases s.len(),
{
    if s.len() > 0 && !key_le(key(s.last()), key(x)) {
        lemma_position_bound(s.drop_last(), x, key);
    }
}

/// The place at which an item enters a list is known from the items at and
/// behind that place: the item before it stands at or before the item, and
/// the items from it onwards do not.
pub proof fn lemma_position_is<A>(s: Seq<A>, x: A, key: spec_fn(A) -> (int, nat), p: int)
    requires
        0 <= p <= s.len(),
        p > 0 ==> key_le(key(s[p - 1]), key(x)),
        forall|j: int| p <= j < s.len() ==> !key_le(key(#[trigger] s[j]), key(x)),
    ensures
        position(s, x, key) == p,
    decreases s.len(),
{
    if s.len() > p {
        assert(!key_le(key(s[s.len() - 1]), key(x)));
        lemma_position_is(s.drop_last(), x, key, p);
    }
}

/// Sorting keeps the length of a list.
pub proof fn lemma_sort_len<A>(s: Seq<A>, key: spec_fn(A) -> (int, nat))
    ensures
        sort_by(s, key).len() == s.len(),
    decreases s.len(),
{
    if s.len() > 0 {
        lemma_sort_len(s.drop_last(), key);
        lemma_position_bound(sort_by(s.drop_last(), key), s.last(), key);
    }
}

/// A list of one name is sorted as it stands.
pub proof fn lemma_sort_single(s: Seq<NameView>)
    requires
        s.len() == 1,
    ensures
        sort(s) == s,
{
    assert(s.drop_last() =~= Seq::<NameView>::empty());
    assert(sort_by(s.drop_last(), by_name()) =~= Seq::<NameView>::empty());
    assert(sort_by(s, by_name()) =~= s);
}

/// Sorting a list with one more item at its end lets that item enter the
/// sorted list.
pub proof fn lemma_sort_push<A>(s: Seq<A>, x: A, key: spec_fn(A) -> (int, nat))
    ensures
        sort_by(s.push(x), key) == sort_by(s, key).insert(
            position(sort_by(s, key), x, key) as int,
            x,
        ),
{
    assert(s.push(x).drop_last() =~= s);
}

/// The order of keys is total.
pub proof fn lemma_key_le_total(a: (int, nat), b: (int, nat))
    ensures
        key_le(a, b) || key_le(b, a),
{
}

/// The order of keys is transitive.
pub proof fn lemma_key_le_transitive(a: (int, nat), b: (int, nat), c: (int, nat))
    requires
        key_le(a, b),
        key_le(b, c),
    ensures
        key_le(a, c),
{
}

/// At the place where an item enters a list, the item before stands at or
/// before it, and no item from that place onwards does.
pub proof fn lemma_position_props<A>(s: Seq<A>, x: A, key: spec_fn(A) -> (int, nat))
    ensures
        position(s, x, key) <= s.len(),
        position(s, x, key) > 0 ==> key_le(key(s[position(s, x, key) - 1]), key(x)),
        forall|j: int|
            position(s, x, key) <= j < s.len() ==> !key_le(key(#[trigger] s[j]), key(x)),
    decreases s.len(),
{
    if s.len() > 0 && !key_le(key(s.last()), key(x)) {
        let rest = s.drop_last();
        lemma_position_props(rest, x, key);
        let p = position(s, x, key);
        assert forall|j: int| p <= j < s.len() implies !key_le(key(#[trigger] s[j]), key(x)) by {
            if j < rest.len() {
                assert(rest[j] == s[j]);
            }
        }
        if p > 0 {
            assert(rest[p - 1] == s[p - 1]);
        }
    }
}

/// A sorted list stays sorted when an item enters it.
pub proof fn lemma_insert_sorted<A>(s: Seq<A>, x: A, key: spec_fn(A) -> (int, nat))
    requires
        sorted(s, key),
    ensures
        sorted(s.insert(position(s, x, key) as int, x), key),
{
    lemma_position_props(s, x, key);
    let p = position(s, x, key) as int;
    let t = s.insert(p, x);
    assert forall|i: int, j: int| 0 <= i < j < t.len() implies key_le(key(t[i]), key(t[j])) by {
        if j < p {
            assert(t[i] == s[i] && t[j] == s[j]);
        } else if j == p {
            assert(t[i] == s[i]);
            if i < p - 1 {
                lemma_key_le_transitive(key(s[i]), key(s[p - 1]), key(x));
            }
        } else if i < p {
            assert(t[i] == s[i] && t[j] == s[j - 1]);
        } else if i == p {
            assert(t[j] == s[j - 1]);
            lemma_key_le_total(key(s[j - 1]), key(x));
        } else {
            assert(t[i] == s[i - 1] && t[j] == s[j - 1]);
        }
    }
}

/// Sorting sorts.
pub proof fn lemma_sort_sorted<A>(s: Seq<A>, key: spec_fn(A) -> (int, nat))
    ensures
        sorted(sort_by(s, key), key),
    decreases s.len(),
{
    if s.len() > 0 {
        lemma_sort_sorted(s.drop_last(), key);
        lemma_insert_sorted(sort_by(s.drop_last(), key), s.last(), key);
    }
}

/// A sorted list is sorted as it stands.
pub proof fn lemma_sorted_fixed<A>(s: Seq<A>, key: spec_fn(A) -> (int, nat))
    requires
        sorted(s, key),
    ensures
        sort_by(s, key) == s,
    decreases s.len(),
{
    if s.len() > 0 {
        let rest = s.drop_last();
        lemma_sorted_fixed(rest, key);
        if rest.len() > 0 {
            assert(key_le(key(s[rest.len() - 1]), key(s[s.len() - 1])));
            assert(rest[rest.len() - 1] == s[rest.len() - 1]);
        }
        lemma_position_is(rest, s.last(), key, rest.len() as int);
        assert(rest.insert(rest.len() as int, s.last()) =~= s);
    }
}

/// Sorting twice is sorting once.
pub proof fn lemma_sort_idempotent<A>(s: Seq<A>, key: spec_fn(A) -> (int, nat))
    ensures
        sort_by(sort_by(s, key), key) == sort_by(s, key),
{
    lemma_sort_sorted(s, key);
    lemma_sorted_fixed(sort_by(s, key), key);
}

/// Whether the head of a list was sorted beforehand makes no difference to
/// the sorted list.
pub proof fn lemma_sort_presorted<A>(p: Seq<A>, q: Seq<A>, key: spec_fn(A) -> (int, nat))
    ensures
        sort_by(sort_by(p, key) + q, key) == sort_by(p + q, key),
    decreases q.len(),
{
    if q.len() == 0 {
        assert(sort_by(p, key) + q =~= sort_by(p, key));
        assert(p + q =~= p);
        lemma_sort_idempotent(p, key);
    } else {
        lemma_sort_presorted(p, q.drop_last(), key);
        assert((sort_by(p, key) + q).drop_last() =~= sort_by(p, key) + q.drop_last());
        assert((p + q).drop_last() =~= p + q.drop_last());
        assert((sort_by(p, key) + q).last() == q.last());
        assert((p + q).last() == q.last());
    }
}

/// What holds of every item of a list holds of every item of the sorted
/// list.
pub proof fn lemma_sort_all<A>(s: Seq<A>, key: spec_fn(A) -> (int, nat), holds: spec_fn(A) -> bool)
    requires
        forall|i: int| 0 <= i < s.len() ==> holds(#[trigger] s[i]),
    ensures
        sort_by(s, key).len() == s.len(),
        forall|i: int| 0 <= i < s.len() ==> holds(#[trigger] sort_by(s, key)[i]),
    decreases s.len(),
{
    if s.len() > 0 {
        let rest = sort_by(s.drop_last(), key);
        lemma_sort_all(s.drop_last(), key, holds);
        lemma_position_bound(rest, s.last(), key);
        let p = position(rest, s.last(), key) as int;
        let t = rest.insert(p, s.last());
        assert forall|i: int| 0 <= i < s.len() implies holds(#[trigger] t[i]) by {
            if i < p {
                assert(t[i] == rest[i]);
            } else if i == p {
                assert(t[i] == s.last());
                assert(holds(s[s.len() - 1]));
            } else {
                assert(t[i] == rest[i - 1]);
            }
        }
    }
}

/// Whether the order tells any two items of a list apart, unless they are
/// the same item.
pub open spec fn tie_free<A>(s: Seq<A>, key: spec_fn(A) -> (int, nat)) -> bool {
    forall|i: int, j: int|
        0 <= i < s.len() && 0 <= j < s.len() && key(s[i]) == key(s[j]) ==> s[i] == s[j]
}

/// Sorting keeps the items of a list, each as often as it stood there.
pub proof fn lemma_sort_multiset<A>(s: Seq<A>, key: spec_fn(A) -> (int, nat))
    ensures
        sort_by(s, key).to_multiset() == s.to_multiset(),
    decreases s.len(),
{
    broadcast use vstd::seq_lib::group_to_multiset_ensures;

    if s.len() > 0 {
        let rest = sort_by(s.drop_last(), key);
        lemma_sort_multiset(s.drop_last(), key);
        lemma_position_bound(rest, s.last(), key);
        vstd::seq_lib::to_multiset_insert(rest, position(rest, s.last(), key) as int, s.last());
        assert(s.drop_last().push(s.last()) =~= s);
    } else {
        assert(sort_by(s, key) =~= s);
    }
}

/// Two sorted lists of the same items are the same list, where the order
/// tells the items apart.
pub proof fn lemma_sorted_unique<A>(u: Seq<A>, v: Seq<A>, key: spec_fn(A) -> (int, nat))
    requires
        sorted(u, key),
        sorted(v, key),
        u.to_multiset() == v.to_multiset(),
        tie_free(u, key),
    ensures
        u == v,
    decreases u.len(),
{
    broadcast use vstd::seq_lib::group_to_multiset_ensures;

    u.to_multiset_ensures();
    v.to_multiset_ensures();
    assert(u.len() == v.len());
    if u.len() > 0 {
        let x = u.last();
        let y = v.last();
        assert(v.contains(y)) by {
            assert(v[v.len() - 1] == y);
        }
        assert(u.contains(x)) by {
            assert(u[u.len() - 1] == x);
        }
        assert(u.to_multiset().count(y) > 0);
        assert(u.contains(y));
        assert(v.to_multiset().count(x) > 0);
        assert(v.contains(x));
        let i = choose|i: int| 0 <= i < u.len() && u[i] == y;
        let j = choose|j: int| 0 <= j < v.len() && v[j] == x;
        assert(key_le(key(y), key(x))) by {
            if i < u.len() - 1 {
                assert(key_le(key(u[i]), key(u[u.len() - 1])));
            }
        }
        assert(key_le(key(x), key(y))) by {
            if j < v.len() - 1 {
                assert(key_le(key(v[j]), key(v[v.len() - 1])));
            }
        }
        assert(key(x) == key(y));
        assert(x == y) by {
            assert(key(u[i]) == key(u[u.len() - 1]));
        }
        let front = u.drop_last();
        let other = v.drop_last();
        assert(front =~= u.remove(u.len() - 1));
        assert(other =~= v.remove(v.len() - 1));
        vstd::seq_lib::to_multiset_remove(u, u.len() - 1);
        vstd::seq_lib::to_multiset_remove(v, v.len() - 1);
        assert(sorted(front, key)) by {
            assert forall|a: int, b: int| 0 <= a < b < front.len() implies key_le(
                key(front[a]),
                key(front[b]),
            ) by {
                assert(front[a] == u[a] && front[b] == u[b]);
            }
        }
        assert(sorted(other, key)) by {
            assert forall|a: int, b: int| 0 <= a < b < other.len() implies key_le(
                key(other[a]),
                key(other[b]),
            ) by {
                assert(other[a] == v[a] && other[b] == v[b]);
            }
        }
        assert(tie_free(front, key)) by {
            assert forall|a: int, b: int|
                0 <= a < front.len() && 0 <= b < front.len() && key(front[a]) == key(
                    front[b],
                ) implies front[a] == front[b] by {
                assert(front[a] == u[a] && front[b] == u[b]);
            }
        }
        lemma_sorted_unique(front, other, key);
        assert(u =~= front.push(x));
        assert(v =~= other.push(y));
    } else {
        assert(u =~= v);
    }
}

/// The order of a list makes no difference to the sorted list, where the
/// order tells the items apart.
pub proof fn lemma_sort_unique<A>(s: Seq<A>, t: Seq<A>, key: spec_fn(A) -> (int, nat))
    requires
        s.to_multiset() == t.to_multiset(),
        tie_free(s, key),
    ensures
        sort_by(s, key) == sort_by(t, key),
{
    broadcast use vstd::seq_lib::group_to_multiset_ensures;

    let u = sort_by(s, key);
    let v = sort_by(t, key);
    u.to_multiset_ensures();
    s.to_multiset_ensures();
    lemma_sort_multiset(s, key);
    lemma_sort_multiset(t, key);
    lemma_sort_sorted(s, key);
    lemma_sort_sorted(t, key);
    assert(tie_free(u, key)) by {
        assert forall|a: int, b: int|
            0 <= a < u.len() && 0 <= b < u.len() && key(u[a]) == key(u[b]) implies u[a]
            == u[b] by {
            assert(u.contains(u[a]));
            assert(u.contains(u[b]));
            assert(s.to_multiset().count(u[a]) > 0);
            assert(s.to_multiset().count(u[b]) > 0);
            assert(s.contains(u[a]));
            assert(s.contains(u[b]));
            let i = choose|i: int| 0 <= i < s.len() && s[i] == u[a];
            let j = choose|j: int| 0 <= j < s.len() && s[j] == u[b];
            assert(key(s[i]) == key(s[j]));
        }
    }
    lemma_sorted_unique(u, v, key);
}

} // verus!
