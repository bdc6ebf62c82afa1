//! Compounds: several polytopes taken together, each with its multiplicity.
use crate::algebra::{compound_of, find_part, flatten_parts, merge_parts};
use crate::model::{fits, measurable, NameView, valid};
use crate::name::{
    lemma_part_views, lemma_part_views_add, lemma_part_views_insert, lemma_part_views_push, Name,
    part_views,
};
use crate::order::{
    by_part, key_le, lemma_position_is, lemma_sort_all, lemma_sort_len, lemma_sort_push, name_key,
    sort_parts,
};
use crate::regime::NameType;
use crate::validity::lemma_compound_valid;
use vstd::prelude::*;

verus! {

/// Whether the rank and the facet count of a component can be told within
/// the limits of the machine, and those of each of its components where it
/// is a compound.
pub open spec fn measurable_part() -> spec_fn((nat, NameView)) -> bool {
    |p: (nat, NameView)|
        measurable(p.1) && match p.1 {
            NameView::Compound(inner) => forall|j: int|
                0 <= j < inner.len() ==> measurable((#[trigger] inner[j]).1),
            _ => true,
        }
}

/// Whether the compound of `parts` can be made within the limits of the
/// machine: the rank and the facet count of every component, and of every
/// component of a compound among them, must be within those limits, since
/// the components are sorted by them; and every multiplicity of the
/// compound must fit the machine's word.
pub open spec fn compound_ready(parts: Seq<(nat, NameView)>) -> bool {
    &&& forall|i: int| 0 <= i < parts.len() ==> measurable_part()(#[trigger] parts[i])
    &&& fits(compound_of(parts))
}

/// The components flattened from a prefix are those flattened from the
/// shorter prefix and what the component that follows it brings.
pub proof fn lemma_flatten_step(s: Seq<(nat, NameView)>, k: int)
    requires
        0 <= k < s.len(),
    ensures
        flatten_parts(s.take(k + 1)) == match s[k].1 {
            NameView::Compound(inner) => flatten_parts(s.take(k)) + inner,
            _ => flatten_parts(s.take(k)).push(s[k]),
        },
{
    assert(s.take(k + 1).drop_last() =~= s.take(k));
    assert(s.take(k + 1).last() == s[k]);
}

/// The components merged from a prefix are those merged from the shorter
/// prefix, with the component that follows it merged in.
pub proof fn lemma_merge_step(s: Seq<(nat, NameView)>, k: int)
    requires
        0 <= k < s.len(),
    ensures
        merge_parts(s.take(k + 1)) == {
            let rest = merge_parts(s.take(k));
            let j = find_part(rest, s[k].1);
            if 0 <= j < rest.len() {
                rest.update(j, (rest[j].0 + s[k].0, s[k].1))
            } else {
                rest.push(s[k])
            }
        },
{
    assert(s.take(k + 1).drop_last() =~= s.take(k));
    assert(s.take(k + 1).last() == s[k]);
}

/// The first place that holds a name is known from the places before it,
/// which do not hold it.
pub proof fn lemma_find_part_is(s: Seq<(nat, NameView)>, x: NameView, k: int)
    requires
        0 <= k <= s.len(),
        forall|j: int| 0 <= j < k ==> (#[trigger] s[j]).1 != x,
        k < s.len() ==> s[k].1 == x,
    ensures
        find_part(s, x) == k,
    decreases s.len(),
{
    if s.len() > 0 {
        if k < s.len() {
            lemma_find_part_is(s.drop_last(), x, k);
        } else {
            lemma_find_part_is(s.drop_last(), x, k - 1);
        }
    }
}

impl<T: NameType> Name<T> {
    /// Sorts the components of a compound: by rank, then by facet count,
    /// and otherwise in the order given.
    pub fn sort_components(parts: Vec<(usize, Name<T>)>) -> (r: Vec<(usize, Name<T>)>)
        requires
            forall|i: int|
                0 <= i < parts@.len() ==> measurable((#[trigger] part_views(parts@)[i]).1),
        ensures
            part_views(r@) == sort_parts(part_views(parts@)),
    {
        let ghost orig = parts@;
        let ghost all = part_views(parts@);
        let mut out: Vec<(usize, Name<T>)> = Vec::new();
        let mut keys: Vec<(isize, usize)> = Vec::new();
        proof {
            lemma_part_views(orig);
            assert(all.take(0) =~= Seq::<(nat, NameView)>::empty());
            assert(part_views(out@) =~= sort_parts(all.take(0)));
        }
        for part in it: parts.into_iter()
            invariant
                it.seq() == orig,
                all == part_views(orig),
                all.len() == orig.len(),
                forall|i: int| 0 <= i < orig.len() ==> measurable((#[trigger] all[i]).1),
                part_views(out@) == sort_parts(all.take(it.index() as int)),
                keys@.len() == out@.len(),
                forall|j: int|
                    0 <= j < out@.len() ==> ((#[trigger] keys@[j]).0 as int, keys@[j].1 as nat)
                        == name_key(out@[j].1@),
        {
            let ghost idx = it.index() as int;
            let ghost pv = (part.0 as nat, part.1@);
            proof {
                lemma_part_views(orig);
                assert(pv == all[idx]);
                assert(measurable(all[idx].1));
            }
            let key = part.1.sort_key();
            let ghost before = part_views(out@);
            let mut pos: usize = out.len();
            proof {
                lemma_part_views(out@);
            }
            while pos > 0 && !Self::key_le(keys[pos - 1], key)
                invariant
                    pos <= out@.len(),
                    keys@.len() == out@.len(),
                    before == part_views(out@),
                    before.len() == out@.len(),
                    (key.0 as int, key.1 as nat) == name_key(pv.1),
                    forall|j: int|
                        0 <= j < out@.len() ==> ((#[trigger] keys@[j]).0 as int, keys@[j].1 as nat)
                            == name_key(out@[j].1@),
                    forall|j: int|
                        pos <= j < before.len() ==> !key_le(
                            by_part()(#[trigger] before[j]),
                            by_part()(pv),
                        ),
                decreases pos,
            {
                proof {
                    lemma_part_views(out@);
                    assert(before[pos - 1] == (out@[pos - 1].0 as nat, out@[pos - 1].1@));
                }
                pos = pos - 1;
            }
            proof {
                lemma_part_views(out@);
                if pos > 0 {
                    assert(before[pos - 1] == (out@[pos - 1].0 as nat, out@[pos - 1].1@));
                }
                lemma_position_is(before, pv, by_part(), pos as int);
                lemma_part_views_insert(out@, pos as int, part);
                lemma_sort_push(all.take(idx), pv, by_part());
                assert(all.take(idx + 1) =~= all.take(idx).push(pv));
            }
            out.insert(pos, part);
            keys.insert(pos, key);
        }
        proof {
            assert(all.take(orig.len() as int) =~= all);
        }
        out
    }

    /// The components of a list, where the components of each compound of
    /// the list take its place.
    fn flatten_components(parts: Vec<(usize, Name<T>)>) -> (r: Vec<(usize, Name<T>)>)
        ensures
            part_views(r@) == flatten_parts(part_views(parts@)),
    {
        let ghost orig = parts@;
        let ghost all = part_views(parts@);
        let mut out: Vec<(usize, Name<T>)> = Vec::new();
        proof {
            lemma_part_views(orig);
            assert(all.take(0) =~= Seq::<(nat, NameView)>::empty());
            assert(part_views(out@) =~= flatten_parts(all.take(0)));
        }
        for part in it: parts.into_iter()
            invariant
                it.seq() == orig,
                all == part_views(orig),
                all.len() == orig.len(),
                part_views(out@) == flatten_parts(all.take(it.index() as int)),
        {
            let ghost idx = it.index() as int;
            let ghost before = out@;
            proof {
                lemma_part_views(orig);
                lemma_flatten_step(all, idx);
            }
            let (rep, name) = part;
            match name {
                Name::Compound(mut inner) => {
                    proof {
                        lemma_part_views_add(before, inner@);
                    }
                    out.append(&mut inner);
                },
                other => {
                    proof {
                        lemma_part_views_push(before, (rep, other));
                    }
                    out.push((rep, other));
                },
            }
        }
        proof {
            assert(all.take(orig.len() as int) =~= all);
        }
        out
    }

    /// Whether the rank and the facet count of every component, and of
    /// every component of a compound among them, can be told within the
    /// limits of the machine.
    fn parts_measurable(components: &Vec<(usize, Name<T>)>) -> (b: bool)
        ensures
            b == forall|i: int|
                0 <= i < components@.len() ==> measurable_part()(
                    #[trigger] part_views(components@)[i],
                ),
    {
        let ghost given = part_views(components@);
        let mut i: usize = 0;
        proof {
            lemma_part_views(components@);
        }
        while i < components.len()
            invariant
                i <= components.len(),
                given == part_views(components@),
                given.len() == components@.len(),
                forall|j: int| 0 <= j < i ==> measurable_part()(#[trigger] given[j]),
            decreases components.len() - i,
        {
            proof {
                lemma_part_views(components@);
            }
            if !components[i].1.is_measurable() {
                assert(!measurable_part()(given[i as int]));
                return false;
            }
            if let Name::Compound(inner) = &components[i].1 {
                let ghost within = part_views(inner@);
                let mut k: usize = 0;
                proof {
                    lemma_part_views(inner@);
                }
                while k < inner.len()
                    invariant
                        k <= inner.len(),
                        i < components.len(),
                        given == part_views(components@),
                        given.len() == components@.len(),
                        within == part_views(inner@),
                        within.len() == inner@.len(),
                        given[i as int].1 == NameView::Compound(within),
                        forall|j: int| 0 <= j < k ==> measurable((#[trigger] within[j]).1),
                    decreases inner.len() - k,
                {
                    proof {
                        lemma_part_views(inner@);
                    }
                    if !inner[k].1.is_measurable() {
                        assert(!measurable(within[k as int].1));
                        assert(!measurable_part()(given[i as int]));
                        return false;
                    }
                    k = k + 1;
                }
            }
            assert(measurable_part()(given[i as int]));
            i = i + 1;
        }
        true
    }

    /// Makes a compound out of a list of names, each with its
    /// multiplicity, or `None` where it cannot be made within the limits of
    /// the machine.
    pub fn checked_compound(components: Vec<(usize, Name<T>)>) -> (r: Option<Self>)
        ensures
            (r is Some) == compound_ready(part_views(components@)),
            r matches Some(n) ==> n@ == compound_of(part_views(components@)),
            r matches Some(n) ==> (components@.len() >= 1 && (forall|i: int|
                0 <= i < components@.len() ==> valid((#[trigger] part_views(components@)[i]).1))
                ==> valid(n@)),
    {
        let ghost given = part_views(components@);
        proof {
            lemma_part_views(components@);
            if components@.len() >= 1 && (forall|i: int|
                0 <= i < components@.len() ==> valid((#[trigger] given[i]).1)) {
                lemma_compound_valid(given);
            }
        }
        if !Self::parts_measurable(&components) {
            return None;
        }
        proof {
            assert forall|i: int| 0 <= i < components@.len() implies measurable(
                (#[trigger] given[i]).1,
            ) by {
                assert(measurable_part()(given[i]));
            }
        }
        let sorted = Self::sort_components(components);
        let ghost first = part_views(sorted@);
        proof {
            lemma_sort_all(given, by_part(), measurable_part());
        }
        let flat = Self::flatten_components(sorted);
        proof {
            Self::lemma_flat_measurable(first);
        }
        let again = Self::sort_components(flat);
        let ghost all = part_views(again@);
        let ghost orig = again@;
        // Merges the components of equal names.
        let mut reps: Vec<usize> = Vec::new();
        let mut names: Vec<Name<T>> = Vec::new();
        let mut over = false;
        let ghost mut witness: int = 0;
        proof {
            lemma_part_views(orig);
            assert(all.take(0) =~= Seq::<(nat, NameView)>::empty());
        }
        for part in it: again.into_iter()
            invariant
                it.seq() == orig,
                all == part_views(orig),
                all.len() == orig.len(),
                reps@.len() == names@.len(),
                merge_parts(all.take(it.index() as int)).len() == names@.len(),
                forall|j: int|
                    0 <= j < names@.len() ==> (#[trigger] merge_parts(
                        all.take(it.index() as int),
                    )[j]).1 == names@[j]@,
                !over ==> forall|j: int|
                    0 <= j < names@.len() ==> reps@[j] == (#[trigger] merge_parts(
                        all.take(it.index() as int),
                    )[j]).0,
                over ==> 0 <= witness < names@.len() && merge_parts(
                    all.take(it.index() as int),
                )[witness].0 > usize::MAX,
        {
            let ghost idx = it.index() as int;
            let ghost merged = merge_parts(all.take(idx));
            proof {
                lemma_part_views(orig);
                lemma_merge_step(all, idx);
            }
            let (rep, name) = part;
            let mut j: usize = 0;
            while j < names.len() && !names[j].same(&name)
                invariant
                    j <= names@.len(),
                    merged.len() == names@.len(),
                    forall|k: int| 0 <= k < names@.len() ==> (#[trigger] merged[k]).1 == names@[k]@,
                    forall|k: int| 0 <= k < j ==> (#[trigger] merged[k]).1 != name@,
                decreases names@.len() - j,
            {
                j = j + 1;
            }
            proof {
                lemma_find_part_is(merged, name@, j as int);
            }
            if j < names.len() {
                match reps[j].checked_add(rep) {
                    Some(v) => {
                        reps.set(j, v);
                    },
                    None => {
                        if !over {
                            over = true;
                            proof {
                                witness = j as int;
                            }
                        }
                    },
                }
            } else {
                reps.push(rep);
                names.push(name);
            }
        }
        proof {
            assert(all.take(orig.len() as int) =~= all);
        }
        let ghost merged = merge_parts(all);
        proof {
            assert(merged.len() == names@.len());
            assert(compound_of(given) == if merged.len() == 1 {
                merged[0].1
            } else {
                NameView::Compound(merged)
            });
        }
        if names.len() == 1 {
            let name = names.remove(0);
            proof {
                name.lemma_well_formed();
            }
            return Some(name);
        }
        if over {
            let ghost whole = NameView::Compound(merged);
            assert(whole->Compound_0 == merged);
            assert(!fits(whole)) by {
                if fits(whole) {
                    assert(merged[witness].0 <= usize::MAX);
                }
            }
            return None;
        }
        // Puts each name back with its multiplicity.
        let mut out: Vec<(usize, Name<T>)> = Vec::new();
        let ghost kept = names@;
        proof {
            assert(part_views(out@) =~= merged.take(0));
        }
        let mut k: usize = 0;
        for name in it: names.into_iter()
            invariant
                it.seq() == kept,
                k == it.index(),
                kept.len() <= usize::MAX,
                kept.len() == reps@.len(),
                merged.len() == kept.len(),
                forall|j: int| 0 <= j < kept.len() ==> (#[trigger] merged[j]).1 == kept[j]@,
                forall|j: int| 0 <= j < kept.len() ==> reps@[j] == (#[trigger] merged[j]).0,
                part_views(out@) == merged.take(it.index() as int),
        {
            let ghost idx = it.index() as int;
            assert(idx < kept.len());
            let rep = reps[k];
            proof {
                lemma_part_views_push(out@, (rep, name));
                assert(merged.take(idx + 1) =~= merged.take(idx).push(merged[idx]));
            }
            out.push((rep, name));
            k = k + 1;
        }
        proof {
            assert(merged.take(kept.len() as int) =~= merged);
        }
        let whole = Name::Compound(out);
        proof {
            whole.lemma_well_formed();
        }
        Some(whole)
    }

    /// Makes a compound out of a list of names, each with its
    /// multiplicity.
    pub fn compound(components: Vec<(usize, Name<T>)>) -> (r: Self)
        requires
            compound_ready(part_views(components@)),
        ensures
            r@ == compound_of(part_views(components@)),
            components@.len() >= 1 && (forall|i: int|
                0 <= i < components@.len() ==> valid((#[trigger] part_views(components@)[i]).1))
                ==> valid(r@),
    {
        match Self::checked_compound(components) {
            Some(name) => name,
            None => vstd::pervasive::unreached(),
        }
    }

    /// Flattening keeps every component measurable.
    proof fn lemma_flat_measurable(s: Seq<(nat, NameView)>)
        requires
            forall|i: int| 0 <= i < s.len() ==> measurable_part()(#[trigger] s[i]),
        ensures
            forall|i: int|
                0 <= i < flatten_parts(s).len() ==> measurable(
                    (#[trigger] flatten_parts(s)[i]).1,
                ),
        decreases s.len(),
    {
        if s.len() > 0 {
            let front = s.drop_last();
            assert forall|i: int| 0 <= i < front.len() implies measurable_part()(
                #[trigger] front[i],
            ) by {
                assert(front[i] == s[i]);
            }
            Self::lemma_flat_measurable(front);
            let rest = flatten_parts(front);
            assert(measurable_part()(s[s.len() - 1]));
            match s.last().1 {
                NameView::Compound(inner) => {
                    assert forall|i: int| 0 <= i < (rest + inner).len() implies measurable(
                        (#[trigger] (rest + inner)[i]).1,
                    ) by {
                        if i >= rest.len() {
                            assert((rest + inner)[i] == inner[i - rest.len()]);
                        } else {
                            assert((rest + inner)[i] == rest[i]);
                        }
                    }
                },
                _ => {
                    assert forall|i: int| 0 <= i < rest.push(s.last()).len() implies measurable(
                        (#[trigger] rest.push(s.last())[i]).1,
                    ) by {
                        if i < rest.len() {
                            assert(rest.push(s.last())[i] == rest[i]);
                        }
                    }
                },
            }
        }
    }
}

} // verus!
