//! Mathematical vocabulary for declarations under names: a sequence of
//! pairs of a name and a value, in the order of declaration, and the map from
//! each name to its values that such a sequence amounts to.

use vstd::prelude::*;

verus! {

/// The values that `pairs` declares under `name`, in the order of
/// declaration.
pub open spec fn values_under<V>(pairs: Seq<(Seq<char>, V)>, name: Seq<char>) -> Seq<V>
    decreases pairs.len(),
{
    if pairs.len() == 0 {
        Seq::empty()
    } else {
        let earlier = values_under(pairs.drop_last(), name);
        if pairs.last().0 == name {
            earlier.push(pairs.last().1)
        } else {
            earlier
        }
    }
}

/// The values that `map` holds under `name`; none where the name is absent.
pub open spec fn values_of<V>(map: Map<Seq<char>, Seq<V>>, name: Seq<char>) -> Seq<V> {
    if map.dom().contains(name) {
        map[name]
    } else {
        Seq::empty()
    }
}

/// `map` after one more value under `name`: the values already there stay,
/// in their order, and the new one follows them.
pub open spec fn appended<V>(map: Map<Seq<char>, Seq<V>>, name: Seq<char>, value: V) -> Map<
    Seq<char>,
    Seq<V>,
> {
    map.insert(name, values_of(map, name).push(value))
}

/// The map that a sequence of declarations amounts to: each declared name,
/// with its values in the order of declaration.
pub open spec fn collected<V>(pairs: Seq<(Seq<char>, V)>) -> Map<Seq<char>, Seq<V>> {
    Map::new(
        |name: Seq<char>| values_under(pairs, name).len() > 0,
        |name: Seq<char>| values_under(pairs, name),
    )
}

/// One more declaration adds its value under its own name and nothing else.
pub proof fn lemma_values_under_push<V>(
    pairs: Seq<(Seq<char>, V)>,
    name: Seq<char>,
    value: V,
    other: Seq<char>,
)
    ensures
        values_under(pairs.push((name, value)), other) == if other == name {
            values_under(pairs, other).push(value)
        } else {
            values_under(pairs, other)
        },
{
    assert(pairs.push((name, value)).drop_last() =~= pairs);
}

/// Two values declared under one name are both kept, behind the values
/// that the name had, in the order in which they were declared.
pub proof fn lemma_both_values_kept<V>(
    pairs: Seq<(Seq<char>, V)>,
    name: Seq<char>,
    first: V,
    second: V,
)
    ensures
        values_under(pairs.push((name, first)).push((name, second)), name) == values_under(
            pairs,
            name,
        ).push(first).push(second),
        collected(pairs.push((name, first)).push((name, second)))[name] == values_of(
            collected(pairs),
            name,
        ).push(first).push(second),
{
    lemma_values_under_push(pairs, name, first, name);
    lemma_values_under_push(pairs.push((name, first)), name, second, name);
}

/// Collecting one more declaration appends its value to the collected map.
pub proof fn lemma_collected_push<V>(pairs: Seq<(Seq<char>, V)>, name: Seq<char>, value: V)
    ensures
        collected(pairs.push((name, value))) == appended(collected(pairs), name, value),
{
    let longer = collected(pairs.push((name, value)));
    let direct = appended(collected(pairs), name, value);
    assert forall|other: Seq<char>| #[trigger]
        longer.dom().contains(other) <==> direct.dom().contains(other) by {
        lemma_values_under_push(pairs, name, value, other);
    }
    assert forall|other: Seq<char>| #[trigger] longer.dom().contains(other) implies longer[other]
        == direct[other] by {
        lemma_values_under_push(pairs, name, value, other);
    }
}

} // verus!
