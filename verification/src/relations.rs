//! The relation map: one `Links` value per relation name, kept in the
//! lexicographic order of the names.

use crate::links::{Link, LinkView, Links, LinksView};
use crate::multimap::{lemma_values_under_push, values_under};
use crate::order::{
    compare, lemma_lex_lt_asymmetric, lemma_lex_lt_irreflexive, lemma_lex_lt_transitive, lex_lt,
    Position,
};
use vstd::prelude::*;

verus! {

/// A relation map after one more link is declared under `name`: a name that
/// was absent gets the link alone, a name that was present gets it appended
/// to its links. No other name changes.
pub open spec fn declared(
    relations: Map<Seq<char>, LinksView>,
    name: Seq<char>,
    link: LinkView,
) -> Map<Seq<char>, LinksView> {
    if relations.dom().contains(name) {
        relations.insert(name, relations[name].push(link))
    } else {
        relations.insert(name, LinksView::Single(link))
    }
}

/// The shape in which the links of one relation are held: one link alone,
/// or the list of them.
pub open spec fn shape_of(targets: Seq<LinkView>) -> LinksView {
    if targets.len() == 1 {
        LinksView::Single(targets[0])
    } else {
        LinksView::Multiple(targets)
    }
}

/// The relation map that a sequence of declarations amounts to. A name is
/// there exactly if a link was declared under it; it holds the links that
/// were declared under it, in the order of declaration, whatever was
/// declared under other names in between.
pub open spec fn relations_of(declarations: Seq<(Seq<char>, LinkView)>) -> Map<
    Seq<char>,
    LinksView,
> {
    Map::new(
        |name: Seq<char>| values_under(declarations, name).len() > 0,
        |name: Seq<char>| shape_of(values_under(declarations, name)),
    )
}

/// The views of declared links, one for one.
pub open spec fn declaration_views(links: Seq<(String, Link)>) -> Seq<(Seq<char>, LinkView)> {
    Seq::new(links.len(), |i: int| (links[i].0@, links[i].1@))
}

/// A list of links holds two links or more: one link stands alone.
pub open spec fn well_shaped(links: LinksView) -> bool {
    links matches LinksView::Multiple(targets) ==> targets.len() >= 2
}

/// Each name comes strictly before every later one.
pub open spec fn names_increase(entries: Seq<(Seq<char>, LinksView)>) -> bool {
    forall|i: int, j: int|
        0 <= i < j < entries.len() ==> lex_lt(#[trigger] entries[i].0, #[trigger] entries[j].0)
}

/// The links of every entry are well shaped.
pub open spec fn shapes_fit(entries: Seq<(Seq<char>, LinksView)>) -> bool {
    forall|i: int| 0 <= i < entries.len() ==> well_shaped(#[trigger] entries[i].1)
}

/// `name` is the name of the entry at `i`.
pub open spec fn names_entry(
    entries: Seq<(Seq<char>, LinksView)>,
    name: Seq<char>,
    i: int,
) -> bool {
    0 <= i < entries.len() && entries[i].0 == name
}

/// The map that a sequence of named entries stands for.
pub open spec fn relation_map(entries: Seq<(Seq<char>, LinksView)>) -> Map<Seq<char>, LinksView> {
    Map::new(
        |name: Seq<char>| exists|i: int| names_entry(entries, name, i),
        |name: Seq<char>| entries[choose|i: int| names_entry(entries, name, i)].1,
    )
}

/// The links under every name are well shaped.
pub open spec fn relations_well_shaped(relations: Map<Seq<char>, LinksView>) -> bool {
    forall|name: Seq<char>| #[trigger]
        relations.dom().contains(name) ==> well_shaped(relations[name])
}

/// The views of stored entries, one for one.
pub open spec fn entry_views(entries: Seq<(String, Links)>) -> Seq<(Seq<char>, LinksView)> {
    Seq::new(entries.len(), |i: int| (entries[i].0@, entries[i].1@))
}

/// A map from relation name to the links declared under it.
///
/// Names are exact, case-sensitive keys. The entries are kept in the
/// lexicographic order of their names, whatever the order of declaration.
#[derive(Debug)]
pub struct RelationMap {
    entries: Vec<(String, Links)>,
}

impl View for RelationMap {
    type V = Map<Seq<char>, LinksView>;

    closed spec fn view(&self) -> Map<Seq<char>, LinksView> {
        relation_map(self.ordered())
    }
}

impl RelationMap {
    /// The names with their links, in the order in which they are kept.
    pub closed spec fn ordered(&self) -> Seq<(Seq<char>, LinksView)> {
        entry_views(self.entries@)
    }

    /// What holds of every relation map: its names are kept in strictly
    /// increasing lexicographic order, and the links of each are well
    /// shaped.
    #[verifier::type_invariant]
    pub open spec fn well_formed(self) -> bool {
        names_increase(self.ordered()) && shapes_fit(self.ordered())
    }

    /// A map without relations.
    pub fn new() -> (relations: RelationMap)
        ensures
            (relations@ == Map::<Seq<char>, LinksView>::empty()),
            relations.ordered() == Seq::<(Seq<char>, LinksView)>::empty(),
    {
        let relations = RelationMap { entries: Vec::new() };
        relations
    }

    /// Where `name` stands among the entries: the index of its entry if it
    /// has one, else the index at which it would have to be put.
    fn locate(entries: &Vec<(String, Links)>, name: &str) -> (place: (usize, bool))
        ensures
            place.0 <= entries.len(),
            forall|j: int| 0 <= j < place.0 ==> lex_lt(#[trigger] entries[j].0@, name@),
            place.1 ==> place.0 < entries.len() && entries[place.0 as int].0@ == name@,
            !place.1 && place.0 < entries.len() ==> lex_lt(name@, entries[place.0 as int].0@),
    {
        let mut i: usize = 0;
        while i < entries.len()
            invariant
                i <= entries.len(),
                forall|j: int| 0 <= j < i ==> lex_lt(#[trigger] entries[j].0@, name@),
            decreases entries.len() - i,
        {
            match compare(name, entries[i].0.as_str()) {
                Position::After => {
                    i += 1;
                },
                Position::Same => {
                    return (i, true);
                },
                Position::Before => {
                    return (i, false);
                },
            }
        }
        (i, false)
    }

    /// Declare one more link under `name`. A name that has no links yet gets
    /// this one alone; a name that has links gets it appended to them.
    pub fn add(&mut self, name: &str, link: Link)
        ensures
            final(self)@ == declared(old(self)@, name@, link@),
    {
        proof {
            use_type_invariant(&*self);
        }
        let mut entries: Vec<(String, Links)> = Vec::new();
        std::mem::swap(&mut entries, &mut self.entries);
        let ghost before = entry_views(entries@);
        let (at, present) = Self::locate(&entries, name);
        if present {
            let (key, links) = entries.remove(at);
            let grown = links.push(link);
            proof {
                lemma_relation_map_at(before, at as int);
                lemma_update_entry(before, at as int, grown@);
            }
            entries.insert(at, (key, grown));
            assert(entry_views(entries@) =~= before.update(at as int, (name@, grown@)));
        } else {
            proof {
                lemma_insert_entry(before, at as int, name@, LinksView::Single(link@));
            }
            entries.insert(at, (name.to_owned(), Links::Single(link)));
            assert(entry_views(entries@) =~= before.insert(
                at as int,
                (name@, LinksView::Single(link@)),
            ));
        }
        self.entries = entries;
    }

    /// The links declared under `name`, if there are any.
    pub fn get(&self, name: &str) -> (links: Option<&Links>)
        ensures
            links is Some <==> self@.dom().contains(name@),
            links matches Some(found) ==> found@ == self@[name@] && well_shaped(found@),
    {
        proof {
            use_type_invariant(self);
        }
        let (at, present) = Self::locate(&self.entries, name);
        proof {
            if present {
                lemma_relation_map_at(self.ordered(), at as int);
            } else {
                lemma_absent(self.ordered(), at as int, name@);
            }
        }
        if present {
            Some(&self.entries[at].1)
        } else {
            None
        }
    }

    /// The number of relations.
    pub fn len(&self) -> (count: usize)
        ensures
            count == self@.dom().len(),
            count == self.ordered().len(),
    {
        proof {
            use_type_invariant(self);
            lemma_count(self.ordered());
        }
        self.entries.len()
    }

    /// The relations with their links, in the lexicographic order of the
    /// names.
    pub fn entries(&self) -> (entries: &Vec<(String, Links)>)
        ensures
            entry_views(entries@) == self.ordered(),
            self@ == relation_map(self.ordered()),
            names_increase(self.ordered()),
            shapes_fit(self.ordered()),
    {
        proof {
            use_type_invariant(self);
        }
        &self.entries
    }

    /// Two relation maps that hold the same relations keep them in the same
    /// order, whatever the order in which each was declared.
    pub proof fn lemma_same_relations_same_order(self, other: RelationMap)
        requires
            self.well_formed(),
            other.well_formed(),
            self@ == other@,
        ensures
            self.ordered() == other.ordered(),
    {
        lemma_order_fixed_by_contents(self.ordered(), other.ordered());
    }
}

/// Declaring one more link is one step of `declared`.
pub proof fn lemma_relations_of_push(
    declarations: Seq<(Seq<char>, LinkView)>,
    name: Seq<char>,
    link: LinkView,
)
    ensures
        relations_of(declarations.push((name, link))) == declared(
            relations_of(declarations),
            name,
            link,
        ),
{
    let before = relations_of(declarations);
    let after = relations_of(declarations.push((name, link)));
    let stepped = declared(before, name, link);
    assert forall|other: Seq<char>| #[trigger]
        after.dom().contains(other) <==> stepped.dom().contains(other) by {
        lemma_values_under_push(declarations, name, link, other);
    }
    assert forall|other: Seq<char>| #[trigger] after.dom().contains(other) implies after[other]
        == stepped[other] by {
        lemma_values_under_push(declarations, name, link, other);
        if other == name {
            let earlier = values_under(declarations, name);
            if earlier.len() == 1 {
                assert(seq![earlier[0]] =~= earlier);
            }
        }
    }
}

/// The first link declared under a name stands alone. The second makes a
/// list of the two, the first one first, and the third follows them.
pub proof fn lemma_links_accumulate(
    relations: Map<Seq<char>, LinksView>,
    name: Seq<char>,
    first: LinkView,
    second: LinkView,
    third: LinkView,
)
    requires
        !relations.dom().contains(name),
    ensures
        declared(relations, name, first)[name] == LinksView::Single(first),
        declared(declared(relations, name, first), name, second)[name] == LinksView::Multiple(
            seq![first, second],
        ),
        declared(declared(declared(relations, name, first), name, second), name, third)[name]
            == LinksView::Multiple(seq![first, second, third]),
{
    assert(seq![first].push(second) =~= seq![first, second]);
    assert(seq![first, second].push(third) =~= seq![first, second, third]);
}

/// Declaring a link under one name leaves every other name as it was:
/// absent if it was absent, and with the same links if it was present.
pub proof fn lemma_relations_independent(
    relations: Map<Seq<char>, LinksView>,
    name: Seq<char>,
    link: LinkView,
    other: Seq<char>,
)
    requires
        other != name,
    ensures
        declared(relations, name, link).dom().contains(other) == relations.dom().contains(other),
        relations.dom().contains(other) ==> declared(relations, name, link)[other]
            == relations[other],
{
}

/// Links under two different names can be declared in either order: the
/// relation map is the same.
pub proof fn lemma_declaration_order_irrelevant(
    relations: Map<Seq<char>, LinksView>,
    name: Seq<char>,
    link: LinkView,
    other_name: Seq<char>,
    other_link: LinkView,
)
    requires
        name != other_name,
    ensures
        declared(declared(relations, name, link), other_name, other_link) == declared(
            declared(relations, other_name, other_link),
            name,
            link,
        ),
{
    assert(declared(declared(relations, name, link), other_name, other_link) =~= declared(
        declared(relations, other_name, other_link),
        name,
        link,
    ));
}

/// In an increasing sequence each name occurs once, so the map holds under
/// it what the sequence holds beside it.
pub proof fn lemma_relation_map_at(entries: Seq<(Seq<char>, LinksView)>, i: int)
    requires
        names_increase(entries),
        0 <= i < entries.len(),
    ensures
        relation_map(entries).dom().contains(entries[i].0),
        relation_map(entries)[entries[i].0] == entries[i].1,
{
    assert(names_entry(entries, entries[i].0, i));
    lemma_lex_lt_irreflexive(entries[i].0);
}

/// A name that stands between two neighbours of an increasing sequence is
/// not in it.
pub proof fn lemma_absent(entries: Seq<(Seq<char>, LinksView)>, at: int, name: Seq<char>)
    requires
        names_increase(entries),
        0 <= at <= entries.len(),
        forall|j: int| 0 <= j < at ==> lex_lt(#[trigger] entries[j].0, name),
        at < entries.len() ==> lex_lt(name, entries[at].0),
    ensures
        forall|j: int| at <= j < entries.len() ==> lex_lt(name, #[trigger] entries[j].0),
        !relation_map(entries).dom().contains(name),
{
    assert forall|j: int| at <= j < entries.len() implies lex_lt(name, #[trigger] entries[j].0) by {
        if j > at {
            lemma_lex_lt_transitive(name, entries[at].0, entries[j].0);
        }
    }
    lemma_lex_lt_irreflexive(name);
    assert(forall|k: int| !names_entry(entries, name, k));
}

/// Putting a new name at its place in the order keeps the order, and adds
/// exactly that name to the map.
pub proof fn lemma_insert_entry(
    entries: Seq<(Seq<char>, LinksView)>,
    at: int,
    name: Seq<char>,
    links: LinksView,
)
    requires
        names_increase(entries),
        0 <= at <= entries.len(),
        forall|j: int| 0 <= j < at ==> lex_lt(#[trigger] entries[j].0, name),
        at < entries.len() ==> lex_lt(name, entries[at].0),
    ensures
        names_increase(entries.insert(at, (name, links))),
        !relation_map(entries).dom().contains(name),
        relation_map(entries.insert(at, (name, links))) == relation_map(entries).insert(
            name,
            links,
        ),
{
    let longer = entries.insert(at, (name, links));
    lemma_absent(entries, at, name);
    assert forall|i: int, j: int| 0 <= i < j < longer.len() implies lex_lt(
        #[trigger] longer[i].0,
        #[trigger] longer[j].0,
    ) by {
        if i < at && j > at {
            lemma_lex_lt_transitive(entries[i].0, name, entries[j - 1].0);
        }
    }
    let before = relation_map(entries);
    let after = relation_map(longer);
    assert forall|other: Seq<char>| #[trigger]
        after.dom().contains(other) <==> before.insert(name, links).dom().contains(other) by {
        if other == name {
            assert(names_entry(longer, other, at));
        } else {
            if before.dom().contains(other) {
                let k = choose|k: int| names_entry(entries, other, k);
                assert(names_entry(longer, other, if k < at { k } else { k + 1 }));
            }
            if after.dom().contains(other) {
                let k = choose|k: int| names_entry(longer, other, k);
                assert(names_entry(entries, other, if k < at { k } else { k - 1 }));
            }
        }
    }
    assert forall|other: Seq<char>| #[trigger] after.dom().contains(other) implies after[other]
        == before.insert(name, links)[other] by {
        let k = choose|k: int| names_entry(longer, other, k);
        lemma_relation_map_at(longer, k);
        if other != name {
            lemma_relation_map_at(entries, if k < at { k } else { k - 1 });
        }
    }
}

/// Replacing the links beside a name keeps the order, and changes the map
/// under that name only.
pub proof fn lemma_update_entry(entries: Seq<(Seq<char>, LinksView)>, at: int, links: LinksView)
    requires
        names_increase(entries),
        0 <= at < entries.len(),
    ensures
        names_increase(entries.update(at, (entries[at].0, links))),
        relation_map(entries.update(at, (entries[at].0, links))) == relation_map(entries).insert(
            entries[at].0,
            links,
        ),
{
    let name = entries[at].0;
    let changed = entries.update(at, (name, links));
    assert(names_increase(changed));
    let before = relation_map(entries);
    let after = relation_map(changed);
    assert forall|other: Seq<char>| #[trigger]
        after.dom().contains(other) <==> before.insert(name, links).dom().contains(other) by {
        if other == name {
            assert(names_entry(changed, other, at));
        } else {
            if before.dom().contains(other) {
                let k = choose|k: int| names_entry(entries, other, k);
                assert(names_entry(changed, other, k));
            }
            if after.dom().contains(other) {
                let k = choose|k: int| names_entry(changed, other, k);
                assert(names_entry(entries, other, k));
            }
        }
    }
    assert forall|other: Seq<char>| #[trigger] after.dom().contains(other) implies after[other]
        == before.insert(name, links)[other] by {
        let k = choose|k: int| names_entry(changed, other, k);
        lemma_relation_map_at(changed, k);
        if other != name {
            lemma_relation_map_at(entries, k);
        }
    }
}

/// Without its first entry an increasing sequence still increases, and
/// stands for the map without the first name.
pub proof fn lemma_rest_of_entries(entries: Seq<(Seq<char>, LinksView)>)
    requires
        names_increase(entries),
        entries.len() > 0,
    ensures
        names_increase(entries.drop_first()),
        relation_map(entries.drop_first()) == relation_map(entries).remove(entries[0].0),
{
    let rest = entries.drop_first();
    assert(names_increase(rest));
    let whole = relation_map(entries).remove(entries[0].0);
    let part = relation_map(rest);
    lemma_lex_lt_irreflexive(entries[0].0);
    assert forall|name: Seq<char>| #[trigger]
        part.dom().contains(name) <==> whole.dom().contains(name) by {
        if part.dom().contains(name) {
            let k = choose|k: int| names_entry(rest, name, k);
            assert(names_entry(entries, name, k + 1));
        }
        if whole.dom().contains(name) {
            let k = choose|k: int| names_entry(entries, name, k);
            assert(names_entry(rest, name, k - 1));
        }
    }
    assert forall|name: Seq<char>| #[trigger] part.dom().contains(name) implies part[name]
        == whole[name] by {
        let k = choose|k: int| names_entry(rest, name, k);
        lemma_relation_map_at(rest, k);
        lemma_relation_map_at(entries, k + 1);
    }
}

/// An increasing sequence stands for a map of as many names as it has
/// entries.
pub proof fn lemma_count(entries: Seq<(Seq<char>, LinksView)>)
    requires
        names_increase(entries),
    ensures
        relation_map(entries).dom().finite(),
        relation_map(entries).dom().len() == entries.len(),
    decreases entries.len(),
{
    let names = relation_map(entries).dom();
    if entries.len() == 0 {
        assert(names =~= Set::empty());
    } else {
        lemma_rest_of_entries(entries);
        lemma_count(entries.drop_first());
        lemma_relation_map_at(entries, 0);
    }
}

/// Two increasing sequences that stand for the same map are the same
/// sequence: the order of the entries is fixed by what the map holds, not by
/// the order in which it was declared.
pub proof fn lemma_order_fixed_by_contents(
    first: Seq<(Seq<char>, LinksView)>,
    second: Seq<(Seq<char>, LinksView)>,
)
    requires
        names_increase(first),
        names_increase(second),
        relation_map(first) == relation_map(second),
    ensures
        first == second,
    decreases first.len(),
{
    if first.len() == 0 {
        if second.len() > 0 {
            lemma_relation_map_at(second, 0);
        }
    } else {
        lemma_relation_map_at(first, 0);
        lemma_relation_map_at(second, choose|k: int| names_entry(second, first[0].0, k));
        lemma_relation_map_at(second, 0);
        let in_second = choose|k: int| names_entry(second, first[0].0, k);
        let in_first = choose|k: int| names_entry(first, second[0].0, k);
        if in_second > 0 {
            lemma_lex_lt_irreflexive(first[0].0);
            if in_first > 0 {
                lemma_lex_lt_asymmetric(first[0].0, second[0].0);
            }
        }
        lemma_rest_of_entries(first);
        lemma_rest_of_entries(second);
        lemma_order_fixed_by_contents(first.drop_first(), second.drop_first());
        assert(second =~= seq![second[0]] + second.drop_first());
    }
}

} // verus!
