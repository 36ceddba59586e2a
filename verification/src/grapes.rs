//! The grapes of each wine: a many-to-many relation that is only ever
//! replaced as a whole, never edited link by link.

use vstd::prelude::*;
use crate::text::{lowercased, lowered_chars, occurs_at, starts_with_folded, starts_with_lowered, text_equal};

verus! {

/// One link between a wine and a grape varietal, the grape being known by
/// its name.
#[derive(Debug)]
pub struct Link {
    pub wine_id: i64,
    pub grape: String,
}

/// What a link holds, as a mathematical value.
pub struct LinkView {
    pub wine_id: i64,
    pub grape: Seq<char>,
}

impl View for Link {
    type V = LinkView;

    open spec fn view(&self) -> LinkView {
        LinkView { wine_id: self.wine_id, grape: self.grape@ }
    }
}

/// The values that a list of links holds, in order.
pub open spec fn link_views(links: Seq<Link>) -> Seq<LinkView> {
    links.map_values(|l: Link| l@)
}

/// The texts that a list of strings holds, in order.
pub open spec fn texts(names: Seq<String>) -> Seq<Seq<char>> {
    names.map_values(|s: String| s@)
}

/// The links of the wine `wine_id`, in order.
pub open spec fn links_of(links: Seq<LinkView>, wine_id: i64) -> Seq<LinkView> {
    links.filter(|l: LinkView| l.wine_id == wine_id)
}

/// The links of other wines than `wine_id`, in order.
pub open spec fn links_without(links: Seq<LinkView>, wine_id: i64) -> Seq<LinkView> {
    links.filter(|l: LinkView| l.wine_id != wine_id)
}

/// The names of the grapes of the wine `wine_id`, in order.
pub open spec fn grapes_of(links: Seq<LinkView>, wine_id: i64) -> Seq<Seq<char>> {
    links_of(links, wine_id).map_values(|l: LinkView| l.grape)
}

/// The links that give the wine `wine_id` the grapes `names`.
pub open spec fn links_for(wine_id: i64, names: Seq<Seq<char>>) -> Seq<LinkView> {
    names.map_values(|name: Seq<char>| LinkView { wine_id, grape: name })
}

/// The relation after the grapes of the wine `wine_id` were replaced by
/// `names`: every link of the wine is gone, whatever it was, and the new
/// links stand at the end.
pub open spec fn replaced(links: Seq<LinkView>, wine_id: i64, names: Seq<Seq<char>>) -> Seq<LinkView> {
    links_without(links, wine_id) + links_for(wine_id, names)
}

/// Whether one of the grapes begins with `prefix`, upper and lower case
/// being taken for the same.
pub open spec fn some_grape_starts_with(grapes: Seq<Seq<char>>, prefix: Seq<char>) -> bool {
    exists|i: int| 0 <= i < grapes.len() && starts_with_folded(#[trigger] grapes[i], prefix)
}

/// The links of a wine within a concatenation are its links within the
/// parts.
pub proof fn lemma_links_of_concat(a: Seq<LinkView>, b: Seq<LinkView>, wine_id: i64)
    ensures
        links_of(a + b, wine_id) == links_of(a, wine_id) + links_of(b, wine_id),
        links_without(a + b, wine_id) == links_without(a, wine_id) + links_without(b, wine_id),
    decreases b.len(),
{
    reveal(Seq::filter);
    if b.len() == 0 {
        assert(a + b =~= a);
        assert(links_of(a, wine_id) + links_of(b, wine_id) =~= links_of(a, wine_id));
        assert(links_without(a, wine_id) + links_without(b, wine_id) =~= links_without(a, wine_id));
    } else {
        lemma_links_of_concat(a, b.drop_last(), wine_id);
        assert((a + b).drop_last() =~= a + b.drop_last());
        assert((a + b).last() == b.last());
        if b.last().wine_id == wine_id {
            assert((links_of(a, wine_id) + links_of(b.drop_last(), wine_id)).push(b.last()) =~= links_of(
                a,
                wine_id,
            ) + links_of(b.drop_last(), wine_id).push(b.last()));
        } else {
            assert((links_without(a, wine_id) + links_without(b.drop_last(), wine_id)).push(b.last())
                =~= links_without(a, wine_id) + links_without(b.drop_last(), wine_id).push(b.last()));
        }
    }
}

/// Once the links of a wine are taken out, the wine has none, and every
/// other wine has the links it had.
pub proof fn lemma_links_without(links: Seq<LinkView>, removed: i64, wine_id: i64)
    ensures
        links_of(links_without(links, removed), wine_id) == (if wine_id == removed {
            Seq::<LinkView>::empty()
        } else {
            links_of(links, wine_id)
        }),
    decreases links.len(),
{
    reveal(Seq::filter);
    if links.len() > 0 {
        lemma_links_without(links.drop_last(), removed, wine_id);
        if links.last().wine_id != removed {
            let kept = links_without(links.drop_last(), removed);
            assert(kept.push(links.last()).drop_last() =~= kept);
        }
    }
}

/// The links made for a wine are all its own.
pub proof fn lemma_links_for(owner: i64, names: Seq<Seq<char>>, wine_id: i64)
    ensures
        links_of(links_for(owner, names), wine_id) == (if wine_id == owner {
            links_for(owner, names)
        } else {
            Seq::<LinkView>::empty()
        }),
        links_without(links_for(owner, names), owner) == Seq::<LinkView>::empty(),
    decreases names.len(),
{
    reveal(Seq::filter);
    if names.len() > 0 {
        lemma_links_for(owner, names.drop_last(), wine_id);
        assert(links_for(owner, names).drop_last() =~= links_for(owner, names.drop_last()));
        if wine_id == owner {
            assert(links_for(owner, names.drop_last()).push(links_for(owner, names).last()) =~= links_for(
                owner,
                names,
            ));
        }
    } else {
        assert(links_for(owner, names) =~= Seq::<LinkView>::empty());
    }
}

/// Replacing the grapes of a wine gives the wine exactly the new grapes, in
/// the order given, and leaves the grapes of every other wine as they were.
pub proof fn lemma_replaced_grapes(links: Seq<LinkView>, owner: i64, names: Seq<Seq<char>>, wine_id: i64)
    ensures
        grapes_of(replaced(links, owner, names), wine_id) == (if wine_id == owner {
            names
        } else {
            grapes_of(links, wine_id)
        }),
{
    lemma_links_of_concat(links_without(links, owner), links_for(owner, names), wine_id);
    lemma_links_without(links, owner, wine_id);
    lemma_links_for(owner, names, wine_id);
    if wine_id == owner {
        assert(Seq::<LinkView>::empty() + links_for(owner, names) =~= links_for(owner, names));
        assert(links_for(owner, names).map_values(|l: LinkView| l.grape) =~= names);
    } else {
        assert(links_of(links, wine_id) + Seq::<LinkView>::empty() =~= links_of(links, wine_id));
    }
}

/// Replacing the grapes of a wine by an empty list is no empty gesture: it
/// leaves the wine without grapes, whatever it had before.
pub proof fn lemma_replaced_by_nothing(links: Seq<LinkView>, owner: i64)
    ensures
        grapes_of(replaced(links, owner, Seq::<Seq<char>>::empty()), owner) == Seq::<Seq<char>>::empty(),
        links_of(replaced(links, owner, Seq::<Seq<char>>::empty()), owner).len() == 0,
{
    lemma_replaced_grapes(links, owner, Seq::<Seq<char>>::empty(), owner);
}

/// Each link belongs to the wine `wine_id` or it does not: the two parts
/// together are as long as the list.
pub proof fn lemma_links_partition(links: Seq<LinkView>, wine_id: i64)
    ensures
        links_of(links, wine_id).len() + links_without(links, wine_id).len() == links.len(),
    decreases links.len(),
{
    reveal(Seq::filter);
    if links.len() > 0 {
        lemma_links_partition(links.drop_last(), wine_id);
    }
}

/// The relation between wines and grapes.
pub struct GrapeBook {
    links: Vec<Link>,
}

impl View for GrapeBook {
    type V = Seq<LinkView>;

    closed spec fn view(&self) -> Seq<LinkView> {
        link_views(self.links@)
    }
}

impl GrapeBook {
    /// A relation without links.
    pub fn new() -> (book: GrapeBook)
        ensures
            book@ == Seq::<LinkView>::empty(),
    {
        let book = GrapeBook { links: Vec::new() };
        proof {
            assert(book@ =~= Seq::<LinkView>::empty());
        }
        book
    }

    /// The number of links.
    pub fn len(&self) -> (n: usize)
        ensures
            n == self@.len(),
    {
        self.links.len()
    }

    /// A second relation with the same links.
    pub fn duplicate(&self) -> (copy: GrapeBook)
        ensures
            copy@ == self@,
    {
        let mut links: Vec<Link> = Vec::new();
        let n = self.links.len();
        let mut i: usize = 0;
        while i < n
            invariant
                i <= n,
                n == self.links@.len(),
                link_views(links@) =~= self@.take(i as int),
            decreases n - i,
        {
            let ghost before = link_views(links@);
            let link = Link { wine_id: self.links[i].wine_id, grape: self.links[i].grape.clone() };
            links.push(link);
            proof {
                assert(link_views(links@) =~= before.push(self.links@[i as int]@));
                assert(self@.take(i + 1) =~= self@.take(i as int).push(self@[i as int]));
            }
            i = i + 1;
        }
        proof {
            assert(self@.take(n as int) =~= self@);
        }
        GrapeBook { links }
    }

    /// Adds one link between a wine and a grape, behind all others.
    pub fn add(&mut self, wine_id: i64, grape: &str)
        ensures
            final(self)@ == old(self)@.push(LinkView { wine_id, grape: grape@ }),
    {
        let link = Link { wine_id, grape: grape.to_owned() };
        self.links.push(link);
        proof {
            assert(self@ =~= old(self)@.push(LinkView { wine_id, grape: grape@ }));
        }
    }

    /// The names of the grapes of one wine.
    pub fn grapes_for(&self, wine_id: i64) -> (names: Vec<String>)
        ensures
            texts(names@) == grapes_of(self@, wine_id),
    {
        let mut names: Vec<String> = Vec::new();
        let n = self.links.len();
        let mut i: usize = 0;
        proof {
            reveal(Seq::filter);
            assert(self@.take(0) =~= Seq::<LinkView>::empty());
            assert(texts(names@) =~= grapes_of(self@.take(0), wine_id));
        }
        while i < n
            invariant
                i <= n,
                n == self.links@.len(),
                texts(names@) == grapes_of(self@.take(i as int), wine_id),
            decreases n - i,
        {
            proof {
                reveal(Seq::filter);
                assert(self@.take(i + 1).drop_last() =~= self@.take(i as int));
                assert(self@.take(i + 1).last() == self.links@[i as int]@);
            }
            if self.links[i].wine_id == wine_id {
                let ghost before = texts(names@);
                let name = self.links[i].grape.clone();
                names.push(name);
                proof {
                    assert(texts(names@) =~= before.push(self.links@[i as int].grape@));
                    assert(grapes_of(self@.take(i + 1), wine_id) =~= grapes_of(self@.take(i as int), wine_id).push(
                        self.links@[i as int].grape@,
                    ));
                }
            }
            i = i + 1;
        }
        proof {
            assert(self@.take(n as int) =~= self@);
        }
        names
    }

    /// Removes every link of one wine and says how many there were.
    pub fn remove_wine(&mut self, wine_id: i64) -> (removed: usize)
        ensures
            final(self)@ == links_without(old(self)@, wine_id),
            removed == links_of(old(self)@, wine_id).len(),
    {
        let mut kept: Vec<Link> = Vec::new();
        let mut removed: usize = 0;
        let n = self.links.len();
        let mut i: usize = 0;
        proof {
            reveal(Seq::filter);
            assert(link_views(kept@) =~= Seq::<LinkView>::empty());
            assert(self@.take(0) =~= Seq::<LinkView>::empty());
        }
        while i < n
            invariant
                i <= n,
                n == self.links@.len(),
                link_views(kept@) == links_without(self@.take(i as int), wine_id),
                removed == links_of(self@.take(i as int), wine_id).len(),
                removed <= i,
            decreases n - i,
        {
            proof {
                reveal(Seq::filter);
                assert(self@.take(i + 1).drop_last() =~= self@.take(i as int));
                assert(self@.take(i + 1).last() == self.links@[i as int]@);
            }
            if self.links[i].wine_id == wine_id {
                removed = removed + 1;
            } else {
                let ghost before = link_views(kept@);
                let link = Link { wine_id: self.links[i].wine_id, grape: self.links[i].grape.clone() };
                kept.push(link);
                proof {
                    assert(link_views(kept@) =~= before.push(self.links@[i as int]@));
                }
            }
            i = i + 1;
        }
        proof {
            assert(self@.take(n as int) =~= self@);
        }
        self.links = kept;
        removed
    }

    /// Replaces the grapes of one wine by `names`: every link of the wine is
    /// removed, then one link is made for each name. An empty list clears
    /// the grapes of the wine.
    pub fn replace(&mut self, wine_id: i64, names: &Vec<String>)
        ensures
            final(self)@ == replaced(old(self)@, wine_id, texts(names@)),
    {
        self.remove_wine(wine_id);
        let ghost base = self@;
        let n = names.len();
        let mut i: usize = 0;
        proof {
            assert(base + links_for(wine_id, texts(names@).take(0)) =~= base);
        }
        while i < n
            invariant
                i <= n,
                n == names@.len(),
                self@ == base + links_for(wine_id, texts(names@).take(i as int)),
            decreases n - i,
        {
            let ghost before = self@;
            let link = Link { wine_id, grape: names[i].clone() };
            self.links.push(link);
            proof {
                assert(self@ =~= before.push(LinkView { wine_id, grape: names@[i as int]@ }));
                assert(base + links_for(wine_id, texts(names@).take(i + 1)) =~= (base + links_for(
                    wine_id,
                    texts(names@).take(i as int),
                )).push(LinkView { wine_id, grape: names@[i as int]@ }));
            }
            i = i + 1;
        }
        proof {
            assert(texts(names@).take(n as int) =~= texts(names@));
        }
    }
}

/// Whether one of the grapes begins with `prefix`, upper and lower case
/// being taken for the same.
pub fn has_grape_with_prefix(grapes: &Vec<String>, prefix: &str) -> (found: bool)
    ensures
        found == some_grape_starts_with(texts(grapes@), prefix@),
{
    let lowered = lowered_chars(prefix);
    let n = grapes.len();
    let mut i: usize = 0;
    while i < n
        invariant
            i <= n,
            n == grapes@.len(),
            lowered@ == lowercased(prefix@),
            forall|k: int| 0 <= k < i ==> !starts_with_folded(#[trigger] texts(grapes@)[k], prefix@),
        decreases n - i,
    {
        if starts_with_lowered(grapes[i].as_str(), &lowered) {
            proof {
                assert(starts_with_folded(texts(grapes@)[i as int], prefix@));
            }
            return true;
        }
        proof {
            assert(!occurs_at(lowercased(texts(grapes@)[i as int]), lowered@, 0));
        }
        i = i + 1;
    }
    false
}

/// One checkbox of the form on which the grapes of a wine are chosen.
#[derive(Debug)]
pub struct GrapeChoice {
    /// The name of a grape of the catalog.
    pub name: String,
    /// Whether the wine has this grape.
    pub checked: bool,
}

/// The checkbox for the grape `name`, given the grapes that the wine has.
pub open spec fn choice_of(name: Seq<char>, chosen: Seq<Seq<char>>) -> (Seq<char>, bool) {
    (name, chosen.contains(name))
}

/// The content of the checkboxes, in order.
pub open spec fn choice_views(choices: Seq<GrapeChoice>) -> Seq<(Seq<char>, bool)> {
    choices.map_values(|c: GrapeChoice| (c.name@, c.checked))
}

/// The form on which the grapes of a wine are chosen: one checkbox for
/// each grape of the catalog, checked if the wine has the grape.
pub fn grape_choices(catalog: &Vec<String>, chosen: &Vec<String>) -> (choices: Vec<GrapeChoice>)
    ensures
        choice_views(choices@) == texts(catalog@).map_values(|name: Seq<char>| choice_of(name, texts(chosen@))),
{
    let mut choices: Vec<GrapeChoice> = Vec::new();
    let n = catalog.len();
    let mut i: usize = 0;
    let ghost wanted = texts(catalog@).map_values(|name: Seq<char>| choice_of(name, texts(chosen@)));
    while i < n
        invariant
            i <= n,
            n == catalog@.len(),
            wanted == texts(catalog@).map_values(|name: Seq<char>| choice_of(name, texts(chosen@))),
            choice_views(choices@) =~= wanted.take(i as int),
        decreases n - i,
    {
        let ghost before = choice_views(choices@);
        let choice = GrapeChoice { name: catalog[i].clone(), checked: is_selected(chosen, catalog[i].as_str()) };
        let ghost added = (choice.name@, choice.checked);
        choices.push(choice);
        proof {
            assert(choice_views(choices@) =~= before.push(added));
            assert(wanted.take(i + 1) =~= wanted.take(i as int).push(wanted[i as int]));
        }
        i = i + 1;
    }
    proof {
        assert(wanted.take(n as int) =~= wanted);
    }
    choices
}

/// Whether `grape` is one of the names in `chosen`, letter for letter.
pub fn is_selected(chosen: &Vec<String>, grape: &str) -> (found: bool)
    ensures
        found == texts(chosen@).contains(grape@),
{
    let n = chosen.len();
    let mut i: usize = 0;
    while i < n
        invariant
            i <= n,
            n == chosen@.len(),
            forall|k: int| 0 <= k < i ==> texts(chosen@)[k] != grape@,
        decreases n - i,
    {
        if text_equal(chosen[i].as_str(), grape) {
            proof {
                assert(texts(chosen@)[i as int] == grape@);
            }
            return true;
        }
        i = i + 1;
    }
    false
}

} // verus!
