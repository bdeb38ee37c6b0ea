//! A single hypermedia link, and the one-or-many links of a relation.

use vstd::prelude::*;

verus! {

/// A single HAL link: a target reference and an optional secondary name.
#[derive(Debug)]
pub struct Link {
    pub href: String,
    pub name: Option<String>,
}

/// What a [`Link`] says, as mathematical values.
pub struct LinkView {
    pub href: Seq<char>,
    pub name: Option<Seq<char>>,
}

impl View for Link {
    type V = LinkView;

    open spec fn view(&self) -> LinkView {
        LinkView {
            href: self.href@,
            name: match self.name {
                Some(n) => Some(n@),
                None => None,
            },
        }
    }
}

/// The links of one relation: exactly one, or an ordered list.
#[derive(Debug)]
pub enum Links {
    Single(Link),
    Multiple(Vec<Link>),
}

/// What a [`Links`] value says: its shape and its targets in order.
pub enum LinksView {
    Single(LinkView),
    Multiple(Seq<LinkView>),
}

impl LinksView {
    /// The targets in order, whatever the shape.
    pub open spec fn targets(self) -> Seq<LinkView> {
        match self {
            LinksView::Single(link) => seq![link],
            LinksView::Multiple(links) => links,
        }
    }

    /// Appending a link always yields the list shape: the targets so far,
    /// then the new one.
    pub open spec fn push(self, link: LinkView) -> LinksView {
        LinksView::Multiple(self.targets().push(link))
    }
}

/// The views of a sequence of links, element by element.
pub open spec fn link_views(links: Seq<Link>) -> Seq<LinkView> {
    Seq::new(links.len(), |i: int| links[i]@)
}

impl View for Links {
    type V = LinksView;

    open spec fn view(&self) -> LinksView {
        match self {
            Links::Single(link) => LinksView::Single(link@),
            Links::Multiple(links) => LinksView::Multiple(link_views(links@)),
        }
    }
}

impl Links {
    /// Append a link. A single link is promoted to the list of the two, the
    /// existing one first; a list grows at its end.
    pub fn push(self, new: Link) -> (updated: Links)
        ensures
            updated@ == self@.push(new@),
    {
        match self {
            Links::Single(first) => {
                let mut both: Vec<Link> = Vec::new();
                both.push(first);
                both.push(new);
                assert(link_views(both@) =~= seq![first@].push(new@));
                Links::Multiple(both)
            },
            Links::Multiple(mut previous) => {
                let ghost before = previous@;
                previous.push(new);
                assert(link_views(previous@) =~= link_views(before).push(new@));
                Links::Multiple(previous)
            },
        }
    }
}

impl Default for Link {
    fn default() -> (link: Link)
        ensures
            link@ == (LinkView { href: Seq::<char>::empty(), name: None }),
    {
        Link { href: String::new(), name: None }
    }
}

impl From<&str> for Link {
    /// A link to `href`, without a name.
    fn from(href: &str) -> (link: Link)
        ensures
            link@ == (LinkView { href: href@, name: None }),
    {
        Link { href: href.to_owned(), name: None }
    }
}

/// No spec function makes a `String` of a `&str`, so what `from` returns is
/// said by its own `ensures`, through the view.
impl vstd::std_specs::convert::FromSpecImpl<&str> for Link {
    open spec fn obeys_from_spec() -> bool {
        false
    }

    open spec fn from_spec(href: &str) -> Link {
        arbitrary()
    }
}

impl From<String> for Link {
    /// A link to `href`, without a name.
    fn from(href: String) -> (link: Link)
        ensures
            link@ == (LinkView { href: href@, name: None }),
    {
        Link { href, name: None }
    }
}

impl vstd::std_specs::convert::FromSpecImpl<String> for Link {
    open spec fn obeys_from_spec() -> bool {
        true
    }

    open spec fn from_spec(href: String) -> Link {
        Link { href, name: None }
    }
}

impl Clone for Link {
    fn clone(&self) -> (copy: Link)
        ensures
            copy@ == self@,
    {
        let name = match &self.name {
            Some(name) => Some(name.clone()),
            None => None,
        };
        Link { href: self.href.clone(), name }
    }
}

} // verus!
