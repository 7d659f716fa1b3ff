//! Jabber identifiers: `node@domain/resource`, each part but the domain
//! optional.
use vstd::prelude::*;
use crate::text::same_text;

verus! {

/// A Jabber ID.
pub struct Jid {
    pub node: Option<String>,
    pub domain: String,
    pub resource: Option<String>,
}

/// The characters of each part of a [`Jid`].
pub struct JidView {
    pub node: Option<Seq<char>>,
    pub domain: Seq<char>,
    pub resource: Option<Seq<char>>,
}

pub open spec fn opt_text(s: Option<String>) -> Option<Seq<char>> {
    match s {
        Some(t) => Some(t@),
        None => None,
    }
}

impl View for Jid {
    type V = JidView;

    open spec fn view(&self) -> JidView {
        JidView { node: opt_text(self.node), domain: self.domain@, resource: opt_text(self.resource) }
    }
}

impl JidView {
    /// The same ID without its resource.
    pub open spec fn bare(self) -> JidView {
        JidView { resource: None, ..self }
    }
}

/// A copy of an optional string.
pub fn copy_text(s: &Option<String>) -> (r: Option<String>)
    ensures
        r == *s,
{
    match s {
        Some(t) => Some(t.clone()),
        None => None,
    }
}

/// Whether two optional strings hold the same characters.
pub fn same_opt_text(a: &Option<String>, b: &Option<String>) -> (r: bool)
    ensures
        r == (opt_text(*a) == opt_text(*b)),
{
    match (a, b) {
        (Some(x), Some(y)) => same_text(x.as_str(), y.as_str()),
        (None, None) => true,
        _ => false,
    }
}

impl Clone for Jid {
    fn clone(&self) -> (r: Self)
        ensures
            r == *self,
    {
        Jid {
            node: copy_text(&self.node),
            domain: self.domain.clone(),
            resource: copy_text(&self.resource),
        }
    }
}

impl Jid {
    /// `node@domain/resource`.
    pub fn full(node: &str, domain: &str, resource: &str) -> (r: Jid)
        ensures
            r@ == (JidView { node: Some(node@), domain: domain@, resource: Some(resource@) }),
    {
        Jid {
            node: Some(node.to_owned()),
            domain: domain.to_owned(),
            resource: Some(resource.to_owned()),
        }
    }

    /// `node@domain`.
    pub fn bare(node: &str, domain: &str) -> (r: Jid)
        ensures
            r@ == (JidView { node: Some(node@), domain: domain@, resource: None }),
    {
        Jid { node: Some(node.to_owned()), domain: domain.to_owned(), resource: None }
    }

    /// This ID with its resource dropped.
    pub fn into_bare_jid(self) -> (r: Jid)
        ensures
            r@ == self@.bare(),
            r.node == self.node,
            r.domain == self.domain,
            r.resource is None,
    {
        Jid { node: self.node, domain: self.domain, resource: None }
    }

    /// Whether the two IDs are equal part by part (`==` on `Jid`).
    pub fn same(&self, other: &Jid) -> (r: bool)
        ensures
            r == (self@ == other@),
    {
        same_opt_text(&self.node, &other.node) && same_text(
            self.domain.as_str(),
            other.domain.as_str(),
        ) && same_opt_text(&self.resource, &other.resource)
    }
}

} // verus!
