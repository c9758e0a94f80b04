//! Segments: named, reusable filters of a model.

use vstd::prelude::*;
use vstd::string::*;
use crate::text::replace_all;
use crate::text::replace_str;

verus! {

/// A named predicate of a model. In its SQL the text `{model}` stands for
/// the alias under which the model appears in a query.
#[derive(Debug)]
pub struct Segment {
    pub name: String,
    pub sql: String,
    pub description: Option<String>,
}

/// The mathematical content of a [`Segment`].
pub struct SegmentView {
    pub name: Seq<char>,
    pub sql: Seq<char>,
    pub description: Option<Seq<char>>,
}

/// The view of an optional text.
pub open spec fn opt_view(o: Option<String>) -> Option<Seq<char>> {
    match o {
        Some(s) => Some(s@),
        None => None,
    }
}

/// A copy of an optional text.
pub fn clone_opt(o: &Option<String>) -> (r: Option<String>)
    ensures
        opt_view(r) == opt_view(*o),
        r is Some <==> *o is Some,
{
    match o {
        Some(s) => Some(s.clone()),
        None => None,
    }
}

impl View for Segment {
    type V = SegmentView;

    open spec fn view(&self) -> SegmentView {
        SegmentView { name: self.name@, sql: self.sql@, description: opt_view(self.description) }
    }
}

impl SegmentView {
    /// The predicate with the alias put in for `{model}`.
    pub open spec fn get_sql(self, alias: Seq<char>) -> Seq<char> {
        replace_all(self.sql, "{model}"@, alias)
    }
}

impl Clone for Segment {
    fn clone(&self) -> (r: Self)
        ensures
            r@ == self@,
    {
        Segment {
            name: self.name.clone(),
            sql: self.sql.clone(),
            description: clone_opt(&self.description),
        }
    }
}

impl Segment {
    /// A segment with the given name and predicate.
    pub fn new(name: &str, sql: &str) -> (r: Self)
        ensures
            r@ == (SegmentView { name: name@, sql: sql@, description: None }),
    {
        Segment { name: name.to_owned(), sql: sql.to_owned(), description: None }
    }

    /// The predicate with `alias` put in for every `{model}`.
    pub fn get_sql(&self, alias: &str) -> (r: String)
        ensures
            r@ == self@.get_sql(alias@),
    {
        replace_str(self.sql.as_str(), "{model}", alias)
    }
}

} // verus!
