//! Descriptions of files, folders, tags and of the user.

use vstd::prelude::*;

verus! {

/// What a description is about.
#[derive(Clone, Copy, PartialEq, Eq, Structural, Debug)]
pub enum DescriptionTarget {
    File(usize),
    Folder(usize),
}

/// A description in plain text.
#[derive(PartialEq, Eq, Debug)]
pub struct Description {
    text: String,
}

impl View for Description {
    type V = Seq<char>;

    closed spec fn view(&self) -> Seq<char> {
        self.text@
    }
}

impl Clone for Description {
    fn clone(&self) -> (r: Self)
        ensures
            r@ == self@,
    {
        Description { text: self.text.clone() }
    }
}

impl Description {
    /// The text of the description.
    pub fn get_text(&self) -> (r: &String)
        ensures
            r@ == self@,
    {
        &self.text
    }

    /// The description that says `text`.
    pub fn new(text: String) -> (r: Description)
        ensures
            r@ == text@,
    {
        Description { text }
    }
}

/// What can be wrong with a reply that describes an item.
#[derive(Clone, Copy, PartialEq, Eq, Structural, Debug)]
pub enum DescriptionParsingError {
    BadlyPlacedText,
    UnparseableDOM,
    IsCommented,
    BadNumberOfNewTagArgs,
    UnknownTag,
}

/// The value of an optional description.
pub open spec fn optional_description(desc: Option<Description>) -> Option<Seq<char>> {
    match desc {
        Some(d) => Some(d@),
        None => None,
    }
}

/// Clones an optional description.
pub fn clone_optional_description(desc: &Option<Description>) -> (r: Option<Description>)
    ensures
        optional_description(r) == optional_description(*desc),
{
    match desc {
        Some(d) => Some(d.clone()),
        None => None,
    }
}

} // verus!
