use vstd::prelude::*;

verus! {

/// The four literal object kinds a pack can hold.
#[derive(Clone, Copy, Debug, PartialEq, Eq, Structural)]
pub enum Type {
    Commit,
    Tree,
    Blob,
    Tag,
}

/// The public object kind named by a record's type tag, if the tag names
/// one: tags 1 through 4 stand for the four literal kinds.
pub open spec fn type_of_tag(tag: u8) -> Option<Type> {
    if tag == 1 {
        Some(Type::Commit)
    } else if tag == 2 {
        Some(Type::Tree)
    } else if tag == 3 {
        Some(Type::Blob)
    } else if tag == 4 {
        Some(Type::Tag)
    } else {
        None
    }
}

/// The record type tag that stands for an object kind.
pub open spec fn tag_of_type(t: Type) -> u8 {
    match t {
        Type::Commit => 1,
        Type::Tree => 2,
        Type::Blob => 3,
        Type::Tag => 4,
    }
}

impl Type {
    /// The object kind named by a record's type tag, if any.
    pub fn from_tag(tag: u8) -> (r: Option<Type>)
        ensures
            r == type_of_tag(tag),
    {
        if tag == 1 {
            Some(Type::Commit)
        } else if tag == 2 {
            Some(Type::Tree)
        } else if tag == 3 {
            Some(Type::Blob)
        } else if tag == 4 {
            Some(Type::Tag)
        } else {
            None
        }
    }

    /// The record type tag that stands for this object kind.
    pub fn to_tag(&self) -> (r: u8)
        ensures
            r == tag_of_type(*self),
    {
        match self {
            Type::Commit => 1,
            Type::Tree => 2,
            Type::Blob => 3,
            Type::Tag => 4,
        }
    }
}

} // verus!
