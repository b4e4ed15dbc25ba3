//! Groups and the options that a field or a record can carry.

use vstd::prelude::*;

verus! {

/// The identity of a group in contracts: its name and its optional number.
pub struct GroupView {
    pub name: Seq<char>,
    pub id: Option<u128>,
}

/// A named wrapper tag that fields opt into. Two groups are the same group
/// exactly when both the name and the number agree.
#[derive(Debug, PartialEq, Eq, Hash)]
pub struct Group {
    pub name: String,
    pub id: Option<u128>,
}

impl View for Group {
    type V = GroupView;

    open spec fn view(&self) -> GroupView {
        GroupView { name: self.name@, id: self.id }
    }
}

impl Clone for Group {
    fn clone(&self) -> (r: Self)
        ensures
            r@ == self@,
    {
        Group { name: self.name.clone(), id: self.id }
    }
}

impl Group {
    /// A group with a name and no number.
    pub fn named(name: String) -> (r: Group)
        ensures
            r.name == name,
            r.id is None,
    {
        Group { name, id: None }
    }

    /// Whether `self` and `other` are the same group.
    pub fn same(&self, other: &Group) -> (r: bool)
        ensures
            r == (self@ == other@),
    {
        let names: bool = self.name == other.name;
        let ids: bool = match (self.id, other.id) {
            (Some(a), Some(b)) => a == b,
            (None, None) => true,
            _ => false,
        };
        names && ids
    }
}

/// One option of a field or of a record.
#[derive(Debug, PartialEq, Eq, Hash)]
pub enum Attr {
    /// Membership in a group.
    Group(Group),
    /// A tag name that replaces the identifier.
    Rename(String),
    /// Literal text written immediately before the field's tag.
    Extra(String),
}

/// An option in contracts.
pub enum AttrView {
    Group(GroupView),
    Rename(Seq<char>),
    Extra(Seq<char>),
}

impl View for Attr {
    type V = AttrView;

    open spec fn view(&self) -> AttrView {
        match self {
            Attr::Group(g) => AttrView::Group(g@),
            Attr::Rename(s) => AttrView::Rename(s@),
            Attr::Extra(s) => AttrView::Extra(s@),
        }
    }
}

impl Attr {
    /// Whether the option is a membership in a group.
    pub fn is_group(&self) -> (r: bool)
        ensures
            r == (self is Group),
    {
        match self {
            Attr::Group(_) => true,
            _ => false,
        }
    }

    /// The group of a membership.
    pub fn as_group(&self) -> (r: Group)
        requires
            self is Group,
        ensures
            r@ == self->Group_0@,
    {
        match self {
            Attr::Group(v) => v.clone(),
            _ => unreached(),
        }
    }

    /// Whether the option is a tag name.
    pub fn is_rename(&self) -> (r: bool)
        ensures
            r == (self is Rename),
    {
        match self {
            Attr::Rename(_) => true,
            _ => false,
        }
    }

    /// The tag name of a `Rename`.
    pub fn as_rename(&self) -> (r: String)
        requires
            self is Rename,
        ensures
            r@ == self->Rename_0@,
    {
        match self {
            Attr::Rename(v) => v.clone(),
            _ => unreached(),
        }
    }

    /// Whether the option is a literal.
    pub fn is_extra(&self) -> (r: bool)
        ensures
            r == (self is Extra),
    {
        match self {
            Attr::Extra(_) => true,
            _ => false,
        }
    }

    /// The literal of an `Extra`.
    pub fn as_extra(&self) -> (r: String)
        requires
            self is Extra,
        ensures
            r@ == self->Extra_0@,
    {
        match self {
            Attr::Extra(v) => v.clone(),
            _ => unreached(),
        }
    }
}

} // verus!
