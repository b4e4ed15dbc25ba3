//! A record member: its tag name, its literal prefixes, whether its value
//! may be absent, and the groups it belongs to.

use vstd::prelude::*;
use vstd::string::*;
use crate::attr::{Attr, Group, GroupView};

verus! {

/// The character sequences of a list of strings.
pub open spec fn texts(v: Seq<String>) -> Seq<Seq<char>> {
    Seq::new(v.len(), |i: int| v[i]@)
}

/// The identities of a list of groups.
pub open spec fn group_views(v: Seq<Group>) -> Seq<GroupView> {
    Seq::new(v.len(), |i: int| v[i]@)
}

/// The literals of the `Extra` options among `attrs`, in order.
pub open spec fn extras_of(attrs: Seq<Attr>) -> Seq<Seq<char>>
    decreases attrs.len(),
{
    if attrs.len() == 0 {
        Seq::empty()
    } else {
        let rest = extras_of(attrs.drop_last());
        match attrs.last() {
            Attr::Extra(s) => rest.push(s@),
            _ => rest,
        }
    }
}

/// The groups of the `Group` options among `attrs`, in order.
pub open spec fn groups_of(attrs: Seq<Attr>) -> Seq<GroupView>
    decreases attrs.len(),
{
    if attrs.len() == 0 {
        Seq::empty()
    } else {
        let rest = groups_of(attrs.drop_last());
        match attrs.last() {
            Attr::Group(g) => rest.push(g@),
            _ => rest,
        }
    }
}

/// The name of the first `Rename` option among `attrs`, if there is one.
pub open spec fn rename_of(attrs: Seq<Attr>) -> Option<Seq<char>>
    decreases attrs.len(),
{
    if attrs.len() == 0 {
        None
    } else {
        match rename_of(attrs.drop_last()) {
            Some(r) => Some(r),
            None => match attrs.last() {
                Attr::Rename(s) => Some(s@),
                _ => None,
            },
        }
    }
}

/// The name of the first `Group` option among `attrs`, if there is one.
pub open spec fn first_group_name(attrs: Seq<Attr>) -> Option<Seq<char>>
    decreases attrs.len(),
{
    if attrs.len() == 0 {
        None
    } else {
        match first_group_name(attrs.drop_last()) {
            Some(r) => Some(r),
            None => match attrs.last() {
                Attr::Group(g) => Some(g.name@),
                _ => None,
            },
        }
    }
}

/// One member of a record.
#[derive(Debug, PartialEq, Eq, Hash)]
pub struct Field {
    /// Literals written verbatim before the field's tag, in this order.
    pub extras: Vec<String>,
    /// The groups that the field is tagged with.
    pub groups: Vec<Group>,
    /// The tag name that replaces the identifier.
    pub rename: Option<String>,
    /// The identifier, which is the tag name where there is no `rename`.
    pub ident: String,
    /// Whether the value may be absent.
    pub is_option: bool,
}

/// Whether `segments` is one of the ways to write the path of the type
/// whose values may be absent: `Option`, `option::Option`,
/// `std::option::Option` or `core::option::Option`.
pub open spec fn names_option(segments: Seq<String>) -> bool {
    ||| segments.len() == 1 && segments[0]@ == "Option"@
    ||| segments.len() == 2 && segments[0]@ == "option"@ && segments[1]@ == "Option"@
    ||| segments.len() == 3 && (segments[0]@ == "std"@ || segments[0]@ == "core"@) && segments[1]@
        == "option"@ && segments[2]@ == "Option"@
}

/// Whether `segment` is the word `word`.
fn is_segment(segment: &String, word: &str) -> (r: bool)
    ensures
        r == (segment@ == word@),
{
    let w = String::from_str(word);
    *segment == w
}

/// Whether a type written as the path `segments` admits absence: whether
/// the path names `Option`, however far it is written out.
pub fn is_option_path(segments: &Vec<String>) -> (r: bool)
    ensures
        r == names_option(segments@),
{
    if segments.len() == 1 {
        is_segment(&segments[0], "Option")
    } else if segments.len() == 2 {
        is_segment(&segments[0], "option") && is_segment(&segments[1], "Option")
    } else if segments.len() == 3 {
        (is_segment(&segments[0], "std") || is_segment(&segments[0], "core")) && is_segment(
            &segments[1],
            "option",
        ) && is_segment(&segments[2], "Option")
    } else {
        false
    }
}

impl Field {
    /// The name of the tag that the field is written under.
    pub open spec fn tag(&self) -> Seq<char> {
        match self.rename {
            Some(r) => r@,
            None => self.ident@,
        }
    }

    /// The name of the tag that the field is written under: the rename
    /// where there is one, else the identifier.
    pub fn tag_name(&self) -> (r: &str)
        ensures
            r@ == self.tag(),
    {
        match &self.rename {
            Some(r) => r.as_str(),
            None => self.ident.as_str(),
        }
    }

    /// Whether the field is tagged with the group `g`.
    pub open spec fn in_group(&self, g: GroupView) -> bool {
        exists|j: int| 0 <= j < self.groups.len() && (#[trigger] self.groups[j])@ == g
    }

    /// The rename of a field as a character sequence.
    pub open spec fn rename_text(&self) -> Option<Seq<char>> {
        match self.rename {
            Some(r) => Some(r@),
            None => None,
        }
    }

    /// Builds a field from its identifier, whether its type admits absence,
    /// and its options: every `Extra` and every `Group` is kept in order,
    /// and the first `Rename` decides the tag name.
    pub fn from_attrs(ident: String, is_option: bool, attrs: &Vec<Attr>) -> (r: Field)
        ensures
            r.ident == ident,
            r.is_option == is_option,
            texts(r.extras@) == extras_of(attrs@),
            group_views(r.groups@) == groups_of(attrs@),
            r.rename_text() == rename_of(attrs@),
    {
        let mut extras: Vec<String> = Vec::new();
        let mut groups: Vec<Group> = Vec::new();
        let mut rename: Option<String> = None;
        let mut i: usize = 0;
        while i < attrs.len()
            invariant
                i <= attrs.len(),
                texts(extras@) =~= extras_of(attrs@.take(i as int)),
                group_views(groups@) =~= groups_of(attrs@.take(i as int)),
                match rename {
                    Some(s) => Some(s@),
                    None => None,
                } == rename_of(attrs@.take(i as int)),
            decreases attrs.len() - i,
        {
            proof {
                assert(attrs@.take(i + 1).drop_last() =~= attrs@.take(i as int));
            }
            match &attrs[i] {
                Attr::Extra(s) => {
                    extras.push(s.clone());
                },
                Attr::Group(g) => {
                    groups.push(g.clone());
                },
                Attr::Rename(s) => {
                    if rename.is_none() {
                        rename = Some(s.clone());
                    }
                },
            }
            i += 1;
        }
        proof {
            assert(attrs@.take(attrs.len() as int) =~= attrs@);
        }
        Field { extras, groups, rename, ident, is_option }
    }
}

} // verus!
