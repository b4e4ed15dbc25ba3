//! A record type made ready for writing, and the writing of its instances.

use vstd::prelude::*;
use vstd::string::*;
use crate::data::Data;
use crate::display::DisplayAction;
use crate::field::{group_views, Field};
use crate::hierarchy::{ambiguous, calculate_supersets, group_fields, ConfigError, Grouped, Root};
use crate::render::{
    close_tag, fields_text, flat_text, lemma_all_picked, lemma_no_tags, open_tag, roots_text,
    write_close, write_fields, write_open, write_top_grouped_fields, Value,
};

verus! {

/// A record type with the nesting of its groups resolved. It is built once
/// and then read by every instance that is written.
#[derive(Debug)]
pub struct Action {
    /// The record type.
    pub data: Data,
    /// The name of the group that wraps the whole record, if one is declared.
    pub top: Option<String>,
    /// The relation between the groups and the fields.
    pub grouped: Grouped,
    /// The groups that stand at the top, each with the groups inside it.
    pub roots: Vec<Root>,
}

impl Action {
    /// The parts agree with the record type, and no two groups are in
    /// conflict.
    pub open spec fn wf(&self) -> bool {
        &&& self.grouped.describes(self.data.fields@)
        &&& self.grouped.consistent()
        &&& self.grouped.resolved(self.roots@)
        &&& match self.top {
            Some(s) => Some(s@),
            None => None,
        } == self.data.top_name()
    }

    /// What an instance writes without the record's own wrapper: the
    /// ungrouped fields in declaration order, then the top groups.
    pub open spec fn body_text(&self, values: Seq<Option<Value>>) -> Seq<char> {
        fields_text(
            self.data.fields@,
            values,
            self.grouped.ungrouped@,
            self.data.fields.len() as nat,
        ) + roots_text(
            self.grouped,
            self.data.fields@,
            values,
            self.roots@,
            self.roots.len() as nat,
        )
    }

    /// What an instance writes: its body, inside the tags of the record's
    /// own group where one is declared, whether or not the body is empty.
    pub open spec fn text(&self, values: Seq<Option<Value>>) -> Seq<char> {
        match self.data.top_name() {
            Some(name) => open_tag(name) + self.body_text(values) + close_tag(name),
            None => self.body_text(values),
        }
    }

    /// A record whose fields are tagged with no group writes its fields in
    /// declaration order: each present field once, and nothing else.
    pub proof fn lemma_ungrouped_in_declaration_order(&self, values: Seq<Option<Value>>)
        requires
            self.wf(),
            forall|f: int|
                0 <= f < self.data.fields.len() ==> (#[trigger] self.data.fields[f]).groups.len() == 0,
        ensures
            self.body_text(values) == flat_text(
                self.data.fields@,
                values,
                self.data.fields.len() as nat,
            ),
    {
        let fields = self.data.fields@;
        lemma_no_tags(fields);
        assert(group_views(self.grouped.groups@).len() == 0);
        assert(self.grouped.root_ids(0).len() == 0);
        assert(self.roots.len() == 0);
        assert forall|f: int| 0 <= f < fields.len() implies self.grouped.ungrouped@[f] by {
            assert(fields[f].groups.len() == 0);
        }
        lemma_all_picked(fields, values, self.grouped.ungrouped@, fields.len());
        assert(self.body_text(values) =~= flat_text(fields, values, fields.len()));
    }

    /// Appends what the instance `values` writes.
    pub fn fmt(&self, out: &mut String, values: &Vec<Option<Value>>)
        requires
            self.wf(),
            values.len() == self.data.fields.len(),
        ensures
            final(out)@ == old(out)@ + self.text(values@),
    {
        let ghost start = out@;
        proof {
            self.grouped.lemma_resolved_is_placed(self.roots@);
        }
        match &self.top {
            Some(name) => {
                write_open(out, name.as_str());
            },
            None => {},
        }
        write_fields(out, &self.data.fields, values, &self.grouped.ungrouped);
        write_top_grouped_fields(out, &self.grouped, &self.roots, &self.data.fields, values);
        match &self.top {
            Some(name) => {
                write_close(out, name.as_str());
            },
            None => {},
        }
        assert(out@ =~= start + self.text(values@));
    }

    /// The text of the instance `values`, which is the body of the action
    /// `action`. The action's name is written by whoever frames the body.
    pub fn format(&self, values: &Vec<Option<Value>>, action: &str) -> (r: String)
        requires
            self.wf(),
            values.len() == self.data.fields.len(),
        ensures
            r@ == self.text(values@),
    {
        let mut out = String::new();
        self.fmt(&mut out, values);
        assert(out@ =~= self.text(values@));
        out
    }
}

/// Makes a record type ready for writing: relates its groups to its fields
/// and resolves their nesting. It fails exactly when two groups share a
/// field while neither contains the other, and names the first such pair in
/// the order in which the groups first appear.
pub fn impl_display_action(data: Data) -> (r: Result<Action, ConfigError>)
    ensures
        match r {
            Ok(action) => action.wf() && action.data == data && forall|a, b| !#[trigger] ambiguous(
                data.fields@,
                a,
                b,
            ),
            Err(e) => ambiguous(data.fields@, e.first@, e.second@) && exists|
                grouped: Grouped,
                a: int,
                b: int,
            |
                grouped.describes(data.fields@) && 0 <= a < grouped.groups.len() && 0 <= b
                    < grouped.groups.len() && #[trigger] grouped.first_conflict(a, b) && e.first@
                    == grouped.groups[a]@ && e.second@ == grouped.groups[b]@,
        },
{
    let grouped = group_fields(&data.fields);
    let top = data.top_group();
    match calculate_supersets(&grouped) {
        Ok(roots) => {
            proof {
                grouped.lemma_consistent_is_unambiguous(data.fields@);
            }
            Ok(Action { data, top, grouped, roots })
        },
        Err(e) => {
            proof {
                let (a, b) = choose|a: int, b: int|
                    0 <= a < grouped.groups.len() && 0 <= b < grouped.groups.len()
                        && #[trigger] grouped.first_conflict(a, b) && e.first@ == grouped.groups[a]@
                        && e.second@ == grouped.groups[b]@;
                grouped.lemma_conflict_is_ambiguity(data.fields@, a, b);
                assert(grouped.describes(data.fields@) && grouped.first_conflict(a, b));
            }
            Err(e)
        },
    }
}

/// The value of `field` for an instance that holds `value` there: none for
/// an absent value; else what the value writes under the field's tag name.
/// It fails where the value cannot be written.
pub fn written<T: DisplayAction>(field: &Field, value: Option<&T>) -> (r: Result<
    Option<Value>,
    std::fmt::Error,
>)
    ensures
        match value {
            None => r is Ok && r->Ok_0 is None,
            Some(v) => {
                &&& T::obeys_display_spec() ==> r is Ok == v.writable(field.tag())
                &&& r is Ok ==> r->Ok_0 is Some && r->Ok_0->Some_0 is Written
                &&& T::obeys_display_spec() && r is Ok ==> r->Ok_0->Some_0->Written_0@
                    == v.action_text(field.tag())
            },
        },
{
    match value {
        None => Ok(None),
        Some(v) => {
            let mut text = String::new();
            match v.fmt(&mut text, field.tag_name()) {
                Ok(()) => {
                    assert(T::obeys_display_spec() ==> text@ =~= v.action_text(field.tag()));
                    Ok(Some(Value::Written(text)))
                },
                Err(e) => Err(e),
            }
        },
    }
}

/// One instance of a record type: a value, or none, for each field.
pub struct Message<'a> {
    action: &'a Action,
    values: Vec<Option<Value>>,
}

impl<'a> Message<'a> {
    #[verifier::type_invariant]
    spec fn fitting(&self) -> bool {
        self.action.wf() && self.values.len() == self.action.data.fields.len()
    }

    /// The record type of the instance.
    pub closed spec fn action(&self) -> Action {
        *self.action
    }

    /// The values of the instance.
    pub closed spec fn values(&self) -> Seq<Option<Value>> {
        self.values@
    }

    /// An instance of `action` with these values, where there is one value
    /// for each field.
    pub fn new(action: &'a Action, values: Vec<Option<Value>>) -> (r: Option<Self>)
        requires
            action.wf(),
        ensures
            r is Some == (values.len() == action.data.fields.len()),
            r is Some ==> r->0.action() == *action && r->0.values() == values@,
    {
        if values.len() == action.data.fields.len() {
            Some(Message { action, values })
        } else {
            None
        }
    }
}

/// An instance writes the text of its record; the tag name it is given
/// plays no part.
impl<'a> DisplayAction for Message<'a> {
    open spec fn obeys_display_spec() -> bool {
        true
    }

    open spec fn action_text(&self, action: Seq<char>) -> Seq<char> {
        self.action().text(self.values())
    }

    open spec fn writable(&self, action: Seq<char>) -> bool {
        true
    }

    fn fmt(&self, fmt: &mut String, action: &str) -> (r: Result<(), std::fmt::Error>) {
        proof {
            use_type_invariant(self);
        }
        self.action.fmt(fmt, &self.values);
        Ok(())
    }
}

} // verus!
