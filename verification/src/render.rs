//! Writing a record instance as nested tagged text.
//!
//! An instance gives each field of the record a value or none. A value is
//! a text, which is written between the field's tags, or what a value has
//! itself written under the field's tag name. A field is present when it is
//! not optional, or has a value. A group's tag is written exactly when one
//! of the group's own member fields is present.

use vstd::prelude::*;
use vstd::string::*;
use crate::field::{texts, Field};
use crate::hierarchy::{all_tags, Grouped, Root};

verus! {

/// `<name>`
pub open spec fn open_tag(name: Seq<char>) -> Seq<char> {
    seq!['<'] + name + seq!['>']
}

/// `</name>`
pub open spec fn close_tag(name: Seq<char>) -> Seq<char> {
    seq!['<', '/'] + name + seq!['>']
}

/// The first `upto` of `parts`, one after the other.
pub open spec fn join(parts: Seq<Seq<char>>, upto: nat) -> Seq<char>
    decreases upto,
{
    if upto == 0 {
        Seq::empty()
    } else {
        join(parts, (upto - 1) as nat) + parts[upto - 1]
    }
}

/// The value of one field of an instance.
#[derive(Debug)]
pub enum Value {
    /// Text, which is written between the field's tags.
    Text(String),
    /// What the value has itself written under the field's tag name.
    Written(String),
}

/// What the value of a present field writes: a text stands between the
/// field's tags, what a value has written itself stands as it is, and
/// without a value the tags stand alone.
pub open spec fn value_text(field: Field, value: Option<Value>) -> Seq<char> {
    match value {
        Some(Value::Text(s)) => open_tag(field.tag()) + s@ + close_tag(field.tag()),
        Some(Value::Written(s)) => s@,
        None => open_tag(field.tag()) + close_tag(field.tag()),
    }
}

/// A field is present when it is not optional, or when it has a value. A
/// field that is not optional is present even without a value, and is then
/// written with nothing between its tags.
pub open spec fn present(field: Field, value: Option<Value>) -> bool {
    !field.is_option || value is Some
}

/// What one field writes: nothing where it is not present; else its extra
/// literals in declared order, then its value.
pub open spec fn field_text(field: Field, value: Option<Value>) -> Seq<char> {
    if present(field, value) {
        join(texts(field.extras@), field.extras.len() as nat) + value_text(field, value)
    } else {
        Seq::empty()
    }
}

/// What the fields that `pick` marks among the first `upto` write, in
/// declaration order.
pub open spec fn fields_text(
    fields: Seq<Field>,
    values: Seq<Option<Value>>,
    pick: Seq<bool>,
    upto: nat,
) -> Seq<char>
    decreases upto,
{
    if upto == 0 {
        Seq::empty()
    } else {
        fields_text(fields, values, pick, (upto - 1) as nat) + if pick[upto - 1] {
            field_text(fields[upto - 1], values[upto - 1])
        } else {
            Seq::empty()
        }
    }
}

/// One of the fields that `row` marks is present.
pub open spec fn any_present(fields: Seq<Field>, values: Seq<Option<Value>>, row: Seq<bool>) -> bool {
    exists|f: int| 0 <= f < fields.len() && row[f] && #[trigger] present(fields[f], values[f])
}

/// The fields that `row` marks and `claimed` does not.
pub open spec fn exclusive(row: Seq<bool>, claimed: Seq<bool>) -> Seq<bool> {
    Seq::new(row.len(), |f: int| row[f] && !claimed[f])
}

/// What group `g` writes as a group inside another: nothing where none of
/// its member fields is present; else all its member fields between its
/// tags.
pub open spec fn group_text(
    grouped: Grouped,
    fields: Seq<Field>,
    values: Seq<Option<Value>>,
    g: int,
) -> Seq<char> {
    if any_present(fields, values, grouped.members[g]@) {
        open_tag(grouped.groups[g].name@) + fields_text(
            fields,
            values,
            grouped.members[g]@,
            fields.len(),
        ) + close_tag(grouped.groups[g].name@)
    } else {
        Seq::empty()
    }
}

/// What the first `upto` of the groups `subs` write, one after the other.
pub open spec fn subs_text(
    grouped: Grouped,
    fields: Seq<Field>,
    values: Seq<Option<Value>>,
    subs: Seq<usize>,
    upto: nat,
) -> Seq<char>
    decreases upto,
{
    if upto == 0 {
        Seq::empty()
    } else {
        subs_text(grouped, fields, values, subs, (upto - 1) as nat) + group_text(
            grouped,
            fields,
            values,
            subs[upto - 1] as int,
        )
    }
}

/// What a top group writes: nothing where none of its member fields is
/// present; else, between its tags, the member fields that none of its
/// inner groups has, and then each inner group.
pub open spec fn root_text(
    grouped: Grouped,
    fields: Seq<Field>,
    values: Seq<Option<Value>>,
    root: Root,
) -> Seq<char> {
    let g = root.group as int;
    if any_present(fields, values, grouped.members[g]@) {
        open_tag(grouped.groups[g].name@) + fields_text(
            fields,
            values,
            exclusive(grouped.members[g]@, root.sub_fields@),
            fields.len(),
        ) + subs_text(grouped, fields, values, root.subs@, root.subs.len() as nat) + close_tag(
            grouped.groups[g].name@,
        )
    } else {
        Seq::empty()
    }
}

/// What the first `upto` of the top groups `roots` write, one after the
/// other.
pub open spec fn roots_text(
    grouped: Grouped,
    fields: Seq<Field>,
    values: Seq<Option<Value>>,
    roots: Seq<Root>,
    upto: nat,
) -> Seq<char>
    decreases upto,
{
    if upto == 0 {
        Seq::empty()
    } else {
        roots_text(grouped, fields, values, roots, (upto - 1) as nat) + root_text(
            grouped,
            fields,
            values,
            roots[upto - 1],
        )
    }
}

/// Appends `<name>`.
pub fn write_open(out: &mut String, name: &str)
    ensures
        final(out)@ == old(out)@ + open_tag(name@),
{
    proof {
        reveal_strlit("<");
        reveal_strlit(">");
    }
    let ghost start = out@;
    out.append("<");
    out.append(name);
    out.append(">");
    assert(out@ =~= start + open_tag(name@));
}

/// Appends `</name>`.
pub fn write_close(out: &mut String, name: &str)
    ensures
        final(out)@ == old(out)@ + close_tag(name@),
{
    proof {
        reveal_strlit("</");
        reveal_strlit(">");
    }
    let ghost start = out@;
    out.append("</");
    out.append(name);
    out.append(">");
    assert(out@ =~= start + close_tag(name@));
}

/// Whether `field` is present with `value`.
pub fn is_present(field: &Field, value: &Option<Value>) -> (r: bool)
    ensures
        r == present(*field, *value),
{
    !field.is_option || value.is_some()
}

/// Appends what one field writes.
pub fn write_field(out: &mut String, field: &Field, value: &Option<Value>)
    ensures
        final(out)@ == old(out)@ + field_text(*field, *value),
{
    let ghost start = out@;
    if !is_present(field, value) {
        assert(out@ =~= start + field_text(*field, *value));
        return ;
    }
    let mut i: usize = 0;
    while i < field.extras.len()
        invariant
            i <= field.extras.len(),
            out@ == start + join(texts(field.extras@), i as nat),
        decreases field.extras.len() - i,
    {
        let ghost before = out@;
        out.append(field.extras[i].as_str());
        proof {
            assert(texts(field.extras@)[i as int] == field.extras[i as int]@);
            assert(out@ =~= start + join(texts(field.extras@), (i + 1) as nat));
        }
        i += 1;
    }
    let ghost extras = join(texts(field.extras@), field.extras.len() as nat);
    match value {
        Some(Value::Written(s)) => {
            out.append(s.as_str());
        },
        Some(Value::Text(s)) => {
            write_open(out, field.tag_name());
            out.append(s.as_str());
            write_close(out, field.tag_name());
        },
        None => {
            write_open(out, field.tag_name());
            write_close(out, field.tag_name());
        },
    }
    proof {
        assert(out@ =~= start + (extras + value_text(*field, *value)));
    }
}

/// Whether one of the fields that `row` marks is present: whether the tag
/// of a group with these member fields is written.
pub fn gen_fields(fields: &Vec<Field>, values: &Vec<Option<Value>>, row: &Vec<bool>) -> (r: bool)
    requires
        values.len() == fields.len(),
        row.len() == fields.len(),
    ensures
        r == any_present(fields@, values@, row@),
{
    let mut f: usize = 0;
    while f < fields.len()
        invariant
            values.len() == fields.len(),
            row.len() == fields.len(),
            f <= fields.len(),
            forall|x: int| 0 <= x < f ==> !(row[x] && #[trigger] present(fields[x], values[x])),
        decreases fields.len() - f,
    {
        if row[f] && is_present(&fields[f], &values[f]) {
            return true;
        }
        f += 1;
    }
    false
}

/// Appends what the fields that `pick` marks write, in declaration order.
pub fn write_fields(
    out: &mut String,
    fields: &Vec<Field>,
    values: &Vec<Option<Value>>,
    pick: &Vec<bool>,
)
    requires
        values.len() == fields.len(),
        pick.len() == fields.len(),
    ensures
        final(out)@ == old(out)@ + fields_text(fields@, values@, pick@, fields.len() as nat),
{
    let ghost start = out@;
    let mut f: usize = 0;
    proof {
        assert(out@ =~= start + fields_text(fields@, values@, pick@, 0));
    }
    while f < fields.len()
        invariant
            values.len() == fields.len(),
            pick.len() == fields.len(),
            f <= fields.len(),
            out@ == start + fields_text(fields@, values@, pick@, f as nat),
        decreases fields.len() - f,
    {
        if pick[f] {
            write_field(out, &fields[f], &values[f]);
        }
        proof {
            assert(out@ =~= start + fields_text(fields@, values@, pick@, (f + 1) as nat));
        }
        f += 1;
    }
}

/// The row of the fields that `row` marks and `claimed` does not.
pub fn difference(row: &Vec<bool>, claimed: &Vec<bool>) -> (r: Vec<bool>)
    requires
        claimed.len() == row.len(),
    ensures
        r@ == exclusive(row@, claimed@),
{
    let mut own: Vec<bool> = Vec::new();
    let mut f: usize = 0;
    while f < row.len()
        invariant
            claimed.len() == row.len(),
            f <= row.len(),
            own.len() == f,
            forall|x: int| 0 <= x < f ==> #[trigger] own[x] == (row[x] && !claimed[x]),
        decreases row.len() - f,
    {
        own.push(row[f] && !claimed[f]);
        f += 1;
    }
    assert(own@ =~= exclusive(row@, claimed@));
    own
}

/// Appends what group `group` writes as a group inside another.
pub fn write_grouped_fields(
    out: &mut String,
    group: usize,
    grouped: &Grouped,
    fields: &Vec<Field>,
    values: &Vec<Option<Value>>,
)
    requires
        grouped.shaped(),
        grouped.ungrouped.len() == fields.len(),
        values.len() == fields.len(),
        group < grouped.groups.len(),
    ensures
        final(out)@ == old(out)@ + group_text(*grouped, fields@, values@, group as int),
{
    let ghost start = out@;
    let row = &grouped.members[group];
    if gen_fields(fields, values, row) {
        let name: &str = grouped.groups[group].name.as_str();
        write_open(out, name);
        write_fields(out, fields, values, row);
        write_close(out, name);
    }
    assert(out@ =~= start + group_text(*grouped, fields@, values@, group as int));
}

/// Appends what the top groups write, one after the other.
pub fn write_top_grouped_fields(
    out: &mut String,
    grouped: &Grouped,
    roots: &Vec<Root>,
    fields: &Vec<Field>,
    values: &Vec<Option<Value>>,
)
    requires
        grouped.shaped(),
        grouped.placed(roots@),
        grouped.ungrouped.len() == fields.len(),
        values.len() == fields.len(),
    ensures
        final(out)@ == old(out)@ + roots_text(
            *grouped,
            fields@,
            values@,
            roots@,
            roots.len() as nat,
        ),
{
    let ghost start = out@;
    let mut i: usize = 0;
    proof {
        assert(out@ =~= start + roots_text(*grouped, fields@, values@, roots@, 0));
    }
    while i < roots.len()
        invariant
            grouped.shaped(),
            grouped.placed(roots@),
            grouped.ungrouped.len() == fields.len(),
            values.len() == fields.len(),
            i <= roots.len(),
            out@ == start + roots_text(*grouped, fields@, values@, roots@, i as nat),
        decreases roots.len() - i,
    {
        let ghost before = out@;
        let root = &roots[i];
        let row = &grouped.members[root.group];
        if gen_fields(fields, values, row) {
            let name: &str = grouped.groups[root.group].name.as_str();
            write_open(out, name);
            let own = difference(row, &root.sub_fields);
            write_fields(out, fields, values, &own);
            let ghost inner = out@;
            let mut j: usize = 0;
            proof {
                assert(out@ =~= inner + subs_text(*grouped, fields@, values@, root.subs@, 0));
            }
            while j < root.subs.len()
                invariant
                    grouped.shaped(),
                    grouped.ungrouped.len() == fields.len(),
                    values.len() == fields.len(),
                    forall|x: int|
                        0 <= x < root.subs.len() ==> #[trigger] root.subs[x] < grouped.groups.len(),
                    j <= root.subs.len(),
                    out@ == inner + subs_text(*grouped, fields@, values@, root.subs@, j as nat),
                decreases root.subs.len() - j,
            {
                write_grouped_fields(out, root.subs[j], grouped, fields, values);
                proof {
                    assert(out@ =~= inner + subs_text(
                        *grouped,
                        fields@,
                        values@,
                        root.subs@,
                        (j + 1) as nat,
                    ));
                }
                j += 1;
            }
            write_close(out, name);
        }
        proof {
            assert(out@ =~= before + root_text(*grouped, fields@, values@, *root));
            assert(out@ =~= start + roots_text(*grouped, fields@, values@, roots@, (i + 1) as nat));
        }
        i += 1;
    }
}

/// What the first `upto` fields write when each of them is written once, in
/// declaration order.
pub open spec fn flat_text(fields: Seq<Field>, values: Seq<Option<Value>>, upto: nat) -> Seq<char>
    decreases upto,
{
    if upto == 0 {
        Seq::empty()
    } else {
        flat_text(fields, values, (upto - 1) as nat) + field_text(fields[upto - 1], values[upto - 1])
    }
}

/// Where `pick` marks every field, the picked fields write what all fields
/// write in declaration order.
pub proof fn lemma_all_picked(
    fields: Seq<Field>,
    values: Seq<Option<Value>>,
    pick: Seq<bool>,
    upto: nat,
)
    requires
        upto <= pick.len(),
        forall|f: int| 0 <= f < upto ==> pick[f],
    ensures
        fields_text(fields, values, pick, upto) == flat_text(fields, values, upto),
    decreases upto,
{
    if upto > 0 {
        lemma_all_picked(fields, values, pick, (upto - 1) as nat);
    }
}

/// Fields without tags make no groups.
pub proof fn lemma_no_tags(fields: Seq<Field>)
    requires
        forall|f: int| 0 <= f < fields.len() ==> (#[trigger] fields[f]).groups.len() == 0,
    ensures
        all_tags(fields).len() == 0,
    decreases fields.len(),
{
    if fields.len() > 0 {
        assert(fields.last() == fields[fields.len() - 1]);
        assert forall|f: int| 0 <= f < fields.drop_last().len() implies (#[trigger] fields.drop_last()[f]).groups.len()
            == 0 by {
            assert(fields.drop_last()[f] == fields[f]);
        }
        lemma_no_tags(fields.drop_last());
    }
}

/// A group's tag is written exactly when one of the fields tagged with the
/// group is present, whatever holds of the groups inside or beside it; and
/// what it then writes lies between its opening and its closing tag.
pub proof fn lemma_group_written_iff_member_present(
    grouped: Grouped,
    fields: Seq<Field>,
    values: Seq<Option<Value>>,
    root: Root,
    g: int,
)
    requires
        grouped.describes(fields),
        0 <= g < grouped.groups.len(),
        root.group == g,
    ensures
        any_present(fields, values, grouped.members[g]@) <==> exists|f: int|
            0 <= f < fields.len() && fields[f].in_group(grouped.groups[g]@) && #[trigger] present(
                fields[f],
                values[f],
            ),
        group_text(grouped, fields, values, g).len() > 0 <==> any_present(
            fields,
            values,
            grouped.members[g]@,
        ),
        root_text(grouped, fields, values, root).len() > 0 <==> any_present(
            fields,
            values,
            grouped.members[g]@,
        ),
{
    let row = grouped.members[g]@;
    let tag = grouped.groups[g]@;
    assert(grouped.members[g].len() == fields.len());
    assert forall|f: int| 0 <= f < fields.len() implies row[f] == fields[f].in_group(tag) by {
        assert(grouped.has(g, f) == fields[f].in_group(tag));
    }
    if any_present(fields, values, row) {
        let f = choose|f: int| 0 <= f < fields.len() && row[f] && #[trigger] present(fields[f], values[f]);
        assert(fields[f].in_group(tag) && present(fields[f], values[f]));
    }
    if exists|f: int|
        0 <= f < fields.len() && fields[f].in_group(tag) && #[trigger] present(fields[f], values[f]) {
        let f = choose|f: int|
            0 <= f < fields.len() && fields[f].in_group(tag) && #[trigger] present(fields[f], values[f]);
        assert(row[f] && present(fields[f], values[f]));
    }
}

} // verus!
