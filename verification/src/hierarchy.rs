//! From the fields' group tags to the nesting of the groups.
//!
//! `Grouped` is the relation between groups and fields: the distinct groups
//! in order of first appearance, and for each of them one row that marks its
//! member fields. `calculate_supersets` finds the groups that stand at the
//! top and lists under each of them every group that it contains, or reports
//! two groups that overlap without one containing the other.

use vstd::prelude::*;
use vstd::string::*;
use crate::attr::{Group, GroupView};
use crate::field::{group_views, Field};

verus! {

/// Every group tag of `fields`, field by field in declaration order.
pub open spec fn all_tags(fields: Seq<Field>) -> Seq<GroupView>
    decreases fields.len(),
{
    if fields.len() == 0 {
        Seq::empty()
    } else {
        all_tags(fields.drop_last()) + group_views(fields.last().groups@)
    }
}

/// `tags` without repetitions: of equal tags the first one stays.
pub open spec fn distinct(tags: Seq<GroupView>) -> Seq<GroupView>
    decreases tags.len(),
{
    if tags.len() == 0 {
        Seq::empty()
    } else {
        let rest = distinct(tags.drop_last());
        if rest.contains(tags.last()) {
            rest
        } else {
            rest.push(tags.last())
        }
    }
}

/// The relation between groups and fields of one record type.
#[derive(Debug)]
pub struct Grouped {
    /// The distinct groups, in order of first appearance.
    pub groups: Vec<Group>,
    /// One row for each group: `members[g][f]` says whether field `f` is
    /// tagged with group `g`.
    pub members: Vec<Vec<bool>>,
    /// `ungrouped[f]` says whether field `f` is tagged with no group.
    pub ungrouped: Vec<bool>,
}

/// A group at the top of the nesting, with the groups written inside it.
#[derive(Debug)]
pub struct Root {
    /// The position of the group in `Grouped::groups`.
    pub group: usize,
    /// The positions of the groups that it contains, ascending.
    pub subs: Vec<usize>,
    /// `sub_fields[f]` says whether field `f` belongs to one of `subs`.
    pub sub_fields: Vec<bool>,
}

/// Two groups that share a field while neither contains the other.
#[derive(Debug)]
pub struct ConfigError {
    pub first: Group,
    pub second: Group,
}

impl ConfigError {
    /// The error in words.
    pub open spec fn message_text(&self) -> Seq<char> {
        "groups `"@ + self.first.name@ + "` and `"@ + self.second.name@
            + "` share a field, but neither contains the other"@
    }

    /// The error in words.
    pub fn message(&self) -> (r: String)
        ensures
            r@ == self.message_text(),
    {
        let mut words = String::from_str("groups `");
        words.append(self.first.name.as_str());
        words.append("` and `");
        words.append(self.second.name.as_str());
        words.append("` share a field, but neither contains the other");
        assert(words@ =~= self.message_text());
        words
    }
}

impl Grouped {
    /// Every row has one entry for each field.
    pub open spec fn shaped(&self) -> bool {
        &&& self.members.len() == self.groups.len()
        &&& forall|g: int|
            0 <= g < self.members.len() ==> (#[trigger] self.members[g]).len()
                == self.ungrouped.len()
    }

    /// The relation is that of `fields`.
    pub open spec fn describes(&self, fields: Seq<Field>) -> bool {
        &&& self.shaped()
        &&& self.ungrouped.len() == fields.len()
        &&& group_views(self.groups@) == distinct(all_tags(fields))
        &&& forall|f: int|
            0 <= f < fields.len() ==> self.ungrouped[f] == ((#[trigger] fields[f]).groups.len() == 0)
        &&& forall|g: int, f: int|
            0 <= g < self.groups.len() && 0 <= f < fields.len() ==> #[trigger] self.has(g, f)
                == fields[f].in_group(self.groups[g]@)
    }

    /// Field `f` is a member of group `g`.
    pub open spec fn has(&self, g: int, f: int) -> bool {
        0 <= g < self.members.len() && 0 <= f < self.members[g].len() && self.members[g][f]
    }

    /// Groups `a` and `b` share a field.
    pub open spec fn overlap(&self, a: int, b: int) -> bool {
        exists|f: int| #[trigger] self.has(a, f) && self.has(b, f)
    }

    /// Every member of group `b` is a member of group `a`.
    pub open spec fn includes(&self, a: int, b: int) -> bool {
        forall|f: int| #[trigger] self.has(b, f) ==> self.has(a, f)
    }

    /// Groups `a` and `b` share a field and neither contains the other.
    pub open spec fn conflict(&self, a: int, b: int) -> bool {
        a != b && self.overlap(a, b) && !self.includes(a, b) && !self.includes(b, a)
    }

    /// No pair of groups is in conflict.
    pub open spec fn consistent(&self) -> bool {
        forall|a: int, b: int|
            0 <= a < self.groups.len() && 0 <= b < self.groups.len() ==> !#[trigger] self.conflict(
                a,
                b,
            )
    }

    /// `(a, b)` is the conflict that is found first: no group before `a` is
    /// in any conflict, and `a` is in none with a group before `b`.
    pub open spec fn first_conflict(&self, a: int, b: int) -> bool {
        &&& self.conflict(a, b)
        &&& forall|x: int, y: int|
            0 <= x < a && 0 <= y < self.groups.len() ==> !#[trigger] self.conflict(x, y)
        &&& forall|y: int| 0 <= y < b ==> !#[trigger] self.conflict(a, y)
    }

    /// Group `j` does not keep group `k` from the top: it is `k` itself, or
    /// shares no field with it, or is contained in it.
    pub open spec fn dominates(&self, k: int, j: int) -> bool {
        j != k && self.overlap(k, j) ==> self.includes(k, j)
    }

    /// Group `k` stands at the top: it contains every other group that it
    /// shares a field with.
    pub open spec fn is_root(&self, k: int) -> bool {
        forall|j: int| 0 <= j < self.groups.len() ==> #[trigger] self.dominates(k, j)
    }

    /// Group `j` is written inside group `k`: another group that shares a
    /// field with `k` and is contained in it.
    pub open spec fn is_sub(&self, k: int, j: int) -> bool {
        j != k && self.overlap(k, j) && self.includes(k, j)
    }

    /// Field `f` belongs to group `j`, which is written inside group `k`.
    pub open spec fn gives(&self, k: int, j: int, f: int) -> bool {
        self.is_sub(k, j) && self.has(j, f)
    }

    /// Field `f` belongs to one of the first `upto` groups that are written
    /// inside group `k`.
    pub open spec fn claimed_upto(&self, k: int, upto: int, f: int) -> bool {
        exists|j: int| 0 <= j < upto && #[trigger] self.gives(k, j, f)
    }

    /// Field `f` belongs to a group that is written inside group `k`.
    pub open spec fn claimed(&self, k: int, f: int) -> bool {
        self.claimed_upto(k, self.groups.len() as int, f)
    }

    /// The groups among the first `upto` that stand at the top, ascending.
    pub open spec fn root_ids(&self, upto: nat) -> Seq<usize>
        decreases upto,
    {
        if upto == 0 {
            Seq::empty()
        } else if self.is_root(upto - 1) {
            self.root_ids((upto - 1) as nat).push((upto - 1) as usize)
        } else {
            self.root_ids((upto - 1) as nat)
        }
    }

    /// The groups among the first `upto` that are written inside group `k`,
    /// ascending.
    pub open spec fn sub_ids(&self, k: int, upto: nat) -> Seq<usize>
        decreases upto,
    {
        if upto == 0 {
            Seq::empty()
        } else if self.is_sub(k, upto - 1) {
            self.sub_ids(k, (upto - 1) as nat).push((upto - 1) as usize)
        } else {
            self.sub_ids(k, (upto - 1) as nat)
        }
    }

    /// `root` is the entry of the top group `k`, with all that is written
    /// inside it.
    pub open spec fn root_of(&self, root: Root, k: int) -> bool {
        &&& root.group == k
        &&& root.subs@ == self.sub_ids(k, self.groups.len() as nat)
        &&& root.sub_fields.len() == self.ungrouped.len()
        &&& forall|f: int|
            0 <= f < root.sub_fields.len() ==> #[trigger] root.sub_fields[f] == self.claimed(k, f)
    }

    /// `roots` holds the entries of the first `upto` groups that stand at
    /// the top, ascending.
    pub open spec fn resolved_upto(&self, roots: Seq<Root>, upto: nat) -> bool {
        &&& roots.len() == self.root_ids(upto).len()
        &&& forall|i: int|
            0 <= i < roots.len() ==> self.root_of(#[trigger] roots[i], self.root_ids(upto)[i] as int)
    }

    /// `roots` is the nesting of the groups: one entry for each group that
    /// stands at the top, ascending.
    pub open spec fn resolved(&self, roots: Seq<Root>) -> bool {
        self.resolved_upto(roots, self.groups.len() as nat)
    }

    /// Every entry of `roots` names a group of the relation, lists groups
    /// of the relation, and has a row of the relation's width.
    pub open spec fn placed(&self, roots: Seq<Root>) -> bool {
        forall|i: int|
            0 <= i < roots.len() ==> {
                &&& (#[trigger] roots[i]).group < self.groups.len()
                &&& roots[i].sub_fields.len() == self.ungrouped.len()
                &&& forall|j: int|
                    0 <= j < roots[i].subs.len() ==> #[trigger] roots[i].subs[j] < self.groups.len()
            }
    }

    /// Whether groups `a` and `b` share a field.
    pub fn overlaps(&self, a: usize, b: usize) -> (r: bool)
        requires
            self.shaped(),
            a < self.groups.len(),
            b < self.groups.len(),
        ensures
            r == self.overlap(a as int, b as int),
    {
        let width: usize = self.ungrouped.len();
        let mut f: usize = 0;
        while f < width
            invariant
                self.shaped(),
                a < self.groups.len(),
                b < self.groups.len(),
                width == self.ungrouped.len(),
                f <= width,
                forall|x: int| 0 <= x < f ==> !(#[trigger] self.has(a as int, x) && self.has(b as int, x)),
            decreases width - f,
        {
            if self.members[a][f] && self.members[b][f] {
                assert(self.has(a as int, f as int) && self.has(b as int, f as int));
                return true;
            }
            f += 1;
        }
        false
    }

    /// Whether every member of group `b` is a member of group `a`.
    pub fn contains_all(&self, a: usize, b: usize) -> (r: bool)
        requires
            self.shaped(),
            a < self.groups.len(),
            b < self.groups.len(),
        ensures
            r == self.includes(a as int, b as int),
    {
        let width: usize = self.ungrouped.len();
        let mut f: usize = 0;
        while f < width
            invariant
                self.shaped(),
                a < self.groups.len(),
                b < self.groups.len(),
                width == self.ungrouped.len(),
                f <= width,
                forall|x: int| 0 <= x < f ==> (#[trigger] self.has(b as int, x) ==> self.has(a as int, x)),
            decreases width - f,
        {
            if self.members[b][f] && !self.members[a][f] {
                assert(self.has(b as int, f as int) && !self.has(a as int, f as int));
                return false;
            }
            f += 1;
        }
        true
    }
}

/// The position of `tag` among `groups`, if it is there.
fn position(groups: &Vec<Group>, tag: &Group) -> (r: Option<usize>)
    ensures
        match r {
            Some(p) => p < groups.len() && groups[p as int]@ == tag@,
            None => !group_views(groups@).contains(tag@),
        },
{
    let mut p: usize = 0;
    while p < groups.len()
        invariant
            p <= groups.len(),
            forall|x: int| 0 <= x < p ==> (#[trigger] groups[x])@ != tag@,
        decreases groups.len() - p,
    {
        if groups[p].same(tag) {
            return Some(p);
        }
        p += 1;
    }
    proof {
        assert forall|x: int| 0 <= x < group_views(groups@).len() implies group_views(groups@)[x]
            != tag@ by {
            assert(groups[x]@ != tag@);
        }
    }
    None
}

/// Whether `field` is tagged with `group`.
fn tagged(field: &Field, group: &Group) -> (r: bool)
    ensures
        r == field.in_group(group@),
{
    let mut j: usize = 0;
    while j < field.groups.len()
        invariant
            j <= field.groups.len(),
            forall|x: int| 0 <= x < j ==> (#[trigger] field.groups[x])@ != group@,
        decreases field.groups.len() - j,
    {
        if field.groups[j].same(group) {
            return true;
        }
        j += 1;
    }
    false
}

/// The distinct groups of `fields`, in order of first appearance.
fn distinct_groups(fields: &Vec<Field>) -> (groups: Vec<Group>)
    ensures
        group_views(groups@) == distinct(all_tags(fields@)),
{
    let mut groups: Vec<Group> = Vec::new();
    let mut f: usize = 0;
    while f < fields.len()
        invariant
            f <= fields.len(),
            group_views(groups@) =~= distinct(all_tags(fields@.take(f as int))),
        decreases fields.len() - f,
    {
        let field = &fields[f];
        let ghost seen = all_tags(fields@.take(f as int));
        let ghost tags = group_views(field.groups@);
        let mut j: usize = 0;
        proof {
            assert(seen + tags.take(0) =~= seen);
        }
        while j < field.groups.len()
            invariant
                j <= field.groups.len(),
                tags == group_views(field.groups@),
                group_views(groups@) =~= distinct(seen + tags.take(j as int)),
            decreases field.groups.len() - j,
        {
            let tag = &field.groups[j];
            proof {
                assert((seen + tags.take(j + 1)).drop_last() =~= seen + tags.take(j as int));
                assert((seen + tags.take(j + 1)).last() == tag@);
            }
            let ghost kept = group_views(groups@);
            match position(&groups, tag) {
                Some(p) => {
                    proof {
                        assert(kept[p as int] == tag@);
                        assert(kept.contains(tag@));
                    }
                },
                None => {
                    groups.push(tag.clone());
                    proof {
                        assert(group_views(groups@) =~= kept.push(tag@));
                    }
                },
            }
            j += 1;
        }
        proof {
            assert(tags.take(tags.len() as int) =~= tags);
            assert(fields@.take(f + 1).drop_last() =~= fields@.take(f as int));
            assert(fields@.take(f + 1).last() == fields@[f as int]);
        }
        f += 1;
    }
    proof {
        assert(fields@.take(fields.len() as int) =~= fields@);
    }
    groups
}

/// The relation between groups and fields that the tags of `fields` make.
pub fn group_fields(fields: &Vec<Field>) -> (r: Grouped)
    ensures
        r.describes(fields@),
{
    let groups = distinct_groups(fields);
    let mut members: Vec<Vec<bool>> = Vec::new();
    let mut g: usize = 0;
    while g < groups.len()
        invariant
            g <= groups.len(),
            members.len() == g,
            forall|x: int| 0 <= x < g ==> (#[trigger] members[x]).len() == fields.len(),
            forall|x: int, y: int|
                0 <= x < g && 0 <= y < fields.len() ==> #[trigger] members[x][y]
                    == fields[y].in_group(groups[x]@),
        decreases groups.len() - g,
    {
        let mut row: Vec<bool> = Vec::new();
        let mut f: usize = 0;
        while f < fields.len()
            invariant
                g < groups.len(),
                f <= fields.len(),
                row.len() == f,
                forall|y: int| 0 <= y < f ==> #[trigger] row[y] == fields[y].in_group(groups[g as int]@),
            decreases fields.len() - f,
        {
            row.push(tagged(&fields[f], &groups[g]));
            f += 1;
        }
        members.push(row);
        g += 1;
    }
    let mut ungrouped: Vec<bool> = Vec::new();
    let mut f: usize = 0;
    while f < fields.len()
        invariant
            f <= fields.len(),
            ungrouped.len() == f,
            forall|y: int| 0 <= y < f ==> #[trigger] ungrouped[y] == (fields[y].groups.len() == 0),
        decreases fields.len() - f,
    {
        ungrouped.push(fields[f].groups.len() == 0);
        f += 1;
    }
    Grouped { groups, members, ungrouped }
}

/// Marks in `acc` every field that `row` marks.
fn union_into(acc: &mut Vec<bool>, row: &Vec<bool>)
    requires
        old(acc).len() == row.len(),
    ensures
        final(acc).len() == row.len(),
        forall|f: int| 0 <= f < row.len() ==> final(acc)[f] == (old(acc)[f] || row[f]),
{
    let ghost before = acc@;
    let mut f: usize = 0;
    while f < row.len()
        invariant
            f <= row.len(),
            acc.len() == row.len(),
            before.len() == row.len(),
            forall|x: int| 0 <= x < f ==> #[trigger] acc@[x] == (before[x] || row@[x]),
            forall|x: int| f <= x < row.len() ==> #[trigger] acc@[x] == before[x],
        decreases row.len() - f,
    {
        if row[f] {
            acc.set(f, true);
        }
        f += 1;
    }
}

/// A row of `width` entries that marks no field.
fn empty_row(width: usize) -> (r: Vec<bool>)
    ensures
        r.len() == width,
        forall|f: int| 0 <= f < width ==> !r[f],
{
    let mut row: Vec<bool> = Vec::new();
    let mut f: usize = 0;
    while f < width
        invariant
            f <= width,
            row.len() == f,
            forall|x: int| 0 <= x < f ==> !row[x],
        decreases width - f,
    {
        row.push(false);
        f += 1;
    }
    row
}

/// Resolves the nesting of the groups.
///
/// A group stands at the top when it contains every other group that it
/// shares a field with. Each such group carries, on one level, every other
/// group that shares a field with it, and the fields of those groups. Where
/// two groups share a field and neither contains the other, there is no
/// nesting, and the first such pair is reported.
pub fn calculate_supersets(grouped: &Grouped) -> (r: Result<Vec<Root>, ConfigError>)
    requires
        grouped.shaped(),
    ensures
        match r {
            Ok(roots) => grouped.consistent() && grouped.resolved(roots@),
            Err(e) => exists|a: int, b: int|
                0 <= a < grouped.groups.len() && 0 <= b < grouped.groups.len()
                    && #[trigger] grouped.first_conflict(a, b) && e.first@ == grouped.groups[a]@
                    && e.second@ == grouped.groups[b]@,
        },
{
    let n: usize = grouped.groups.len();
    let width: usize = grouped.ungrouped.len();
    let mut roots: Vec<Root> = Vec::new();
    let mut k: usize = 0;
    while k < n
        invariant
            grouped.shaped(),
            n == grouped.groups.len(),
            width == grouped.ungrouped.len(),
            k <= n,
            forall|x: int, y: int| 0 <= x < k && 0 <= y < n ==> !#[trigger] grouped.conflict(x, y),
            grouped.resolved_upto(roots@, k as nat),
        decreases n - k,
    {
        let mut sup: bool = true;
        let mut subs: Vec<usize> = Vec::new();
        let mut sub_fields: Vec<bool> = empty_row(width);
        let mut j: usize = 0;
        while j < n
            invariant
                grouped.shaped(),
                n == grouped.groups.len(),
                width == grouped.ungrouped.len(),
                k < n,
                j <= n,
                forall|x: int, y: int|
                    0 <= x < k && 0 <= y < n ==> !#[trigger] grouped.conflict(x, y),
                forall|y: int| 0 <= y < j ==> !#[trigger] grouped.conflict(k as int, y),
                sup == (forall|y: int| 0 <= y < j ==> #[trigger] grouped.dominates(k as int, y)),
                subs@ == grouped.sub_ids(k as int, j as nat),
                sub_fields.len() == width,
                forall|f: int|
                    0 <= f < width ==> #[trigger] sub_fields[f] == grouped.claimed_upto(
                        k as int,
                        j as int,
                        f,
                    ),
            decreases n - j,
        {
            let ghost before = sub_fields@;
            let ghost top = sup;
            proof {
                assert(grouped.members[j as int].len() == width);
            }
            if j != k && grouped.overlaps(k, j) {
                if grouped.contains_all(k, j) {
                    subs.push(j);
                    union_into(&mut sub_fields, &grouped.members[j]);
                } else if grouped.contains_all(j, k) {
                    sup = false;
                } else {
                    proof {
                        assert(grouped.first_conflict(k as int, j as int));
                    }
                    return Err(
                        ConfigError {
                            first: grouped.groups[k].clone(),
                            second: grouped.groups[j].clone(),
                        },
                    );
                }
            }
            proof {
                assert(!grouped.conflict(k as int, j as int));
                assert(sup == (top && grouped.dominates(k as int, j as int)));
                if top && grouped.dominates(k as int, j as int) {
                    assert forall|y: int| 0 <= y < j + 1 implies #[trigger] grouped.dominates(
                        k as int,
                        y,
                    ) by {}
                }
                assert forall|f: int| 0 <= f < width implies #[trigger] sub_fields[f]
                    == grouped.claimed_upto(k as int, j + 1, f) by {
                    assert(before[f] == grouped.claimed_upto(k as int, j as int, f));
                    assert(grouped.has(j as int, f) == grouped.members[j as int][f]);
                    assert(sub_fields[f] == (before[f] || grouped.gives(k as int, j as int, f)));
                    if grouped.claimed_upto(k as int, j + 1, f) {
                        let w = choose|w: int| 0 <= w < j + 1 && #[trigger] grouped.gives(k as int, w, f);
                        if w < j {
                            assert(grouped.claimed_upto(k as int, j as int, f));
                        }
                    }
                    if before[f] {
                        let w = choose|w: int| 0 <= w < j && #[trigger] grouped.gives(k as int, w, f);
                        assert(grouped.gives(k as int, w, f));
                    }
                }
            }
            j += 1;
        }
        if sup {
            roots.push(Root { group: k, subs, sub_fields });
        }
        k += 1;
    }
    Ok(roots)
}

/// Groups `a` and `b` share a field of `fields`.
pub open spec fn shares(fields: Seq<Field>, a: GroupView, b: GroupView) -> bool {
    exists|f: int| 0 <= f < fields.len() && #[trigger] fields[f].in_group(a) && fields[f].in_group(b)
}

/// Every field of `fields` that is tagged with `b` is tagged with `a`.
pub open spec fn covers(fields: Seq<Field>, a: GroupView, b: GroupView) -> bool {
    forall|f: int| 0 <= f < fields.len() && #[trigger] fields[f].in_group(b) ==> fields[f].in_group(a)
}

/// Groups `a` and `b` share a field of `fields`, and neither contains the
/// other: the fields give them no nesting.
pub open spec fn ambiguous(fields: Seq<Field>, a: GroupView, b: GroupView) -> bool {
    shares(fields, a, b) && !covers(fields, a, b) && !covers(fields, b, a)
}

/// Every tag of a list is among its distinct tags.
pub proof fn lemma_distinct_keeps(tags: Seq<GroupView>, i: int)
    requires
        0 <= i < tags.len(),
    ensures
        distinct(tags).contains(tags[i]),
    decreases tags.len(),
{
    let rest = distinct(tags.drop_last());
    if i == tags.len() - 1 {
        if !rest.contains(tags.last()) {
            assert(rest.push(tags.last())[rest.len() as int] == tags.last());
        }
    } else {
        lemma_distinct_keeps(tags.drop_last(), i);
        assert(tags.drop_last()[i] == tags[i]);
        let w = choose|w: int| 0 <= w < rest.len() && rest[w] == tags[i];
        if !rest.contains(tags.last()) {
            assert(rest.push(tags.last())[w] == tags[i]);
        }
    }
}

/// The distinct tags of a list hold no tag twice.
pub proof fn lemma_distinct_once(tags: Seq<GroupView>)
    ensures
        forall|a: int, b: int|
            0 <= a < b < distinct(tags).len() ==> distinct(tags)[a] != distinct(tags)[b],
    decreases tags.len(),
{
    if tags.len() > 0 {
        let rest = distinct(tags.drop_last());
        lemma_distinct_once(tags.drop_last());
        assert forall|a: int, b: int| 0 <= a < b < distinct(tags).len() implies distinct(tags)[a]
            != distinct(tags)[b] by {
            if b == rest.len() {
                assert(!rest.contains(tags.last()));
                assert(rest[a] != tags.last());
            }
        }
    }
}

/// Every distinct tag of a list is a tag of the list.
pub proof fn lemma_distinct_from(tags: Seq<GroupView>, i: int)
    requires
        0 <= i < distinct(tags).len(),
    ensures
        tags.contains(distinct(tags)[i]),
    decreases tags.len(),
{
    let head = tags.drop_last();
    let rest = distinct(head);
    if i < rest.len() {
        lemma_distinct_from(head, i);
        let q = choose|q: int| 0 <= q < head.len() && head[q] == rest[i];
        assert(tags[q] == distinct(tags)[i]);
    } else {
        assert(tags[tags.len() - 1] == distinct(tags)[i]);
    }
}

/// The distinct tags stand in the order in which they first occur: before
/// any occurrence of a distinct tag, each distinct tag listed before it has
/// occurred.
pub proof fn lemma_distinct_in_order(tags: Seq<GroupView>, a: int, b: int, q: int)
    requires
        0 <= a < b < distinct(tags).len(),
        0 <= q < tags.len(),
        tags[q] == distinct(tags)[b],
    ensures
        exists|p: int| 0 <= p < q && tags[p] == distinct(tags)[a],
    decreases tags.len(),
{
    let head = tags.drop_last();
    let rest = distinct(head);
    let last = tags.last();
    if rest.contains(last) {
        if q < head.len() {
            assert(head[q] == tags[q]);
            lemma_distinct_in_order(head, a, b, q);
            let p = choose|p: int| 0 <= p < q && head[p] == rest[a];
            assert(tags[p] == distinct(tags)[a]);
        } else {
            lemma_distinct_from(head, b);
            let w = choose|w: int| 0 <= w < head.len() && head[w] == rest[b];
            lemma_distinct_in_order(head, a, b, w);
            let p = choose|p: int| 0 <= p < w && head[p] == rest[a];
            assert(tags[p] == distinct(tags)[a]);
        }
    } else if b < rest.len() {
        if q < head.len() {
            assert(head[q] == tags[q]);
            lemma_distinct_in_order(head, a, b, q);
            let p = choose|p: int| 0 <= p < q && head[p] == rest[a];
            assert(tags[p] == distinct(tags)[a]);
        } else {
            assert(rest[b] == last);
        }
    } else {
        if q < head.len() {
            assert(head[q] == last);
            lemma_distinct_keeps(head, q);
        } else {
            lemma_distinct_from(head, a);
            let p = choose|p: int| 0 <= p < head.len() && head[p] == rest[a];
            assert(tags[p] == distinct(tags)[a]);
        }
    }
}

/// The tags of the first `k` fields open the tags of all fields.
pub proof fn lemma_tags_of_prefix(fields: Seq<Field>, k: int)
    requires
        0 <= k <= fields.len(),
    ensures
        all_tags(fields.take(k)).len() <= all_tags(fields).len(),
        forall|i: int|
            0 <= i < all_tags(fields.take(k)).len() ==> all_tags(fields.take(k))[i] == all_tags(
                fields,
            )[i],
    decreases fields.len(),
{
    if k == fields.len() {
        assert(fields.take(k) =~= fields);
    } else {
        assert(fields.drop_last().take(k) =~= fields.take(k));
        lemma_tags_of_prefix(fields.drop_last(), k);
    }
}

/// Every tag of the fields is a tag of one of the fields.
pub proof fn lemma_tag_owner(fields: Seq<Field>, p: int)
    requires
        0 <= p < all_tags(fields).len(),
    ensures
        exists|e: int| 0 <= e < fields.len() && (#[trigger] fields[e]).in_group(all_tags(fields)[p]),
    decreases fields.len(),
{
    let head = all_tags(fields.drop_last());
    let tail = group_views(fields.last().groups@);
    if p < head.len() {
        lemma_tag_owner(fields.drop_last(), p);
        let e = choose|e: int|
            0 <= e < fields.drop_last().len() && (#[trigger] fields.drop_last()[e]).in_group(head[p]);
        assert(fields[e] == fields.drop_last()[e]);
        assert(fields[e].in_group(all_tags(fields)[p]));
    } else {
        let e = fields.len() - 1;
        let j = p - head.len();
        assert(fields[e].groups[j]@ == tail[j]);
        assert(fields[e].in_group(all_tags(fields)[p]));
    }
}

/// Every group that a field is tagged with is among the tags of the fields.
pub proof fn lemma_tag_listed(fields: Seq<Field>, f: int, g: GroupView)
    requires
        0 <= f < fields.len(),
        fields[f].in_group(g),
    ensures
        all_tags(fields).contains(g),
    decreases fields.len(),
{
    let head = all_tags(fields.drop_last());
    let tail = group_views(fields.last().groups@);
    if f == fields.len() - 1 {
        let j = choose|j: int| 0 <= j < fields[f].groups.len() && (#[trigger] fields[f].groups[j])@ == g;
        assert(tail[j] == g);
        assert((head + tail)[head.len() + j] == g);
    } else {
        lemma_tag_listed(fields.drop_last(), f, g);
        let w = choose|w: int| 0 <= w < head.len() && head[w] == g;
        assert((head + tail)[w] == g);
    }
}

impl Grouped {
    /// No group is listed twice.
    pub proof fn lemma_groups_distinct(&self, fields: Seq<Field>)
        requires
            self.describes(fields),
        ensures
            forall|a: int, b: int|
                0 <= a < b < self.groups.len() ==> (#[trigger] self.groups[a])@ != (
                #[trigger] self.groups[b])@,
    {
        lemma_distinct_once(all_tags(fields));
        let views = group_views(self.groups@);
        assert forall|a: int, b: int| 0 <= a < b < self.groups.len() implies (
        #[trigger] self.groups[a])@ != (#[trigger] self.groups[b])@ by {
            assert(views[a] == self.groups[a]@);
            assert(views[b] == self.groups[b]@);
        }
    }

    /// The groups are listed in the order of their first member fields:
    /// where a group has the member `f`, each group listed before it has a
    /// member that is `f` or is declared before `f`.
    pub proof fn lemma_groups_in_order_of_first_member(
        &self,
        fields: Seq<Field>,
        a: int,
        b: int,
        f: int,
    )
        requires
            self.describes(fields),
            0 <= a < b < self.groups.len(),
            self.has(b, f),
        ensures
            exists|e: int| 0 <= e <= f && #[trigger] self.has(a, e),
    {
        let tags = all_tags(fields);
        let views = group_views(self.groups@);
        assert(views[a] == self.groups[a]@);
        assert(views[b] == self.groups[b]@);
        assert(self.members[b].len() == fields.len());
        assert(fields[f].in_group(self.groups[b]@));
        let part = fields.take(f + 1);
        let early = all_tags(part);
        lemma_tags_of_prefix(fields, f + 1);
        assert(part[f] == fields[f]);
        lemma_tag_listed(part, f, views[b]);
        let q = choose|q: int| 0 <= q < early.len() && early[q] == views[b];
        assert(tags[q] == views[b]);
        lemma_distinct_in_order(tags, a, b, q);
        let p = choose|p: int| 0 <= p < q && tags[p] == views[a];
        assert(early[p] == views[a]);
        lemma_tag_owner(part, p);
        let e = choose|e: int| 0 <= e < part.len() && (#[trigger] part[e]).in_group(early[p]);
        assert(part[e] == fields[e]);
        assert(self.has(a, e) == fields[e].in_group(self.groups[a]@));
    }

    /// The rows say of two groups what the fields say of them.
    pub proof fn lemma_conflict_is_ambiguity(&self, fields: Seq<Field>, a: int, b: int)
        requires
            self.describes(fields),
            0 <= a < self.groups.len(),
            0 <= b < self.groups.len(),
        ensures
            self.conflict(a, b) == ambiguous(fields, self.groups[a]@, self.groups[b]@),
            self.overlap(a, b) == shares(fields, self.groups[a]@, self.groups[b]@),
            self.includes(a, b) == covers(fields, self.groups[a]@, self.groups[b]@),
    {
        let ga = self.groups[a]@;
        let gb = self.groups[b]@;
        assert forall|f: int| 0 <= f < fields.len() implies (#[trigger] self.has(a, f)
            == fields[f].in_group(ga)) && (#[trigger] self.has(b, f) == fields[f].in_group(gb)) by {}
        assert forall|f: int| !(0 <= f < fields.len()) implies !(#[trigger] self.has(a, f))
            && !(#[trigger] self.has(b, f)) by {
            assert(self.members[a].len() == fields.len());
            assert(self.members[b].len() == fields.len());
        }
        if self.overlap(a, b) {
            let f = choose|f: int| #[trigger] self.has(a, f) && self.has(b, f);
            assert(fields[f].in_group(ga) && fields[f].in_group(gb));
        }
        if shares(fields, ga, gb) {
            let f = choose|f: int|
                0 <= f < fields.len() && #[trigger] fields[f].in_group(ga) && fields[f].in_group(gb);
            assert(self.has(a, f) && self.has(b, f));
        }
        self.lemma_includes_is_cover(fields, a, b);
        self.lemma_includes_is_cover(fields, b, a);
        if a == b {
            assert(covers(fields, ga, gb));
        }
    }

    /// One row contains another exactly when the fields say so of the two
    /// groups.
    pub proof fn lemma_includes_is_cover(&self, fields: Seq<Field>, a: int, b: int)
        requires
            self.describes(fields),
            0 <= a < self.groups.len(),
            0 <= b < self.groups.len(),
        ensures
            self.includes(a, b) == covers(fields, self.groups[a]@, self.groups[b]@),
    {
        let ga = self.groups[a]@;
        let gb = self.groups[b]@;
        assert(self.members[a].len() == fields.len());
        assert(self.members[b].len() == fields.len());
        if self.includes(a, b) {
            assert forall|f: int| 0 <= f < fields.len() && #[trigger] fields[f].in_group(
                gb,
            ) implies fields[f].in_group(ga) by {
                assert(self.has(b, f));
                assert(self.has(a, f));
            }
        }
        if covers(fields, ga, gb) {
            assert forall|f: int| #[trigger] self.has(b, f) implies self.has(a, f) by {
                assert(fields[f].in_group(gb));
                assert(self.has(a, f) == fields[f].in_group(ga));
            }
        }
    }

    /// Where no two rows are in conflict, the fields leave no two groups
    /// without a nesting.
    pub proof fn lemma_consistent_is_unambiguous(&self, fields: Seq<Field>)
        requires
            self.describes(fields),
            self.consistent(),
        ensures
            forall|a: GroupView, b: GroupView| !#[trigger] ambiguous(fields, a, b),
    {
        assert forall|a: GroupView, b: GroupView| !#[trigger] ambiguous(fields, a, b) by {
            if ambiguous(fields, a, b) {
                let f = choose|f: int|
                    0 <= f < fields.len() && #[trigger] fields[f].in_group(a) && fields[f].in_group(b);
                let views = group_views(self.groups@);
                lemma_tag_listed(fields, f, a);
                lemma_tag_listed(fields, f, b);
                let ia = choose|i: int| 0 <= i < all_tags(fields).len() && all_tags(fields)[i] == a;
                let ib = choose|i: int| 0 <= i < all_tags(fields).len() && all_tags(fields)[i] == b;
                lemma_distinct_keeps(all_tags(fields), ia);
                lemma_distinct_keeps(all_tags(fields), ib);
                let x = choose|x: int| 0 <= x < views.len() && views[x] == a;
                let y = choose|y: int| 0 <= y < views.len() && views[y] == b;
                self.lemma_conflict_is_ambiguity(fields, x, y);
                assert(self.conflict(x, y));
            }
        }
    }

    /// The listed top groups are exactly the groups that stand at the top.
    pub proof fn lemma_root_ids(&self, upto: nat)
        requires
            upto <= self.groups.len(),
        ensures
            forall|i: int|
                0 <= i < self.root_ids(upto).len() ==> (#[trigger] self.root_ids(upto)[i]) < upto
                    && self.is_root(self.root_ids(upto)[i] as int),
            forall|k: int|
                0 <= k < upto && self.is_root(k) ==> #[trigger] self.root_ids(upto).contains(
                    k as usize,
                ),
        decreases upto,
    {
        if upto > 0 {
            let less = self.root_ids((upto - 1) as nat);
            self.lemma_root_ids((upto - 1) as nat);
            assert forall|k: int| 0 <= k < upto && self.is_root(k) implies #[trigger] self.root_ids(
                upto,
            ).contains(k as usize) by {
                if k < upto - 1 {
                    assert(less.contains(k as usize));
                    let w = choose|w: int| 0 <= w < less.len() && less[w] == k as usize;
                    assert(self.root_ids(upto)[w] == k as usize);
                } else {
                    assert(self.root_ids(upto)[less.len() as int] == k as usize);
                }
            }
        }
    }

    /// The groups listed inside group `k` are exactly the other groups that
    /// share a field with `k` and are contained in it.
    pub proof fn lemma_sub_ids(&self, k: int, upto: nat)
        requires
            upto <= self.groups.len(),
        ensures
            forall|i: int|
                0 <= i < self.sub_ids(k, upto).len() ==> (#[trigger] self.sub_ids(k, upto)[i]) < upto
                    && self.is_sub(k, self.sub_ids(k, upto)[i] as int),
            forall|j: int|
                0 <= j < upto && self.is_sub(k, j) ==> #[trigger] self.sub_ids(k, upto).contains(
                    j as usize,
                ),
        decreases upto,
    {
        if upto > 0 {
            let less = self.sub_ids(k, (upto - 1) as nat);
            self.lemma_sub_ids(k, (upto - 1) as nat);
            assert forall|j: int| 0 <= j < upto && self.is_sub(k, j) implies #[trigger] self.sub_ids(
                k,
                upto,
            ).contains(j as usize) by {
                if j < upto - 1 {
                    assert(less.contains(j as usize));
                    let w = choose|w: int| 0 <= w < less.len() && less[w] == j as usize;
                    assert(self.sub_ids(k, upto)[w] == j as usize);
                } else {
                    assert(self.sub_ids(k, upto)[less.len() as int] == j as usize);
                }
            }
        }
    }

    /// The entries of a resolved nesting stay within the relation.
    pub proof fn lemma_resolved_is_placed(&self, roots: Seq<Root>)
        requires
            self.resolved(roots),
        ensures
            self.placed(roots),
    {
        let n = self.groups.len() as nat;
        self.lemma_root_ids(n);
        assert forall|i: int| 0 <= i < roots.len() implies {
            &&& (#[trigger] roots[i]).group < self.groups.len()
            &&& roots[i].sub_fields.len() == self.ungrouped.len()
            &&& forall|j: int|
                0 <= j < roots[i].subs.len() ==> #[trigger] roots[i].subs[j] < self.groups.len()
        } by {
            let k = self.root_ids(n)[i];
            assert(self.root_of(roots[i], k as int));
            self.lemma_sub_ids(k as int, n);
        }
    }

    /// How many of the first `upto` fields are members of group `g`.
    pub open spec fn count_upto(&self, g: int, upto: nat) -> nat
        decreases upto,
    {
        if upto == 0 {
            0
        } else {
            self.count_upto(g, (upto - 1) as nat) + if self.has(g, upto - 1) {
                1nat
            } else {
                0nat
            }
        }
    }

    /// A group has no more members than the group that contains it, and
    /// none has more members than there are fields.
    pub proof fn lemma_count_grows(&self, a: int, b: int, upto: nat)
        requires
            self.includes(a, b),
        ensures
            self.count_upto(b, upto) <= self.count_upto(a, upto) <= upto,
        decreases upto,
    {
        if upto > 0 {
            self.lemma_count_grows(a, b, (upto - 1) as nat);
        }
    }

    /// A group has fewer members than a group that contains it and has a
    /// member more.
    pub proof fn lemma_count_grows_strictly(&self, a: int, b: int, upto: nat, f: int)
        requires
            self.includes(a, b),
            0 <= f < upto,
            self.has(a, f),
            !self.has(b, f),
        ensures
            self.count_upto(b, upto) < self.count_upto(a, upto),
        decreases upto,
    {
        if f == upto - 1 {
            self.lemma_count_grows(a, b, (upto - 1) as nat);
        } else {
            self.lemma_count_grows_strictly(a, b, (upto - 1) as nat, f);
        }
    }

    /// Where no two groups are in conflict, every group stands at the top
    /// or is written inside a group that stands at the top.
    pub proof fn lemma_under_a_root(&self, g: int)
        requires
            self.shaped(),
            self.consistent(),
            0 <= g < self.groups.len(),
        ensures
            exists|k: int|
                0 <= k < self.groups.len() && #[trigger] self.is_root(k) && (k == g || self.is_sub(
                    k,
                    g,
                )),
        decreases self.ungrouped.len() - self.count_upto(g, self.ungrouped.len() as nat),
    {
        let width = self.ungrouped.len() as nat;
        if self.is_root(g) {
        } else {
            let j = choose|j: int| 0 <= j < self.groups.len() && !#[trigger] self.dominates(g, j);
            assert(!self.conflict(g, j));
            let shared = choose|f: int| #[trigger] self.has(g, f) && self.has(j, f);
            let f = choose|f: int| #[trigger] self.has(j, f) && !self.has(g, f);
            assert(self.members[j].len() == width);
            self.lemma_count_grows_strictly(j, g, width, f);
            self.lemma_count_grows(j, j, width);
            self.lemma_under_a_root(j);
            let k = choose|k: int|
                0 <= k < self.groups.len() && #[trigger] self.is_root(k) && (k == j || self.is_sub(
                    k,
                    j,
                ));
            assert(self.has(j, shared) && self.has(g, shared));
            if k != j {
                assert(self.has(k, shared) && self.has(g, shared));
                assert(self.has(k, f));
            }
            assert(self.is_sub(k, g));
        }
    }

    /// Nesting is flat: a group inside a group inside `a` is itself written
    /// directly inside `a`.
    pub proof fn lemma_children_are_flat(&self, a: int, b: int, c: int)
        requires
            self.is_sub(a, b),
            self.is_sub(b, c),
            c != a,
        ensures
            self.is_sub(a, c),
    {
        let f = choose|f: int| #[trigger] self.has(b, f) && self.has(c, f);
        assert(self.has(a, f) && self.has(c, f));
    }

    /// A group that lies inside another without containing it does not stand
    /// at the top.
    pub proof fn lemma_strict_subset_is_no_root(&self, a: int, b: int)
        requires
            0 <= a < self.groups.len(),
            self.is_sub(a, b),
            !self.includes(b, a),
        ensures
            !self.is_root(b),
    {
        let f = choose|f: int| #[trigger] self.has(a, f) && self.has(b, f);
        assert(self.has(b, f) && self.has(a, f));
        assert(self.overlap(b, a));
        assert(!self.dominates(b, a));
    }

    /// Two groups that share a field, each with a field that the other
    /// lacks, are in conflict.
    pub proof fn lemma_partial_overlap_conflicts(&self, a: int, b: int, both: int, left: int, right: int)
        requires
            self.has(a, both) && self.has(b, both),
            self.has(a, left) && !self.has(b, left),
            self.has(b, right) && !self.has(a, right),
        ensures
            self.conflict(a, b),
    {
    }
}

} // verus!
