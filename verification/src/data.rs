//! A record type: its own options, its name and its fields in declaration
//! order.

use vstd::prelude::*;
use crate::attr::Attr;
use crate::field::{first_group_name, Field};

verus! {

/// A record type.
#[derive(Debug)]
pub struct Data {
    /// The options of the record itself.
    pub attrs: Vec<Attr>,
    /// The record's name.
    pub ident: String,
    /// The fields, in declaration order.
    pub fields: Vec<Field>,
}

impl Data {
    /// The name of the group that wraps the whole record: that of the first
    /// `Group` option of the record, if it has one.
    pub open spec fn top_name(&self) -> Option<Seq<char>> {
        first_group_name(self.attrs@)
    }

    /// The name of the group that wraps the whole record, if one is declared.
    pub fn top_group(&self) -> (r: Option<String>)
        ensures
            match r {
                Some(s) => Some(s@),
                None => None,
            } == self.top_name(),
    {
        let mut i: usize = 0;
        while i < self.attrs.len()
            invariant
                i <= self.attrs.len(),
                first_group_name(self.attrs@.take(i as int)) is None,
            decreases self.attrs.len() - i,
        {
            proof {
                assert(self.attrs@.take(i + 1).drop_last() =~= self.attrs@.take(i as int));
                assert(self.attrs@.take(i + 1).last() == self.attrs@[i as int]);
            }
            if let Attr::Group(g) = &self.attrs[i] {
                proof {
                    lemma_first_group_stays(self.attrs@, i + 1);
                }
                return Some(g.name.clone());
            }
            i += 1;
        }
        proof {
            assert(self.attrs@.take(self.attrs.len() as int) =~= self.attrs@);
        }
        None
    }
}

/// Once a prefix of `attrs` holds a group, the first group name of the
/// whole list is that of the prefix.
proof fn lemma_first_group_stays(attrs: Seq<Attr>, n: int)
    requires
        0 <= n <= attrs.len(),
        first_group_name(attrs.take(n)) is Some,
    ensures
        first_group_name(attrs) == first_group_name(attrs.take(n)),
    decreases attrs.len() - n,
{
    if n < attrs.len() {
        assert(attrs.take(n + 1).drop_last() =~= attrs.take(n));
        lemma_first_group_stays(attrs, n + 1);
    } else {
        assert(attrs.take(n) =~= attrs);
    }
}

} // verus!
