//! Values that write themselves as text under a tag name.

use vstd::prelude::*;
use vstd::string::*;
use crate::render::{close_tag, open_tag, write_close, write_open};

verus! {

/// The error of a text sink, `std::fmt::Error`: a value without contents.
#[verifier::external_type_specification]
#[verifier::external_body]
pub struct ExFmtError(std::fmt::Error);

/// A value that can be written into a message under a tag name.
///
/// An impl that states what it writes says so in `obeys_display_spec`; of
/// any other impl nothing is known but what `fmt` returns.
pub trait DisplayAction {
    /// Whether `fmt` keeps to `action_text` and `writable`.
    open spec fn obeys_display_spec() -> bool {
        false
    }

    /// What the value writes under the tag name `action`.
    open spec fn action_text(&self, action: Seq<char>) -> Seq<char> {
        Seq::empty()
    }

    /// Whether the value can be written under the tag name `action`.
    open spec fn writable(&self, action: Seq<char>) -> bool {
        true
    }

    /// Appends the value to `fmt` under the tag name `action`. Where it
    /// fails, what `fmt` holds is left open.
    fn fmt(&self, fmt: &mut String, action: &str) -> (r: Result<(), std::fmt::Error>)
        ensures
            Self::obeys_display_spec() ==> r is Ok == self.writable(action@),
            Self::obeys_display_spec() && r is Ok ==> final(fmt)@ == old(fmt)@ + self.action_text(
                action@,
            ),
    ;
}

/// `<action>data</action>`
pub open spec fn element_text(action: Seq<char>, data: Seq<char>) -> Seq<char> {
    open_tag(action) + data + close_tag(action)
}

/// Appends `<action>data</action>`.
pub fn write_element(out: &mut String, action: &str, data: &str)
    ensures
        final(out)@ == old(out)@ + element_text(action@, data@),
{
    let ghost start = out@;
    write_open(out, action);
    out.append(data);
    write_close(out, action);
    assert(out@ =~= start + element_text(action@, data@));
}

/// The unit value writes nothing.
impl DisplayAction for () {
    open spec fn obeys_display_spec() -> bool {
        true
    }

    open spec fn action_text(&self, action: Seq<char>) -> Seq<char> {
        Seq::empty()
    }

    open spec fn writable(&self, action: Seq<char>) -> bool {
        true
    }

    fn fmt(&self, fmt: &mut String, action: &str) -> (r: Result<(), std::fmt::Error>) {
        assert(fmt@ =~= fmt@ + Seq::<char>::empty());
        Ok(())
    }
}

/// An absent value writes nothing; a given one writes itself.
impl<T: DisplayAction> DisplayAction for Option<T> {
    open spec fn obeys_display_spec() -> bool {
        T::obeys_display_spec()
    }

    open spec fn action_text(&self, action: Seq<char>) -> Seq<char> {
        match self {
            Some(v) => v.action_text(action),
            None => Seq::empty(),
        }
    }

    open spec fn writable(&self, action: Seq<char>) -> bool {
        match self {
            Some(v) => v.writable(action),
            None => true,
        }
    }

    fn fmt(&self, fmt: &mut String, action: &str) -> (r: Result<(), std::fmt::Error>) {
        match self {
            Some(v) => v.fmt(fmt, action),
            None => {
                assert(fmt@ =~= fmt@ + Seq::<char>::empty());
                Ok(())
            },
        }
    }
}

/// A string writes itself between the tags.
impl DisplayAction for String {
    open spec fn obeys_display_spec() -> bool {
        true
    }

    open spec fn action_text(&self, action: Seq<char>) -> Seq<char> {
        element_text(action, self@)
    }

    open spec fn writable(&self, action: Seq<char>) -> bool {
        true
    }

    fn fmt(&self, fmt: &mut String, action: &str) -> (r: Result<(), std::fmt::Error>) {
        write_element(fmt, action, self.as_str());
        Ok(())
    }
}

/// A string slice writes itself between the tags.
impl DisplayAction for &str {
    open spec fn obeys_display_spec() -> bool {
        true
    }

    open spec fn action_text(&self, action: Seq<char>) -> Seq<char> {
        element_text(action, self@)
    }

    open spec fn writable(&self, action: Seq<char>) -> bool {
        true
    }

    fn fmt(&self, fmt: &mut String, action: &str) -> (r: Result<(), std::fmt::Error>) {
        write_element(fmt, action, *self);
        Ok(())
    }
}

} // verus!
