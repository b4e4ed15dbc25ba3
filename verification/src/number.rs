//! Integers and characters as message values: an integer writes its
//! decimal digits between the tags, a character itself.

use vstd::prelude::*;
use vstd::string::*;
use crate::display::{element_text, DisplayAction};
use crate::render::{write_close, write_open};

verus! {

/// The character of one decimal digit.
pub open spec fn digit(d: nat) -> char {
    if d == 0 {
        '0'
    } else if d == 1 {
        '1'
    } else if d == 2 {
        '2'
    } else if d == 3 {
        '3'
    } else if d == 4 {
        '4'
    } else if d == 5 {
        '5'
    } else if d == 6 {
        '6'
    } else if d == 7 {
        '7'
    } else if d == 8 {
        '8'
    } else {
        '9'
    }
}

/// The decimal digits of `v`, without leading zeros.
pub open spec fn decimal(v: nat) -> Seq<char>
    decreases v,
{
    if v < 10 {
        seq![digit(v)]
    } else {
        decimal(v / 10).push(digit(v % 10))
    }
}

/// The decimal digits of `v`, after a minus sign where `v` is negative.
pub open spec fn signed_decimal(v: int) -> Seq<char> {
    if v < 0 {
        seq!['-'] + decimal((-v) as nat)
    } else {
        decimal(v as nat)
    }
}

/// Calls `String::push`, which appends the one character to the string.
#[verifier::external_body]
fn push_char(out: &mut String, c: char)
    ensures
        final(out)@ == old(out)@.push(c),
{
    out.push(c);
}

/// Appends one decimal digit.
fn write_digit(out: &mut String, d: u8)
    requires
        d < 10,
    ensures
        final(out)@ == old(out)@.push(digit(d as nat)),
{
    let c: char = match d {
        0 => '0',
        1 => '1',
        2 => '2',
        3 => '3',
        4 => '4',
        5 => '5',
        6 => '6',
        7 => '7',
        8 => '8',
        _ => '9',
    };
    push_char(out, c);
}

/// Appends the decimal digits of `v`.
pub fn write_decimal(out: &mut String, v: u128)
    ensures
        final(out)@ == old(out)@ + decimal(v as nat),
    decreases v,
{
    let ghost start = out@;
    if v >= 10 {
        write_decimal(out, v / 10);
    }
    write_digit(out, (v % 10) as u8);
    assert(out@ =~= start + decimal(v as nat));
}

/// Appends the decimal digits of `v`, after a minus sign where `v` is
/// negative.
pub fn write_signed_decimal(out: &mut String, v: i128)
    ensures
        final(out)@ == old(out)@ + signed_decimal(v as int),
{
    let ghost start = out@;
    if v < 0 {
        push_char(out, '-');
        let magnitude: u128 = (-(v + 1)) as u128 + 1;
        write_decimal(out, magnitude);
        assert(out@ =~= start + signed_decimal(v as int));
    } else {
        write_decimal(out, v as u128);
    }
}

/// Appends `<action>`, the digits of `v`, `</action>`.
pub fn write_unsigned(out: &mut String, action: &str, v: u128)
    ensures
        final(out)@ == old(out)@ + element_text(action@, decimal(v as nat)),
{
    let ghost start = out@;
    write_open(out, action);
    write_decimal(out, v);
    write_close(out, action);
    assert(out@ =~= start + element_text(action@, decimal(v as nat)));
}

/// Appends `<action>`, the sign and digits of `v`, `</action>`.
pub fn write_signed(out: &mut String, action: &str, v: i128)
    ensures
        final(out)@ == old(out)@ + element_text(action@, signed_decimal(v as int)),
{
    let ghost start = out@;
    write_open(out, action);
    write_signed_decimal(out, v);
    write_close(out, action);
    assert(out@ =~= start + element_text(action@, signed_decimal(v as int)));
}

impl DisplayAction for char {
    open spec fn obeys_display_spec() -> bool {
        true
    }

    open spec fn action_text(&self, action: Seq<char>) -> Seq<char> {
        element_text(action, seq![*self])
    }

    open spec fn writable(&self, action: Seq<char>) -> bool {
        true
    }

    fn fmt(&self, fmt: &mut String, action: &str) -> (r: Result<(), std::fmt::Error>) {
        let ghost start = fmt@;
        write_open(fmt, action);
        push_char(fmt, *self);
        write_close(fmt, action);
        assert(fmt@ =~= start + element_text(action@, seq![*self]));
        Ok(())
    }
}

impl DisplayAction for usize {
    open spec fn obeys_display_spec() -> bool {
        true
    }

    open spec fn action_text(&self, action: Seq<char>) -> Seq<char> {
        element_text(action, decimal(*self as nat))
    }

    open spec fn writable(&self, action: Seq<char>) -> bool {
        true
    }

    fn fmt(&self, fmt: &mut String, action: &str) -> (r: Result<(), std::fmt::Error>) {
        write_unsigned(fmt, action, *self as u128);
        Ok(())
    }
}

impl DisplayAction for u8 {
    open spec fn obeys_display_spec() -> bool {
        true
    }

    open spec fn action_text(&self, action: Seq<char>) -> Seq<char> {
        element_text(action, decimal(*self as nat))
    }

    open spec fn writable(&self, action: Seq<char>) -> bool {
        true
    }

    fn fmt(&self, fmt: &mut String, action: &str) -> (r: Result<(), std::fmt::Error>) {
        write_unsigned(fmt, action, *self as u128);
        Ok(())
    }
}

impl DisplayAction for u16 {
    open spec fn obeys_display_spec() -> bool {
        true
    }

    open spec fn action_text(&self, action: Seq<char>) -> Seq<char> {
        element_text(action, decimal(*self as nat))
    }

    open spec fn writable(&self, action: Seq<char>) -> bool {
        true
    }

    fn fmt(&self, fmt: &mut String, action: &str) -> (r: Result<(), std::fmt::Error>) {
        write_unsigned(fmt, action, *self as u128);
        Ok(())
    }
}

impl DisplayAction for u32 {
    open spec fn obeys_display_spec() -> bool {
        true
    }

    open spec fn action_text(&self, action: Seq<char>) -> Seq<char> {
        element_text(action, decimal(*self as nat))
    }

    open spec fn writable(&self, action: Seq<char>) -> bool {
        true
    }

    fn fmt(&self, fmt: &mut String, action: &str) -> (r: Result<(), std::fmt::Error>) {
        write_unsigned(fmt, action, *self as u128);
        Ok(())
    }
}

impl DisplayAction for u64 {
    open spec fn obeys_display_spec() -> bool {
        true
    }

    open spec fn action_text(&self, action: Seq<char>) -> Seq<char> {
        element_text(action, decimal(*self as nat))
    }

    open spec fn writable(&self, action: Seq<char>) -> bool {
        true
    }

    fn fmt(&self, fmt: &mut String, action: &str) -> (r: Result<(), std::fmt::Error>) {
        write_unsigned(fmt, action, *self as u128);
        Ok(())
    }
}

impl DisplayAction for u128 {
    open spec fn obeys_display_spec() -> bool {
        true
    }

    open spec fn action_text(&self, action: Seq<char>) -> Seq<char> {
        element_text(action, decimal(*self as nat))
    }

    open spec fn writable(&self, action: Seq<char>) -> bool {
        true
    }

    fn fmt(&self, fmt: &mut String, action: &str) -> (r: Result<(), std::fmt::Error>) {
        write_unsigned(fmt, action, *self);
        Ok(())
    }
}

impl DisplayAction for isize {
    open spec fn obeys_display_spec() -> bool {
        true
    }

    open spec fn action_text(&self, action: Seq<char>) -> Seq<char> {
        element_text(action, signed_decimal(*self as int))
    }

    open spec fn writable(&self, action: Seq<char>) -> bool {
        true
    }

    fn fmt(&self, fmt: &mut String, action: &str) -> (r: Result<(), std::fmt::Error>) {
        write_signed(fmt, action, *self as i128);
        Ok(())
    }
}

impl DisplayAction for i8 {
    open spec fn obeys_display_spec() -> bool {
        true
    }

    open spec fn action_text(&self, action: Seq<char>) -> Seq<char> {
        element_text(action, signed_decimal(*self as int))
    }

    open spec fn writable(&self, action: Seq<char>) -> bool {
        true
    }

    fn fmt(&self, fmt: &mut String, action: &str) -> (r: Result<(), std::fmt::Error>) {
        write_signed(fmt, action, *self as i128);
        Ok(())
    }
}

impl DisplayAction for i16 {
    open spec fn obeys_display_spec() -> bool {
        true
    }

    open spec fn action_text(&self, action: Seq<char>) -> Seq<char> {
        element_text(action, signed_decimal(*self as int))
    }

    open spec fn writable(&self, action: Seq<char>) -> bool {
        true
    }

    fn fmt(&self, fmt: &mut String, action: &str) -> (r: Result<(), std::fmt::Error>) {
        write_signed(fmt, action, *self as i128);
        Ok(())
    }
}

impl DisplayAction for i32 {
    open spec fn obeys_display_spec() -> bool {
        true
    }

    open spec fn action_text(&self, action: Seq<char>) -> Seq<char> {
        element_text(action, signed_decimal(*self as int))
    }

    open spec fn writable(&self, action: Seq<char>) -> bool {
        true
    }

    fn fmt(&self, fmt: &mut String, action: &str) -> (r: Result<(), std::fmt::Error>) {
        write_signed(fmt, action, *self as i128);
        Ok(())
    }
}

impl DisplayAction for i64 {
    open spec fn obeys_display_spec() -> bool {
        true
    }

    open spec fn action_text(&self, action: Seq<char>) -> Seq<char> {
        element_text(action, signed_decimal(*self as int))
    }

    open spec fn writable(&self, action: Seq<char>) -> bool {
        true
    }

    fn fmt(&self, fmt: &mut String, action: &str) -> (r: Result<(), std::fmt::Error>) {
        write_signed(fmt, action, *self as i128);
        Ok(())
    }
}

impl DisplayAction for i128 {
    open spec fn obeys_display_spec() -> bool {
        true
    }

    open spec fn action_text(&self, action: Seq<char>) -> Seq<char> {
        element_text(action, signed_decimal(*self as int))
    }

    open spec fn writable(&self, action: Seq<char>) -> bool {
        true
    }

    fn fmt(&self, fmt: &mut String, action: &str) -> (r: Result<(), std::fmt::Error>) {
        write_signed(fmt, action, *self);
        Ok(())
    }
}

} // verus!
