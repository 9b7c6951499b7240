//! Decimal rendering of identifiers and the diagnostic messages that the
//! store's `NotFound` errors carry.

use vstd::prelude::*;
use vstd::string::StringExecFns;

verus! {

/// The decimal digit character of a value below ten.
pub open spec fn spec_digit(d: u64) -> char
    recommends
        d < 10,
{
    ((d + 48) as u8) as char
}

/// The decimal digits of a value, most significant first.
pub open spec fn spec_dec_chars(x: u64) -> Seq<char>
    decreases x,
{
    if x < 10 {
        seq![spec_digit(x)]
    } else {
        spec_dec_chars(x / 10).push(spec_digit((x % 10) as u64))
    }
}

/// The one-character text of a decimal digit.
fn digit_str(d: u64) -> (r: &'static str)
    requires
        d < 10,
    ensures
        r@ == seq![spec_digit(d)],
{
    proof {
        reveal_strlit("0");
        reveal_strlit("1");
        reveal_strlit("2");
        reveal_strlit("3");
        reveal_strlit("4");
        reveal_strlit("5");
        reveal_strlit("6");
        reveal_strlit("7");
        reveal_strlit("8");
        reveal_strlit("9");
    }
    if d == 0 {
        "0"
    } else if d == 1 {
        "1"
    } else if d == 2 {
        "2"
    } else if d == 3 {
        "3"
    } else if d == 4 {
        "4"
    } else if d == 5 {
        "5"
    } else if d == 6 {
        "6"
    } else if d == 7 {
        "7"
    } else if d == 8 {
        "8"
    } else {
        "9"
    }
}

/// Renders a value in decimal, most significant digit first.
pub fn u64_to_dec_string(x: u64) -> (r: String)
    ensures
        r@ == spec_dec_chars(x),
    decreases x,
{
    if x < 10 {
        digit_str(x).to_owned()
    } else {
        let mut s = u64_to_dec_string(x / 10);
        s.append(digit_str(x % 10));
        proof {
            assert(s@ =~= spec_dec_chars(x));
        }
        s
    }
}

/// The message of a failed read: names the id that has no record.
pub open spec fn spec_get_msg(id: u64) -> Seq<char> {
    "a book with id="@ + spec_dec_chars(id) + " not found"@
}

/// Builds the failed-read message.
pub fn get_msg(id: u64) -> (r: String)
    ensures
        r@ == spec_get_msg(id),
{
    let mut s = "a book with id=".to_owned();
    let d = u64_to_dec_string(id);
    s.append(d.as_str());
    s.append(" not found");
    s
}

/// The message of a failed update: names the id that has no record.
pub open spec fn spec_update_msg(id: u64) -> Seq<char> {
    "couldn't update a book with id="@ + spec_dec_chars(id) + ". message not found"@
}

/// Builds the failed-update message.
pub fn update_msg(id: u64) -> (r: String)
    ensures
        r@ == spec_update_msg(id),
{
    let mut s = "couldn't update a book with id=".to_owned();
    let d = u64_to_dec_string(id);
    s.append(d.as_str());
    s.append(". message not found");
    s
}

/// The message of a failed delete: names the id that has no record.
pub open spec fn spec_delete_msg(id: u64) -> Seq<char> {
    "couldn't delete a book with id="@ + spec_dec_chars(id) + ". book not found."@
}

/// Builds the failed-delete message.
pub fn delete_msg(id: u64) -> (r: String)
    ensures
        r@ == spec_delete_msg(id),
{
    let mut s = "couldn't delete a book with id=".to_owned();
    let d = u64_to_dec_string(id);
    s.append(d.as_str());
    s.append(". book not found.");
    s
}

} // verus!
