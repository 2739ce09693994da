//! The order of names.

use super::config::Order;
use crate::text::{bytes_before, str_before, str_eq};
use vstd::prelude::*;
use vstd::utf8::encode_utf8;

verus! {

/// How two names stand to each other.
#[derive(Debug, Clone, Copy, PartialEq, Eq, Structural)]
pub enum Position {
    Before,
    Same,
    After,
}

/// What `str::to_lowercase` gives for a text.
pub uninterp spec fn lowercase(text: Seq<char>) -> Seq<char>;

/// How `natord::compare` places the first of two texts against the second.
pub uninterp spec fn natural_position(left: Seq<char>, right: Seq<char>) -> Position;

/// `str::to_lowercase`: the text in lower case, which depends on the text alone.
#[verifier::external_body]
fn to_lowercase(text: &str) -> (r: String)
    ensures
        r@ == lowercase(text@),
{
    text.to_lowercase()
}

/// `natord::compare`: the natural order of two texts, which depends on the texts alone. It leaves
/// out white space and takes runs of decimal digits as numbers; how is not stated here.
#[verifier::external_body]
fn natural_compare(left: &str, right: &str) -> (r: Position)
    ensures
        r == natural_position(left@, right@),
{
    match natord::compare(left, right) {
        std::cmp::Ordering::Less => Position::Before,
        std::cmp::Ordering::Equal => Position::Same,
        std::cmp::Ordering::Greater => Position::After,
    }
}

/// Whether one text comes strictly before another, by their bytes.
pub open spec fn text_before(a: Seq<char>, b: Seq<char>) -> bool {
    bytes_before(encode_utf8(a), encode_utf8(b))
}

/// Whether a name may not follow another one. In the natural orders a name must come strictly
/// after the one before it, unless the two are the same.
pub open spec fn out_of_order(name: Seq<char>, previous: Seq<char>, order: Order) -> bool {
    name != previous && match order {
        Order::Alphabetically => text_before(name, previous),
        Order::AlphabeticallyCaseInsensitive => text_before(lowercase(name), lowercase(previous)),
        Order::AsWritten => false,
        Order::Natural => natural_position(name, previous) != Position::After,
        Order::NaturalCaseInsensitive => natural_position(lowercase(name), lowercase(previous))
            != Position::After,
    }
}

/// Whether a name that stands to the one before it like this is out of order.
pub fn is_misplaced(position: Position) -> (r: bool)
    ensures
        r == (position != Position::After),
{
    match position {
        Position::After => false,
        _ => true,
    }
}

/// Whether a name may not follow another one.
pub fn natural_out_of_order(name: &str, previous_name: &str, order: Order) -> (r: bool)
    ensures
        r == out_of_order(name@, previous_name@, order),
{
    if str_eq(name, previous_name) {
        return false;
    }
    match order {
        Order::Alphabetically => str_before(name, previous_name),
        Order::AlphabeticallyCaseInsensitive => {
            let lower = to_lowercase(name);
            let previous_lower = to_lowercase(previous_name);
            str_before(lower.as_str(), previous_lower.as_str())
        },
        Order::AsWritten => false,
        Order::Natural => is_misplaced(natural_compare(name, previous_name)),
        Order::NaturalCaseInsensitive => {
            let lower = to_lowercase(name);
            let previous_lower = to_lowercase(previous_name);
            is_misplaced(natural_compare(lower.as_str(), previous_lower.as_str()))
        },
    }
}

} // verus!
