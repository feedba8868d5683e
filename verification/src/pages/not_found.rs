//! The 404 page counts the visits a browser made to it and offers a game on every
//! fifth one.
use vstd::prelude::*;

use crate::text::{chars_of, decimal, parse_unsigned, parse_unsigned_range, push_decimal};

verus! {

/// The number of the visit being made, from what the browser had stored: one more
/// than the stored count, or 1 when nothing readable was stored.
pub open spec fn next_visit_count_spec(stored: Option<Seq<char>>) -> nat {
    match stored {
        Some(s) => match parse_unsigned(s, u64::MAX as nat) {
            Some(n) => n + 1,
            None => 1,
        },
        None => 1,
    }
}

/// Counts this visit.
pub fn next_visit_count(stored: Option<&str>) -> (count: u64)
    requires
        stored matches Some(s) ==> parse_unsigned(s@, u64::MAX as nat) != Some(u64::MAX as nat),
    ensures
        count == next_visit_count_spec(
            match stored {
                Some(s) => Some(s@),
                None => None,
            },
        ),
{
    match stored {
        Some(s) => {
            let v = chars_of(s);
            assert(v@.subrange(0, v@.len() as int) =~= s@);
            match parse_unsigned_range(&v, 0, v.len(), u64::MAX) {
                Some(n) => n + 1,
                None => 1,
            }
        },
        None => 1,
    }
}

/// What is stored for the next visit: the count in decimal.
pub fn visit_count_text(count: u64) -> (text: String)
    ensures
        text@ == decimal(count as nat),
{
    let mut text = String::new();
    push_decimal(&mut text, count);
    text
}

/// The game is offered on every fifth visit.
pub fn shows_game(count: u64) -> (r: bool)
    ensures
        r == (count > 0 && count % 5 == 0),
{
    count > 0 && count % 5 == 0
}

/// Each visit counts one more than the last one stored: reading back the stored
/// count of visit `n` gives visit `n + 1`.
pub proof fn lemma_visit_count_steps(n: nat)
    requires
        n < u64::MAX,
    ensures
        next_visit_count_spec(Some(decimal(n))) == n + 1,
        next_visit_count_spec(None) == 1,
{
    crate::text::lemma_decimal_digits(n);
}

} // verus!
