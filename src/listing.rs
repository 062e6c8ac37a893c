//! Decisions behind listing the resolved artists and opening one of them.

use vstd::prelude::*;

verus! {

/// Longest description shown in full outside verbose mode, in characters.
pub const DESCRIPTION_LIMIT: usize = 120;

/// Characters kept of a longer description, before `...`.
pub const DESCRIPTION_KEPT: usize = 117;

/// What a listing shows of a description.
pub open spec fn shown_description(desc: Seq<char>, verbose: bool) -> Seq<char> {
    if verbose || desc.len() <= DESCRIPTION_LIMIT {
        desc
    } else {
        desc.take(DESCRIPTION_KEPT as int) + "..."@
    }
}

/// Shortens a long description unless the listing is verbose.
pub fn truncate_description(desc: &str, verbose: bool) -> (r: String)
    ensures
        r@ == shown_description(desc@, verbose),
{
    let cs = crate::text::chars_of(desc);
    if verbose || cs.len() <= DESCRIPTION_LIMIT {
        String::from_str(desc)
    } else {
        let kept = crate::text::text_of_range(cs.as_slice(), 0, DESCRIPTION_KEPT);
        let mut s = kept;
        s.append("...");
        s
    }
}

/// Why a subscription number cannot be opened.
#[derive(Debug, Clone, Copy, PartialEq, Eq, Structural)]
pub enum GotoError {
    /// Numbers start from 1.
    ZeroNumber,
    /// The number is above the count of subscriptions, which is given.
    OutOfRange { available: usize },
    /// The number is in range but no subscription was listed under it.
    NotListed { number: usize },
}

/// The position, in a list of `listed` artists out of `total`, of the
/// subscription numbered `number` (from 1).
pub fn select_subscription(number: usize, total: usize, listed: usize) -> (r: Result<usize, GotoError>)
    ensures
        number == 0 ==> r == Err::<usize, GotoError>(GotoError::ZeroNumber),
        number > 0 && number > total ==> r == Err::<usize, GotoError>(
            GotoError::OutOfRange { available: total },
        ),
        0 < number <= total && number > listed ==> r == Err::<usize, GotoError>(
            GotoError::NotListed { number },
        ),
        0 < number <= total && number <= listed ==> r == Ok::<usize, GotoError>((number - 1) as usize),
{
    if number == 0 {
        Err(GotoError::ZeroNumber)
    } else if number > total {
        Err(GotoError::OutOfRange { available: total })
    } else if number > listed {
        Err(GotoError::NotListed { number })
    } else {
        Ok(number - 1)
    }
}

} // verus!
