//! The rule that admits an e-mail address to sign-up.

use vstd::prelude::*;

verus! {

/// Whether `needle` occurs in `text` as a run of consecutive characters.
pub open spec fn occurs_in(needle: Seq<char>, text: Seq<char>) -> bool {
    exists|start: int|
        0 <= start <= text.len() - needle.len() && #[trigger] text.subrange(
            start,
            start + needle.len(),
        ) == needle
}

/// `str::contains` with a string as the pattern: whether the pattern
/// matches a sub-slice of the text.
#[verifier::external_body]
fn contains_text(text: &str, needle: &str) -> (found: bool)
    ensures
        found == occurs_in(needle@, text@),
{
    text.contains(needle)
}

/// Whether an address may sign up: it has to name the university's domain,
/// `ucl.ac.uk`, somewhere in it.
pub fn email_allowed(email: &str) -> (allowed: bool)
    ensures
        allowed == occurs_in("ucl.ac.uk"@, email@),
{
    contains_text(email, "ucl.ac.uk")
}

} // verus!
