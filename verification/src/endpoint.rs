//! The Chat Completions endpoint.
use vstd::prelude::*;

verus! {

/// Path of the Chat Completions endpoint, relative to the provider's base URL.
pub fn chat_completions_path() -> (p: &'static str)
    ensures
        p@ == "chat/completions"@,
{
    "chat/completions"
}

} // verus!
