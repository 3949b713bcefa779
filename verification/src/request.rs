//! A request sent by a frontend to the text-generating backend.

use vstd::prelude::*;

verus! {

/// What a frontend asks of the backend: either to learn from `content`
/// (`write_intent`) or to answer it.
pub struct Request {
    pub write_intent: bool,
    pub content: String,
}

impl Request {
    /// A request that asks the backend to learn `content`.
    pub fn save(content: String) -> (r: Self)
        ensures
            r.write_intent,
            r.content@ == content@,
    {
        Self { write_intent: true, content }
    }

    /// A request meant to ask for an answer to `content`.
    ///
    /// It carries `write_intent` set, exactly as the saving request does.
    pub fn generate(content: String) -> (r: Self)
        ensures
            r.write_intent,
            r.content@ == content@,
    {
        Self { write_intent: true, content }
    }
}

} // verus!
