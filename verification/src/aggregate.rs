//! Aggregator: the running totals of one stream, grown by append-only
//! concatenation of fragments in arrival order.

use vstd::prelude::*;
use vstd::string::StringExecFns;

verus! {

/// The totals of a stream so far, as sequences of characters.
pub struct AggregateModel {
    pub content: Seq<char>,
    pub reasoning: Seq<char>,
}

/// Accumulates content and reasoning fragments in arrival order into two
/// growing buffers.
pub struct Aggregator {
    content: String,
    reasoning: String,
}

impl View for Aggregator {
    type V = AggregateModel;

    closed spec fn view(&self) -> AggregateModel {
        AggregateModel { content: self.content@, reasoning: self.reasoning@ }
    }
}

impl Aggregator {
    /// A fresh aggregator with both totals empty.
    pub fn new() -> (a: Aggregator)
        ensures
            a@.content == Seq::<char>::empty(),
            a@.reasoning == Seq::<char>::empty(),
    {
        Aggregator { content: String::new(), reasoning: String::new() }
    }

    /// Appends one content fragment at the end of the content total; the
    /// reasoning total is untouched.
    pub fn append_content(&mut self, fragment: &str)
        ensures
            final(self)@.content == old(self)@.content + fragment@,
            final(self)@.reasoning == old(self)@.reasoning,
    {
        self.content.append(fragment);
    }

    /// Appends one reasoning fragment at the end of the reasoning total;
    /// the content total is untouched.
    pub fn append_reasoning(&mut self, fragment: &str)
        ensures
            final(self)@.reasoning == old(self)@.reasoning + fragment@,
            final(self)@.content == old(self)@.content,
    {
        self.reasoning.append(fragment);
    }

    /// The current totals, by value, content first.
    pub fn snapshot(&self) -> (r: (String, String))
        ensures
            r.0@ == self@.content,
            r.1@ == self@.reasoning,
    {
        (self.content.clone(), self.reasoning.clone())
    }
}

} // verus!
