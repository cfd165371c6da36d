//! Errors and warnings gathered while loading documents, and errors shown
//! on one line with their causes.

use vstd::prelude::*;
use crate::text::{chars_of, push_chars, string_from_chars};

verus! {

/// `anyhow::Error`, carried through without being looked into.
#[verifier::external_type_specification]
#[verifier::external_body]
pub struct ExAnyhowError(anyhow::Error);

/// Errors and warnings accumulated while loading documents.
pub struct ErrorAccumulator {
    /// Errors: the loaded data is incorrect or incomplete.
    errors: Vec<anyhow::Error>,
    /// Warnings: problems that affect neither correctness nor completeness.
    warnings: Vec<anyhow::Error>,
}

impl ErrorAccumulator {
    /// The errors recorded, in order.
    pub closed spec fn errors_view(&self) -> Seq<anyhow::Error> {
        self.errors@
    }

    /// The warnings recorded, in order.
    pub closed spec fn warnings_view(&self) -> Seq<anyhow::Error> {
        self.warnings@
    }

    /// An accumulator with nothing recorded.
    pub fn new() -> (res: Self)
        ensures
            res.errors_view() == Seq::<anyhow::Error>::empty(),
            res.warnings_view() == Seq::<anyhow::Error>::empty(),
    {
        ErrorAccumulator { errors: Vec::new(), warnings: Vec::new() }
    }

    /// Records an error.
    pub fn error(&mut self, error: anyhow::Error)
        ensures
            final(self).errors_view() == old(self).errors_view().push(error),
            final(self).warnings_view() == old(self).warnings_view(),
    {
        self.errors.push(error);
    }

    /// Records a warning.
    pub fn warning(&mut self, error: anyhow::Error)
        ensures
            final(self).warnings_view() == old(self).warnings_view().push(error),
            final(self).errors_view() == old(self).errors_view(),
    {
        self.warnings.push(error);
    }

    /// The errors recorded, in order.
    pub fn iter_errors(&self) -> (res: &[anyhow::Error])
        ensures
            res@ == self.errors_view(),
    {
        self.errors.as_slice()
    }

    /// The warnings recorded, in order.
    pub fn iter_warnings(&self) -> (res: &[anyhow::Error])
        ensures
            res@ == self.warnings_view(),
    {
        self.warnings.as_slice()
    }
}

/// An error shown on one line: its message, then the message of each
/// cause, separated by ": ".
#[derive(Debug, Clone)]
pub struct InlineErrorChain {
    messages: Vec<String>,
}

/// The messages joined by ": ".
pub open spec fn chain_text(ms: Seq<Seq<char>>) -> Seq<char>
    decreases ms.len(),
{
    if ms.len() == 0 {
        seq![]
    } else if ms.len() == 1 {
        ms[0]
    } else {
        chain_text(ms.drop_last()) + ": "@ + ms.last()
    }
}

impl InlineErrorChain {
    /// The messages of the error and of its causes, outermost first.
    pub closed spec fn messages_view(&self) -> Seq<Seq<char>> {
        self.messages@.map_values(|m: String| m@)
    }

    /// The chain of an error whose message and causes' messages are
    /// `messages`, outermost first.
    pub fn new(messages: Vec<String>) -> (res: Self)
        ensures
            res.messages_view() == messages@.map_values(|m: String| m@),
    {
        InlineErrorChain { messages }
    }

    /// The messages separated by ": ".
    pub fn to_string(&self) -> (res: String)
        ensures
            res@ == chain_text(self.messages_view()),
    {
        let ghost ms = self.messages_view();
        let sep = chars_of(": ");
        proof {
            reveal_strlit(": ");
        }
        let mut out: Vec<char> = Vec::new();
        let mut i: usize = 0;
        while i < self.messages.len()
            invariant
                i <= self.messages@.len(),
                ms == self.messages@.map_values(|m: String| m@),
                sep@ == ": "@,
                out@ == chain_text(ms.subrange(0, i as int)),
            decreases self.messages@.len() - i,
        {
            if i > 0 {
                push_chars(&mut out, sep.as_slice());
            }
            push_chars(&mut out, chars_of(self.messages[i].as_str()).as_slice());
            proof {
                let next = ms.subrange(0, i + 1);
                assert(next.drop_last() =~= ms.subrange(0, i as int));
                assert(next.last() == self.messages@[i as int]@);
                if i == 0 {
                    assert(next.len() == 1);
                }
            }
            i = i + 1;
        }
        assert(ms.subrange(0, ms.len() as int) =~= ms);
        string_from_chars(out.as_slice())
    }
}

/// Options of the command that lists the managed APIs.
#[derive(Debug, Clone, Copy, PartialEq, Eq, Structural)]
pub struct ListArgs {
    /// Show verbose output including descriptions.
    pub verbose: bool,
}

} // verus!
