//! A deterministic, network-free [`Completer`] stand-in for tests.
//!
//! [`MockCompleter`] replays a pre-scripted list of responses in first-in,
//! first-out order, one response per [`complete`](MockCompleter::complete)
//! call, and records every prompt it receives. Exhausting the script is a
//! deterministic [`MendError::Completer`], never a panic, so identical scripts
//! and call sequences behave identically on every run.
use vstd::prelude::*;

use crate::text::strings_view;
use crate::{Completer, ErrorView, MendError, Result, text_result};

verus! {

/// The message of the error a completer returns once its script is spent.
pub open spec fn exhausted_message() -> Seq<char> {
    "mock completer script exhausted: no scripted response remaining"@
}

/// The answer a mock gives to its `k`-th prompt: the `k`-th scripted
/// response, or the exhaustion error once the script is spent.
pub open spec fn scripted_answer(script: Seq<Seq<char>>, k: int) -> std::result::Result<
    Seq<char>,
    ErrorView,
> {
    if k < script.len() {
        Ok(script[k])
    } else {
        Err(ErrorView::Completer(exhausted_message()))
    }
}

/// A [`Completer`] that replays scripted responses and records prompts.
///
/// The `k`-th prompt received is answered with the `k`-th response of the
/// script, so the number of prompts received is also the replay position.
pub struct MockCompleter {
    /// The whole script, in replay order.
    responses: Vec<String>,
    /// Every prompt received, in the order it arrived.
    prompts: Vec<String>,
}

impl MockCompleter {
    /// The responses still to be replayed, first one first.
    pub closed spec fn remaining(self) -> Seq<Seq<char>> {
        if self.prompts@.len() <= self.responses@.len() {
            strings_view(self.responses@).skip(self.prompts@.len() as int)
        } else {
            Seq::empty()
        }
    }

    /// The prompts received so far, in order.
    pub closed spec fn received(self) -> Seq<Seq<char>> {
        strings_view(self.prompts@)
    }

    /// The exchanges so far: each received prompt with its scripted answer.
    pub closed spec fn exchanges(self) -> Seq<crate::Exchange> {
        Seq::new(
            self.prompts@.len(),
            |k: int| (self.prompts@[k]@, scripted_answer(strings_view(self.responses@), k)),
        )
    }

    /// Build a mock that will replay `responses` in FIFO order.
    pub fn new(responses: Vec<String>) -> (m: Self)
        ensures
            m.remaining() == strings_view(responses@),
            m.received() == Seq::<Seq<char>>::empty(),
            m.exchanges() == Seq::<crate::Exchange>::empty(),
    {
        let m = MockCompleter { responses, prompts: Vec::new() };
        assert(strings_view(m.responses@).skip(0) == strings_view(m.responses@));
        assert(strings_view(m.prompts@) =~= Seq::<Seq<char>>::empty());
        assert(m.exchanges() =~= Seq::<crate::Exchange>::empty());
        m
    }

    /// The prompts received so far, in the order they were received: one
    /// per exchange of the log, the prompt of that exchange.
    pub fn prompts(&self) -> (r: Vec<String>)
        ensures
            strings_view(r@) == self.received(),
            r@.len() == self.log().len(),
            forall|i: int| 0 <= i < r@.len() ==> #[trigger] r@[i]@ == self.log()[i].0,
    {
        let r = self.prompts.clone();
        assert forall|i: int| 0 <= i < r@.len() implies #[trigger] r@[i]@ == self.log()[i].0 by {
            assert(self.log()[i] == self.exchanges()[i]);
        }
        r
    }

    /// Record `prompt` and replay the next scripted response.
    ///
    /// Returns the first remaining response and consumes it; once the script
    /// is empty, returns [`MendError::Completer`] and changes nothing but the
    /// record of prompts.
    pub fn complete(&mut self, prompt: &str) -> (r: Result<String>)
        ensures
            final(self).received() == old(self).received().push(prompt@),
            old(self).remaining().len() > 0 ==> (match r {
                Ok(s) => s@ == old(self).remaining()[0],
                Err(_) => false,
            }) && final(self).remaining() == old(self).remaining().drop_first(),
            old(self).remaining().len() == 0 ==> (match r {
                Err(MendError::Completer(m)) => m@ == exhausted_message(),
                _ => false,
            }) && final(self).remaining() == old(self).remaining(),
            final(self).exchanges() == old(self).exchanges().push((prompt@, text_result(r))),
    {
        let ghost old_self = *self;
        let k = self.prompts.len();
        let ghost sv = strings_view(self.responses@);
        self.prompts.push(prompt.to_owned());
        proof {
            assert(strings_view(self.prompts@) =~= strings_view(old_self.prompts@).push(prompt@));
        }
        let r = if k < self.responses.len() {
            let response = self.responses[k].clone();
            assert(sv.skip(k as int)[0] == response@);
            assert(sv.skip(k + 1) =~= sv.skip(k as int).drop_first());
            Ok(response)
        } else {
            Err(
                MendError::Completer(
                    "mock completer script exhausted: no scripted response remaining".to_owned(),
                ),
            )
        };
        proof {
            assert(self.exchanges() =~= old_self.exchanges().push((prompt@, text_result(r))));
        }
        r
    }
}

impl Completer for MockCompleter {
    open spec fn log(&self) -> Seq<crate::Exchange> {
        self.exchanges()
    }

    /// Record `prompt` and replay the next scripted response, exactly as
    /// [`MockCompleter::complete`] does.
    fn complete(&mut self, prompt: &str) -> (r: Result<String>)
        ensures
            final(self).received() == old(self).received().push(prompt@),
            old(self).remaining().len() > 0 ==> (match r {
                Ok(s) => s@ == old(self).remaining()[0],
                Err(_) => false,
            }) && final(self).remaining() == old(self).remaining().drop_first(),
            old(self).remaining().len() == 0 ==> (match r {
                Err(MendError::Completer(m)) => m@ == exhausted_message(),
                _ => false,
            }) && final(self).remaining() == old(self).remaining(),
    {
        MockCompleter::complete(self, prompt)
    }
}

} // verus!
