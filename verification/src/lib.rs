//! `mend`: the deterministic core of an LLM-driven source editing tool.
//!
//! The library turns model responses into edits, checks and applies them, renders
//! diffs and JSON results, parses the command line and settings, and drives each
//! subcommand as a state machine whose outside work (files, the network) is done
//! by the caller.
use vstd::prelude::*;

pub mod text;
pub mod parsed_edit;
pub mod match_exact;
pub mod match_fuzzy;
pub mod quoting;
pub mod apply;
pub mod conflict;
pub mod search_replace;
pub mod fenced;
pub mod decimal;
pub mod unified_diff;
pub mod diff_round_trip;
pub mod dispatch;
pub mod budget;
pub mod context;
pub mod prompt;
pub mod render_diff;
pub mod json_result;
pub mod cli;
pub mod config;
pub mod mock;
pub mod http_completer;
pub mod syntax;
pub mod imports;
pub mod structure;
pub mod dispatch_output;
pub mod edit;
pub mod explain;
pub mod fix;
pub mod test_cmd;
pub mod route;

verus! {

/// Declares `std::io::Error` to the verifier; its contents stay opaque.
#[verifier::external_type_specification]
#[verifier::external_body]
pub struct ExIoError(std::io::Error);

/// The unified error type for the whole `mend` system.
///
/// Each variant names the layer that produced the failure. `Io` wraps a
/// `std::io::Error`; the remaining variants carry a human-readable message.
#[derive(Debug)]
pub enum MendError {
    /// An I/O failure, e.g. reading or writing a file.
    Io(std::io::Error),
    /// A configuration was missing, malformed, or invalid.
    Config(String),
    /// Input could not be parsed.
    Parse(String),
    /// A patch could not be produced or applied.
    Patch(String),
    /// A completer failed to produce a result.
    Completer(String),
}

/// The project-wide result alias: every fallible function returns this.
pub type Result<T> = std::result::Result<T, MendError>;

/// The mathematical value of a [`MendError`]: its variant and message (an I/O
/// error stays opaque).
pub enum ErrorView {
    Io,
    Config(Seq<char>),
    Parse(Seq<char>),
    Patch(Seq<char>),
    Completer(Seq<char>),
}

impl View for MendError {
    type V = ErrorView;

    open spec fn view(&self) -> ErrorView {
        match self {
            MendError::Io(_) => ErrorView::Io,
            MendError::Config(m) => ErrorView::Config(m@),
            MendError::Parse(m) => ErrorView::Parse(m@),
            MendError::Patch(m) => ErrorView::Patch(m@),
            MendError::Completer(m) => ErrorView::Completer(m@),
        }
    }
}

/// The text std's `Display` gives an I/O error.
///
/// Trusted wrapper around `<std::io::Error as Display>::fmt`; the text depends
/// on the platform's error descriptions, so nothing is stated of it.
#[verifier::external_body]
fn io_error_text(e: &std::io::Error) -> String {
    e.to_string()
}

/// The text shown for an error: the layer that failed, then its message.
pub open spec fn error_text(e: ErrorView, io: Seq<char>) -> Seq<char> {
    match e {
        ErrorView::Io => "I/O error: "@ + io,
        ErrorView::Config(m) => "configuration error: "@ + m,
        ErrorView::Parse(m) => "parse error: "@ + m,
        ErrorView::Patch(m) => "patch error: "@ + m,
        ErrorView::Completer(m) => "completer error: "@ + m,
    }
}

impl MendError {
    /// A human-readable description: the layer that failed, then its message
    /// (for an I/O error, std's description of it).
    pub fn describe(&self) -> (r: String)
        ensures
            !(self@ is Io) ==> r@ == error_text(self@, Seq::empty()),
            self@ is Io ==> text::starts_with(r@, "I/O error: "@),
    {
        match self {
            MendError::Io(e) => {
                let r = text::concat3("I/O error: ", io_error_text(e).as_str(), "");
                assert(r@.take("I/O error: "@.len() as int) =~= "I/O error: "@);
                r
            },
            MendError::Config(m) => {
                proof {
                    reveal_strlit("");
                }
                text::concat3("configuration error: ", m.as_str(), "")
            },
            MendError::Parse(m) => {
                proof {
                    reveal_strlit("");
                }
                text::concat3("parse error: ", m.as_str(), "")
            },
            MendError::Patch(m) => {
                proof {
                    reveal_strlit("");
                }
                text::concat3("patch error: ", m.as_str(), "")
            },
            MendError::Completer(m) => {
                proof {
                    reveal_strlit("");
                }
                text::concat3("completer error: ", m.as_str(), "")
            },
        }
    }
}

impl From<std::io::Error> for MendError {
    fn from(e: std::io::Error) -> (r: MendError) {
        MendError::Io(e)
    }
}

impl vstd::std_specs::convert::FromSpecImpl<std::io::Error> for MendError {
    open spec fn obeys_from_spec() -> bool {
        true
    }

    open spec fn from_spec(e: std::io::Error) -> MendError {
        MendError::Io(e)
    }
}

/// The value of a text result: the text's characters, or the error's view.
pub open spec fn text_result(r: Result<String>) -> std::result::Result<Seq<char>, ErrorView> {
    match r {
        Ok(s) => Ok(s@),
        Err(e) => Err(e@),
    }
}

/// One exchange with a completer: the prompt sent and the answer it got.
pub type Exchange = (Seq<char>, std::result::Result<Seq<char>, ErrorView>);

/// `after` is `before` with one more exchange, whose prompt is `prompt`.
pub open spec fn one_exchange(before: Seq<Exchange>, after: Seq<Exchange>, prompt: Seq<char>) -> bool {
    &&& after.len() == before.len() + 1
    &&& after.drop_last() == before
    &&& after.last().0 == prompt
}

/// The seam that isolates the non-deterministic backend.
///
/// A `Completer` turns a borrowed prompt into a completion, collapsing every
/// backend failure into [`MendError::Completer`]. Completing may change the
/// completer's own state (a script advanced, a log grown), so it takes
/// `&mut self`. Every implementation keeps, as its [`log`](Completer::log),
/// the exchanges it has answered; each call adds exactly its own. A backend
/// written outside the verified library implements [`Backend`] instead and is
/// wrapped in [`Recorded`].
pub trait Completer {
    /// The exchanges answered so far, in order: each prompt with its answer.
    spec fn log(&self) -> Seq<Exchange>;

    /// Produce a completion for the given borrowed `prompt`.
    fn complete(&mut self, prompt: &str) -> (r: Result<String>)
        ensures
            final(self).log() == old(self).log().push((prompt@, text_result(r))),
    ;
}

/// A completion backend as plain code sees it: one answer per prompt.
pub trait Backend {
    /// Answer `prompt`, or fail with [`MendError::Completer`].
    fn answer(&mut self, prompt: &str) -> Result<String>;
}

/// A [`Backend`] made a [`Completer`]: it hands each prompt to the backend and
/// keeps the log of exchanges.
pub struct Recorded<B: Backend> {
    backend: B,
    exchanges: Ghost<Seq<Exchange>>,
}

impl<B: Backend> Recorded<B> {
    /// The wrapped backend.
    pub closed spec fn wrapped(&self) -> B {
        self.backend
    }

    /// Wrap `backend`, with an empty log.
    pub fn new(backend: B) -> (r: Self)
        ensures
            r.log() == Seq::<Exchange>::empty(),
            r.wrapped() == backend,
    {
        Recorded { backend, exchanges: Ghost(Seq::empty()) }
    }

    /// The wrapped backend.
    pub fn backend(&self) -> (r: &B)
        ensures
            *r == self.wrapped(),
    {
        &self.backend
    }
}

impl<B: Backend> Completer for Recorded<B> {
    closed spec fn log(&self) -> Seq<Exchange> {
        self.exchanges@
    }

    /// Ask the backend and log the exchange.
    fn complete(&mut self, prompt: &str) -> (r: Result<String>) {
        let r = self.backend.answer(prompt);
        self.exchanges = Ghost(self.exchanges@.push((prompt@, text_result(r))));
        r
    }
}

} // verus!
