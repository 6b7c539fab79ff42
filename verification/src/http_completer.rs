//! The real backend's decisions: what to send to a completion endpoint and how
//! to read its reply.
//!
//! [`HttpCompleter`] holds the `model` and `endpoint` taken from a [`Config`].
//! One completion is one HTTP `POST` to the endpoint's address, whose JSON body
//! names the model and carries the prompt; a `2xx` reply yields its body as the
//! completion and any other status collapses into [`MendError::Completer`].
//! Sending and receiving the bytes is the caller's part: it dials
//! [`HttpCompleter::address`], writes [`HttpCompleter::request`] and hands the
//! reply text to [`HttpCompleter::read_response`].
use vstd::prelude::*;

use crate::config::Config;
use crate::decimal::{decimal, decimal_exec, parse_u16, parsed_u16};
use crate::match_exact::{find_from, first_occurrence_from, lemma_utf8_len_encoding, utf8_len};
use crate::quoting::{debug_quote, debug_quoted};
use crate::text::{
    append, chars_of, lines, lines_exec, starts_with, starts_with_exec, string_of, subrange,
    vviews, ws_tokens, ws_tokens_exec,
};
use crate::{MendError, Result};

verus! {

/// A completion backend that talks to a real endpoint over HTTP.
pub struct HttpCompleter {
    /// The model identifier sent with each request.
    model: String,
    /// The endpoint URL each request is POSTed to.
    endpoint: String,
}

/// The address dialled for an endpoint: the URL without an `http://` scheme.
pub open spec fn endpoint_address(endpoint: Seq<char>) -> Seq<char> {
    if starts_with(endpoint, "http://"@) {
        endpoint.skip(7)
    } else {
        endpoint
    }
}

/// The JSON body of a request: the model and the prompt, each quoted as `{:?}`
/// quotes a string.
pub open spec fn request_body(model: Seq<char>, prompt: Seq<char>) -> Seq<char> {
    "{\"model\":"@ + debug_quoted(model) + ",\"prompt\":"@ + debug_quoted(prompt) + "}"@
}

/// The HTTP request for one completion.
pub open spec fn request_text(model: Seq<char>, endpoint: Seq<char>, prompt: Seq<char>) -> Seq<
    char,
> {
    let body = request_body(model, prompt);
    "POST / HTTP/1.1\r\nHost: "@ + endpoint_address(endpoint)
        + "\r\nContent-Type: application/json\r\nContent-Length: "@ + decimal(utf8_len(body))
        + "\r\nConnection: close\r\n\r\n"@ + body
}

/// The head of a reply: everything before its first blank line (`\r\n\r\n`),
/// or the whole reply when it has none.
pub open spec fn reply_head(reply: Seq<char>) -> Seq<char> {
    let p = first_occurrence_from(reply, "\r\n\r\n"@, 0);
    if p >= 0 {
        reply.take(p)
    } else {
        reply
    }
}

/// The body of a reply: everything after its first blank line, or nothing.
pub open spec fn reply_body(reply: Seq<char>) -> Seq<char> {
    let p = first_occurrence_from(reply, "\r\n\r\n"@, 0);
    if p >= 0 {
        reply.skip(p + 4)
    } else {
        Seq::empty()
    }
}

/// The status code of a reply: the second whitespace-separated word of its
/// first line, read as a `u16`, or `0` when there is none or it is no number.
pub open spec fn reply_status(reply: Seq<char>) -> u16 {
    let ls = lines(reply_head(reply));
    let first = if ls.len() > 0 {
        ls[0]
    } else {
        Seq::empty()
    };
    let words = ws_tokens(first);
    if words.len() > 1 {
        match parsed_u16(words[1]) {
            Some(n) => n,
            None => 0,
        }
    } else {
        0
    }
}

/// The message for a reply whose status is not `2xx`.
pub open spec fn status_message(status: u16) -> Seq<char> {
    "endpoint returned non-2xx status "@ + decimal(status as nat)
}

impl HttpCompleter {
    /// The model this completer names in its requests.
    pub closed spec fn model_view(&self) -> Seq<char> {
        self.model@
    }

    /// The endpoint this completer sends its requests to.
    pub closed spec fn endpoint_view(&self) -> Seq<char> {
        self.endpoint@
    }

    /// Build a completer that reads its `model` and `endpoint` from `config`.
    pub fn new(config: &Config) -> (h: Self)
        ensures
            h.model_view() == config.model@,
            h.endpoint_view() == config.endpoint@,
    {
        HttpCompleter { model: config.model.clone(), endpoint: config.endpoint.clone() }
    }

    /// The address to dial: the endpoint without its `http://` scheme.
    pub fn address(&self) -> (r: String)
        ensures
            r@ == endpoint_address(self.endpoint_view()),
    {
        let e = chars_of(self.endpoint.as_str());
        let n = e.len();
        if starts_with_exec(&e, &chars_of("http://")) {
            proof {
                reveal_strlit("http://");
                assert(e@.subrange(7, n as int) == e@.skip(7));
            }
            string_of(&subrange(&e, 7, n))
        } else {
            self.endpoint.clone()
        }
    }

    /// The HTTP request carrying `prompt` and the configured model.
    pub fn request(&self, prompt: &str) -> (r: String)
        ensures
            r@ == request_text(self.model_view(), self.endpoint_view(), prompt@),
    {
        let mut body = chars_of("{\"model\":");
        append(&mut body, &chars_of(debug_quote(self.model.as_str()).as_str()));
        append(&mut body, &chars_of(",\"prompt\":"));
        append(&mut body, &chars_of(debug_quote(prompt).as_str()));
        append(&mut body, &chars_of("}"));
        let body_s = string_of(&body);
        let len = body_s.as_str().as_bytes().len();
        proof {
            lemma_utf8_len_encoding(body_s@);
        }
        let mut out = chars_of("POST / HTTP/1.1\r\nHost: ");
        append(&mut out, &chars_of(self.address().as_str()));
        append(&mut out, &chars_of("\r\nContent-Type: application/json\r\nContent-Length: "));
        append(&mut out, &decimal_exec(len));
        append(&mut out, &chars_of("\r\nConnection: close\r\n\r\n"));
        append(&mut out, &body);
        string_of(&out)
    }

    /// Read the reply to a request: its body when the status is `2xx`, else
    /// [`MendError::Completer`] naming the status.
    pub fn read_response(reply: &str) -> (r: Result<String>)
        ensures
            200 <= reply_status(reply@) < 300 ==> (match r {
                Ok(b) => b@ == reply_body(reply@),
                Err(_) => false,
            }),
            !(200 <= reply_status(reply@) < 300) ==> (match r {
                Err(MendError::Completer(m)) => m@ == status_message(reply_status(reply@)),
                _ => false,
            }),
    {
        let cs = chars_of(reply);
        let n = cs.len();
        let sep = chars_of("\r\n\r\n");
        proof {
            reveal_strlit("\r\n\r\n");
        }
        let (head, body) = match find_from(&cs, &sep, 0) {
            Some(p) => {
                proof {
                    crate::match_exact::lemma_first_occurrence_from(cs@, sep@, 0);
                    assert(cs@.subrange(0, p as int) == cs@.take(p as int));
                    assert(cs@.subrange(p + 4, n as int) == cs@.skip(p + 4));
                }
                (subrange(&cs, 0, p), subrange(&cs, p + 4, n))
            },
            None => {
                proof {
                    assert(cs@.subrange(0, n as int) == cs@);
                }
                (subrange(&cs, 0, n), Vec::new())
            },
        };
        assert(head@ == reply_head(reply@));
        assert(body@ == reply_body(reply@));
        let ls = lines_exec(&head);
        let first: Vec<char> = if ls.len() > 0 {
            assert(vviews(ls@)[0] == ls@[0]@);
            ls[0].clone()
        } else {
            Vec::new()
        };
        let words = ws_tokens_exec(&first);
        let status: u16 = if words.len() > 1 {
            assert(vviews(words@)[1] == words@[1]@);
            match parse_u16(string_of(&words[1]).as_str()) {
                Some(s) => s,
                None => 0,
            }
        } else {
            0
        };
        assert(status == reply_status(reply@));
        if 200 <= status && status < 300 {
            Ok(string_of(&body))
        } else {
            let mut m = chars_of("endpoint returned non-2xx status ");
            append(&mut m, &decimal_exec(status as usize));
            Err(MendError::Completer(string_of(&m)))
        }
    }
}

} // verus!
