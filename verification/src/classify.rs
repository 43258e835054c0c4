//! The response classifier: reflection of the probed word, error signatures,
//! and which outcomes of a request are retained as results.

use crate::config::has_code;
use crate::pattern::{any_occurs, any_word_occurs};
use crate::text::{
    chars_of, contains, last_field, last_field_of, lowercase_of, occurs_in, string_from_chars,
    to_lowercase,
};
use vstd::prelude::*;

verus! {

/// One retained target: what was requested and how the response classified.
/// A status of 0 stands for a failure below HTTP.
#[derive(Clone, Debug, PartialEq, Eq)]
pub struct FuzzResult {
    pub url: String,
    pub word: String,
    pub status: u16,
    pub reflected: bool,
    pub error: Option<String>,
}

/// A `FuzzResult` with each string as its characters.
pub struct FuzzResultView {
    pub url: Seq<char>,
    pub word: Seq<char>,
    pub status: u16,
    pub reflected: bool,
    pub error: Option<Seq<char>>,
}

impl View for FuzzResult {
    type V = FuzzResultView;

    open spec fn view(&self) -> FuzzResultView {
        FuzzResultView {
            url: self.url@,
            word: self.word@,
            status: self.status,
            reflected: self.reflected,
            error: match self.error {
                Some(e) => Some(e@),
                None => None,
            },
        }
    }
}

/// How a request ended: with a response of any status, or below HTTP.
#[derive(Clone, Debug, PartialEq, Eq)]
pub enum Outcome {
    Response { status: u16, body: String },
    Failure { reason: String },
}

/// What becomes of a request that failed below HTTP.
#[derive(Clone, Copy, Debug, PartialEq, Eq)]
pub enum FailurePolicy {
    /// Nothing is logged and nothing retained.
    Discard,
    /// The failure is logged and not retained.
    Log,
    /// The failure is logged and retained with status 0.
    Collect,
}

impl Default for FailurePolicy {
    fn default() -> (p: FailurePolicy)
        ensures
            p == FailurePolicy::Discard,
    {
        FailurePolicy::Discard
    }
}

/// What the classifier decided for one settled request.
#[derive(Clone, Debug, PartialEq, Eq)]
pub struct Verdict {
    /// The record to retain, if any.
    pub record: Option<FuzzResult>,
    /// Whether the outcome is to be logged.
    pub logged: bool,
}

/// The substrings that mark a body as an error page. They are looked for in
/// the lowercased body.
pub open spec fn error_signatures() -> Seq<Seq<char>> {
    seq![
        "internal server error"@,
        "exception"@,
        "traceback"@,
        "fatal"@,
        "stack trace"@,
        "syntax error"@,
        "sql error"@,
        "not allowed"@,
        "access denied"@,
        "unhandled"@,
    ]
}

/// The annotation of a record whose body holds an error signature.
pub open spec fn error_note() -> Seq<char> {
    "Possible error detected"@
}

/// The probed word of a target: what follows its last `/`.
pub open spec fn probed_word(target: Seq<char>) -> Seq<char> {
    last_field(target, '/')
}

/// The record of a response with `status` and `body` to a request for `target`.
pub open spec fn response_record(target: Seq<char>, status: u16, body: Seq<char>) -> FuzzResultView {
    FuzzResultView {
        url: target,
        word: probed_word(target),
        status,
        reflected: occurs_in(probed_word(target), body),
        error: if any_occurs(error_signatures(), lowercase_of(body)) {
            Some(error_note())
        } else {
            None
        },
    }
}

/// The record of a request for `target` that failed below HTTP.
pub open spec fn failure_record(target: Seq<char>, reason: Seq<char>) -> FuzzResultView {
    FuzzResultView {
        url: target,
        word: probed_word(target),
        status: 0,
        reflected: false,
        error: Some(reason),
    }
}

/// Whether an outcome is retained: a response when its status is in the
/// matcher set, whatever its body; a failure only under `Collect`.
pub open spec fn is_retained(outcome: Outcome, matcher: Seq<u16>, policy: FailurePolicy) -> bool {
    match outcome {
        Outcome::Response { status, .. } => matcher.contains(status),
        Outcome::Failure { .. } => policy == FailurePolicy::Collect,
    }
}

/// Whether an outcome is logged: a retained response, and a failure unless
/// failures are discarded.
pub open spec fn is_logged(outcome: Outcome, matcher: Seq<u16>, policy: FailurePolicy) -> bool {
    match outcome {
        Outcome::Response { status, .. } => matcher.contains(status),
        Outcome::Failure { .. } => policy != FailurePolicy::Discard,
    }
}

/// The record that stands for an outcome of a request for `target`.
pub open spec fn record_of(target: Seq<char>, outcome: Outcome) -> FuzzResultView {
    match outcome {
        Outcome::Response { status, body } => response_record(target, status, body@),
        Outcome::Failure { reason } => failure_record(target, reason@),
    }
}

/// Whether `token` appears verbatim in `body`: an exact, case-sensitive
/// search by whole characters.
pub fn is_reflected(body: &str, token: &str) -> (r: bool)
    ensures
        r == occurs_in(token@, body@),
{
    contains(body, token)
}

/// Whether the lowercased `body` holds one of the error signatures, anywhere
/// and not only at word boundaries.
pub fn has_error_signature(body: &str) -> (r: bool)
    ensures
        r == any_occurs(error_signatures(), lowercase_of(body@)),
{
    let mut signatures: Vec<&str> = Vec::new();
    signatures.push("internal server error");
    signatures.push("exception");
    signatures.push("traceback");
    signatures.push("fatal");
    signatures.push("stack trace");
    signatures.push("syntax error");
    signatures.push("sql error");
    signatures.push("not allowed");
    signatures.push("access denied");
    signatures.push("unhandled");
    proof {
        assert(signatures@.map_values(|w: &str| w@) =~= error_signatures());
    }
    let lower = to_lowercase(body);
    any_word_occurs(&signatures, lower.as_str())
}

/// The probed word of `target`: its last path segment.
pub fn word_of(target: &str) -> (word: String)
    ensures
        word@ == probed_word(target@),
{
    let cs = chars_of(target);
    let w = last_field_of(&cs, '/');
    string_from_chars(&w)
}

/// Classifies the outcome of the request for `target`.
///
/// A response is retained exactly when its status is in `matcher`; its record
/// then says whether the probed word is reflected in the body and whether the
/// body holds an error signature. A failure below HTTP is retained only under
/// `FailurePolicy::Collect`, with status 0 and its reason as the annotation.
pub fn classify(target: &str, outcome: &Outcome, matcher: &Vec<u16>, policy: FailurePolicy) -> (v:
    Verdict)
    ensures
        (v.record is Some) == is_retained(*outcome, matcher@, policy),
        v.record matches Some(r) ==> r@ == record_of(target@, *outcome),
        v.logged == is_logged(*outcome, matcher@, policy),
{
    match outcome {
        Outcome::Response { status, body } => {
            if !has_code(matcher, *status) {
                return Verdict { record: None, logged: false };
            }
            let word = word_of(target);
            let reflected = is_reflected(body.as_str(), word.as_str());
            let error = if has_error_signature(body.as_str()) {
                Some("Possible error detected".to_owned())
            } else {
                None
            };
            let record = FuzzResult {
                url: target.to_owned(),
                word,
                status: *status,
                reflected,
                error,
            };
            Verdict { record: Some(record), logged: true }
        },
        Outcome::Failure { reason } => {
            match policy {
                FailurePolicy::Discard => Verdict { record: None, logged: false },
                FailurePolicy::Log => Verdict { record: None, logged: true },
                FailurePolicy::Collect => {
                    let record = FuzzResult {
                        url: target.to_owned(),
                        word: word_of(target),
                        status: 0,
                        reflected: false,
                        error: Some(reason.clone()),
                    };
                    Verdict { record: Some(record), logged: true }
                },
            }
        },
    }
}

/// Whether a response is retained is decided by its status alone: two
/// responses of one status are both retained or both dropped, whatever their
/// bodies hold.
pub proof fn law_retention_ignores_body(
    status: u16,
    first: String,
    second: String,
    matcher: Seq<u16>,
    policy: FailurePolicy,
)
    ensures
        is_retained(Outcome::Response { status, body: first }, matcher, policy) == is_retained(
            Outcome::Response { status, body: second },
            matcher,
            policy,
        ),
        is_retained(Outcome::Response { status, body: first }, matcher, policy)
            == matcher.contains(status),
{
}

} // verus!
