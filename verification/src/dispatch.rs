use vstd::prelude::*;

use crate::json::{
    find_key, json_doc, lemma_entries_model_at, lemma_entries_model_dom, parse_json, JVal, Json,
};
use vstd::string::StringExecFns;

verus! {

/// The `Retry-After` header of a throttled response, as the caller saw it.
#[derive(Debug, PartialEq, Eq)]
pub enum HeaderField {
    /// No such header came back.
    Missing,
    /// The header came back but its bytes are not readable as text.
    Unreadable,
    /// The header's text.
    Text(String),
}

/// What the dispatcher does next with one target after one response.
#[derive(Debug, PartialEq, Eq)]
pub enum DispatchStep {
    /// The exchange is over: report this status as the target's terminal
    /// result.
    Report(u16),
    /// Wait for the number of seconds this decimal text names, then send
    /// the same payload again.
    Backoff(String),
}

/// The wait the response body names: the body must parse as a JSON object
/// whose `retry-after` field is a number; the number's text is the wait.
pub open spec fn body_backoff(body: Option<String>) -> Option<Seq<char>> {
    match body {
        Some(b) => match json_doc(b@) {
            Some(JVal::Obj(m)) => if m.contains_key("retry-after"@) {
                match m["retry-after"@] {
                    JVal::Num(s) => Some(s),
                    _ => None,
                }
            } else {
                None
            },
            _ => None,
        },
        None => None,
    }
}

/// Decide one step of the per-target retry protocol from one response:
/// any status but 429 is terminal; on 429 a readable `Retry-After` header
/// names the wait; a present but unreadable header downgrades the 429 to a
/// terminal report; with no header at all, the body may name the wait
/// through its `retry-after` field, and anything else ends the exchange
/// with 429 reported.
///
/// The protocol knows no retry cap: as the contract states, every throttled
/// response carrying a readable wait asks for another send, however many
/// came before, so a target that keeps answering such responses is retried
/// indefinitely. Only the protocol's own cooperation bounds the loop.
pub fn retry_step(status: u16, header: HeaderField, body: Option<String>) -> (r: DispatchStep)
    ensures
        status != 429 ==> r == DispatchStep::Report(status),
        status == 429 ==> match header {
            HeaderField::Text(h) => r == DispatchStep::Backoff(h),
            HeaderField::Unreadable => r == DispatchStep::Report(429u16),
            HeaderField::Missing => match body_backoff(body) {
                Some(txt) => r matches DispatchStep::Backoff(w) && w@ == txt,
                None => r == DispatchStep::Report(429u16),
            },
        },
{
    if status != 429 {
        return DispatchStep::Report(status);
    }
    match header {
        HeaderField::Text(h) => DispatchStep::Backoff(h),
        HeaderField::Unreadable => DispatchStep::Report(429),
        HeaderField::Missing => {
            match body {
                None => DispatchStep::Report(429),
                Some(b) => {
                    match parse_json(b.as_str()) {
                        Err(_) => DispatchStep::Report(429),
                        Ok(doc) => {
                            match doc {
                                Json::Object(entries) => {
                                    match find_key(&entries, &String::from_str("retry-after")) {
                                        Some(idx) => {
                                            proof {
                                                lemma_entries_model_dom(entries@);
                                                lemma_entries_model_at(entries@, idx as int);
                                            }
                                            match &entries[idx].1 {
                                                Json::Number(s) => DispatchStep::Backoff(
                                                    s.clone(),
                                                ),
                                                _ => DispatchStep::Report(429),
                                            }
                                        },
                                        None => {
                                            proof {
                                                lemma_entries_model_dom(entries@);
                                            }
                                            DispatchStep::Report(429)
                                        },
                                    }
                                },
                                _ => DispatchStep::Report(429),
                            }
                        },
                    }
                },
            }
        },
    }
}

} // verus!
