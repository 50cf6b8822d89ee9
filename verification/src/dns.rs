//! The resolver's side of a lookup: the query that goes to a DNS-over-HTTPS
//! endpoint, and the answers that its response holds.
//!
//! Sending the query and decoding the body are the caller's work; the
//! caller hands over what came of them as a [`DnsResponse`] or a
//! [`ResolveError`].

use vstd::prelude::*;
use vstd::string::StringExecFns;

verus! {

/// One answer of a resolver: a resource record.
#[allow(non_snake_case)]
#[derive(Debug, PartialEq, Eq)]
pub struct Answer {
    /// The name of the record.
    pub name: String,
    /// The type of the record, as its DNS type code (1 is an A record).
    pub rtype: u32,
    /// The time to live of the record in seconds.
    pub TTL: u32,
    /// The data of the record; of an A record, the text of an IPv4 address.
    pub data: String,
}

/// An [`Answer`] with its texts as sequences of characters.
pub struct AnswerView {
    pub name: Seq<char>,
    pub rtype: u32,
    pub ttl: u32,
    pub data: Seq<char>,
}

impl View for Answer {
    type V = AnswerView;

    open spec fn view(&self) -> AnswerView {
        AnswerView { name: self.name@, rtype: self.rtype, ttl: self.TTL, data: self.data@ }
    }
}

impl Clone for Answer {
    fn clone(&self) -> (copy: Answer)
        ensures
            copy == *self,
    {
        Answer {
            name: self.name.clone(),
            rtype: self.rtype,
            TTL: self.TTL,
            data: self.data.clone(),
        }
    }
}

/// The body of a resolver's response, decoded.
#[derive(Debug, PartialEq, Eq)]
pub struct DnsResponse {
    /// The DNS response code.
    pub status: u32,
    /// The answers, where the response holds any.
    pub answer: Option<Vec<Answer>>,
    /// What the resolver had to remark.
    pub comment: Option<String>,
}

/// Why a resolver gave no answers. The text is the cause in words.
#[derive(Debug, PartialEq, Eq)]
pub enum ResolveError {
    /// The request failed on its way: no connection, no TLS session, no
    /// response in time, or a body that broke off.
    Transport(String),
    /// The response came, and its body is not the JSON that a resolver
    /// sends.
    Decode(String),
}

/// A query as it goes to a resolver: an HTTP GET of `url` that accepts
/// `accept`.
#[derive(Debug, PartialEq, Eq)]
pub struct QueryRequest {
    pub url: String,
    pub accept: String,
}

/// The answers that `response` holds: none where it has no answer section.
pub open spec fn answers_of(response: DnsResponse) -> Seq<Answer> {
    match response.answer {
        Some(answers) => answers@,
        None => Seq::empty(),
    }
}

/// What a resolver's reply amounts to: its answers, or the error that kept
/// them away.
pub open spec fn resolved(fetched: Result<DnsResponse, ResolveError>) -> Result<
    Seq<Answer>,
    ResolveError,
> {
    match fetched {
        Ok(response) => Ok(answers_of(response)),
        Err(error) => Err(error),
    }
}

/// The URL that asks the resolver at `endpoint` for the A records of
/// `hostname`.
pub open spec fn query_url(hostname: Seq<char>, endpoint: Seq<char>) -> Seq<char> {
    endpoint + "?name="@ + hostname + "&type=A"@
}

impl ResolveError {
    /// The cause in words.
    pub open spec fn text(self) -> Seq<char> {
        match self {
            ResolveError::Transport(message) => message@,
            ResolveError::Decode(message) => message@,
        }
    }

    /// The cause in words.
    pub fn message(&self) -> (message: &str)
        ensures
            message@ == self.text(),
    {
        match self {
            ResolveError::Transport(message) => message.as_str(),
            ResolveError::Decode(message) => message.as_str(),
        }
    }
}

impl DnsResponse {
    /// The answers that the response holds: none where it has no answer
    /// section, which is no error.
    pub fn answers(self) -> (answers: Vec<Answer>)
        ensures
            answers@ == answers_of(self),
    {
        match self.answer {
            Some(answers) => answers,
            None => Vec::new(),
        }
    }
}

/// The query that asks the resolver at `endpoint` for the A records of
/// `hostname`.
pub fn query(hostname: &str, endpoint: &str) -> (request: QueryRequest)
    ensures
        request.url@ == query_url(hostname@, endpoint@),
        request.accept@ == "application/dns-json"@,
{
    let mut url = String::from_str(endpoint);
    url.append("?name=");
    url.append(hostname);
    url.append("&type=A");
    QueryRequest { url, accept: String::from_str("application/dns-json") }
}

/// What a resolver's reply amounts to: its answers in the order they came
/// in, or the error that kept them away.
pub fn resolve(fetched: Result<DnsResponse, ResolveError>) -> (outcome: Result<
    Vec<Answer>,
    ResolveError,
>)
    ensures
        match outcome {
            Ok(answers) => resolved(fetched) == Ok::<Seq<Answer>, ResolveError>(answers@),
            Err(error) => resolved(fetched) == Err::<Seq<Answer>, ResolveError>(error),
        },
{
    match fetched {
        Ok(response) => Ok(response.answers()),
        Err(error) => Err(error),
    }
}

} // verus!
