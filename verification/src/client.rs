//! How the HTTP client is to be set up, and how its failures are told.
//!
//! The settings are gathered here as plain values. Header names and values are
//! checked by the HTTP library itself; an entry that it refuses is dropped.

use std::time::Duration;
use vstd::prelude::*;
use vstd::string::StringExecFns;

verus! {

/// A character that the HTTP library accepts in a header name: an ASCII letter or
/// digit, or one of the marks ``!#$%&'*+-.^_`|~``.
pub open spec fn is_token_char(c: char) -> bool {
    ('a' <= c && c <= 'z') || ('A' <= c && c <= 'Z') || ('0' <= c && c <= '9') || c == '!' || c
        == '#' || c == '$' || c == '%' || c == '&' || c == '\'' || c == '*' || c == '+' || c
        == '-' || c == '.' || c == '^' || c == '_' || c == '`' || c == '|' || c == '~'
}

/// An ASCII capital as its small letter; any other character as it is.
pub open spec fn lowered(c: char) -> char {
    if 'A' <= c && c <= 'Z' {
        ((c as u8 + 32) as u8) as char
    } else {
        c
    }
}

/// The longest header name that the HTTP library takes, in bytes.
pub const MAX_HEADER_NAME_LEN: usize = 65535;

/// The name under which the HTTP library keeps a header that is given as `key`: the
/// key with its ASCII capitals made small, if it has at least one character and at
/// most `MAX_HEADER_NAME_LEN`, and all of them are characters of a header name;
/// else `None`.
pub open spec fn header_name_of(key: Seq<char>) -> Option<Seq<char>> {
    if 1 <= key.len() <= MAX_HEADER_NAME_LEN && (forall|i: int|
        0 <= i < key.len() ==> is_token_char(#[trigger] key[i])) {
        Some(key.map_values(|c: char| lowered(c)))
    } else {
        None
    }
}

/// A character that the HTTP library accepts in a header value given as text: any
/// but the ASCII control characters, and of those the tab.
pub open spec fn is_value_char(c: char) -> bool {
    (c >= ' ' && c != '\u{7f}') || c == '\t'
}

/// A header value that the HTTP library accepts when it is given as text.
pub open spec fn is_header_value(value: Seq<char>) -> bool {
    forall|i: int| 0 <= i < value.len() ==> is_value_char(#[trigger] value[i])
}

/// Calls `reqwest::header::HeaderName::from_bytes` on the bytes of `key` and
/// `as_str` on what comes back. It refuses a key of no bytes, of more than 65535
/// bytes, or with a byte that is no character of a header name, and gives back every
/// other key with its capitals made small.
#[verifier::external_body]
fn parse_header_name(key: &str) -> (name: Option<String>)
    ensures
        match name {
            Some(n) => header_name_of(key@) == Some(n@),
            None => header_name_of(key@) is None,
        },
{
    match reqwest::header::HeaderName::from_bytes(key.as_bytes()) {
        Ok(name) => Some(name.as_str().to_owned()),
        Err(_) => None,
    }
}

/// Calls `reqwest::header::HeaderValue::from_str` and tells whether it accepted the
/// value. It refuses a value exactly where one of its bytes is below 32 and no tab,
/// or is 127; the bytes of a character that is not ASCII are all above 127.
#[verifier::external_body]
fn header_value_accepted(value: &str) -> (ok: bool)
    ensures
        ok == is_header_value(value@),
{
    reqwest::header::HeaderValue::from_str(value).is_ok()
}

/// Why the client could not be had, or why a request failed.
#[derive(Debug)]
pub enum HttpClientError {
    /// The client could not be built; with the reason.
    BuildError(String),
    /// A request failed or its body could not be read; with the reason.
    RequestError(String),
    /// Reading or writing failed; with the reason.
    IoError(String),
}

/// What a build failure's message starts with.
pub open spec fn build_prefix() -> Seq<char> {
    "Failed to build client: "@
}

/// What a request failure's message starts with.
pub open spec fn request_prefix() -> Seq<char> {
    "Request failed: "@
}

/// What an I/O failure's message starts with.
pub open spec fn io_prefix() -> Seq<char> {
    "IO error: "@
}

impl HttpClientError {
    /// The message of the failure, as it is shown.
    pub open spec fn text(&self) -> Seq<char> {
        match self {
            HttpClientError::BuildError(reason) => build_prefix() + reason@,
            HttpClientError::RequestError(reason) => request_prefix() + reason@,
            HttpClientError::IoError(reason) => io_prefix() + reason@,
        }
    }

    /// The message of the failure: what kind it is, and the reason.
    pub fn message(&self) -> (m: String)
        ensures
            m@ == self.text(),
    {
        match self {
            HttpClientError::BuildError(reason) => {
                let mut m = "Failed to build client: ".to_owned();
                m.append(reason.as_str());
                m
            },
            HttpClientError::RequestError(reason) => {
                let mut m = "Request failed: ".to_owned();
                m.append(reason.as_str());
                m
            },
            HttpClientError::IoError(reason) => {
                let mut m = "IO error: ".to_owned();
                m.append(reason.as_str());
                m
            },
        }
    }
}

/// The decimal digit for a number below ten.
pub open spec fn digit(d: nat) -> char {
    if d == 0 {
        '0'
    } else if d == 1 {
        '1'
    } else if d == 2 {
        '2'
    } else if d == 3 {
        '3'
    } else if d == 4 {
        '4'
    } else if d == 5 {
        '5'
    } else if d == 6 {
        '6'
    } else if d == 7 {
        '7'
    } else if d == 8 {
        '8'
    } else {
        '9'
    }
}

/// A number written in decimal, without leading zeros.
pub open spec fn decimal(n: nat) -> Seq<char>
    decreases n,
{
    if n < 10 {
        seq![digit(n)]
    } else {
        decimal(n / 10).push(digit(n % 10))
    }
}

/// Writes a number in decimal.
pub fn to_decimal(n: usize) -> (s: String)
    ensures
        s@ == decimal(n as nat),
    decreases n,
{
    let d = n % 10;
    let c = if d == 0 {
        '0'
    } else if d == 1 {
        '1'
    } else if d == 2 {
        '2'
    } else if d == 3 {
        '3'
    } else if d == 4 {
        '4'
    } else if d == 5 {
        '5'
    } else if d == 6 {
        '6'
    } else if d == 7 {
        '7'
    } else if d == 8 {
        '8'
    } else {
        '9'
    };
    if n < 10 {
        let mut s = String::new();
        s.push(c);
        proof {
            assert(s@ =~= seq![digit(n as nat)]);
        }
        s
    } else {
        let mut s = to_decimal(n / 10);
        s.push(c);
        s
    }
}

/// The reason of the failure of a fetch of `url` that has made all its `attempts`.
pub open spec fn exhausted_reason(url: Seq<char>, attempts: nat) -> Seq<char> {
    "Failed to fetch "@ + url + " after "@ + decimal(attempts) + " retries"@
}

/// The failure of a fetch of `url` that has made all its `attempts` in vain. It
/// carries the URL and the number of attempts.
pub fn fetch_exhausted(url: &str, attempts: usize) -> (e: HttpClientError)
    ensures
        e == HttpClientError::IoError(e->IoError_0),
        e->IoError_0@ == exhausted_reason(url@, attempts as nat),
{
    let count = to_decimal(attempts);
    let mut reason = "Failed to fetch ".to_owned();
    reason.append(url);
    reason.append(" after ");
    reason.append(count.as_str());
    reason.append(" retries");
    HttpClientError::IoError(reason)
}

/// The headers that a list of entries comes to, each entry a name as the HTTP
/// library keeps it and a value: a later entry replaces an earlier one of its name.
pub open spec fn headers_of(entries: Seq<(String, String)>) -> Map<Seq<char>, Seq<char>>
    decreases entries.len(),
{
    if entries.len() == 0 {
        Map::empty()
    } else {
        headers_of(entries.drop_last()).insert(entries.last().0@, entries.last().1@)
    }
}

/// The headers with one more, given as text: set under the name that the HTTP
/// library keeps for `key`, if it accepts both `key` and `value`; else unchanged.
pub open spec fn with_header(
    headers: Map<Seq<char>, Seq<char>>,
    key: Seq<char>,
    value: Seq<char>,
) -> Map<Seq<char>, Seq<char>> {
    match header_name_of(key) {
        Some(name) => if is_header_value(value) {
            headers.insert(name, value)
        } else {
            headers
        },
        None => headers,
    }
}

/// The headers with a list of more, given as text, in the order of the list.
pub open spec fn with_headers(
    headers: Map<Seq<char>, Seq<char>>,
    more: Seq<(String, String)>,
) -> Map<Seq<char>, Seq<char>>
    decreases more.len(),
{
    if more.len() == 0 {
        headers
    } else {
        with_header(with_headers(headers, more.drop_last()), more.last().0@, more.last().1@)
    }
}

/// An entry of name and value that the HTTP library accepts: the name is its form
/// of some key, and the value is one that it takes.
pub open spec fn is_accepted(entry: (String, String)) -> bool {
    is_header_value(entry.1@) && exists|key: Seq<char>|
        #[trigger] header_name_of(key) == Some(entry.0@)
}

/// What a client is built from.
pub struct HttpClientBuilder {
    entries: Vec<(String, String)>,
    agent: Option<String>,
    limit: Option<Duration>,
}

impl HttpClientBuilder {
    #[verifier::type_invariant]
    closed spec fn accepted(&self) -> bool {
        forall|i: int| 0 <= i < self.entries@.len() ==> is_accepted(#[trigger] self.entries@[i])
    }

    /// The default headers, by the name that the HTTP library keeps.
    pub closed spec fn header_map(&self) -> Map<Seq<char>, Seq<char>> {
        headers_of(self.entries@)
    }

    /// The user agent, if one is set.
    pub closed spec fn agent(&self) -> Option<String> {
        self.agent
    }

    /// The time limit of a request, if one is set.
    pub closed spec fn time_limit(&self) -> Option<Duration> {
        self.limit
    }

    /// A builder with no header, no user agent and no time limit.
    pub fn new() -> (b: Self)
        ensures
            b.header_map() == Map::<Seq<char>, Seq<char>>::empty(),
            b.agent() is None,
            b.time_limit() is None,
    {
        HttpClientBuilder { entries: Vec::new(), agent: None, limit: None }
    }

    /// Sets the user agent.
    pub fn user_agent(self, user_agent: String) -> (b: Self)
        ensures
            b.agent() == Some(user_agent),
            b.header_map() == self.header_map(),
            b.time_limit() == self.time_limit(),
    {
        proof {
            use_type_invariant(&self);
        }
        HttpClientBuilder { entries: self.entries, agent: Some(user_agent), limit: self.limit }
    }

    /// Sets one default header, if the HTTP library accepts its name and its value.
    /// The header is kept under the library's form of the name, and replaces an
    /// earlier one of that name.
    pub fn header(self, key: &str, value: &str) -> (b: Self)
        ensures
            b.header_map() == with_header(self.header_map(), key@, value@),
            b.agent() == self.agent(),
            b.time_limit() == self.time_limit(),
    {
        proof {
            use_type_invariant(&self);
        }
        let mut entries = self.entries;
        match parse_header_name(key) {
            Some(name) => {
                if header_value_accepted(value) {
                    let ghost before = entries@;
                    entries.push((name, value.to_owned()));
                    proof {
                        assert(entries@.drop_last() =~= before);
                    }
                }
            },
            None => {},
        }
        HttpClientBuilder { entries, agent: self.agent, limit: self.limit }
    }

    /// Sets the default headers of a list, in its order; an entry whose name or value
    /// the HTTP library refuses is passed over.
    pub fn headers(self, headers: Vec<(String, String)>) -> (b: Self)
        ensures
            b.header_map() == with_headers(self.header_map(), headers@),
            b.agent() == self.agent(),
            b.time_limit() == self.time_limit(),
    {
        let ghost start = self.header_map();
        let ghost agent = self.agent();
        let ghost limit = self.time_limit();
        let mut b = self;
        let mut i: usize = 0;
        while i < headers.len()
            invariant
                i <= headers@.len(),
                b.header_map() == with_headers(start, headers@.take(i as int)),
                b.agent() == agent,
                b.time_limit() == limit,
            decreases headers@.len() - i,
        {
            proof {
                assert(headers@.take(i + 1).drop_last() =~= headers@.take(i as int));
            }
            b = b.header(headers[i].0.as_str(), headers[i].1.as_str());
            i = i + 1;
        }
        proof {
            assert(headers@.take(i as int) =~= headers@);
        }
        b
    }

    /// Sets the time limit of a request.
    pub fn timeout(self, timeout: Duration) -> (b: Self)
        ensures
            b.time_limit() == Some(timeout),
            b.header_map() == self.header_map(),
            b.agent() == self.agent(),
    {
        proof {
            use_type_invariant(&self);
        }
        HttpClientBuilder { entries: self.entries, agent: self.agent, limit: Some(timeout) }
    }

    /// The settings that were gathered: the user agent, the time limit, and the
    /// default headers as entries of name and value, a later entry replacing an
    /// earlier one of its name. Every entry is one that the HTTP library accepts.
    pub fn build(self) -> (settings: HttpClientSettings)
        ensures
            settings.user_agent == self.agent(),
            settings.timeout == self.time_limit(),
            headers_of(settings.headers@) == self.header_map(),
            forall|i: int|
                0 <= i < settings.headers@.len() ==> is_accepted(#[trigger] settings.headers@[i]),
    {
        proof {
            use_type_invariant(&self);
        }
        HttpClientSettings { user_agent: self.agent, timeout: self.limit, headers: self.entries }
    }
}

/// The settings of a client.
pub struct HttpClientSettings {
    /// The user agent, if one is set.
    pub user_agent: Option<String>,
    /// The time limit of a request, if one is set.
    pub timeout: Option<Duration>,
    /// The default headers, each a name that the HTTP library accepts, in its form,
    /// and a value that it accepts; a later entry replaces an earlier one of its name.
    pub headers: Vec<(String, String)>,
}

} // verus!
