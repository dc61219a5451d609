//! Values of the HTTP boundary: server settings, the transport's error kinds,
//! and the bodies of the health and error responses.
use crate::normalize::is_digit;
use vstd::prelude::*;
use vstd::string::*;

verus! {

/// Port used when none is configured, or the configured one is not a number.
pub const DEFAULT_PORT: u16 = 3002;

/// The decimal value of the digits `s`.
pub open spec fn digits_value(s: Seq<char>) -> nat
    decreases s.len(),
{
    if s.len() == 0 {
        0
    } else {
        digits_value(s.drop_last()) * 10 + (s.last() as nat - '0' as nat) as nat
    }
}

/// `s` without a leading `+`.
pub open spec fn unsigned_part(s: Seq<char>) -> Seq<char> {
    if s.len() > 0 && s[0] == '+' {
        s.subrange(1, s.len() as int)
    } else {
        s
    }
}

/// The number `s` denotes as a `u16`: an optional `+`, then one or more
/// ASCII digits whose value fits in 16 bits (as `u16::from_str` reads it).
pub open spec fn parse_u16(s: Seq<char>) -> Option<u16> {
    let d = unsigned_part(s);
    if d.len() > 0 && (forall|i: int| 0 <= i < d.len() ==> is_digit(#[trigger] d[i]))
        && digits_value(d) <= u16::MAX {
        Some(digits_value(d) as u16)
    } else {
        None
    }
}

proof fn lemma_digits_value_grows(s: Seq<char>, i: int)
    requires
        0 <= i <= s.len(),
        forall|j: int| 0 <= j < s.len() ==> is_digit(#[trigger] s[j]),
    ensures
        digits_value(s.subrange(0, i)) <= digits_value(s),
    decreases s.len(),
{
    if i < s.len() {
        let p = s.drop_last();
        assert forall|j: int| 0 <= j < p.len() implies is_digit(#[trigger] p[j]) by {
            assert(p[j] == s[j]);
        }
        lemma_digits_value_grows(p, i);
        assert(p.subrange(0, i) == s.subrange(0, i));
    } else {
        assert(s.subrange(0, i) == s);
    }
}

/// Reads a port number: an optional `+`, then decimal digits with a value
/// of at most 65535.
pub fn parse_port(s: &str) -> (r: Option<u16>)
    ensures
        r == parse_u16(s@),
{
    let cs = crate::text::chars_of(s);
    let start: usize = if cs.len() > 0 && cs[0] == '+' {
        1
    } else {
        0
    };
    let ghost d = unsigned_part(s@);
    if start >= cs.len() {
        return None;
    }
    let mut v: u32 = 0;
    let mut i: usize = start;
    while i < cs.len()
        invariant
            start <= i <= cs.len(),
            cs@ == s@,
            d == cs@.subrange(start as int, cs.len() as int),
            d == unsigned_part(s@),
            v as nat == digits_value(d.subrange(0, i - start)),
            v <= u16::MAX,
            forall|j: int| 0 <= j < i - start ==> is_digit(#[trigger] d[j]),
        decreases cs.len() - i,
    {
        let c = cs[i];
        if !('0' <= c && c <= '9') {
            assert(d[i - start] == c);
            assert(!is_digit(d[i - start]));
            return None;
        }
        let ghost pre = d.subrange(0, i - start);
        assert(d.subrange(0, i - start + 1).drop_last() == pre);
        v = v * 10 + (c as u32 - '0' as u32);
        i = i + 1;
        if v > 65535 {
            proof {
                if forall|j: int| 0 <= j < d.len() ==> is_digit(#[trigger] d[j]) {
                    lemma_digits_value_grows(d, i - start);
                }
            }
            return None;
        }
    }
    assert(d.subrange(0, i - start) == d);
    Some(v as u16)
}

/// Address the server listens on.
pub struct Config {
    pub port: u16,
    pub host: String,
}

impl Config {
    /// Settings from the configured port and host, where given: a port that
    /// is not a number falls back to 3002, a missing host to `0.0.0.0`.
    pub fn from_settings(port: Option<String>, host: Option<String>) -> (r: Config)
        ensures
            r.port == match port {
                Some(p) => match parse_u16(p@) {
                    Some(n) => n,
                    None => DEFAULT_PORT,
                },
                None => DEFAULT_PORT,
            },
            r.host@ == match host {
                Some(h) => h@,
                None => "0.0.0.0"@,
            },
    {
        let port = match port {
            Some(p) => match parse_port(p.as_str()) {
                Some(n) => n,
                None => DEFAULT_PORT,
            },
            None => DEFAULT_PORT,
        };
        let host = match host {
            Some(h) => h,
            None => String::from_str("0.0.0.0"),
        };
        Config { port, host }
    }
}

/// An error of the HTTP layer, with its message.
#[derive(Debug)]
pub enum Error {
    NotFound(String),
    BadRequest(String),
    InternalServerError(String),
}

impl Error {
    /// The HTTP status code the error is answered with.
    pub fn status_code(&self) -> (r: u16)
        ensures
            r == match self {
                Error::NotFound(_) => 404u16,
                Error::BadRequest(_) => 400u16,
                Error::InternalServerError(_) => 500u16,
            },
    {
        match self {
            Error::NotFound(_) => 404,
            Error::BadRequest(_) => 400,
            Error::InternalServerError(_) => 500,
        }
    }

    /// The status code and the body of the response to the error.
    pub fn into_parts(self) -> (r: (u16, String))
        ensures
            match self {
                Error::NotFound(m) => r.0 == 404 && r.1 == m,
                Error::BadRequest(m) => r.0 == 400 && r.1 == m,
                Error::InternalServerError(m) => r.0 == 500 && r.1 == m,
            },
    {
        let code = self.status_code();
        match self {
            Error::NotFound(m) => (code, m),
            Error::BadRequest(m) => (code, m),
            Error::InternalServerError(m) => (code, m),
        }
    }

    /// The error's message: its kind, then its cause.
    pub fn message(&self) -> (r: String)
        ensures
            r@ == match self {
                Error::NotFound(m) => "Not found: "@ + m@,
                Error::BadRequest(m) => "Bad request: "@ + m@,
                Error::InternalServerError(m) => "Internal server error: "@ + m@,
            },
    {
        let (prefix, m) = match self {
            Error::NotFound(m) => ("Not found: ", m),
            Error::BadRequest(m) => ("Bad request: ", m),
            Error::InternalServerError(m) => ("Internal server error: ", m),
        };
        let mut r = String::from_str(prefix);
        r.append(m.as_str());
        r
    }
}

/// Body of the answer to a health check.
pub struct HealthResponse {
    pub status: String,
}

impl HealthResponse {
    /// The answer of a healthy server.
    pub fn ok() -> (r: HealthResponse)
        ensures
            r.status@ == "ok"@,
    {
        HealthResponse { status: String::from_str("ok") }
    }
}

/// Body of the answer to a failed synthesis request.
pub struct TtsErrorResponse {
    pub error: String,
}

} // verus!
