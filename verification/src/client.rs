//! Client-side decisions for querying a running analysis server.
//!
//! Reading the session file and talking to the network stay outside the
//! library; the decisions — whether a session is usable, and how an HTTP
//! response body is extracted — live here.

use vstd::prelude::*;
use vstd::string::StringExecFns;
use vstd::string::StrSliceExecFns;
use crate::numfmt::{dec_str, dec_u64};
use crate::session::Session;
use crate::strutil::{check_match_at, contains_seq, contains_substr, matches_at};
use crate::urlenc::{encode, pct_encoded};

verus! {

/// Failure of a query-client operation.
#[derive(Debug)]
pub enum QueryError {
    /// No active session could be read.
    NoSession(String),
    /// The server is not running or not reachable.
    ConnectionFailed(String),
    /// The HTTP request failed.
    RequestFailed(String),
    /// The response could not be understood.
    InvalidResponse(String),
}

impl QueryError {
    /// Human-readable description, prefixed by the error kind.
    pub fn message(&self) -> (r: String)
        ensures
            r@ == self.message_spec(),
    {
        match self {
            QueryError::NoSession(e) => {
                let mut s = String::from_str("No active session: ");
                s.append(e.as_str());
                s
            },
            QueryError::ConnectionFailed(e) => {
                let mut s = String::from_str("Connection failed: ");
                s.append(e.as_str());
                s
            },
            QueryError::RequestFailed(e) => {
                let mut s = String::from_str("Request failed: ");
                s.append(e.as_str());
                s
            },
            QueryError::InvalidResponse(e) => {
                let mut s = String::from_str("Invalid response: ");
                s.append(e.as_str());
                s
            },
        }
    }

    /// The message text, by error kind.
    pub open spec fn message_spec(&self) -> Seq<char> {
        match self {
            QueryError::NoSession(e) => "No active session: "@ + e@,
            QueryError::ConnectionFailed(e) => "Connection failed: "@ + e@,
            QueryError::RequestFailed(e) => "Request failed: "@ + e@,
            QueryError::InvalidResponse(e) => "Invalid response: "@ + e@,
        }
    }
}

/// Client handle for a running analysis server.
#[derive(Debug)]
pub struct QueryClient {
    /// Full URL including the token prefix.
    pub server_url: String,
}

impl QueryClient {
    /// Builds the client from a loaded session and the result of the
    /// platform's liveness probe: a dead server is rejected, a live one
    /// yields a client for the session's URL.
    pub fn from_session(session: Session, server_alive: bool) -> (r: Result<QueryClient, QueryError>)
        ensures
            match r {
                Ok(c) => server_alive && c.server_url == session.server_url,
                Err(e) => !server_alive && e is ConnectionFailed,
            },
    {
        if !server_alive {
            return Err(QueryError::ConnectionFailed(String::from_str(
                "Server process is not running",
            )));
        }
        Ok(QueryClient { server_url: session.server_url })
    }
}

/// Index of the first newline in `s`, or its length.
pub open spec fn first_nl(s: Seq<char>, k: int) -> int
    decreases s.len() - k,
{
    if k < 0 || k >= s.len() {
        s.len() as int
    } else if s[k] == '\n' {
        k
    } else {
        first_nl(s, k + 1)
    }
}

/// The HTTP status line: everything before the first newline.
pub open spec fn status_line(s: Seq<char>) -> Seq<char> {
    s.subrange(0, first_nl(s, 0))
}

/// Finds the first occurrence of the needle.
fn find_first(hay: &str, needle: &str) -> (r: Option<usize>)
    ensures
        match r {
            Some(i) => matches_at(hay@, needle@, i as int) && (forall|k: int|
                0 <= k < i ==> !matches_at(hay@, needle@, k)),
            None => forall|k: int| 0 <= k <= hay@.len() ==> !matches_at(hay@, needle@, k),
        },
{
    let h = hay.unicode_len();
    let n = needle.unicode_len();
    if n > h {
        proof {
            assert forall|k: int| 0 <= k <= hay@.len() implies !matches_at(hay@, needle@, k) by {}
        }
        return None;
    }
    if n == 0 {
        proof {
            assert(hay@.subrange(0, 0) =~= needle@);
            assert(matches_at(hay@, needle@, 0));
        }
        return Some(0);
    }
    let mut i: usize = 0;
    while i <= h - n
        invariant
            1 <= n <= h,
            h == hay@.len(),
            n == needle@.len(),
            0 <= i <= h - n + 1,
            forall|k: int| 0 <= k < i ==> !matches_at(hay@, needle@, k),
        decreases h - n + 1 - i,
    {
        if check_match_at(hay, needle, i) {
            return Some(i);
        }
        i = i + 1;
    }
    proof {
        assert forall|k: int| 0 <= k <= hay@.len() implies !matches_at(hay@, needle@, k) by {}
    }
    None
}

/// Extracts the body of a raw HTTP response: everything past the first blank
/// line, provided the status line reports success (contains "200").  A
/// response without a blank line is invalid; a non-success status fails the
/// request.
pub fn extract_http_body(response: &str) -> (r: Result<String, QueryError>)
    ensures
        match r {
            Ok(b) => exists|i: int|
                #[trigger] matches_at(response@, "\r\n\r\n"@, i) && (forall|k: int|
                    0 <= k < i ==> !matches_at(response@, "\r\n\r\n"@, k)) && b@
                    == response@.subrange(i + 4, response@.len() as int) && contains_seq(
                    status_line(response@),
                    "200"@,
                ),
            Err(e) => match e {
                QueryError::InvalidResponse(_) => forall|k: int|
                    0 <= k <= response@.len() ==> !matches_at(response@, "\r\n\r\n"@, k),
                QueryError::RequestFailed(_) => !contains_seq(status_line(response@), "200"@),
                _ => false,
            },
        },
{
    let delim = "\r\n\r\n";
    let i = match find_first(response, delim) {
        Some(i) => i,
        None => {
            return Err(QueryError::InvalidResponse(String::from_str("No body delimiter found")));
        },
    };
    // The status line runs to the first newline.
    let h = response.unicode_len();
    let mut e: usize = 0;
    while e < h && !nl_at(response, e)
        invariant
            0 <= e <= h,
            h == response@.len(),
            first_nl(response@, 0) == first_nl(response@, e as int),
            forall|k: int| 0 <= k < e ==> response@[k] != '\n',
        decreases h - e,
    {
        e = e + 1;
    }
    proof {
        assert(first_nl(response@, e as int) == if e < h {
            e as int
        } else {
            h as int
        });
    }
    let line = response.substring_char(0, e);
    if !contains_substr(line, "200") {
        proof {
            assert(line@ =~= status_line(response@));
        }
        return Err(
            QueryError::RequestFailed(String::from_str("HTTP error status in response")),
        );
    }
    proof {
        assert(line@ =~= status_line(response@));
        reveal_strlit("\r\n\r\n");
        assert(delim@.len() == 4);
        assert(i + 4 <= response@.len());
    }
    let body = response.substring_char(i + 4, h);
    Ok(String::from_str(body))
}

/// Newline test at a position.
fn nl_at(s: &str, i: usize) -> (r: bool)
    requires
        i < s@.len(),
    ensures
        r == (s@[i as int] == '\n'),
{
    s.get_char(i) == '\n'
}

impl QueryClient {
    /// The request path of a hotspots query.
    pub fn query_hotspots_path(&self, limit: usize, thread: Option<&str>) -> (r: String)
        ensures
            r@ == self.server_url@ + "/query/hotspots?limit="@ + dec_str(limit as int) + (
            match thread {
                Some(t) => "&thread="@ + pct_encoded(t@),
                None => Seq::<char>::empty(),
            }),
    {
        let mut s = self.server_url.clone();
        s.append("/query/hotspots?limit=");
        s.append(dec_u64(limit as u64).as_str());
        match thread {
            Some(t) => {
                s.append("&thread=");
                let enc = encode(t);
                s.append(enc.as_str());
                proof {
                    assert(s@ =~= self.server_url@ + "/query/hotspots?limit="@ + dec_str(
                        limit as int,
                    ) + ("&thread="@ + pct_encoded(t@)));
                }
            },
            None => {
                proof {
                    assert(s@ =~= self.server_url@ + "/query/hotspots?limit="@ + dec_str(
                        limit as int,
                    ) + Seq::<char>::empty());
                }
            },
        }
        s
    }

    /// The request path of a callers query.
    pub fn query_callers_path(&self, function: &str, depth: usize, limit: usize) -> (r: String)
        ensures
            r@ == self.server_url@ + "/query/callers?function="@ + pct_encoded(function@)
                + "&depth="@ + dec_str(depth as int) + "&limit="@ + dec_str(limit as int),
    {
        let mut s = self.server_url.clone();
        s.append("/query/callers?function=");
        let enc = encode(function);
        s.append(enc.as_str());
        s.append("&depth=");
        s.append(dec_u64(depth as u64).as_str());
        s.append("&limit=");
        s.append(dec_u64(limit as u64).as_str());
        proof {
            assert(s@ =~= self.server_url@ + "/query/callers?function="@ + pct_encoded(function@)
                + "&depth="@ + dec_str(depth as int) + "&limit="@ + dec_str(limit as int));
        }
        s
    }

    /// The request path of a callees query.
    pub fn query_callees_path(&self, function: &str, depth: usize, limit: usize) -> (r: String)
        ensures
            r@ == self.server_url@ + "/query/callees?function="@ + pct_encoded(function@)
                + "&depth="@ + dec_str(depth as int) + "&limit="@ + dec_str(limit as int),
    {
        let mut s = self.server_url.clone();
        s.append("/query/callees?function=");
        let enc = encode(function);
        s.append(enc.as_str());
        s.append("&depth=");
        s.append(dec_u64(depth as u64).as_str());
        s.append("&limit=");
        s.append(dec_u64(limit as u64).as_str());
        proof {
            assert(s@ =~= self.server_url@ + "/query/callees?function="@ + pct_encoded(function@)
                + "&depth="@ + dec_str(depth as int) + "&limit="@ + dec_str(limit as int));
        }
        s
    }

    /// The request path of a summary query.
    pub fn query_summary_path(&self) -> (r: String)
        ensures
            r@ == self.server_url@ + "/query/summary"@,
    {
        let mut s = self.server_url.clone();
        s.append("/query/summary");
        s
    }
}

} // verus!
