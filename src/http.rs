//! HTTP responses as a page receives them: a status line, header lines, an
//! empty line, then the body. Lines may end in `\n` or `\r\n`.
use crate::error::Error;
use crate::css_parse::decimal_value;
use crate::text::{collect, lemma_scan_to, scan_to, str_eq, to_chars};
use vstd::prelude::*;
use vstd::string::StringExecFns;

verus! {

/// One `Name: value` header line.
#[derive(Debug, Clone, PartialEq, Eq)]
pub struct Header {
    pub name: String,
    pub value: String,
}

/// A received response.
#[derive(Debug, Clone, PartialEq, Eq)]
pub struct HttpResponse {
    pub version: String,
    pub status_code: u32,
    pub reason: String,
    pub headers: Vec<Header>,
    pub body: String,
}

/// The end of the line that starts at `from`: the index of its `\n`, or the
/// length of `s`.
pub open spec fn line_end(s: Seq<char>, from: int) -> int
    decreases s.len() - from,
{
    if from >= s.len() {
        s.len() as int
    } else if s[from] == '\n' {
        from
    } else {
        line_end(s, from + 1)
    }
}

fn find_line_end(cs: &Vec<char>, from: usize) -> (r: usize)
    requires
        from <= cs@.len(),
    ensures
        r == line_end(cs@, from as int),
        from <= r <= cs@.len(),
        forall|m: int| from <= m < r ==> #[trigger] cs@[m] != '\n',
        r < cs@.len() ==> cs@[r as int] == '\n',
{
    let mut i = from;
    while i < cs.len() && cs[i] != '\n'
        invariant
            from <= i <= cs@.len(),
            line_end(cs@, from as int) == line_end(cs@, i as int),
            forall|m: int| from <= m < i ==> #[trigger] cs@[m] != '\n',
        decreases cs@.len() - i,
    {
        i = i + 1;
    }
    i
}

/// The first index at or after `i` holding a space or a line break.
pub open spec fn code_end(s: Seq<char>, i: int) -> int
    decreases s.len() - i,
{
    if i < 0 || i >= s.len() || s[i] == ' ' || s[i] == '\r' || s[i] == '\n' {
        i
    } else {
        code_end(s, i + 1)
    }
}

proof fn lemma_code_end(s: Seq<char>, j: int, i: int)
    requires
        0 <= j <= i <= s.len(),
        forall|m: int| j <= m < i ==> #[trigger] s[m] != ' ' && s[m] != '\r' && s[m] != '\n',
        i == s.len() || s[i] == ' ' || s[i] == '\r' || s[i] == '\n',
    ensures
        code_end(s, j) == i,
    decreases i - j,
{
    if j < i {
        lemma_code_end(s, j + 1, i);
    }
}

/// `cs[from..to]` without a final `\r`.
fn line_text(cs: &Vec<char>, from: usize, to: usize) -> (r: String)
    requires
        from <= to <= cs@.len(),
{
    if to > from && cs[to - 1] == '\r' {
        collect(cs, from, to - 1)
    } else {
        collect(cs, from, to)
    }
}

/// Reads a decimal status code of at most six digits.
fn parse_status(cs: &Vec<char>, from: usize, to: usize) -> (r: Option<u32>)
    requires
        from <= to <= cs@.len(),
    ensures
        r matches Some(v) ==> v == decimal_value(cs@.subrange(from as int, to as int)),
{
    if from == to {
        return None;
    }
    let mut v: u32 = 0;
    let mut i = from;
    while i < to
        invariant
            from <= i <= to <= cs@.len(),
            v == decimal_value(cs@.subrange(from as int, i as int)),
        decreases to - i,
    {
        let c = cs[i];
        if c < '0' || c > '9' || v > 100_000 {
            return None;
        }
        proof {
            let next = cs@.subrange(from as int, i + 1);
            assert(next.drop_last() =~= cs@.subrange(from as int, i as int));
        }
        v = v * 10 + (c as u32 - '0' as u32);
        i = i + 1;
    }
    Some(v)
}

impl HttpResponse {
    /// Reads a raw response. Fails when the status line lacks a numeric
    /// status code. The status code is the number after the first space of
    /// the first line; the body is everything after the first empty line,
    /// and is a suffix of the raw text.
    pub fn new(raw: String) -> (r: Result<HttpResponse, Error>)
        ensures
            r matches Ok(h) ==> {
                let s = raw@;
                let sp = scan_to(s, 0, ' ', '\n');
                &&& sp < s.len() && s[sp] == ' '
                &&& h.status_code == decimal_value(s.subrange(sp + 1, code_end(s, sp + 1)))
            },
            r matches Ok(h) ==> h.body@.len() <= raw@.len() && h.body@ == raw@.subrange(
                raw@.len() - h.body@.len(),
                raw@.len() as int,
            ),
            r matches Err(e) ==> e is Network,
    {
        let cs = to_chars(raw.as_str());
        let n = cs.len();
        // Status line: version, code, reason.
        let end = find_line_end(&cs, 0);
        let mut sp1: usize = 0;
        while sp1 < end && cs[sp1] != ' '
            invariant
                sp1 <= end <= n,
                n == cs@.len(),
                forall|m: int| 0 <= m < end ==> #[trigger] cs@[m] != '\n',
                end < n ==> cs@[end as int] == '\n',
                forall|m: int| 0 <= m < sp1 ==> #[trigger] cs@[m] != ' ' && cs@[m] != '\n',
            decreases end - sp1,
        {
            sp1 = sp1 + 1;
        }
        if sp1 >= end {
            return Err(Error::Network(String::from_str("malformed status line")));
        }
        proof {
            lemma_scan_to(cs@, 0, sp1 as int, ' ', '\n');
        }
        let code_start = sp1 + 1;
        let mut sp2 = code_start;
        while sp2 < end && cs[sp2] != ' ' && cs[sp2] != '\r'
            invariant
                code_start <= sp2 <= end <= n,
                n == cs@.len(),
                forall|m: int| 0 <= m < end ==> #[trigger] cs@[m] != '\n',
                end < n ==> cs@[end as int] == '\n',
                forall|m: int| code_start <= m < sp2 ==> #[trigger] cs@[m] != ' ' && cs@[m] != '\r' && cs@[m] != '\n',
            decreases end - sp2,
        {
            sp2 = sp2 + 1;
        }
        proof {
            lemma_code_end(cs@, code_start as int, sp2 as int);
        }
        let status_code = match parse_status(&cs, code_start, sp2) {
            Some(c) => c,
            None => {
                return Err(Error::Network(String::from_str("malformed status code")));
            },
        };
        let version = collect(&cs, 0, sp1);
        let reason = if sp2 < end {
            line_text(&cs, sp2 + 1, end)
        } else {
            String::new()
        };
        // Header lines up to the first empty line.
        let mut headers: Vec<Header> = Vec::new();
        let mut p = if end < n {
            end + 1
        } else {
            n
        };
        let mut body_start = n;
        while p < n
            invariant
                p <= n,
                n == cs@.len(),
                body_start <= n,
            decreases n - p,
        {
            let e = find_line_end(&cs, p);
            let blank = e == p || (e == p + 1 && cs[p] == '\r');
            if blank {
                body_start = if e < n {
                    e + 1
                } else {
                    n
                };
                break;
            }
            let mut colon = p;
            while colon < e && cs[colon] != ':'
                invariant
                    p <= colon <= e <= n,
                    n == cs@.len(),
                decreases e - colon,
            {
                colon = colon + 1;
            }
            if colon < e {
                let name = collect(&cs, p, colon);
                let mut v = colon + 1;
                if v < e && cs[v] == ' ' {
                    v = v + 1;
                }
                let value = line_text(&cs, v, e);
                headers.push(Header { name, value });
            }
            p = if e < n {
                e + 1
            } else {
                n
            };
        }
        let body = collect(&cs, body_start, n);
        Ok(HttpResponse { version, status_code, reason, headers, body })
    }

    pub fn status_code(&self) -> (r: u32)
        ensures
            r == self.status_code,
    {
        self.status_code
    }

    pub fn body(&self) -> (r: String)
        ensures
            r@ == self.body@,
    {
        self.body.clone()
    }

    /// Where a redirect leads: the `Location` header of a 302 response, and
    /// nothing for any other status or when that header is missing.
    pub fn redirect_target(&self) -> (r: Option<String>)
        ensures
            r matches Some(v) ==> self.status_code == 302 && header_of(self.headers@, "Location"@) == Some(v@),
            r is None ==> self.status_code != 302 || header_of(self.headers@, "Location"@) is None,
    {
        if self.status_code != 302 {
            return None;
        }
        match self.header_value("Location") {
            Ok(v) => Some(v),
            Err(_) => None,
        }
    }

    /// The value of the first header named `name`.
    pub fn header_value(&self, name: &str) -> (r: Result<String, Error>)
        ensures
            r matches Ok(v) ==> header_of(self.headers@, name@) == Some(v@),
            r is Err ==> header_of(self.headers@, name@) is None,
            r matches Err(e) ==> e is Network,
    {
        let mut i: usize = 0;
        assert(self.headers@.skip(0) =~= self.headers@);
        while i < self.headers.len()
            invariant
                i <= self.headers@.len(),
                header_of(self.headers@, name@) == header_of(self.headers@.skip(i as int), name@),
            decreases self.headers@.len() - i,
        {
            let ghost rest = self.headers@.skip(i as int);
            assert(rest.drop_first() =~= self.headers@.skip(i + 1));
            if str_eq(self.headers[i].name.as_str(), name) {
                return Ok(self.headers[i].value.clone());
            }
            i = i + 1;
        }
        Err(Error::Network(String::from_str("no such header")))
    }
}

/// The value of the first header named `name`, if any.
pub open spec fn header_of(headers: Seq<Header>, name: Seq<char>) -> Option<Seq<char>>
    decreases headers.len(),
{
    if headers.len() == 0 {
        None
    } else if headers[0].name@ == name {
        Some(headers[0].value@)
    } else {
        header_of(headers.drop_first(), name)
    }
}

} // verus!
