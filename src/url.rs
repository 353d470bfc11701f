//! `http://host[:port][/path]` addresses.
use crate::css_parse::decimal_value;
use crate::error::Error;
use crate::text::{collect, lemma_scan_to, scan_to, to_chars};
use vstd::prelude::*;
use vstd::string::StringExecFns;

verus! {

/// The parts of an address a request needs.
#[derive(Debug, Clone, PartialEq, Eq)]
pub struct Url {
    pub host: String,
    pub port: u16,
    /// The path without its leading `/`.
    pub path: String,
}

pub open spec fn http_prefix() -> Seq<char> {
    seq!['h', 't', 't', 'p', ':', '/', '/']
}

impl Url {
    /// Reads an `http://` address; the port defaults to 80 and the path to
    /// empty. Fails when the scheme is not `http://`, the host is empty, or
    /// the port is not a number below 65536.
    pub fn parse(raw: &str) -> (r: Result<Url, Error>)
        ensures
            r is Ok ==> raw@.len() >= 7 && raw@.subrange(0, 7) == http_prefix(),
            r matches Ok(u) ==> {
                let s = raw@;
                let h = scan_to(s, 7, ':', '/');
                let e = if h < s.len() && s[h] == ':' {
                    scan_to(s, h + 1, '/', '/')
                } else {
                    h
                };
                &&& u.host@.len() > 0
                &&& u.host@ == s.subrange(7, h)
                &&& (e == h ==> u.port == 80)
                &&& (e > h ==> u.port == decimal_value(s.subrange(h + 1, e)))
                &&& (e < s.len() ==> u.path@ == s.subrange(e + 1, s.len() as int))
                &&& (e == s.len() ==> u.path@.len() == 0)
            },
            r matches Err(e) ==> e is UnexpectedInput,
    {
        let cs = to_chars(raw);
        let n = cs.len();
        if n < 7 || cs[0] != 'h' || cs[1] != 't' || cs[2] != 't' || cs[3] != 'p' || cs[4] != ':'
            || cs[5] != '/' || cs[6] != '/' {
            return Err(Error::UnexpectedInput(String::from_str("only http:// addresses are supported")));
        }
        proof {
            assert(raw@.subrange(0, 7) =~= http_prefix());
        }
        let mut host_end: usize = 7;
        while host_end < n && cs[host_end] != ':' && cs[host_end] != '/'
            invariant
                7 <= host_end <= n,
                n == cs@.len(),
                cs@ == raw@,
                forall|m: int| 7 <= m < host_end ==> #[trigger] cs@[m] != ':' && cs@[m] != '/',
            decreases n - host_end,
        {
            host_end = host_end + 1;
        }
        proof {
            lemma_scan_to(cs@, 7, host_end as int, ':', '/');
        }
        if host_end == 7 {
            return Err(Error::UnexpectedInput(String::from_str("the address has no host")));
        }
        let host = collect(&cs, 7, host_end);
        let mut p = host_end;
        let mut port: u16 = 80;
        if p < n && cs[p] == ':' {
            p = p + 1;
            let digits = p;
            let mut v: u32 = 0;
            while p < n && cs[p] != '/'
                invariant
                    digits <= p <= n,
                    n == cs@.len(),
                    v < 65536,
                    v == decimal_value(cs@.subrange(digits as int, p as int)),
                    forall|m: int| digits <= m < p ==> #[trigger] cs@[m] != '/',
                decreases n - p,
            {
                let c = cs[p];
                if c < '0' || c > '9' {
                    return Err(Error::UnexpectedInput(String::from_str("the port is not a number")));
                }
                proof {
                    let next = cs@.subrange(digits as int, p + 1);
                    assert(next.drop_last() =~= cs@.subrange(digits as int, p as int));
                }
                v = v * 10 + (c as u32 - '0' as u32);
                if v >= 65536 {
                    return Err(Error::UnexpectedInput(String::from_str("the port is too large")));
                }
                p = p + 1;
            }
            if p == digits {
                return Err(Error::UnexpectedInput(String::from_str("the port is empty")));
            }
            port = v as u16;
            proof {
                lemma_scan_to(cs@, digits as int, p as int, '/', '/');
            }
        }
        let path = if p < n {
            collect(&cs, p + 1, n)
        } else {
            String::new()
        };
        Ok(Url { host, port, path })
    }
}

} // verus!
