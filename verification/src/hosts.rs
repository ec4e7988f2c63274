use vstd::prelude::*;
use vstd::string::StrSliceExecFns;
use vstd::string::StringSliceAdditionalSpecFns;

use crate::name::DOT;

verus! {

/// The line separator.
pub const NL: u8 = 10;

/// The comment marker of a hosts file.
pub const HASH: u8 = 35;

/// ASCII whitespace: tab, line feed, vertical tab, form feed, carriage
/// return and space.
pub open spec fn is_ws(b: u8) -> bool {
    b == 9 || b == 10 || b == 11 || b == 12 || b == 13 || b == 32
}

/// Whether a token names the host: exactly, or with a trailing dot
/// appended.
pub open spec fn token_names_host(tok: Seq<u8>, host: Seq<u8>) -> bool {
    tok == host || tok.push(DOT) == host
}

/// Whether some whitespace-separated token of the line from `i` on names
/// the host, with `cur` the token read so far.
pub open spec fn line_hits_from(line: Seq<u8>, i: int, cur: Seq<u8>, host: Seq<u8>) -> bool
    decreases line.len() - i,
{
    if i < 0 || i >= line.len() {
        cur.len() > 0 && token_names_host(cur, host)
    } else if is_ws(line[i]) {
        (cur.len() > 0 && token_names_host(cur, host)) || line_hits_from(
            line,
            i + 1,
            Seq::<u8>::empty(),
            host,
        )
    } else {
        line_hits_from(line, i + 1, cur.push(line[i]), host)
    }
}

/// Whether a hosts-file line mentions the host: the line is no comment
/// and one of its tokens names the host.
pub open spec fn line_hits(line: Seq<u8>, host: Seq<u8>) -> bool {
    &&& !(line.len() > 0 && line[0] == HASH)
    &&& line_hits_from(line, 0, Seq::<u8>::empty(), host)
}

/// Whether some line of the text from `i` on mentions the host, with
/// `cur` the line read so far.
pub open spec fn text_hits_from(s: Seq<u8>, i: int, cur: Seq<u8>, host: Seq<u8>) -> bool
    decreases s.len() - i,
{
    if i < 0 || i >= s.len() {
        line_hits(cur, host)
    } else if s[i] == NL {
        line_hits(cur, host) || text_hits_from(s, i + 1, Seq::<u8>::empty(), host)
    } else {
        text_hits_from(s, i + 1, cur.push(s[i]), host)
    }
}

/// Whether the hosts-file text mentions the host on some non-comment
/// line.
pub open spec fn spec_hosts_contain(input: Seq<u8>, host: Seq<u8>) -> bool {
    text_hits_from(input, 0, Seq::<u8>::empty(), host)
}

/// Whether a token names the host.
fn token_matches(tok: &Vec<u8>, host: &Vec<u8>) -> (r: bool)
    ensures
        r == token_names_host(tok@, host@),
{
    let n = tok.len();
    if n == host.len() {
        let mut same = true;
        for i in 0..n
            invariant
                n == tok@.len() == host@.len(),
                same == (forall|j: int| 0 <= j < i ==> tok@[j] == host@[j]),
        {
            if tok[i] != host[i] {
                same = false;
            }
        }
        if same {
            proof {
                assert(tok@ =~= host@);
            }
            return true;
        }
    }
    if host.len() >= 1 && n == host.len() - 1 && host[host.len() - 1] == DOT {
        let mut same = true;
        for i in 0..n
            invariant
                n == tok@.len(),
                n + 1 == host@.len(),
                same == (forall|j: int| 0 <= j < i ==> tok@[j] == host@[j]),
        {
            if tok[i] != host[i] {
                same = false;
            }
        }
        if same {
            proof {
                assert(tok@.push(DOT) =~= host@);
            }
            return true;
        }
        proof {
            if tok@.push(DOT) == host@ {
                assert(forall|j: int| 0 <= j < n ==> tok@.push(DOT)[j] == tok@[j]);
                assert(false);
            }
        }
        return false;
    }
    proof {
        if tok@ == host@ {
            assert(tok@.len() == host@.len());
        }
        if tok@.push(DOT) == host@ {
            assert(tok@.push(DOT).len() == host@.len());
            assert(tok@.push(DOT).last() == DOT);
        }
    }
    false
}

/// Whether a line mentions the host.
fn check_line(line: &Vec<u8>, host: &Vec<u8>) -> (r: bool)
    ensures
        r == line_hits(line@, host@),
{
    if line.len() > 0 && line[0] == HASH {
        return false;
    }
    let n = line.len();
    let mut cur: Vec<u8> = Vec::new();
    let mut found = false;
    for i in 0..n
        invariant
            n == line@.len(),
            line_hits_from(line@, 0, Seq::<u8>::empty(), host@) == (found || line_hits_from(
                line@,
                i as int,
                cur@,
                host@,
            )),
    {
        let b = line[i];
        if b == 9 || b == 10 || b == 11 || b == 12 || b == 13 || b == 32 {
            if cur.len() > 0 {
                if token_matches(&cur, host) {
                    found = true;
                }
            }
            cur = Vec::new();
        } else {
            cur.push(b);
        }
    }
    if cur.len() > 0 {
        if token_matches(&cur, host) {
            found = true;
        }
    }
    found
}

/// Represents the hosts file found on most operating systems.
#[derive(Debug)]
pub struct Hosts;

impl Hosts {
    /// Returns true if the hosts-file text mentions the given host on a
    /// non-comment line, with or without a trailing dot.
    pub fn contains_inner(input: &str, host: &str) -> (r: bool)
        ensures
            r == spec_hosts_contain(input.spec_bytes(), host.spec_bytes()),
    {
        let s = input.as_bytes_vec();
        let h = host.as_bytes_vec();
        let n = s.len();
        let mut cur: Vec<u8> = Vec::new();
        let mut found = false;
        for i in 0..n
            invariant
                n == s@.len(),
                h@ == host.spec_bytes(),
                spec_hosts_contain(s@, h@) == (found || text_hits_from(s@, i as int, cur@, h@)),
        {
            let b = s[i];
            if b == NL {
                if check_line(&cur, &h) {
                    found = true;
                }
                cur = Vec::new();
            } else {
                cur.push(b);
            }
        }
        if check_line(&cur, &h) {
            found = true;
        }
        found
    }
}

} // verus!
