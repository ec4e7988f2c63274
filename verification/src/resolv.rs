use vstd::prelude::*;
use vstd::string::StrSliceExecFns;
use vstd::string::StringSliceAdditionalSpecFns;

use crate::hosts::{is_ws, NL};
use crate::name::chars_of;

verus! {

/// The key that marks a nameserver line in a resolver configuration.
pub open spec fn nameserver_key() -> Seq<u8> {
    seq![110u8, 97, 109, 101, 115, 101, 114, 118, 101, 114]
}

/// The whitespace-separated tokens of a line from `i` on, with `cur` the
/// token read so far.
pub open spec fn tokens_from(line: Seq<u8>, i: int, cur: Seq<u8>) -> Seq<Seq<u8>>
    decreases line.len() - i,
{
    if i < 0 || i >= line.len() {
        if cur.len() > 0 {
            seq![cur]
        } else {
            Seq::<Seq<u8>>::empty()
        }
    } else if is_ws(line[i]) {
        (if cur.len() > 0 {
            seq![cur]
        } else {
            Seq::<Seq<u8>>::empty()
        }) + tokens_from(line, i + 1, Seq::<u8>::empty())
    } else {
        tokens_from(line, i + 1, cur.push(line[i]))
    }
}

/// The whitespace-separated tokens of a line.
pub open spec fn spec_tokens(line: Seq<u8>) -> Seq<Seq<u8>> {
    tokens_from(line, 0, Seq::<u8>::empty())
}

/// What a configuration line says about the nameserver: `None` for a line
/// that does not start with the nameserver key; otherwise the address
/// token after the key, if the line has one.
pub open spec fn line_nameserver(line: Seq<u8>) -> Option<Option<Seq<u8>>> {
    let ts = spec_tokens(line);
    if ts.len() >= 1 && ts[0] == nameserver_key() {
        Some(
            if ts.len() >= 2 {
                Some(ts[1])
            } else {
                None
            },
        )
    } else {
        None
    }
}

/// The address of the first nameserver line of the text from `i` on, with
/// `cur` the line read so far: the first line that starts with the
/// nameserver key decides, yielding nothing when it carries no address.
pub open spec fn ns_text_from(s: Seq<u8>, i: int, cur: Seq<u8>) -> Option<Seq<u8>>
    decreases s.len() - i,
{
    if i < 0 || i >= s.len() {
        match line_nameserver(cur) {
            Some(x) => x,
            None => None,
        }
    } else if s[i] == NL {
        match line_nameserver(cur) {
            Some(x) => x,
            None => ns_text_from(s, i + 1, Seq::<u8>::empty()),
        }
    } else {
        ns_text_from(s, i + 1, cur.push(s[i]))
    }
}

/// The address named by the first `nameserver` entry of a resolver
/// configuration.
pub open spec fn spec_first_nameserver(s: Seq<u8>) -> Option<Seq<u8>> {
    ns_text_from(s, 0, Seq::<u8>::empty())
}

/// The view of a token list.
pub open spec fn tokens_view(ts: Seq<Vec<u8>>) -> Seq<Seq<u8>> {
    Seq::new(ts.len(), |i: int| ts[i]@)
}

/// Splits a line into its whitespace-separated tokens.
fn tokenize(line: &Vec<u8>) -> (r: Vec<Vec<u8>>)
    ensures
        tokens_view(r@) == spec_tokens(line@),
{
    let n = line.len();
    let mut out: Vec<Vec<u8>> = Vec::new();
    let mut cur: Vec<u8> = Vec::new();
    proof {
        assert(tokens_view(out@) + tokens_from(line@, 0, cur@) =~= spec_tokens(line@));
    }
    for i in 0..n
        invariant
            n == line@.len(),
            spec_tokens(line@) == tokens_view(out@) + tokens_from(line@, i as int, cur@),
    {
        let b = line[i];
        let ghost pre_cur = cur@;
        let ghost pre_out = out@;
        if b == 9 || b == 10 || b == 11 || b == 12 || b == 13 || b == 32 {
            if cur.len() > 0 {
                out.push(cur);
                cur = Vec::new();
                proof {
                    assert(tokens_from(line@, i as int, pre_cur) == seq![pre_cur] + tokens_from(
                        line@,
                        i + 1,
                        Seq::<u8>::empty(),
                    ));
                    assert(tokens_view(out@) =~= tokens_view(pre_out) + seq![pre_cur]);
                    assert(tokens_view(pre_out) + (seq![pre_cur] + tokens_from(
                        line@,
                        i + 1,
                        cur@,
                    )) =~= tokens_view(out@) + tokens_from(line@, i + 1, cur@));
                }
            } else {
                proof {
                    assert(pre_cur =~= Seq::<u8>::empty());
                    assert(tokens_from(line@, i as int, pre_cur) == Seq::<Seq<u8>>::empty()
                        + tokens_from(line@, i + 1, Seq::<u8>::empty()));
                    assert(Seq::<Seq<u8>>::empty() + tokens_from(line@, i + 1, Seq::<u8>::empty())
                        =~= tokens_from(line@, i + 1, Seq::<u8>::empty()));
                }
            }
        } else {
            cur.push(b);
            proof {
                assert(tokens_from(line@, i as int, pre_cur) == tokens_from(line@, i + 1, cur@));
            }
        }
    }
    if cur.len() > 0 {
        let ghost pre_out = out@;
        let ghost pre_cur = cur@;
        out.push(cur);
        proof {
            assert(tokens_from(line@, n as int, pre_cur) == seq![pre_cur]);
            assert(tokens_view(out@) =~= tokens_view(pre_out) + seq![pre_cur]);
        }
    } else {
        proof {
            assert(tokens_view(out@) + Seq::<Seq<u8>>::empty() =~= tokens_view(out@));
        }
    }
    out
}

/// Compares a token with the nameserver key.
fn is_nameserver_key(tok: &Vec<u8>) -> (r: bool)
    ensures
        r == (tok@ == nameserver_key()),
{
    let r = tok.len() == 10 && tok[0] == 110 && tok[1] == 97 && tok[2] == 109 && tok[3] == 101
        && tok[4] == 115 && tok[5] == 101 && tok[6] == 114 && tok[7] == 118 && tok[8] == 101
        && tok[9] == 114;
    proof {
        if r {
            assert(tok@ =~= nameserver_key());
        }
    }
    r
}

/// Returns true if every byte is ASCII.
fn all_ascii(v: &Vec<u8>) -> (r: bool)
    ensures
        r == forall|i: int| 0 <= i < v@.len() ==> #[trigger] v@[i] < 128,
{
    let n = v.len();
    for i in 0..n
        invariant
            n == v@.len(),
            forall|j: int| 0 <= j < i ==> #[trigger] v@[j] < 128,
    {
        if v[i] >= 128 {
            return false;
        }
    }
    true
}

/// Finds the address of the first `nameserver` entry in a resolver
/// configuration text.
///
/// Returns None when no line starts with the nameserver key, and also
/// when the first such line carries no address token or one that is not
/// ASCII.
pub fn first_nameserver(config: &str) -> (r: Option<String>)
    ensures
        match r {
            Some(out) => spec_first_nameserver(config.spec_bytes()) matches Some(tok) && (
            forall|i: int| 0 <= i < tok.len() ==> #[trigger] tok[i] < 128) && out@ == chars_of(
                tok,
            ),
            None => match spec_first_nameserver(config.spec_bytes()) {
                Some(tok) => exists|i: int| 0 <= i < tok.len() && !((#[trigger] tok[i]) < 128),
                None => true,
            },
        },
{
    let s = config.as_bytes_vec();
    let n = s.len();
    let mut cur: Vec<u8> = Vec::new();
    for i in 0..n
        invariant
            n == s@.len(),
            s@ == config.spec_bytes(),
            spec_first_nameserver(s@) == ns_text_from(s@, i as int, cur@),
    {
        let b = s[i];
        if b == NL {
            match line_address(&cur) {
                Some(found) => {
                    return finish_address(found);
                },
                None => {},
            }
            cur = Vec::new();
        } else {
            cur.push(b);
        }
    }
    match line_address(&cur) {
        Some(found) => finish_address(found),
        None => None,
    }
}

/// What a line says about the nameserver, as owned values.
fn line_address(line: &Vec<u8>) -> (r: Option<Option<Vec<u8>>>)
    ensures
        match r {
            Some(x) => line_nameserver(line@) matches Some(y) && (match (x, y) {
                (Some(a), Some(b)) => a@ == b,
                (None, None) => true,
                _ => false,
            }),
            None => line_nameserver(line@) is None,
        },
{
    let tokens = tokenize(line);
    if tokens.len() >= 1 && is_nameserver_key(&tokens[0]) {
        proof {
            assert(spec_tokens(line@)[0] == tokens@[0]@);
        }
        if tokens.len() >= 2 {
            let mut tokens = tokens;
            let addr = tokens.swap_remove(1);
            proof {
                assert(addr@ == spec_tokens(line@)[1]);
            }
            Some(Some(addr))
        } else {
            Some(None)
        }
    } else {
        proof {
            if spec_tokens(line@).len() >= 1 && spec_tokens(line@)[0] == nameserver_key() {
                assert(tokens@[0]@ == spec_tokens(line@)[0]);
            }
        }
        None
    }
}

/// Turns a found address into the result: an ASCII address becomes a
/// string, anything else is dropped.
fn finish_address(found: Option<Vec<u8>>) -> (r: Option<String>)
    ensures
        match found {
            None => r is None,
            Some(tok) => match r {
                Some(out) => (forall|i: int| 0 <= i < tok@.len() ==> #[trigger] tok@[i] < 128)
                    && out@ == chars_of(tok@),
                None => exists|i: int| 0 <= i < tok@.len() && !((#[trigger] tok@[i]) < 128),
            },
        },
{
    match found {
        Some(tok) => {
            if all_ascii(&tok) {
                Some(crate::name::string_from_ascii(tok))
            } else {
                None
            }
        },
        None => None,
    }
}

} // verus!
