//! The request-line parser: from the raw request text to the decoded
//! query terms, or the reason the request is refused.

use vstd::prelude::*;

use crate::codec::{decode, decode_spec, DecodeErr};
use crate::text::{chars_of, text_from};

verus! {

/// Why a request was refused.
#[derive(Debug)]
pub enum QueryErr {
    /// The request is malformed; the text says how.
    BadRequest(String),
    /// The method is neither `GET` nor `HEAD`.
    MethodNotAllowed,
}

/// The model of a [`QueryErr`].
pub enum QueryFault {
    BadRequest(Seq<char>),
    MethodNotAllowed,
}

impl View for QueryErr {
    type V = QueryFault;

    open spec fn view(&self) -> QueryFault {
        match self {
            QueryErr::BadRequest(s) => QueryFault::BadRequest(s@),
            QueryErr::MethodNotAllowed => QueryFault::MethodNotAllowed,
        }
    }
}

/// `pat` stands in `s` at index `i`.
pub open spec fn occurs_at(s: Seq<char>, pat: Seq<char>, i: int) -> bool {
    0 <= i && i + pat.len() <= s.len() && s.subrange(i, i + pat.len()) == pat
}

/// The first index from `i` on at which `pat` stands in `s`.
pub open spec fn find_from(s: Seq<char>, pat: Seq<char>, i: int) -> Option<int>
    decreases s.len() + 1 - i,
{
    if i < 0 || i + pat.len() > s.len() {
        None
    } else if occurs_at(s, pat, i) {
        Some(i)
    } else {
        find_from(s, pat, i + 1)
    }
}

/// `s` split around the first occurrence of `pat`, if there is one.
pub open spec fn split_once(s: Seq<char>, pat: Seq<char>) -> Option<(Seq<char>, Seq<char>)> {
    match find_from(s, pat, 0) {
        Some(i) => Some((s.take(i), s.skip(i + pat.len()))),
        None => None,
    }
}

pub open spec fn crlf() -> Seq<char> {
    seq!['\r', '\n']
}

pub open spec fn blank_line() -> Seq<char> {
    seq!['\r', '\n', '\r', '\n']
}

pub open spec fn allowed_method(m: Seq<char>) -> bool {
    m == seq!['G', 'E', 'T'] || m == seq!['H', 'E', 'A', 'D']
}

pub open spec fn starts_with(s: Seq<char>, p: Seq<char>) -> bool {
    p.len() <= s.len() && s.take(p.len() as int) == p
}

pub open spec fn http() -> Seq<char> {
    seq!['H', 'T', 'T', 'P']
}

/// The reason given for a query that does not decode.
pub open spec fn decode_reason(e: DecodeErr) -> Seq<char> {
    match e {
        DecodeErr::NotAscii => "Not an ascii string"@,
        DecodeErr::InvalidUtf8 => "Query is not valid UTF-8"@,
    }
}

/// The start line of a header block: up to the first line break, if any.
pub open spec fn start_line(header: Seq<char>) -> Seq<char> {
    match split_once(header, crlf()) {
        Some((line, _)) => line,
        None => header,
    }
}

/// The request target and protocol of what follows the method.
pub open spec fn target_and_protocol(rest: Seq<char>) -> (Seq<char>, Seq<char>) {
    match split_once(rest, seq![' ']) {
        Some(p) => p,
        None => (rest, Seq::empty()),
    }
}

/// What parsing a request gives: the decoded query terms, or why it was refused.
pub open spec fn parse_spec(request: Seq<char>) -> Result<Seq<Seq<char>>, QueryFault> {
    match split_once(request, blank_line()) {
        None => Err(QueryFault::BadRequest("Missing header-body split"@)),
        Some((header, _)) => match split_once(start_line(header), seq![' ']) {
            None => Err(QueryFault::BadRequest("Invalid start-line"@)),
            Some((method, rest)) => {
                let (target, protocol) = target_and_protocol(rest);
                if !allowed_method(method) {
                    Err(QueryFault::MethodNotAllowed)
                } else if protocol.len() > 0 && !starts_with(protocol, http()) {
                    Err(QueryFault::BadRequest("Invalid protocol"@))
                } else if target.len() == 0 || target[0] != '/' {
                    Err(QueryFault::BadRequest("Missing leading slash in target"@))
                } else {
                    match decode_spec(target.skip(1)) {
                        Ok(parts) => Ok(parts),
                        Err(e) => Err(QueryFault::BadRequest(decode_reason(e))),
                    }
                }
            },
        },
    }
}

/// The protocol token that a response to `request` carries: the one the
/// request line states where it states one that starts with `HTTP`, else
/// `HTTP/1.1`.
pub open spec fn reply_protocol(request: Seq<char>) -> Seq<char> {
    match split_once(request, blank_line()) {
        None => "HTTP/1.1"@,
        Some((header, _)) => match split_once(start_line(header), seq![' ']) {
            None => "HTTP/1.1"@,
            Some((_, rest)) => {
                let protocol = target_and_protocol(rest).1;
                if protocol.len() > 0 && starts_with(protocol, http()) {
                    protocol
                } else {
                    "HTTP/1.1"@
                }
            },
        },
    }
}

fn occurs_at_exec(s: &Vec<char>, pat: &Vec<char>, i: usize) -> (r: bool)
    requires
        i + pat@.len() <= s@.len(),
    ensures
        r == occurs_at(s@, pat@, i as int),
{
    let n = s.len();
    let mut j: usize = 0;
    while j < pat.len()
        invariant
            n == s@.len(),
            i + pat@.len() <= s@.len(),
            j <= pat@.len(),
            forall|k: int| 0 <= k < j ==> s@[i + k] == pat@[k],
        decreases pat@.len() - j,
    {
        if s[i + j] != pat[j] {
            assert(s@.subrange(i as int, i + pat@.len())[j as int] != pat@[j as int]);
            return false;
        }
        j = j + 1;
    }
    assert(s@.subrange(i as int, i + pat@.len()) =~= pat@);
    true
}

/// The first index at which `pat` stands in `s`.
fn find(s: &Vec<char>, pat: &Vec<char>) -> (r: Option<usize>)
    ensures
        match r {
            Some(i) => find_from(s@, pat@, 0) == Some(i as int),
            None => find_from(s@, pat@, 0) is None,
        },
{
    if pat.len() == 0 {
        assert(s@.subrange(0, 0) =~= pat@);
        return Some(0);
    }
    if pat.len() > s.len() {
        return None;
    }
    let last = s.len() - pat.len();
    let mut i: usize = 0;
    while i <= last
        invariant
            last == s@.len() - pat@.len(),
            last < usize::MAX,
            i <= last + 1,
            find_from(s@, pat@, 0) == find_from(s@, pat@, i as int),
        decreases last + 1 - i,
    {
        if occurs_at_exec(s, pat, i) {
            return Some(i);
        }
        i = i + 1;
    }
    None
}

/// The characters of `s` from `from` to `to`.
fn slice(s: &Vec<char>, from: usize, to: usize) -> (r: Vec<char>)
    requires
        from <= to <= s@.len(),
    ensures
        r@ == s@.subrange(from as int, to as int),
{
    let mut r: Vec<char> = Vec::new();
    let mut i: usize = from;
    while i < to
        invariant
            from <= i <= to <= s@.len(),
            r@ == s@.subrange(from as int, i as int),
        decreases to - i,
    {
        r.push(s[i]);
        i = i + 1;
        assert(r@ =~= s@.subrange(from as int, i as int));
    }
    r
}

/// `s` split around the first occurrence of `pat`.
fn split_once_exec(s: &Vec<char>, pat: &Vec<char>) -> (r: Option<(Vec<char>, Vec<char>)>)
    ensures
        match r {
            Some((a, b)) => split_once(s@, pat@) == Some((a@, b@)),
            None => split_once(s@, pat@) is None,
        },
{
    let n = s.len();
    match find(s, pat) {
        Some(i) => {
            proof {
                lemma_find_from_in_range(s@, pat@, 0);
            }
            let a = slice(s, 0, i);
            let b = slice(s, i + pat.len(), n);
            assert(a@ =~= s@.take(i as int));
            assert(b@ =~= s@.skip(i + pat@.len()));
            Some((a, b))
        },
        None => None,
    }
}

/// Whether `s` begins with `p`.
fn starts_with_exec(s: &Vec<char>, p: &Vec<char>) -> (r: bool)
    ensures
        r == starts_with(s@, p@),
{
    if p.len() > s.len() {
        return false;
    }
    let r = occurs_at_exec(s, p, 0);
    assert(s@.subrange(0, p@.len() as int) =~= s@.take(p@.len() as int));
    r
}

/// Whether `s` and `t` hold the same characters.
fn same_chars(s: &Vec<char>, t: &Vec<char>) -> (r: bool)
    ensures
        r == (s@ == t@),
{
    if s.len() != t.len() {
        return false;
    }
    let r = starts_with_exec(s, t);
    assert(s@.take(t@.len() as int) =~= s@);
    r
}

impl DecodeErr {
    /// The reason given for a query that does not decode.
    pub fn message(&self) -> (r: String)
        ensures
            r@ == decode_reason(*self),
    {
        match self {
            DecodeErr::NotAscii => "Not an ascii string".to_owned(),
            DecodeErr::InvalidUtf8 => "Query is not valid UTF-8".to_owned(),
        }
    }
}

/// Parses the start line of a request into its decoded query terms.
pub fn parse_query(request: &str) -> (r: Result<Vec<String>, QueryErr>)
    ensures
        match r {
            Ok(v) => parse_spec(request@) == Ok::<Seq<Seq<char>>, QueryFault>(v.deep_view()),
            Err(e) => parse_spec(request@) == Err::<Seq<Seq<char>>, QueryFault>(e@),
        },
{
    let chars = chars_of(request);
    let blank = vec!['\r', '\n', '\r', '\n'];
    let newline = vec!['\r', '\n'];
    let space = vec![' '];
    let get = vec!['G', 'E', 'T'];
    let head = vec!['H', 'E', 'A', 'D'];
    let http_prefix = vec!['H', 'T', 'T', 'P'];
    assert(blank@ =~= blank_line());
    assert(newline@ =~= crlf());
    assert(space@ =~= seq![' ']);
    assert(get@ =~= seq!['G', 'E', 'T']);
    assert(head@ =~= seq!['H', 'E', 'A', 'D']);
    assert(http_prefix@ =~= http());
    let (header, _body) = match split_once_exec(&chars, &blank) {
        Some(v) => v,
        None => {
            return Err(QueryErr::BadRequest("Missing header-body split".to_owned()));
        },
    };
    let line = match split_once_exec(&header, &newline) {
        Some((line, _headers)) => line,
        None => header,
    };
    let (method, rest) = match split_once_exec(&line, &space) {
        Some(v) => v,
        None => {
            return Err(QueryErr::BadRequest("Invalid start-line".to_owned()));
        },
    };
    if !same_chars(&method, &get) && !same_chars(&method, &head) {
        return Err(QueryErr::MethodNotAllowed);
    }
    let (target, protocol) = match split_once_exec(&rest, &space) {
        Some(v) => v,
        None => (rest, Vec::new()),
    };
    if protocol.len() != 0 && !starts_with_exec(&protocol, &http_prefix) {
        return Err(QueryErr::BadRequest("Invalid protocol".to_owned()));
    }
    if target.len() == 0 || target[0] != '/' {
        return Err(QueryErr::BadRequest("Missing leading slash in target".to_owned()));
    }
    let encoded = text_from(&target, 1);
    match decode(encoded.as_str()) {
        Ok(parts) => Ok(parts),
        Err(e) => Err(QueryErr::BadRequest(e.message())),
    }
}

/// The protocol token for the response to `request`.
pub fn response_protocol(request: &str) -> (r: String)
    ensures
        r@ == reply_protocol(request@),
{
    let chars = chars_of(request);
    let blank = vec!['\r', '\n', '\r', '\n'];
    let newline = vec!['\r', '\n'];
    let space = vec![' '];
    let http_prefix = vec!['H', 'T', 'T', 'P'];
    assert(blank@ =~= blank_line());
    assert(newline@ =~= crlf());
    assert(space@ =~= seq![' ']);
    assert(http_prefix@ =~= http());
    let header = match split_once_exec(&chars, &blank) {
        Some((header, _body)) => header,
        None => {
            return "HTTP/1.1".to_owned();
        },
    };
    let line = match split_once_exec(&header, &newline) {
        Some((line, _headers)) => line,
        None => header,
    };
    let rest = match split_once_exec(&line, &space) {
        Some((_method, rest)) => rest,
        None => {
            return "HTTP/1.1".to_owned();
        },
    };
    let protocol = match split_once_exec(&rest, &space) {
        Some((_target, protocol)) => protocol,
        None => Vec::new(),
    };
    if protocol.len() != 0 && starts_with_exec(&protocol, &http_prefix) {
        text_from(&protocol, 0)
    } else {
        "HTTP/1.1".to_owned()
    }
}

proof fn lemma_find_from_in_range(s: Seq<char>, pat: Seq<char>, i: int)
    ensures
        find_from(s, pat, i) matches Some(k) ==> occurs_at(s, pat, k) && i <= k,
    decreases s.len() + 1 - i,
{
    if !(i < 0 || i + pat.len() > s.len()) && !occurs_at(s, pat, i) {
        lemma_find_from_in_range(s, pat, i + 1);
    }
}

} // verus!
