//! Request handling: choosing the bang, building the redirect URL, and
//! answering one request.

use vstd::prelude::*;

use crate::bang_storage::{lookup, BangStorage};
use crate::codec::{encode, encode_spec};
use crate::request::{parse_query, parse_spec, reply_protocol, response_protocol, QueryErr, QueryFault};
use crate::response::{render, Response, StatusCode};
use crate::text::{chars_of, push_char, string_from_utf8, text_from};
use vstd::utf8::{decode_utf8, valid_utf8};

verus! {

/// The selected alias, if any, and the query terms, after reading `tokens`
/// from left to right: the first non-empty token that is `!` followed by a
/// known alias selects it; every other non-empty token is a query term.
pub open spec fn select(tokens: Seq<Seq<char>>, table: Seq<(Seq<char>, Seq<char>)>) -> (Option<Seq<char>>, Seq<Seq<char>>)
    decreases tokens.len(),
{
    if tokens.len() == 0 {
        (None, Seq::empty())
    } else {
        let (chosen, terms) = select(tokens.drop_last(), table);
        let t = tokens.last();
        if t.len() == 0 {
            (chosen, terms)
        } else if chosen is None && t[0] == '!' && lookup(table, t.skip(1)) is Some {
            (Some(t.skip(1)), terms)
        } else {
            (chosen, terms.push(t))
        }
    }
}

/// An alias that `select` chooses is in the table.
proof fn lemma_select_known(tokens: Seq<Seq<char>>, table: Seq<(Seq<char>, Seq<char>)>)
    ensures
        select(tokens, table).0 matches Some(a) ==> lookup(table, a) is Some,
    decreases tokens.len(),
{
    if tokens.len() > 0 {
        lemma_select_known(tokens.drop_last(), table);
    }
}

/// A token that can select a bang: `!` followed by an alias of the table.
pub open spec fn eligible(t: Seq<char>, table: Seq<(Seq<char>, Seq<char>)>) -> bool {
    t.len() > 0 && t[0] == '!' && lookup(table, t.skip(1)) is Some
}

/// The non-empty tokens, in order.
pub open spec fn nonempty_tokens(tokens: Seq<Seq<char>>) -> Seq<Seq<char>>
    decreases tokens.len(),
{
    if tokens.len() == 0 {
        Seq::empty()
    } else if tokens.last().len() == 0 {
        nonempty_tokens(tokens.drop_last())
    } else {
        nonempty_tokens(tokens.drop_last()).push(tokens.last())
    }
}

proof fn lemma_select_before(tokens: Seq<Seq<char>>, table: Seq<(Seq<char>, Seq<char>)>, n: int)
    requires
        0 <= n <= tokens.len(),
        forall|j: int| 0 <= j < n ==> !eligible(#[trigger] tokens[j], table),
    ensures
        select(tokens.take(n), table) == (None::<Seq<char>>, nonempty_tokens(tokens.take(n))),
    decreases n,
{
    if n > 0 {
        lemma_select_before(tokens, table, n - 1);
        assert(tokens.take(n).drop_last() =~= tokens.take(n - 1));
        assert(tokens.take(n).last() == tokens[n - 1]);
    }
}

proof fn lemma_select_after(tokens: Seq<Seq<char>>, table: Seq<(Seq<char>, Seq<char>)>, k: int, n: int)
    requires
        0 <= k < n <= tokens.len(),
        eligible(tokens[k], table),
        forall|j: int| 0 <= j < k ==> !eligible(#[trigger] tokens[j], table),
    ensures
        select(tokens.take(n), table) == (
            Some(tokens[k].skip(1)),
            nonempty_tokens(tokens.take(k)) + nonempty_tokens(tokens.subrange(k + 1, n)),
        ),
    decreases n,
{
    assert(tokens.take(n).drop_last() =~= tokens.take(n - 1));
    assert(tokens.take(n).last() == tokens[n - 1]);
    if n == k + 1 {
        lemma_select_before(tokens, table, k);
        assert(tokens.subrange(k + 1, n) =~= Seq::<Seq<char>>::empty());
        assert(nonempty_tokens(tokens.take(k)) + Seq::<Seq<char>>::empty() =~= nonempty_tokens(tokens.take(k)));
    } else {
        lemma_select_after(tokens, table, k, n - 1);
        let rest = tokens.subrange(k + 1, n);
        assert(rest.drop_last() =~= tokens.subrange(k + 1, n - 1));
        assert(rest.last() == tokens[n - 1]);
        let before = nonempty_tokens(tokens.take(k));
        assert(before + nonempty_tokens(tokens.subrange(k + 1, n - 1)).push(tokens[n - 1])
            =~= (before + nonempty_tokens(tokens.subrange(k + 1, n - 1))).push(tokens[n - 1]));
    }
}

/// The first token, in order, that is `!` followed by a known alias selects
/// that alias, wherever it stands among the tokens; every other non-empty
/// token, later eligible ones included, is a query term, in order.
pub proof fn first_eligible_bang_selects(tokens: Seq<Seq<char>>, table: Seq<(Seq<char>, Seq<char>)>, k: int)
    requires
        0 <= k < tokens.len(),
        eligible(tokens[k], table),
        forall|j: int| 0 <= j < k ==> !eligible(#[trigger] tokens[j], table),
    ensures
        select(tokens, table) == (
            Some(tokens[k].skip(1)),
            nonempty_tokens(tokens.take(k)) + nonempty_tokens(tokens.skip(k + 1)),
        ),
{
    lemma_select_after(tokens, table, k, tokens.len() as int);
    assert(tokens.take(tokens.len() as int) =~= tokens);
    assert(tokens.subrange(k + 1, tokens.len() as int) =~= tokens.skip(k + 1));
}

/// Where no token can select a bang, none is selected, and every non-empty
/// token is a query term, in order.
pub proof fn no_eligible_bang_keeps_all(tokens: Seq<Seq<char>>, table: Seq<(Seq<char>, Seq<char>)>)
    requires
        forall|j: int| 0 <= j < tokens.len() ==> !eligible(#[trigger] tokens[j], table),
    ensures
        select(tokens, table) == (None::<Seq<char>>, nonempty_tokens(tokens)),
{
    lemma_select_before(tokens, table, tokens.len() as int);
    assert(tokens.take(tokens.len() as int) =~= tokens);
}

/// The parts joined with `+`.
pub open spec fn join_plus(parts: Seq<Seq<char>>) -> Seq<char>
    decreases parts.len(),
{
    if parts.len() == 0 {
        Seq::empty()
    } else if parts.len() == 1 {
        parts[0]
    } else {
        join_plus(parts.drop_last()) + seq!['+'] + parts.last()
    }
}

/// `template` with every `{}` marker, read from the left, replaced by `q`.
pub open spec fn substitute(template: Seq<char>, q: Seq<char>) -> Seq<char>
    decreases template.len(),
{
    if template.len() < 2 {
        template
    } else if template[0] == '{' && template[1] == '}' {
        q + substitute(template.skip(2), q)
    } else {
        seq![template[0]] + substitute(template.skip(1), q)
    }
}

/// The query terms, each percent-encoded.
pub open spec fn encoded_terms(terms: Seq<Seq<char>>) -> Seq<Seq<char>> {
    terms.map_values(|t: Seq<char>| encode_spec(t))
}

/// The redirect URL for `tokens`.
pub open spec fn resolve_spec(tokens: Seq<Seq<char>>, table: Seq<(Seq<char>, Seq<char>)>, default: Seq<char>) -> Seq<char> {
    let (chosen, terms) = select(tokens, table);
    let alias = match chosen {
        Some(a) => a,
        None => default,
    };
    substitute(lookup(table, alias).unwrap(), join_plus(encoded_terms(terms)))
}

/// `template` with its `{}` markers replaced by `q`.
pub fn substitute_exec(template: &str, q: &str) -> (r: String)
    ensures
        r@ == substitute(template@, q@),
{
    let t = chars_of(template);
    let mut out = String::new();
    let mut i: usize = 0;
    assert(t@.skip(0) =~= t@);
    assert(out@ + substitute(t@, q@) =~= substitute(t@, q@));
    while i < t.len()
        invariant
            i <= t@.len(),
            t@ == template@,
            out@ + substitute(t@.skip(i as int), q@) == substitute(t@, q@),
        decreases t@.len() - i,
    {
        let ghost rest = t@.skip(i as int);
        if i + 1 < t.len() && t[i] == '{' && t[i + 1] == '}' {
            assert(rest.skip(2) =~= t@.skip(i + 2));
            out.append(q);
            assert(out@ + substitute(t@.skip(i + 2), q@) =~= substitute(t@, q@));
            i = i + 2;
        } else {
            proof {
                if rest.len() >= 2 {
                    assert(rest.skip(1) =~= t@.skip(i + 1));
                } else {
                    assert(rest =~= seq![t@[i as int]] + t@.skip(i + 1));
                }
            }
            push_char(&mut out, t[i]);
            assert(out@ + substitute(t@.skip(i + 1), q@) =~= substitute(t@, q@));
            i = i + 1;
        }
    }
    out
}

/// Resolves the query tokens against the bang table into a redirect URL.
pub fn process_query(storage: &BangStorage, query: &Vec<String>) -> (r: String)
    requires
        storage.wf(),
    ensures
        r@ == resolve_spec(query.deep_view(), storage.table(), storage.default@),
{
    let ghost tokens = query.deep_view();
    let ghost table = storage.table();
    let mut chosen: Option<String> = None;
    let mut joined = String::new();
    let mut n_terms: usize = 0;
    let mut i: usize = 0;
    while i < query.len()
        invariant
            i <= tokens.len(),
            tokens == query.deep_view(),
            table == storage.table(),
            ({
                let (c, terms) = select(tokens.take(i as int), table);
                &&& match chosen {
                    Some(a) => c == Some(a@),
                    None => c is None,
                }
                &&& n_terms == terms.len()
                &&& n_terms <= i
                &&& joined@ == join_plus(encoded_terms(terms))
            }),
        decreases tokens.len() - i,
    {
        let token = &query[i];
        let cs = chars_of(token.as_str());
        assert(tokens.take(i + 1).drop_last() =~= tokens.take(i as int));
        assert(tokens.take(i + 1).last() == token@);
        let ghost terms = select(tokens.take(i as int), table).1;
        if cs.len() != 0 {
            let mut taken = false;
            if chosen.is_none() && cs[0] == '!' {
                let rest = text_from(&cs, 1);
                if storage.template(&rest).is_some() {
                    chosen = Some(rest);
                    taken = true;
                }
            }
            if !taken {
                let e = encode(token.as_str());
                if n_terms > 0 {
                    push_char(&mut joined, '+');
                }
                joined.append(e.as_str());
                proof {
                    let new_terms = terms.push(token@);
                    assert(encoded_terms(new_terms).drop_last() =~= encoded_terms(terms));
                    if terms.len() == 0 {
                        assert(encoded_terms(terms).len() == 0);
                        assert(join_plus(encoded_terms(terms)) =~= Seq::<char>::empty());
                        assert(joined@ =~= join_plus(encoded_terms(new_terms)));
                    }
                }
                n_terms = n_terms + 1;
            }
        }
        i = i + 1;
    }
    assert(tokens.take(i as int) =~= tokens);
    proof {
        lemma_select_known(tokens, table);
    }
    let alias = match chosen {
        Some(a) => a,
        None => storage.default.clone(),
    };
    match storage.template(&alias) {
        Some(t) => substitute_exec(t.as_str(), joined.as_str()),
        None => String::new(),
    }
}

/// The response to a request, as it goes on the wire.
pub open spec fn reply_spec(request: Seq<char>, table: Seq<(Seq<char>, Seq<char>)>, default: Seq<char>) -> Seq<char> {
    match parse_spec(request) {
        Ok(tokens) => render(
            reply_protocol(request),
            StatusCode::SeeOther,
            seq![("Location"@, resolve_spec(tokens, table, default))],
            Seq::empty(),
        ),
        Err(QueryFault::BadRequest(reason)) => render(
            reply_protocol(request),
            StatusCode::BadRequest,
            seq![("Content-Type"@, "text/plain"@)],
            reason,
        ),
        Err(QueryFault::MethodNotAllowed) => render(
            reply_protocol(request),
            StatusCode::MethodNotAllowed,
            seq![("Allow"@, "GET, HEAD"@)],
            Seq::empty(),
        ),
    }
}

/// Answers one request: a redirect, or the error that parsing gave.
pub fn process_request(storage: &BangStorage, request: &str) -> (r: String)
    requires
        storage.wf(),
    ensures
        r@ == reply_spec(request@, storage.table(), storage.default@),
{
    let protocol = response_protocol(request);
    let proto = protocol.as_str();
    match parse_query(request) {
        Ok(query) => {
            let url = process_query(storage, &query);
            let mut response = Response::new(proto, StatusCode::SeeOther);
            response.header("Location", url.as_str());
            response.make()
        },
        Err(QueryErr::BadRequest(reason)) => {
            let mut response = Response::new(proto, StatusCode::BadRequest);
            response.header("Content-Type", "text/plain");
            response.body(reason.as_str());
            response.make()
        },
        Err(QueryErr::MethodNotAllowed) => {
            let mut response = Response::new(proto, StatusCode::MethodNotAllowed);
            response.header("Allow", "GET, HEAD");
            response.make()
        },
    }
}

/// The request text of the bytes read: their UTF-8 decoding, or the empty
/// text where they are not valid UTF-8.
pub fn request_text(bytes: Vec<u8>) -> (r: String)
    ensures
        valid_utf8(bytes@) ==> r@ == decode_utf8(bytes@),
        !valid_utf8(bytes@) ==> r@.len() == 0,
{
    match string_from_utf8(bytes) {
        Some(s) => s,
        None => String::new(),
    }
}

/// Adds the first `n` bytes of a read buffer to what was read so far, and
/// tells whether the message has ended: a read shorter than the buffer ends it.
pub fn take_chunk(acc: &mut Vec<u8>, buf: &[u8], n: usize) -> (done: bool)
    requires
        n <= buf@.len(),
    ensures
        final(acc)@ == old(acc)@ + buf@.take(n as int),
        done == (n < buf@.len()),
{
    let mut i: usize = 0;
    while i < n
        invariant
            i <= n <= buf@.len(),
            acc@ == old(acc)@ + buf@.take(i as int),
        decreases n - i,
    {
        acc.push(buf[i]);
        i = i + 1;
        assert(acc@ =~= old(acc)@ + buf@.take(i as int));
    }
    n < buf.len()
}

} // verus!
