//! Responses: a status line, headers and an optional body, rendered as
//! they go on the wire.

use vstd::prelude::*;

verus! {

/// The statuses that the gateway answers with.
#[derive(Debug, Clone, Copy, PartialEq, Eq, Structural)]
pub enum StatusCode {
    SeeOther,
    BadRequest,
    MethodNotAllowed,
}

/// The status line text of a status.
pub open spec fn status_message(s: StatusCode) -> Seq<char> {
    match s {
        StatusCode::SeeOther => "303 See Other"@,
        StatusCode::BadRequest => "400 Bad Request"@,
        StatusCode::MethodNotAllowed => "405 Method Not Allowed"@,
    }
}

impl StatusCode {
    /// The status line text, code and reason.
    pub fn msg(&self) -> (r: String)
        ensures
            r@ == status_message(*self),
    {
        match self {
            StatusCode::SeeOther => "303 See Other".to_owned(),
            StatusCode::BadRequest => "400 Bad Request".to_owned(),
            StatusCode::MethodNotAllowed => "405 Method Not Allowed".to_owned(),
        }
    }
}

/// The line break of the wire format.
pub open spec fn newline() -> Seq<char> {
    seq!['\r', '\n']
}

/// The headers as pairs of character sequences.
pub open spec fn header_views(hs: Seq<(String, String)>) -> Seq<(Seq<char>, Seq<char>)> {
    hs.map_values(|h: (String, String)| (h.0@, h.1@))
}

/// `hs` with the header `name` set to `value`: the first header of that name
/// takes the new value, or the header is added at the end.
pub open spec fn set_header(hs: Seq<(Seq<char>, Seq<char>)>, name: Seq<char>, value: Seq<char>) -> Seq<(Seq<char>, Seq<char>)>
    decreases hs.len(),
{
    if hs.len() == 0 {
        seq![(name, value)]
    } else if hs[0].0 == name {
        hs.update(0, (name, value))
    } else {
        seq![hs[0]] + set_header(hs.skip(1), name, value)
    }
}

/// The header lines, each `Name: Value` and a line break.
pub open spec fn headers_block(hs: Seq<(Seq<char>, Seq<char>)>) -> Seq<char>
    decreases hs.len(),
{
    if hs.len() == 0 {
        Seq::empty()
    } else {
        headers_block(hs.drop_last()) + hs.last().0 + ": "@ + hs.last().1 + newline()
    }
}

/// The body text, empty where there is none.
pub open spec fn body_text(body: Option<String>) -> Seq<char> {
    match body {
        Some(b) => b@,
        None => Seq::empty(),
    }
}

/// A response on the wire: status line, header lines, a blank line, the body.
pub open spec fn render(proto: Seq<char>, status: StatusCode, headers: Seq<(Seq<char>, Seq<char>)>, body: Seq<char>) -> Seq<char> {
    proto + seq![' '] + status_message(status) + newline() + headers_block(headers) + newline() + body
}

/// A response: status line, headers and an optional body.
pub struct Response {
    pub proto: String,
    pub status: StatusCode,
    pub headers: Vec<(String, String)>,
    pub body: Option<String>,
}

impl Response {
    /// The rendered response.
    pub open spec fn rendered(&self) -> Seq<char> {
        render(self.proto@, self.status, header_views(self.headers@), body_text(self.body))
    }

    /// A response with no headers and no body.
    pub fn new(proto: &str, status: StatusCode) -> (r: Self)
        ensures
            r.proto@ == proto@,
            r.status == status,
            r.headers@.len() == 0,
            r.body is None,
    {
        Response { proto: proto.to_owned(), status: status, headers: Vec::new(), body: None }
    }

    /// Sets the header `name` to `value`, replacing an earlier value.
    pub fn header(&mut self, name: &str, value: &str) -> (r: &mut Self)
        ensures
            r.proto == old(self).proto,
            r.status == old(self).status,
            r.body == old(self).body,
            header_views(r.headers@) == set_header(header_views(old(self).headers@), name@, value@),
            *final(self) == *final(r),
    {
        let ghost hs = header_views(self.headers@);
        let key = name.to_owned();
        let mut i: usize = 0;
        assert(hs.skip(0) =~= hs);
        assert(hs.take(0) =~= Seq::<(Seq<char>, Seq<char>)>::empty());
        while i < self.headers.len()
            invariant
                i <= self.headers@.len(),
                key@ == name@,
                hs == header_views(self.headers@),
                self.proto == old(self).proto,
                self.status == old(self).status,
                self.body == old(self).body,
                self.headers@ == old(self).headers@,
                set_header(hs, name@, value@) == hs.take(i as int) + set_header(hs.skip(i as int), name@, value@),
            decreases self.headers@.len() - i,
        {
            if self.headers[i].0 == key {
                self.headers.set(i, (key, value.to_owned()));
                assert(hs.skip(i as int)[0] == hs[i as int]);
                assert(header_views(self.headers@) =~= hs.take(i as int) + hs.skip(i as int).update(0, (name@, value@)));
                return self;
            }
            assert(hs.skip(i as int).skip(1) =~= hs.skip(i + 1));
            assert(hs.skip(i as int)[0] == hs[i as int]);
            assert(hs.take(i + 1) =~= hs.take(i as int) + seq![hs[i as int]]);
            i = i + 1;
        }
        self.headers.push((key, value.to_owned()));
        assert(hs.take(i as int) =~= hs);
        assert(header_views(self.headers@) =~= hs + seq![(name@, value@)]);
        self
    }

    /// Sets the body.
    pub fn body(&mut self, value: &str) -> (r: &mut Self)
        ensures
            r.proto == old(self).proto,
            r.status == old(self).status,
            r.headers == old(self).headers,
            r.body matches Some(b) && b@ == value@,
            *final(self) == *final(r),
    {
        self.body = Some(value.to_owned());
        self
    }

    /// The response as it goes on the wire.
    pub fn make(&self) -> (r: String)
        ensures
            r@ == self.rendered(),
    {
        proof {
            reveal_strlit(" ");
            reveal_strlit("\r\n");
        }
        let mut out = self.proto.clone();
        out.append(" ");
        out.append(self.status.msg().as_str());
        out.append("\r\n");
        let ghost start = out@;
        let ghost hs = header_views(self.headers@);
        let mut i: usize = 0;
        while i < self.headers.len()
            invariant
                i <= hs.len(),
                hs == header_views(self.headers@),
                out@ == start + headers_block(hs.take(i as int)),
            decreases hs.len() - i,
        {
            out.append(self.headers[i].0.as_str());
            out.append(": ");
            out.append(self.headers[i].1.as_str());
            out.append("\r\n");
            assert(hs.take(i + 1).drop_last() =~= hs.take(i as int));
            proof {
                reveal_strlit("\r\n");
            }
            assert("\r\n"@ =~= newline());
            i = i + 1;
        }
        assert(hs.take(i as int) =~= hs);
        out.append("\r\n");
        assert(" "@ =~= seq![' ']);
        assert("\r\n"@ =~= newline());
        match &self.body {
            Some(b) => out.append(b.as_str()),
            None => {},
        }
        out
    }
}

} // verus!
