//! A parsed HTTP request and the grammar of its request line, its target
//! and its header lines.

use vstd::prelude::*;
use vstd::string::StringSliceAdditionalSpecFns;
use vstd::utf8::valid_utf8;
use crate::fields::{spec_assign, spec_distinct, spec_lookup, Entries, FieldMap};
use crate::text::{
    cut_str, find_byte, lemma_find, lemma_str_bytes, spec_find, spec_pieces, spec_split,
    spec_text, split_str, str_eq, str_from_utf8, AMPERSAND, COLON, EQUALS, QUESTION, SPACE,
};

verus! {

/// The request methods the server accepts.
#[derive(Clone, Copy, Debug)]
pub enum Method {
    Get,
}

/// One parsed request.
#[derive(Clone, Debug)]
pub struct Request {
    method: Method,
    /// The path: the request target up to its first `?`.
    pub uri: String,
    params: FieldMap,
    version: String,
    headers: FieldMap,
    body: Vec<u8>,
}

/// What a request holds, as plain values.
pub struct RequestView {
    pub method: Method,
    pub uri: Seq<char>,
    pub params: Entries,
    pub version: Seq<char>,
    pub headers: Entries,
    pub body: Seq<u8>,
}

/// The request that nothing has been parsed into yet.
pub open spec fn spec_empty_request() -> RequestView {
    RequestView {
        method: Method::Get,
        uri: Seq::empty(),
        params: Seq::empty(),
        version: Seq::empty(),
        headers: Seq::empty(),
        body: Seq::empty(),
    }
}

/// The query parameters that `pieces` add to `params`. A piece counts when
/// `=` splits it into exactly two parts; every other piece is skipped.
pub open spec fn spec_query(params: Entries, pieces: Seq<Seq<u8>>) -> Entries
    decreases pieces.len(),
{
    if pieces.len() == 0 {
        params
    } else {
        let earlier = spec_query(params, pieces.drop_last());
        let pair = spec_split(pieces.last(), EQUALS);
        if pair.len() == 2 {
            spec_assign(earlier, spec_text(pair[0]), spec_text(pair[1]))
        } else {
            earlier
        }
    }
}

/// The path of a request target: everything before its first `?`.
pub open spec fn spec_target_path(target: Seq<u8>) -> Seq<char> {
    let q = spec_find(target, QUESTION, 0);
    if 0 <= q < target.len() {
        spec_text(target.subrange(0, q))
    } else {
        spec_text(target)
    }
}

/// The parameters that a request target adds to `params`: the `&`-separated
/// pieces after its first `?`.
pub open spec fn spec_target_params(params: Entries, target: Seq<u8>) -> Entries {
    let q = spec_find(target, QUESTION, 0);
    if 0 <= q < target.len() {
        spec_query(params, spec_split(target.subrange(q + 1, target.len() as int), AMPERSAND))
    } else {
        params
    }
}

/// The only method token accepted on a request line.
pub open spec fn spec_get_token() -> Seq<char> {
    seq!['G', 'E', 'T']
}

/// The request that a request line starts, or `None` where the line is
/// rejected: it must be UTF-8, hold exactly three tokens separated by single
/// spaces, and name the method `GET`.
pub open spec fn spec_request_line(line: Seq<u8>) -> Option<RequestView> {
    let tokens = spec_split(line, SPACE);
    if valid_utf8(line) && tokens.len() == 3 && spec_text(tokens[0]) == spec_get_token() {
        Some(
            RequestView {
                method: Method::Get,
                uri: spec_target_path(tokens[1]),
                params: spec_target_params(Seq::empty(), tokens[1]),
                version: spec_text(tokens[2]),
                headers: Seq::empty(),
                body: Seq::empty(),
            },
        )
    } else {
        None
    }
}

/// Whether `": "` stands at index `i` of `line`.
pub open spec fn spec_separator_at(line: Seq<u8>, i: int) -> bool {
    0 <= i && i + 1 < line.len() && line[i] == COLON && line[i + 1] == SPACE
}

/// Index of the first `": "` in `line` at or after `from`, or the length when
/// there is none.
pub open spec fn spec_find_separator(line: Seq<u8>, from: int) -> int
    decreases line.len() - from,
{
    if from < 0 || from + 1 >= line.len() {
        line.len() as int
    } else if spec_separator_at(line, from) {
        from
    } else {
        spec_find_separator(line, from + 1)
    }
}

/// The name and value of a header line, split at its first `": "`, or `None`
/// where the line is not UTF-8 or has no `": "`.
pub open spec fn spec_header_line(line: Seq<u8>) -> Option<(Seq<char>, Seq<char>)> {
    let i = spec_find_separator(line, 0);
    if valid_utf8(line) && 0 <= i < line.len() {
        Some((spec_text(line.subrange(0, i)), spec_text(line.subrange(i + 2, line.len() as int))))
    } else {
        None
    }
}

/// An index where `": "` stands, with none before it, is the one
/// `spec_find_separator` returns.
pub proof fn lemma_separator_unique(line: Seq<u8>, from: int, i: int)
    requires
        0 <= from <= i <= line.len(),
        i < line.len() ==> spec_separator_at(line, i),
        forall|j: int| from <= j < i ==> !#[trigger] spec_separator_at(line, j),
    ensures
        spec_find_separator(line, from) == i,
    decreases i - from,
{
    if from < i {
        lemma_separator_unique(line, from + 1, i);
    }
}

impl View for Request {
    type V = RequestView;

    closed spec fn view(&self) -> RequestView {
        RequestView {
            method: self.method,
            uri: self.uri@,
            params: self.params@,
            version: self.version@,
            headers: self.headers@,
            body: self.body@,
        }
    }
}

impl Request {
    /// The request's invariant: no parameter and no header occurs twice.
    pub open spec fn wf(&self) -> bool {
        spec_distinct(self@.params) && spec_distinct(self@.headers)
    }

    pub fn new() -> (r: Request)
        ensures
            r@ == spec_empty_request(),
            r.wf(),
    {
        Request {
            method: Method::Get,
            uri: String::new(),
            params: FieldMap::new(),
            version: String::new(),
            headers: FieldMap::new(),
            body: Vec::new(),
        }
    }

    pub fn set_version(&mut self, version: &str)
        ensures
            final(self)@ == (RequestView { version: version@, ..old(self)@ }),
    {
        self.version = version.to_owned();
    }

    pub fn set_uri(&mut self, uri: &str)
        ensures
            final(self)@ == (RequestView { uri: uri@, ..old(self)@ }),
    {
        self.uri = uri.to_owned();
    }

    pub fn set_param(&mut self, name: &str, value: &str)
        ensures
            final(self)@ == (RequestView {
                params: spec_assign(old(self)@.params, name@, value@),
                ..old(self)@
            }),
            old(self).wf() ==> final(self).wf(),
    {
        self.params.set(name, value);
    }

    /// Splits a request target into the path and the query parameters.
    pub fn parse_uri(&mut self, uri: &str)
        ensures
            final(self)@ == (RequestView {
                uri: spec_target_path(uri.spec_bytes()),
                params: spec_target_params(old(self)@.params, uri.spec_bytes()),
                ..old(self)@
            }),
            old(self).wf() ==> final(self).wf(),
    {
        let bytes = uri.as_bytes();
        let q = find_byte(bytes, QUESTION, 0);
        proof {
            lemma_find(bytes@, QUESTION, 0);
            lemma_str_bytes(uri);
        }
        if q < bytes.len() {
            let (base, query) = cut_str(uri, q);
            proof {
                lemma_str_bytes(base);
            }
            self.set_uri(base);
            let pieces = split_str(query, AMPERSAND);
            let ghost all = spec_split(query.spec_bytes(), AMPERSAND);
            let ghost start = old(self)@.params;
            let mut i: usize = 0;
            assert(all.take(0) =~= Seq::<Seq<u8>>::empty());
            while i < pieces.len()
                invariant
                    i <= pieces@.len(),
                    spec_pieces(pieces@) == all,
                    old(self).wf() ==> self.wf(),
                    self@ == (RequestView {
                        uri: base@,
                        params: spec_query(start, all.take(i as int)),
                        ..old(self)@
                    }),
                decreases pieces@.len() - i,
            {
                let pair = split_str(pieces[i], EQUALS);
                proof {
                    assert(all.take(i + 1).drop_last() =~= all.take(i as int));
                    assert(all.take(i + 1).last() == pieces@[i as int].spec_bytes());
                    assert(spec_pieces(pair@).len() == pair@.len());
                }
                if pair.len() == 2 {
                    proof {
                        lemma_str_bytes(pair[0]);
                        lemma_str_bytes(pair[1]);
                        assert(spec_pieces(pair@)[0] == pair@[0].spec_bytes());
                        assert(spec_pieces(pair@)[1] == pair@[1].spec_bytes());
                    }
                    self.set_param(pair[0], pair[1]);
                }
                i += 1;
            }
            assert(all.take(i as int) =~= all);
        } else {
            self.set_uri(uri);
        }
    }

    pub fn set_method(&mut self, method: Method)
        ensures
            final(self)@ == (RequestView { method, ..old(self)@ }),
    {
        self.method = method;
    }

    pub fn set_header(&mut self, header_name: &str, value: &str)
        ensures
            final(self)@ == (RequestView {
                headers: spec_assign(old(self)@.headers, header_name@, value@),
                ..old(self)@
            }),
            old(self).wf() ==> final(self).wf(),
    {
        self.headers.set(header_name, value);
    }

    pub fn get_header(&self, header_name: &str) -> (r: Option<String>)
        ensures
            r is Some <==> spec_lookup(self@.headers, header_name@) is Some,
            r matches Some(v) ==> Some(v@) == spec_lookup(self@.headers, header_name@),
    {
        match self.headers.get(header_name) {
            Some(v) => Some(v.to_owned()),
            None => None,
        }
    }

    pub fn set_body(&mut self, body: &[u8])
        ensures
            final(self)@ == (RequestView { body: body@, ..old(self)@ }),
    {
        self.body = vstd::slice::slice_to_vec(body);
    }

    /// The value of the query parameter `name`.
    pub fn get_param(&self, name: &str) -> (r: Option<String>)
        ensures
            r is Some <==> spec_lookup(self@.params, name@) is Some,
            r matches Some(v) ==> Some(v@) == spec_lookup(self@.params, name@),
    {
        match self.params.get(name) {
            Some(v) => Some(v.to_owned()),
            None => None,
        }
    }

    /// The path: the request target up to its first `?`.
    pub fn path(&self) -> (r: &str)
        ensures
            r@ == self@.uri,
    {
        self.uri.as_str()
    }

    /// The protocol version token of the request line.
    pub fn version(&self) -> (r: &str)
        ensures
            r@ == self@.version,
    {
        self.version.as_str()
    }

    /// The body bytes.
    pub fn body(&self) -> (r: &[u8])
        ensures
            r@ == self@.body,
    {
        self.body.as_slice()
    }

    /// The headers, in the order in which their names first appeared.
    pub fn headers(&self) -> (r: &FieldMap)
        ensures
            r@ == self@.headers,
    {
        &self.headers
    }

    /// The query parameters, in the order in which their names first appeared.
    pub fn params(&self) -> (r: &FieldMap)
        ensures
            r@ == self@.params,
    {
        &self.params
    }
}

/// Parses a request line.
pub fn parse_request_line(line: &[u8]) -> (r: Option<Request>)
    ensures
        r is Some <==> spec_request_line(line@) is Some,
        r matches Some(req) ==> Some(req@) == spec_request_line(line@) && req.wf(),
{
    match str_from_utf8(line) {
        None => None,
        Some(s) => {
            let parts = split_str(s, SPACE);
            proof {
                assert(spec_pieces(parts@).len() == parts@.len());
            }
            if parts.len() != 3 {
                return None;
            }
            proof {
                lemma_str_bytes(parts[0]);
                lemma_str_bytes(parts[2]);
                assert(spec_pieces(parts@)[0] == parts@[0].spec_bytes());
                assert(spec_pieces(parts@)[1] == parts@[1].spec_bytes());
                assert(spec_pieces(parts@)[2] == parts@[2].spec_bytes());
                reveal_strlit("GET");
                assert("GET"@ =~= spec_get_token());
            }
            if !str_eq(parts[0], "GET") {
                return None;
            }
            let mut request = Request::new();
            request.set_method(Method::Get);
            request.parse_uri(parts[1]);
            request.set_version(parts[2]);
            Some(request)
        },
    }
}

/// Parses a header line into its name and value.
pub fn parse_header_line(line: &[u8]) -> (r: Option<(&str, &str)>)
    ensures
        r is Some <==> spec_header_line(line@) is Some,
        r matches Some(h) ==> Some((h.0@, h.1@)) == spec_header_line(line@),
{
    match str_from_utf8(line) {
        None => None,
        Some(s) => {
            let mut i: usize = 0;
            while i < line.len() && !(line.len() - i >= 2 && line[i] == COLON && line[i + 1]
                == SPACE)
                invariant
                    i <= line@.len(),
                    forall|j: int| 0 <= j < i ==> !#[trigger] spec_separator_at(line@, j),
                decreases line@.len() - i,
            {
                i += 1;
            }
            if i < line.len() {
                proof {
                    lemma_separator_unique(line@, 0, i as int);
                }
                let (name, rest) = cut_str(s, i);
                let (_, value) = cut_str(rest, 0);
                proof {
                    lemma_str_bytes(name);
                    lemma_str_bytes(value);
                    assert(rest.spec_bytes().subrange(1, rest.spec_bytes().len() as int)
                        =~= line@.subrange(i + 2, line@.len() as int));
                }
                Some((name, value))
            } else {
                proof {
                    lemma_separator_unique(line@, 0, line@.len() as int);
                }
                None
            }
        },
    }
}

} // verus!
