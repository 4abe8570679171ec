//! What a script sees of a request, and the response a script builds.

use vstd::prelude::*;
use vstd::string::*;
use vstd::utf8::*;

use crate::assoc::{StringMap, text_view};
use crate::router::{path_only, path_only_of};
use crate::text::{chars_contain, chars_of, contains_seq, copy_bytes, copy_strings, string_views};

verus! {

#[verifier::external_type_specification]
#[verifier::external_body]
pub struct ExUtf8Error(std::str::Utf8Error);

/// `std::str::from_utf8`: the bytes read as UTF-8 text. It succeeds exactly
/// when the bytes are valid UTF-8, and the text is what they encode.
#[verifier::external_body]
fn utf8_text(bytes: &[u8]) -> (r: Result<&str, std::str::Utf8Error>)
    ensures
        r is Ok <==> valid_utf8(bytes@),
        r matches Ok(s) ==> s@ == decode_utf8(bytes@),
{
    std::str::from_utf8(bytes)
}

/// The query pairs that `armature_core` parses out of a request target.
pub uninterp spec fn query_pairs(target: Seq<char>) -> Seq<(Seq<char>, Seq<char>)>;

/// The views of a sequence of string pairs.
pub open spec fn pair_views(v: Seq<(String, String)>) -> Seq<(Seq<char>, Seq<char>)> {
    v.map_values(|p: (String, String)| (p.0@, p.1@))
}

/// The views of a sequence of named byte strings.
pub open spec fn param_views(v: Seq<(String, Vec<u8>)>) -> Seq<(Seq<char>, Seq<u8>)> {
    v.map_values(|p: (String, Vec<u8>)| (p.0@, p.1@))
}

/// `HttpRequest::query` of `armature_core`, on a request built from the
/// target alone: the query pairs, percent-decoded, in the order sent. The
/// parse reads only the part after the first `?`; a target without `?` has
/// no pairs.
#[verifier::external_body]
fn parse_query(target: &str) -> (r: Vec<(String, String)>)
    ensures
        pair_views(r@) == query_pairs(target@),
        !target@.contains('?') ==> r@.len() == 0,
{
    let request = armature_core::HttpRequest::new("GET", target);
    request.query().iter().map(|(k, v)| (k.to_owned(), v.to_owned())).collect()
}

/// The optional text of an optional string.
pub open spec fn opt_view(o: Option<String>) -> Option<Seq<char>> {
    match o {
        Some(s) => Some(s@),
        None => None,
    }
}

/// The map that a list of pairs builds when each pair is inserted in turn:
/// a later pair for a name replaces an earlier one.
pub open spec fn pairs_map(p: Seq<(Seq<char>, Seq<char>)>) -> Map<Seq<char>, Seq<char>>
    decreases p.len(),
{
    if p.len() == 0 {
        Map::empty()
    } else {
        pairs_map(p.drop_last()).insert(p.last().0, p.last().1)
    }
}

/// The path parameters that scripts can read: each captured value that is
/// valid UTF-8, decoded, a later capture of a name replacing an earlier one.
pub open spec fn decoded_params(p: Seq<(Seq<char>, Seq<u8>)>) -> Map<Seq<char>, Seq<char>>
    decreases p.len(),
{
    if p.len() == 0 {
        Map::empty()
    } else if valid_utf8(p.last().1) {
        decoded_params(p.drop_last()).insert(p.last().0, decode_utf8(p.last().1))
    } else {
        decoded_params(p.drop_last())
    }
}

/// The first value sent for `name`.
pub open spec fn first_value(q: Seq<(Seq<char>, Seq<char>)>, name: Seq<char>) -> Option<Seq<char>>
    decreases q.len(),
{
    if q.len() == 0 {
        None
    } else {
        match first_value(q.drop_last(), name) {
            Some(v) => Some(v),
            None => if q.last().0 == name {
                Some(q.last().1)
            } else {
                None
            },
        }
    }
}

/// Every value sent for `name`, in the order sent.
pub open spec fn values_for(q: Seq<(Seq<char>, Seq<char>)>, name: Seq<char>) -> Seq<Seq<char>>
    decreases q.len(),
{
    if q.len() == 0 {
        Seq::empty()
    } else if q.last().0 == name {
        values_for(q.drop_last(), name).push(q.last().1)
    } else {
        values_for(q.drop_last(), name)
    }
}

/// Each name sent, mapped to the first value sent for it.
pub open spec fn first_wins(q: Seq<(Seq<char>, Seq<char>)>) -> Map<Seq<char>, Seq<char>> {
    Map::new(|k: Seq<char>| first_value(q, k) is Some, |k: Seq<char>| first_value(q, k).unwrap())
}

/// The parts of an incoming request that a binding is built from.
pub struct RequestParts {
    /// The method token.
    pub method: String,
    /// The raw request target, query string included.
    pub target: String,
    /// The headers, in the order the request carries them.
    pub headers: Vec<(String, String)>,
    /// The captured path parameters, as raw bytes, in capture order.
    pub path_params: Vec<(String, Vec<u8>)>,
    /// The body.
    pub body: Vec<u8>,
}

impl RequestParts {
    /// A request with the given method and target, and nothing else.
    pub fn new(method: &str, target: &str) -> (r: Self)
        ensures
            r.method@ == method@,
            r.target@ == target@,
            r.headers@.len() == 0,
            r.path_params@.len() == 0,
            r.body@.len() == 0,
    {
        RequestParts {
            method: method.to_owned(),
            target: target.to_owned(),
            headers: Vec::new(),
            path_params: Vec::new(),
            body: Vec::new(),
        }
    }

    /// Adds one captured path parameter.
    pub fn push_param(&mut self, name: &str, value: Vec<u8>)
        ensures
            param_views(final(self).path_params@) == param_views(old(self).path_params@).push(
                (name@, value@),
            ),
            final(self).method == old(self).method,
            final(self).target == old(self).target,
            final(self).headers == old(self).headers,
            final(self).body == old(self).body,
    {
        let ghost before = self.path_params@;
        let n = name.to_owned();
        self.path_params.push((n, value));
        assert(param_views(self.path_params@) =~= param_views(before).push((name@, value@)));
    }

    /// Adds one header.
    pub fn push_header(&mut self, name: &str, value: &str)
        ensures
            pair_views(final(self).headers@) == pair_views(old(self).headers@).push((name@, value@)),
            final(self).method == old(self).method,
            final(self).target == old(self).target,
            final(self).path_params == old(self).path_params,
            final(self).body == old(self).body,
    {
        let ghost before = self.headers@;
        let n = name.to_owned();
        let v = value.to_owned();
        self.headers.push((n, v));
        assert(pair_views(self.headers@) =~= pair_views(before).push((name@, value@)));
    }
}

/// What a script sees of a request.
pub struct RequestView {
    pub method: Seq<char>,
    pub path: Seq<char>,
    pub headers: Map<Seq<char>, Seq<char>>,
    pub query: Seq<(Seq<char>, Seq<char>)>,
    pub params: Map<Seq<char>, Seq<char>>,
    pub param_names: Seq<Seq<char>>,
    pub body: Seq<u8>,
}

/// Request binding for Rhai scripts.
///
/// The query is kept as its pairs in the order sent, repeats included, so
/// that a repeated key reads as its first value, as it does in Rust code.
#[derive(Clone)]
pub struct RequestBinding {
    method: String,
    path: String,
    headers: StringMap<String>,
    query: Vec<(String, String)>,
    params: StringMap<String>,
    param_names: Vec<String>,
    body: Vec<u8>,
}

impl View for RequestBinding {
    type V = RequestView;

    closed spec fn view(&self) -> RequestView {
        RequestView {
            method: self.method@,
            path: self.path@,
            headers: text_view(self.headers@),
            query: pair_views(self.query@),
            params: text_view(self.params@),
            param_names: string_views(self.param_names@),
            body: self.body@,
        }
    }
}

proof fn lemma_first_value_step(q: Seq<(Seq<char>, Seq<char>)>, i: int, name: Seq<char>)
    requires
        0 <= i < q.len(),
    ensures
        first_value(q.subrange(0, i + 1), name) == (match first_value(q.subrange(0, i), name) {
            Some(v) => Some(v),
            None => if q[i].0 == name {
                Some(q[i].1)
            } else {
                None
            },
        }),
{
    assert(q.subrange(0, i + 1).drop_last() =~= q.subrange(0, i));
}

/// The first value for a name is the first of all its values.
pub proof fn lemma_first_value_is_first_of_all(q: Seq<(Seq<char>, Seq<char>)>, name: Seq<char>)
    ensures
        first_value(q, name) == (if values_for(q, name).len() > 0 {
            Some(values_for(q, name)[0])
        } else {
            None
        }),
    decreases q.len(),
{
    if q.len() > 0 {
        lemma_first_value_is_first_of_all(q.drop_last(), name);
    }
}

impl RequestBinding {
    /// Create a new request binding from the parts of a request.
    pub fn from_request(req: &RequestParts) -> (r: Self)
        ensures
            r@.method == req.method@,
            r@.path == path_only(req.target@),
            r@.headers == pairs_map(pair_views(req.headers@)),
            r@.query == query_pairs(req.target@),
            r@.params == decoded_params(param_views(req.path_params@)),
            r@.param_names == param_views(req.path_params@).map_values(
                |p: (Seq<char>, Seq<u8>)| p.0,
            ),
            r@.body == req.body@,
    {
        let mut headers: StringMap<String> = StringMap::new();
        let mut i: usize = 0;
        assert(text_view(headers@) =~= pairs_map(pair_views(req.headers@).subrange(0, 0)));
        while i < req.headers.len()
            invariant
                i <= req.headers@.len(),
                text_view(headers@) == pairs_map(pair_views(req.headers@).subrange(0, i as int)),
            decreases req.headers@.len() - i,
        {
            let ghost before = headers@;
            headers.insert(req.headers[i].0.clone(), req.headers[i].1.clone());
            proof {
                let p = pair_views(req.headers@).subrange(0, i + 1);
                assert(p.drop_last() =~= pair_views(req.headers@).subrange(0, i as int));
                assert(text_view(headers@) =~= text_view(before).insert(
                    req.headers@[i as int].0@,
                    req.headers@[i as int].1@,
                ));
            }
            i = i + 1;
        }
        assert(pair_views(req.headers@).subrange(0, req.headers@.len() as int) =~= pair_views(
            req.headers@,
        ));

        let mut params: StringMap<String> = StringMap::new();
        let mut param_names: Vec<String> = Vec::new();
        let ghost pv = param_views(req.path_params@);
        let mut j: usize = 0;
        assert(text_view(params@) =~= decoded_params(pv.subrange(0, 0)));
        while j < req.path_params.len()
            invariant
                j <= req.path_params@.len(),
                pv == param_views(req.path_params@),
                pv.len() == req.path_params@.len(),
                param_names@.len() == j,
                text_view(params@) == decoded_params(pv.subrange(0, j as int)),
                string_views(param_names@) == pv.subrange(0, j as int).map_values(
                    |p: (Seq<char>, Seq<u8>)| p.0,
                ),
            decreases req.path_params@.len() - j,
        {
            let name = &req.path_params[j].0;
            let value = &req.path_params[j].1;
            let ghost names_before = param_names@;
            param_names.push(name.clone());
            let ghost before = params@;
            proof {
                let p = pv.subrange(0, j + 1);
                assert(p.drop_last() =~= pv.subrange(0, j as int));
                assert(p.last() == (name@, value@));
                assert forall|k: int| 0 <= k < j + 1 implies #[trigger] string_views(param_names@)[k]
                    == p.map_values(|p: (Seq<char>, Seq<u8>)| p.0)[k] by {
                    if k < j {
                        assert(string_views(names_before)[k] == pv.subrange(0, j as int).map_values(
                            |p: (Seq<char>, Seq<u8>)| p.0,
                        )[k]);
                        assert(param_names@[k] == names_before[k]);
                    }
                }
                assert(string_views(param_names@) =~= p.map_values(|p: (Seq<char>, Seq<u8>)| p.0));
            }
            match utf8_text(value.as_slice()) {
                Ok(text) => {
                    params.insert(name.clone(), text.to_owned());
                    assert(text_view(params@) =~= text_view(before).insert(name@, decode_utf8(value@)));
                },
                Err(_) => {},
            }
            j = j + 1;
        }
        assert(pv.subrange(0, req.path_params@.len() as int) =~= pv);

        RequestBinding {
            method: req.method.clone(),
            path: path_only_of(req.target.as_str()),
            headers,
            query: parse_query(req.target.as_str()),
            params,
            param_names,
            body: copy_bytes(&req.body),
        }
    }

    /// Get the HTTP method.
    pub fn get_method(&mut self) -> (r: String)
        ensures
            r@ == old(self)@.method,
            *final(self) == *old(self),
    {
        self.method.clone()
    }

    /// Get the request path: the routing path, without the query string.
    pub fn get_path(&mut self) -> (r: String)
        ensures
            r@ == old(self)@.path,
            *final(self) == *old(self),
    {
        self.path.clone()
    }

    /// Get a header value.
    pub fn header(&mut self, name: &str) -> (r: Option<String>)
        ensures
            opt_view(r) == old(self)@.headers.get(name@),
            *final(self) == *old(self),
    {
        match self.headers.get(name) {
            Some(v) => Some(v.clone()),
            None => None,
        }
    }

    /// Get all headers as a map.
    pub fn get_headers(&mut self) -> (r: StringMap<String>)
        ensures
            text_view(r@) == old(self)@.headers,
            *final(self) == *old(self),
    {
        self.headers.duplicate()
    }

    /// Get a query parameter: for a repeated key, the first value sent.
    pub fn query(&mut self, name: &str) -> (r: Option<String>)
        ensures
            opt_view(r) == first_value(old(self)@.query, name@),
            *final(self) == *old(self),
    {
        let ghost q = pair_views(self.query@);
        let mut i: usize = 0;
        while i < self.query.len()
            invariant
                i <= self.query@.len(),
                q == pair_views(self.query@),
                first_value(q.subrange(0, i as int), name@) is None,
            decreases self.query@.len() - i,
        {
            proof {
                lemma_first_value_step(q, i as int, name@);
            }
            if crate::text::str_eq(self.query[i].0.as_str(), name) {
                let v = self.query[i].1.clone();
                proof {
                    lemma_first_value_step(q, i as int, name@);
                    lemma_first_value_prefix(q, i + 1, name@);
                }
                return Some(v);
            }
            i = i + 1;
        }
        assert(q.subrange(0, q.len() as int) =~= q);
        None
    }

    /// Get every value for a repeated query parameter, in the order sent.
    pub fn query_all(&mut self, name: &str) -> (r: Vec<String>)
        ensures
            string_views(r@) == values_for(old(self)@.query, name@),
            *final(self) == *old(self),
    {
        let ghost q = pair_views(self.query@);
        let mut out: Vec<String> = Vec::new();
        let mut i: usize = 0;
        assert(string_views(out@) =~= values_for(q.subrange(0, 0), name@));
        while i < self.query.len()
            invariant
                i <= self.query@.len(),
                q == pair_views(self.query@),
                string_views(out@) == values_for(q.subrange(0, i as int), name@),
            decreases self.query@.len() - i,
        {
            let ghost before = out@;
            assert(q.subrange(0, i + 1).drop_last() =~= q.subrange(0, i as int));
            if crate::text::str_eq(self.query[i].0.as_str(), name) {
                out.push(self.query[i].1.clone());
                assert(string_views(out@) =~= string_views(before).push(q[i as int].1));
            }
            i = i + 1;
        }
        assert(q.subrange(0, q.len() as int) =~= q);
        out
    }

    /// Get all query parameters as a map: each key maps to its first value,
    /// the value `query` returns for it.
    pub fn get_query_params(&mut self) -> (r: StringMap<String>)
        ensures
            text_view(r@) == first_wins(old(self)@.query),
            *final(self) == *old(self),
    {
        let ghost q = pair_views(self.query@);
        let mut map: StringMap<String> = StringMap::new();
        let mut i: usize = 0;
        assert(text_view(map@) =~= first_wins(q.subrange(0, 0)));
        while i < self.query.len()
            invariant
                i <= self.query@.len(),
                q == pair_views(self.query@),
                text_view(map@) == first_wins(q.subrange(0, i as int)),
            decreases self.query@.len() - i,
        {
            let ghost before = map@;
            assert forall|k: Seq<char>| true implies #[trigger] first_value(q.subrange(0, i + 1), k) == (
            match first_value(q.subrange(0, i as int), k) {
                Some(v) => Some(v),
                None => if q[i as int].0 == k {
                    Some(q[i as int].1)
                } else {
                    None
                },
            }) by {
                lemma_first_value_step(q, i as int, k);
            }
            if !map.contains_key(self.query[i].0.as_str()) {
                map.insert(self.query[i].0.clone(), self.query[i].1.clone());
                proof {
                    let key = q[i as int].0;
                    assert(!first_wins(q.subrange(0, i as int)).dom().contains(key));
                    assert(first_value(q.subrange(0, i as int), key) is None);
                    assert(text_view(map@) =~= text_view(before).insert(key, q[i as int].1));
                    assert forall|k: Seq<char>| #[trigger] text_view(map@).dom().contains(k) == first_wins(
                        q.subrange(0, i + 1),
                    ).dom().contains(k) by {
                        let _ = first_value(q.subrange(0, i + 1), k);
                    }
                }
                assert(text_view(map@) =~= first_wins(q.subrange(0, i + 1)));
            } else {
                assert(text_view(map@) =~= first_wins(q.subrange(0, i + 1)));
            }
            i = i + 1;
        }
        assert(q.subrange(0, q.len() as int) =~= q);
        map
    }

    /// Get a path parameter. `None` both when no such parameter was captured
    /// and when its captured bytes are not valid UTF-8.
    pub fn param(&mut self, name: &str) -> (r: Option<String>)
        ensures
            opt_view(r) == old(self)@.params.get(name@),
            *final(self) == *old(self),
    {
        match self.params.get(name) {
            Some(v) => Some(v.clone()),
            None => None,
        }
    }

    /// Whether the router captured a path parameter called `name`, whether
    /// or not its bytes are valid UTF-8.
    pub fn has_param(&mut self, name: &str) -> (r: bool)
        ensures
            r == old(self)@.param_names.contains(name@),
            *final(self) == *old(self),
    {
        let mut i: usize = 0;
        while i < self.param_names.len()
            invariant
                i <= self.param_names@.len(),
                forall|j: int| 0 <= j < i ==> self.param_names@[j]@ != name@,
            decreases self.param_names@.len() - i,
        {
            if crate::text::str_eq(self.param_names[i].as_str(), name) {
                assert(string_views(self.param_names@)[i as int] == name@);
                return true;
            }
            i = i + 1;
        }
        proof {
            if string_views(self.param_names@).contains(name@) {
                let j = choose|j: int| 0 <= j < self.param_names@.len() && string_views(self.param_names@)[j] == name@;
                assert(self.param_names@[j]@ == name@);
            }
        }
        false
    }

    /// Get all path parameters as a map.
    pub fn get_params(&mut self) -> (r: StringMap<String>)
        ensures
            text_view(r@) == old(self)@.params,
            *final(self) == *old(self),
    {
        self.params.duplicate()
    }

    /// Get raw body bytes.
    pub fn get_body_bytes(&mut self) -> (r: Vec<u8>)
        ensures
            r@ == old(self)@.body,
            *final(self) == *old(self),
    {
        copy_bytes(&self.body)
    }

    /// Get the body as text. It fails, with the decoder's message, exactly
    /// when the body is not valid UTF-8.
    pub fn body_text(&mut self) -> (r: Result<String, String>)
        ensures
            r is Ok <==> valid_utf8(old(self)@.body),
            r matches Ok(s) ==> s@ == decode_utf8(old(self)@.body),
            *final(self) == *old(self),
    {
        match utf8_text(self.body.as_slice()) {
            Ok(text) => Ok(text.to_owned()),
            Err(e) => Err(e.to_string()),
        }
    }

    /// Whether the `content-type` header names `application/json`.
    pub fn get_is_json(&mut self) -> (r: bool)
        ensures
            r == (old(self)@.headers.dom().contains("content-type"@) && contains_seq(
                old(self)@.headers["content-type"@],
                "application/json"@,
            )),
            *final(self) == *old(self),
    {
        self.content_type_contains("application/json")
    }

    /// Whether the `content-type` header names form data.
    pub fn get_is_form(&mut self) -> (r: bool)
        ensures
            r == (old(self)@.headers.dom().contains("content-type"@) && contains_seq(
                old(self)@.headers["content-type"@],
                "application/x-www-form-urlencoded"@,
            )),
            *final(self) == *old(self),
    {
        self.content_type_contains("application/x-www-form-urlencoded")
    }

    fn content_type_contains(&self, kind: &str) -> (r: bool)
        ensures
            r == (self@.headers.dom().contains("content-type"@) && contains_seq(
                self@.headers["content-type"@],
                kind@,
            )),
    {
        match self.headers.get("content-type") {
            Some(ct) => {
                let hay = chars_of(ct.as_str());
                let needle = chars_of(kind);
                chars_contain(&hay, &needle)
            },
            None => false,
        }
    }
}

/// What a response holds.
pub struct ResponseView {
    pub status: u16,
    pub headers: Map<Seq<char>, Seq<char>>,
    pub cookies: Seq<Seq<char>>,
    pub body: Option<Seq<u8>>,
}

/// Response builder for Rhai scripts.
///
/// It holds every part of an HTTP response (status, headers, `Set-Cookie`
/// values and body), so a response converted to a binding and back is
/// unchanged.
#[derive(Clone)]
pub struct ResponseBinding {
    status: u16,
    headers: StringMap<String>,
    cookies: Vec<String>,
    body: Option<Vec<u8>>,
}

/// The optional bytes of an optional byte vector.
pub open spec fn opt_bytes(b: Option<Vec<u8>>) -> Option<Seq<u8>> {
    match b {
        Some(v) => Some(v@),
        None => None,
    }
}

impl View for ResponseBinding {
    type V = ResponseView;

    closed spec fn view(&self) -> ResponseView {
        ResponseView {
            status: self.status,
            headers: text_view(self.headers@),
            cookies: string_views(self.cookies@),
            body: opt_bytes(self.body),
        }
    }
}

/// A response with the given status and nothing else.
pub open spec fn bare_response(status: u16) -> ResponseView {
    ResponseView { status, headers: Map::empty(), cookies: Seq::empty(), body: None }
}

/// A plain-text response.
pub open spec fn text_response(status: u16, text: Seq<char>) -> ResponseView {
    ResponseView {
        status,
        headers: Map::empty().insert("content-type"@, "text/plain"@),
        cookies: Seq::empty(),
        body: Some(encode_utf8(text)),
    }
}

/// Whether two responses agree in everything but their status.
pub open spec fn same_but_status(a: ResponseView, b: ResponseView) -> bool {
    a.headers == b.headers && a.cookies == b.cookies && a.body == b.body
}

impl Default for ResponseBinding {
    fn default() -> (r: Self)
        ensures
            r@ == bare_response(200),
    {
        Self::new()
    }
}

impl ResponseBinding {
    /// Create a new response binding: `200` with no headers, cookies or body.
    pub fn new() -> (r: Self)
        ensures
            r@ == bare_response(200),
    {
        Self::with_status(200)
    }

    fn with_status(status: u16) -> (r: Self)
        ensures
            r@ == bare_response(status),
    {
        let r = ResponseBinding {
            status,
            headers: StringMap::new(),
            cookies: Vec::new(),
            body: None,
        };
        assert(text_view(r.headers@) =~= Map::empty());
        assert(string_views(r.cookies@) =~= Seq::empty());
        r
    }

    /// A response made of the given parts, as an HTTP response holds them.
    pub fn from_parts(status: u16, headers: StringMap<String>, cookies: Vec<String>, body: Vec<u8>) -> (r: Self)
        ensures
            r@ == (ResponseView {
                status,
                headers: text_view(headers@),
                cookies: string_views(cookies@),
                body: Some(body@),
            }),
    {
        ResponseBinding { status, headers, cookies, body: Some(body) }
    }

    /// A plain-text response: `content-type: text/plain` and the text as the body.
    pub fn plain_text(status: u16, text: &str) -> (r: Self)
        ensures
            r@ == text_response(status, text@),
    {
        let mut r = Self::with_status(status);
        let ghost before = r.headers@;
        r.headers.insert("content-type".to_owned(), "text/plain".to_owned());
        r.body = Some(text.as_bytes_vec());
        assert(text_view(r.headers@) =~= Map::empty().insert("content-type"@, "text/plain"@));
        r
    }

    fn duplicate(&self) -> (r: Self)
        ensures
            r@ == self@,
    {
        let body = match &self.body {
            Some(b) => Some(copy_bytes(b)),
            None => None,
        };
        ResponseBinding {
            status: self.status,
            headers: self.headers.duplicate(),
            cookies: copy_strings(&self.cookies),
            body,
        }
    }

    /// Set status code, keeping its low 16 bits.
    pub fn status(&mut self, code: i64) -> (r: Self)
        ensures
            final(self)@.status == code as u16,
            same_but_status(final(self)@, old(self)@),
            r@ == final(self)@,
    {
        self.status = code as u16;
        self.duplicate()
    }

    /// Set a header, replacing any earlier value of it.
    pub fn header(&mut self, name: String, value: String) -> (r: Self)
        ensures
            final(self)@ == (ResponseView { headers: old(self)@.headers.insert(name@, value@), ..old(self)@ }),
            r@ == final(self)@,
    {
        let ghost before = self.headers@;
        let ghost (n, v) = (name@, value@);
        self.headers.insert(name, value);
        assert(text_view(self.headers@) =~= text_view(before).insert(n, v));
        self.duplicate()
    }

    /// Set body as text, encoded as UTF-8.
    pub fn body(&mut self, content: String) -> (r: Self)
        ensures
            final(self)@ == (ResponseView { body: Some(encode_utf8(content@)), ..old(self)@ }),
            r@ == final(self)@,
    {
        self.body = Some(content.as_str().as_bytes_vec());
        self.duplicate()
    }

    /// Set body as serialized JSON, with `content-type: application/json`.
    pub fn json_text(&mut self, json: String) -> (r: Self)
        ensures
            final(self)@ == (ResponseView {
                headers: old(self)@.headers.insert("content-type"@, "application/json"@),
                body: Some(encode_utf8(json@)),
                ..old(self)@
            }),
            r@ == final(self)@,
    {
        let ghost before = self.headers@;
        self.headers.insert("content-type".to_owned(), "application/json".to_owned());
        assert(text_view(self.headers@) =~= text_view(before).insert("content-type"@, "application/json"@));
        self.body = Some(json.as_str().as_bytes_vec());
        self.duplicate()
    }

    /// Create 200 OK response.
    pub fn ok() -> (r: Self)
        ensures
            r@ == bare_response(200),
    {
        Self::new()
    }

    /// Create 201 Created response.
    pub fn created() -> (r: Self)
        ensures
            r@ == bare_response(201),
    {
        Self::with_status(201)
    }

    /// Create 204 No Content response.
    pub fn no_content() -> (r: Self)
        ensures
            r@ == bare_response(204),
    {
        Self::with_status(204)
    }

    /// Create 400 Bad Request response.
    pub fn bad_request() -> (r: Self)
        ensures
            r@ == bare_response(400),
    {
        Self::with_status(400)
    }

    /// Create 401 Unauthorized response.
    pub fn unauthorized() -> (r: Self)
        ensures
            r@ == bare_response(401),
    {
        Self::with_status(401)
    }

    /// Create 403 Forbidden response.
    pub fn forbidden() -> (r: Self)
        ensures
            r@ == bare_response(403),
    {
        Self::with_status(403)
    }

    /// Create 404 Not Found response.
    pub fn not_found() -> (r: Self)
        ensures
            r@ == bare_response(404),
    {
        Self::with_status(404)
    }

    /// Create 405 Method Not Allowed response.
    pub fn method_not_allowed() -> (r: Self)
        ensures
            r@ == bare_response(405),
    {
        Self::with_status(405)
    }

    /// Create 500 Internal Server Error response.
    pub fn internal_error() -> (r: Self)
        ensures
            r@ == bare_response(500),
    {
        Self::with_status(500)
    }

    /// Create redirect response: `302` with `location` set to `url`.
    pub fn redirect(url: String) -> (r: Self)
        ensures
            r@ == (ResponseView {
                headers: Map::empty().insert("location"@, url@),
                ..bare_response(302)
            }),
    {
        let mut r = Self::with_status(302);
        let ghost u = url@;
        r.headers.insert("location".to_owned(), url);
        assert(text_view(r.headers@) =~= Map::empty().insert("location"@, u));
        r
    }

    /// The status code.
    pub fn status_code(&self) -> (s: u16)
        ensures
            s == self@.status,
    {
        self.status
    }

    /// Whether this is the response a script starts with, as
    /// `ResponseBinding::new()` makes it: `200`, with no headers, cookies or
    /// body.
    pub fn is_untouched(&self) -> (r: bool)
        ensures
            r == (self@ == bare_response(200)),
    {
        let n = self.headers.len();
        proof {
            if n == 0 {
                self.headers@.dom().lemma_len0_is_empty();
                assert(text_view(self.headers@) =~= Map::empty());
            }
            assert(text_view(self.headers@).dom() =~= self.headers@.dom());
            assert(string_views(self.cookies@).len() == self.cookies@.len());
            if text_view(self.headers@) == Map::<Seq<char>, Seq<char>>::empty() {
                assert(self.headers@.dom() =~= Set::empty());
            }
            if self.cookies@.len() == 0 {
                assert(string_views(self.cookies@) =~= Seq::empty());
            }
        }
        self.status == 200 && n == 0 && self.cookies.len() == 0 && self.body.is_none()
    }

    /// The headers.
    pub fn headers(&self) -> (h: &StringMap<String>)
        ensures
            text_view(h@) == self@.headers,
    {
        &self.headers
    }

    /// The `Set-Cookie` values.
    pub fn cookies(&self) -> (c: &Vec<String>)
        ensures
            string_views(c@) == self@.cookies,
    {
        &self.cookies
    }

    /// The body, if one was set.
    pub fn body_bytes(&self) -> (b: Option<&Vec<u8>>)
        ensures
            match b {
                Some(v) => self@.body == Some(v@),
                None => self@.body is None,
            },
    {
        match &self.body {
            Some(v) => Some(v),
            None => None,
        }
    }
}

proof fn lemma_first_value_prefix(q: Seq<(Seq<char>, Seq<char>)>, i: int, name: Seq<char>)
    requires
        0 <= i <= q.len(),
        first_value(q.subrange(0, i), name) is Some,
    ensures
        first_value(q, name) == first_value(q.subrange(0, i), name),
    decreases q.len() - i,
{
    if i < q.len() {
        lemma_first_value_step(q, i, name);
        lemma_first_value_prefix(q, i + 1, name);
    } else {
        assert(q.subrange(0, i) =~= q);
    }
}

} // verus!
