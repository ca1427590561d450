//! The echo document: the canonical reflection of one request.

use vstd::prelude::*;
use vstd::utf8::{decode_utf8, encode_utf8, encode_utf8_decode_utf8, valid_utf8};
use crate::filter::{suppressed_by, LogFilter};
use crate::strmap::{map_of, pair_views, StrMap};
use crate::text::{chars_of, string_from_chars};

verus! {

/// Whether the bytes are one complete JSON text.
pub uninterp spec fn json_parses(bytes: Seq<u8>) -> bool;

/// Relies on `serde_json::from_slice::<serde_json::Value>`: it succeeds
/// exactly on a complete JSON text.
#[verifier::external_body]
fn is_json(bytes: &[u8]) -> (r: bool)
    ensures
        r == json_parses(bytes@),
{
    serde_json::from_slice::<serde_json::Value>(bytes).is_ok()
}

/// Relies on `String::from_utf8`: it succeeds exactly on valid UTF-8, and the
/// string then holds those bytes.
#[verifier::external_body]
fn utf8_string(bytes: Vec<u8>) -> (r: Option<String>)
    ensures
        r is Some <==> valid_utf8(bytes@),
        r matches Some(s) ==> encode_utf8(s@) == bytes@,
{
    String::from_utf8(bytes).ok()
}

/// One header as received: its name, absent where it could not be decoded,
/// and the raw bytes of its value.
pub struct HeaderEntry {
    pub name: Option<String>,
    pub value: Vec<u8>,
}

/// The parts of a request, as the transport hands them over.
pub struct RawRequest {
    /// The remote peer, as `host:port`, where the transport knows it.
    pub client: Option<String>,
    pub method: String,
    /// The path, possibly without its leading slash, or absent.
    pub path: Option<String>,
    /// The query parameters, in the order they appear.
    pub params: Vec<(String, String)>,
    /// The headers, in the order they appear.
    pub headers: Vec<HeaderEntry>,
    pub body: Vec<u8>,
}

/// The text of an optional string.
pub open spec fn opt_text(o: Option<String>) -> Option<Seq<char>> {
    match o {
        Some(s) => Some(s@),
        None => None,
    }
}

/// A header entry as a name and the bytes of the value.
pub open spec fn header_view(h: HeaderEntry) -> (Option<Seq<char>>, Seq<u8>) {
    (opt_text(h.name), h.value@)
}

/// A request as mathematical values.
pub struct RequestModel {
    pub client: Option<Seq<char>>,
    pub method: Seq<char>,
    pub path: Option<Seq<char>>,
    pub params: Seq<(Seq<char>, Seq<char>)>,
    pub headers: Seq<(Option<Seq<char>>, Seq<u8>)>,
    pub body: Seq<u8>,
}

impl View for RawRequest {
    type V = RequestModel;

    open spec fn view(&self) -> RequestModel {
        RequestModel {
            client: opt_text(self.client),
            method: self.method@,
            path: opt_text(self.path),
            params: pair_views(self.params@),
            headers: self.headers@.map_values(|h: HeaderEntry| header_view(h)),
            body: self.body@,
        }
    }
}

/// The body of an echo document: `null` for an empty body, the body itself
/// where it is a JSON text, and otherwise the array of its byte values.
#[derive(Debug, PartialEq, Eq)]
pub enum EchoBody {
    Null,
    Json(Vec<u8>),
    Bytes(Vec<u8>),
}

/// An echo body as mathematical values.
pub enum BodyModel {
    Null,
    Json(Seq<u8>),
    Bytes(Seq<u8>),
}

impl View for EchoBody {
    type V = BodyModel;

    open spec fn view(&self) -> BodyModel {
        match self {
            EchoBody::Null => BodyModel::Null,
            EchoBody::Json(b) => BodyModel::Json(b@),
            EchoBody::Bytes(b) => BodyModel::Bytes(b@),
        }
    }
}

/// The echo document of one request.
pub struct EchoDocument {
    pub client: Option<String>,
    pub method: String,
    pub path: String,
    pub headers: StrMap,
    pub params: StrMap,
    pub body: EchoBody,
}

/// An echo document as mathematical values.
pub struct EchoModel {
    pub client: Option<Seq<char>>,
    pub method: Seq<char>,
    pub path: Seq<char>,
    pub headers: Map<Seq<char>, Seq<char>>,
    pub params: Map<Seq<char>, Seq<char>>,
    pub body: BodyModel,
}

impl View for EchoDocument {
    type V = EchoModel;

    open spec fn view(&self) -> EchoModel {
        EchoModel {
            client: opt_text(self.client),
            method: self.method@,
            path: self.path@,
            headers: self.headers@,
            params: self.params@,
            body: self.body@,
        }
    }
}

/// The text that stands for a header value that is not valid UTF-8.
pub open spec fn placeholder() -> Seq<char> {
    "<non-ascii string>"@
}

/// The path of the document: the given path with a leading slash added where
/// it lacks one; `/` where no path was given.
pub open spec fn rooted_path(p: Option<Seq<char>>) -> Seq<char> {
    match p {
        Some(s) => if s.len() > 0 && s[0] == '/' {
            s
        } else {
            seq!['/'] + s
        },
        None => seq!['/'],
    }
}

/// The text of a header value: its decoding where it is valid UTF-8, the
/// placeholder otherwise.
pub open spec fn header_text(b: Seq<u8>) -> Seq<char> {
    if valid_utf8(b) {
        decode_utf8(b)
    } else {
        placeholder()
    }
}

/// The headers of the document: every entry with a name, a later entry for a
/// name replacing an earlier one; entries without a name are left out.
pub open spec fn header_map(h: Seq<(Option<Seq<char>>, Seq<u8>)>) -> Map<Seq<char>, Seq<char>>
    decreases h.len(),
{
    if h.len() == 0 {
        Map::empty()
    } else {
        let rest = header_map(h.drop_last());
        match h.last().0 {
            Some(n) => rest.insert(n, header_text(h.last().1)),
            None => rest,
        }
    }
}

/// The body of the document.
pub open spec fn body_model(b: Seq<u8>) -> BodyModel {
    if b.len() == 0 {
        BodyModel::Null
    } else if json_parses(b) {
        BodyModel::Json(b)
    } else {
        BodyModel::Bytes(b)
    }
}

/// The echo document of a request.
pub open spec fn echo_model(r: RequestModel) -> EchoModel {
    EchoModel {
        client: r.client,
        method: r.method,
        path: rooted_path(r.path),
        headers: header_map(r.headers),
        params: map_of(r.params),
        body: body_model(r.body),
    }
}

/// Adds a leading slash to a path that lacks one; no path gives `/`.
pub fn root_path(path: Option<String>) -> (r: String)
    ensures
        r@ == rooted_path(opt_text(path)),
{
    let s = match path {
        Some(s) => s,
        None => String::new(),
    };
    let cs = chars_of(s.as_str());
    if cs.len() > 0 && cs[0] == '/' {
        return s;
    }
    let mut rooted: Vec<char> = Vec::new();
    rooted.push('/');
    let mut i: usize = 0;
    while i < cs.len()
        invariant
            i <= cs@.len(),
            rooted@ == seq!['/'] + cs@.take(i as int),
        decreases cs@.len() - i,
    {
        rooted.push(cs[i]);
        assert(cs@.take(i as int + 1) =~= cs@.take(i as int).push(cs@[i as int]));
        assert(rooted@ =~= seq!['/'] + cs@.take(i as int + 1));
        i = i + 1;
    }
    assert(cs@.take(cs@.len() as int) =~= cs@);
    string_from_chars(rooted.as_slice(), 0, rooted.len())
}

/// The text of a header value: the value where it is valid UTF-8, the
/// placeholder otherwise.
pub fn header_value_text(value: Vec<u8>) -> (r: String)
    ensures
        r@ == header_text(value@),
{
    match utf8_string(value) {
        Some(s) => {
            proof {
                encode_utf8_decode_utf8(s@);
            }
            s
        },
        None => {
            proof {
                reveal_strlit("<non-ascii string>");
            }
            "<non-ascii string>".to_owned()
        },
    }
}

/// Decides the body of the document: `null` when empty, the bytes as JSON
/// where they are a JSON text, and the array of byte values otherwise.
pub fn decode_body(body: Vec<u8>) -> (r: EchoBody)
    ensures
        r@ == body_model(body@),
{
    if body.len() == 0 {
        EchoBody::Null
    } else if is_json(body.as_slice()) {
        EchoBody::Json(body)
    } else {
        EchoBody::Bytes(body)
    }
}

/// Collects the headers: entries without a name are skipped, and a later
/// entry for a name replaces an earlier one.
pub fn collect_headers(headers: Vec<HeaderEntry>) -> (r: StrMap)
    ensures
        r.wf(),
        r@ == header_map(headers@.map_values(|h: HeaderEntry| header_view(h))),
{
    let ghost hv = headers@.map_values(|h: HeaderEntry| header_view(h));
    let mut out = StrMap::new();
    let mut rest = headers;
    let mut remaining: Vec<HeaderEntry> = Vec::new();
    // Walk the entries in order by draining them from the back into a
    // second vector and then popping from that one.
    while rest.len() > 0
        invariant
            hv == rest@.map_values(|h: HeaderEntry| header_view(h)) + remaining@.reverse().map_values(
                |h: HeaderEntry| header_view(h),
            ),
        decreases rest.len(),
    {
        let ghost r0 = rest@;
        let ghost m0 = remaining@;
        let h = rest.pop().unwrap();
        remaining.push(h);
        assert(rest@.map_values(|h: HeaderEntry| header_view(h)) + remaining@.reverse().map_values(
            |h: HeaderEntry| header_view(h),
        ) =~= r0.map_values(|h: HeaderEntry| header_view(h)) + m0.reverse().map_values(
            |h: HeaderEntry| header_view(h),
        ));
    }
    assert(hv =~= remaining@.reverse().map_values(|h: HeaderEntry| header_view(h)));
    let total = remaining.len();
    assert(hv.len() == total);
    let mut done: usize = 0;
    while remaining.len() > 0
        invariant
            out.wf(),
            done <= hv.len(),
            remaining@.len() == hv.len() - done,
            hv.len() <= usize::MAX,
            hv.skip(done as int) =~= remaining@.reverse().map_values(|h: HeaderEntry| header_view(h)),
            out@ == header_map(hv.take(done as int)),
        decreases remaining.len(),
    {
        let ghost m0 = remaining@;
        let h = remaining.pop().unwrap();
        assert(header_view(h) == hv[done as int]) by {
            assert(m0.reverse().map_values(|h: HeaderEntry| header_view(h))[0] == header_view(h));
            assert(hv.skip(done as int)[0] == hv[done as int]);
        }
        assert(hv.take(done as int + 1).drop_last() =~= hv.take(done as int));
        match h.name {
            Some(name) => {
                let text = header_value_text(h.value);
                out.insert(name, text);
            },
            None => {},
        }
        assert(hv.skip(done as int + 1) =~= remaining@.reverse().map_values(
            |h: HeaderEntry| header_view(h),
        )) by {
            assert(m0 =~= remaining@.push(h));
            assert(m0.reverse() =~= seq![h] + remaining@.reverse());
            assert(m0.reverse().map_values(|h: HeaderEntry| header_view(h)) =~= seq![header_view(h)]
                + remaining@.reverse().map_values(|h: HeaderEntry| header_view(h)));
            assert(hv.skip(done as int + 1) =~= hv.skip(done as int).drop_first());
        }
        done = done + 1;
    }
    assert(hv.take(hv.len() as int) =~= hv);
    out
}

/// Collects the query parameters; a later value for a name replaces an
/// earlier one.
pub fn collect_params(params: Vec<(String, String)>) -> (r: StrMap)
    ensures
        r.wf(),
        r@ == map_of(pair_views(params@)),
{
    let ghost pv = pair_views(params@);
    let mut out = StrMap::new();
    let mut rest = params;
    let mut remaining: Vec<(String, String)> = Vec::new();
    // Reverse the entries so that popping yields them in their order.
    while rest.len() > 0
        invariant
            pv == pair_views(rest@) + pair_views(remaining@.reverse()),
        decreases rest.len(),
    {
        let ghost r0 = rest@;
        let ghost m0 = remaining@;
        let e = rest.pop().unwrap();
        remaining.push(e);
        assert(pair_views(rest@) + pair_views(remaining@.reverse()) =~= pair_views(r0)
            + pair_views(m0.reverse()));
    }
    assert(pv =~= pair_views(remaining@.reverse()));
    let total = remaining.len();
    assert(pv.len() == total);
    let mut done: usize = 0;
    while remaining.len() > 0
        invariant
            out.wf(),
            done <= pv.len(),
            remaining@.len() == pv.len() - done,
            pv.len() <= usize::MAX,
            pv.skip(done as int) =~= pair_views(remaining@.reverse()),
            out@ == map_of(pv.take(done as int)),
        decreases remaining.len(),
    {
        let ghost m0 = remaining@;
        let e = remaining.pop().unwrap();
        assert((e.0@, e.1@) == pv[done as int]) by {
            assert(pair_views(m0.reverse())[0] == (e.0@, e.1@));
            assert(pv.skip(done as int)[0] == pv[done as int]);
        }
        assert(pv.take(done as int + 1).drop_last() =~= pv.take(done as int));
        out.insert(e.0, e.1);
        assert(pv.skip(done as int + 1) =~= pair_views(remaining@.reverse())) by {
            assert(m0 =~= remaining@.push(e));
            assert(m0.reverse() =~= seq![e] + remaining@.reverse());
            assert(pair_views(m0.reverse()) =~= seq![(e.0@, e.1@)] + pair_views(remaining@.reverse()));
            assert(pv.skip(done as int + 1) =~= pv.skip(done as int).drop_first());
        }
        done = done + 1;
    }
    assert(pv.take(pv.len() as int) =~= pv);
    out
}

/// Builds the echo document of a request. Nothing about the request can make
/// this fail: undecodable parts are echoed in a degraded form.
pub fn normalize_request(req: RawRequest) -> (r: EchoDocument)
    ensures
        r@ == echo_model(req@),
        r.headers.wf(),
        r.params.wf(),
{
    let RawRequest { client, method, path, params, headers, body } = req;
    EchoDocument {
        client,
        method,
        path: root_path(path),
        headers: collect_headers(headers),
        params: collect_params(params),
        body: decode_body(body),
    }
}

/// Handles one request: builds its echo document and decides whether it is
/// logged, which it is unless a pattern of the filter matches its path.
pub fn serialize_request(filter: &LogFilter, req: RawRequest) -> (r: (EchoDocument, bool))
    ensures
        r.0@ == echo_model(req@),
        r.0.headers.wf(),
        r.0.params.wf(),
        r.1 == !suppressed_by(filter@, r.0@.path),
{
    let doc = normalize_request(req);
    let log = filter.should_log(doc.path.as_str());
    (doc, log)
}

/// Every echoed path is non-empty and begins with a slash: a path that has
/// one is kept as it is, one that lacks it gets it in front.
pub proof fn lemma_path_rooted(p: Option<Seq<char>>)
    ensures
        rooted_path(p).len() > 0,
        rooted_path(p)[0] == '/',
        p is Some && p->0.len() > 0 && p->0[0] == '/' ==> rooted_path(p) == p->0,
        p is Some && !(p->0.len() > 0 && p->0[0] == '/') ==> rooted_path(p).drop_first() == p->0,
{
    if let Some(s) = p {
        if !(s.len() > 0 && s[0] == '/') {
            assert((seq!['/'] + s).drop_first() =~= s);
        }
    }
}

/// Every header value in the document comes from an entry received under
/// that name, and is either the decoding of a valid UTF-8 value or exactly
/// the placeholder.
pub proof fn lemma_header_values_are_text(h: Seq<(Option<Seq<char>>, Seq<u8>)>)
    ensures
        forall|k: Seq<char>|
            #![trigger header_map(h).contains_key(k)]
            header_map(h).contains_key(k) ==> exists|i: int|
                0 <= i < h.len() && h[i].0 == Some(k) && header_map(h)[k] == header_text(h[i].1),
        forall|k: Seq<char>|
            #![trigger header_map(h).contains_key(k)]
            header_map(h).contains_key(k) ==> header_map(h)[k] == placeholder() || exists|i: int|
                0 <= i < h.len() && h[i].0 == Some(k) && valid_utf8(h[i].1) && header_map(h)[k]
                    == decode_utf8(h[i].1),
    decreases h.len(),
{
    if h.len() > 0 {
        let rest = h.drop_last();
        lemma_header_values_are_text(rest);
        assert forall|k: Seq<char>|
            #![trigger header_map(h).contains_key(k)]
            header_map(h).contains_key(k) implies exists|i: int|
                0 <= i < h.len() && h[i].0 == Some(k) && header_map(h)[k] == header_text(h[i].1) by {
            if h.last().0 == Some(k) {
                assert(h[h.len() - 1].0 == Some(k));
            } else {
                assert(header_map(rest).contains_key(k));
                let i = choose|i: int|
                    0 <= i < rest.len() && rest[i].0 == Some(k) && header_map(rest)[k]
                        == header_text(rest[i].1);
                assert(h[i] == rest[i]);
            }
        }
        assert forall|k: Seq<char>|
            #![trigger header_map(h).contains_key(k)]
            header_map(h).contains_key(k) implies header_map(h)[k] == placeholder() || exists|i: int|
                0 <= i < h.len() && h[i].0 == Some(k) && valid_utf8(h[i].1) && header_map(h)[k]
                    == decode_utf8(h[i].1) by {
            let i = choose|i: int|
                0 <= i < h.len() && h[i].0 == Some(k) && header_map(h)[k] == header_text(h[i].1);
            if valid_utf8(h[i].1) {
                assert(header_map(h)[k] == decode_utf8(h[i].1));
            }
        }
    }
}

/// Normalizing two requests with the same parts gives the same document.
pub proof fn lemma_normalize_deterministic(a: RequestModel, b: RequestModel)
    requires
        a == b,
    ensures
        echo_model(a) == echo_model(b),
{
}

} // verus!
