//! Schema-driven mock routes and the deterministic answers of the transparent proxy.
use vstd::prelude::*;
use vstd::utf8::{encode_utf8, is_ascii_chars};
use crate::delta::http::{
    char_rows, decode_utf8_lossy, find_head_end, head_end, split_lines, split_once,
    split_once_chars, split_whitespace, string_from_chars, text_lines, trim, trim_chars, utf8_lossy,
    whitespace_tokens,
};
use crate::delta::types::InterceptedRequest;

verus! {

/// The upper-case form of a text as `str::to_uppercase` computes it.
pub uninterp spec fn uppercase(s: Seq<char>) -> Seq<char>;

/// ASCII upper-case form of a character.
pub open spec fn ascii_upper(c: char) -> char {
    if 'a' <= c && c <= 'z' {
        ((c as u32) - 32) as char
    } else {
        c
    }
}

/// Upper-cases a text by `str::to_uppercase`. What is claimed: the result is `uppercase`
/// of the text, and an ASCII text maps letter by letter to ASCII upper case. The Unicode
/// case mappings of other characters are left unsaid.
#[verifier::external_body]
pub(crate) fn to_uppercase(s: &str) -> (r: String)
    ensures
        r@ == uppercase(s@),
        vstd::utf8::is_ascii_chars(s@) ==> r@ == s@.map_values(|c: char| ascii_upper(c)),
{
    s.to_uppercase()
}

/// Deterministic mock response defined by the environment schema.
///
/// Headers are kept as `(name, value)` pairs.
#[derive(Debug, Clone, PartialEq, Eq)]
pub struct MockResponse {
    pub status_code: u16,
    pub headers: Vec<(String, String)>,
    pub body: Vec<u8>,
}

/// The text `Content-Type`.
pub open spec fn content_type_name() -> Seq<char> {
    "Content-Type"@
}

/// The text `application/json`.
pub open spec fn json_media_type() -> Seq<char> {
    "application/json"@
}

/// The body of the default mock response: `{"status":"ok"}`.
pub open spec fn default_mock_body() -> Seq<u8> {
    encode_utf8("{\"status\":\"ok\"}"@)
}

/// The character sequences of a list of header pairs.
pub open spec fn header_pairs(s: Seq<(String, String)>) -> Seq<(Seq<char>, Seq<char>)> {
    s.map_values(|h: (String, String)| (h.0@, h.1@))
}

/// Appends the UTF-8 bytes of a text.
fn push_str_bytes(v: &mut Vec<u8>, s: &str)
    ensures
        final(v)@ == old(v)@ + encode_utf8(s@),
{
    let b = s.as_bytes();
    let ghost start = v@;
    let mut i: usize = 0;
    while i < b.len()
        invariant
            b@ == encode_utf8(s@),
            i <= b@.len(),
            v@ == start + b@.take(i as int),
        decreases b@.len() - i,
    {
        v.push(b[i]);
        assert(b@.take(i + 1) =~= b@.take(i as int).push(b@[i as int]));
        i = i + 1;
    }
    assert(b@.take(b@.len() as int) =~= b@);
}

/// Appends bytes.
fn push_bytes(v: &mut Vec<u8>, b: &[u8])
    ensures
        final(v)@ == old(v)@ + b@,
{
    let ghost start = v@;
    let mut i: usize = 0;
    while i < b.len()
        invariant
            i <= b@.len(),
            v@ == start + b@.take(i as int),
        decreases b@.len() - i,
    {
        v.push(b[i]);
        assert(b@.take(i + 1) =~= b@.take(i as int).push(b@[i as int]));
        i = i + 1;
    }
    assert(b@.take(b@.len() as int) =~= b@);
}

/// Copies a list of header pairs.
fn copy_headers(h: &Vec<(String, String)>) -> (r: Vec<(String, String)>)
    ensures
        r@ == h@,
{
    let mut r: Vec<(String, String)> = Vec::new();
    let mut i: usize = 0;
    while i < h.len()
        invariant
            i <= h@.len(),
            r@ == h@.take(i as int),
        decreases h@.len() - i,
    {
        let pair = (h[i].0.clone(), h[i].1.clone());
        r.push(pair);
        assert(r@ =~= h@.take(i + 1));
        i = i + 1;
    }
    assert(h@.take(h@.len() as int) =~= h@);
    r
}

/// Copies bytes into a fresh vector.
fn copy_bytes(b: &[u8]) -> (r: Vec<u8>)
    ensures
        r@ == b@,
{
    let mut r: Vec<u8> = Vec::new();
    push_bytes(&mut r, b);
    r
}

impl Default for MockResponse {
    /// A `200` answer with a JSON content type and the body `{"status":"ok"}`.
    fn default() -> (r: Self)
        ensures
            r.status_code == 200,
            header_pairs(r.headers@) == seq![(content_type_name(), json_media_type())],
            r.body@ == default_mock_body(),
    {
        let mut headers: Vec<(String, String)> = Vec::new();
        headers.push((String::from_str("Content-Type"), String::from_str("application/json")));
        let mut body: Vec<u8> = Vec::new();
        push_str_bytes(&mut body, "{\"status\":\"ok\"}");
        assert(header_pairs(headers@) =~= seq![(content_type_name(), json_media_type())]);
        MockResponse { status_code: 200, headers, body }
    }
}

/// The route table a list of endpoints describes, keyed by (method, path); a later entry
/// for a key replaces an earlier one.
pub open spec fn route_table(s: Seq<((String, String), MockResponse)>) -> Map<(Seq<char>, Seq<char>), MockResponse>
    decreases s.len(),
{
    if s.len() == 0 {
        Map::empty()
    } else {
        route_table(s.drop_last()).insert((s.last().0.0@, s.last().0.1@), s.last().1)
    }
}

/// The key of an endpoint entry.
pub open spec fn endpoint_key(e: ((String, String), MockResponse)) -> (Seq<char>, Seq<char>) {
    (e.0.0@, e.0.1@)
}

proof fn lemma_route_table_skip(s: Seq<((String, String), MockResponse)>, k: (Seq<char>, Seq<char>), i: int)
    requires
        0 <= i <= s.len(),
        forall|j: int| i <= j < s.len() ==> endpoint_key(#[trigger] s[j]) != k,
    ensures
        route_table(s).contains_key(k) == route_table(s.take(i)).contains_key(k),
        route_table(s).contains_key(k) ==> route_table(s)[k] == route_table(s.take(i))[k],
    decreases s.len() - i,
{
    if i < s.len() {
        lemma_route_table_skip(s, k, i + 1);
        let t = s.take(i + 1);
        assert(t.drop_last() =~= s.take(i));
        assert(t.last() == s[i]);
    } else {
        assert(s.take(i) =~= s);
    }
}

proof fn lemma_route_table_update(s: Seq<((String, String), MockResponse)>, i: int, e: ((String, String), MockResponse))
    requires
        0 <= i < s.len(),
        endpoint_key(s[i]) == endpoint_key(e),
        forall|j: int| i < j < s.len() ==> endpoint_key(#[trigger] s[j]) != endpoint_key(e),
    ensures
        route_table(s.update(i, e)) == route_table(s).insert(endpoint_key(e), e.1),
    decreases s.len(),
{
    let u = s.update(i, e);
    if i == s.len() - 1 {
        assert(u.drop_last() =~= s.drop_last());
        assert(route_table(u) =~= route_table(s).insert(endpoint_key(e), e.1));
    } else {
        let t = s.drop_last();
        assert forall|j: int| i < j < t.len() implies endpoint_key(#[trigger] t[j]) != endpoint_key(e) by {
            assert(t[j] == s[j]);
        }
        lemma_route_table_update(t, i, e);
        assert(u.drop_last() =~= t.update(i, e));
        assert(endpoint_key(s.last()) != endpoint_key(e));
        assert(route_table(u) =~= route_table(s).insert(endpoint_key(e), e.1));
    }
}

/// Schema-driven registry mapping outbound HTTP routes to deterministic responses.
#[derive(Debug, Clone)]
pub struct NetworkMockSchema {
    endpoints: Vec<((String, String), MockResponse)>,
}

impl View for NetworkMockSchema {
    type V = Map<(Seq<char>, Seq<char>), MockResponse>;

    closed spec fn view(&self) -> Map<(Seq<char>, Seq<char>), MockResponse> {
        route_table(self.endpoints@)
    }
}

/// Deterministic network boundary: a reserved loopback port plus the schema-driven route table.
///
/// The isolated execution layer binds the listener for `port` inside its own network namespace
/// and forwards the descriptor to the control plane, which serves it.
#[derive(Debug, Clone)]
pub struct NetworkBoundary {
    pub port: u16,
    pub schema: NetworkMockSchema,
}

impl Default for NetworkMockSchema {
    /// A schema with no registered route.
    fn default() -> (r: Self)
        ensures
            r@ == Map::<(Seq<char>, Seq<char>), MockResponse>::empty(),
    {
        Self::new()
    }
}

impl NetworkMockSchema {
    /// A schema with no registered route.
    pub fn new() -> (r: Self)
        ensures
            r@ == Map::<(Seq<char>, Seq<char>), MockResponse>::empty(),
    {
        NetworkMockSchema { endpoints: Vec::new() }
    }

    /// Index of the last entry with the given key, if any.
    fn find_endpoint(&self, method: &String, path: &String) -> (r: Option<usize>)
        ensures
            r matches Some(i) ==> i < self.endpoints@.len() && endpoint_key(self.endpoints@[i as int]) == (method@, path@)
                && forall|j: int| i < j < self.endpoints@.len() ==> endpoint_key(#[trigger] self.endpoints@[j]) != (method@, path@),
            r is None ==> forall|j: int| 0 <= j < self.endpoints@.len() ==> endpoint_key(#[trigger] self.endpoints@[j]) != (method@, path@),
    {
        let mut i = self.endpoints.len();
        while i > 0
            invariant
                i <= self.endpoints@.len(),
                forall|j: int| i <= j < self.endpoints@.len() ==> endpoint_key(#[trigger] self.endpoints@[j]) != (method@, path@),
            decreases i,
        {
            i = i - 1;
            if self.endpoints[i].0.0 == *method && self.endpoints[i].0.1 == *path {
                return Some(i);
            }
        }
        None
    }

    /// Register a deterministic mock response for an already upper-cased HTTP method and a
    /// path, replacing any response registered for the same route.
    pub fn register_normalized_endpoint(&mut self, method: String, path: String, response: MockResponse)
        ensures
            final(self)@ == old(self)@.insert((method@, path@), response),
    {
        let ghost key = (method@, path@);
        let ghost e = ((method, path), response);
        match self.find_endpoint(&method, &path) {
            Some(i) => {
                proof {
                    lemma_route_table_update(self.endpoints@, i as int, e);
                }
                self.endpoints.set(i, ((method, path), response));
            },
            None => {
                let ghost old_e = self.endpoints@;
                self.endpoints.push(((method, path), response));
                assert(self.endpoints@.drop_last() =~= old_e);
            },
        }
    }

    /// Register a deterministic mock response for an HTTP method and path; the method is
    /// matched in upper case.
    pub fn register_endpoint(&mut self, method: String, path: String, response: MockResponse)
        ensures
            final(self)@ == old(self)@.insert((uppercase(method@), path@), response),
    {
        let upper = to_uppercase(method.as_str());
        self.register_normalized_endpoint(upper, path, response);
    }

    /// Look up the response registered for an already upper-cased method and a path.
    pub fn lookup_route(&self, method: &String, path: &String) -> (r: Option<&MockResponse>)
        ensures
            r == if self@.contains_key((method@, path@)) { Some(&self@[(method@, path@)]) } else { None },
    {
        let ghost key = (method@, path@);
        match self.find_endpoint(method, path) {
            Some(i) => {
                proof {
                    lemma_route_table_skip(self.endpoints@, key, i + 1);
                    let t = self.endpoints@.take(i + 1);
                    assert(t.drop_last() =~= self.endpoints@.take(i as int));
                    assert(t.last() == self.endpoints@[i as int]);
                }
                Some(&self.endpoints[i].1)
            },
            None => {
                proof {
                    lemma_route_table_skip(self.endpoints@, key, 0);
                    assert(self.endpoints@.take(0) =~= Seq::<((String, String), MockResponse)>::empty());
                }
                None
            },
        }
    }

    /// Look up schema response for the given method and path; the method is matched in
    /// upper case.
    pub fn match_route(&self, method: &str, path: &str) -> (r: Option<&MockResponse>)
        ensures
            r == if self@.contains_key((uppercase(method@), path@)) {
                Some(&self@[(uppercase(method@), path@)])
            } else {
                None
            },
    {
        let upper = to_uppercase(method);
        let p = path.to_owned();
        self.lookup_route(&upper, &p)
    }
}

/// Registering a route and then looking it up gives back what was registered; every other
/// route answers as before.
pub proof fn lemma_register_then_match(
    before: Map<(Seq<char>, Seq<char>), MockResponse>,
    after: Map<(Seq<char>, Seq<char>), MockResponse>,
    method: Seq<char>,
    path: Seq<char>,
    response: MockResponse,
    other: (Seq<char>, Seq<char>),
)
    requires
        after == before.insert((uppercase(method), path), response),
    ensures
        after.contains_key((uppercase(method), path)),
        after[(uppercase(method), path)] == response,
        other != (uppercase(method), path) ==> (after.contains_key(other) == before.contains_key(other)),
        other != (uppercase(method), path) && before.contains_key(other) ==> after[other] == before[other],
{
}

/// The decimal digit character for `d` in `0..10`.
pub open spec fn digit_char(d: int) -> char {
    if d == 0 { '0' } else if d == 1 { '1' } else if d == 2 { '2' } else if d == 3 { '3' } else if d == 4 { '4' }
    else if d == 5 { '5' } else if d == 6 { '6' } else if d == 7 { '7' } else if d == 8 { '8' } else { '9' }
}

/// The decimal representation of `n`, without leading zeros.
pub open spec fn decimal(n: nat) -> Seq<char>
    decreases n,
{
    if n < 10 {
        seq![digit_char(n as int)]
    } else {
        decimal(n / 10).push(digit_char((n % 10) as int))
    }
}

fn digit(d: u64) -> (c: char)
    requires
        d < 10,
    ensures
        c == digit_char(d as int),
{
    if d == 0 { '0' } else if d == 1 { '1' } else if d == 2 { '2' } else if d == 3 { '3' } else if d == 4 { '4' }
    else if d == 5 { '5' } else if d == 6 { '6' } else if d == 7 { '7' } else if d == 8 { '8' } else { '9' }
}

/// The decimal representation of `n`.
pub fn decimal_string(n: u64) -> (r: String)
    ensures
        r@ == decimal(n as nat),
{
    let mut m = n;
    let mut tail: Vec<char> = Vec::new();
    while m >= 10
        invariant
            decimal(n as nat) == decimal(m as nat) + tail@,
        decreases m,
    {
        let c = digit(m % 10);
        let ghost old_tail = tail@;
        tail.insert(0, c);
        assert(decimal(m as nat) == decimal((m / 10) as nat).push(c));
        assert(decimal(m as nat) + old_tail =~= decimal((m / 10) as nat) + tail@);
        m = m / 10;
    }
    let mut digits: Vec<char> = Vec::new();
    digits.push(digit(m));
    let mut i: usize = 0;
    while i < tail.len()
        invariant
            i <= tail@.len(),
            digits@ == decimal(m as nat) + tail@.take(i as int),
        decreases tail@.len() - i,
    {
        digits.push(tail[i]);
        assert(tail@.take(i + 1) =~= tail@.take(i as int).push(tail@[i as int]));
        i = i + 1;
    }
    assert(tail@.take(tail@.len() as int) =~= tail@);
    string_from_chars(digits.as_slice())
}

/// Reason phrase written after a status code.
pub open spec fn status_reason(code: u16) -> Seq<char> {
    if code == 200 {
        "OK"@
    } else if code == 201 {
        "Created"@
    } else if code == 400 {
        "Bad Request"@
    } else if code == 404 {
        "Not Found"@
    } else {
        "Status"@
    }
}

fn reason_phrase(code: u16) -> (r: &'static str)
    ensures
        r@ == status_reason(code),
{
    if code == 200 {
        "OK"
    } else if code == 201 {
        "Created"
    } else if code == 400 {
        "Bad Request"
    } else if code == 404 {
        "Not Found"
    } else {
        "Status"
    }
}

/// One header line of a response: `name: value\r\n`.
pub open spec fn header_line_bytes(h: (Seq<char>, Seq<char>)) -> Seq<u8> {
    encode_utf8(h.0) + encode_utf8(": "@) + encode_utf8(h.1) + encode_utf8("\r\n"@)
}

/// The header lines of a response, in order.
pub open spec fn header_block(hs: Seq<(Seq<char>, Seq<char>)>) -> Seq<u8>
    decreases hs.len(),
{
    if hs.len() == 0 {
        Seq::empty()
    } else {
        header_block(hs.drop_last()) + header_line_bytes(hs.last())
    }
}

/// The HTTP/1.1 response the proxy writes: status line, the given headers, a
/// `Content-Length` header for the body, a blank line, then the body.
pub open spec fn response_bytes(code: u16, hs: Seq<(Seq<char>, Seq<char>)>, body: Seq<u8>) -> Seq<u8> {
    encode_utf8("HTTP/1.1 "@) + encode_utf8(decimal(code as nat)) + encode_utf8(" "@) + encode_utf8(status_reason(code))
        + encode_utf8("\r\n"@) + header_block(hs) + encode_utf8("Content-Length: "@) + encode_utf8(decimal(body.len()))
        + encode_utf8("\r\n\r\n"@) + body
}

/// The bytes of one header line, `name: value\r\n`, for each header, in order.
pub open spec fn header_lines(hs: Seq<(Seq<char>, Seq<char>)>) -> Seq<Seq<u8>> {
    hs.map_values(|h: (Seq<char>, Seq<char>)| encode_utf8(h.0) + encode_utf8(": "@) + encode_utf8(h.1) + encode_utf8("\r\n"@))
}

proof fn lemma_header_block_lines(hs: Seq<(Seq<char>, Seq<char>)>)
    ensures
        header_block(hs) == header_lines(hs).flatten_alt(),
    decreases hs.len(),
{
    if hs.len() > 0 {
        lemma_header_block_lines(hs.drop_last());
        assert(header_lines(hs).drop_last() =~= header_lines(hs.drop_last()));
    } else {
        assert(header_lines(hs) =~= Seq::<Seq<u8>>::empty());
    }
}

/// A serialized answer is the status line, then exactly one `name: value\r\n` line per
/// header in the order given, then the `Content-Length` line of the body, a blank line and
/// the body: no header is dropped, repeated or reordered.
pub proof fn lemma_response_lists_every_header(code: u16, hs: Seq<(Seq<char>, Seq<char>)>, body: Seq<u8>)
    ensures
        response_bytes(code, hs, body) == encode_utf8("HTTP/1.1 "@) + encode_utf8(decimal(code as nat)) + encode_utf8(" "@)
            + encode_utf8(status_reason(code)) + encode_utf8("\r\n"@) + header_lines(hs).flatten()
            + encode_utf8("Content-Length: "@) + encode_utf8(decimal(body.len())) + encode_utf8("\r\n\r\n"@) + body,
        header_lines(hs).len() == hs.len(),
        forall|j: int|
            0 <= j < hs.len() ==> #[trigger] header_lines(hs)[j] == encode_utf8(hs[j].0) + encode_utf8(": "@)
                + encode_utf8(hs[j].1) + encode_utf8("\r\n"@),
{
    lemma_header_block_lines(hs);
    header_lines(hs).lemma_flatten_and_flatten_alt_are_equivalent();
}

/// Serializes a deterministic mock answer.
pub fn mock_response_bytes(status_code: u16, headers: &Vec<(String, String)>, body: &[u8]) -> (r: Vec<u8>)
    ensures
        r@ == response_bytes(status_code, header_pairs(headers@), body@),
        r@ == encode_utf8("HTTP/1.1 "@) + encode_utf8(decimal(status_code as nat)) + encode_utf8(" "@)
            + encode_utf8(status_reason(status_code)) + encode_utf8("\r\n"@) + header_lines(header_pairs(headers@)).flatten()
            + encode_utf8("Content-Length: "@) + encode_utf8(decimal(body@.len())) + encode_utf8("\r\n\r\n"@) + body@,
{
    proof {
        lemma_response_lists_every_header(status_code, header_pairs(headers@), body@);
    }
    let mut bytes: Vec<u8> = Vec::new();
    push_str_bytes(&mut bytes, "HTTP/1.1 ");
    let code = decimal_string(status_code as u64);
    push_str_bytes(&mut bytes, code.as_str());
    push_str_bytes(&mut bytes, " ");
    push_str_bytes(&mut bytes, reason_phrase(status_code));
    push_str_bytes(&mut bytes, "\r\n");
    let ghost head = bytes@;
    let mut i: usize = 0;
    while i < headers.len()
        invariant
            i <= headers@.len(),
            bytes@ == head + header_block(header_pairs(headers@).take(i as int)),
        decreases headers@.len() - i,
    {
        let ghost hs = header_pairs(headers@).take(i + 1);
        assert(hs.drop_last() =~= header_pairs(headers@).take(i as int));
        push_str_bytes(&mut bytes, headers[i].0.as_str());
        push_str_bytes(&mut bytes, ": ");
        push_str_bytes(&mut bytes, headers[i].1.as_str());
        push_str_bytes(&mut bytes, "\r\n");
        assert(bytes@ =~= head + header_block(hs));
        i = i + 1;
    }
    assert(header_pairs(headers@).take(headers@.len() as int) =~= header_pairs(headers@));
    push_str_bytes(&mut bytes, "Content-Length: ");
    let len = decimal_string(body.len() as u64);
    push_str_bytes(&mut bytes, len.as_str());
    push_str_bytes(&mut bytes, "\r\n\r\n");
    push_bytes(&mut bytes, body);
    assert(bytes@ =~= response_bytes(status_code, header_pairs(headers@), body@));
    bytes
}

/// Index of the first header named `k`, or `hs.len()` when there is none.
pub open spec fn header_index(hs: Seq<(Seq<char>, Seq<char>)>, k: Seq<char>) -> int
    decreases hs.len(),
{
    if hs.len() == 0 {
        0
    } else if hs[0].0 == k {
        0
    } else {
        1 + header_index(hs.drop_first(), k)
    }
}

proof fn lemma_header_index(hs: Seq<(Seq<char>, Seq<char>)>, k: Seq<char>, i: int)
    requires
        0 <= i <= hs.len(),
        i < hs.len() ==> hs[i].0 == k,
        forall|j: int| 0 <= j < i ==> (#[trigger] hs[j]).0 != k,
    ensures
        header_index(hs, k) == i,
    decreases hs.len(),
{
    if hs.len() > 0 && i > 0 {
        let t = hs.drop_first();
        assert forall|j: int| 0 <= j < i - 1 implies (#[trigger] t[j]).0 != k by {
            assert(t[j] == hs[j + 1]);
        }
        assert(hs[0].0 != k);
        lemma_header_index(t, k, i - 1);
    }
}

/// Header pairs after recording `k: v` as a map insertion does: the value of an existing
/// header named `k` is replaced, otherwise the pair is appended.
pub open spec fn header_insert(hs: Seq<(Seq<char>, Seq<char>)>, k: Seq<char>, v: Seq<char>) -> Seq<(Seq<char>, Seq<char>)> {
    let i = header_index(hs, k);
    if i < hs.len() {
        hs.update(i, (k, v))
    } else {
        hs.push((k, v))
    }
}

/// The header fields of the lines that follow a request line, up to the first empty line:
/// each line holding a `:` names a field (trimmed) and gives its value (trimmed).
pub open spec fn collect_headers(lines: Seq<Seq<char>>, acc: Seq<(Seq<char>, Seq<char>)>) -> Seq<(Seq<char>, Seq<char>)>
    decreases lines.len(),
{
    if lines.len() == 0 || lines[0].len() == 0 {
        acc
    } else {
        collect_headers(
            lines.drop_first(),
            match split_once(lines[0], ':') {
                Some((k, v)) => header_insert(acc, trim(k), trim(v)),
                None => acc,
            },
        )
    }
}

/// A request text's method token, target token and header fields, when its first line
/// holds at least two white-space separated tokens.
pub open spec fn parse_request_text(text: Seq<char>) -> Option<(Seq<char>, Seq<char>, Seq<(Seq<char>, Seq<char>)>)> {
    let lines = text_lines(text);
    if lines.len() == 0 {
        None
    } else {
        let toks = whitespace_tokens(lines[0]);
        if toks.len() < 2 {
            None
        } else {
            Some((toks[0], toks[1], collect_headers(lines.drop_first(), Seq::empty())))
        }
    }
}

/// The body of a request: the bytes after the head terminator, or none without one.
pub open spec fn request_body_of(raw: Seq<u8>) -> Seq<u8> {
    match head_end(raw) {
        Some(h) => raw.skip(h + 4),
        None => Seq::empty(),
    }
}

/// Records `k: v` into a header list.
fn insert_header(headers: &mut Vec<(String, String)>, k: String, v: String)
    ensures
        header_pairs(final(headers)@) == header_insert(header_pairs(old(headers)@), k@, v@),
{
    let ghost hs = header_pairs(headers@);
    let mut i: usize = 0;
    while i < headers.len()
        invariant
            hs == header_pairs(headers@),
            hs == header_pairs(old(headers)@),
            i <= headers@.len(),
            forall|j: int| 0 <= j < i ==> (#[trigger] hs[j]).0 != k@,
        decreases headers@.len() - i,
    {
        if headers[i].0 == k {
            proof {
                lemma_header_index(hs, k@, i as int);
            }
            headers.set(i, (k, v));
            assert(header_pairs(headers@) =~= header_insert(hs, k@, v@));
            return;
        }
        i = i + 1;
    }
    proof {
        lemma_header_index(hs, k@, i as int);
    }
    headers.push((k, v));
    assert(header_pairs(headers@) =~= header_insert(hs, k@, v@));
}

/// The parsed head of an intercepted request.
pub struct RequestHead {
    /// The method token, as written.
    pub method: String,
    /// The request target token.
    pub target: String,
    /// The header fields.
    pub headers: Vec<(String, String)>,
}

/// Parses the head of a request that is already decoded to text.
pub fn parse_request_head(text: &Vec<char>) -> (r: Option<RequestHead>)
    ensures
        match parse_request_text(text@) {
            None => r is None,
            Some((m, t, hs)) => r matches Some(h) && h.method@ == m && h.target@ == t && header_pairs(h.headers@) == hs,
        },
{
    let lines = split_lines(text);
    if lines.len() == 0 {
        return None;
    }
    let tokens = split_whitespace(&lines[0]);
    assert(char_rows(lines@)[0] == lines@[0]@);
    if tokens.len() < 2 {
        return None;
    }
    assert(char_rows(tokens@)[0] == tokens@[0]@);
    assert(char_rows(tokens@)[1] == tokens@[1]@);
    let method = string_from_chars(tokens[0].as_slice());
    let target = string_from_chars(tokens[1].as_slice());
    let mut headers: Vec<(String, String)> = Vec::new();
    let ghost all = char_rows(lines@);
    assert(all.drop_first() =~= all.skip(1));
    assert(header_pairs(headers@) =~= Seq::empty());
    let mut k: usize = 1;
    while k < lines.len()
        invariant
            all == char_rows(lines@),
            1 <= k <= lines@.len(),
            collect_headers(all.drop_first(), Seq::empty()) == collect_headers(all.skip(k as int), header_pairs(headers@)),
        ensures
            1 <= k <= lines@.len(),
            collect_headers(all.drop_first(), Seq::empty()) == collect_headers(all.skip(k as int), header_pairs(headers@)),
            k < lines@.len() ==> lines@[k as int]@.len() == 0,
        decreases lines@.len() - k,
    {
        let ghost rest = all.skip(k as int);
        assert(rest[0] == lines@[k as int]@);
        assert(rest.drop_first() =~= all.skip(k + 1));
        if lines[k].len() == 0 {
            break;
        }
        match split_once_chars(&lines[k], ':') {
            Some((name, value)) => {
                let tn = trim_chars(&name);
                let tv = trim_chars(&value);
                insert_header(&mut headers, string_from_chars(tn.as_slice()), string_from_chars(tv.as_slice()));
            },
            None => {},
        }
        k = k + 1;
    }
    if k >= lines.len() {
        assert(all.skip(k as int) =~= Seq::<Seq<char>>::empty());
    } else {
        assert(all.skip(k as int)[0] == lines@[k as int]@);
    }
    Some(RequestHead { method, target, headers })
}

/// The body of an intercepted request.
pub fn request_body(raw: &[u8]) -> (r: Vec<u8>)
    ensures
        r@ == request_body_of(raw@),
{
    match find_head_end(raw) {
        Some(h) => {
            let n = raw.len();
            assert(h + 4 <= raw@.len());
            let body = &raw[h + 4..raw.len()];
            assert(body@ =~= raw@.skip(h + 4));
            copy_bytes(body)
        },
        None => Vec::new(),
    }
}

/// The body of the answer to a route outside the schema:
/// `{"error":"Schema boundary breach: unregistered endpoint"}`.
pub open spec fn breach_body() -> Seq<u8> {
    encode_utf8("{\"error\":\"Schema boundary breach: unregistered endpoint\"}"@)
}

/// The proxy's answer to one intercepted request and the record it keeps of it.
pub struct RouteOutcome {
    /// Bytes written back to the client.
    pub response: Vec<u8>,
    /// The network mutation recorded for the request.
    pub record: InterceptedRequest,
    /// Whether the route lies outside the schema.
    pub breach: bool,
}

/// `o` answers a request for `(method, url)` as the schema prescribes: a registered route
/// gets its mock status, headers and body; any other route is refused with `400`, a JSON
/// content type and the breach body, and counts as a schema breach.
pub open spec fn answers_per_schema(
    table: Map<(Seq<char>, Seq<char>), MockResponse>,
    method: Seq<char>,
    url: Seq<char>,
    o: RouteOutcome,
) -> bool {
    if table.contains_key((method, url)) {
        let m = table[(method, url)];
        &&& !o.breach
        &&& o.record.response_status == m.status_code
        &&& o.record.response_body@ == m.body@
        &&& o.response@ == response_bytes(m.status_code, header_pairs(m.headers@), m.body@)
    } else {
        &&& o.breach
        &&& o.record.response_status == 400
        &&& o.record.response_body@ == breach_body()
        &&& o.response@ == response_bytes(400, seq![(content_type_name(), json_media_type())], breach_body())
    }
}

/// Answers an intercepted request whose method is already upper-cased, and records it.
pub fn respond_to_request(
    schema: &NetworkMockSchema,
    method: String,
    url: String,
    headers: Vec<(String, String)>,
    request_body: Vec<u8>,
) -> (r: RouteOutcome)
    ensures
        r.record.method == method,
        r.record.url == url,
        r.record.headers == headers,
        r.record.request_body == request_body,
        answers_per_schema(schema@, method@, url@, r),
{
    let (status_code, response_headers, response_body, breach) = match schema.lookup_route(&method, &url) {
        Some(mock) => (mock.status_code, copy_headers(&mock.headers), copy_bytes(mock.body.as_slice()), false),
        None => {
            let mut h: Vec<(String, String)> = Vec::new();
            h.push((String::from_str("Content-Type"), String::from_str("application/json")));
            assert(header_pairs(h@) =~= seq![(content_type_name(), json_media_type())]);
            let mut b: Vec<u8> = Vec::new();
            push_str_bytes(&mut b, "{\"error\":\"Schema boundary breach: unregistered endpoint\"}");
            (400u16, h, b, true)
        },
    };
    let response = mock_response_bytes(status_code, &response_headers, response_body.as_slice());
    RouteOutcome {
        response,
        record: InterceptedRequest {
            method,
            url,
            headers,
            request_body,
            response_status: status_code,
            response_body,
        },
        breach,
    }
}

/// What the proxy does with a plain-text connection.
pub enum ConnectionAction {
    /// The bytes hold no request line: nothing is answered or recorded.
    Ignore,
    /// A `CONNECT` request: acknowledge the tunnel, then serve TLS for `target`.
    Tunnel { target: String },
    /// Any other request: write the answer and record the mutation.
    Respond(RouteOutcome),
}

/// The answer that acknowledges a `CONNECT` request before the tunnel's TLS session begins.
pub open spec fn tunnel_ack_text() -> Seq<char> {
    "HTTP/1.1 200 Connection Established\r\n\r\n"@
}

/// The bytes that acknowledge a `CONNECT` request.
pub fn tunnel_ack() -> (r: Vec<u8>)
    ensures
        r@ == encode_utf8(tunnel_ack_text()),
{
    let mut r: Vec<u8> = Vec::new();
    push_str_bytes(&mut r, "HTTP/1.1 200 Connection Established\r\n\r\n");
    assert(r@ =~= encode_utf8(tunnel_ack_text()));
    r
}

/// The text `CONNECT`.
pub open spec fn connect_method() -> Seq<char> {
    "CONNECT"@
}

/// Parses a plain-text request read by the proxy, enforces the schema and decides the
/// answer: ignored without a request line, tunnelled for `CONNECT`, answered otherwise.
pub fn route_plain_request(raw: &[u8], schema: &NetworkMockSchema) -> (r: ConnectionAction)
    ensures
        match parse_request_text(utf8_lossy(raw@)) {
            None => r is Ignore,
            Some((m, t, hs)) => if uppercase(m) == connect_method() {
                r matches ConnectionAction::Tunnel { target } && target@ == t
            } else {
                r matches ConnectionAction::Respond(o) && o.record.method@ == uppercase(m) && o.record.url@ == t
                    && header_pairs(o.record.headers@) == hs && o.record.request_body@ == request_body_of(raw@)
                    && answers_per_schema(schema@, uppercase(m), t, o)
            },
        },
{
    let text = decode_utf8_lossy(raw);
    let head = match parse_request_head(&text) {
        None => {
            return ConnectionAction::Ignore;
        },
        Some(h) => h,
    };
    let method = to_uppercase(head.method.as_str());
    let connect = String::from_str("CONNECT");
    if method == connect {
        return ConnectionAction::Tunnel { target: head.target };
    }
    let body = request_body(raw);
    ConnectionAction::Respond(respond_to_request(schema, method, head.target, head.headers, body))
}

/// The text `https://`.
pub open spec fn https_prefix() -> Seq<char> {
    seq!['h', 't', 't', 'p', 's', ':', '/', '/']
}

/// The text `:443`.
pub open spec fn https_port_suffix() -> Seq<char> {
    seq![':', '4', '4', '3']
}

/// A `CONNECT` target without its trailing `:443` suffixes, as `str::trim_end_matches`
/// removes them.
pub open spec fn without_https_port(s: Seq<char>) -> Seq<char>
    decreases s.len(),
{
    if s.len() >= 4 && s.skip(s.len() - 4) == https_port_suffix() {
        without_https_port(s.take(s.len() - 4))
    } else {
        s
    }
}

/// The URL recorded for a request inside a TLS tunnel to `host`: an absolute `https://`
/// target as written, any other target prefixed with `https://` and the host.
pub open spec fn tls_url(host: Seq<char>, path: Seq<char>) -> Seq<char> {
    if path.len() >= 8 && path.take(8) == https_prefix() {
        path
    } else {
        https_prefix() + host + path
    }
}

/// The host of a `CONNECT` target.
pub fn tunnel_host(target: &String) -> (r: Vec<char>)
    ensures
        r@ == without_https_port(target@),
{
    let mut host: Vec<char> = Vec::new();
    let mut i: usize = 0;
    let n = target.as_str().unicode_len();
    while i < n
        invariant
            n == target@.len(),
            i <= n,
            host@ == target@.take(i as int),
        decreases n - i,
    {
        host.push(target.as_str().get_char(i));
        assert(host@ =~= target@.take(i + 1));
        i = i + 1;
    }
    assert(host@ =~= target@);
    let suffix: Vec<char> = vec![':', '4', '4', '3'];
    assert(suffix@ =~= https_port_suffix());
    loop
        invariant
            without_https_port(host@) == without_https_port(target@),
            suffix@ == https_port_suffix(),
        ensures
            host@ == without_https_port(target@),
        decreases host@.len(),
    {
        let len = host.len();
        if len < 4 {
            assert(without_https_port(host@) == host@);
            break;
        }
        let mut same = true;
        let mut j: usize = 0;
        while j < 4
            invariant
                len == host@.len(),
                len >= 4,
                suffix@ == https_port_suffix(),
                j <= 4,
                same <==> forall|q: int| 0 <= q < j ==> host@[len - 4 + q] == suffix@[q],
            decreases 4 - j,
        {
            if host[len - 4 + j] != suffix[j] {
                same = false;
            }
            j = j + 1;
        }
        if !same {
            assert(host@.skip(len - 4) != https_port_suffix()) by {
                let q = choose|q: int| 0 <= q < 4 && host@[len - 4 + q] != suffix@[q];
                assert(host@.skip(len - 4)[q] == host@[len - 4 + q]);
            }
            assert(without_https_port(host@) == host@);
            break;
        }
        assert(host@.skip(len - 4) =~= https_port_suffix());
        let ghost before = host@;
        host.truncate(len - 4);
        assert(host@ =~= before.take(len - 4));
    }
    host
}

/// Builds the URL recorded for a request inside a TLS tunnel.
fn build_tls_url(host: &Vec<char>, path: &String) -> (r: String)
    ensures
        r@ == tls_url(host@, path@),
{
    let prefix: Vec<char> = vec!['h', 't', 't', 'p', 's', ':', '/', '/'];
    assert(prefix@ =~= https_prefix());
    let p = path.as_str();
    let n = p.unicode_len();
    let mut absolute = n >= 8;
    let mut j: usize = 0;
    while j < 8 && absolute
        invariant
            n == path@.len(),
            p@ == path@,
            prefix@ == https_prefix(),
            j <= 8,
            absolute ==> n >= 8 && forall|q: int| 0 <= q < j ==> path@[q] == prefix@[q],
            !absolute ==> !(path@.len() >= 8 && path@.take(8) == https_prefix()),
        decreases 8 - j,
    {
        if p.get_char(j) != prefix[j] {
            absolute = false;
            assert(path@.take(8)[j as int] != https_prefix()[j as int]);
        }
        j = j + 1;
    }
    if absolute {
        assert(path@.take(8) =~= https_prefix());
        return path.clone();
    }
    let mut chars = prefix;
    let mut i: usize = 0;
    while i < host.len()
        invariant
            i <= host@.len(),
            chars@ == https_prefix() + host@.take(i as int),
        decreases host@.len() - i,
    {
        chars.push(host[i]);
        assert(chars@ =~= https_prefix() + host@.take(i + 1));
        i = i + 1;
    }
    assert(host@.take(host@.len() as int) =~= host@);
    let mut i: usize = 0;
    while i < n
        invariant
            n == path@.len(),
            p@ == path@,
            i <= n,
            chars@ == https_prefix() + host@ + path@.take(i as int),
        decreases n - i,
    {
        chars.push(p.get_char(i));
        assert(chars@ =~= https_prefix() + host@ + path@.take(i + 1));
        i = i + 1;
    }
    assert(path@.take(n as int) =~= path@);
    string_from_chars(chars.as_slice())
}

/// Parses a request read from inside a TLS tunnel opened with `CONNECT target`, enforces the
/// schema and decides the answer; `None` when the bytes hold no request line.
pub fn route_tls_request(raw: &[u8], target: &String, schema: &NetworkMockSchema) -> (r: Option<RouteOutcome>)
    ensures
        match parse_request_text(utf8_lossy(raw@)) {
            None => r is None,
            Some((m, p, hs)) => r matches Some(o) && o.record.method@ == uppercase(m)
                && o.record.url@ == tls_url(without_https_port(target@), p)
                && header_pairs(o.record.headers@) == hs && o.record.request_body@ == request_body_of(raw@)
                && answers_per_schema(schema@, uppercase(m), tls_url(without_https_port(target@), p), o),
        },
{
    let host = tunnel_host(target);
    let text = decode_utf8_lossy(raw);
    let head = match parse_request_head(&text) {
        None => {
            return None;
        },
        Some(h) => h,
    };
    let method = to_uppercase(head.method.as_str());
    let url = build_tls_url(&host, &head.target);
    let body = request_body(raw);
    Some(respond_to_request(schema, method, url, head.headers, body))
}

/// A request for a route registered in the schema is answered with the registered mock
/// response and recorded without a breach, whatever case its method was registered or sent in.
pub proof fn lemma_registered_route_is_answered(
    before: Map<(Seq<char>, Seq<char>), MockResponse>,
    registered_method: Seq<char>,
    path: Seq<char>,
    response: MockResponse,
    sent_method: Seq<char>,
    o: RouteOutcome,
)
    requires
        uppercase(sent_method) == uppercase(registered_method),
        answers_per_schema(before.insert((uppercase(registered_method), path), response), uppercase(sent_method), path, o),
    ensures
        !o.breach,
        o.record.response_status == response.status_code,
        o.record.response_body@ == response.body@,
        o.response@ == response_bytes(response.status_code, header_pairs(response.headers@), response.body@),
{
}

/// A request for a route the schema does not register is refused: it is answered `400`
/// with the breach body and counted as a schema breach.
pub proof fn lemma_unregistered_route_is_refused(
    table: Map<(Seq<char>, Seq<char>), MockResponse>,
    method: Seq<char>,
    url: Seq<char>,
    o: RouteOutcome,
)
    requires
        !table.contains_key((method, url)),
        answers_per_schema(table, method, url, o),
    ensures
        o.breach,
        o.record.response_status == 400,
        o.record.response_body@ == breach_body(),
{
}

/// A fresh self-signed certificate valid for `hosts` and its private key, both DER-encoded
/// (the key as PKCS#8), by `rcgen::generate_simple_self_signed`; `None` when rcgen reports an
/// error. What is claimed: a host name that is not ASCII is refused (rcgen accepts a
/// non-IP name only as an IA5 string, which is ASCII). Nothing is claimed of the bytes: the
/// key pair is freshly random, and that the certificate names `hosts` is left unsaid; key
/// generation may fail on any input, so success is never promised.
#[verifier::external_body]
fn self_signed_certificate(hosts: Vec<String>) -> (r: Option<(Vec<u8>, Vec<u8>)>)
    ensures
        (exists|i: int| 0 <= i < hosts@.len() && !is_ascii_chars(#[trigger] hosts@[i]@)) ==> r is None,
{
    match rcgen::generate_simple_self_signed(hosts) {
        Ok(certified) => Some((certified.cert.der().to_vec(), certified.key_pair.serialize_der())),
        Err(_) => None,
    }
}

/// The TLS identity the proxy presents inside a tunnel.
pub struct TlsIdentity {
    /// The host the certificate is issued for.
    pub host: String,
    /// DER-encoded self-signed certificate.
    pub cert_der: Vec<u8>,
    /// DER-encoded PKCS#8 private key.
    pub key_der: Vec<u8>,
}

/// Issues the identity presented inside a tunnel opened with `CONNECT target`: a fresh
/// self-signed certificate for the target's host (the target without its `:443` suffix);
/// `None` when certificate generation fails, which it always does for a host that is not ASCII.
pub fn tunnel_identity(target: &String) -> (r: Option<TlsIdentity>)
    ensures
        r matches Some(id) ==> id.host@ == without_https_port(target@),
        !is_ascii_chars(without_https_port(target@)) ==> r is None,
{
    let host_chars = tunnel_host(target);
    let host = string_from_chars(host_chars.as_slice());
    let mut hosts: Vec<String> = Vec::new();
    hosts.push(host.clone());
    assert(hosts@[0]@ == without_https_port(target@));
    match self_signed_certificate(hosts) {
        Some((cert_der, key_der)) => Some(TlsIdentity { host, cert_der, key_der }),
        None => None,
    }
}

} // verus!
