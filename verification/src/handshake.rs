use vstd::prelude::*;
use vstd::slice::{slice_subrange, slice_to_vec};
use vstd::string::{StringSliceAdditionalSpecFns, StringExecFns};
use vstd::utf8::encode_utf8;
use crate::error::WsError;
use crate::keys::{accept_token, process_key};
use crate::text::{bytes_to_string_lossy, string_from_utf8, utf8_lossy_of};
use vstd::utf8::{decode_utf8, valid_utf8};

verus! {

/// A CRLF pair starts at index `i` of `b`.
pub open spec fn crlf_at(b: Seq<u8>, i: int) -> bool {
    0 <= i && i + 2 <= b.len() && b[i] == 13 && b[i + 1] == 10
}

/// The header terminator, an empty line: CRLF CRLF starting at `i`.
pub open spec fn term_at(b: Seq<u8>, i: int) -> bool {
    0 <= i && i + 4 <= b.len() && b[i] == 13 && b[i + 1] == 10 && b[i + 2] == 13 && b[i + 3]
        == 10
}

/// The index of the first CRLF pair of `b`, if one is there.
pub open spec fn spec_find_crlf(b: Seq<u8>) -> Option<int>
    decreases b.len(),
{
    if b.len() < 2 {
        Option::None
    } else if b[0] == 13 && b[1] == 10 {
        Option::Some(0)
    } else {
        match spec_find_crlf(b.skip(1)) {
            Option::Some(i) => Option::Some(i + 1),
            Option::None => Option::None,
        }
    }
}

/// What `spec_find_crlf` finds is the first CRLF pair; when it finds
/// nothing, there is none.
pub proof fn lemma_find_crlf_character(b: Seq<u8>)
    ensures
        match spec_find_crlf(b) {
            Option::Some(i) => crlf_at(b, i) && (forall|j: int| 0 <= j < i ==> !crlf_at(b, j)),
            Option::None => forall|j: int| !crlf_at(b, j),
        },
    decreases b.len(),
{
    if b.len() < 2 {
    } else if b[0] == 13 && b[1] == 10 {
    } else {
        lemma_find_crlf_character(b.skip(1));
        assert forall|j: int| 1 <= j implies crlf_at(b, j) == crlf_at(b.skip(1), j - 1) by {
            if j + 2 <= b.len() {
                assert(b.skip(1)[j - 1] == b[j]);
                assert(b.skip(1)[j] == b[j + 1]);
            }
        }
    }
}

/// The index of the first occurrence of byte `c` in `b`, if any.
pub open spec fn spec_find_byte(b: Seq<u8>, c: u8) -> Option<int>
    decreases b.len(),
{
    if b.len() == 0 {
        Option::None
    } else if b[0] == c {
        Option::Some(0)
    } else {
        match spec_find_byte(b.skip(1), c) {
            Option::Some(i) => Option::Some(i + 1),
            Option::None => Option::None,
        }
    }
}

/// What `spec_find_byte` finds is the first occurrence; when it finds
/// nothing, the byte is absent.
pub proof fn lemma_find_byte_character(b: Seq<u8>, c: u8)
    ensures
        match spec_find_byte(b, c) {
            Option::Some(i) => 0 <= i < b.len() && b[i] == c && (forall|j: int|
                0 <= j < i ==> b[j] != c),
            Option::None => forall|j: int| 0 <= j < b.len() ==> b[j] != c,
        },
    decreases b.len(),
{
    if b.len() == 0 {
    } else if b[0] == c {
    } else {
        lemma_find_byte_character(b.skip(1), c);
        assert forall|j: int| 1 <= j < b.len() implies b.skip(1)[j - 1] == b[j] by {}
    }
}

/// The bytes this parser treats as surrounding whitespace of a header
/// value: space, tab, carriage return, line feed.
pub open spec fn is_ws(c: u8) -> bool {
    c == 32 || c == 9 || c == 13 || c == 10
}

/// `b` without leading whitespace.
pub open spec fn trim_front(b: Seq<u8>) -> Seq<u8>
    decreases b.len(),
{
    if b.len() > 0 && is_ws(b[0]) {
        trim_front(b.skip(1))
    } else {
        b
    }
}

/// `b` without trailing whitespace.
pub open spec fn trim_back(b: Seq<u8>) -> Seq<u8>
    decreases b.len(),
{
    if b.len() > 0 && is_ws(b[b.len() - 1]) {
        trim_back(b.drop_last())
    } else {
        b
    }
}

/// `b` without surrounding whitespace.
pub open spec fn spec_trim(b: Seq<u8>) -> Seq<u8> {
    trim_back(trim_front(b))
}

/// Dropping any run of leading whitespace is what `trim_front` does.
pub proof fn lemma_trim_front_at(b: Seq<u8>, j: int)
    requires
        0 <= j <= b.len(),
        forall|k: int| 0 <= k < j ==> is_ws(b[k]),
        j < b.len() ==> !is_ws(b[j]),
    ensures
        trim_front(b) == b.skip(j),
    decreases j,
{
    if j == 0 {
        assert(b.skip(0) =~= b);
    } else {
        lemma_trim_front_at(b.skip(1), j - 1);
        assert(b.skip(1).skip(j - 1) =~= b.skip(j));
    }
}

/// Dropping any run of trailing whitespace is what `trim_back` does.
pub proof fn lemma_trim_back_at(b: Seq<u8>, e: int)
    requires
        0 <= e <= b.len(),
        forall|k: int| e <= k < b.len() ==> is_ws(b[k]),
        e > 0 ==> !is_ws(b[e - 1]),
    ensures
        trim_back(b) == b.take(e),
    decreases b.len() - e,
{
    if e == b.len() {
        assert(b.take(e) =~= b);
    } else {
        lemma_trim_back_at(b.drop_last(), e);
        assert(b.drop_last().take(e) =~= b.take(e));
    }
}

/// The sequence `pat` occurs in `b` starting at index `i`.
pub open spec fn subseq_at(b: Seq<u8>, i: int, pat: Seq<u8>) -> bool {
    0 <= i && i + pat.len() <= b.len() && b.subrange(i, i + pat.len()) == pat
}

/// The sequence `pat` occurs somewhere in `b`.
pub open spec fn contains_seq(b: Seq<u8>, pat: Seq<u8>) -> bool {
    exists|i: int| subseq_at(b, i, pat)
}

/// Whether `pat` occurs in `b` starting at `i`, checked byte by byte.
fn subseq_check(b: &[u8], i: usize, pat: &[u8]) -> (r: bool)
    requires
        i + pat@.len() <= b@.len(),
    ensures
        r == subseq_at(b@, i as int, pat@),
{
    let n = b.len();
    let mut j: usize = 0;
    while j < pat.len()
        invariant
            n == b@.len(),
            i + pat@.len() <= b@.len(),
            0 <= j <= pat@.len(),
            forall|k: int| 0 <= k < j ==> b@[i + k] == pat@[k],
        decreases pat@.len() - j,
    {
        if b[i + j] != pat[j] {
            assert(b@.subrange(i as int, i + pat@.len()) != pat@) by {
                assert(b@.subrange(i as int, i + pat@.len())[j as int] != pat@[j as int]);
            }
            return false;
        }
        j += 1;
    }
    assert(b@.subrange(i as int, i + pat@.len()) =~= pat@);
    true
}

/// Whether `pat` occurs anywhere in `b`.
pub fn contains_bytes(b: &[u8], pat: &[u8]) -> (r: bool)
    ensures
        r == contains_seq(b@, pat@),
{
    if pat.len() > b.len() {
        assert(forall|i: int| !subseq_at(b@, i, pat@));
        return false;
    }
    if pat.len() == 0 {
        assert(subseq_at(b@, 0, pat@)) by {
            assert(b@.subrange(0, 0) =~= pat@);
        }
        return true;
    }
    let mut i: usize = 0;
    let last = b.len() - pat.len();
    while i <= last
        invariant
            1 <= pat@.len() <= b@.len(),
            b@.len() <= usize::MAX,
            last == b@.len() - pat@.len(),
            0 <= i <= last + 1,
            forall|k: int| 0 <= k < i ==> !subseq_at(b@, k, pat@),
        decreases last + 1 - i,
    {
        if subseq_check(b, i, pat) {
            return true;
        }
        i += 1;
    }
    assert(forall|k: int| !subseq_at(b@, k, pat@)) by {
        assert(forall|k: int| k > last ==> !subseq_at(b@, k, pat@));
    }
    false
}

/// Compare two byte strings for equality.
pub fn bytes_eq(a: &[u8], b: &[u8]) -> (r: bool)
    ensures
        r == (a@ == b@),
{
    if a.len() != b.len() {
        assert(a@ != b@) by {
            assert(a@.len() != b@.len());
        }
        return false;
    }
    let mut i: usize = 0;
    while i < a.len()
        invariant
            a@.len() == b@.len(),
            0 <= i <= a@.len(),
            forall|k: int| 0 <= k < i ==> a@[k] == b@[k],
        decreases a@.len() - i,
    {
        if a[i] != b[i] {
            return false;
        }
        i += 1;
    }
    assert(a@ =~= b@);
    true
}

/// Find the header terminator CRLF CRLF: the index of its first
/// occurrence, or nothing if the head is still incomplete.
pub fn find_header_end(data: &[u8]) -> (r: Option<usize>)
    ensures
        match r {
            Option::Some(i) => term_at(data@, i as int) && (forall|j: int|
                0 <= j < i ==> !term_at(data@, j)),
            Option::None => forall|j: int| !term_at(data@, j),
        },
{
    if data.len() < 4 {
        assert(forall|j: int| !term_at(data@, j));
        return Option::None;
    }
    let mut i: usize = 0;
    let last = data.len() - 4;
    while i <= last
        invariant
            data@.len() >= 4,
            last == data@.len() - 4,
            0 <= i <= last + 1,
            forall|j: int| 0 <= j < i ==> !term_at(data@, j),
        decreases last + 1 - i,
    {
        if data[i] == 13 && data[i + 1] == 10 && data[i + 2] == 13 && data[i + 3] == 10 {
            return Option::Some(i);
        }
        i += 1;
    }
    assert(forall|j: int| !term_at(data@, j)) by {
        assert(forall|j: int| j > last ==> !term_at(data@, j));
    }
    Option::None
}


/// The result of looking a header up in a block of header lines.
#[verifier::ext_equal]
pub enum SpecLookup {
    /// The header is there; its value, with surrounding whitespace
    /// trimmed.
    Found(Seq<u8>),
    /// A line names the header but holds no colon; the line itself.
    Malformed(Seq<u8>),
    /// No line names the header.
    Missing,
}

/// The value a single header line yields: what follows the first
/// colon, trimmed — or the malformed line itself if no colon is there.
pub open spec fn spec_line_value(line: Seq<u8>) -> SpecLookup {
    match spec_find_byte(line, 58) {
        Option::Some(c) => SpecLookup::Found(spec_trim(line.skip(c + 1))),
        Option::None => SpecLookup::Malformed(line),
    }
}

/// Look a header up in a block of CRLF-separated lines: the first
/// line that mentions `name` decides, split at its first colon.
pub open spec fn spec_header_lookup(b: Seq<u8>, name: Seq<u8>) -> SpecLookup
    decreases b.len(),
    via spec_header_lookup_dec
{
    match spec_find_crlf(b) {
        Option::Some(i) => {
            let line = b.take(i);
            if contains_seq(line, name) {
                spec_line_value(line)
            } else {
                spec_header_lookup(b.skip(i + 2), name)
            }
        },
        Option::None => {
            if contains_seq(b, name) {
                spec_line_value(b)
            } else {
                SpecLookup::Missing
            }
        },
    }
}

#[via_fn]
proof fn spec_header_lookup_dec(b: Seq<u8>, name: Seq<u8>) {
    lemma_find_crlf_character(b);
}

/// Find the first CRLF pair of a byte string.
fn find_crlf(b: &[u8]) -> (r: Option<usize>)
    ensures
        match r {
            Option::Some(i) => spec_find_crlf(b@) == Option::Some(i as int),
            Option::None => spec_find_crlf(b@) is None,
        },
{
    proof {
        lemma_find_crlf_character(b@);
    }
    if b.len() < 2 {
        return Option::None;
    }
    let mut i: usize = 0;
    let last = b.len() - 2;
    while i <= last
        invariant
            b@.len() >= 2,
            b@.len() <= usize::MAX,
            last == b@.len() - 2,
            0 <= i <= last + 1,
            forall|j: int| 0 <= j < i ==> !crlf_at(b@, j),
        decreases last + 1 - i,
    {
        if b[i] == 13 && b[i + 1] == 10 {
            proof {
                lemma_find_crlf_character(b@);
                match spec_find_crlf(b@) {
                    Option::Some(k) => {
                        assert(crlf_at(b@, i as int));
                        assert(!crlf_at(b@, k) ==> false);
                        assert(k == i);
                    },
                    Option::None => {
                        assert(crlf_at(b@, i as int));
                        assert(false);
                    },
                }
            }
            return Option::Some(i);
        }
        i += 1;
    }
    assert(forall|j: int| !crlf_at(b@, j)) by {
        assert(forall|j: int| j > last ==> !crlf_at(b@, j));
    }
    Option::None
}

/// Find the first colon of a header line.
fn find_colon(b: &[u8]) -> (r: Option<usize>)
    ensures
        match r {
            Option::Some(i) => spec_find_byte(b@, 58) == Option::Some(i as int),
            Option::None => spec_find_byte(b@, 58) is None,
        },
{
    proof {
        lemma_find_byte_character(b@, 58);
    }
    let mut i: usize = 0;
    while i < b.len()
        invariant
            0 <= i <= b@.len(),
            forall|j: int| 0 <= j < i ==> b@[j] != 58,
        decreases b@.len() - i,
    {
        if b[i] == 58 {
            proof {
                lemma_find_byte_character(b@, 58);
            }
            return Option::Some(i);
        }
        i += 1;
    }
    Option::None
}

/// Copy a byte string without its surrounding whitespace.
fn trim_bytes(b: &[u8]) -> (r: Vec<u8>)
    ensures
        r@ == spec_trim(b@),
{
    let n = b.len();
    let mut j: usize = 0;
    while j < n && (b[j] == 32 || b[j] == 9 || b[j] == 13 || b[j] == 10)
        invariant
            n == b@.len(),
            0 <= j <= n,
            forall|k: int| 0 <= k < j ==> is_ws(b@[k]),
        decreases n - j,
    {
        j += 1;
    }
    proof {
        lemma_trim_front_at(b@, j as int);
    }
    let mut e: usize = n;
    while e > j && (b[e - 1] == 32 || b[e - 1] == 9 || b[e - 1] == 13 || b[e - 1] == 10)
        invariant
            n == b@.len(),
            j <= e <= n,
            forall|k: int| e <= k < n ==> is_ws(b@[k]),
        decreases e,
    {
        e -= 1;
    }
    proof {
        assert forall|k: int| e - j <= k < b@.skip(j as int).len() implies is_ws(
            b@.skip(j as int)[k],
        ) by {
            assert(b@.skip(j as int)[k] == b@[k + j]);
        }
        if e > j {
            assert(b@.skip(j as int)[e - j - 1] == b@[e - 1]);
        }
        lemma_trim_back_at(b@.skip(j as int), e - j);
        assert(b@.skip(j as int).take(e - j) =~= b@.subrange(j as int, e as int));
    }
    slice_to_vec(slice_subrange(b, j, e))
}

/// The result of looking a header up, as the executable parser hands
/// it out.
pub enum HeaderLookup {
    /// The header's value, trimmed.
    Found(Vec<u8>),
    /// The colonless line that names the header.
    Malformed(Vec<u8>),
    /// No line names the header.
    Missing,
}

/// The executable lookup agrees with the specification lookup.
pub open spec fn lookup_matches(r: HeaderLookup, s: SpecLookup) -> bool {
    match r {
        HeaderLookup::Found(v) => s == SpecLookup::Found(v@),
        HeaderLookup::Malformed(v) => s == SpecLookup::Malformed(v@),
        HeaderLookup::Missing => s is Missing,
    }
}

/// The value of the line `line`, executable side.
fn line_value(line: &[u8]) -> (r: HeaderLookup)
    ensures
        lookup_matches(r, spec_line_value(line@)),
{
    match find_colon(line) {
        Option::Some(c) => {
            let n = line.len();
            proof {
                lemma_find_byte_character(line@, 58);
            }
            let tail = slice_subrange(line, c + 1, n);
            proof {
                assert(tail@ =~= line@.skip(c + 1));
            }
            HeaderLookup::Found(trim_bytes(tail))
        },
        Option::None => HeaderLookup::Malformed(slice_to_vec(line)),
    }
}

/// Look a header up in a block of CRLF-separated header lines: the
/// first line that mentions `name` decides; its value is what follows
/// the first colon, trimmed; a mentioning line without a colon is
/// malformed.
pub fn header_lookup(head: &[u8], name: &[u8]) -> (r: HeaderLookup)
    ensures
        lookup_matches(r, spec_header_lookup(head@, name@)),
{
    let mut off: usize = 0;
    proof {
        assert(head@.len() == head.len());
        assert(head@.skip(0) =~= head@);
    }
    loop
        invariant
            0 <= off <= head@.len(),
            head@.len() <= usize::MAX,
            spec_header_lookup(head@, name@) == spec_header_lookup(
                head@.skip(off as int),
                name@,
            ),
        decreases head@.len() - off,
    {
        let remaining = slice_subrange(head, off, head.len());
        proof {
            assert(remaining@ =~= head@.skip(off as int));
        }
        match find_crlf(remaining) {
            Option::Some(i) => {
                proof {
                    lemma_find_crlf_character(remaining@);
                }
                let line = slice_subrange(remaining, 0, i);
                proof {
                    assert(line@ =~= remaining@.take(i as int));
                }
                if contains_bytes(line, name) {
                    return line_value(line);
                }
                proof {
                    assert(remaining@.skip(i + 2) =~= head@.skip(off + i + 2));
                }
                off = off + i + 2;
            },
            Option::None => {
                if contains_bytes(remaining, name) {
                    return line_value(remaining);
                }
                return HeaderLookup::Missing;
            },
        }
    }
}


/// The bytes of the response header that carries the accept token.
pub open spec fn accept_header_name() -> Seq<u8> {
    "Sec-WebSocket-Accept".spec_bytes()
}

/// The bytes of the request header that carries the client's nonce.
pub open spec fn key_header_name() -> Seq<u8> {
    "Sec-WebSocket-Key".spec_bytes()
}

/// Pull the `Sec-WebSocket-Accept` value out of a response head, or
/// say exactly how the head fails to carry one.
pub fn extract_server_key(response: &[u8]) -> (r: Result<Vec<u8>, WsError>)
    ensures
        ({
            let s = spec_header_lookup(response@, accept_header_name());
            match r {
                Result::Ok(v) => s == SpecLookup::Found(v@),
                Result::Err(e) => match s {
                    SpecLookup::Found(_) => false,
                    SpecLookup::Malformed(line) => e matches WsError::Header(t) && t@
                        == utf8_lossy_of(line),
                    SpecLookup::Missing => e is MissingSecWebSocketAcceptHeader,
                },
            }
        }),
{
    match header_lookup(response, "Sec-WebSocket-Accept".as_bytes()) {
        HeaderLookup::Found(v) => Result::Ok(v),
        HeaderLookup::Malformed(line) => Result::Err(
            WsError::Header(bytes_to_string_lossy(line.as_slice())),
        ),
        HeaderLookup::Missing => Result::Err(WsError::MissingSecWebSocketAcceptHeader),
    }
}

/// Pull the `Sec-WebSocket-Key` value out of a request head, or say
/// exactly how the head fails to carry one.
pub fn extract_client_key(request: &[u8]) -> (r: Result<Vec<u8>, WsError>)
    ensures
        ({
            let s = spec_header_lookup(request@, key_header_name());
            match r {
                Result::Ok(v) => s == SpecLookup::Found(v@),
                Result::Err(e) => match s {
                    SpecLookup::Found(_) => false,
                    SpecLookup::Malformed(line) => e matches WsError::Header(t) && t@
                        == utf8_lossy_of(line),
                    SpecLookup::Missing => e is MissingSecWebSocketKeyHeader,
                },
            }
        }),
{
    match header_lookup(request, "Sec-WebSocket-Key".as_bytes()) {
        HeaderLookup::Found(v) => Result::Ok(v),
        HeaderLookup::Malformed(line) => Result::Err(
            WsError::Header(bytes_to_string_lossy(line.as_slice())),
        ),
        HeaderLookup::Missing => Result::Err(WsError::MissingSecWebSocketKeyHeader),
    }
}

/// Validate a server's response head against the nonce this client
/// sent: succeeds exactly when the head carries `Sec-WebSocket-Accept`
/// and its value is the token derived from the nonce.
pub fn check_server_response(response: &[u8], key: &str) -> (r: Result<(), WsError>)
    ensures
        ({
            let s = spec_header_lookup(response@, accept_header_name());
            match r {
                Result::Ok(_) => s == SpecLookup::Found(encode_utf8(accept_token(key@))),
                Result::Err(e) => match s {
                    SpecLookup::Found(v) => v != encode_utf8(accept_token(key@)) && e
                        is InvalidHandshakeKey,
                    SpecLookup::Malformed(line) => e matches WsError::Header(t) && t@
                        == utf8_lossy_of(line),
                    SpecLookup::Missing => e is MissingSecWebSocketAcceptHeader,
                },
            }
        }),
{
    let expected = process_key(key);
    match extract_server_key(response) {
        Result::Ok(v) => {
            if bytes_eq(v.as_slice(), expected.as_str().as_bytes()) {
                Result::Ok(())
            } else {
                Result::Err(WsError::InvalidHandshakeKey)
            }
        },
        Result::Err(e) => Result::Err(e),
    }
}

/// The text of a client's upgrade request.
pub open spec fn request_text(path: Seq<char>, host: Seq<char>, key: Seq<char>) -> Seq<char> {
    "GET "@ + path + " HTTP/1.1\r\nHost: "@ + host
        + "\r\nUpgrade: websocket\r\nConnection: Upgrade\r\nSec-WebSocket-Version: 13\r\nSec-WebSocket-Key: "@
        + key + "\r\n\r\n"@
}

/// The text of a server's `101 Switching Protocols` response carrying
/// the accept token.
pub open spec fn response_text(token: Seq<char>) -> Seq<char> {
    "HTTP/1.1 101 Switching Protocols\r\nUpgrade: websocket\r\nConnection: Upgrade\r\nSec-WebSocket-Accept: "@
        + token + "\r\n\r\n"@
}

/// Build the client's upgrade request around the nonce `key`.
pub fn build_request(path: &str, host: &str, key: &str) -> (r: String)
    ensures
        r@ == request_text(path@, host@, key@),
{
    let mut s = String::from_str("GET ");
    s.append(path);
    s.append(" HTTP/1.1\r\nHost: ");
    s.append(host);
    s.append(
        "\r\nUpgrade: websocket\r\nConnection: Upgrade\r\nSec-WebSocket-Version: 13\r\nSec-WebSocket-Key: ",
    );
    s.append(key);
    s.append("\r\n\r\n");
    s
}

/// Build the server's switching response for the client nonce `key`,
/// deriving the accept token from it.
pub fn build_response(key: &str) -> (r: String)
    ensures
        r@ == response_text(accept_token(key@)),
{
    let token = process_key(key);
    let mut s = String::from_str(
        "HTTP/1.1 101 Switching Protocols\r\nUpgrade: websocket\r\nConnection: Upgrade\r\nSec-WebSocket-Accept: ",
    );
    s.append(token.as_str());
    s.append("\r\n\r\n");
    s
}

/// The growth buffer of an incremental head read: bytes accumulate
/// until the empty line arrives; whatever follows it already belongs
/// to the frame layer and is preserved.
pub struct HandshakeBuffer {
    pub data: Vec<u8>,
}

impl HandshakeBuffer {
    /// An empty buffer.
    pub fn new() -> (r: Self)
        ensures
            r.data@ == Seq::<u8>::empty(),
    {
        HandshakeBuffer { data: Vec::new() }
    }

    /// Take in the bytes one read returned.
    pub fn push_chunk(&mut self, chunk: &[u8])
        ensures
            final(self).data@ == old(self).data@ + chunk@,
    {
        self.data.extend_from_slice(chunk);
    }

    /// Split the buffer at the first header terminator, if one has
    /// arrived: the head before it, and the later bytes after it.
    pub fn try_split(&self) -> (r: Option<(Vec<u8>, Vec<u8>)>)
        ensures
            match r {
                Option::Some(pair) => exists|i: int|
                    {
                        &&& term_at(self.data@, i)
                        &&& forall|j: int| 0 <= j < i ==> !term_at(self.data@, j)
                        &&& pair.0@ == self.data@.take(i)
                        &&& pair.1@ == self.data@.skip(i + 4)
                    },
                Option::None => forall|j: int| !term_at(self.data@, j),
            },
    {
        let n = self.data.len();
        match find_header_end(self.data.as_slice()) {
            Option::Some(i) => {
                let head = slice_to_vec(slice_subrange(self.data.as_slice(), 0, i));
                let rest = slice_to_vec(slice_subrange(self.data.as_slice(), i + 4, n));
                proof {
                    assert(head@ =~= self.data@.take(i as int));
                    assert(rest@ =~= self.data@.skip(i + 4));
                }
                Option::Some((head, rest))
            },
            Option::None => Option::None,
        }
    }
}


/// The server's whole pure handshake step: pull the client's nonce
/// out of the request head and build the switching response around
/// the token derived from it. Fails exactly when the head carries no
/// usable `Sec-WebSocket-Key`.
pub fn server_handshake_response(request: &[u8]) -> (r: Result<String, WsError>)
    ensures
        ({
            let s = spec_header_lookup(request@, key_header_name());
            match r {
                Result::Ok(text) => {
                    &&& s matches SpecLookup::Found(v)
                    &&& valid_utf8(v)
                    &&& text@ == response_text(accept_token(decode_utf8(v)))
                },
                Result::Err(e) => match s {
                    SpecLookup::Found(v) => !valid_utf8(v) && (e matches WsError::Header(t)
                        && t@ == utf8_lossy_of(v)),
                    SpecLookup::Malformed(line) => e matches WsError::Header(t) && t@
                        == utf8_lossy_of(line),
                    SpecLookup::Missing => e is MissingSecWebSocketKeyHeader,
                },
            }
        }),
{
    match extract_client_key(request) {
        Result::Ok(v) => {
            match string_from_utf8(slice_to_vec(v.as_slice())) {
                Option::Some(key) => Result::Ok(build_response(key.as_str())),
                Option::None => Result::Err(
                    WsError::Header(bytes_to_string_lossy(v.as_slice())),
                ),
            }
        },
        Result::Err(e) => Result::Err(e),
    }
}

} // verus!
