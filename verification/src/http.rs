//! The HTTP/1.1 messages of the egress path: the request that goes out, and the
//! body of the response that comes back.

use vstd::prelude::*;
use vstd::slice::slice_subrange;
use vstd::string::StringExecFns;
use vstd::utf8::*;

use crate::encoding;
use crate::text;
use crate::weburl;
use crate::weburl::UrlParts;

verus! {

/// The end of a line.
pub open spec fn crlf() -> Seq<u8> {
    seq![13u8, 10u8]
}

/// The end of the headers.
pub open spec fn blank_line() -> Seq<u8> {
    seq![13u8, 10u8, 13u8, 10u8]
}

/// What taking a chunked body apart gives: the data of its chunks, a complaint
/// about its framing, or a chunk so large that its end has no address.
pub ghost enum Dechunked {
    Data(Seq<u8>),
    Fault(Seq<char>),
    Overflow,
}

impl Dechunked {
    /// The same with more data before it.
    pub open spec fn after(self, data: Seq<u8>) -> Dechunked {
        match self {
            Dechunked::Data(rest) => Dechunked::Data(data + rest),
            _ => self,
        }
    }
}

/// The part of a chunk's first line that holds the size: what stands before a
/// semicolon, without white space round it.
pub open spec fn size_token(line: Seq<char>) -> Seq<char> {
    text::trimmed(
        match text::first_place(line, ';') {
            Some(i) => line.take(i),
            None => line,
        },
    )
}

/// The complaint about a chunk that ends too early.
pub open spec fn short_chunk(need: nat, have: nat) -> Seq<char> {
    "Incomplete chunk body (need "@ + text::decimal(need) + " bytes incl. CRLF, have "@
        + text::decimal(have) + ")"@
}

/// The data of a chunked body. Each chunk is a line with its size in
/// hexadecimal digits, that many bytes, and the end of a line; a chunk of size
/// zero is the last one, and what follows it does not matter.
pub open spec fn dechunked(body: Seq<u8>) -> Dechunked
    decreases body.len(),
    via dechunked_shrinks
{
    if body.len() == 0 {
        Dechunked::Fault("Incomplete chunked encoding (unexpected EOF before size line)"@)
    } else {
        match text::first_at(body, crlf()) {
            None => Dechunked::Fault("Incomplete chunked encoding (missing CRLF after size)"@),
            Some(k) => {
                let line = body.take(k);
                let rest = body.skip(k + 2);
                let token = size_token(decode_utf8(line));
                if !valid_utf8(line) {
                    Dechunked::Fault("Invalid UTF-8 in chunk-size line"@)
                } else {
                    match text::number(token, 16, usize::MAX as nat) {
                        None => Dechunked::Fault("Invalid chunk size: "@ + encoding::quoted(token)),
                        Some(size) => if size == 0 {
                            Dechunked::Data(seq![])
                        } else if size + 2 > usize::MAX {
                            Dechunked::Overflow
                        } else if rest.len() < size + 2 {
                            Dechunked::Fault(short_chunk(size + 2, rest.len()))
                        } else if rest.subrange(size as int, size + 2int) != crlf() {
                            Dechunked::Fault(
                                "Malformed chunk framing (missing trailing CRLF)"@,
                            )
                        } else {
                            dechunked(rest.skip(size + 2int)).after(rest.take(size as int))
                        },
                    }
                }
            },
        }
    }
}

#[via_fn]
proof fn dechunked_shrinks(body: Seq<u8>) {
    if let Some(k) = text::first_at(body, crlf()) {
        assert(text::is_first_at(body, crlf(), k));
    }
}

/// What taking a chunked body apart gives.
pub enum Chunks {
    Data(Vec<u8>),
    Fault(String),
    Overflow,
}

impl View for Chunks {
    type V = Dechunked;

    open spec fn view(&self) -> Dechunked {
        match self {
            Chunks::Data(data) => Dechunked::Data(data@),
            Chunks::Fault(e) => Dechunked::Fault(e@),
            Chunks::Overflow => Dechunked::Overflow,
        }
    }
}

/// The text that the size of a chunk stands in.
fn read_size_token(line: &str) -> (token: String)
    ensures
        token@ == size_token(line@),
{
    let chars = text::chars_of(line);
    let end: usize = match text::find(&chars, ';') {
        Some(i) => i,
        None => chars.len(),
    };
    let head = text::text_of(&chars, 0, end);
    proof {
        if text::first_place(line@, ';') is None {
            assert(head@ =~= line@);
        } else {
            assert(head@ =~= line@.take(end as int));
        }
    }
    text::trim(head.as_str())
}

/// The complaint about a chunk that ends too early.
fn short_chunk_text(need: usize, have: usize) -> (r: String)
    ensures
        r@ == short_chunk(need as nat, have as nat),
{
    let mut r = "Incomplete chunk body (need ".to_string();
    r.append(text::to_decimal(need as u64).as_str());
    r.append(" bytes incl. CRLF, have ");
    r.append(text::to_decimal(have as u64).as_str());
    r.append(")");
    r
}

/// Takes a chunked body apart.
pub fn dechunk(body: &[u8]) -> (r: Chunks)
    ensures
        r@ == dechunked(body@),
{
    let end_of_line: [u8; 2] = [13u8, 10u8];
    assert(end_of_line@ =~= crlf());
    let mut data: Vec<u8> = Vec::new();
    let mut left: &[u8] = body;
    proof {
        if let Dechunked::Data(rest) = dechunked(body@) {
            assert(data@ + rest =~= rest);
        }
    }
    loop
        invariant
            end_of_line@ == crlf(),
            dechunked(body@) == dechunked(left@).after(data@),
        decreases left@.len(),
    {
        if left.len() == 0 {
            return Chunks::Fault(
                "Incomplete chunked encoding (unexpected EOF before size line)".to_string(),
            );
        }
        let k: usize = match text::find_bytes(left, end_of_line.as_slice()) {
            None => {
                return Chunks::Fault(
                    "Incomplete chunked encoding (missing CRLF after size)".to_string(),
                );
            },
            Some(k) => k,
        };
        let line = slice_subrange(left, 0, k);
        let rest = slice_subrange(left, k + 2, left.len());
        assert(line@ =~= left@.take(k as int));
        assert(rest@ =~= left@.skip(k + 2));
        let line_text = match encoding::utf8_text(line) {
            Err(_) => {
                return Chunks::Fault("Invalid UTF-8 in chunk-size line".to_string());
            },
            Ok(s) => s,
        };
        let token = read_size_token(line_text.as_str());
        let size: usize = match text::parse_number(token.as_str(), 16, usize::MAX as u64) {
            None => {
                let mut e = "Invalid chunk size: ".to_string();
                e.append(encoding::quote(token.as_str()).as_str());
                return Chunks::Fault(e);
            },
            Some(size) => size as usize,
        };
        if size == 0 {
            proof {
                assert(data@ + Seq::<u8>::empty() =~= data@);
            }
            return Chunks::Data(data);
        }
        if size > usize::MAX - 2 {
            return Chunks::Overflow;
        }
        if rest.len() < size + 2 {
            return Chunks::Fault(short_chunk_text(size + 2, rest.len()));
        }
        let tail = slice_subrange(rest, size, size + 2);
        if !text::same_bytes(tail, end_of_line.as_slice()) {
            return Chunks::Fault("Malformed chunk framing (missing trailing CRLF)".to_string());
        }
        let chunk = slice_subrange(rest, 0, size);
        let next = slice_subrange(rest, size + 2, rest.len());
        let ghost before = data@;
        data.extend_from_slice(chunk);
        proof {
            assert(chunk@ =~= rest@.take(size as int));
            assert(next@ =~= rest@.skip(size + 2));
            assert(data@ =~= before + chunk@);
            if let Dechunked::Data(more) = dechunked(next@) {
                assert(before + (chunk@ + more) =~= data@ + more);
            }
        }
        left = next;
    }
}

/// Whether headers announce a chunked body.
pub open spec fn announces_chunks(head: Seq<u8>) -> bool {
    text::occurs(encoding::lowercase(encoding::lossy(head)), "transfer-encoding: chunked"@)
}

/// What reading a response gives: the text of its body, a complaint, or a chunk
/// so large that its end has no address.
pub ghost enum Response {
    Body(Seq<char>),
    Fault(Seq<char>),
    Overflow,
}

/// The body of an HTTP response as text: what follows the first blank line,
/// taken out of its chunks where the headers announce them.
pub open spec fn response(bytes: Seq<u8>) -> Response {
    match text::first_at(bytes, blank_line()) {
        None => Response::Fault("Incomplete HTTP response (no header/body delimiter)"@),
        Some(k) => {
            let body = bytes.skip(k + 4);
            if announces_chunks(bytes.take(k)) {
                match dechunked(body) {
                    Dechunked::Data(data) => Response::Body(encoding::lossy(data)),
                    Dechunked::Fault(e) => Response::Fault(e),
                    Dechunked::Overflow => Response::Overflow,
                }
            } else {
                Response::Body(encoding::lossy(body))
            }
        },
    }
}

/// Where the headers of a response end, and whether they announce chunks.
fn read_head(bytes: &[u8]) -> (r: Option<(usize, bool)>)
    ensures
        match r {
            None => text::first_at(bytes@, blank_line()) is None,
            Some((k, chunked)) => {
                &&& text::first_at(bytes@, blank_line()) == Some(k as int)
                &&& k + 4 <= bytes@.len()
                &&& chunked == announces_chunks(bytes@.take(k as int))
            },
        },
{
    let delimiter: [u8; 4] = [13u8, 10u8, 13u8, 10u8];
    assert(delimiter@ =~= blank_line());
    match text::find_bytes(bytes, delimiter.as_slice()) {
        None => None,
        Some(k) => {
            let head = slice_subrange(bytes, 0, k);
            assert(head@ =~= bytes@.take(k as int));
            let lower = encoding::to_lowercase(encoding::lossy_text(head).as_str());
            let chunked = text::contains_text(lower.as_str(), "transfer-encoding: chunked");
            Some((k, chunked))
        },
    }
}

/// Whether a chunk of the response is so large that its end has no address.
pub fn overflows(bytes: &[u8]) -> (r: bool)
    ensures
        r == (response(bytes@) is Overflow),
{
    match read_head(bytes) {
        Some((k, true)) => {
            let n: usize = bytes.len();
            let body = slice_subrange(bytes, k + 4, n);
            assert(body@ =~= bytes@.skip(k + 4));
            match dechunk(body) {
                Chunks::Overflow => true,
                _ => false,
            }
        },
        _ => false,
    }
}

/// The body of an HTTP response as text.
pub fn parse_http_response(bytes: &[u8]) -> (r: Result<String, String>)
    requires
        !(response(bytes@) is Overflow),
    ensures
        match r {
            Ok(body) => response(bytes@) == Response::Body(body@),
            Err(e) => response(bytes@) == Response::Fault(e@),
        },
{
    match read_head(bytes) {
        None => Err("Incomplete HTTP response (no header/body delimiter)".to_string()),
        Some((k, chunked)) => {
            let n: usize = bytes.len();
            let body = slice_subrange(bytes, k + 4, n);
            assert(body@ =~= bytes@.skip(k + 4));
            if chunked {
                match dechunk(body) {
                    Chunks::Data(data) => Ok(encoding::lossy_text(data.as_slice())),
                    Chunks::Fault(e) => Err(e),
                    Chunks::Overflow => Err(String::new()),
                }
            } else {
                Ok(encoding::lossy_text(body))
            }
        },
    }
}

/// The body of an HTTP response as text; nothing where a chunk of it is so large
/// that its end has no address.
pub fn decode_response(bytes: &[u8]) -> (r: Option<Result<String, String>>)
    ensures
        match r {
            None => response(bytes@) is Overflow,
            Some(Ok(body)) => response(bytes@) == Response::Body(body@),
            Some(Err(e)) => response(bytes@) == Response::Fault(e@),
        },
{
    if overflows(bytes) {
        None
    } else {
        Some(parse_http_response(bytes))
    }
}

/// A pair in a text: from the first place where it opens to the last one where it
/// closes, where it opens before that.
pub open spec fn pair_in(t: Seq<char>, opener: char, closer: char) -> Option<(int, int)> {
    match (text::first_place(t, opener), text::last_place(t, closer)) {
        (Some(a), Some(b)) => if a < b {
            Some((a, b))
        } else {
            None
        },
        _ => None,
    }
}

/// The outermost pair of braces or of brackets in a text: the braces, unless the
/// brackets stand round them. Where the braces make no pair, it is the brackets,
/// unless a brace opens before them.
pub open spec fn json_pair(t: Seq<char>) -> Option<(int, int)> {
    match (pair_in(t, '{', '}'), pair_in(t, '[', ']')) {
        (Some(braces), Some(brackets)) => if brackets.0 < braces.0 && braces.1 < brackets.1 {
            Some(brackets)
        } else {
            Some(braces)
        },
        (Some(braces), None) => Some(braces),
        (None, Some(brackets)) => match text::first_place(t, '{') {
            Some(brace) => if brace < brackets.0 {
                None
            } else {
                Some(brackets)
            },
            None => Some(brackets),
        },
        (None, None) => None,
    }
}

/// The outermost pair of braces or of brackets in a text, with what stands between.
/// The white space and the NULs at the two ends of the text do not count.
pub open spec fn json_boundary(payload: Seq<char>) -> Result<Seq<char>, Seq<char>> {
    let t = text::without_pads(payload, true);
    match json_pair(t) {
        Some((a, b)) => Ok(t.subrange(a, b + 1)),
        None => Err("Could not locate JSON boundaries in response body"@),
    }
}

/// A pair in a text.
fn find_pair(chars: &Vec<char>, opener: char, closer: char) -> (r: Option<(usize, usize)>)
    ensures
        match r {
            Some((a, b)) => pair_in(chars@, opener, closer) == Some((a as int, b as int)) && a < b
                < chars@.len(),
            None => pair_in(chars@, opener, closer) is None,
        },
{
    match (text::find(chars, opener), text::rfind(chars, closer)) {
        (Some(a), Some(b)) => if a < b {
            Some((a, b))
        } else {
            None
        },
        _ => None,
    }
}

/// The outermost pair of braces or of brackets in a text.
fn find_json_pair(chars: &Vec<char>) -> (r: Option<(usize, usize)>)
    ensures
        match r {
            Some((a, b)) => json_pair(chars@) == Some((a as int, b as int)) && a < b
                < chars@.len(),
            None => json_pair(chars@) is None,
        },
{
    match (find_pair(chars, '{', '}'), find_pair(chars, '[', ']')) {
        (Some(braces), Some(brackets)) => if brackets.0 < braces.0 && braces.1 < brackets.1 {
            Some(brackets)
        } else {
            Some(braces)
        },
        (Some(braces), None) => Some(braces),
        (None, Some(brackets)) => match text::find(chars, '{') {
            Some(brace) => if brace < brackets.0 {
                None
            } else {
                Some(brackets)
            },
            None => Some(brackets),
        },
        (None, None) => None,
    }
}

/// Takes the white space and NULs off the two ends of a text and cuts out the
/// outermost pair of braces or of brackets, with what stands between.
pub fn extract_json_boundary(payload: &str) -> (r: Result<String, String>)
    ensures
        text::to_text_result(r) == json_boundary(payload@),
{
    let trimmed = text::chars_of(text::trim_with_nul(payload).as_str());
    match find_json_pair(&trimmed) {
        Some((a, b)) => {
            assert(b + 1 <= trimmed.len());
            Ok(text::text_of(&trimmed, a, b + 1))
        },
        None => Err("Could not locate JSON boundaries in response body".to_string()),
    }
}

/// Whether two texts are the same but for the case of ASCII letters.
pub open spec fn alike(a: Seq<char>, b: Seq<char>) -> bool {
    text::ascii_lowered(a) == text::ascii_lowered(b)
}

/// One line for each header but those named `Connection`.
pub open spec fn header_lines(headers: Seq<(Seq<char>, Seq<char>)>) -> Seq<char>
    decreases headers.len(),
{
    if headers.len() == 0 {
        seq![]
    } else {
        let (name, value) = headers.last();
        header_lines(headers.drop_last()) + if alike(name, "connection"@) {
            seq![]
        } else {
            name + ": "@ + value + "\r\n"@
        }
    }
}

/// The path and query with which a request asks for a URL.
pub open spec fn request_target(url: weburl::UrlView) -> Seq<char> {
    (if url.path.len() == 0 {
        "/"@
    } else {
        url.path
    }) + match url.query {
        Some(q) => "?"@ + q,
        None => seq![],
    }
}

/// Everything in a request before its body.
pub open spec fn request_head(
    url: weburl::UrlView,
    method: Seq<char>,
    body: Option<Seq<char>>,
    headers: Seq<(Seq<char>, Seq<char>)>,
) -> Seq<char> {
    method + " "@ + request_target(url) + " HTTP/1.1\r\nHost: "@ + (match url.host {
        Some(h) => h,
        None => seq![],
    }) + "\r\nUser-Agent: teeify-enclave/1\r\n"@ + header_lines(headers)
        + "Connection: close\r\n"@ + (match body {
        Some(b) => "Content-Length: "@ + text::decimal(encode_utf8(b).len()) + "\r\n"@,
        None => seq![],
    }) + "\r\n"@
}

/// An HTTP/1.1 request that asks the server to close the connection.
pub open spec fn request(
    url: weburl::UrlView,
    method: Seq<char>,
    body: Option<Seq<char>>,
    headers: Seq<(Seq<char>, Seq<char>)>,
) -> Seq<char> {
    request_head(url, method, body, headers) + (match body {
        Some(b) => b,
        None => seq![],
    })
}

/// Writes an HTTP/1.1 request.
pub fn build_http_request(
    url: &UrlParts,
    method: &str,
    body: &Option<String>,
    extra_headers: &Vec<(String, String)>,
) -> (r: String)
    ensures
        r@ == request(url@, method@, text::optional_text(*body), text::pairs(extra_headers@)),
{
    let mut r = method.to_string();
    r.append(" ");
    if url.path.as_str().is_empty() {
        r.append("/");
    } else {
        r.append(url.path.as_str());
    }
    if let Some(q) = &url.query {
        r.append("?");
        r.append(q.as_str());
    }
    r.append(" HTTP/1.1\r\nHost: ");
    if let Some(h) = &url.host {
        r.append(h.as_str());
    }
    r.append("\r\nUser-Agent: teeify-enclave/1\r\n");
    let ghost before = r@;
    let mut i: usize = 0;
    while i < extra_headers.len()
        invariant
            i <= extra_headers@.len(),
            r@ == before + header_lines(text::pairs(extra_headers@).take(i as int)),
        decreases extra_headers.len() - i,
    {
        let ghost list = text::pairs(extra_headers@);
        assert(list.take(i + 1).drop_last() =~= list.take(i as int));
        let (name, value) = &extra_headers[i];
        if !text::same_ignoring_ascii_case(name.as_str(), "connection") {
            r.append(name.as_str());
            r.append(": ");
            r.append(value.as_str());
            r.append("\r\n");
        }
        i += 1;
        assert(r@ =~= before + header_lines(list.take(i as int)));
    }
    assert(text::pairs(extra_headers@).take(i as int) =~= text::pairs(extra_headers@));
    r.append("Connection: close\r\n");
    if let Some(b) = body {
        r.append("Content-Length: ");
        r.append(text::to_decimal(b.as_str().as_bytes().len() as u64).as_str());
        r.append("\r\n");
    }
    r.append("\r\n");
    if let Some(b) = body {
        r.append(b.as_str());
    }
    proof {
        assert(r@ =~= request(
            url@,
            method@,
            text::optional_text(*body),
            text::pairs(extra_headers@),
        ));
    }
    r
}

/// Taking a chunk off the front of a chunked body gives its data; the rest is
/// taken apart by itself.
pub proof fn law_chunk(line: Seq<u8>, data: Seq<u8>, rest: Seq<u8>)
    requires
        text::is_first_at(line + crlf(), crlf(), line.len() as int),
        valid_utf8(line),
        text::number(size_token(decode_utf8(line)), 16, usize::MAX as nat) == Some(data.len()),
        0 < data.len(),
        data.len() + 2 <= usize::MAX,
    ensures
        dechunked(line + crlf() + data + crlf() + rest) == dechunked(rest).after(data),
{
    let tail = data + crlf() + rest;
    let body = line + crlf() + data + crlf() + rest;
    let n = data.len() as int;
    assert(body =~= line + crlf() + tail);
    lemma_dechunk_line(line, tail, data.len());
    assert(tail.subrange(n, n + 2) =~= crlf());
    assert(tail.skip(n + 2) =~= rest);
    assert(tail.take(n) =~= data);
}

/// What follows a line with the size of a chunk is that chunk, or is refused.
proof fn lemma_dechunk_line(line: Seq<u8>, tail: Seq<u8>, n: nat)
    requires
        text::is_first_at(line + crlf(), crlf(), line.len() as int),
        valid_utf8(line),
        text::number(size_token(decode_utf8(line)), 16, usize::MAX as nat) == Some(n),
        0 < n,
        n + 2 <= usize::MAX,
    ensures
        dechunked(line + crlf() + tail) == (if tail.len() < n + 2 {
            Dechunked::Fault(short_chunk(n + 2, tail.len()))
        } else if tail.subrange(n as int, n + 2int) != crlf() {
            Dechunked::Fault("Malformed chunk framing (missing trailing CRLF)"@)
        } else {
            dechunked(tail.skip(n + 2int)).after(tail.take(n as int))
        }),
{
    let body = line + crlf() + tail;
    lemma_first_line(line, tail);
    assert(body.take(line.len() as int) =~= line);
    assert(body.skip(line.len() + 2int) =~= tail);
}

/// A chunk of size zero ends a chunked body, whatever follows it.
pub proof fn law_last_chunk(line: Seq<u8>, rest: Seq<u8>)
    requires
        text::is_first_at(line + crlf(), crlf(), line.len() as int),
        valid_utf8(line),
        text::number(size_token(decode_utf8(line)), 16, usize::MAX as nat) == Some(0nat),
    ensures
        dechunked(line + crlf() + rest) == Dechunked::Data(seq![]),
{
    let body = line + crlf() + rest;
    lemma_first_line(line, rest);
    assert(body.take(line.len() as int) =~= line);
}

/// What follows a line does not move its end.
proof fn lemma_first_line(line: Seq<u8>, tail: Seq<u8>)
    requires
        text::is_first_at(line + crlf(), crlf(), line.len() as int),
    ensures
        text::first_at(line + crlf() + tail, crlf()) == Some(line.len() as int),
{
    let body = line + crlf() + tail;
    let head = line + crlf();
    assert(body.subrange(line.len() as int, line.len() + 2int) =~= crlf());
    assert forall|k: int| 0 <= k < line.len() implies !text::occurs_at(body, crlf(), k) by {
        assert(!text::occurs_at(head, crlf(), k));
        assert(body.subrange(k, k + 2) =~= head.subrange(k, k + 2));
    }
    text::lemma_first_at(body, crlf(), line.len() as int);
}

/// A number in hexadecimal notation, without leading zeros.
pub open spec fn hexadecimal(n: nat) -> Seq<char>
    decreases n,
{
    if n < 16 {
        seq![encoding::hex_digit(n as int)]
    } else {
        hexadecimal(n / 16).push(encoding::hex_digit((n % 16) as int))
    }
}

/// Data as one chunk.
pub open spec fn chunk(data: Seq<u8>) -> Seq<u8> {
    encode_utf8(hexadecimal(data.len())) + crlf() + data + crlf()
}

/// Data as a chunked body: a chunk for each part, then the last chunk.
pub open spec fn chunked(parts: Seq<Seq<u8>>) -> Seq<u8>
    decreases parts.len(),
{
    if parts.len() == 0 {
        encode_utf8(hexadecimal(0)) + crlf() + crlf()
    } else {
        chunk(parts.first()) + chunked(parts.drop_first())
    }
}

/// The parts one after the other.
pub open spec fn joined(parts: Seq<Seq<u8>>) -> Seq<u8>
    decreases parts.len(),
{
    if parts.len() == 0 {
        seq![]
    } else {
        parts.first() + joined(parts.drop_first())
    }
}

spec fn hex_digits_only(s: Seq<char>) -> bool {
    forall|i: int| 0 <= i < s.len() ==> '0' <= #[trigger] s[i] <= '9' || 'a' <= s[i] <= 'f'
}

proof fn lemma_hexadecimal(n: nat)
    ensures
        hexadecimal(n).len() > 0,
        hex_digits_only(hexadecimal(n)),
        text::digits_value(hexadecimal(n), 16) == Some(n),
    decreases n,
{
    let s = hexadecimal(n);
    if n < 16 {
        assert(s.drop_last() =~= Seq::<char>::empty());
        assert(s.last() == encoding::hex_digit(n as int));
        assert(text::digits_value(s.drop_last(), 16) == Some(0nat));
        assert(text::digit_value(encoding::hex_digit(n as int), 16) == Some(n));
    } else {
        lemma_hexadecimal(n / 16);
        assert(s.drop_last() =~= hexadecimal(n / 16));
        assert(s.last() == encoding::hex_digit((n % 16) as int));
        assert(text::digit_value(encoding::hex_digit((n % 16) as int), 16) == Some(n % 16));
        assert(n == (n / 16) * 16 + n % 16);
    }
}

/// A line with a size in hexadecimal digits is read as that size.
proof fn lemma_size_line(n: nat)
    requires
        n <= usize::MAX,
    ensures
        ({
            let line = encode_utf8(hexadecimal(n));
            &&& text::is_first_at(line + crlf(), crlf(), line.len() as int)
            &&& valid_utf8(line)
            &&& text::number(size_token(decode_utf8(line)), 16, usize::MAX as nat) == Some(n)
        }),
{
    let s = hexadecimal(n);
    let line = encode_utf8(s);
    lemma_hexadecimal(n);
    encode_utf8_valid_utf8(s);
    encode_utf8_decode_utf8(s);
    assert(is_ascii_chars(s));
    is_ascii_chars_encode_utf8(s);
    let head = line + crlf();
    assert(head.subrange(line.len() as int, line.len() + 2int) =~= crlf());
    assert forall|k: int| 0 <= k < line.len() implies !text::occurs_at(head, crlf(), k) by {
        assert(head.subrange(k, k + 2)[0] == line[k]);
        assert(line[k] == s[k] as u8);
    }
    assert(!s.contains(';'));
    assert(text::first_place(s, ';') is None);
    assert(text::trimmed(s) == s);
}

/// A body in chunks gives back the parts, one after the other.
pub proof fn law_chunked_round_trip(parts: Seq<Seq<u8>>)
    requires
        forall|i: int|
            0 <= i < parts.len() ==> 0 < (#[trigger] parts[i]).len() && parts[i].len() + 2
                <= usize::MAX,
    ensures
        dechunked(chunked(parts)) == Dechunked::Data(joined(parts)),
    decreases parts.len(),
{
    if parts.len() == 0 {
        lemma_size_line(0);
        law_last_chunk(encode_utf8(hexadecimal(0)), crlf());
    } else {
        let data = parts.first();
        assert(data == parts[0]);
        let tail = parts.drop_first();
        assert forall|i: int| 0 <= i < tail.len() implies 0 < (#[trigger] tail[i]).len()
            && tail[i].len() + 2 <= usize::MAX by {
            assert(tail[i] == parts[i + 1]);
        }
        law_chunked_round_trip(tail);
        lemma_size_line(data.len());
        law_chunk(encode_utf8(hexadecimal(data.len())), data, chunked(tail));
    }
}

/// In headers of ASCII text, chunks are announced by the words for it in any case.
pub proof fn law_announcement_ignores_case(head: Seq<char>)
    requires
        is_ascii_chars(head),
    ensures
        announces_chunks(encode_utf8(head)) == text::occurs(
            text::ascii_lowered(head),
            "transfer-encoding: chunked"@,
        ),
{
    encode_utf8_valid_utf8(head);
    encode_utf8_decode_utf8(head);
}

/// A response whose headers announce chunks gives back the text of the parts.
pub proof fn law_chunked_response(head: Seq<u8>, parts: Seq<Seq<u8>>)
    requires
        text::is_first_at(head + blank_line(), blank_line(), head.len() as int),
        announces_chunks(head),
        forall|i: int|
            0 <= i < parts.len() ==> 0 < (#[trigger] parts[i]).len() && parts[i].len() + 2
                <= usize::MAX,
    ensures
        response(head + blank_line() + chunked(parts)) == Response::Body(
            encoding::lossy(joined(parts)),
        ),
{
    lemma_first_blank_line(head, chunked(parts));
    let bytes = head + blank_line() + chunked(parts);
    assert(bytes.take(head.len() as int) =~= head);
    assert(bytes.skip(head.len() + 4int) =~= chunked(parts));
    law_chunked_round_trip(parts);
}

/// A response without chunks gives back the text that its body encodes.
pub proof fn law_plain_response(head: Seq<u8>, body: Seq<char>)
    requires
        text::is_first_at(head + blank_line(), blank_line(), head.len() as int),
        !announces_chunks(head),
    ensures
        response(head + blank_line() + encode_utf8(body)) == Response::Body(body),
{
    let raw = encode_utf8(body);
    lemma_first_blank_line(head, raw);
    let bytes = head + blank_line() + raw;
    assert(bytes.take(head.len() as int) =~= head);
    assert(bytes.skip(head.len() + 4int) =~= raw);
    encode_utf8_valid_utf8(body);
    encode_utf8_decode_utf8(body);
}

proof fn lemma_first_blank_line(head: Seq<u8>, tail: Seq<u8>)
    requires
        text::is_first_at(head + blank_line(), blank_line(), head.len() as int),
    ensures
        text::first_at(head + blank_line() + tail, blank_line()) == Some(head.len() as int),
{
    let bytes = head + blank_line() + tail;
    let front = head + blank_line();
    assert(bytes.subrange(head.len() as int, head.len() + 4int) =~= blank_line());
    assert forall|k: int| 0 <= k < head.len() implies !text::occurs_at(
        bytes,
        blank_line(),
        k,
    ) by {
        assert(!text::occurs_at(front, blank_line(), k));
        assert(bytes.subrange(k, k + 4) =~= front.subrange(k, k + 4));
    }
    text::lemma_first_at(bytes, blank_line(), head.len() as int);
}

/// A text begins with an opening brace or bracket and ends with the closing one of
/// the same kind.
pub open spec fn is_paired(part: Seq<char>) -> bool {
    &&& part.len() >= 2
    &&& (part.first() == '{' && part.last() == '}') || (part.first() == '[' && part.last()
        == ']')
}

/// A pair stands in the text, from the first place of one to the last of the other.
proof fn lemma_pair_in(t: Seq<char>, opener: char, closer: char)
    ensures
        pair_in(t, opener, closer) matches Some((a, b)) ==> a < b && text::is_first(t, opener, a)
            && text::is_last(t, closer, b),
{
    text::lemma_first_place_holds(t, opener);
    text::lemma_last_place_holds(t, closer);
}

/// Two places that are the first of one and the last of the other make the pair.
proof fn lemma_is_pair(t: Seq<char>, opener: char, closer: char, a: int, b: int)
    requires
        text::is_first(t, opener, a),
        text::is_last(t, closer, b),
        a < b,
    ensures
        pair_in(t, opener, closer) == Some((a, b)),
{
    text::lemma_first_place(t, opener, a);
    text::lemma_last_place(t, closer, b);
}

/// What is cut out of a text begins and ends with a brace and a brace, or with a
/// bracket and a bracket, and stands in the text as it is.
pub proof fn law_json_boundary_is_a_part(payload: Seq<char>)
    ensures
        json_boundary(payload) matches Ok(part) ==> is_paired(part) && text::occurs(
            payload,
            part,
        ),
{
    let t = text::without_pads(payload, true);
    lemma_pair_in(t, '{', '}');
    lemma_pair_in(t, '[', ']');
    if let Ok(part) = json_boundary(payload) {
        let k = text::lemma_without_pads_is_a_part(payload, true);
        let (a, b) = json_pair(t)->0;
        assert forall|i: int| 0 <= i < part.len() implies payload[k + a + i]
            == #[trigger] part[i] by {
            assert(t[a + i] == payload.subrange(k, k + t.len())[a + i]);
        }
        assert(payload.subrange(k + a, k + a + part.len()) =~= part);
        assert(text::occurs_at(payload, part, k + a));
    }
}

/// A pair is found whatever stands round it that neither opens nor closes it once
/// more, nor stands round it as the other kind of pair.
pub proof fn law_text_around_does_not_matter(
    before: Seq<char>,
    part: Seq<char>,
    behind: Seq<char>,
)
    requires
        is_paired(part),
        !before.contains('{'),
        !behind.contains('}'),
        part.first() == '{' ==> !before.contains('[') || !behind.contains(']'),
        part.first() == '[' ==> !before.contains('[') && !behind.contains(']'),
    ensures
        json_boundary(before + part + behind) == Ok::<Seq<char>, Seq<char>>(part),
{
    let payload = before + part + behind;
    let t = text::without_pads(payload, true);
    let k = text::lemma_without_pads_is_a_part(payload, true);
    let first = before.len() as int;
    let last = first + part.len() - 1;
    assert(payload[first] == part.first());
    assert(payload[last] == part.last());
    assert(k <= first && last < k + t.len());
    let a = first - k;
    let b = last - k;
    assert forall|i: int| 0 <= i < t.len() implies #[trigger] t[i] == payload[k + i] by {
        assert(t[i] == payload.subrange(k, k + t.len())[i]);
    }
    assert forall|i: int| 0 <= i < a implies before.contains(#[trigger] t[i]) by {
        assert(t[i] == before[k + i]);
    }
    assert forall|i: int| b < i < t.len() implies behind.contains(#[trigger] t[i]) by {
        assert(t[i] == behind[k + i - last - 1]);
    }
    lemma_pair_in(t, '{', '}');
    lemma_pair_in(t, '[', ']');
    text::lemma_first_place_holds(t, '{');
    if part.first() == '{' {
        lemma_is_pair(t, '{', '}', a, b);
    } else {
        lemma_is_pair(t, '[', ']', a, b);
    }
    assert(json_pair(t) == Some((a, b)));
    assert(t.subrange(a, b + 1) =~= part);
}

/// Cutting a second time changes nothing.
pub proof fn law_json_boundary_is_stable(payload: Seq<char>)
    ensures
        json_boundary(payload) matches Ok(part) ==> json_boundary(part) == Ok::<
            Seq<char>,
            Seq<char>,
        >(part),
{
    law_json_boundary_is_a_part(payload);
    if let Ok(part) = json_boundary(payload) {
        let none = Seq::<char>::empty();
        law_text_around_does_not_matter(none, part, none);
        assert(none + part + none =~= part);
    }
}

/// A text that is an object or an array but for white space and NULs round it is
/// found whole.
pub proof fn law_json_is_found_whole(payload: Seq<char>)
    requires
        is_paired(text::without_pads(payload, true)),
    ensures
        json_boundary(payload) == Ok::<Seq<char>, Seq<char>>(text::without_pads(payload, true)),
{
    let t = text::without_pads(payload, true);
    let none = Seq::<char>::empty();
    law_text_around_does_not_matter(none, t, none);
    assert(none + t + none =~= t);
    assert(text::without_pads(t, true) == t);
}

/// The headers but those named `Connection`.
pub open spec fn without_connection(headers: Seq<(Seq<char>, Seq<char>)>) -> Seq<
    (Seq<char>, Seq<char>),
>
    decreases headers.len(),
{
    if headers.len() == 0 {
        seq![]
    } else if alike(headers.last().0, "connection"@) {
        without_connection(headers.drop_last())
    } else {
        without_connection(headers.drop_last()).push(headers.last())
    }
}

/// A `Connection` header changes nothing: every request asks the server to close.
pub proof fn law_connection_is_always_closed(
    url: weburl::UrlView,
    method: Seq<char>,
    body: Option<Seq<char>>,
    headers: Seq<(Seq<char>, Seq<char>)>,
)
    ensures
        request(url, method, body, headers) == request(
            url,
            method,
            body,
            without_connection(headers),
        ),
{
    lemma_without_connection(headers);
}

proof fn lemma_without_connection(headers: Seq<(Seq<char>, Seq<char>)>)
    ensures
        header_lines(headers) == header_lines(without_connection(headers)),
    decreases headers.len(),
{
    if headers.len() > 0 {
        lemma_without_connection(headers.drop_last());
        if alike(headers.last().0, "connection"@) {
            assert(header_lines(headers) =~= header_lines(headers.drop_last()));
        } else {
            let kept = without_connection(headers.drop_last());
            assert(kept.push(headers.last()).drop_last() =~= kept);
        }
    }
}

/// The size of a chunk is what stands before a semicolon in its first line, or in the
/// whole line where there is none, without the white space round it; what an extension
/// says behind the semicolon does not matter.
pub proof fn law_size_stands_before_the_extension(
    before: Seq<char>,
    size: Seq<char>,
    behind: Seq<char>,
    extension: Seq<char>,
)
    requires
        forall|i: int| 0 <= i < before.len() ==> text::white_space(#[trigger] before[i]),
        forall|i: int| 0 <= i < behind.len() ==> text::white_space(#[trigger] behind[i]),
        forall|i: int| 0 <= i < size.len() ==> #[trigger] size[i] != ';',
        size.len() > 0 ==> !text::white_space(size.first()) && !text::white_space(size.last()),
    ensures
        size_token(before + size + behind) == size,
        size_token(before + size + behind + seq![';'] + extension) == size,
{
    let part = before + size + behind;
    let line = part + seq![';'] + extension;
    assert forall|i: int| 0 <= i < before.len() implies text::pads(#[trigger] before[i], false) by {
        assert(text::white_space(before[i]));
    }
    assert forall|i: int| 0 <= i < behind.len() implies text::pads(#[trigger] behind[i], false) by {
        assert(text::white_space(behind[i]));
    }
    text::law_trimming_keeps_what_stands_inside(before, size, behind, false);
    assert forall|i: int| 0 <= i < part.len() implies part[i] != ';' by {
        if i < before.len() {
            assert(part[i] == before[i]);
            assert(text::white_space(before[i]));
        } else if i < before.len() + size.len() {
            assert(part[i] == size[i - before.len()]);
        } else {
            assert(part[i] == behind[i - before.len() - size.len()]);
            assert(text::white_space(behind[i - before.len() - size.len()]));
        }
    }
    text::law_places(part, ';');
    text::law_places(line, ';');
    assert(line[part.len() as int] == ';');
    let k = text::first_place(line, ';')->0;
    if k < part.len() {
        assert(line[k] == part[k]);
    }
    assert(k == part.len());
    assert(line.take(k) =~= part);
}

/// A chunked body that stops before a size, or within the line with one, is refused, and
/// nothing of it is handed on.
pub proof fn law_missing_size_is_refused(n: nat)
    ensures
        dechunked(seq![]) == Dechunked::Fault(
            "Incomplete chunked encoding (unexpected EOF before size line)"@,
        ),
        dechunked(encode_utf8(hexadecimal(n))) == Dechunked::Fault(
            "Incomplete chunked encoding (missing CRLF after size)"@,
        ),
{
    let line = encode_utf8(hexadecimal(n));
    lemma_hexadecimal(n);
    assert(is_ascii_chars(hexadecimal(n)));
    is_ascii_chars_encode_utf8(hexadecimal(n));
    assert forall|k: int| !text::occurs_at(line, crlf(), k) by {
        if text::occurs_at(line, crlf(), k) {
            assert(line.subrange(k, k + 2)[0] == line[k]);
            assert(line[k] == hexadecimal(n)[k] as u8);
        }
    }
}

/// A chunk that ends before all of its data and the end of the line behind it, or behind
/// whose data something else stands, is refused, and nothing of the body is handed on.
pub proof fn law_broken_chunk_is_refused(data: Seq<u8>, cut: nat, rest: Seq<u8>)
    requires
        0 < data.len(),
        data.len() + 2 <= usize::MAX,
        cut < data.len() + 2,
        rest.len() >= 2,
        rest.take(2) != seq![13u8, 10u8],
    ensures
        dechunked(
            encode_utf8(hexadecimal(data.len())) + seq![13u8, 10u8] + (data + seq![
                13u8,
                10u8,
            ]).take(cut as int),
        ) == Dechunked::Fault(
            "Incomplete chunk body (need "@ + text::decimal(data.len() + 2)
                + " bytes incl. CRLF, have "@ + text::decimal(cut) + ")"@,
        ),
        dechunked(encode_utf8(hexadecimal(data.len())) + seq![13u8, 10u8] + data + rest)
            == Dechunked::Fault("Malformed chunk framing (missing trailing CRLF)"@),
{
    let line = encode_utf8(hexadecimal(data.len()));
    let n = data.len() as int;
    assert(crlf() =~= seq![13u8, 10u8]);
    lemma_size_line(data.len());
    let short = (data + crlf()).take(cut as int);
    lemma_dechunk_line(line, short, data.len());
    lemma_dechunk_line(line, data + rest, data.len());
    assert(line + crlf() + data + rest =~= line + crlf() + (data + rest));
    assert((data + rest).subrange(n, n + 2) =~= rest.take(2));
}

/// A response without a blank line is refused; one without chunks has as its body
/// everything behind the first blank line, and one with chunks the data of the chunks,
/// read as text in which what is no UTF-8 is patched.
pub proof fn law_body_follows_the_head(head: Seq<u8>, rest: Seq<u8>, bytes: Seq<u8>)
    requires
        text::is_first_at(
            head + seq![13u8, 10u8, 13u8, 10u8],
            seq![13u8, 10u8, 13u8, 10u8],
            head.len() as int,
        ),
        forall|k: int| !text::occurs_at(bytes, seq![13u8, 10u8, 13u8, 10u8], k),
    ensures
        response(bytes) == Response::Fault("Incomplete HTTP response (no header/body delimiter)"@),
        !announces_chunks(head) ==> response(head + seq![13u8, 10u8, 13u8, 10u8] + rest)
            == Response::Body(encoding::lossy(rest)),
        announces_chunks(head) ==> response(head + seq![13u8, 10u8, 13u8, 10u8] + rest) == (
        match dechunked(rest) {
            Dechunked::Data(data) => Response::Body(encoding::lossy(data)),
            Dechunked::Fault(e) => Response::Fault(e),
            Dechunked::Overflow => Response::Overflow,
        }),
{
    assert(blank_line() =~= seq![13u8, 10u8, 13u8, 10u8]);
    lemma_first_blank_line(head, rest);
    let all = head + blank_line() + rest;
    assert(all.take(head.len() as int) =~= head);
    assert(all.skip(head.len() + 4int) =~= rest);
}

/// A text is refused only where neither a brace nor a bracket opens and closes in it
/// again, or only a bracket does and a brace opens before it.
pub proof fn law_pair_is_found(payload: Seq<char>, i: int, j: int)
    requires
        0 <= i < j < payload.len(),
        (payload[i] == '{' && payload[j] == '}') || (payload[i] == '[' && payload[j] == ']'
            && !payload.contains('{')),
    ensures
        json_boundary(payload) is Ok,
{
    let t = text::without_pads(payload, true);
    let k = text::lemma_without_pads_is_a_part(payload, true);
    assert(k <= i && j < k + t.len());
    let a = i - k;
    let b = j - k;
    assert(t[a] == payload.subrange(k, k + t.len())[a]);
    assert(t[b] == payload.subrange(k, k + t.len())[b]);
    let (opener, closer) = (payload[i], payload[j]);
    assert(t.contains(opener) && t.contains(closer));
    text::law_places(t, '{');
    text::law_places(t, '}');
    text::law_places(t, '[');
    text::law_places(t, ']');
    if opener == '[' {
        assert forall|x: int| 0 <= x < t.len() implies t[x] != '{' by {
            assert(t[x] == payload.subrange(k, k + t.len())[x]);
            assert(payload.contains(payload[k + x]));
        }
    }
}

/// A text in which nothing opens is refused.
pub proof fn law_no_pair_is_refused(payload: Seq<char>)
    requires
        !payload.contains('{'),
        !payload.contains('['),
    ensures
        json_boundary(payload) == Err::<Seq<char>, Seq<char>>(
            "Could not locate JSON boundaries in response body"@,
        ),
{
    let t = text::without_pads(payload, true);
    let k = text::lemma_without_pads_is_a_part(payload, true);
    text::law_places(t, '{');
    text::law_places(t, '[');
    assert forall|x: int| 0 <= x < t.len() implies t[x] != '{' && t[x] != '[' by {
        assert(t[x] == payload.subrange(k, k + t.len())[x]);
        assert(payload.contains(payload[k + x]));
    }
}

/// The lines for headers stand in their order, each with its name and its value as they
/// are; one named `Connection`, in any case, gets none.
pub proof fn law_header_lines(
    headers: Seq<(Seq<char>, Seq<char>)>,
    name: Seq<char>,
    value: Seq<char>,
)
    ensures
        header_lines(seq![]) == Seq::<char>::empty(),
        text::ascii_lowered(name) == "connection"@ ==> header_lines(headers.push((name, value)))
            == header_lines(headers),
        text::ascii_lowered(name) != "connection"@ ==> header_lines(headers.push((name, value)))
            == header_lines(headers) + name + ": "@ + value + "\r\n"@,
{
    let all = headers.push((name, value));
    assert(all.drop_last() =~= headers);
    reveal_strlit("connection");
    assert(text::ascii_lowered("connection"@) =~= "connection"@);
    assert(header_lines(headers) + Seq::<char>::empty() =~= header_lines(headers));
    assert(header_lines(headers) + (name + ": "@ + value + "\r\n"@) =~= header_lines(headers)
        + name + ": "@ + value + "\r\n"@);
}

/// A request is the method, the path, which is a slash where the URL has none, with the
/// query behind a question mark, the host, the lines for the headers, the wish to close,
/// and, where there is a body, its length in bytes and, behind a blank line, the body as
/// it is.
pub proof fn law_request_is_written_out(
    url: weburl::UrlView,
    host: Seq<char>,
    method: Seq<char>,
    body: Seq<char>,
    digits: Seq<char>,
    headers: Seq<(Seq<char>, Seq<char>)>,
)
    requires
        url.host == Some(host),
        digits.len() > 0,
        digits.len() > 1 ==> digits[0] != '0',
        text::digits_value(digits, 10) == Some(encode_utf8(body).len()),
    ensures
        ({
            let path = if url.path.len() == 0 {
                "/"@
            } else {
                url.path
            };
            let target = if url.query is Some {
                path + "?"@ + url.query->0
            } else {
                path
            };
            let start = method + " "@ + target + " HTTP/1.1\r\nHost: "@ + host
                + "\r\nUser-Agent: teeify-enclave/1\r\n"@ + header_lines(headers)
                + "Connection: close\r\n"@;
            &&& request(url, method, None, headers) == start + "\r\n"@
            &&& request(url, method, Some(body), headers) == start + "Content-Length: "@ + digits
                + "\r\n"@ + "\r\n"@ + body
        }),
{
    text::law_decimal_is_unique(digits, encode_utf8(body).len());
    let path = if url.path.len() == 0 {
        "/"@
    } else {
        url.path
    };
    let target = if url.query is Some {
        path + "?"@ + url.query->0
    } else {
        path
    };
    assert(request_target(url) =~= target);
    let start = method + " "@ + target + " HTTP/1.1\r\nHost: "@ + host
        + "\r\nUser-Agent: teeify-enclave/1\r\n"@ + header_lines(headers)
        + "Connection: close\r\n"@;
    assert(request(url, method, None, headers) =~= start + "\r\n"@);
    assert(request(url, method, Some(body), headers) =~= start + "Content-Length: "@ + digits
        + "\r\n"@ + "\r\n"@ + body);
}

/// The hexadecimal notation of a number reads back as the number.
pub proof fn law_hexadecimal_reads_back(n: nat, max: nat)
    requires
        n <= max,
    ensures
        text::number(hexadecimal(n), 16, max) == Some(n),
{
    lemma_hexadecimal(n);
    assert(hexadecimal(n)[0] != '+');
}

/// Parts are joined in their order, with nothing between them.
pub proof fn law_joined(parts: Seq<Seq<u8>>, last: Seq<u8>)
    ensures
        joined(seq![]) == Seq::<u8>::empty(),
        joined(parts.push(last)) == joined(parts) + last,
    decreases parts.len(),
{
    let all = parts.push(last);
    if parts.len() == 0 {
        assert(all.first() == last);
        assert(all.drop_first() =~= Seq::<Seq<u8>>::empty());
        assert(joined(all.drop_first()) =~= Seq::<u8>::empty());
        assert(joined(all) =~= joined(parts) + last);
    } else {
        let tail = parts.drop_first();
        law_joined(tail, last);
        assert(all.drop_first() =~= tail.push(last));
        assert(all.first() == parts.first());
        assert(joined(all) =~= joined(parts) + last);
    }
}

/// Where a brace opens before any bracket does, and none closes, the text is refused,
/// whatever brackets follow.
pub proof fn law_unclosed_brace_is_refused(before: Seq<char>, rest: Seq<char>)
    requires
        !before.contains('['),
        !before.contains('}'),
        !rest.contains('}'),
    ensures
        json_boundary(before + seq!['{'] + rest) is Err,
{
    let payload = before + seq!['{'] + rest;
    let at = before.len() as int;
    let t = text::without_pads(payload, true);
    let k = text::lemma_without_pads_is_a_part(payload, true);
    assert(payload[at] == '{');
    assert(k <= at < k + t.len());
    assert forall|x: int| 0 <= x < t.len() implies #[trigger] t[x] == payload[k + x] by {
        assert(t[x] == payload.subrange(k, k + t.len())[x]);
    }
    assert(t[at - k] == '{');
    assert(t.contains('{'));
    assert forall|x: int| 0 <= x < t.len() implies t[x] != '}' by {
        if k + x < at {
            assert(before.contains(before[k + x]));
        } else if k + x > at {
            assert(rest.contains(rest[k + x - at - 1]));
        }
    }
    assert forall|x: int| 0 <= x < at - k implies t[x] != '[' by {
        assert(before.contains(before[k + x]));
    }
    text::law_places(t, '{');
    text::law_places(t, '}');
    text::law_places(t, '[');
    text::law_places(t, ']');
}

/// A size line that is no text, or whose size is no number in hexadecimal digits, is
/// refused with that line's size in quotes; a size whose chunk has no end in the address
/// space is told apart from both.
pub proof fn law_bad_size_is_refused(line: Seq<u8>, rest: Seq<u8>)
    requires
        text::is_first_at(line + seq![13u8, 10u8], seq![13u8, 10u8], line.len() as int),
    ensures
        ({
            let token = size_token(decode_utf8(line));
            let result = dechunked(line + seq![13u8, 10u8] + rest);
            let size = text::number(token, 16, usize::MAX as nat);
            &&& !valid_utf8(line) ==> result == Dechunked::Fault(
                "Invalid UTF-8 in chunk-size line"@,
            )
            &&& valid_utf8(line) && size is None ==> result == Dechunked::Fault(
                "Invalid chunk size: "@ + encoding::quoted(token),
            )
            &&& valid_utf8(line) && size is Some && size->0 + 2 > usize::MAX ==> result is Overflow
        }),
{
    assert(crlf() =~= seq![13u8, 10u8]);
    let body = line + crlf() + rest;
    lemma_first_line(line, rest);
    assert(body.take(line.len() as int) =~= line);
}

} // verus!
