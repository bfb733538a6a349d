use vstd::prelude::*;
use vstd::string::is_ascii;
use crate::text::{
    ascii, copy_range, find_byte, find_byte_from, is_ws, line_end, line_end_from, range_is,
    lemma_split_len, skip_ws, skip_ws_from, split, split_path, token_end, token_end_from, trim, trim_range,
    views, COLON, NEWLINE,
};

verus! {

pub const CR: u8 = 13;

#[derive(PartialEq, Eq, Structural, Clone, Copy, Debug)]
pub enum Method {
    Get,
    Post,
    Unknown,
}

#[derive(PartialEq, Eq, Structural, Clone, Copy, Debug)]
pub enum ParseError {
    /// The stream ended before a single byte of the start line came.
    Truncated,
}

/// One request: its method, the pieces of its path after the leading slash,
/// and its header lines as (name, value) pairs in the order received.
#[derive(Debug)]
pub struct Request {
    pub method: Method,
    pub paths: Vec<Vec<u8>>,
    pub headers: Vec<(Vec<u8>, Vec<u8>)>,
}

pub struct RequestView {
    pub method: Method,
    pub paths: Seq<Seq<u8>>,
    pub headers: Seq<(Seq<u8>, Seq<u8>)>,
}

pub open spec fn pair_views(v: Seq<(Vec<u8>, Vec<u8>)>) -> Seq<(Seq<u8>, Seq<u8>)> {
    v.map_values(|p: (Vec<u8>, Vec<u8>)| (p.0@, p.1@))
}

impl View for Request {
    type V = RequestView;

    open spec fn view(&self) -> RequestView {
        RequestView {
            method: self.method,
            paths: views(self.paths@),
            headers: pair_views(self.headers@),
        }
    }
}

/// The value of the first header named `name`: names compare byte for byte,
/// and a later line with the same name does not override an earlier one.
pub open spec fn header_value(hs: Seq<(Seq<u8>, Seq<u8>)>, name: Seq<u8>) -> Option<Seq<u8>>
    decreases hs.len(),
{
    if hs.len() == 0 {
        None
    } else if hs[0].0 == name {
        Some(hs[0].1)
    } else {
        header_value(hs.drop_first(), name)
    }
}

pub open spec fn method_of(tok: Seq<u8>) -> Method {
    if tok == ascii("GET"@) {
        Method::Get
    } else if tok == ascii("POST"@) {
        Method::Post
    } else {
        Method::Unknown
    }
}

/// A header line split at its first colon: the name as it stands, the value
/// without surrounding whitespace. A line without a colon gives nothing.
pub open spec fn header_of(line: Seq<u8>) -> Option<(Seq<u8>, Seq<u8>)> {
    let c = find_byte(line, COLON, 0);
    if c >= line.len() {
        None
    } else {
        Some((line.subrange(0, c), trim(line.subrange(c + 1, line.len() as int))))
    }
}

pub open spec fn opt_seq<A>(o: Option<A>) -> Seq<A> {
    match o {
        Some(a) => seq![a],
        None => Seq::empty(),
    }
}

pub open spec fn is_blank_line(line: Seq<u8>) -> bool {
    line == seq![CR, NEWLINE]
}

/// The headers in the lines of `s` from the line that starts at `start`,
/// scanning from `i`, and whether a blank line ended them (else the bytes
/// ran out).
pub open spec fn headers_from(s: Seq<u8>, start: int, i: int) -> (Seq<(Seq<u8>, Seq<u8>)>, bool)
    decreases s.len() - i,
{
    if i >= s.len() {
        if start < s.len() {
            (opt_seq(header_of(s.subrange(start, s.len() as int))), false)
        } else {
            (Seq::empty(), false)
        }
    } else if s[i] == NEWLINE {
        let line = s.subrange(start, i + 1);
        if is_blank_line(line) {
            (Seq::empty(), true)
        } else {
            let rest = headers_from(s, i + 1, i + 1);
            (opt_seq(header_of(line)) + rest.0, rest.1)
        }
    } else {
        headers_from(s, start, i + 1)
    }
}

/// Where the method and the path stand in the start line, if both are there.
pub open spec fn path_token(line: Seq<u8>) -> (int, int) {
    let method_lo = skip_ws(line, 0);
    let method_hi = token_end(line, method_lo);
    let path_lo = skip_ws(line, method_hi);
    (path_lo, token_end(line, path_lo))
}

pub open spec fn start_line(s: Seq<u8>) -> Seq<u8> {
    s.subrange(0, line_end(s, 0))
}

pub open spec fn has_path(s: Seq<u8>) -> bool {
    path_token(start_line(s)).0 < start_line(s).len()
}

pub open spec fn unknown_request() -> RequestView {
    RequestView { method: Method::Unknown, paths: Seq::empty(), headers: Seq::empty() }
}

/// The request that a head of bytes holds. The start line runs to the first
/// line feed; its first two whitespace-separated tokens are method and path.
/// Header lines follow up to a blank line or the end of the bytes.
pub open spec fn parse_request(s: Seq<u8>) -> Result<RequestView, ParseError> {
    if s.len() == 0 {
        Err(ParseError::Truncated)
    } else if !has_path(s) {
        Ok(unknown_request())
    } else {
        let line = start_line(s);
        let method_lo = skip_ws(line, 0);
        let (path_lo, path_hi) = path_token(line);
        let e0 = line_end(s, 0);
        Ok(RequestView {
            method: method_of(line.subrange(method_lo, token_end(line, method_lo))),
            paths: split(line.subrange(path_lo, path_hi)).drop_first(),
            headers: headers_from(s, e0, e0).0,
        })
    }
}

/// Whether the bytes hold a whole head, so that no more lines are to be read:
/// a start line with no path, or a blank line after the headers.
pub open spec fn head_complete(s: Seq<u8>) -> bool {
    s.len() > 0 && line_end(s, 0) > 0 && s[line_end(s, 0) - 1] == NEWLINE && (!has_path(s)
        || headers_from(s, line_end(s, 0), line_end(s, 0)).1)
}

/// Reads the header line `s[lo..hi]`.
fn parse_header(s: &[u8], lo: usize, hi: usize) -> (r: Option<(Vec<u8>, Vec<u8>)>)
    requires
        lo <= hi <= s@.len(),
    ensures
        opt_seq(r).map_values(|p: (Vec<u8>, Vec<u8>)| (p.0@, p.1@)) == opt_seq(
            header_of(s@.subrange(lo as int, hi as int)),
        ),
{
    let line = copy_range(s, lo, hi);
    let c = find_byte_from(line.as_slice(), COLON, 0);
    if c >= line.len() {
        assert(opt_seq::<(Vec<u8>, Vec<u8>)>(None).map_values(|p: (Vec<u8>, Vec<u8>)| (p.0@, p.1@)) =~= Seq::empty());
        None
    } else {
        let name = copy_range(line.as_slice(), 0, c);
        let value = trim_range(line.as_slice(), c + 1, line.len());
        let r = Some((name, value));
        assert(opt_seq(r).map_values(|p: (Vec<u8>, Vec<u8>)| (p.0@, p.1@)) =~= seq![(name@, value@)]);
        r
    }
}

/// Reads the header lines that start at `e0`; says whether a blank line ended them.
fn read_headers(s: &[u8], e0: usize) -> (r: (Vec<(Vec<u8>, Vec<u8>)>, bool))
    requires
        e0 <= s@.len(),
    ensures
        pair_views(r.0@) == headers_from(s@, e0 as int, e0 as int).0,
        r.1 == headers_from(s@, e0 as int, e0 as int).1,
{
    let ghost whole = headers_from(s@, e0 as int, e0 as int);
    let mut hs: Vec<(Vec<u8>, Vec<u8>)> = Vec::new();
    let mut start = e0;
    let mut i = e0;
    while i < s.len()
        invariant
            e0 <= start <= i <= s@.len(),
            whole == headers_from(s@, e0 as int, e0 as int),
            pair_views(hs@) + headers_from(s@, start as int, i as int).0 == whole.0,
            headers_from(s@, start as int, i as int).1 == whole.1,
        decreases s@.len() - i,
    {
        if s[i] == NEWLINE {
            if i - start == 1 && s[start] == CR {
                assert(s@.subrange(start as int, i + 1) =~= seq![CR, NEWLINE]);
                assert(is_blank_line(s@.subrange(start as int, i + 1)));
                assert(headers_from(s@, start as int, i as int) == (Seq::<(Seq<u8>, Seq<u8>)>::empty(), true));
                assert(pair_views(hs@) =~= pair_views(hs@) + Seq::<(Seq<u8>, Seq<u8>)>::empty());
                return (hs, true);
            }
            assert(!is_blank_line(s@.subrange(start as int, i + 1))) by {
                if is_blank_line(s@.subrange(start as int, i + 1)) {
                    assert(s@.subrange(start as int, i + 1)[0] == s@[start as int]);
                }
            }
            let h = parse_header(s, start, i + 1);
            let ghost before = pair_views(hs@);
            if let Some(p) = h {
                hs.push(p);
                assert(pair_views(hs@) =~= before + opt_seq(header_of(s@.subrange(start as int, i + 1))));
            } else {
                assert(pair_views(hs@) =~= before + opt_seq(header_of(s@.subrange(start as int, i + 1))));
            }
            assert(pair_views(hs@) + headers_from(s@, i + 1, i + 1).0 =~= before + headers_from(s@, start as int, i as int).0);
            start = i + 1;
        }
        i += 1;
    }
    if start < s.len() {
        let h = parse_header(s, start, s.len());
        let ghost before = pair_views(hs@);
        if let Some(p) = h {
            hs.push(p);
        }
        assert(pair_views(hs@) =~= before + headers_from(s@, start as int, i as int).0);
    } else {
        assert(pair_views(hs@) =~= pair_views(hs@) + headers_from(s@, start as int, i as int).0);
    }
    (hs, false)
}

/// Where the start line ends, and where its first and second tokens stand.
fn start_tokens(s: &[u8]) -> (r: (usize, usize, usize, usize, usize))
    ensures
        r.0 == line_end(s@, 0),
        r.1 == skip_ws(start_line(s@), 0),
        r.2 == token_end(start_line(s@), r.1 as int),
        r.3 == path_token(start_line(s@)).0,
        r.4 == path_token(start_line(s@)).1,
        r.0 <= s@.len(),
        s@.len() > 0 ==> r.0 > 0,
        r.1 <= r.2 <= r.3 <= r.4 <= r.0,
{
    let e0 = line_end_from(s, 0);
    let line = copy_range(s, 0, e0);
    let method_lo = skip_ws_from(line.as_slice(), 0);
    let method_hi = token_end_from(line.as_slice(), method_lo);
    let path_lo = skip_ws_from(line.as_slice(), method_hi);
    let path_hi = token_end_from(line.as_slice(), path_lo);
    (e0, method_lo, method_hi, path_lo, path_hi)
}

fn method_from(s: &[u8], lo: usize, hi: usize) -> (r: Method)
    requires
        lo <= hi <= s@.len(),
    ensures
        r == method_of(s@.subrange(lo as int, hi as int)),
{
    proof {
        reveal_strlit("GET");
        reveal_strlit("POST");
    }
    if range_is(s, lo, hi, "GET") {
        Method::Get
    } else if range_is(s, lo, hi, "POST") {
        Method::Post
    } else {
        Method::Unknown
    }
}

impl Request {
    /// Reads a request from the bytes of its head.
    pub fn new(s: &[u8]) -> (r: Result<Request, ParseError>)
        ensures
            match r {
                Ok(req) => parse_request(s@) == Ok::<RequestView, ParseError>(req@),
                Err(e) => parse_request(s@) == Err::<RequestView, ParseError>(e),
            },
    {
        if s.len() == 0 {
            return Err(ParseError::Truncated);
        }
        let (e0, method_lo, method_hi, path_lo, path_hi) = start_tokens(s);
        if path_lo >= e0 {
            let req = Request { method: Method::Unknown, paths: Vec::new(), headers: Vec::new() };
            assert(req@.paths =~= Seq::empty());
            assert(req@.headers =~= Seq::empty());
            return Ok(req);
        }
        let ghost line = start_line(s@);
        assert(line.subrange(method_lo as int, method_hi as int) =~= s@.subrange(method_lo as int, method_hi as int));
        assert(line.subrange(path_lo as int, path_hi as int) =~= s@.subrange(path_lo as int, path_hi as int));
        let method = method_from(s, method_lo, method_hi);
        let path = copy_range(s, path_lo, path_hi);
        let mut paths = split_path(path.as_slice());
        proof {
            lemma_split_len(path@);
        }
        paths.remove(0);
        let (headers, _) = read_headers(s, e0);
        let req = Request { method, paths, headers };
        assert(req@.paths =~= split(path@).drop_first());
        Ok(req)
    }

    /// Whether the bytes read so far hold the whole head of a request.
    pub fn head_complete(s: &[u8]) -> (r: bool)
        ensures
            r == head_complete(s@),
    {
        if s.len() == 0 {
            return false;
        }
        let (e0, _, _, path_lo, _) = start_tokens(s);
        if s[e0 - 1] != NEWLINE {
            return false;
        }
        if path_lo >= e0 {
            return true;
        }
        let (_, done) = read_headers(s, e0);
        done
    }
}

} // verus!
