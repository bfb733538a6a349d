use vstd::prelude::*;
use crate::request::{header_value, Method, RequestView};
use crate::response::{content_response, root_response};
use crate::route::{head_action, not_found, request_action, ActionView};
use crate::text::{
    ascii, join, lemma_join_split, lemma_split_after, lemma_split_len, lemma_split_no_slash,
    split, SLASH,
};

verus! {

/// The path pieces of a request path, as the parser keeps them.
pub open spec fn segments(path: Seq<u8>) -> Seq<Seq<u8>> {
    split(path).drop_first()
}

pub open spec fn get_request(path: Seq<u8>, headers: Seq<(Seq<u8>, Seq<u8>)>) -> RequestView {
    RequestView { method: Method::Get, paths: segments(path), headers }
}

/// `GET /`, whatever its headers, gets the bare 200 status line and a blank
/// line: no headers, no body.
pub proof fn lemma_get_root(headers: Seq<(Seq<u8>, Seq<u8>)>, files_enabled: bool)
    ensures
        request_action(get_request(ascii("/"@), headers), files_enabled) == ActionView::Reply(
            root_response(),
        ),
        root_response() == ascii("HTTP/1.1 200 Ok\r\n\r\n"@),
{
    reveal_strlit("/");
    let e = Seq::<u8>::empty();
    assert(ascii("/"@) =~= e + seq![SLASH] + e);
    lemma_split_after(e, e);
    lemma_split_no_slash(e);
    assert(segments(ascii("/"@)) =~= seq![e]);
}

/// `GET /echo/` followed by any text answers 200 with that text as the body,
/// its pieces put back together with slashes.
pub proof fn lemma_echo_rejoins(
    rest: Seq<u8>,
    headers: Seq<(Seq<u8>, Seq<u8>)>,
    files_enabled: bool,
)
    ensures
        join(segments(ascii("/echo/"@) + rest).drop_first()) == rest,
        request_action(get_request(ascii("/echo/"@) + rest, headers), files_enabled)
            == ActionView::Reply(content_response(rest)),
{
    reveal_strlit("/echo/");
    reveal_strlit("echo");
    let e = Seq::<u8>::empty();
    let echo = ascii("echo"@);
    let path = ascii("/echo/"@) + rest;
    assert(path =~= e + seq![SLASH] + (echo + seq![SLASH] + rest));
    lemma_split_after(e, echo + seq![SLASH] + rest);
    lemma_split_after(echo, rest);
    lemma_split_len(rest);
    lemma_join_split(rest);
    let segs = segments(path);
    assert(segs =~= seq![echo] + split(rest));
    assert(segs.drop_first() =~= split(rest));
}

/// `GET /echo/s`, for a text `s` without a slash, answers 200 with body `s`
/// and its length in bytes as `Content-Length`.
pub proof fn lemma_echo_piece(piece: Seq<u8>, headers: Seq<(Seq<u8>, Seq<u8>)>, files_enabled: bool)
    requires
        forall|k: int| 0 <= k < piece.len() ==> piece[k] != SLASH,
    ensures
        segments(ascii("/echo/"@) + piece) == seq![ascii("echo"@), piece],
        request_action(get_request(ascii("/echo/"@) + piece, headers), files_enabled)
            == ActionView::Reply(content_response(piece)),
{
    lemma_echo_rejoins(piece, headers, files_enabled);
    reveal_strlit("/echo/");
    reveal_strlit("echo");
    let e = Seq::<u8>::empty();
    let echo = ascii("echo"@);
    let path = ascii("/echo/"@) + piece;
    assert(path =~= e + seq![SLASH] + (echo + seq![SLASH] + piece));
    lemma_split_after(e, echo + seq![SLASH] + piece);
    lemma_split_after(echo, piece);
    lemma_split_no_slash(piece);
    assert(segments(path) =~= seq![echo, piece]);
}

/// `GET /user-agent` answers 200 with the value of the first `User-Agent`
/// header as the body, and not found where there is no such header.
pub proof fn lemma_user_agent(headers: Seq<(Seq<u8>, Seq<u8>)>, files_enabled: bool)
    ensures
        request_action(get_request(ascii("/user-agent"@), headers), files_enabled) == match header_value(
            headers,
            ascii("User-Agent"@),
        ) {
            Some(v) => ActionView::Reply(content_response(v)),
            None => not_found(),
        },
{
    reveal_strlit("/user-agent");
    reveal_strlit("user-agent");
    let e = Seq::<u8>::empty();
    let ua = ascii("user-agent"@);
    assert(ascii("/user-agent"@) =~= e + seq![SLASH] + ua);
    lemma_split_after(e, ua);
    lemma_split_no_slash(ua);
    assert(segments(ascii("/user-agent"@)) =~= seq![ua]);
    reveal_strlit("echo");
    assert(ua.len() == 10);
    assert(ascii("echo"@).len() == 4);
}

/// A `POST /files/...` without a `Content-Length` header gets not found, and
/// no file is touched.
pub proof fn lemma_upload_needs_length(
    rest: Seq<u8>,
    headers: Seq<(Seq<u8>, Seq<u8>)>,
    files_enabled: bool,
)
    requires
        header_value(headers, ascii("Content-Length"@)) is None,
    ensures
        request_action(
            RequestView { method: Method::Post, paths: segments(ascii("/files/"@) + rest), headers },
            files_enabled,
        ) == not_found(),
{
}

/// The action for a request depends on its head bytes and on whether file
/// routes are on, and on nothing else: the same request on two connections is
/// answered alike.
pub proof fn lemma_same_head_same_action(a: Seq<u8>, b: Seq<u8>, files_enabled: bool)
    requires
        a == b,
    ensures
        head_action(a, files_enabled) == head_action(b, files_enabled),
{
}

} // verus!
