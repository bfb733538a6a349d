use vstd::prelude::*;
use crate::text::{ascii, decimal, put, write_decimal};

verus! {

pub open spec fn not_found_response() -> Seq<u8> {
    ascii("HTTP/1.1 404 Not Found\r\n\r\n"@)
}

/// The reply for a request that no route serves.
pub fn respond_error() -> (r: Vec<u8>)
    ensures
        r@ == not_found_response(),
{
    let mut out = Vec::new();
    proof { reveal_strlit("HTTP/1.1 404 Not Found\r\n\r\n"); }
    put(&mut out, "HTTP/1.1 404 Not Found\r\n\r\n");
    assert(out@ =~= not_found_response());
    out
}

pub open spec fn root_response() -> Seq<u8> {
    ascii("HTTP/1.1 200 Ok\r\n\r\n"@)
}

pub open spec fn created_response() -> Seq<u8> {
    ascii("HTTP/1.1 201 Created\r\n\r\n"@)
}

/// Status line and headers of a 200 reply with a plain text body of `len` bytes.
pub open spec fn text_head(len: nat) -> Seq<u8> {
    ascii("HTTP/1.1 200 Ok\r\nContent-Type: text/plain\r\nContent-Length: "@) + decimal(len)
        + ascii("\r\n\r\n"@)
}

/// A 200 reply that carries `body` as plain text.
pub open spec fn content_response(body: Seq<u8>) -> Seq<u8> {
    text_head(body.len()) + body
}

/// Status line and headers of a 200 reply that carries a file of `len` bytes;
/// the file's bytes follow them.
pub open spec fn file_head(len: nat) -> Seq<u8> {
    ascii("HTTP/1.1 200 Ok\r\nContent-Type: application/octet-stream\r\nContent-Length: "@)
        + decimal(len) + ascii("\r\n\r\n"@)
}

/// The reply to `GET /`: a status line and a blank line, nothing more.
pub fn respond_root() -> (r: Vec<u8>)
    ensures
        r@ == root_response(),
{
    let mut out = Vec::new();
    proof { reveal_strlit("HTTP/1.1 200 Ok\r\n\r\n"); }
    put(&mut out, "HTTP/1.1 200 Ok\r\n\r\n");
    assert(out@ =~= root_response());
    out
}

/// The reply to a finished upload.
pub fn respond_created() -> (r: Vec<u8>)
    ensures
        r@ == created_response(),
{
    let mut out = Vec::new();
    proof { reveal_strlit("HTTP/1.1 201 Created\r\n\r\n"); }
    put(&mut out, "HTTP/1.1 201 Created\r\n\r\n");
    assert(out@ =~= created_response());
    out
}

/// A 200 reply with `content` as its plain text body and its length in bytes
/// as `Content-Length`.
pub fn respond_content(content: &[u8]) -> (r: Vec<u8>)
    ensures
        r@ == content_response(content@),
{
    let mut out = Vec::new();
    proof {
        reveal_strlit("HTTP/1.1 200 Ok\r\nContent-Type: text/plain\r\nContent-Length: ");
        reveal_strlit("\r\n\r\n");
    }
    put(&mut out, "HTTP/1.1 200 Ok\r\nContent-Type: text/plain\r\nContent-Length: ");
    write_decimal(content.len() as u64, &mut out);
    put(&mut out, "\r\n\r\n");
    let mut i: usize = 0;
    let ghost head = out@;
    assert(head =~= text_head(content@.len()));
    while i < content.len()
        invariant
            i <= content@.len(),
            out@ == head + content@.subrange(0, i as int),
        decreases content@.len() - i,
    {
        out.push(content[i]);
        i += 1;
        assert(out@ =~= head + content@.subrange(0, i as int));
    }
    assert(content@.subrange(0, i as int) =~= content@);
    out
}

/// Status line and headers for sending a file of `len` bytes.
pub fn respond_file(len: u64) -> (r: Vec<u8>)
    ensures
        r@ == file_head(len as nat),
{
    let mut out = Vec::new();
    proof {
        reveal_strlit("HTTP/1.1 200 Ok\r\nContent-Type: application/octet-stream\r\nContent-Length: ");
        reveal_strlit("\r\n\r\n");
    }
    put(&mut out, "HTTP/1.1 200 Ok\r\nContent-Type: application/octet-stream\r\nContent-Length: ");
    write_decimal(len, &mut out);
    put(&mut out, "\r\n\r\n");
    assert(out@ =~= file_head(len as nat));
    out
}

} // verus!
