use http_core::response::{respond_content, respond_created, respond_error, respond_file, respond_root};
use http_core::route::{handle_request, Action, Context};
use http_core::upload::{upload_file, upload_start, UploadEvent, UploadStep};

fn reply(head: &[u8], ctx: &Context) -> Vec<u8> {
    match handle_request(head, ctx) {
        Action::Reply(b) => b,
        other => panic!("expected a reply, got {:?}", other),
    }
}

fn files() -> Context {
    Context::new("/srv/files")
}

#[test]
fn fixed_replies() {
    assert_eq!(respond_root(), b"HTTP/1.1 200 Ok\r\n\r\n".to_vec());
    assert_eq!(respond_error(), b"HTTP/1.1 404 Not Found\r\n\r\n".to_vec());
    assert_eq!(respond_created(), b"HTTP/1.1 201 Created\r\n\r\n".to_vec());
    assert_eq!(
        respond_content(b"abc"),
        b"HTTP/1.1 200 Ok\r\nContent-Type: text/plain\r\nContent-Length: 3\r\n\r\nabc".to_vec()
    );
    assert_eq!(
        respond_content(b""),
        b"HTTP/1.1 200 Ok\r\nContent-Type: text/plain\r\nContent-Length: 0\r\n\r\n".to_vec()
    );
    assert_eq!(
        respond_file(11),
        b"HTTP/1.1 200 Ok\r\nContent-Type: application/octet-stream\r\nContent-Length: 11\r\n\r\n".to_vec()
    );
}

#[test]
fn get_root_is_bare_ok() {
    let r = reply(b"GET / HTTP/1.1\r\nHost: x\r\nAccept: */*\r\n\r\n", &files());
    assert_eq!(r, b"HTTP/1.1 200 Ok\r\n\r\n".to_vec());
}

#[test]
fn echo_single_piece() {
    let r = reply(b"GET /echo/abc HTTP/1.1\r\n\r\n", &files());
    assert_eq!(
        r,
        b"HTTP/1.1 200 Ok\r\nContent-Type: text/plain\r\nContent-Length: 3\r\n\r\nabc".to_vec()
    );
    let r = reply(b"GET /echo/hello-world_12 HTTP/1.1\r\n\r\n", &files());
    assert!(r.ends_with(b"Content-Length: 14\r\n\r\nhello-world_12"));
}

#[test]
fn echo_rejoins_pieces() {
    let r = reply(b"GET /echo/a/b HTTP/1.1\r\n\r\n", &files());
    assert_eq!(
        r,
        b"HTTP/1.1 200 Ok\r\nContent-Type: text/plain\r\nContent-Length: 3\r\n\r\na/b".to_vec()
    );
    let r = reply(b"GET /echo/ HTTP/1.1\r\n\r\n", &files());
    assert!(r.ends_with(b"Content-Length: 0\r\n\r\n"));
}

#[test]
fn echo_without_piece_is_not_found() {
    assert_eq!(reply(b"GET /echo HTTP/1.1\r\n\r\n", &files()), respond_error());
}

#[test]
fn user_agent_is_reflected() {
    let r = reply(b"GET /user-agent HTTP/1.1\r\nHost: x\r\nUser-Agent: curl/8.0\r\n\r\n", &files());
    assert_eq!(
        r,
        b"HTTP/1.1 200 Ok\r\nContent-Type: text/plain\r\nContent-Length: 8\r\n\r\ncurl/8.0".to_vec()
    );
    let r = reply(b"GET /user-agent HTTP/1.1\r\nUser-Agent: a\r\nUser-Agent: b\r\n\r\n", &files());
    assert!(r.ends_with(b"\r\n\r\na"));
}

#[test]
fn user_agent_missing_is_not_found() {
    let r = reply(b"GET /user-agent HTTP/1.1\r\nuser-agent: curl/8.0\r\n\r\n", &files());
    assert_eq!(r, respond_error());
}

#[test]
fn unknown_routes_are_not_found() {
    assert_eq!(reply(b"GET /nothing HTTP/1.1\r\n\r\n", &files()), respond_error());
    assert_eq!(reply(b"PUT /files/a HTTP/1.1\r\n\r\n", &files()), respond_error());
    assert_eq!(reply(b"POST /echo/a HTTP/1.1\r\nContent-Length: 1\r\n\r\n", &files()), respond_error());
    assert_eq!(reply(b"GET\r\n\r\n", &files()), respond_error());
    assert_eq!(reply(b"", &files()), respond_error());
    assert_eq!(reply(b"GET noslash HTTP/1.1\r\n\r\n", &files()), respond_error());
}

#[test]
fn get_file_sends_pieces() {
    match handle_request(b"GET /files/missing.txt HTTP/1.1\r\n\r\n", &files()) {
        Action::SendFile(p) => assert_eq!(p, vec![b"missing.txt".to_vec()]),
        other => panic!("{:?}", other),
    }
}

#[test]
fn file_routes_off_without_root() {
    let ctx = Context::new("");
    assert_eq!(reply(b"GET /files/a HTTP/1.1\r\n\r\n", &ctx), respond_error());
    assert_eq!(reply(b"POST /files/a HTTP/1.1\r\nContent-Length: 1\r\n\r\n", &ctx), respond_error());
}

#[test]
fn post_without_length_is_not_found() {
    let r = reply(b"POST /files/x HTTP/1.1\r\nHost: x\r\n\r\n", &files());
    assert_eq!(r, respond_error());
}

#[test]
fn post_with_unreadable_length_stores_nothing() {
    match handle_request(b"POST /files/x HTTP/1.1\r\nContent-Length: ten\r\n\r\n", &files()) {
        Action::ReceiveFile(p, n) => {
            assert_eq!(p, vec![b"x".to_vec()]);
            assert_eq!(n, 0);
        }
        other => panic!("{:?}", other),
    }
    assert_eq!(upload_start(0), UploadStep::Done);
}

/// Drives an upload over a body delivered in the given pieces; gives the
/// bytes stored and the last step.
fn drive(len: u64, body: &[u8], pieces: &[usize]) -> (Vec<u8>, UploadStep) {
    let mut stored = Vec::new();
    let mut at = 0;
    let mut k = 0;
    let mut step = upload_start(len);
    while let UploadStep::Read { remaining, want } = step {
        let n = if k < pieces.len() { pieces[k].min(want) } else { 0 };
        let n = n.min(body.len() - at);
        stored.extend_from_slice(&body[at..at + n]);
        at += n;
        k += 1;
        step = upload_file(remaining, UploadEvent::Received(n));
    }
    (stored, step)
}

#[test]
fn post_file_then_get_it() {
    let head = b"POST /files/report.txt HTTP/1.1\r\nContent-Length: 11\r\n\r\n";
    let (pieces, len) = match handle_request(head, &files()) {
        Action::ReceiveFile(p, n) => (p, n),
        other => panic!("{:?}", other),
    };
    assert_eq!(pieces, vec![b"report.txt".to_vec()]);
    assert_eq!(len, 11);
    let (stored, step) = drive(len, b"hello world", &[4, 100]);
    assert_eq!(stored, b"hello world".to_vec());
    assert_eq!(step, UploadStep::Done);
    assert_eq!(respond_created(), b"HTTP/1.1 201 Created\r\n\r\n".to_vec());
    match handle_request(b"GET /files/report.txt HTTP/1.1\r\n\r\n", &files()) {
        Action::SendFile(p) => assert_eq!(p, pieces),
        other => panic!("{:?}", other),
    }
    let mut sent = respond_file(stored.len() as u64);
    sent.extend_from_slice(&stored);
    assert_eq!(
        sent,
        b"HTTP/1.1 200 Ok\r\nContent-Type: application/octet-stream\r\nContent-Length: 11\r\n\r\nhello world".to_vec()
    );
}

#[test]
fn upload_steps() {
    assert_eq!(upload_start(11), UploadStep::Read { remaining: 11, want: 11 });
    assert_eq!(upload_start(10000), UploadStep::Read { remaining: 10000, want: 4096 });
    assert_eq!(upload_file(10000, UploadEvent::Received(4096)), UploadStep::Read { remaining: 5904, want: 4096 });
    assert_eq!(upload_file(11, UploadEvent::Received(11)), UploadStep::Done);
    assert_eq!(upload_file(11, UploadEvent::Received(0)), UploadStep::Done);
    assert_eq!(upload_file(11, UploadEvent::Stalled), UploadStep::Done);
    assert_eq!(upload_file(11, UploadEvent::Failed), UploadStep::Failed);
}

#[test]
fn short_body_stops_silently() {
    let (stored, step) = drive(11, b"hello", &[5]);
    assert_eq!(stored, b"hello".to_vec());
    assert_eq!(step, UploadStep::Done);
}

#[test]
fn same_request_twice_same_reply() {
    let head = b"GET /echo/abc HTTP/1.1\r\nUser-Agent: t\r\n\r\n";
    let a = reply(head, &files());
    let b = reply(head, &files());
    assert_eq!(a, b);
    let head = b"GET /user-agent HTTP/1.1\r\nUser-Agent: t\r\n\r\n";
    assert_eq!(reply(head, &files()), reply(head, &files()));
}
