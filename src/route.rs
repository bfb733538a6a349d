use vstd::prelude::*;
use crate::request::{header_value, pair_views, parse_request, Method, Request, RequestView};
use crate::response::{
    content_response, not_found_response, respond_content, respond_error, respond_root,
    root_response,
};
use crate::text::{ascii, copy_segment, join, join_segments, parse_decimal, parse_u64, range_is, views};

verus! {

/// What serving one connection needs besides the request: the directory
/// under which files are read and written. An empty one turns the file
/// routes off.
pub struct Context {
    pub root_dir: String,
}

impl Context {
    pub fn new(root_dir: &str) -> (r: Context)
        ensures
            r.root_dir@ == root_dir@,
    {
        Context { root_dir: root_dir.to_owned() }
    }

    pub open spec fn files_enabled(&self) -> bool {
        self.root_dir@.len() > 0
    }
}

/// What is to be done on the connection for one request.
#[derive(Debug)]
pub enum Action {
    /// Write these bytes and close.
    Reply(Vec<u8>),
    /// Send the file at these path pieces under the root directory: its head
    /// and bytes if it opens as a file, the not-found reply if not.
    SendFile(Vec<Vec<u8>>),
    /// Store this many bytes of the body into the file at these path pieces
    /// under the root directory.
    ReceiveFile(Vec<Vec<u8>>, u64),
}

pub enum ActionView {
    Reply(Seq<u8>),
    SendFile(Seq<Seq<u8>>),
    ReceiveFile(Seq<Seq<u8>>, u64),
}

impl View for Action {
    type V = ActionView;

    open spec fn view(&self) -> ActionView {
        match self {
            Action::Reply(b) => ActionView::Reply(b@),
            Action::SendFile(p) => ActionView::SendFile(views(p@)),
            Action::ReceiveFile(p, n) => ActionView::ReceiveFile(views(p@), *n),
        }
    }
}

pub open spec fn not_found() -> ActionView {
    ActionView::Reply(not_found_response())
}

/// The route of a GET request, by the first piece of its path.
pub open spec fn get_action(req: RequestView, files_enabled: bool) -> ActionView {
    if req.paths.len() == 0 {
        not_found()
    } else if req.paths[0].len() == 0 {
        ActionView::Reply(root_response())
    } else if req.paths[0] == ascii("echo"@) {
        if req.paths.len() < 2 {
            not_found()
        } else {
            ActionView::Reply(content_response(join(req.paths.drop_first())))
        }
    } else if req.paths[0] == ascii("user-agent"@) {
        match header_value(req.headers, ascii("User-Agent"@)) {
            Some(v) => ActionView::Reply(content_response(v)),
            None => not_found(),
        }
    } else if req.paths[0] == ascii("files"@) && files_enabled {
        ActionView::SendFile(req.paths.drop_first())
    } else {
        not_found()
    }
}

/// The route of a POST request. An upload needs a `Content-Length` header; one
/// whose value is no number stores nothing.
pub open spec fn post_action(req: RequestView, files_enabled: bool) -> ActionView {
    if req.paths.len() > 0 && req.paths[0] == ascii("files"@) && files_enabled {
        match header_value(req.headers, ascii("Content-Length"@)) {
            None => not_found(),
            Some(v) => ActionView::ReceiveFile(
                req.paths.drop_first(),
                match parse_u64(v) {
                    Some(n) => n,
                    None => 0,
                },
            ),
        }
    } else {
        not_found()
    }
}

pub open spec fn request_action(req: RequestView, files_enabled: bool) -> ActionView {
    match req.method {
        Method::Get => get_action(req, files_enabled),
        Method::Post => post_action(req, files_enabled),
        Method::Unknown => not_found(),
    }
}

/// What is done for the head bytes of a request.
pub open spec fn head_action(head: Seq<u8>, files_enabled: bool) -> ActionView {
    match parse_request(head) {
        Ok(req) => request_action(req, files_enabled),
        Err(_) => not_found(),
    }
}

/// The value of the first header named `name`.
pub fn find_header(headers: &Vec<(Vec<u8>, Vec<u8>)>, name: &str) -> (r: Option<Vec<u8>>)
    requires
        vstd::string::is_ascii(name),
    ensures
        match r {
            Some(v) => header_value(pair_views(headers@), ascii(name@)) == Some(v@),
            None => header_value(pair_views(headers@), ascii(name@)) is None,
        },
{
    let ghost all = pair_views(headers@);
    assert(all.subrange(0, all.len() as int) =~= all);
    let mut i: usize = 0;
    while i < headers.len()
        invariant
            i <= headers@.len(),
            vstd::string::is_ascii(name),
            all == pair_views(headers@),
            header_value(all.subrange(i as int, all.len() as int), ascii(name@))
                == header_value(all, ascii(name@)),
        decreases headers@.len() - i,
    {
        let ghost rest = all.subrange(i as int, all.len() as int);
        assert(rest.drop_first() =~= all.subrange(i + 1, all.len() as int));
        assert(rest[0] == (headers@[i as int].0@, headers@[i as int].1@));
        let key = &headers[i].0;
        if range_is(key.as_slice(), 0, key.len(), name) {
            assert(key@.subrange(0, key@.len() as int) =~= key@);
            return Some(copy_segment(&headers[i].1));
        }
        assert(key@.subrange(0, key@.len() as int) =~= key@);
        i += 1;
    }
    None
}

/// The path pieces after the first.
fn tail_segments(paths: &Vec<Vec<u8>>) -> (r: Vec<Vec<u8>>)
    requires
        paths@.len() > 0,
    ensures
        views(r@) == views(paths@).drop_first(),
{
    let mut r: Vec<Vec<u8>> = Vec::new();
    let mut i: usize = 1;
    while i < paths.len()
        invariant
            1 <= i <= paths@.len(),
            views(r@) == views(paths@).subrange(1, i as int),
        decreases paths@.len() - i,
    {
        let ghost before = views(r@);
        let c = copy_segment(&paths[i]);
        r.push(c);
        assert(views(r@) =~= before + seq![c@]);
        assert(views(r@) =~= views(paths@).subrange(1, i + 1));
        i += 1;
    }
    assert(views(paths@).subrange(1, i as int) =~= views(paths@).drop_first());
    r
}

/// Routes a GET request.
pub fn handle_request_get(request: &Request, ctx: &Context) -> (r: Action)
    ensures
        r@ == get_action(request@, ctx.files_enabled()),
{
    proof {
        reveal_strlit("echo");
        reveal_strlit("user-agent");
        reveal_strlit("User-Agent");
        reveal_strlit("files");
    }
    let paths = &request.paths;
    if paths.len() == 0 {
        return Action::Reply(respond_error());
    }
    let first = &paths[0];
    assert(first@ == request@.paths[0]);
    assert(first@.subrange(0, first@.len() as int) =~= first@);
    if first.len() == 0 {
        Action::Reply(respond_root())
    } else if range_is(first.as_slice(), 0, first.len(), "echo") {
        if paths.len() < 2 {
            return Action::Reply(respond_error());
        }
        let rest = tail_segments(paths);
        let content = join_segments(rest.as_slice());
        Action::Reply(respond_content(content.as_slice()))
    } else if range_is(first.as_slice(), 0, first.len(), "user-agent") {
        match find_header(&request.headers, "User-Agent") {
            Some(v) => Action::Reply(respond_content(v.as_slice())),
            None => Action::Reply(respond_error()),
        }
    } else if range_is(first.as_slice(), 0, first.len(), "files") && !ctx.root_dir.as_str().is_empty() {
        Action::SendFile(tail_segments(paths))
    } else {
        Action::Reply(respond_error())
    }
}

/// Routes a POST request.
pub fn handle_request_post(request: &Request, ctx: &Context) -> (r: Action)
    ensures
        r@ == post_action(request@, ctx.files_enabled()),
{
    proof {
        reveal_strlit("files");
        reveal_strlit("Content-Length");
    }
    let paths = &request.paths;
    if paths.len() == 0 {
        return Action::Reply(respond_error());
    }
    let first = &paths[0];
    assert(first@ == request@.paths[0]);
    assert(first@.subrange(0, first@.len() as int) =~= first@);
    if !range_is(first.as_slice(), 0, first.len(), "files") || ctx.root_dir.as_str().is_empty() {
        return Action::Reply(respond_error());
    }
    match find_header(&request.headers, "Content-Length") {
        None => Action::Reply(respond_error()),
        Some(v) => {
            let len = match parse_decimal(v.as_slice()) {
                Some(n) => n,
                None => 0,
            };
            Action::ReceiveFile(tail_segments(paths), len)
        },
    }
}

/// Reads the head of a request and decides what to do with it. A head that
/// cannot be read, or a method other than GET and POST, gets the not-found
/// reply.
pub fn handle_request(head: &[u8], ctx: &Context) -> (r: Action)
    ensures
        r@ == head_action(head@, ctx.files_enabled()),
{
    match Request::new(head) {
        Ok(request) => match request.method {
            Method::Get => handle_request_get(&request, ctx),
            Method::Post => handle_request_post(&request, ctx),
            Method::Unknown => Action::Reply(respond_error()),
        },
        Err(_) => Action::Reply(respond_error()),
    }
}

} // verus!
