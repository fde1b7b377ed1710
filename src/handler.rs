use vstd::prelude::*;
use vstd::string::StringExecFns;

use crate::headers::{insert_entry, keys_unique, lemma_insert_then_lookup, lookup, Entry, HeaderMap};
use crate::http::{
    bare_response, content_response, framed, lemma_responses_framed, make_http_200_return_file, make_http_200_return_text,
    make_http_201_created, make_http_404_not_found, make_http_empty, HTTPMethod, HTTPRequest,
    HTTPResponse, HTTPResponseStatus, RequestView, ResponseView,
};
use crate::text::{fields, fields_scan, join, join_with, split_fields, views};

verus! {

/// A file store could not write a file.
#[derive(Clone, Copy, Debug, PartialEq, Eq, Structural)]
pub struct StoreError;

/// Whole-file reads and writes under the store's own root.
pub trait FileStore {
    /// The whole content of the file `name`, or `None` where it cannot be read.
    fn read_file(&self, name: &str) -> Option<String>;

    /// Creates or overwrites the file `name` with `content`.
    fn write_file(&mut self, name: &str, content: &str) -> Result<(), StoreError>;
}

/// What a request asks for: a response straight away, or a step of the file store
/// first.
pub enum RouteAction {
    Respond(HTTPResponse),
    /// Read the named file.
    ReadFile(String),
    /// Write the content (second) to the named file (first).
    WriteFile(String, String),
}

pub enum RouteActionView {
    Respond(ResponseView),
    ReadFile(Seq<char>),
    WriteFile(Seq<char>, Seq<char>),
}

impl View for RouteAction {
    type V = RouteActionView;

    open spec fn view(&self) -> RouteActionView {
        match self {
            RouteAction::Respond(r) => RouteActionView::Respond(r@),
            RouteAction::ReadFile(n) => RouteActionView::ReadFile(n@),
            RouteAction::WriteFile(n, c) => RouteActionView::WriteFile(n@, c@),
        }
    }
}

/// The segments of a path after the first, joined by `/`.
pub open spec fn rest_joined(segs: Seq<Seq<char>>) -> Seq<char> {
    join(segs.subrange(1, segs.len() as int), "/"@)
}

/// Whether the path segments `segs` begin with `word`.
pub open spec fn starts_with_segment(segs: Seq<Seq<char>>, word: Seq<char>) -> bool {
    segs.len() >= 1 && segs[0] == word
}

/// The route that a request takes, first match in order:
/// `GET /` answers `200` bare; `GET /echo/..` echoes the rest of the path;
/// `GET /user-agent` echoes that header, or `404`; `GET /files/..` reads the named
/// file; `POST /files/..` writes the body there (`404` where there is no body);
/// anything else is `404`.
pub open spec fn route_plan(req: RequestView) -> RouteActionView {
    let segs = fields(req.path, true);
    let get = req.method == HTTPMethod::GET;
    if get && segs.len() == 0 {
        RouteActionView::Respond(bare_response(HTTPResponseStatus::OK))
    } else if get && starts_with_segment(segs, "echo"@) {
        RouteActionView::Respond(content_response(rest_joined(segs), "text/plain"@))
    } else if get && segs.len() == 1 && segs[0] == "user-agent"@ {
        match lookup(req.headers, "user-agent"@) {
            Some(agent) => RouteActionView::Respond(content_response(agent, "text/plain"@)),
            None => RouteActionView::Respond(bare_response(HTTPResponseStatus::NotFound)),
        }
    } else if get && starts_with_segment(segs, "files"@) {
        RouteActionView::ReadFile(rest_joined(segs))
    } else if req.method == HTTPMethod::POST && starts_with_segment(segs, "files"@) {
        match req.body {
            Some(b) => RouteActionView::WriteFile(rest_joined(segs), b),
            None => RouteActionView::Respond(bare_response(HTTPResponseStatus::NotFound)),
        }
    } else {
        RouteActionView::Respond(bare_response(HTTPResponseStatus::NotFound))
    }
}

/// The segments of `segs` after the first, joined by `/`.
fn join_rest(segs: &Vec<String>) -> (r: String)
    requires
        segs.len() >= 1,
    ensures
        r@ == rest_joined(views(segs@)),
{
    let mut rest: Vec<String> = Vec::new();
    let mut k: usize = 1;
    while k < segs.len()
        invariant
            1 <= k <= segs.len(),
            views(rest@) == views(segs@).subrange(1, k as int),
        decreases segs.len() - k,
    {
        assert(views(rest@.push(segs[k as int])) == views(rest@).push(segs[k as int]@));
        rest.push(segs[k].clone());
        k = k + 1;
    }
    join_with(&rest, "/")
}

/// Decides what a request needs.
pub fn plan_route(request: &HTTPRequest) -> (r: RouteAction)
    ensures
        r@ == route_plan(request@),
{
    let segs = split_fields(request.path.as_str(), true);
    let ghost s = views(segs@);
    let get = request.method == HTTPMethod::GET;
    let n = segs.len();
    if n >= 1 {
        assert(segs[0]@ == s[0]);
    }
    if get && n == 0 {
        RouteAction::Respond(make_http_empty(HTTPResponseStatus::OK))
    } else if get && segs[0] == String::from_str("echo") {
        RouteAction::Respond(make_http_200_return_text(join_rest(&segs)))
    } else if get && n == 1 && segs[0] == String::from_str("user-agent") {
        match request.header.get("user-agent") {
            Some(agent) => RouteAction::Respond(make_http_200_return_text(agent)),
            None => RouteAction::Respond(make_http_404_not_found()),
        }
    } else if get && segs[0] == String::from_str("files") {
        RouteAction::ReadFile(join_rest(&segs))
    } else if request.method == HTTPMethod::POST && n >= 1 && segs[0] == String::from_str(
        "files",
    ) {
        match &request.body {
            Some(b) => RouteAction::WriteFile(join_rest(&segs), b.clone()),
            None => RouteAction::Respond(make_http_404_not_found()),
        }
    } else {
        RouteAction::Respond(make_http_404_not_found())
    }
}

/// The response to a file read: the content where there was one, else `404`.
pub open spec fn read_reply(content: Option<Seq<char>>) -> ResponseView {
    match content {
        Some(c) => content_response(c, "application/octet-stream"@),
        None => bare_response(HTTPResponseStatus::NotFound),
    }
}

/// The response to a file write: `201` where it succeeded, else `404`.
pub open spec fn write_reply(written: bool) -> ResponseView {
    if written {
        bare_response(HTTPResponseStatus::Created)
    } else {
        bare_response(HTTPResponseStatus::NotFound)
    }
}

/// Answers a file read with what the store gave.
pub fn respond_to_read(content: Option<String>) -> (r: HTTPResponse)
    ensures
        r@ == read_reply(
            match content {
                Some(c) => Some(c@),
                None => None,
            },
        ),
{
    match content {
        Some(c) => make_http_200_return_file(c),
        None => make_http_404_not_found(),
    }
}

/// Answers a file write with how the store fared.
pub fn respond_to_write(outcome: Result<(), StoreError>) -> (r: HTTPResponse)
    ensures
        r@ == write_reply(outcome is Ok),
{
    match outcome {
        Ok(()) => make_http_201_created(),
        Err(_) => make_http_404_not_found(),
    }
}

/// Answers a request, reading or writing through `store` where the route asks it.
pub fn router<S: FileStore>(request: HTTPRequest, store: &mut S) -> (r: HTTPResponse)
    ensures
        match route_plan(request@) {
            RouteActionView::Respond(v) => r@ == v,
            RouteActionView::ReadFile(_) => exists|c: Option<Seq<char>>| r@ == read_reply(c),
            RouteActionView::WriteFile(_, _) => r@ == write_reply(true) || r@ == write_reply(
                false,
            ),
        },
        framed(r@),
        !(route_plan(request@) is WriteFile) ==> *final(store) == *old(store),
{
    proof {
        lemma_responses_framed();
    }
    match plan_route(&request) {
        RouteAction::Respond(r) => r,
        RouteAction::ReadFile(name) => {
            let content = store.read_file(name.as_str());
            let r = respond_to_read(content);
            assert(r@ == read_reply(
                match content {
                    Some(c) => Some(c@),
                    None => None,
                },
            ));
            r
        },
        RouteAction::WriteFile(name, content) => {
            let outcome = store.write_file(name.as_str(), content.as_str());
            respond_to_write(outcome)
        },
    }
}

/// A file store held in memory: file names and their contents.
pub struct MemoryStore {
    files: HeaderMap,
}

impl View for MemoryStore {
    type V = Seq<Entry>;

    closed spec fn view(&self) -> Seq<Entry> {
        self.files@
    }
}

impl MemoryStore {
    /// No name is held twice.
    pub open spec fn wf(&self) -> bool {
        keys_unique(self@)
    }

    pub fn new() -> (r: MemoryStore)
        ensures
            r@ == Seq::<Entry>::empty(),
            r.wf(),
    {
        MemoryStore { files: HeaderMap::new() }
    }

    /// The content of the file `name`.
    pub fn read(&self, name: &str) -> (r: Option<String>)
        ensures
            match r {
                Some(c) => lookup(self@, name@) == Some(c@),
                None => lookup(self@, name@) is None,
            },
    {
        self.files.get(name)
    }

    /// Makes `content` the content of the file `name`.
    pub fn write(&mut self, name: &str, content: &str)
        ensures
            final(self)@ == insert_entry(old(self)@, name@, content@),
            old(self).wf() ==> final(self).wf(),
    {
        self.files.insert(String::from_str(name), String::from_str(content));
    }
}

/// The response to `req`, and the files afterwards, where the files `files` are held
/// in memory: a read finds what `files` binds to the name, and a write always succeeds.
pub open spec fn memory_outcome(req: RequestView, files: Seq<Entry>) -> (ResponseView, Seq<Entry>) {
    match route_plan(req) {
        RouteActionView::Respond(v) => (v, files),
        RouteActionView::ReadFile(name) => (read_reply(lookup(files, name)), files),
        RouteActionView::WriteFile(name, content) => (
            write_reply(true),
            insert_entry(files, name, content),
        ),
    }
}

impl MemoryStore {
    /// Answers a request from the files held here.
    pub fn serve(&mut self, request: HTTPRequest) -> (r: HTTPResponse)
        ensures
            (r@, final(self)@) == memory_outcome(request@, old(self)@),
            old(self).wf() ==> final(self).wf(),
    {
        match plan_route(&request) {
            RouteAction::Respond(r) => r,
            RouteAction::ReadFile(name) => {
                let content = self.read(name.as_str());
                respond_to_read(content)
            },
            RouteAction::WriteFile(name, content) => {
                self.write(name.as_str(), content.as_str());
                respond_to_write(Ok(()))
            },
        }
    }
}

proof fn lemma_route_words_differ()
    ensures
        "files"@ != "echo"@,
        "files"@ != "user-agent"@,
{
    reveal_strlit("files");
    reveal_strlit("echo");
    reveal_strlit("user-agent");
    assert("files"@.len() != "echo"@.len());
    assert("files"@.len() != "user-agent"@.len());
}

/// A file posted under a path is what a later read of that path returns, with its
/// content type, whatever the files held before; the read changes nothing.
pub proof fn lemma_post_then_get(
    post: RequestView,
    get: RequestView,
    files: Seq<Entry>,
    content: Seq<char>,
)
    requires
        keys_unique(files),
        post.method == HTTPMethod::POST,
        get.method == HTTPMethod::GET,
        post.path == get.path,
        starts_with_segment(fields(post.path, true), "files"@),
        post.body == Some(content),
    ensures
        memory_outcome(post, files).0 == bare_response(HTTPResponseStatus::Created),
        memory_outcome(get, memory_outcome(post, files).1) == (
            content_response(content, "application/octet-stream"@),
            memory_outcome(post, files).1,
        ),
{
    lemma_route_words_differ();
    let name = rest_joined(fields(post.path, true));
    lemma_insert_then_lookup(files, name, content, name);
}

/// Reading a file that the files do not hold (any file, where they hold none) answers
/// `404` with neither headers nor body, and changes nothing.
pub proof fn lemma_missing_file(get: RequestView, files: Seq<Entry>)
    requires
        get.method == HTTPMethod::GET,
        starts_with_segment(fields(get.path, true), "files"@),
        lookup(files, rest_joined(fields(get.path, true))) is None,
    ensures
        memory_outcome(get, files) == (bare_response(HTTPResponseStatus::NotFound), files),
{
    lemma_route_words_differ();
}

impl FileStore for MemoryStore {
    fn read_file(&self, name: &str) -> Option<String> {
        self.read(name)
    }

    fn write_file(&mut self, name: &str, content: &str) -> Result<(), StoreError> {
        self.write(name, content);
        Ok(())
    }
}


/// A path segment: not empty, and without `/`.
pub open spec fn is_segment(x: Seq<char>) -> bool {
    x.len() > 0 && !x.contains('/')
}

/// The path that names the segments `segs`: `/` and the segments joined by `/`.
pub open spec fn path_of(segs: Seq<Seq<char>>) -> Seq<char> {
    seq!['/'] + join(segs, "/"@)
}

proof fn lemma_scan_segments(s: Seq<char>, start: int, i: int)
    requires
        0 <= start <= i <= s.len(),
        forall|j: int| start <= j < i ==> s[j] != '/',
    ensures
        forall|k: int|
            0 <= k < fields_scan(s, true, start, i).len() ==> is_segment(
                #[trigger] fields_scan(s, true, start, i)[k],
            ),
    decreases s.len() - i,
{
    let r = fields_scan(s, true, start, i);
    if i >= s.len() {
        if start < s.len() {
            let x = s.subrange(start, s.len() as int);
            assert(forall|j: int| 0 <= j < x.len() ==> x[j] == s[start + j]);
            assert(is_segment(x));
            assert(r == seq![x]);
            assert(r[0] == x);
        } else {
            assert(r.len() == 0);
        }
    } else if s[i] == '/' {
        lemma_scan_segments(s, i + 1, i + 1);
        let rest = fields_scan(s, true, i + 1, i + 1);
        if start < i {
            let x = s.subrange(start, i);
            assert(forall|j: int| 0 <= j < x.len() ==> x[j] == s[start + j]);
            assert(is_segment(x));
            assert(r == seq![x] + rest);
            assert forall|k: int| 0 <= k < r.len() implies is_segment(#[trigger] r[k]) by {
                if k > 0 {
                    assert(r[k] == rest[k - 1]);
                }
            }
        } else {
            assert(r == rest);
        }
    } else {
        lemma_scan_segments(s, start, i + 1);
        assert(r == fields_scan(s, true, start, i + 1));
    }
}

proof fn lemma_scan_last_run(s: Seq<char>, start: int, i: int)
    requires
        0 <= start <= i <= s.len(),
        start < s.len(),
        forall|j: int| start <= j < s.len() ==> s[j] != '/',
    ensures
        fields_scan(s, true, start, i) == seq![s.subrange(start, s.len() as int)],
    decreases s.len() - i,
{
    if i < s.len() {
        lemma_scan_last_run(s, start, i + 1);
    }
}

proof fn lemma_scan_append(s: Seq<char>, w: Seq<char>, start: int, i: int)
    requires
        is_segment(w),
        0 <= start <= i <= s.len(),
        forall|j: int| start <= j < i ==> s[j] != '/',
    ensures
        fields_scan(s + seq!['/'] + w, true, start, i) == fields_scan(s, true, start, i) + seq![
            w,
        ],
    decreases s.len() - i,
{
    let t = s + seq!['/'] + w;
    assert(forall|j: int| 0 <= j < s.len() ==> t[j] == s[j]);
    if i == s.len() {
        assert(t[i] == '/');
        assert forall|j: int| i + 1 <= j < t.len() implies t[j] != '/' by {
            assert(t[j] == w[j - i - 1]);
            if t[j] == '/' {
                assert(w.contains('/'));
            }
        }
        lemma_scan_last_run(t, i + 1, i + 1);
        assert(t.subrange(i + 1, t.len() as int) == w);
        assert(t.subrange(start, i) == s.subrange(start, i));
    } else {
        assert(t[i] == s[i]);
        if s[i] == '/' {
            lemma_scan_append(s, w, i + 1, i + 1);
            assert(t.subrange(start, i) == s.subrange(start, i));
            let rest = fields_scan(s, true, i + 1, i + 1);
            if start < i {
                assert(seq![s.subrange(start, i)] + (rest + seq![w]) == (seq![
                    s.subrange(start, i),
                ] + rest) + seq![w]);
            }
        } else {
            lemma_scan_append(s, w, start, i + 1);
        }
    }
}

/// Splitting the path of some segments gives those segments back.
pub proof fn lemma_segments_of_path(segs: Seq<Seq<char>>)
    requires
        forall|k: int| 0 <= k < segs.len() ==> is_segment(#[trigger] segs[k]),
    ensures
        fields(path_of(segs), true) == segs,
    decreases segs.len(),
{
    reveal_strlit("/");
    let p = path_of(segs);
    if segs.len() == 0 {
        assert(p == seq!['/']);
        assert(fields_scan(p, true, 1, 1) == Seq::<Seq<char>>::empty());
    } else if segs.len() == 1 {
        assert(p[0] == '/');
        assert forall|j: int| 1 <= j < p.len() implies p[j] != '/' by {
            assert(p[j] == segs[0][j - 1]);
            if p[j] == '/' {
                assert(segs[0].contains('/'));
            }
        }
        lemma_scan_last_run(p, 1, 1);
        assert(p.subrange(1, p.len() as int) == segs[0]);
    } else {
        let init = segs.drop_last();
        lemma_segments_of_path(init);
        assert(p == path_of(init) + seq!['/'] + segs.last());
        lemma_scan_append(path_of(init), segs.last(), 0, 0);
        assert(init.push(segs.last()) == segs);
    }
}

/// Dispatch is deterministic and sees the path only through its segments: a request
/// whose path is rebuilt from the segments of its own path, and parsed again, takes
/// the same route.
pub proof fn lemma_dispatch_by_segments(q: RequestView)
    ensures
        fields(path_of(fields(q.path, true)), true) == fields(q.path, true),
        route_plan(RequestView { path: path_of(fields(q.path, true)), ..q }) == route_plan(q),
{
    lemma_scan_segments(q.path, 0, 0);
    lemma_segments_of_path(fields(q.path, true));
}

} // verus!
