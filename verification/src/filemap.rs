//! Static files by route, their media types, and where a request goes.

use crate::text::{chars_eq_ignore_ascii_case, chars_of, eq_ignore_ascii_case, text_eq};
use vstd::hash_map::StringHashMap;
use vstd::prelude::*;
use vstd::slice::*;
use vstd::string::*;
use vstd::utf8::*;

verus! {

/// Content of a static file.
#[derive(Debug, PartialEq, Eq)]
pub enum FileData {
    Bytes(Vec<u8>),
}

/// A static file as it is served.
#[derive(Debug, PartialEq, Eq)]
pub struct FileMap {
    pub data: FileData,
    pub mime_type: &'static str,
}

/// Static files by the route under which each is served.
pub type RouteTable = StringHashMap<FileMap>;

/// Mathematical value of a [`FileMap`].
pub struct FileMapView {
    pub data: Seq<u8>,
    pub mime_type: Seq<char>,
}

impl View for FileData {
    type V = Seq<u8>;

    open spec fn view(&self) -> Seq<u8> {
        match self {
            FileData::Bytes(bytes) => bytes@,
        }
    }
}

impl View for FileMap {
    type V = FileMapView;

    open spec fn view(&self) -> FileMapView {
        FileMapView { data: self.data@, mime_type: self.mime_type@ }
    }
}

/// Index just behind the last `mark` in `text`; 0 where there is none.
pub open spec fn after_last(text: Seq<char>, mark: char) -> int
    decreases text.len(),
{
    if text.len() == 0 {
        0
    } else if text.last() == mark {
        text.len() as int
    } else {
        after_last(text.drop_last(), mark)
    }
}

/// Last component of a path: what follows its last `/`.
pub open spec fn file_name(path: Seq<char>) -> Seq<char> {
    path.subrange(after_last(path, '/'), path.len() as int)
}

/// Extension of a path: what follows the last `.` of its file name. A name
/// without a `.`, or with its only `.` in front, has none.
pub open spec fn extension(path: Seq<char>) -> Seq<char> {
    let name = file_name(path);
    let dot = after_last(name, '.');
    if dot <= 1 {
        Seq::empty()
    } else {
        name.subrange(dot, name.len() as int)
    }
}

/// Media type by extension, whatever the case of its letters.
pub open spec fn mime_type_of(path: Seq<char>) -> Seq<char> {
    let ext = extension(path);
    if eq_ignore_ascii_case(ext, "html"@) {
        "text/html"@
    } else if eq_ignore_ascii_case(ext, "js"@) {
        "application/javascript"@
    } else if eq_ignore_ascii_case(ext, "css"@) {
        "text/css"@
    } else if eq_ignore_ascii_case(ext, "ico"@) {
        "image/x-icon"@
    } else {
        "application/octet-stream"@
    }
}

/// Route under which the file `name` is served.
pub open spec fn route_of(name: Seq<char>) -> Seq<char> {
    "/"@ + name
}

/// Routing table for `files`, each a name with its content. Of two files
/// with one name the later stands.
pub open spec fn routes(files: Seq<(String, Vec<u8>)>) -> Map<Seq<char>, FileMapView>
    decreases files.len(),
{
    if files.len() == 0 {
        Map::empty()
    } else {
        routes(files.drop_last()).insert(
            route_of(files.last().0@),
            FileMapView { data: files.last().1@, mime_type: mime_type_of(files.last().0@) },
        )
    }
}

/// Views of the files of a routing table.
pub open spec fn file_views(table: Map<Seq<char>, FileMap>) -> Map<Seq<char>, FileMapView> {
    table.map_values(|file: FileMap| file@)
}

/// Index just behind the last `mark` in `chars[start..]`; `start` where
/// there is none.
fn find_after_last(chars: &Vec<char>, start: usize, mark: char) -> (at: usize)
    requires
        start <= chars.len(),
    ensures
        at == start + after_last(chars@.subrange(start as int, chars.len() as int), mark),
        start <= at <= chars.len(),
{
    let mut found: usize = start;
    let mut at: usize = start;
    assert(chars@.subrange(start as int, start as int) =~= Seq::<char>::empty());
    while at < chars.len()
        invariant
            start <= found <= at <= chars.len(),
            found == start + after_last(chars@.subrange(start as int, at as int), mark),
        decreases chars.len() - at,
    {
        assert(chars@.subrange(start as int, at + 1).drop_last() =~= chars@.subrange(
            start as int,
            at as int,
        ));
        if chars[at] == mark {
            found = at + 1;
        }
        at = at + 1;
    }
    found
}

impl FileMap {
    /// Media type of the file at `path`, by its extension.
    pub fn get_mime_type(path: &str) -> (mime_type: &'static str)
        ensures
            mime_type@ == mime_type_of(path@),
    {
        let chars = chars_of(path);
        let name_start = find_after_last(&chars, 0, '/');
        assert(chars@.subrange(0, chars.len() as int) =~= path@);
        let dot = find_after_last(&chars, name_start, '.');
        let ghost name = file_name(path@);
        assert(chars@.subrange(name_start as int, chars.len() as int) == name);
        let ext_start: usize = if dot - name_start <= 1 {
            chars.len()
        } else {
            dot
        };
        let ext = slice_subrange(chars.as_slice(), ext_start, chars.len());
        assert(ext@ =~= extension(path@)) by {
            if dot - name_start > 1 {
                assert(name.subrange(dot - name_start, name.len() as int) =~= chars@.subrange(
                    dot as int,
                    chars.len() as int,
                ));
            }
        }
        let html = chars_of("html");
        let js = chars_of("js");
        let css = chars_of("css");
        let ico = chars_of("ico");
        if chars_eq_ignore_ascii_case(ext, html.as_slice()) {
            "text/html"
        } else if chars_eq_ignore_ascii_case(ext, js.as_slice()) {
            "application/javascript"
        } else if chars_eq_ignore_ascii_case(ext, css.as_slice()) {
            "text/css"
        } else if chars_eq_ignore_ascii_case(ext, ico.as_slice()) {
            "image/x-icon"
        } else {
            "application/octet-stream"
        }
    }

    /// Names of the files that make up the web client, relative to its
    /// directory.
    pub fn static_file_names() -> (names: Vec<&'static str>)
        ensures
            views_of_names(names@) == seq![
                "index.html"@,
                "favicon.ico"@,
                "style.css"@,
                "js/pubsub.js"@,
                "js/main.js"@,
                "js/socket.js"@,
                "js/ui.js"@,
                "js/alert.js"@,
            ],
    {
        let mut names: Vec<&'static str> = Vec::new();
        names.push("index.html");
        names.push("favicon.ico");
        names.push("style.css");
        names.push("js/pubsub.js");
        names.push("js/main.js");
        names.push("js/socket.js");
        names.push("js/ui.js");
        names.push("js/alert.js");
        assert(views_of_names(names@) =~= seq![
            "index.html"@,
            "favicon.ico"@,
            "style.css"@,
            "js/pubsub.js"@,
            "js/main.js"@,
            "js/socket.js"@,
            "js/ui.js"@,
            "js/alert.js"@,
        ]);
        names
    }

    /// The routing table for `files`, each a name with its content: the
    /// file `name` is served under `/name` with the media type of its
    /// extension.
    pub fn static_files(files: &Vec<(String, Vec<u8>)>) -> (table: RouteTable)
        ensures
            file_views(table@) == routes(files@),
    {
        let mut table: RouteTable = StringHashMap::new();
        let mut at: usize = 0;
        assert(files@.take(0) =~= Seq::<(String, Vec<u8>)>::empty());
        assert(file_views(table@) =~= Map::<Seq<char>, FileMapView>::empty());
        while at < files.len()
            invariant
                at <= files.len(),
                file_views(table@) == routes(files@.take(at as int)),
            decreases files.len() - at,
        {
            let ghost before = file_views(table@);
            assert(files@.take(at + 1).drop_last() =~= files@.take(at as int));
            let name = files[at].0.as_str();
            let mut route = String::from_str("/");
            route.append(name);
            let file = FileMap {
                data: FileData::Bytes(files[at].1.clone()),
                mime_type: Self::get_mime_type(name),
            };
            table.insert(route, file);
            assert(file_views(table@) =~= before.insert(route@, file@));
            at = at + 1;
        }
        assert(files@.take(at as int) =~= files@);
        table
    }
}

/// An HTTP answer in plain values.
#[derive(Debug, PartialEq, Eq)]
pub struct Reply {
    pub status: u16,
    pub content_type: Option<&'static str>,
    pub body: Vec<u8>,
}

/// Mathematical value of a [`Reply`].
pub struct ReplyView {
    pub status: u16,
    pub content_type: Option<Seq<char>>,
    pub body: Seq<u8>,
}

impl View for Reply {
    type V = ReplyView;

    open spec fn view(&self) -> ReplyView {
        ReplyView {
            status: self.status,
            content_type: match self.content_type {
                Some(mime_type) => Some(mime_type@),
                None => None,
            },
            body: self.body@,
        }
    }
}

/// Where a request goes.
#[derive(Debug, PartialEq, Eq)]
pub enum Routed {
    /// To the WebSocket upgrade: the connection becomes a session.
    Upgrade,
    /// Straight back, with this answer.
    Reply(Reply),
}

/// Mathematical value of a [`Routed`].
pub enum RoutedView {
    Upgrade,
    Reply(ReplyView),
}

impl View for Routed {
    type V = RoutedView;

    open spec fn view(&self) -> RoutedView {
        match self {
            Routed::Upgrade => RoutedView::Upgrade,
            Routed::Reply(reply) => RoutedView::Reply(reply@),
        }
    }
}

/// The answer that serves a file.
pub open spec fn served(file: FileMapView) -> ReplyView {
    ReplyView { status: 200, content_type: Some(file.mime_type), body: file.data }
}

/// The answer to a request for nothing that is there.
pub open spec fn missing() -> ReplyView {
    ReplyView { status: 404, content_type: None, body: encode_utf8("Not found (404)"@) }
}

/// Route that a request path stands for: the root stands for the index page.
pub open spec fn target_of(path: Seq<char>) -> Seq<char> {
    if path == "/"@ {
        "/index.html"@
    } else {
        path
    }
}

/// Where a request for `path` goes, given the routing table.
pub open spec fn routed(path: Seq<char>, table: Map<Seq<char>, FileMapView>) -> RoutedView {
    let target = target_of(path);
    if target == "/ws"@ {
        RoutedView::Upgrade
    } else if table.contains_key(target) {
        RoutedView::Reply(served(table[target]))
    } else {
        RoutedView::Reply(missing())
    }
}

/// Serves a file: status 200, its media type, its content.
pub fn serve_file(data: &FileData, mime_type: &'static str) -> (reply: Reply)
    ensures
        reply@ == served(FileMapView { data: data@, mime_type: mime_type@ }),
{
    let body = match data {
        FileData::Bytes(bytes) => bytes.clone(),
    };
    Reply { status: 200, content_type: Some(mime_type), body }
}

/// The answer to a request for nothing that is there: status 404.
pub fn not_found() -> (reply: Reply)
    ensures
        reply@ == missing(),
{
    Reply { status: 404, content_type: None, body: "Not found (404)".as_bytes_vec() }
}

/// Decides where a request for `path` goes: `/ws` to the upgrade, the path
/// of a static file to that file, `/` to the index page, anything else to
/// a 404.
pub fn route(path: &str, table: &RouteTable) -> (decision: Routed)
    ensures
        decision@ == routed(path@, file_views(table@)),
{
    let target = if text_eq(path, "/") {
        "/index.html"
    } else {
        path
    };
    if text_eq(target, "/ws") {
        Routed::Upgrade
    } else {
        match table.get(target) {
            Some(file) => Routed::Reply(serve_file(&file.data, file.mime_type)),
            None => Routed::Reply(not_found()),
        }
    }
}

/// Views of a sequence of names.
pub open spec fn views_of_names(names: Seq<&'static str>) -> Seq<Seq<char>> {
    names.map_values(|name: &'static str| name@)
}

} // verus!
