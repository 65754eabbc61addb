//! The editor server's request logic: byte ranges, content types, icons and
//! the routes of the local API.
use crate::text::{
    chars_of, find_char, first_index_of, is_prefix, owned, parse_i64_range, parse_i64_spec,
    parse_u64_range, parse_u64_spec, starts_with, str_eq,
};
use crate::model::{lemma_max_end_bounds, lemma_resolve_in_bounds, resolve_id, LookupError, Project, ProjectView};
use crate::paths::{extension_of, path_extension};
use crate::text::{decimal, push_padded};
use vstd::prelude::*;

verus! {

/// The part of `s` before the first `c`, or all of `s`.
pub open spec fn before_first(s: Seq<char>, c: char) -> Seq<char> {
    match first_index_of(s, c) {
        Some(k) => s.take(k),
        None => s,
    }
}

/// The range that one segment `start-end` or `start-` of a `Range` header
/// names in a body of `total` bytes.
pub open spec fn segment_range(segment: Seq<char>, total: u64) -> Option<(u64, u64)> {
    match first_index_of(segment, '-') {
        None => None,
        Some(k) => match parse_u64_spec(segment.take(k)) {
            None => None,
            Some(start) => {
                let rest = segment.skip(k + 1);
                let end: Option<u64> = if rest.len() == 0 {
                    Some((total - 1) as u64)
                } else {
                    match parse_u64_spec(rest) {
                        Some(e) => Some(
                            if e < total - 1 {
                                e
                            } else {
                                (total - 1) as u64
                            },
                        ),
                        None => None,
                    }
                };
                match end {
                    None => None,
                    Some(end) => if start <= end && start < total {
                        Some((start, end))
                    } else {
                        None
                    },
                }
            },
        },
    }
}

/// The byte range that an HTTP `Range` header asks of a body of `total`
/// bytes: the first range of a `bytes=` list, as `start-end` or `start-`,
/// with the end clamped to the last byte. `None` when the header does not
/// parse or the range does not start inside the body.
pub open spec fn parse_range_spec(value: Seq<char>, total: u64) -> Option<(u64, u64)> {
    if total == 0 || !is_prefix("bytes="@, value) {
        None
    } else {
        segment_range(before_first(value.skip(6), ','), total)
    }
}

/// The range that the segment `v[lo..hi]` of a `Range` header names.
fn parse_range_segment(v: &Vec<char>, lo: usize, hi: usize, total: u64) -> (r: Option<(u64, u64)>)
    requires
        lo <= hi <= v.len(),
        total > 0,
    ensures
        r == segment_range(v@.subrange(lo as int, hi as int), total),
{
    let ghost segment = v@.subrange(lo as int, hi as int);
    let dash = match find_char(v, lo, hi, '-') {
        Some(k) => lo + k,
        None => {
            return None;
        },
    };
    assert(segment.take(dash - lo) =~= v@.subrange(lo as int, dash as int));
    let start = match parse_u64_range(v, lo, dash) {
        Some(s) => s,
        None => {
            return None;
        },
    };
    assert(segment.skip(dash - lo + 1) =~= v@.subrange(dash + 1, hi as int));
    let end = if dash + 1 == hi {
        total - 1
    } else {
        match parse_u64_range(v, dash + 1, hi) {
            Some(e) => if e < total - 1 {
                e
            } else {
                total - 1
            },
            None => {
                return None;
            },
        }
    };
    if start <= end && start < total {
        Some((start, end))
    } else {
        None
    }
}

/// Parses an HTTP `Range` header against a body of `total` bytes.
pub fn parse_range(value: &str, total: u64) -> (r: Option<(u64, u64)>)
    ensures
        r == parse_range_spec(value@, total),
        r matches Some((start, end)) ==> start <= end < total,
{
    if total == 0 {
        return None;
    }
    proof {
        reveal_strlit("bytes=");
    }
    if !starts_with(value, "bytes=") {
        return None;
    }
    let v = chars_of(value);
    let n = v.len();
    let ghost rest = v@.skip(6);
    assert(rest =~= v@.subrange(6, n as int));
    let seg_end: usize = match find_char(&v, 6, n, ',') {
        Some(k) => 6 + k,
        None => n,
    };
    let ghost segment = before_first(rest, ',');
    assert(segment =~= v@.subrange(6, seg_end as int));
    parse_range_segment(&v, 6, seg_end, total)
}

// ---------------------------------------------------------------- routes

/// The methods of HTTP requests that the editor tells apart.
#[derive(Clone, Copy, Debug, PartialEq, Eq, Structural)]
pub enum HttpMethod {
    Get,
    Post,
    Other,
}

/// What the editor server does with a request.
pub enum Route {
    /// The URL is outside the session: a plain-text 404.
    OutsideSession,
    Index,
    Styles,
    Script,
    /// An icon, by its path under the session (`icons/...`).
    Icon(String),
    Project,
    /// A preview frame, with the query string of the request.
    Frame(String),
    /// An asset's media, by asset id.
    Media(String),
    /// An asset's thumbnail, by asset id.
    Thumbnail(String),
    Playhead,
    Select,
    Split,
    Move,
    Trim,
    Remove,
    Undo,
    Redo,
    Import,
    Export,
    /// Inside the session, but no such endpoint: a JSON 404.
    NotFound,
}

/// `Route` with its strings taken as character sequences.
pub enum RouteView {
    OutsideSession,
    Index,
    Styles,
    Script,
    Icon(Seq<char>),
    Project,
    Frame(Seq<char>),
    Media(Seq<char>),
    Thumbnail(Seq<char>),
    Playhead,
    Select,
    Split,
    Move,
    Trim,
    Remove,
    Undo,
    Redo,
    Import,
    Export,
    NotFound,
}

impl View for Route {
    type V = RouteView;

    open spec fn view(&self) -> RouteView {
        match self {
            Route::OutsideSession => RouteView::OutsideSession,
            Route::Index => RouteView::Index,
            Route::Styles => RouteView::Styles,
            Route::Script => RouteView::Script,
            Route::Icon(s) => RouteView::Icon(s@),
            Route::Project => RouteView::Project,
            Route::Frame(s) => RouteView::Frame(s@),
            Route::Media(s) => RouteView::Media(s@),
            Route::Thumbnail(s) => RouteView::Thumbnail(s@),
            Route::Playhead => RouteView::Playhead,
            Route::Select => RouteView::Select,
            Route::Split => RouteView::Split,
            Route::Move => RouteView::Move,
            Route::Trim => RouteView::Trim,
            Route::Remove => RouteView::Remove,
            Route::Undo => RouteView::Undo,
            Route::Redo => RouteView::Redo,
            Route::Import => RouteView::Import,
            Route::Export => RouteView::Export,
            Route::NotFound => RouteView::NotFound,
        }
    }
}

/// The route of a `GET` for `path` (inside the session, without the query).
pub open spec fn get_route(path: Seq<char>, query: Seq<char>) -> RouteView {
    if path == Seq::<char>::empty() || path == "index.html"@ {
        RouteView::Index
    } else if path == "styles.css"@ {
        RouteView::Styles
    } else if path == "app.js"@ {
        RouteView::Script
    } else if is_prefix("icons/"@, path) {
        RouteView::Icon(path)
    } else if path == "api/project"@ {
        RouteView::Project
    } else if path == "frame"@ {
        RouteView::Frame(query)
    } else if is_prefix("media/"@, path) {
        RouteView::Media(path.skip(6))
    } else if is_prefix("thumbnail/"@, path) {
        RouteView::Thumbnail(path.skip(10))
    } else {
        RouteView::NotFound
    }
}

/// The route of a `POST` for `path` (inside the session).
pub open spec fn post_route(path: Seq<char>) -> RouteView {
    if path == "api/playhead"@ {
        RouteView::Playhead
    } else if path == "api/select"@ {
        RouteView::Select
    } else if path == "api/split"@ {
        RouteView::Split
    } else if path == "api/move"@ {
        RouteView::Move
    } else if path == "api/trim"@ {
        RouteView::Trim
    } else if path == "api/remove"@ {
        RouteView::Remove
    } else if path == "api/undo"@ {
        RouteView::Undo
    } else if path == "api/redo"@ {
        RouteView::Redo
    } else if path == "api/import"@ {
        RouteView::Import
    } else if path == "api/export"@ {
        RouteView::Export
    } else {
        RouteView::NotFound
    }
}

/// A `POST` whose path under the session has no `?` goes to the route of
/// that path.
pub proof fn lemma_post_in_session(prefix: Seq<char>, path: Seq<char>)
    requires
        forall|k: int| 0 <= k < path.len() ==> path[k] != '?',
    ensures
        route_spec(HttpMethod::Post, prefix + path, prefix) == post_route(path),
{
    let url = prefix + path;
    assert(url.subrange(0, prefix.len() as int) =~= prefix);
    assert(url.skip(prefix.len() as int) =~= path);
    crate::text::lemma_first_index_none(path, '?');
}

/// Each `POST` endpoint of the editor's API, under any session prefix, is
/// the command of its name.
pub proof fn law_post_routes_name_their_commands(prefix: Seq<char>)
    ensures
        route_spec(HttpMethod::Post, prefix + "api/playhead"@, prefix) == RouteView::Playhead,
        route_spec(HttpMethod::Post, prefix + "api/select"@, prefix) == RouteView::Select,
        route_spec(HttpMethod::Post, prefix + "api/split"@, prefix) == RouteView::Split,
        route_spec(HttpMethod::Post, prefix + "api/move"@, prefix) == RouteView::Move,
        route_spec(HttpMethod::Post, prefix + "api/trim"@, prefix) == RouteView::Trim,
        route_spec(HttpMethod::Post, prefix + "api/remove"@, prefix) == RouteView::Remove,
        route_spec(HttpMethod::Post, prefix + "api/undo"@, prefix) == RouteView::Undo,
        route_spec(HttpMethod::Post, prefix + "api/redo"@, prefix) == RouteView::Redo,
        route_spec(HttpMethod::Post, prefix + "api/import"@, prefix) == RouteView::Import,
        route_spec(HttpMethod::Post, prefix + "api/export"@, prefix) == RouteView::Export,
{
    reveal_strlit("api/playhead");
    reveal_strlit("api/select");
    reveal_strlit("api/split");
    reveal_strlit("api/move");
    reveal_strlit("api/trim");
    reveal_strlit("api/remove");
    reveal_strlit("api/undo");
    reveal_strlit("api/redo");
    reveal_strlit("api/import");
    reveal_strlit("api/export");
    assert("api/move"@[4] != "api/trim"@[4]);
    assert("api/move"@[4] != "api/undo"@[4]);
    assert("api/move"@[4] != "api/redo"@[4]);
    assert("api/trim"@[4] != "api/undo"@[4]);
    assert("api/trim"@[4] != "api/redo"@[4]);
    assert("api/undo"@[4] != "api/redo"@[4]);
    assert("api/select"@[4] != "api/remove"@[4]);
    assert("api/select"@[4] != "api/import"@[4]);
    assert("api/select"@[4] != "api/export"@[4]);
    assert("api/remove"@[4] != "api/import"@[4]);
    assert("api/remove"@[4] != "api/export"@[4]);
    assert("api/import"@[4] != "api/export"@[4]);
    lemma_post_in_session(prefix, "api/playhead"@);
    lemma_post_in_session(prefix, "api/select"@);
    lemma_post_in_session(prefix, "api/split"@);
    lemma_post_in_session(prefix, "api/move"@);
    lemma_post_in_session(prefix, "api/trim"@);
    lemma_post_in_session(prefix, "api/remove"@);
    lemma_post_in_session(prefix, "api/undo"@);
    lemma_post_in_session(prefix, "api/redo"@);
    lemma_post_in_session(prefix, "api/import"@);
    lemma_post_in_session(prefix, "api/export"@);
}

/// No two paths lead a `POST` to the same endpoint: each command has one
/// path.
pub proof fn law_post_routes_are_distinct(a: Seq<char>, b: Seq<char>)
    requires
        post_route(a) == post_route(b),
        post_route(a) != RouteView::NotFound,
    ensures
        a == b,
{
}

/// The route of a request for `url` in the session under `prefix`: outside
/// the session when the URL does not start with the prefix; else the part
/// after it, up to the first `?`, names the endpoint, and the part after that
/// `?` is the query.
pub open spec fn route_spec(method: HttpMethod, url: Seq<char>, prefix: Seq<char>) -> RouteView {
    if !is_prefix(prefix, url) {
        RouteView::OutsideSession
    } else {
        let relative = url.skip(prefix.len() as int);
        let path = before_first(relative, '?');
        let query = match first_index_of(relative, '?') {
            Some(k) => relative.skip(k + 1),
            None => Seq::<char>::empty(),
        };
        match method {
            HttpMethod::Get => get_route(path, query),
            HttpMethod::Post => post_route(path),
            HttpMethod::Other => RouteView::NotFound,
        }
    }
}

/// The characters `v[lo..hi]` as a string.
fn string_range(v: &Vec<char>, lo: usize, hi: usize) -> (r: String)
    requires
        lo <= hi <= v.len(),
    ensures
        r@ == v@.subrange(lo as int, hi as int),
{
    let mut r = String::new();
    let mut i = lo;
    while i < hi
        invariant
            lo <= i <= hi <= v.len(),
            r@ == v@.subrange(lo as int, i as int),
        decreases hi - i,
    {
        crate::text::push_char(&mut r, v[i]);
        i = i + 1;
        assert(r@ =~= v@.subrange(lo as int, i as int));
    }
    r
}

fn get_route_of(path: &str, query: String) -> (r: Route)
    ensures
        r@ == get_route(path@, query@),
{
    proof {
        reveal_strlit("media/");
        reveal_strlit("thumbnail/");
    }
    if path.unicode_len() == 0 || str_eq(path, "index.html") {
        assert(path@.len() == 0 ==> path@ =~= Seq::<char>::empty());
        Route::Index
    } else if str_eq(path, "styles.css") {
        Route::Styles
    } else if str_eq(path, "app.js") {
        Route::Script
    } else if starts_with(path, "icons/") {
        Route::Icon(owned(path))
    } else if str_eq(path, "api/project") {
        Route::Project
    } else if str_eq(path, "frame") {
        Route::Frame(query)
    } else if starts_with(path, "media/") {
        let v = chars_of(path);
        let id = string_range(&v, 6, v.len());
        assert(id@ =~= path@.skip(6));
        Route::Media(id)
    } else if starts_with(path, "thumbnail/") {
        let v = chars_of(path);
        let id = string_range(&v, 10, v.len());
        assert(id@ =~= path@.skip(10));
        Route::Thumbnail(id)
    } else {
        Route::NotFound
    }
}

fn post_route_of(path: &str) -> (r: Route)
    ensures
        r@ == post_route(path@),
{
    if str_eq(path, "api/playhead") {
        Route::Playhead
    } else if str_eq(path, "api/select") {
        Route::Select
    } else if str_eq(path, "api/split") {
        Route::Split
    } else if str_eq(path, "api/move") {
        Route::Move
    } else if str_eq(path, "api/trim") {
        Route::Trim
    } else if str_eq(path, "api/remove") {
        Route::Remove
    } else if str_eq(path, "api/undo") {
        Route::Undo
    } else if str_eq(path, "api/redo") {
        Route::Redo
    } else if str_eq(path, "api/import") {
        Route::Import
    } else if str_eq(path, "api/export") {
        Route::Export
    } else {
        Route::NotFound
    }
}

/// Routes a request for `url` in the session under `prefix`.
pub fn route(method: HttpMethod, url: &str, prefix: &str) -> (r: Route)
    ensures
        r@ == route_spec(method, url@, prefix@),
{
    if !starts_with(url, prefix) {
        return Route::OutsideSession;
    }
    let v = chars_of(url);
    let n = v.len();
    let start = prefix.unicode_len();
    let ghost relative = url@.skip(start as int);
    assert(relative =~= v@.subrange(start as int, n as int));
    let (path, query) = match find_char(&v, start, n, '?') {
        Some(k) => {
            let q = start + k;
            assert(relative.take(k as int) =~= v@.subrange(start as int, q as int));
            assert(relative.skip(k + 1) =~= v@.subrange(q + 1, n as int));
            (string_range(&v, start, q), string_range(&v, q + 1, n))
        },
        None => (string_range(&v, start, n), String::new()),
    };
    match method {
        HttpMethod::Get => get_route_of(path.as_str(), query),
        HttpMethod::Post => post_route_of(path.as_str()),
        HttpMethod::Other => Route::NotFound,
    }
}

// ---------------------------------------------------------------- requests

/// `x` clamped to `lo..=hi` (for `lo <= hi`), as `Ord::clamp`.
pub open spec fn clamp(x: int, lo: int, hi: int) -> int {
    if x < lo {
        lo
    } else if x > hi {
        hi
    } else {
        x
    }
}

/// The value of the first `frame=` parameter of a query string, split at
/// every `&`.
pub open spec fn frame_param(q: Seq<char>) -> Option<Seq<char>>
    decreases q.len(),
{
    let part = before_first(q, '&');
    if is_prefix("frame="@, part) {
        Some(part.skip(6))
    } else {
        match first_index_of(q, '&') {
            Some(k) => if 0 <= k < q.len() {
                frame_param(q.skip(k + 1))
            } else {
                None
            },
            None => None,
        }
    }
}

/// The frame that a preview request asks for: its `frame=` parameter when
/// that is an integer, else the playhead; clamped to the timeline.
pub open spec fn requested_frame(query: Seq<char>, playhead: i64, duration: int) -> int {
    let asked: int = match frame_param(query) {
        Some(t) => match parse_i64_spec(t) {
            Some(v) => v as int,
            None => playhead as int,
        },
        None => playhead as int,
    };
    clamp(asked, 0, duration)
}

/// Whether `v[lo..hi]` starts with `frame=`.
fn frame_prefix(v: &Vec<char>, lo: usize, hi: usize) -> (r: bool)
    requires
        lo <= hi <= v.len(),
    ensures
        r == is_prefix("frame="@, v@.subrange(lo as int, hi as int)),
{
    proof {
        reveal_strlit("frame=");
    }
    let ghost s = v@.subrange(lo as int, hi as int);
    if hi - lo < 6 {
        return false;
    }
    let r = v[lo] == 'f' && v[lo + 1] == 'r' && v[lo + 2] == 'a' && v[lo + 3] == 'm' && v[lo + 4]
        == 'e' && v[lo + 5] == '=';
    assert(r ==> s.subrange(0, 6) =~= "frame="@);
    assert(!r ==> s.subrange(0, 6) != "frame="@) by {
        if !r && s.subrange(0, 6) == "frame="@ {
            assert(s.subrange(0, 6)[0] == 'f');
            assert(s.subrange(0, 6)[1] == 'r');
            assert(s.subrange(0, 6)[2] == 'a');
            assert(s.subrange(0, 6)[3] == 'm');
            assert(s.subrange(0, 6)[4] == 'e');
            assert(s.subrange(0, 6)[5] == '=');
        }
    }
    r
}

/// The value of the first `frame=` parameter of `v[lo..n]`, as an `i64`
/// when it is one.
fn frame_param_value(v: &Vec<char>, start: usize) -> (r: Option<Option<i64>>)
    requires
        start <= v.len(),
    ensures
        match r {
            None => frame_param(v@.subrange(start as int, v.len() as int)) is None,
            Some(x) => frame_param(v@.subrange(start as int, v.len() as int)) matches Some(t) && x
                == parse_i64_spec(t),
        },
{
    let n = v.len();
    let mut lo = start;
    proof {
        reveal_strlit("frame=");
    }
    loop
        invariant
            lo <= n == v.len(),
            frame_param(v@.subrange(start as int, n as int)) == frame_param(v@.subrange(lo as int, n as int)),
        decreases n - lo,
    {
        let ghost q = v@.subrange(lo as int, n as int);
        let end = match find_char(v, lo, n, '&') {
            Some(k) => lo + k,
            None => n,
        };
        assert(before_first(q, '&') =~= v@.subrange(lo as int, end as int));
        if frame_prefix(v, lo, end) {
            proof {
                reveal_strlit("frame=");
            }
            assert(before_first(q, '&').skip(6) =~= v@.subrange(lo + 6, end as int));
            return Some(parse_i64_range(v, lo + 6, end));
        }
        if end == n {
            return None;
        }
        assert(q.skip(end - lo + 1) =~= v@.subrange(end + 1, n as int));
        lo = end + 1;
    }
}

/// The frame that a preview request asks for, from its query string.
pub fn frame_for_query(query: &str, playhead: i64, duration: i64) -> (r: i64)
    requires
        duration >= 0,
    ensures
        r == requested_frame(query@, playhead, duration as int),
{
    let v = chars_of(query);
    assert(v@.subrange(0, v.len() as int) =~= query@);
    let asked = match frame_param_value(&v, 0) {
        Some(Some(f)) => f,
        _ => playhead,
    };
    if asked < 0 {
        0
    } else if asked > duration {
        duration
    } else {
        asked
    }
}

/// A frame kept within the timeline `0..=duration`.
pub fn clamp_frame(frame: i64, duration: i64) -> (r: i64)
    requires
        duration >= 0,
    ensures
        r == clamp(frame as int, 0, duration as int),
{
    if frame < 0 {
        0
    } else if frame > duration {
        duration
    } else {
        frame
    }
}

/// Moves the playhead to `frame`, clamped to the timeline.
pub fn set_playhead(p: &mut Project, frame: i64)
    requires
        old(p)@.ends_fit(),
    ensures
        final(p)@ == (ProjectView {
            playhead_frame: clamp(frame as int, 0, old(p)@.duration()) as i64,
            ..old(p)@
        }),
{
    let duration = p.duration_frames();
    proof {
        lemma_max_end_bounds(p@, p@.clips.len());
    }
    p.playhead_frame = if frame < 0 {
        0
    } else if frame > duration {
        duration
    } else {
        frame
    };
}

/// Selects the clip that `query` names (an id or an unambiguous prefix).
pub fn select_clip(p: &mut Project, query: &str) -> (r: Result<(), LookupError>)
    ensures
        match resolve_id(old(p)@.clip_ids(), query@) {
            Ok(i) => r is Ok && final(p)@ == (ProjectView {
                selected_clip_id: Some(old(p)@.clips[i].id),
                ..old(p)@
            }),
            Err(e) => r == Err::<(), LookupError>(e) && final(p)@ == old(p)@,
        },
{
    let i = match p.resolve_clip_index(query) {
        Ok(i) => i,
        Err(e) => {
            return Err(e);
        },
    };
    proof {
        lemma_resolve_in_bounds(p@.clip_ids(), query@);
    }
    assert(p@.clips[i as int] == p.clips@[i as int]@);
    let id = p.clips[i].id.clone();
    p.selected_clip_id = Some(id);
    Ok(())
}

/// The part of a file that a response sends.
#[derive(Clone, Copy, Debug, PartialEq, Eq, Structural)]
pub struct FileSpan {
    pub start: u64,
    pub end: u64,
    pub length: u64,
    /// Whether the response is a partial one (status 206) for a range.
    pub partial: bool,
}

/// The span of a file of `total` bytes that a response sends: the range the
/// `Range` header asks for, when it parses; else the whole file.
pub open spec fn file_span_spec(header: Option<Seq<char>>, total: u64) -> FileSpan {
    let range = match header {
        Some(h) => parse_range_spec(h, total),
        None => None,
    };
    match range {
        Some((start, end)) => FileSpan {
            start,
            end,
            length: (end - start + 1) as u64,
            partial: true,
        },
        None => FileSpan {
            start: 0,
            end: if total == 0 {
                0
            } else {
                (total - 1) as u64
            },
            length: total,
            partial: false,
        },
    }
}

/// The span of a file to send for an optional `Range` header.
pub fn file_span(header: Option<&str>, total: u64) -> (r: FileSpan)
    ensures
        r == file_span_spec(
            match header {
                Some(h) => Some(h@),
                None => None,
            },
            total,
        ),
{
    let range = match header {
        Some(h) => parse_range(h, total),
        None => None,
    };
    match range {
        Some((start, end)) => FileSpan { start, end, length: end - start + 1, partial: true },
        None => FileSpan {
            start: 0,
            end: if total == 0 {
                0
            } else {
                total - 1
            },
            length: total,
            partial: false,
        },
    }
}

/// `bytes start-end/total`, the value of a `Content-Range` header.
pub open spec fn content_range_text(start: u64, end: u64, total: u64) -> Seq<char> {
    "bytes "@ + decimal(start as nat) + seq!['-'] + decimal(end as nat) + seq!['/'] + decimal(
        total as nat,
    )
}

/// The `Content-Range` header value for a span of a file.
pub fn content_range(start: u64, end: u64, total: u64) -> (r: String)
    ensures
        r@ == content_range_text(start, end, total),
{
    proof {
        reveal_strlit("bytes ");
    }
    let mut out: Vec<char> = vec!['b', 'y', 't', 'e', 's', ' '];
    assert(out@ =~= "bytes "@);
    push_padded(&mut out, start as u128, 0);
    out.push('-');
    push_padded(&mut out, end as u128, 0);
    out.push('/');
    push_padded(&mut out, total as u128, 0);
    proof {
        crate::text::lemma_decimal(start as nat);
        crate::text::lemma_decimal(end as nat);
        crate::text::lemma_decimal(total as nat);
    }
    assert(out@ =~= content_range_text(start, end, total));
    crate::text::string_of(&out)
}

/// The media type of a file, by its extension as written.
pub open spec fn content_type_spec(p: Seq<char>) -> Seq<char> {
    match path_extension(p) {
        Some(e) => extension_content_type(e),
        None => "application/octet-stream"@,
    }
}

/// The media type for a file extension (compared as written).
pub open spec fn extension_content_type(e: Seq<char>) -> Seq<char> {
    if e == "mp4"@ || e == "m4v"@ {
        "video/mp4"@
    } else if e == "mov"@ {
        "video/quicktime"@
    } else if e == "webm"@ {
        "video/webm"@
    } else if e == "mkv"@ {
        "video/x-matroska"@
    } else if e == "mp3"@ {
        "audio/mpeg"@
    } else if e == "m4a"@ {
        "audio/mp4"@
    } else if e == "wav"@ {
        "audio/wav"@
    } else {
        "application/octet-stream"@
    }
}

/// The media type to send a file with.
pub fn content_type(path: &str) -> (r: &'static str)
    ensures
        r@ == content_type_spec(path@),
{
    match extension_of(path) {
        None => "application/octet-stream",
        Some(e) => content_type_of_extension(e.as_str()),
    }
}

/// The media type for a file extension.
pub fn content_type_of_extension(e: &str) -> (r: &'static str)
    ensures
        r@ == extension_content_type(e@),
{
    if str_eq(e, "mp4") || str_eq(e, "m4v") {
        "video/mp4"
    } else if str_eq(e, "mov") {
        "video/quicktime"
    } else if str_eq(e, "webm") {
        "video/webm"
    } else if str_eq(e, "mkv") {
        "video/x-matroska"
    } else if str_eq(e, "mp3") {
        "audio/mpeg"
    } else if str_eq(e, "m4a") {
        "audio/mp4"
    } else if str_eq(e, "wav") {
        "audio/wav"
    } else {
        "application/octet-stream"
    }
}

} // verus!
