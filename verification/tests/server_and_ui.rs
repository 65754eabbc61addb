use terminal_effects::media::is_media_extension;
use terminal_effects::server::content_type_of_extension;
use terminal_effects::icons::{icon_file, Icon};
use terminal_effects::keys::{handle_key, Key, KeyAction, KeyPress};
use terminal_effects::model::{id_from, new_id, Asset, AssetKind, Clip, ClipTransform, Project};
use terminal_effects::runtime::{package_renderers, resolve, version_file, version_text, RendererSource, RuntimeError};
use terminal_effects::server::{
    clamp_frame, content_range, content_type, file_span, frame_for_query, route, select_clip,
    set_playhead,
    HttpMethod, Route,
};
use terminal_effects::session::{session_prefix, session_prefix_from, session_url, SessionInfo};
use terminal_effects::ui::{report, short_time, truncate};
use terminal_effects::edit::EditError;
use terminal_effects::history::{split, Workspace};

#[test]
fn routes_requests_inside_the_session() {
    let p = "/session/abc/";
    assert!(matches!(route(HttpMethod::Get, "/other", p), Route::OutsideSession));
    assert!(matches!(route(HttpMethod::Get, "/session/abc/", p), Route::Index));
    assert!(matches!(route(HttpMethod::Get, "/session/abc/index.html", p), Route::Index));
    assert!(matches!(route(HttpMethod::Get, "/session/abc/app.js?v=2", p), Route::Script));
    assert!(matches!(route(HttpMethod::Get, "/session/abc/frame?frame=12", p), Route::Frame(ref q) if q == "frame=12"));
    assert!(matches!(route(HttpMethod::Get, "/session/abc/media/asset_a", p), Route::Media(ref id) if id == "asset_a"));
    assert!(matches!(route(HttpMethod::Get, "/session/abc/thumbnail/asset_b", p), Route::Thumbnail(ref id) if id == "asset_b"));
    assert!(matches!(route(HttpMethod::Get, "/session/abc/icons/play.svg", p), Route::Icon(ref i) if i == "icons/play.svg"));
    assert!(matches!(route(HttpMethod::Post, "/session/abc/api/split", p), Route::Split));
    assert!(matches!(route(HttpMethod::Post, "/session/abc/api/undo", p), Route::Undo));
    assert!(matches!(route(HttpMethod::Get, "/session/abc/api/split", p), Route::NotFound));
    assert!(matches!(route(HttpMethod::Other, "/session/abc/", p), Route::NotFound));
}

#[test]
fn preview_frames_come_from_the_query_or_the_playhead() {
    assert_eq!(frame_for_query("frame=12", 3, 100), 12);
    assert_eq!(frame_for_query("a=1&frame=500", 3, 100), 100);
    assert_eq!(frame_for_query("frame=-4", 3, 100), 0);
    assert_eq!(frame_for_query("frame=x&frame=9", 3, 100), 3);
    assert_eq!(frame_for_query("", 3, 100), 3);
}

#[test]
fn file_spans_follow_the_range_header() {
    let whole = file_span(None, 100);
    assert_eq!((whole.start, whole.end, whole.length, whole.partial), (0, 99, 100, false));
    let part = file_span(Some("bytes=10-19"), 100);
    assert_eq!((part.start, part.end, part.length, part.partial), (10, 19, 10, true));
    let empty = file_span(Some("bytes=0-"), 0);
    assert_eq!((empty.start, empty.end, empty.length, empty.partial), (0, 0, 0, false));
    assert_eq!(content_range(10, 19, 100), "bytes 10-19/100");
}

#[test]
fn media_types_follow_the_extension() {
    assert_eq!(content_type("/a/b.mp4"), "video/mp4");
    assert_eq!(content_type("b.m4v"), "video/mp4");
    assert_eq!(content_type("b.mov"), "video/quicktime");
    assert_eq!(content_type("b.wav"), "audio/wav");
    assert_eq!(content_type("b.MP4"), "application/octet-stream");
    assert_eq!(content_type("b"), "application/octet-stream");
}

#[test]
fn serves_known_icons_only() {
    assert_eq!(icon_file("icons/play.svg"), Some("play"));
    assert_eq!(icon_file("icons/trash-2.svg"), Some("trash-2"));
    assert_eq!(icon_file("icons/nope.svg"), None);
    assert_eq!(icon_file("play.svg"), None);
    assert_eq!(Icon::Sliders.svg_name(), "sliders-horizontal");
    assert_eq!(Icon::VolumeMuted.svg_name(), "volume-x");
}

fn project() -> Project {
    let mut p = Project::empty("t".to_string());
    p.assets.push(Asset {
        id: "asset_a".to_string(),
        name: "a".to_string(),
        path: "a.mp4".to_string(),
        kind: AssetKind::Video,
        duration_frames: 300,
        width: 1,
        height: 1,
        has_audio: false,
    });
    for (id, start) in [("clip_a", 0i64), ("clip_b", 100)] {
        p.clips.push(Clip {
            id: id.to_string(),
            asset_id: "asset_a".to_string(),
            track_id: "V1".to_string(),
            start_frame: start,
            duration_frames: 100,
            source_in_frame: 0,
            transform: ClipTransform::default(),
        });
    }
    p
}

#[test]
fn playhead_and_selection_requests() {
    let mut p = project();
    set_playhead(&mut p, 500);
    assert_eq!(p.playhead_frame, 200);
    set_playhead(&mut p, -1);
    assert_eq!(p.playhead_frame, 0);
    select_clip(&mut p, "clip_b").unwrap();
    assert_eq!(p.selected_clip_id, Some("clip_b".to_string()));
    assert!(select_clip(&mut p, "clip").is_err());
}

fn press(key: Key) -> KeyPress {
    KeyPress { key, ctrl: false, shift: false }
}

#[test]
fn keys_scrub_select_and_ask_for_edits() {
    let mut p = project();
    let mut playing = false;
    assert!(matches!(handle_key(&mut p, press(Key::Right), &mut playing), KeyAction::Save));
    assert_eq!(p.playhead_frame, 1);
    let shifted = KeyPress { key: Key::Right, ctrl: false, shift: true };
    handle_key(&mut p, shifted, &mut playing);
    assert_eq!(p.playhead_frame, 31);
    handle_key(&mut p, press(Key::End), &mut playing);
    assert_eq!(p.playhead_frame, 200);
    handle_key(&mut p, shifted, &mut playing);
    assert_eq!(p.playhead_frame, 200);
    let back = KeyPress { key: Key::Left, ctrl: false, shift: true };
    handle_key(&mut p, press(Key::Home), &mut playing);
    handle_key(&mut p, back, &mut playing);
    assert_eq!(p.playhead_frame, 0);
    assert!(matches!(handle_key(&mut p, press(Key::Char('s')), &mut playing), KeyAction::NeedSelection));
    handle_key(&mut p, press(Key::Tab), &mut playing);
    assert_eq!(p.selected_clip_id, Some("clip_a".to_string()));
    handle_key(&mut p, press(Key::Tab), &mut playing);
    assert_eq!(p.selected_clip_id, Some("clip_b".to_string()));
    handle_key(&mut p, press(Key::Tab), &mut playing);
    assert_eq!(p.selected_clip_id, Some("clip_a".to_string()));
    assert!(matches!(handle_key(&mut p, press(Key::Char('s')), &mut playing), KeyAction::Split(ref id) if id == "clip_a"));
    assert!(matches!(handle_key(&mut p, press(Key::Delete), &mut playing), KeyAction::Remove(_)));
    assert!(matches!(handle_key(&mut p, press(Key::Char(' ')), &mut playing), KeyAction::Playback(true)));
    assert!(playing);
    let undo = KeyPress { key: Key::Char('z'), ctrl: true, shift: false };
    assert!(matches!(handle_key(&mut p, undo, &mut playing), KeyAction::Undo));
    let shifted_z = KeyPress { key: Key::Char('z'), ctrl: true, shift: true };
    assert!(matches!(handle_key(&mut p, shifted_z, &mut playing), KeyAction::Redo));
    let capital_z = KeyPress { key: Key::Char('Z'), ctrl: true, shift: true };
    assert!(matches!(handle_key(&mut p, capital_z, &mut playing), KeyAction::Redo));
    let redo_y = KeyPress { key: Key::Char('y'), ctrl: true, shift: false };
    assert!(matches!(handle_key(&mut p, redo_y, &mut playing), KeyAction::Redo));
    assert!(matches!(handle_key(&mut p, press(Key::Escape), &mut playing), KeyAction::Quit));
}

#[test]
fn renderer_versions_must_match_unless_overridden() {
    assert_eq!(
        resolve(Some(("/r".to_string(), RendererSource::Package)), Some("1.0".to_string()), "1.0"),
        Ok("/r".to_string())
    );
    assert_eq!(
        resolve(Some(("/r".to_string(), RendererSource::Package)), Some("0.9".to_string()), "1.0"),
        Err(RuntimeError::VersionMismatch)
    );
    assert_eq!(
        resolve(Some(("/r".to_string(), RendererSource::Override)), None, "1.0"),
        Ok("/r".to_string())
    );
    assert_eq!(resolve(None, None, "1.0"), Err(RuntimeError::Missing));
    assert_eq!(version_file("/opt/te/bin/te-renderer"), Some("/opt/te/VERSION".to_string()));
    assert_eq!(version_text("v1\n"), Some("v1".to_string()));
    assert_eq!(version_text(" \n"), None);
    let found = package_renderers("/usr/bin/te");
    assert_eq!(found[0], "/usr/bin/../libexec/terminal-effects-renderer/bin/te-renderer");
    assert_eq!(found.len(), 3);
}

#[test]
fn labels_and_times_for_the_interface() {
    assert_eq!(truncate("short", 10), "short");
    assert_eq!(truncate("a long asset name", 8), "a lon...");
    assert_eq!(truncate("abcdef", 2), "...");
    let fps = terminal_effects::model::Fps::default();
    assert_eq!(short_time(30 * 75, fps), "01:15");
    assert_eq!(short_time(-3, fps), "00:00");
}

#[test]
fn sessions_are_secret_and_local() {
    let prefix = session_prefix();
    assert_eq!(prefix.len(), 42);
    assert!(prefix.starts_with("/session/") && prefix.ends_with('/'));
    assert_ne!(prefix, session_prefix());
    assert_eq!(session_url(4173, "/session/x/"), "http://127.0.0.1:4173/session/x/");
    let info = SessionInfo::new(7, "/p/project.teproj".to_string(), "u".to_string());
    assert_eq!(info.renderer, "chromium-offscreen");
}

#[test]
fn status_line_after_an_edit() {
    let mut ws = Workspace { project: project(), undo: Vec::new(), redo: Vec::new() };
    let done = split(&mut ws, "clip_a", 50);
    assert_eq!(report(&done, &ws.project, "clip_a", None), "split -> revision 1");
    let failed: Result<terminal_effects::history::EditReport, EditError> = Err(EditError::NothingToUndo);
    assert_eq!(report(&failed, &ws.project, "", None), "nothing to undo");
    let missing = split(&mut ws, "zz", 50);
    assert_eq!(report(&missing, &ws.project, "zz", None), "clip not found: zz");
}

#[test]
fn ids_and_session_prefixes_carry_their_random_text() {
    assert_eq!(id_from("clip", "0123456789abcdef"), "clip_0123456789");
    assert_eq!(id_from("", "abcdefghij"), "_abcdefghij");
    let id = new_id("asset");
    assert_eq!(id.len(), 16);
    assert!(id.starts_with("asset_"));
    assert!(id[6..].chars().all(|c| c.is_ascii_hexdigit() && !c.is_ascii_uppercase()));
    assert_ne!(new_id("clip"), new_id("clip"));
    assert_eq!(
        session_prefix_from("0123456789abcdef0123456789abcdef"),
        "/session/0123456789abcdef0123456789abcdef/"
    );
    let prefix = session_prefix();
    assert!(prefix[9..41].chars().all(|c| c.is_ascii_hexdigit() && !c.is_ascii_uppercase()));
}

#[test]
fn timeline_length_is_the_largest_clip_end() {
    let mut p = Project::empty("t".to_string());
    assert_eq!(p.duration_frames(), 0);
    let clip = |id: &str, start: i64, duration: i64| Clip {
        id: id.to_string(),
        asset_id: "a".to_string(),
        track_id: "V1".to_string(),
        start_frame: start,
        duration_frames: duration,
        source_in_frame: 0,
        transform: ClipTransform::default(),
    };
    p.clips.push(clip("c1", -10, 5));
    assert_eq!(p.duration_frames(), -5);
    p.clips.push(clip("c2", 20, 10));
    p.clips.push(clip("c3", 0, 4));
    assert_eq!(p.duration_frames(), 30);
    assert_eq!(clamp_frame(45, 30), 30);
    assert_eq!(clamp_frame(-2, 30), 0);
    assert_eq!(clamp_frame(12, 30), 12);
}

#[test]
fn extensions_decide_media_and_content_types() {
    assert!(is_media_extension("MP4"));
    assert!(is_media_extension("flac"));
    assert!(!is_media_extension("txt"));
    assert_eq!(content_type_of_extension("m4v"), "video/mp4");
    assert_eq!(content_type_of_extension("wav"), "audio/wav");
    assert_eq!(content_type_of_extension("MP4"), "application/octet-stream");
}
