use terminal_effects::history::{move_clip, Workspace};
use terminal_effects::runtime::{version_file, version_text};
use terminal_effects::media::{
    clip_filmstrip_cache_path, existing_asset, export_plan, ExportError, export_size, filmstrip_cache_path, filmstrip_count,
    frame_cache_path, import_one_with_ids, is_media_path, selected_video_clip, thumbnail_cache_path,
    waveform_cache_path, ProbedMedia,
};
use terminal_effects::model::{Asset, AssetKind, Clip, ClipTransform, Project};
use terminal_effects::paths::{
    find_project, history_dir, join_path, project_path, resolve_asset_path, snapshot_name,
    ProjectSearch,
};

#[test]
fn joins_paths_as_unix_does() {
    assert_eq!(join_path("/a", "b"), "/a/b");
    assert_eq!(join_path("/a/", "b"), "/a/b");
    assert_eq!(join_path("", "b"), "b");
    assert_eq!(join_path("/a", "/etc"), "/etc");
    assert_eq!(project_path("/work/edit"), "/work/edit/project.teproj");
}

#[test]
fn resolves_relative_and_absolute_asset_paths() {
    let mut asset = Asset {
        id: "asset_a".to_string(),
        name: "a.mp4".to_string(),
        path: "media/a.mp4".to_string(),
        kind: AssetKind::Video,
        duration_frames: 30,
        width: 1,
        height: 1,
        has_audio: false,
    };
    assert_eq!(resolve_asset_path("/p", &asset), "/p/media/a.mp4");
    asset.path = "/elsewhere/a.mp4".to_string();
    assert_eq!(resolve_asset_path("/p", &asset), "/elsewhere/a.mp4");
}

#[test]
fn history_lives_next_to_the_project_file() {
    assert_eq!(
        history_dir("/p/project.teproj", "undo"),
        Some("/p/.te/history/undo".to_string())
    );
    assert_eq!(history_dir("/", "undo"), None);
}

#[test]
fn snapshot_names_are_padded_and_sort_by_time() {
    assert_eq!(snapshot_name(42), "00000000000000000000000000000042.teproj");
    let earlier = snapshot_name(999);
    let later = snapshot_name(1000);
    assert!(earlier < later);
}

#[test]
fn project_discovery_walks_upward() {
    match find_project("/a/b/c", false) {
        ProjectSearch::Candidates(c) => assert_eq!(
            c,
            vec![
                "/a/b/c/project.teproj".to_string(),
                "/a/b/project.teproj".to_string(),
                "/a/project.teproj".to_string(),
                "/project.teproj".to_string(),
            ]
        ),
        _ => panic!("expected candidates"),
    }
    assert!(matches!(
        find_project("/a/project.teproj", true),
        ProjectSearch::Found(ref s) if s == "/a/project.teproj"
    ));
    match find_project("/a/clip.mp4", true) {
        ProjectSearch::Candidates(c) => assert_eq!(c[0], "/a/project.teproj"),
        _ => panic!("expected candidates"),
    }
}

#[test]
fn recognises_media_by_extension_in_any_case() {
    assert!(is_media_path("/x/clip.MP4"));
    assert!(is_media_path("song.flac"));
    assert!(!is_media_path("notes.txt"));
    assert!(!is_media_path(".mp4"));
    assert!(!is_media_path("folder/"));
}

fn asset(id: &str, kind: AssetKind) -> Asset {
    Asset {
        id: id.to_string(),
        name: format!("{id}.mp4"),
        path: format!("{id}.mp4"),
        kind,
        duration_frames: 100,
        width: 640,
        height: 360,
        has_audio: true,
    }
}

fn clip(id: &str, asset: &str, track: &str, start: i64, duration: i64) -> Clip {
    Clip {
        id: id.to_string(),
        asset_id: asset.to_string(),
        track_id: track.to_string(),
        start_frame: start,
        duration_frames: duration,
        source_in_frame: 0,
        transform: ClipTransform::default(),
    }
}

#[test]
fn picks_the_last_video_clip_under_the_playhead() {
    let mut p = Project::empty("t".to_string());
    p.assets.push(asset("asset_v", AssetKind::Video));
    p.assets.push(asset("asset_s", AssetKind::Audio));
    p.clips.push(clip("clip_1", "asset_v", "V1", 0, 50));
    p.clips.push(clip("clip_2", "asset_v", "V1", 10, 50));
    p.clips.push(clip("clip_3", "asset_s", "A1", 0, 100));
    assert_eq!(selected_video_clip(&p, 20), Some(1));
    assert_eq!(selected_video_clip(&p, 5), Some(0));
    assert_eq!(selected_video_clip(&p, 60), None);
    assert_eq!(selected_video_clip(&p, 80), None);
}

#[test]
fn importing_media_appends_to_its_track() {
    let mut p = Project::empty("t".to_string());
    let probe = ProbedMedia { duration_frames: 0, width: 1280, height: 720, has_video: true, has_audio: true };
    import_one_with_ids("/root", &mut p, "/root/a.mp4", probe, "asset_1".to_string(), "clip_1".to_string());
    assert_eq!((p.width, p.height), (1280, 720));
    assert_eq!(p.assets[0].path, "a.mp4");
    assert_eq!(p.assets[0].name, "a.mp4");
    assert_eq!(p.assets[0].duration_frames, 1);
    assert_eq!(p.clips[0].track_id, "V1");
    assert_eq!(p.selected_clip_id, Some("clip_1".to_string()));

    let song = ProbedMedia { duration_frames: 90, width: 0, height: 0, has_video: false, has_audio: true };
    import_one_with_ids("/root", &mut p, "/music/b.wav", song, "asset_2".to_string(), "clip_2".to_string());
    assert_eq!(p.assets[1].kind, AssetKind::Audio);
    assert_eq!(p.assets[1].path, "/music/b.wav");
    assert_eq!(p.clips[1].track_id, "A1");
    assert_eq!(p.clips[1].start_frame, 0);
    assert_eq!(p.selected_clip_id, Some("clip_1".to_string()));

    let more = ProbedMedia { duration_frames: 40, width: 1920, height: 1080, has_video: true, has_audio: false };
    import_one_with_ids("/root", &mut p, "/root/c.mov", more, "asset_3".to_string(), "clip_3".to_string());
    assert_eq!((p.width, p.height), (1280, 720));
    assert_eq!(p.clips[2].start_frame, 1);

    assert_eq!(existing_asset(&p, "/root", "/root/a.mp4"), Some(0));
    assert_eq!(existing_asset(&p, "/root", "/root//a.mp4"), Some(0));
    assert_eq!(existing_asset(&p, "/root", "/music/b.wav"), Some(1));
    assert_eq!(existing_asset(&p, "/root", "/root/d.mp4"), None);
}

#[test]
fn cache_files_are_named_by_revision() {
    assert_eq!(
        frame_cache_path("/p", 3, 45),
        "/p/.te/cache/frames/r0000000003-frame-0000000045.png"
    );
    assert_eq!(
        frame_cache_path("/p", 3, -5),
        "/p/.te/cache/frames/r0000000003-frame--000000005.png"
    );
    assert_eq!(thumbnail_cache_path("/p", "asset_a"), "/p/.te/cache/thumbnails/asset_a.jpg");
    assert_eq!(filmstrip_count(0), 2);
    assert_eq!(filmstrip_count(6), 6);
    assert_eq!(filmstrip_count(99), 20);
    assert_eq!(export_size(1921, 1), (1920, 2));
    assert_eq!(
        filmstrip_cache_path("/p", 7, 300, 600, 6),
        "/p/.te/cache/filmstrips/r0000000007-0000000300-0000000600-6.jpg"
    );
    assert_eq!(
        clip_filmstrip_cache_path("/p", 7, "clip_a", 12),
        "/p/.te/cache/clip-filmstrips/r0000000007-clip_a-12.jpg"
    );
    assert_eq!(waveform_cache_path("/p", 12, "clip_a"), "/p/.te/cache/waveforms/r0000000012-clip_a.png");
}

#[test]
fn discovers_project_from_child_directory() {
    match find_project("/work/test/a/b", false) {
        ProjectSearch::Candidates(c) => {
            assert!(c.contains(&"/work/test/project.teproj".to_string()));
            assert_eq!(c[0], "/work/test/a/b/project.teproj");
        }
        _ => panic!("expected candidates"),
    }
}

#[test]
fn reads_version_next_to_renderer() {
    assert_eq!(version_file("/tmp/t/bin/te-renderer"), Some("/tmp/t/VERSION".to_string()));
    assert_eq!(version_text("v1\n").as_deref(), Some("v1"));
}

#[test]
fn moving_keeps_what_the_clip_shows() {
    let mut project = Project::empty("t".to_string());
    project.assets.push(asset("asset_v", AssetKind::Video));
    project.clips.push(clip("clip_1", "asset_v", "V1", 0, 50));
    project.clips.push(clip("clip_2", "asset_v", "V1", 50, 20));
    let mut ws = Workspace { project, undo: Vec::new(), redo: Vec::new() };
    move_clip(&mut ws, "clip_1", None, 80).unwrap();
    let moved = &ws.project.clips[0];
    assert_eq!((moved.start_frame, moved.duration_frames, moved.source_in_frame), (80, 50, 0));
    assert_eq!(ws.project.clips[1].start_frame, 50);
}

#[test]
fn export_plans_read_each_clip_from_its_asset() {
    let mut p = Project::empty("t".to_string());
    assert!(matches!(export_plan(&p), Err(ExportError::EmptyTimeline)));
    let asset = |id: &str, kind: AssetKind, has_audio: bool| Asset {
        id: id.to_string(),
        name: id.to_string(),
        path: id.to_string(),
        kind,
        duration_frames: 100,
        width: 0,
        height: 0,
        has_audio,
    };
    p.assets.push(asset("v", AssetKind::Video, true));
    p.assets.push(asset("s", AssetKind::Audio, true));
    p.assets.push(asset("m", AssetKind::Video, false));
    let clip = |id: &str, asset_id: &str| Clip {
        id: id.to_string(),
        asset_id: asset_id.to_string(),
        track_id: "V1".to_string(),
        start_frame: 0,
        duration_frames: 10,
        source_in_frame: 0,
        transform: ClipTransform::default(),
    };
    p.clips.push(clip("c1", "m"));
    p.clips.push(clip("c2", "s"));
    p.clips.push(clip("c3", "v"));
    let plan = export_plan(&p).unwrap();
    assert_eq!(plan.inputs, vec![2, 1, 0]);
    assert_eq!(plan.video, vec![true, false, true]);
    assert_eq!(plan.audio, vec![false, true, true]);
    assert_eq!((plan.video_layers, plan.audio_streams), (2, 2));
    p.clips.push(clip("c4", "gone"));
    p.clips.push(clip("c5", "also gone"));
    assert!(matches!(export_plan(&p), Err(ExportError::ClipAssetMissing { clip: 3 })));
}
