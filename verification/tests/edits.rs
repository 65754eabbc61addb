use terminal_effects::edit::EditError;
use terminal_effects::history::{
    add_clip, append_clip, duplicate_clip, move_clip, redo, remove, split, transform_clip, trim,
    undo, Workspace,
};
use terminal_effects::model::{
    Asset, AssetKind, Clip, ClipTransform, FitMode, Fps, LookupError, Project,
};

fn fixture() -> Workspace {
    let mut project = Project::empty("test".to_string());
    project.fps = Fps::default();
    project.assets.push(Asset {
        id: "asset_a".to_string(),
        name: "a.mp4".to_string(),
        path: "a.mp4".to_string(),
        kind: AssetKind::Video,
        duration_frames: 300,
        width: 1920,
        height: 1080,
        has_audio: true,
    });
    project.clips.push(Clip {
        id: "clip_a".to_string(),
        asset_id: "asset_a".to_string(),
        track_id: "V1".to_string(),
        start_frame: 0,
        duration_frames: 300,
        source_in_frame: 0,
        transform: ClipTransform::default(),
    });
    project.selected_clip_id = Some("clip_a".to_string());
    assert!(project.validate().is_ok());
    Workspace { project, undo: Vec::new(), redo: Vec::new() }
}

fn clip<'a>(ws: &'a Workspace, id: &str) -> &'a Clip {
    ws.project.clips.iter().find(|clip| clip.id == id).unwrap()
}

#[test]
fn edit_split_preserves_source_duration() {
    let mut ws = fixture();
    let report = split(&mut ws, "clip_a", 120).unwrap();
    assert_eq!(report.revision_after, 1);
    assert_eq!(ws.project.clips.len(), 2);
    assert_eq!(ws.project.clips[0].duration_frames, 120);
    assert_eq!(ws.project.clips[1].source_in_frame, 120);
    assert_eq!(ws.project.clips[1].duration_frames, 180);
}

#[test]
fn edit_undo_restores_split() {
    let mut ws = fixture();
    split(&mut ws, "clip_a", 120).unwrap();
    undo(&mut ws).unwrap();
    assert_eq!(ws.project.clips.len(), 1);
    assert_eq!(ws.project.clips[0].duration_frames, 300);
}

#[test]
fn trim_updates_all_timing_fields() {
    let mut ws = fixture();
    trim(&mut ws, "clip_a", 30, 120, 45).unwrap();
    assert_eq!(ws.project.clips[0].start_frame, 30);
    assert_eq!(ws.project.clips[0].duration_frames, 120);
    assert_eq!(ws.project.clips[0].source_in_frame, 45);
}

#[test]
fn add_uses_source_remainder_and_supports_undo_redo() {
    let mut ws = fixture();
    let report = add_clip(&mut ws, "asset_a", None, 330, 60, None).unwrap();
    let created = report.created[0].clone();
    let added = clip(&ws, &created);
    assert_eq!(added.track_id, "V1");
    assert_eq!(added.start_frame, 330);
    assert_eq!(added.source_in_frame, 60);
    assert_eq!(added.duration_frames, 240);

    undo(&mut ws).unwrap();
    assert_eq!(ws.project.clips.len(), 1);
    redo(&mut ws).unwrap();
    assert_eq!(ws.project.clips.len(), 2);
}

#[test]
fn append_places_clip_at_end_of_compatible_track() {
    let mut ws = fixture();
    let report = append_clip(&mut ws, "asset_a", None, 30, Some(90)).unwrap();
    let added = clip(&ws, &report.created[0]);
    assert_eq!(added.start_frame, 300);
    assert_eq!(added.source_in_frame, 30);
    assert_eq!(added.duration_frames, 90);
}

#[test]
fn duplicate_can_override_source_range() {
    let mut ws = fixture();
    transform_clip(&mut ws, "clip_a", Some(90), Some(FitMode::Cover), None, None, false).unwrap();
    let report = duplicate_clip(&mut ws, "clip_a", None, 400, Some(120), Some(60)).unwrap();
    let added = clip(&ws, &report.created[0]);
    assert_eq!(report.affected, vec!["clip_a".to_string()]);
    assert_eq!(added.asset_id, "asset_a");
    assert_eq!(added.track_id, "V1");
    assert_eq!(added.start_frame, 400);
    assert_eq!(added.source_in_frame, 120);
    assert_eq!(added.duration_frames, 60);
    assert_eq!(added.transform.rotation_degrees, 90);
    assert_eq!(added.transform.fit, FitMode::Cover);
}

#[test]
fn add_rejects_ranges_beyond_source_media() {
    let mut ws = fixture();
    let error = add_clip(&mut ws, "asset_a", None, 0, 250, Some(60)).unwrap_err();
    assert!(error.describe(&ws.project, "asset_a", None).contains("beyond the source media"));
    assert_eq!(error, EditError::BeyondSourceMedia);
    assert_eq!(ws.project.clips.len(), 1);
}

#[test]
fn transform_is_non_destructive_and_undoable() {
    let mut ws = fixture();
    transform_clip(
        &mut ws,
        "clip_a",
        Some(90),
        Some(FitMode::Cover),
        Some(0.25f64.to_bits()),
        Some(0.75f64.to_bits()),
        false,
    )
    .unwrap();
    let c = &ws.project.clips[0];
    assert_eq!(c.source_in_frame, 0);
    assert_eq!(c.duration_frames, 300);
    assert_eq!(c.transform.rotation_degrees, 90);
    assert_eq!(c.transform.fit, FitMode::Cover);
    assert_eq!(f64::from_bits(c.transform.position_x_bits), 0.25);
    assert_eq!(f64::from_bits(c.transform.position_y_bits), 0.75);

    undo(&mut ws).unwrap();
    assert_eq!(ws.project.clips[0].transform, ClipTransform::default());
}

#[test]
fn transform_rejects_invalid_values_without_history_entry() {
    let mut ws = fixture();
    assert!(transform_clip(&mut ws, "clip_a", Some(45), None, None, None, false).is_err());
    assert!(
        transform_clip(&mut ws, "clip_a", None, None, Some(1.1f64.to_bits()), None, false).is_err()
    );
    assert_eq!(ws.project.revision, 0);
    assert!(ws.undo.is_empty());
}

#[test]
fn resolves_unambiguous_asset_prefixes() {
    let mut project = Project::empty("test".to_string());
    project.assets.push(Asset {
        id: "asset_abcdef".to_string(),
        name: "a.mp4".to_string(),
        path: "a.mp4".to_string(),
        kind: AssetKind::Video,
        duration_frames: 30,
        width: 1920,
        height: 1080,
        has_audio: true,
    });
    assert_eq!(project.resolve_asset_index("asset_a").unwrap(), 0);
    assert!(project.resolve_asset_index("missing").is_err());
}

#[test]
fn ambiguous_and_exact_ids_resolve_as_documented() {
    let mut ws = fixture();
    split(&mut ws, "clip_a", 100).unwrap();
    assert_eq!(ws.project.resolve_clip_index("clip_a"), Ok(0));
    assert_eq!(ws.project.resolve_clip_index("clip_"), Err(LookupError::Ambiguous));
    assert_eq!(ws.project.resolve_clip_index("nope"), Err(LookupError::NotFound));
}

#[test]
fn edit_errors_leave_the_workspace_unchanged() {
    let mut ws = fixture();
    assert!(matches!(split(&mut ws, "clip_a", 0), Err(EditError::SplitOutsideClip { .. })));
    assert!(matches!(split(&mut ws, "clip_a", 300), Err(EditError::SplitOutsideClip { .. })));
    assert!(matches!(move_clip(&mut ws, "clip_a", None, -1), Err(EditError::NegativeStart)));
    assert!(matches!(move_clip(&mut ws, "clip_a", Some("A1"), 5), Err(EditError::PlacementIncompatible { .. })));
    assert!(matches!(move_clip(&mut ws, "clip_a", Some("V9"), 5), Err(EditError::TrackNotFound)));
    assert!(matches!(trim(&mut ws, "clip_a", 0, 0, 0), Err(EditError::NonPositiveDuration)));
    assert!(matches!(trim(&mut ws, "clip_a", 0, 300, 10), Err(EditError::TrimBeyondSourceMedia)));
    assert!(matches!(remove(&mut ws, "x"), Err(EditError::Clip(LookupError::NotFound))));
    assert!(matches!(undo(&mut ws), Err(EditError::NothingToUndo)));
    assert!(matches!(redo(&mut ws), Err(EditError::NothingToRedo)));
    assert_eq!(ws.project.revision, 0);
    assert_eq!(ws.project.clips.len(), 1);
}

#[test]
fn remove_selects_the_clip_that_took_its_place() {
    let mut ws = fixture();
    split(&mut ws, "clip_a", 100).unwrap();
    let second = ws.project.clips[1].id.clone();
    let report = remove(&mut ws, "clip_a").unwrap();
    assert_eq!(report.affected, vec!["clip_a".to_string()]);
    assert_eq!(ws.project.clips.len(), 1);
    assert_eq!(ws.project.selected_clip_id, Some(second));
    let last = ws.project.clips[0].id.clone();
    remove(&mut ws, &last).unwrap();
    assert_eq!(ws.project.selected_clip_id, None);
}

#[test]
fn undo_then_redo_round_trips_revisions() {
    let mut ws = fixture();
    move_clip(&mut ws, "clip_a", None, 10).unwrap();
    assert_eq!(ws.project.revision, 1);
    let u = undo(&mut ws).unwrap();
    assert_eq!((u.revision_before, u.revision_after), (1, 2));
    assert_eq!(ws.project.clips[0].start_frame, 0);
    let r = redo(&mut ws).unwrap();
    assert_eq!((r.revision_before, r.revision_after), (2, 3));
    assert_eq!(ws.project.clips[0].start_frame, 10);
    let again = move_clip(&mut ws, "clip_a", None, 20).unwrap();
    assert!(again.undoable);
    assert!(ws.redo.is_empty());
}

#[test]
fn duplicate_without_overrides_copies_the_clip() {
    let mut ws = fixture();
    trim(&mut ws, "clip_a", 0, 100, 20).unwrap();
    transform_clip(&mut ws, "clip_a", Some(180), None, None, None, false).unwrap();
    let report = duplicate_clip(&mut ws, "clip_a", None, 500, None, None).unwrap();
    let copy = ws.project.clips.last().unwrap();
    assert_eq!(copy.id, report.created[0]);
    assert_eq!((copy.start_frame, copy.source_in_frame, copy.duration_frames), (500, 20, 100));
    assert_eq!(copy.track_id, "V1");
    assert_eq!(copy.transform.rotation_degrees, 180);
    assert_eq!(ws.project.selected_clip_id, Some(copy.id.clone()));
}

#[test]
fn append_without_duration_runs_to_the_end_of_the_source() {
    let mut ws = fixture();
    trim(&mut ws, "clip_a", 10, 50, 0).unwrap();
    let report = append_clip(&mut ws, "asset", None, 100, None).unwrap();
    let added = clip(&ws, &report.created[0]);
    assert_eq!(added.start_frame, 60);
    assert_eq!(added.source_in_frame, 100);
    assert_eq!(added.duration_frames, 200);
}

#[test]
fn edit_errors_describe_what_the_command_named() {
    let mut ws = fixture();
    let split_error = split(&mut ws, "clip_a", 300).unwrap_err();
    assert_eq!(
        split_error.describe(&ws.project, "clip_a", None),
        "split point must be inside clip_a (0f..300f)"
    );
    let placement = move_clip(&mut ws, "clip_a", Some("A1"), 5).unwrap_err();
    assert_eq!(placement.describe(&ws.project, "clip_a", Some("A1")), "a.mp4 cannot be placed on A1");
    let track = move_clip(&mut ws, "clip_a", Some("V9"), 5).unwrap_err();
    assert_eq!(track.describe(&ws.project, "clip_a", Some("V9")), "track not found: V9");
    let missing = remove(&mut ws, "x").unwrap_err();
    assert_eq!(missing.describe(&ws.project, "x", None), "clip not found: x");
    let asset = add_clip(&mut ws, "nope", None, 0, 0, None).unwrap_err();
    assert_eq!(asset.describe(&ws.project, "nope", None), "asset not found: nope");
    let rotation = transform_clip(&mut ws, "clip_a", Some(45), None, None, None, false).unwrap_err();
    assert_eq!(rotation.describe(&ws.project, "clip_a", None), "rotation must be 0, 90, 180, or 270 degrees");
    let position = transform_clip(&mut ws, "clip_a", None, None, Some(1.1f64.to_bits()), None, false).unwrap_err();
    assert_eq!(position.describe(&ws.project, "clip_a", None), "position x must be between 0 and 1");
    assert_eq!(undo(&mut ws).unwrap_err().describe(&ws.project, "", None), "nothing to undo");
}

#[test]
fn validation_errors_name_the_clip_at_fault() {
    let ws = fixture();
    let mut project = ws.project;
    project.clips[0].duration_frames = 0;
    let timing = project.validate().unwrap_err();
    assert_eq!(timing.describe(&project), "clip clip_a has invalid timing");
    project.clips[0].duration_frames = 300;
    project.clips[0].asset_id = "asset_x".to_string();
    let asset = project.validate().unwrap_err();
    assert_eq!(asset.describe(&project), "clip clip_a refers to missing asset asset_x");
    project.clips[0].asset_id = "asset_a".to_string();
    project.clips[0].track_id = "V9".to_string();
    let track = project.validate().unwrap_err();
    assert_eq!(track.describe(&project), "clip clip_a refers to missing track V9");
    project.clips[0].track_id = "V1".to_string();
    project.selected_clip_id = Some("nope".to_string());
    let selection = project.validate().unwrap_err();
    assert_eq!(selection.describe(&project), "selected clip does not exist: nope");
    project.schema_version = 2;
    let schema = project.validate().unwrap_err();
    assert_eq!(schema.describe(&project), "unsupported project schema version 2");
}

#[test]
fn undo_and_redo_report_what_they_restore() {
    let mut ws = fixture();
    let edit = split(&mut ws, "clip_a", 120).unwrap();
    let right = edit.created[0].clone();
    assert_ne!(right, "clip_a");
    let u = undo(&mut ws).unwrap();
    assert_eq!(u.operation, "undo");
    assert_eq!(u.revision_before, edit.revision_after);
    assert_eq!(u.revision_after, edit.revision_after + 1);
    assert_eq!(u.affected, vec!["clip_a".to_string()]);
    assert!(u.created.is_empty() && !u.undoable);
    let r = redo(&mut ws).unwrap();
    assert_eq!(r.operation, "redo");
    assert_eq!(r.revision_after, edit.revision_after + 2);
    assert!(r.undoable && r.created.is_empty());
    assert_eq!(ws.project.clips.len(), 2);
    assert_eq!(ws.project.clips[1].id, right);
    undo(&mut ws).unwrap();
    move_clip(&mut ws, "clip_a", None, 5).unwrap();
    assert!(matches!(redo(&mut ws), Err(EditError::NothingToRedo)));
}

#[test]
fn trim_is_refused_exactly_outside_the_source() {
    let mut ws = fixture();
    assert!(matches!(trim(&mut ws, "clip_a", -1, 10, 0), Err(EditError::NegativeStart)));
    assert!(matches!(trim(&mut ws, "clip_a", 0, 10, -1), Err(EditError::NegativeSourceIn)));
    assert!(matches!(trim(&mut ws, "clip_a", 0, 292, 10), Err(EditError::TrimBeyondSourceMedia)));
    trim(&mut ws, "clip_a", 7, 291, 10).unwrap();
    assert_eq!(ws.project.clips[0].source_in_frame + ws.project.clips[0].duration_frames, 301);
    assert_eq!(ws.project.selected_clip_id, Some("clip_a".to_string()));
}

#[test]
fn append_starts_where_the_track_ends() {
    let mut ws = fixture();
    add_clip(&mut ws, "asset_a", None, 400, 0, Some(20)).unwrap();
    let report = append_clip(&mut ws, "asset_a", None, 0, Some(10)).unwrap();
    let added = clip(&ws, &report.created[0]);
    assert_eq!(added.start_frame, 420);
    assert!(ws.project.clips.iter().filter(|c| c.track_id == "V1" && c.id != added.id).all(|c| c.start_frame + c.duration_frames <= 420));
}

#[test]
fn accepted_edits_leave_a_valid_project() {
    let mut ws = fixture();
    split(&mut ws, "clip_a", 100).unwrap();
    assert!(ws.project.validate().is_ok());
    let second = ws.project.clips[1].id.clone();
    trim(&mut ws, &second, 200, 50, 120).unwrap();
    move_clip(&mut ws, "clip_a", Some("V1"), 10).unwrap();
    transform_clip(&mut ws, "clip_a", None, None, None, None, true).unwrap();
    duplicate_clip(&mut ws, "clip_a", None, 600, None, None).unwrap();
    append_clip(&mut ws, "asset_a", None, 0, Some(30)).unwrap();
    remove(&mut ws, &second).unwrap();
    assert!(ws.project.validate().is_ok());
    assert_eq!(ws.project.revision, 7);
}
