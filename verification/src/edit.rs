//! Timeline edits. Each edit is a function from a project to a new project
//! (or a refusal); `history` commits them and keeps them undoable.
use crate::model::{
    default_transform, first_exact_at, is_valid_position, is_valid_rotation,
    law_ids_resolve_exactly_or_by_unique_prefix, lemma_first_exact_in_bounds, lemma_map_insert,
    lemma_map_push, lemma_map_remove, lemma_map_update, lemma_resolve_in_bounds,
    lemma_resolved_id_resolves_to_itself, lemma_valid_clip, position_ok, resolve_id, rotation_ok, AssetKind,
    clip_fine, exact_at, lemma_clip_fine_same_media, lemma_first_exact_exists, lemma_valid_iff_parts,
    Clip, ClipTransform, ClipView, FitMode, LookupError, Project, ProjectView, TrackKind,
    TrackView, ValidationError, validation_error_text,
};
use crate::text::{owned, push_int, push_str, signed_pad, string_of};
use vstd::prelude::*;

verus! {

/// Why an edit was refused.
#[derive(Clone, Copy, Debug, PartialEq, Eq, Structural)]
pub enum EditError {
    /// The clip query names no single clip.
    Clip(LookupError),
    /// The asset query names no single asset.
    Asset(LookupError),
    /// The requested track does not exist.
    TrackNotFound,
    /// No track can hold the asset's kind of media.
    NoCompatibleTrack,
    /// The chosen track cannot hold the asset's kind of media.
    TrackIncompatible,
    /// The clip's asset is not in the project.
    ClipAssetMissing,
    /// A moved clip's media (the asset at this index) does not fit the
    /// target track.
    PlacementIncompatible { asset: usize },
    /// The split point is not strictly inside the clip at this index.
    SplitOutsideClip { clip: usize },
    NegativeStart,
    NegativeSourceIn,
    NonPositiveDuration,
    /// A placed clip would read past the end of its source media.
    BeyondSourceMedia,
    /// A trimmed clip would read past the end of its source media.
    TrimBeyondSourceMedia,
    /// A transform reset was combined with transform values.
    ResetWithValues,
    /// A transform names no value to change.
    NothingToTransform,
    InvalidRotation,
    InvalidPositionX,
    InvalidPositionY,
    /// The edited project breaks a rule of well-formed projects.
    Invalid(ValidationError),
    NothingToUndo,
    NothingToRedo,
}

/// The message of an edit error, as the command line prints it.
pub open spec fn edit_error_text(e: EditError) -> Seq<char> {
    match e {
        EditError::Clip(LookupError::NotFound) => "clip not found"@,
        EditError::Clip(LookupError::Ambiguous) => "clip prefix is ambiguous"@,
        EditError::Asset(LookupError::NotFound) => "asset not found"@,
        EditError::Asset(LookupError::Ambiguous) => "asset prefix is ambiguous"@,
        EditError::TrackNotFound => "track not found"@,
        EditError::NoCompatibleTrack => "project has no compatible track"@,
        EditError::TrackIncompatible => "asset cannot be placed on the track"@,
        EditError::ClipAssetMissing => "clip asset missing"@,
        EditError::PlacementIncompatible { .. } => "clip cannot be placed on the track"@,
        EditError::SplitOutsideClip { .. } => "split point must be inside the clip"@,
        EditError::NegativeStart => "clip start cannot be negative"@,
        EditError::NegativeSourceIn => "clip source in cannot be negative"@,
        EditError::NonPositiveDuration => "clip duration must be positive"@,
        EditError::BeyondSourceMedia => "clip extends beyond the source media"@,
        EditError::TrimBeyondSourceMedia => "trim extends beyond the source media"@,
        EditError::ResetWithValues => "--reset cannot be combined with transform values"@,
        EditError::NothingToTransform => "provide --rotate, --fit, --position-x, --position-y, or --reset"@,
        EditError::InvalidRotation => "rotation must be 0, 90, 180, or 270 degrees"@,
        EditError::InvalidPositionX => "position x must be between 0 and 1"@,
        EditError::InvalidPositionY => "position y must be between 0 and 1"@,
        EditError::Invalid(_) => "the edited project is not valid"@,
        EditError::NothingToUndo => "nothing to undo"@,
        EditError::NothingToRedo => "nothing to redo"@,
    }
}

impl EditError {
    /// The message of the error, as the command line prints it.
    pub fn message(&self) -> (r: &'static str)
        ensures
            r@ == edit_error_text(*self),
    {
        match self {
            EditError::Clip(LookupError::NotFound) => "clip not found",
            EditError::Clip(LookupError::Ambiguous) => "clip prefix is ambiguous",
            EditError::Asset(LookupError::NotFound) => "asset not found",
            EditError::Asset(LookupError::Ambiguous) => "asset prefix is ambiguous",
            EditError::TrackNotFound => "track not found",
            EditError::NoCompatibleTrack => "project has no compatible track",
            EditError::TrackIncompatible => "asset cannot be placed on the track",
            EditError::ClipAssetMissing => "clip asset missing",
            EditError::PlacementIncompatible { .. } => "clip cannot be placed on the track",
            EditError::SplitOutsideClip { .. } => "split point must be inside the clip",
            EditError::NegativeStart => "clip start cannot be negative",
            EditError::NegativeSourceIn => "clip source in cannot be negative",
            EditError::NonPositiveDuration => "clip duration must be positive",
            EditError::BeyondSourceMedia => "clip extends beyond the source media",
            EditError::TrimBeyondSourceMedia => "trim extends beyond the source media",
            EditError::ResetWithValues => "--reset cannot be combined with transform values",
            EditError::NothingToTransform => "provide --rotate, --fit, --position-x, --position-y, or --reset",
            EditError::InvalidRotation => "rotation must be 0, 90, 180, or 270 degrees",
            EditError::InvalidPositionX => "position x must be between 0 and 1",
            EditError::InvalidPositionY => "position y must be between 0 and 1",
            EditError::Invalid(_) => "the edited project is not valid",
            EditError::NothingToUndo => "nothing to undo",
            EditError::NothingToRedo => "nothing to redo",
        }
    }
}

/// The track a command names, as its messages write it.
pub open spec fn named_track(track: Option<Seq<char>>) -> Seq<char> {
    match track {
        Some(t) => t,
        None => Seq::empty(),
    }
}

/// The full message of an edit error, as the command line prints it, for a
/// command on `p` with the clip or asset query `query` and the track
/// `track`: the short message with the query, the track, the asset's name
/// or the clip and its frames. A refused result names the rule it breaks.
/// An index that names nothing in `p` gives the short message.
pub open spec fn edit_error_detail(
    e: EditError,
    p: ProjectView,
    query: Seq<char>,
    track: Option<Seq<char>>,
) -> Seq<char> {
    match e {
        EditError::Clip(LookupError::NotFound) => "clip not found: "@ + query,
        EditError::Clip(LookupError::Ambiguous) => "clip prefix is ambiguous: "@ + query,
        EditError::Asset(LookupError::NotFound) => "asset not found: "@ + query,
        EditError::Asset(LookupError::Ambiguous) => "asset prefix is ambiguous: "@ + query,
        EditError::TrackNotFound => "track not found: "@ + named_track(track),
        EditError::TrackIncompatible => "asset cannot be placed on "@ + named_track(track),
        EditError::PlacementIncompatible { asset } => if asset < p.assets.len() {
            p.assets[asset as int].name + " cannot be placed on "@ + named_track(track)
        } else {
            edit_error_text(e)
        },
        EditError::SplitOutsideClip { clip } => if clip < p.clips.len() {
            let c = p.clips[clip as int];
            "split point must be inside "@ + c.id + " ("@ + signed_pad(c.start_frame as int, 0) + "f.."@
                + signed_pad(c.end(), 0) + "f)"@
        } else {
            edit_error_text(e)
        },
        EditError::Invalid(v) => validation_error_text(v),
        _ => edit_error_text(e),
    }
}

impl EditError {
    /// The full message of the error, for a command on `p` with the clip or
    /// asset query `query` and the track `track`.
    pub fn describe(&self, p: &Project, query: &str, track: Option<&str>) -> (r: String)
        ensures
            r@ == edit_error_detail(*self, p@, query@, str_option_view(track)),
    {
        let mut out: Vec<char> = Vec::new();
        match *self {
            EditError::Clip(LookupError::NotFound) => {
                push_str(&mut out, "clip not found: ");
                push_str(&mut out, query);
            },
            EditError::Clip(LookupError::Ambiguous) => {
                push_str(&mut out, "clip prefix is ambiguous: ");
                push_str(&mut out, query);
            },
            EditError::Asset(LookupError::NotFound) => {
                push_str(&mut out, "asset not found: ");
                push_str(&mut out, query);
            },
            EditError::Asset(LookupError::Ambiguous) => {
                push_str(&mut out, "asset prefix is ambiguous: ");
                push_str(&mut out, query);
            },
            EditError::TrackNotFound => {
                push_str(&mut out, "track not found: ");
                match track {
                    Some(t) => push_str(&mut out, t),
                    None => {},
                }
            },
            EditError::TrackIncompatible => {
                push_str(&mut out, "asset cannot be placed on ");
                match track {
                    Some(t) => push_str(&mut out, t),
                    None => {},
                }
            },
            EditError::PlacementIncompatible { asset } if asset < p.assets.len() => {
                push_str(&mut out, p.assets[asset].name.as_str());
                push_str(&mut out, " cannot be placed on ");
                match track {
                    Some(t) => push_str(&mut out, t),
                    None => {},
                }
            },
            EditError::SplitOutsideClip { clip } if clip < p.clips.len() => {
                let c = &p.clips[clip];
                assert(c@ == p@.clips[clip as int]);
                push_str(&mut out, "split point must be inside ");
                push_str(&mut out, c.id.as_str());
                push_str(&mut out, " (");
                push_int(&mut out, c.start_frame as i128);
                push_str(&mut out, "f..");
                push_int(&mut out, c.start_frame as i128 + c.duration_frames as i128);
                push_str(&mut out, "f)");
            },
            EditError::Invalid(v) => {
                push_str(&mut out, v.message());
            },
            _ => {
                push_str(&mut out, self.message());
            },
        }
        string_of(&out)
    }
}

/// What an edit does to a project: the new project, the ids of the clips it
/// touched, and the ids of the clips it created.
#[verifier::ext_equal]
pub struct EditOutcome {
    pub project: ProjectView,
    pub affected: Seq<Seq<char>>,
    pub created: Seq<Seq<char>>,
}

/// Video goes on video tracks and audio on audio tracks.
pub open spec fn compatible(kind: AssetKind, track: TrackKind) -> bool {
    (kind == AssetKind::Video && track == TrackKind::Video) || (kind == AssetKind::Audio && track
        == TrackKind::Audio)
}

pub fn is_compatible(kind: AssetKind, track: TrackKind) -> (r: bool)
    ensures
        r == compatible(kind, track),
{
    match (kind, track) {
        (AssetKind::Video, TrackKind::Video) => true,
        (AssetKind::Audio, TrackKind::Audio) => true,
        _ => false,
    }
}

pub open spec fn first_compatible_at(tracks: Seq<TrackView>, kind: AssetKind, i: int) -> bool {
    0 <= i < tracks.len() && compatible(kind, tracks[i].kind) && forall|j: int|
        0 <= j < i ==> !compatible(kind, #[trigger] tracks[j].kind)
}

/// The first track that can hold this kind of media.
pub open spec fn first_compatible(tracks: Seq<TrackView>, kind: AssetKind) -> Option<int> {
    if exists|i: int| first_compatible_at(tracks, kind, i) {
        Some(choose|i: int| first_compatible_at(tracks, kind, i))
    } else {
        None
    }
}

/// The track a placed asset goes on: the requested one, or else the first
/// that can hold it; refused when that track cannot hold it.
pub open spec fn track_for_asset(p: ProjectView, kind: AssetKind, requested: Option<Seq<char>>) -> Result<
    int,
    EditError,
> {
    let found = match requested {
        Some(id) => match p.find_track(id) {
            Some(t) => Ok(t),
            None => Err(EditError::TrackNotFound),
        },
        None => match first_compatible(p.tracks, kind) {
            Some(t) => Ok(t),
            None => Err(EditError::NoCompatibleTrack),
        },
    };
    match found {
        Ok(t) => if compatible(kind, p.tracks[t].kind) {
            Ok(t)
        } else {
            Err(EditError::TrackIncompatible)
        },
        Err(e) => Err(e),
    }
}

/// The project with one more clip, selected.
pub open spec fn with_new_clip(p: ProjectView, c: ClipView) -> ProjectView {
    ProjectView { clips: p.clips.push(c), selected_clip_id: Some(c.id), ..p }
}

/// The project with clip `i` replaced and selected.
pub open spec fn with_clip(p: ProjectView, i: int, c: ClipView) -> ProjectView {
    ProjectView { clips: p.clips.update(i, c), selected_clip_id: Some(c.id), ..p }
}

/// Places an asset on a track as a new clip: the common part of add, append
/// and duplicate. The duration defaults to the rest of the source media.
pub open spec fn add_to_project(
    p: ProjectView,
    asset_query: Seq<char>,
    track: Option<Seq<char>>,
    at_frame: i64,
    source_in_frame: i64,
    duration_frames: Option<i64>,
    clip_id: Seq<char>,
) -> Result<ProjectView, EditError> {
    if at_frame < 0 {
        Err(EditError::NegativeStart)
    } else if source_in_frame < 0 {
        Err(EditError::NegativeSourceIn)
    } else {
        match resolve_id(p.asset_ids(), asset_query) {
            Err(e) => Err(EditError::Asset(e)),
            Ok(a) => {
                let asset = p.assets[a];
                match track_for_asset(p, asset.kind, track) {
                    Err(e) => Err(e),
                    Ok(t) => {
                        let duration: int = match duration_frames {
                            Some(d) => d as int,
                            None => asset.duration_frames - source_in_frame,
                        };
                        if duration <= 0 {
                            Err(EditError::NonPositiveDuration)
                        } else if source_in_frame + duration > asset.duration_frames + 1 {
                            Err(EditError::BeyondSourceMedia)
                        } else {
                            Ok(
                                with_new_clip(
                                    p,
                                    ClipView {
                                        id: clip_id,
                                        asset_id: asset.id,
                                        track_id: p.tracks[t].id,
                                        start_frame: at_frame,
                                        duration_frames: duration as i64,
                                        source_in_frame: source_in_frame,
                                        transform: default_transform(),
                                    },
                                ),
                            )
                        }
                    },
                }
            },
        }
    }
}

/// `te add`: an asset placed at an exact timeline position.
pub open spec fn add_spec(
    p: ProjectView,
    asset_query: Seq<char>,
    track: Option<Seq<char>>,
    at_frame: i64,
    source_in_frame: i64,
    duration_frames: Option<i64>,
    clip_id: Seq<char>,
) -> Result<EditOutcome, EditError> {
    match add_to_project(p, asset_query, track, at_frame, source_in_frame, duration_frames, clip_id) {
        Ok(q) => Ok(EditOutcome { project: q, affected: seq![], created: seq![clip_id] }),
        Err(e) => Err(e),
    }
}

/// Where the clips on a track end: the largest end frame among the first `n`
/// clips whose track is `track`, or zero.
pub open spec fn track_end(p: ProjectView, track: Seq<char>, n: nat) -> int
    decreases n,
{
    if n == 0 {
        0
    } else {
        let m = track_end(p, track, (n - 1) as nat);
        let c = p.clips[n - 1];
        if c.track_id == track && c.end() > m {
            c.end()
        } else {
            m
        }
    }
}

/// `te append`: an asset placed where its compatible track ends.
pub open spec fn append_spec(
    p: ProjectView,
    asset_query: Seq<char>,
    track: Option<Seq<char>>,
    source_in_frame: i64,
    duration_frames: Option<i64>,
    clip_id: Seq<char>,
) -> Result<EditOutcome, EditError> {
    match resolve_id(p.asset_ids(), asset_query) {
        Err(e) => Err(EditError::Asset(e)),
        Ok(a) => {
            let asset = p.assets[a];
            match track_for_asset(p, asset.kind, track) {
                Err(e) => Err(e),
                Ok(t) => {
                    let target = p.tracks[t].id;
                    let at = track_end(p, target, p.clips.len()) as i64;
                    add_spec(p, asset.id, Some(target), at, source_in_frame, duration_frames, clip_id)
                },
            }
        },
    }
}

/// `te duplicate`: a new clip of an existing clip's asset that inherits its
/// track, source range and transform unless they are overridden.
pub open spec fn duplicate_spec(
    p: ProjectView,
    clip_query: Seq<char>,
    track: Option<Seq<char>>,
    at_frame: i64,
    source_in_frame: Option<i64>,
    duration_frames: Option<i64>,
    clip_id: Seq<char>,
) -> Result<EditOutcome, EditError> {
    match resolve_id(p.clip_ids(), clip_query) {
        Err(e) => Err(EditError::Clip(e)),
        Ok(i) => {
            let source = p.clips[i];
            let track_id = match track {
                Some(t) => t,
                None => source.track_id,
            };
            let source_in = match source_in_frame {
                Some(s) => s,
                None => source.source_in_frame,
            };
            let duration = match duration_frames {
                Some(d) => d,
                None => source.duration_frames,
            };
            match add_to_project(
                p,
                source.asset_id,
                Some(track_id),
                at_frame,
                source_in,
                Some(duration),
                clip_id,
            ) {
                Err(e) => Err(e),
                Ok(q) => match resolve_id(q.clip_ids(), clip_id) {
                    Err(e) => Err(EditError::Clip(e)),
                    Ok(k) => Ok(
                        EditOutcome {
                            project: ProjectView {
                                clips: q.clips.update(
                                    k,
                                    ClipView { transform: source.transform, ..q.clips[k] },
                                ),
                                ..q
                            },
                            affected: seq![source.id],
                            created: seq![clip_id],
                        },
                    ),
                },
            }
        },
    }
}

/// `te transform`: a clip's rotation, fit or focal position set, or all of
/// them reset; the clip's timing is untouched.
pub open spec fn transform_spec(
    p: ProjectView,
    clip_query: Seq<char>,
    rotation_degrees: Option<i16>,
    fit: Option<FitMode>,
    position_x_bits: Option<u64>,
    position_y_bits: Option<u64>,
    reset: bool,
) -> Result<EditOutcome, EditError> {
    let any = rotation_degrees is Some || fit is Some || position_x_bits is Some
        || position_y_bits is Some;
    if reset && any {
        Err(EditError::ResetWithValues)
    } else if !reset && !any {
        Err(EditError::NothingToTransform)
    } else if rotation_degrees matches Some(r) && !rotation_ok(r) {
        Err(EditError::InvalidRotation)
    } else if position_x_bits matches Some(x) && !position_ok(x) {
        Err(EditError::InvalidPositionX)
    } else if position_y_bits matches Some(y) && !position_ok(y) {
        Err(EditError::InvalidPositionY)
    } else {
        match resolve_id(p.clip_ids(), clip_query) {
            Err(e) => Err(EditError::Clip(e)),
            Ok(i) => {
                let c = p.clips[i];
                let t = if reset {
                    default_transform()
                } else {
                    ClipTransform {
                        rotation_degrees: match rotation_degrees {
                            Some(r) => r,
                            None => c.transform.rotation_degrees,
                        },
                        fit: match fit {
                            Some(f) => f,
                            None => c.transform.fit,
                        },
                        position_x_bits: match position_x_bits {
                            Some(x) => x,
                            None => c.transform.position_x_bits,
                        },
                        position_y_bits: match position_y_bits {
                            Some(y) => y,
                            None => c.transform.position_y_bits,
                        },
                    }
                };
                Ok(
                    EditOutcome {
                        project: with_clip(p, i, ClipView { transform: t, ..c }),
                        affected: seq![c.id],
                        created: seq![],
                    },
                )
            },
        }
    }
}

/// `te split`: a clip cut in two at a frame strictly inside it. The right
/// part is a new clip that reads on from where the left part stops.
pub open spec fn split_spec(p: ProjectView, clip_query: Seq<char>, at_frame: i64, clip_id: Seq<char>) -> Result<
    EditOutcome,
    EditError,
> {
    match resolve_id(p.clip_ids(), clip_query) {
        Err(e) => Err(EditError::Clip(e)),
        Ok(i) => {
            let c = p.clips[i];
            if at_frame <= c.start_frame || at_frame >= c.end() {
                Err(EditError::SplitOutsideClip { clip: i as usize })
            } else {
                let offset = at_frame - c.start_frame;
                let left = ClipView { duration_frames: offset as i64, ..c };
                let right = ClipView {
                    id: clip_id,
                    asset_id: c.asset_id,
                    track_id: c.track_id,
                    start_frame: at_frame,
                    duration_frames: (c.duration_frames - offset) as i64,
                    source_in_frame: (c.source_in_frame + offset) as i64,
                    transform: c.transform,
                };
                Ok(
                    EditOutcome {
                        project: ProjectView {
                            clips: p.clips.update(i, left).insert(i + 1, right),
                            selected_clip_id: Some(clip_id),
                            ..p
                        },
                        affected: seq![c.id],
                        created: seq![clip_id],
                    },
                )
            }
        },
    }
}

/// `te move`: a clip placed at a new start frame, and on another track that
/// can hold its media when one is named.
pub open spec fn move_spec(p: ProjectView, clip_query: Seq<char>, track: Option<Seq<char>>, at_frame: i64) -> Result<
    EditOutcome,
    EditError,
> {
    if at_frame < 0 {
        Err(EditError::NegativeStart)
    } else {
        match resolve_id(p.clip_ids(), clip_query) {
            Err(e) => Err(EditError::Clip(e)),
            Ok(i) => {
                let c = p.clips[i];
                let placed: Result<Seq<char>, EditError> = match track {
                    None => Ok(c.track_id),
                    Some(tid) => match p.find_track(tid) {
                        None => Err(EditError::TrackNotFound),
                        Some(t) => match p.find_asset(c.asset_id) {
                            None => Err(EditError::ClipAssetMissing),
                            Some(a) => if compatible(p.assets[a].kind, p.tracks[t].kind) {
                                Ok(tid)
                            } else {
                                Err(EditError::PlacementIncompatible { asset: a as usize })
                            },
                        },
                    },
                };
                match placed {
                    Err(e) => Err(e),
                    Ok(tid) => Ok(
                        EditOutcome {
                            project: with_clip(
                                p,
                                i,
                                ClipView { track_id: tid, start_frame: at_frame, ..c },
                            ),
                            affected: seq![c.id],
                            created: seq![],
                        },
                    ),
                }
            },
        }
    }
}

/// `te remove`: a clip taken off the timeline. The clip that took its place
/// is selected, or else the last clip.
pub open spec fn remove_spec(p: ProjectView, clip_query: Seq<char>) -> Result<EditOutcome, EditError> {
    match resolve_id(p.clip_ids(), clip_query) {
        Err(e) => Err(EditError::Clip(e)),
        Ok(i) => {
            let rest = p.clips.remove(i);
            let selected = if i < rest.len() {
                Some(rest[i].id)
            } else if rest.len() > 0 {
                Some(rest.last().id)
            } else {
                None
            };
            Ok(
                EditOutcome {
                    project: ProjectView { clips: rest, selected_clip_id: selected, ..p },
                    affected: seq![p.clips[i].id],
                    created: seq![],
                },
            )
        },
    }
}

/// `te trim`: a clip's start, duration and source in point set together.
pub open spec fn trim_spec(
    p: ProjectView,
    clip_query: Seq<char>,
    start_frame: i64,
    duration_frames: i64,
    source_in_frame: i64,
) -> Result<EditOutcome, EditError> {
    if start_frame < 0 {
        Err(EditError::NegativeStart)
    } else if duration_frames <= 0 {
        Err(EditError::NonPositiveDuration)
    } else if source_in_frame < 0 {
        Err(EditError::NegativeSourceIn)
    } else {
        match resolve_id(p.clip_ids(), clip_query) {
            Err(e) => Err(EditError::Clip(e)),
            Ok(i) => {
                let c = p.clips[i];
                match p.find_asset(c.asset_id) {
                    None => Err(EditError::ClipAssetMissing),
                    Some(a) => if source_in_frame + duration_frames > p.assets[a].duration_frames
                        + 1 {
                        Err(EditError::TrimBeyondSourceMedia)
                    } else {
                        Ok(
                            EditOutcome {
                                project: with_clip(
                                    p,
                                    i,
                                    ClipView {
                                        start_frame: start_frame,
                                        duration_frames: duration_frames,
                                        source_in_frame: source_in_frame,
                                        ..c
                                    },
                                ),
                                affected: seq![c.id],
                                created: seq![],
                            },
                        )
                    },
                }
            },
        }
    }
}


pub open spec fn str_option_view(o: Option<&str>) -> Option<Seq<char>> {
    match o {
        Some(s) => Some(s@),
        None => None,
    }
}

pub open spec fn strings_view(v: Vec<String>) -> Seq<Seq<char>> {
    v@.map_values(|s: String| s@)
}

/// An edit's answer matches its model: on success the new project and the
/// affected and created ids, on refusal the same error.
pub open spec fn outcome_matches(
    r: Result<(Vec<String>, Vec<String>), EditError>,
    project: ProjectView,
    model: Result<EditOutcome, EditError>,
) -> bool {
    match r {
        Ok((a, c)) => model == Ok::<EditOutcome, EditError>(
            EditOutcome { project: project, affected: strings_view(a), created: strings_view(c) },
        ),
        Err(e) => model == Err::<EditOutcome, EditError>(e),
    }
}

fn one_string(s: String) -> (r: Vec<String>)
    ensures
        strings_view(r) == seq![s@],
{
    let mut r: Vec<String> = Vec::new();
    r.push(s);
    assert(strings_view(r) =~= seq![s@]);
    r
}

fn no_strings() -> (r: Vec<String>)
    ensures
        strings_view(r) == Seq::<Seq<char>>::empty(),
{
    let r: Vec<String> = Vec::new();
    assert(strings_view(r) =~= Seq::<Seq<char>>::empty());
    r
}

/// The track a placed asset goes on.
fn choose_track(p: &Project, kind: AssetKind, requested: Option<&str>) -> (r: Result<usize, EditError>)
    ensures
        match r {
            Ok(t) => track_for_asset(p@, kind, str_option_view(requested)) == Ok::<int, EditError>(t as int)
                && t < p.tracks.len(),
            Err(e) => track_for_asset(p@, kind, str_option_view(requested)) == Err::<int, EditError>(e),
        },
{
    let t = match requested {
        Some(id) => {
            let key = owned(id);
            match p.track_position(&key) {
                Some(t) => {
                    proof {
                        lemma_first_exact_in_bounds(p@.track_ids(), id@);
                    }
                    t
                },
                None => {
                    return Err(EditError::TrackNotFound);
                },
            }
        },
        None => {
            let mut j: usize = 0;
            let mut found: Option<usize> = None;
            while j < p.tracks.len() && found.is_none()
                invariant
                    j <= p.tracks.len(),
                    found is None ==> forall|k: int|
                        0 <= k < j ==> !compatible(kind, #[trigger] p@.tracks[k].kind),
                    found matches Some(t) ==> first_compatible_at(p@.tracks, kind, t as int),
                decreases p.tracks.len() - j,
            {
                assert(p@.tracks[j as int] == p.tracks@[j as int]@);
                if is_compatible(kind, p.tracks[j].kind) {
                    found = Some(j);
                }
                j = j + 1;
            }
            match found {
                Some(t) => {
                    proof {
                        assert(first_compatible_at(p@.tracks, kind, t as int));
                        let k = choose|k: int| first_compatible_at(p@.tracks, kind, k);
                        if k < t {
                            assert(!compatible(kind, p@.tracks[k].kind));
                        } else if k > t {
                            assert(compatible(kind, p@.tracks[t as int].kind));
                        }
                    }
                    t
                },
                None => {
                    proof {
                        if exists|k: int| first_compatible_at(p@.tracks, kind, k) {
                            let k = choose|k: int| first_compatible_at(p@.tracks, kind, k);
                            assert(0 <= k < j);
                            assert(!compatible(kind, p@.tracks[k].kind));
                        }
                    }
                    return Err(EditError::NoCompatibleTrack);
                },
            }
        },
    };
    assert(p@.tracks[t as int] == p.tracks@[t as int]@);
    if is_compatible(kind, p.tracks[t].kind) {
        Ok(t)
    } else {
        Err(EditError::TrackIncompatible)
    }
}

/// Places an asset on a track as a new clip and selects it.
fn add_to_project_exec(
    p: &mut Project,
    asset_query: &str,
    track: Option<&str>,
    at_frame: i64,
    source_in_frame: i64,
    duration_frames: Option<i64>,
    clip_id: String,
) -> (r: Result<(), EditError>)
    ensures
        match r {
            Ok(_) => add_to_project(
                old(p)@,
                asset_query@,
                str_option_view(track),
                at_frame,
                source_in_frame,
                duration_frames,
                clip_id@,
            ) == Ok::<ProjectView, EditError>(final(p)@),
            Err(e) => add_to_project(
                old(p)@,
                asset_query@,
                str_option_view(track),
                at_frame,
                source_in_frame,
                duration_frames,
                clip_id@,
            ) == Err::<ProjectView, EditError>(e),
        },
{
    if at_frame < 0 {
        return Err(EditError::NegativeStart);
    }
    if source_in_frame < 0 {
        return Err(EditError::NegativeSourceIn);
    }
    let a = match p.resolve_asset_index(asset_query) {
        Ok(a) => a,
        Err(e) => {
            return Err(EditError::Asset(e));
        },
    };
    proof {
        lemma_resolve_in_bounds(p@.asset_ids(), asset_query@);
    }
    assert(p@.assets[a as int] == p.assets@[a as int]@);
    let kind = p.assets[a].kind;
    let t = match choose_track(p, kind, track) {
        Ok(t) => t,
        Err(e) => {
            return Err(e);
        },
    };
    let asset_duration = p.assets[a].duration_frames;
    let duration: i128 = match duration_frames {
        Some(d) => d as i128,
        None => asset_duration as i128 - source_in_frame as i128,
    };
    if duration <= 0 {
        return Err(EditError::NonPositiveDuration);
    }
    if source_in_frame as i128 + duration > asset_duration as i128 + 1 {
        return Err(EditError::BeyondSourceMedia);
    }
    assert(p@.tracks[t as int] == p.tracks@[t as int]@);
    let clip = Clip {
        id: clip_id.clone(),
        asset_id: p.assets[a].id.clone(),
        track_id: p.tracks[t].id.clone(),
        start_frame: at_frame,
        duration_frames: duration as i64,
        source_in_frame: source_in_frame,
        transform: ClipTransform::default(),
    };
    let ghost before = p@;
    let ghost cv = clip@;
    p.clips.push(clip);
    p.selected_clip_id = Some(clip_id);
    proof {
        lemma_map_push(old(p).clips@, clip, |c: Clip| c@);
        assert(p@ == with_new_clip(before, cv));
    }
    Ok(())
}

/// `te add` on a project: the asset placed at `at_frame` as a new clip.
pub fn add_clip_to(
    p: &mut Project,
    asset_query: &str,
    track: Option<&str>,
    at_frame: i64,
    source_in_frame: i64,
    duration_frames: Option<i64>,
    clip_id: String,
) -> (r: Result<(Vec<String>, Vec<String>), EditError>)
    ensures
        outcome_matches(
            r,
            final(p)@,
            add_spec(
                old(p)@,
                asset_query@,
                str_option_view(track),
                at_frame,
                source_in_frame,
                duration_frames,
                clip_id@,
            ),
        ),
{
    let id = clip_id.clone();
    match add_to_project_exec(
        p,
        asset_query,
        track,
        at_frame,
        source_in_frame,
        duration_frames,
        clip_id,
    ) {
        Ok(_) => Ok((no_strings(), one_string(id))),
        Err(e) => Err(e),
    }
}


/// Where the clips on a track end, or zero.
pub(crate) fn track_end_frame(p: &Project, track: &String) -> (r: i64)
    requires
        p@.ends_fit(),
    ensures
        r == track_end(p@, track@, p@.clips.len()),
{
    let mut best: i64 = 0;
    let mut i: usize = 0;
    while i < p.clips.len()
        invariant
            i <= p.clips.len(),
            p@.ends_fit(),
            best == track_end(p@, track@, i as nat),
        decreases p.clips.len() - i,
    {
        let c = &p.clips[i];
        assert(c@ == p@.clips[i as int]);
        assert(i64::MIN <= p@.clips[i as int].end() <= i64::MAX);
        if c.track_id == *track {
            let e = c.end_frame();
            if e > best {
                best = e;
            }
        }
        i = i + 1;
    }
    best
}

/// The project, with clips ending in `i64`, keeps its track ends in range.
proof fn lemma_track_end_bounds(p: ProjectView, track: Seq<char>, n: nat)
    requires
        p.ends_fit(),
        n <= p.clips.len(),
    ensures
        0 <= track_end(p, track, n) <= i64::MAX,
    decreases n,
{
    if n > 0 {
        lemma_track_end_bounds(p, track, (n - 1) as nat);
        assert(i64::MIN <= p.clips[n - 1].end() <= i64::MAX);
    }
}

/// `te append` on a project: the asset placed where its track ends.
pub fn append_clip_to(
    p: &mut Project,
    asset_query: &str,
    track: Option<&str>,
    source_in_frame: i64,
    duration_frames: Option<i64>,
    clip_id: String,
) -> (r: Result<(Vec<String>, Vec<String>), EditError>)
    requires
        old(p)@.ends_fit(),
    ensures
        outcome_matches(
            r,
            final(p)@,
            append_spec(
                old(p)@,
                asset_query@,
                str_option_view(track),
                source_in_frame,
                duration_frames,
                clip_id@,
            ),
        ),
{
    let a = match p.resolve_asset_index(asset_query) {
        Ok(a) => a,
        Err(e) => {
            return Err(EditError::Asset(e));
        },
    };
    proof {
        lemma_resolve_in_bounds(p@.asset_ids(), asset_query@);
    }
    assert(p@.assets[a as int] == p.assets@[a as int]@);
    let t = match choose_track(p, p.assets[a].kind, track) {
        Ok(t) => t,
        Err(e) => {
            return Err(e);
        },
    };
    assert(p@.tracks[t as int] == p.tracks@[t as int]@);
    let target = p.tracks[t].id.clone();
    let asset_id = p.assets[a].id.clone();
    let at = track_end_frame(p, &target);
    proof {
        lemma_track_end_bounds(p@, target@, p@.clips.len());
    }
    add_clip_to(
        p,
        asset_id.as_str(),
        Some(target.as_str()),
        at,
        source_in_frame,
        duration_frames,
        clip_id,
    )
}

/// `te duplicate` on a project: a new clip of a clip's asset that inherits
/// the clip's track, source range and transform unless overridden.
pub fn duplicate_clip_in(
    p: &mut Project,
    clip_query: &str,
    track: Option<&str>,
    at_frame: i64,
    source_in_frame: Option<i64>,
    duration_frames: Option<i64>,
    clip_id: String,
) -> (r: Result<(Vec<String>, Vec<String>), EditError>)
    ensures
        outcome_matches(
            r,
            final(p)@,
            duplicate_spec(
                old(p)@,
                clip_query@,
                str_option_view(track),
                at_frame,
                source_in_frame,
                duration_frames,
                clip_id@,
            ),
        ),
{
    let i = match p.resolve_clip_index(clip_query) {
        Ok(i) => i,
        Err(e) => {
            return Err(EditError::Clip(e));
        },
    };
    proof {
        lemma_resolve_in_bounds(p@.clip_ids(), clip_query@);
    }
    let source = p.clips[i].clone();
    assert(source@ == p@.clips[i as int]);
    let source_in = match source_in_frame {
        Some(s) => s,
        None => source.source_in_frame,
    };
    let duration = match duration_frames {
        Some(d) => d,
        None => source.duration_frames,
    };
    let created = clip_id.clone();
    let added = match track {
        Some(t) => add_to_project_exec(
            p,
            source.asset_id.as_str(),
            Some(t),
            at_frame,
            source_in,
            Some(duration),
            clip_id,
        ),
        None => add_to_project_exec(
            p,
            source.asset_id.as_str(),
            Some(source.track_id.as_str()),
            at_frame,
            source_in,
            Some(duration),
            clip_id,
        ),
    };
    match added {
        Err(e) => {
            return Err(e);
        },
        Ok(_) => {},
    }
    let k = match p.resolve_clip_index(created.as_str()) {
        Ok(k) => k,
        Err(e) => {
            return Err(EditError::Clip(e));
        },
    };
    proof {
        lemma_resolve_in_bounds(p@.clip_ids(), created@);
    }
    let mut c = p.clips[k].clone();
    assert(c@ == p@.clips[k as int]);
    c.transform = source.transform;
    let ghost before = p.clips@;
    let ghost cv = c@;
    p.clips.set(k, c);
    proof {
        lemma_map_update(before, k as int, c, |c: Clip| c@);
    }
    Ok((one_string(source.id), one_string(created)))
}

/// `te transform` on a project.
pub fn transform_clip_in(
    p: &mut Project,
    clip_query: &str,
    rotation_degrees: Option<i16>,
    fit: Option<FitMode>,
    position_x_bits: Option<u64>,
    position_y_bits: Option<u64>,
    reset: bool,
) -> (r: Result<(Vec<String>, Vec<String>), EditError>)
    ensures
        outcome_matches(
            r,
            final(p)@,
            transform_spec(
                old(p)@,
                clip_query@,
                rotation_degrees,
                fit,
                position_x_bits,
                position_y_bits,
                reset,
            ),
        ),
{
    let any = rotation_degrees.is_some() || fit.is_some() || position_x_bits.is_some()
        || position_y_bits.is_some();
    if reset && any {
        return Err(EditError::ResetWithValues);
    }
    if !reset && !any {
        return Err(EditError::NothingToTransform);
    }
    match rotation_degrees {
        Some(r) => {
            if !is_valid_rotation(r) {
                return Err(EditError::InvalidRotation);
            }
        },
        None => {},
    }
    match position_x_bits {
        Some(x) => {
            if !is_valid_position(x) {
                return Err(EditError::InvalidPositionX);
            }
        },
        None => {},
    }
    match position_y_bits {
        Some(y) => {
            if !is_valid_position(y) {
                return Err(EditError::InvalidPositionY);
            }
        },
        None => {},
    }
    let i = match p.resolve_clip_index(clip_query) {
        Ok(i) => i,
        Err(e) => {
            return Err(EditError::Clip(e));
        },
    };
    proof {
        lemma_resolve_in_bounds(p@.clip_ids(), clip_query@);
    }
    let mut c = p.clips[i].clone();
    assert(c@ == p@.clips[i as int]);
    let id = c.id.clone();
    if reset {
        c.transform = ClipTransform::default();
    } else {
        match rotation_degrees {
            Some(r) => {
                c.transform.rotation_degrees = r;
            },
            None => {},
        }
        match fit {
            Some(f) => {
                c.transform.fit = f;
            },
            None => {},
        }
        match position_x_bits {
            Some(x) => {
                c.transform.position_x_bits = x;
            },
            None => {},
        }
        match position_y_bits {
            Some(y) => {
                c.transform.position_y_bits = y;
            },
            None => {},
        }
    }
    let ghost before = p.clips@;
    p.clips.set(i, c);
    p.selected_clip_id = Some(id.clone());
    proof {
        lemma_map_update(before, i as int, c, |c: Clip| c@);
    }
    Ok((one_string(id), no_strings()))
}

/// `te split` on a project.
pub fn split_clip_in(p: &mut Project, clip_query: &str, at_frame: i64, clip_id: String) -> (r: Result<
    (Vec<String>, Vec<String>),
    EditError,
>)
    requires
        old(p)@.valid(),
    ensures
        outcome_matches(r, final(p)@, split_spec(old(p)@, clip_query@, at_frame, clip_id@)),
{
    let i = match p.resolve_clip_index(clip_query) {
        Ok(i) => i,
        Err(e) => {
            return Err(EditError::Clip(e));
        },
    };
    proof {
        lemma_resolve_in_bounds(p@.clip_ids(), clip_query@);
        lemma_valid_clip(p@, i as int);
    }
    let c = p.clips[i].clone();
    assert(c@ == p@.clips[i as int]);
    let end: i128 = c.start_frame as i128 + c.duration_frames as i128;
    if at_frame <= c.start_frame || at_frame as i128 >= end {
        return Err(EditError::SplitOutsideClip { clip: i });
    }
    let offset = at_frame - c.start_frame;
    let mut left = c.clone();
    left.duration_frames = offset;
    let right = Clip {
        id: clip_id.clone(),
        asset_id: c.asset_id.clone(),
        track_id: c.track_id.clone(),
        start_frame: at_frame,
        duration_frames: c.duration_frames - offset,
        source_in_frame: c.source_in_frame + offset,
        transform: c.transform,
    };
    let ghost before = p.clips@;
    p.clips.set(i, left);
    let ghost middle = p.clips@;
    assert(i < p.clips.len());
    p.clips.insert(i + 1, right);
    p.selected_clip_id = Some(clip_id.clone());
    proof {
        lemma_map_update(before, i as int, left, |c: Clip| c@);
        lemma_map_insert(middle, i + 1, right, |c: Clip| c@);
    }
    Ok((one_string(c.id), one_string(clip_id)))
}

/// `te move` on a project.
pub fn move_clip_in(p: &mut Project, clip_query: &str, track: Option<&str>, at_frame: i64) -> (r: Result<
    (Vec<String>, Vec<String>),
    EditError,
>)
    ensures
        outcome_matches(
            r,
            final(p)@,
            move_spec(old(p)@, clip_query@, str_option_view(track), at_frame),
        ),
{
    if at_frame < 0 {
        return Err(EditError::NegativeStart);
    }
    let i = match p.resolve_clip_index(clip_query) {
        Ok(i) => i,
        Err(e) => {
            return Err(EditError::Clip(e));
        },
    };
    proof {
        lemma_resolve_in_bounds(p@.clip_ids(), clip_query@);
    }
    let mut c = p.clips[i].clone();
    assert(c@ == p@.clips[i as int]);
    match track {
        Some(tid) => {
            let key = owned(tid);
            let t = match p.track_position(&key) {
                Some(t) => t,
                None => {
                    return Err(EditError::TrackNotFound);
                },
            };
            let a = match p.asset_position(&c.asset_id) {
                Some(a) => a,
                None => {
                    return Err(EditError::ClipAssetMissing);
                },
            };
            proof {
                lemma_first_exact_in_bounds(p@.track_ids(), tid@);
                lemma_first_exact_in_bounds(p@.asset_ids(), c@.asset_id);
            }
            assert(p@.tracks[t as int] == p.tracks@[t as int]@);
            assert(p@.assets[a as int] == p.assets@[a as int]@);
            if !is_compatible(p.assets[a].kind, p.tracks[t].kind) {
                return Err(EditError::PlacementIncompatible { asset: a });
            }
            c.track_id = key;
        },
        None => {},
    }
    c.start_frame = at_frame;
    let id = c.id.clone();
    let ghost before = p.clips@;
    p.clips.set(i, c);
    p.selected_clip_id = Some(id.clone());
    proof {
        lemma_map_update(before, i as int, c, |c: Clip| c@);
    }
    Ok((one_string(id), no_strings()))
}

/// `te remove` on a project.
pub fn remove_clip_in(p: &mut Project, clip_query: &str) -> (r: Result<(Vec<String>, Vec<String>), EditError>)
    ensures
        outcome_matches(r, final(p)@, remove_spec(old(p)@, clip_query@)),
{
    let i = match p.resolve_clip_index(clip_query) {
        Ok(i) => i,
        Err(e) => {
            return Err(EditError::Clip(e));
        },
    };
    proof {
        lemma_resolve_in_bounds(p@.clip_ids(), clip_query@);
    }
    let ghost before = p.clips@;
    let removed = p.clips.remove(i);
    proof {
        lemma_map_remove(before, i as int, |c: Clip| c@);
    }
    let n = p.clips.len();
    if i < n {
        assert(p@.clips[i as int] == p.clips@[i as int]@);
        p.selected_clip_id = Some(p.clips[i].id.clone());
    } else if n > 0 {
        assert(p@.clips[n - 1] == p.clips@[n - 1]@);
        p.selected_clip_id = Some(p.clips[n - 1].id.clone());
    } else {
        p.selected_clip_id = None;
    }
    Ok((one_string(removed.id), no_strings()))
}

/// `te trim` on a project.
pub fn trim_clip_in(
    p: &mut Project,
    clip_query: &str,
    start_frame: i64,
    duration_frames: i64,
    source_in_frame: i64,
) -> (r: Result<(Vec<String>, Vec<String>), EditError>)
    ensures
        outcome_matches(
            r,
            final(p)@,
            trim_spec(old(p)@, clip_query@, start_frame, duration_frames, source_in_frame),
        ),
{
    if start_frame < 0 {
        return Err(EditError::NegativeStart);
    }
    if duration_frames <= 0 {
        return Err(EditError::NonPositiveDuration);
    }
    if source_in_frame < 0 {
        return Err(EditError::NegativeSourceIn);
    }
    let i = match p.resolve_clip_index(clip_query) {
        Ok(i) => i,
        Err(e) => {
            return Err(EditError::Clip(e));
        },
    };
    proof {
        lemma_resolve_in_bounds(p@.clip_ids(), clip_query@);
    }
    let mut c = p.clips[i].clone();
    assert(c@ == p@.clips[i as int]);
    let a = match p.asset_position(&c.asset_id) {
        Some(a) => a,
        None => {
            return Err(EditError::ClipAssetMissing);
        },
    };
    proof {
        lemma_first_exact_in_bounds(p@.asset_ids(), c@.asset_id);
    }
    assert(p@.assets[a as int] == p.assets@[a as int]@);
    if source_in_frame as i128 + duration_frames as i128 > p.assets[a].duration_frames as i128 + 1 {
        return Err(EditError::TrimBeyondSourceMedia);
    }
    c.start_frame = start_frame;
    c.duration_frames = duration_frames;
    c.source_in_frame = source_in_frame;
    let id = c.id.clone();
    let ghost before = p.clips@;
    p.clips.set(i, c);
    p.selected_clip_id = Some(id.clone());
    proof {
        lemma_map_update(before, i as int, c, |c: Clip| c@);
    }
    Ok((one_string(id), no_strings()))
}

// ---------------------------------------------------------------- laws

/// Splitting a clip keeps its source: the two parts together last as long
/// as the clip did, the right part reads on from where the left part stops
/// in the source and starts where it ends on the timeline, and both keep the
/// clip's asset, track and transform. Every other clip stays, in order, and
/// the new part is selected.
pub proof fn law_split_preserves_source(p: ProjectView, clip_query: Seq<char>, at_frame: i64, clip_id: Seq<char>)
    requires
        p.valid(),
        split_spec(p, clip_query, at_frame, clip_id) is Ok,
    ensures
        ({
            let i = resolve_id(p.clip_ids(), clip_query)->Ok_0;
            let c = p.clips[i];
            let q = split_spec(p, clip_query, at_frame, clip_id)->Ok_0.project;
            let left = q.clips[i];
            let right = q.clips[i + 1];
            &&& q.clips.len() == p.clips.len() + 1
            &&& left.duration_frames + right.duration_frames == c.duration_frames
            &&& left.start_frame == c.start_frame && left.source_in_frame == c.source_in_frame
            &&& right.start_frame == left.end() && right.start_frame == at_frame
            &&& right.source_in_frame == c.source_in_frame + left.duration_frames
            &&& left.duration_frames > 0 && right.duration_frames > 0
            &&& left.id == c.id && right.id == clip_id
            &&& left.asset_id == c.asset_id && right.asset_id == c.asset_id
            &&& left.track_id == c.track_id && right.track_id == c.track_id
            &&& left.transform == c.transform && right.transform == c.transform
            &&& forall|j: int| 0 <= j < i ==> q.clips[j] == p.clips[j]
            &&& forall|j: int| i < j < p.clips.len() ==> q.clips[j + 1] == p.clips[j]
            &&& q.selected_clip_id == Some(clip_id)
            &&& q.assets == p.assets && q.tracks == p.tracks
            &&& left == (ClipView { duration_frames: left.duration_frames, ..c })
            &&& q == (ProjectView { clips: q.clips, selected_clip_id: Some(clip_id), ..p })
            &&& split_spec(p, clip_query, at_frame, clip_id)->Ok_0.affected == seq![c.id]
            &&& split_spec(p, clip_query, at_frame, clip_id)->Ok_0.created == seq![clip_id]
        }),
{
    lemma_resolve_in_bounds(p.clip_ids(), clip_query);
    let i = resolve_id(p.clip_ids(), clip_query)->Ok_0;
    lemma_valid_clip(p, i);
    let q = split_spec(p, clip_query, at_frame, clip_id)->Ok_0.project;
    assert forall|j: int| i < j < p.clips.len() implies q.clips[j + 1] == p.clips[j] by {
        assert(q.clips[j + 1] == p.clips.update(i, q.clips[i])[j]);
    }
}

/// A transform changes only how a clip is presented: every clip keeps its
/// id, asset, track and timing, and every other clip stays as it was. A
/// rotation is set as given, not added to the old one, and a reset restores
/// the centred, unrotated `contain` transform.
pub proof fn law_transform_keeps_timing(
    p: ProjectView,
    clip_query: Seq<char>,
    rotation_degrees: Option<i16>,
    fit: Option<FitMode>,
    position_x_bits: Option<u64>,
    position_y_bits: Option<u64>,
    reset: bool,
)
    requires
        transform_spec(p, clip_query, rotation_degrees, fit, position_x_bits, position_y_bits, reset)
            is Ok,
    ensures
        ({
            let i = resolve_id(p.clip_ids(), clip_query)->Ok_0;
            let q = transform_spec(
                p,
                clip_query,
                rotation_degrees,
                fit,
                position_x_bits,
                position_y_bits,
                reset,
            )->Ok_0.project;
            &&& q.clips.len() == p.clips.len()
            &&& forall|j: int|
                0 <= j < p.clips.len() ==> {
                    &&& (#[trigger] q.clips[j]).id == p.clips[j].id
                    &&& q.clips[j].asset_id == p.clips[j].asset_id
                    &&& q.clips[j].track_id == p.clips[j].track_id
                    &&& q.clips[j].start_frame == p.clips[j].start_frame
                    &&& q.clips[j].duration_frames == p.clips[j].duration_frames
                    &&& q.clips[j].source_in_frame == p.clips[j].source_in_frame
                    &&& j != i ==> q.clips[j] == p.clips[j]
                }
            &&& reset ==> q.clips[i].transform == default_transform()
            &&& rotation_degrees matches Some(r) ==> q.clips[i].transform.rotation_degrees == r
            &&& q.assets == p.assets && q.tracks == p.tracks
        }),
{
    lemma_resolve_in_bounds(p.clip_ids(), clip_query);
}

/// Removing a clip takes exactly that clip off the timeline: the others stay,
/// in order.
pub proof fn law_remove_takes_one_clip(p: ProjectView, clip_query: Seq<char>)
    requires
        remove_spec(p, clip_query) is Ok,
    ensures
        ({
            let i = resolve_id(p.clip_ids(), clip_query)->Ok_0;
            let q = remove_spec(p, clip_query)->Ok_0.project;
            &&& q.clips.len() + 1 == p.clips.len()
            &&& forall|j: int| 0 <= j < i ==> q.clips[j] == p.clips[j]
            &&& forall|j: int| i <= j < q.clips.len() ==> q.clips[j] == p.clips[j + 1]
            &&& remove_spec(p, clip_query)->Ok_0.affected == seq![p.clips[i].id]
            &&& q.assets == p.assets && q.tracks == p.tracks
        }),
{
    lemma_resolve_in_bounds(p.clip_ids(), clip_query);
}

/// Moving a clip keeps what it shows: its asset, duration, source in point
/// and transform stay, and so does every other clip.
pub proof fn law_move_keeps_content(p: ProjectView, clip_query: Seq<char>, track: Option<Seq<char>>, at_frame: i64)
    requires
        move_spec(p, clip_query, track, at_frame) is Ok,
    ensures
        ({
            let i = resolve_id(p.clip_ids(), clip_query)->Ok_0;
            let q = move_spec(p, clip_query, track, at_frame)->Ok_0.project;
            let c = p.clips[i];
            &&& q.clips.len() == p.clips.len()
            &&& q.clips[i].asset_id == c.asset_id
            &&& q.clips[i].duration_frames == c.duration_frames
            &&& q.clips[i].source_in_frame == c.source_in_frame
            &&& q.clips[i].transform == c.transform
            &&& q.clips[i].start_frame == at_frame
            &&& forall|j: int| 0 <= j < p.clips.len() && j != i ==> q.clips[j] == p.clips[j]
        }),
{
    lemma_resolve_in_bounds(p.clip_ids(), clip_query);
}

/// Placing an asset without a duration gives the clip the rest of the
/// source media from its source in point; the new clip comes last, is
/// selected, and is reported as created.
pub proof fn law_add_defaults_to_remaining_source(
    p: ProjectView,
    asset_query: Seq<char>,
    track: Option<Seq<char>>,
    at_frame: i64,
    source_in_frame: i64,
    clip_id: Seq<char>,
)
    requires
        add_spec(p, asset_query, track, at_frame, source_in_frame, None, clip_id) is Ok,
    ensures
        ({
            let a = resolve_id(p.asset_ids(), asset_query)->Ok_0;
            let o = add_spec(p, asset_query, track, at_frame, source_in_frame, None, clip_id)->Ok_0;
            let c = o.project.clips.last();
            &&& o.project.clips.len() == p.clips.len() + 1
            &&& c.duration_frames == p.assets[a].duration_frames - source_in_frame
            &&& c.id == clip_id && c.asset_id == p.assets[a].id
            &&& c.start_frame == at_frame && c.source_in_frame == source_in_frame
            &&& c.transform == default_transform()
            &&& o.project.selected_clip_id == Some(clip_id)
            &&& o.created == seq![clip_id]
        }),
{
    lemma_resolve_in_bounds(p.asset_ids(), asset_query);
}

/// Duplicating a clip without overrides places a new clip, under a fresh
/// id, of the same asset on the same track, with the same source range and
/// transform, at the frame asked for; every other clip stays.
pub proof fn law_duplicate_inherits_source(p: ProjectView, clip_query: Seq<char>, at_frame: i64, clip_id: Seq<char>)
    requires
        p.valid(),
        forall|j: int| 0 <= j < p.clips.len() ==> p.clips[j].id != clip_id,
        duplicate_spec(p, clip_query, None, at_frame, None, None, clip_id) is Ok,
    ensures
        ({
            let i = resolve_id(p.clip_ids(), clip_query)->Ok_0;
            let c = p.clips[i];
            let o = duplicate_spec(p, clip_query, None, at_frame, None, None, clip_id)->Ok_0;
            let d = o.project.clips.last();
            &&& o.project.clips.len() == p.clips.len() + 1
            &&& d.id == clip_id && d.start_frame == at_frame
            &&& d.asset_id == c.asset_id && d.track_id == c.track_id
            &&& d.source_in_frame == c.source_in_frame && d.duration_frames == c.duration_frames
            &&& d.transform == c.transform
            &&& forall|j: int| 0 <= j < p.clips.len() ==> o.project.clips[j] == p.clips[j]
            &&& o.affected == seq![c.id] && o.created == seq![clip_id]
        }),
{
    lemma_resolve_in_bounds(p.clip_ids(), clip_query);
    let i = resolve_id(p.clip_ids(), clip_query)->Ok_0;
    let c = p.clips[i];
    lemma_valid_clip(p, i);
    let a = p.find_asset(c.asset_id)->0;
    lemma_first_exact_in_bounds(p.asset_ids(), c.asset_id);
    law_ids_resolve_exactly_or_by_unique_prefix(p.asset_ids(), c.asset_id);
    assert(resolve_id(p.asset_ids(), c.asset_id) == Ok::<int, LookupError>(a));
    let t = p.find_track(c.track_id)->0;
    lemma_first_exact_in_bounds(p.track_ids(), c.track_id);
    let q = add_to_project(p, c.asset_id, Some(c.track_id), at_frame, c.source_in_frame, Some(c.duration_frames), clip_id)->Ok_0;
    let n = p.clips.len() as int;
    assert(q.clips[n].id == clip_id);
    assert(first_exact_at(q.clip_ids(), clip_id, n)) by {
        assert forall|j: int| 0 <= j < n implies q.clip_ids()[j] != clip_id by {
            assert(q.clip_ids()[j] == p.clips[j].id);
        }
    }
    law_ids_resolve_exactly_or_by_unique_prefix(q.clip_ids(), clip_id);
}

/// Appending places the new clip where the clips on its track end, and
/// without a duration it runs to the end of the source media.
pub proof fn law_append_at_track_end(
    p: ProjectView,
    asset_query: Seq<char>,
    track: Option<Seq<char>>,
    source_in_frame: i64,
    duration_frames: Option<i64>,
    clip_id: Seq<char>,
)
    requires
        p.ends_fit(),
        append_spec(p, asset_query, track, source_in_frame, duration_frames, clip_id) is Ok,
    ensures
        ({
            let a = resolve_id(p.asset_ids(), asset_query)->Ok_0;
            let o = append_spec(p, asset_query, track, source_in_frame, duration_frames, clip_id)->Ok_0;
            let d = o.project.clips.last();
            &&& o.project.clips.len() == p.clips.len() + 1
            &&& d.start_frame == track_end(p, d.track_id, p.clips.len())
            &&& d.source_in_frame == source_in_frame
            &&& duration_frames is None ==> d.duration_frames == p.assets[a].duration_frames
                - source_in_frame
            &&& d.id == clip_id && o.created == seq![clip_id]
            &&& forall|j: int|
                0 <= j < p.clips.len() && p.clips[j].track_id == d.track_id ==> #[trigger] p.clips[j].end()
                    <= d.start_frame
            &&& d.start_frame == 0 || exists|j: int|
                0 <= j < p.clips.len() && p.clips[j].track_id == d.track_id && #[trigger] p.clips[j].end()
                    == d.start_frame
            &&& forall|j: int| 0 <= j < p.clips.len() ==> o.project.clips[j] == p.clips[j]
        }),
{
    lemma_resolve_in_bounds(p.asset_ids(), asset_query);
    let a = resolve_id(p.asset_ids(), asset_query)->Ok_0;
    let asset = p.assets[a];
    let t = track_for_asset(p, asset.kind, track)->Ok_0;
    let target = p.tracks[t].id;
    let at = track_end(p, target, p.clips.len()) as i64;
    let q = add_spec(p, asset.id, Some(target), at, source_in_frame, duration_frames, clip_id)->Ok_0.project;
    assert(p.asset_ids()[a] == asset.id);
    lemma_resolved_id_resolves_to_itself(p.asset_ids(), asset_query);
    lemma_track_end_bounds(p, target, p.clips.len());
    lemma_track_end_is_an_end(p, target, p.clips.len());
    assert(resolve_id(p.asset_ids(), asset.id) == Ok::<int, LookupError>(a));
    lemma_first_exact_in_bounds(p.track_ids(), target);
}

/// Where a track ends: no clip on it among the first `n` ends later, and it
/// is zero or the end of one of them.
proof fn lemma_track_end_is_an_end(p: ProjectView, track: Seq<char>, n: nat)
    requires
        n <= p.clips.len(),
    ensures
        forall|j: int|
            0 <= j < n && p.clips[j].track_id == track ==> #[trigger] p.clips[j].end() <= track_end(
                p,
                track,
                n,
            ),
        track_end(p, track, n) == 0 || exists|j: int|
            0 <= j < n && p.clips[j].track_id == track && #[trigger] p.clips[j].end() == track_end(
                p,
                track,
                n,
            ),
    decreases n,
{
    if n > 0 {
        lemma_track_end_is_an_end(p, track, (n - 1) as nat);
        let m = track_end(p, track, (n - 1) as nat);
        let c = p.clips[n - 1];
        if c.track_id == track && c.end() > m {
            assert(p.clips[n - 1].end() == track_end(p, track, n));
        } else if m != 0 {
            let j = choose|j: int|
                0 <= j < n - 1 && p.clips[j].track_id == track && #[trigger] p.clips[j].end() == m;
            assert(p.clips[j].end() == track_end(p, track, n));
        }
    }
}

/// Trimming a clip whose asset is in the project is refused exactly when
/// the start is negative, the duration is not positive, the source in point
/// is negative, or the range runs past the end of the source; otherwise the
/// clip takes the new timing, keeps its id, asset, track and transform, and
/// is selected, and every other clip stays.
pub proof fn law_trim_refuses_exactly(
    p: ProjectView,
    clip_query: Seq<char>,
    start_frame: i64,
    duration_frames: i64,
    source_in_frame: i64,
)
    requires
        resolve_id(p.clip_ids(), clip_query) is Ok,
        p.find_asset(p.clips[resolve_id(p.clip_ids(), clip_query)->Ok_0].asset_id) is Some,
    ensures
        ({
            let i = resolve_id(p.clip_ids(), clip_query)->Ok_0;
            let c = p.clips[i];
            let a = p.assets[p.find_asset(c.asset_id)->0];
            let r = trim_spec(p, clip_query, start_frame, duration_frames, source_in_frame);
            &&& r is Err <==> (start_frame < 0 || duration_frames <= 0 || source_in_frame < 0
                || source_in_frame + duration_frames > a.duration_frames + 1)
            &&& r is Ok ==> {
                let q = r->Ok_0.project;
                &&& q.clips.len() == p.clips.len()
                &&& q.clips[i] == (ClipView {
                    start_frame: start_frame,
                    duration_frames: duration_frames,
                    source_in_frame: source_in_frame,
                    ..c
                })
                &&& forall|j: int| 0 <= j < p.clips.len() && j != i ==> q.clips[j] == p.clips[j]
                &&& q == (ProjectView { clips: q.clips, selected_clip_id: Some(c.id), ..p })
                &&& r->Ok_0.affected == seq![c.id] && r->Ok_0.created == Seq::<Seq<char>>::empty()
            }
        }),
{
    lemma_resolve_in_bounds(p.clip_ids(), clip_query);
}

/// Placing an asset that resolves, on a track that can hold it, succeeds
/// exactly when the start and source in point are not negative, the
/// duration (the one given, or the rest of the source) is positive and the
/// range fits the source. The new clip then comes last with that asset,
/// track, timing and the default transform, is selected and reported as
/// created, and every other clip stays.
pub proof fn law_add_places_clip(
    p: ProjectView,
    asset_query: Seq<char>,
    track: Option<Seq<char>>,
    at_frame: i64,
    source_in_frame: i64,
    duration_frames: Option<i64>,
    clip_id: Seq<char>,
)
    requires
        resolve_id(p.asset_ids(), asset_query) is Ok,
        track_for_asset(p, p.assets[resolve_id(p.asset_ids(), asset_query)->Ok_0].kind, track) is Ok,
    ensures
        ({
            let a = p.assets[resolve_id(p.asset_ids(), asset_query)->Ok_0];
            let t = track_for_asset(p, a.kind, track)->Ok_0;
            let d: int = match duration_frames {
                Some(x) => x as int,
                None => a.duration_frames - source_in_frame,
            };
            let r = add_spec(p, asset_query, track, at_frame, source_in_frame, duration_frames, clip_id);
            &&& r is Ok <==> (at_frame >= 0 && source_in_frame >= 0 && d > 0 && source_in_frame + d
                <= a.duration_frames + 1)
            &&& r is Ok ==> {
                let q = r->Ok_0.project;
                let n = p.clips.len() as int;
                &&& q.clips.len() == n + 1
                &&& q.clips[n] == (ClipView {
                    id: clip_id,
                    asset_id: a.id,
                    track_id: p.tracks[t].id,
                    start_frame: at_frame,
                    duration_frames: d as i64,
                    source_in_frame: source_in_frame,
                    transform: default_transform(),
                })
                &&& forall|j: int| 0 <= j < n ==> q.clips[j] == p.clips[j]
                &&& q == (ProjectView { clips: q.clips, selected_clip_id: Some(clip_id), ..p })
                &&& r->Ok_0.affected == Seq::<Seq<char>>::empty() && r->Ok_0.created == seq![clip_id]
            }
        }),
{
    lemma_resolve_in_bounds(p.asset_ids(), asset_query);
}

// ---------------------------------------------------------------- validity

/// Replacing a clip of a well-formed project by one with the same id that is
/// fine keeps the project well formed, whether the selection stays or moves
/// to that clip.
proof fn lemma_replace_clip_keeps_valid(p: ProjectView, i: int, c: ClipView)
    requires
        p.valid(),
        0 <= i < p.clips.len(),
        c.id == p.clips[i].id,
        clip_fine(p, c),
    ensures
        (ProjectView { clips: p.clips.update(i, c), ..p }).valid(),
        with_clip(p, i, c).valid(),
{
    lemma_valid_iff_parts(p);
    let q1 = ProjectView { clips: p.clips.update(i, c), ..p };
    let q2 = with_clip(p, i, c);
    assert forall|k: int| 0 <= k < q1.clips.len() implies clip_fine(q1, #[trigger] q1.clips[k]) by {
        lemma_clip_fine_same_media(p, q1, q1.clips[k]);
        if k != i {
            assert(q1.clips[k] == p.clips[k]);
        }
    }
    assert forall|k: int| 0 <= k < q2.clips.len() implies clip_fine(q2, #[trigger] q2.clips[k]) by {
        lemma_clip_fine_same_media(p, q2, q2.clips[k]);
        if k != i {
            assert(q2.clips[k] == p.clips[k]);
        }
    }
    assert forall|a: int, b: int| 0 <= a < b < q1.clips.len() implies #[trigger] q1.clips[a].id
        != #[trigger] q1.clips[b].id by {
        assert(p.clips[a].id != p.clips[b].id);
    }
    if let Some(s) = p.selected_clip_id {
        let k = choose|k: int| 0 <= k < p.clips.len() && #[trigger] p.clips[k].id == s;
        assert(q1.clips[k].id == s);
    }
    assert(q2.clips[i].id == c.id);
    lemma_valid_iff_parts(q1);
    lemma_valid_iff_parts(q2);
}

/// Adding a fine clip whose id no clip has to a well-formed project, and
/// selecting it, keeps the project well formed.
proof fn lemma_new_clip_keeps_valid(p: ProjectView, c: ClipView)
    requires
        p.valid(),
        forall|j: int| 0 <= j < p.clips.len() ==> p.clips[j].id != c.id,
        clip_fine(p, c),
    ensures
        with_new_clip(p, c).valid(),
{
    lemma_valid_iff_parts(p);
    let q = with_new_clip(p, c);
    let n = p.clips.len() as int;
    assert forall|k: int| 0 <= k < q.clips.len() implies clip_fine(q, #[trigger] q.clips[k]) by {
        lemma_clip_fine_same_media(p, q, q.clips[k]);
        if k < n {
            assert(q.clips[k] == p.clips[k]);
        }
    }
    assert forall|a: int, b: int| 0 <= a < b < q.clips.len() implies #[trigger] q.clips[a].id
        != #[trigger] q.clips[b].id by {
        if b < n {
            assert(p.clips[a].id != p.clips[b].id);
        } else {
            assert(q.clips[a] == p.clips[a]);
        }
    }
    assert(q.clips[n].id == c.id);
    lemma_valid_iff_parts(q);
}

/// An asset found by its query is the first asset with its own id.
proof fn lemma_resolved_asset_found(p: ProjectView, q: Seq<char>)
    requires
        resolve_id(p.asset_ids(), q) is Ok,
    ensures
        p.find_asset(p.assets[resolve_id(p.asset_ids(), q)->Ok_0].id) == Some(
            resolve_id(p.asset_ids(), q)->Ok_0,
        ),
{
    lemma_resolve_in_bounds(p.asset_ids(), q);
    let a = resolve_id(p.asset_ids(), q)->Ok_0;
    let ids = p.asset_ids();
    lemma_resolved_id_resolves_to_itself(ids, q);
    assert(ids[a] == p.assets[a].id);
    assert(exact_at(ids, ids[a], a));
}

/// Placing an asset on a well-formed project under an id that no clip has
/// gives a well-formed project.
pub proof fn law_add_to_project_keeps_valid(
    p: ProjectView,
    asset_query: Seq<char>,
    track: Option<Seq<char>>,
    at_frame: i64,
    source_in_frame: i64,
    duration_frames: Option<i64>,
    clip_id: Seq<char>,
)
    requires
        p.valid(),
        forall|j: int| 0 <= j < p.clips.len() ==> p.clips[j].id != clip_id,
        add_to_project(p, asset_query, track, at_frame, source_in_frame, duration_frames, clip_id)
            is Ok,
    ensures
        add_to_project(p, asset_query, track, at_frame, source_in_frame, duration_frames, clip_id)->Ok_0.valid(),
{
    lemma_resolve_in_bounds(p.asset_ids(), asset_query);
    lemma_resolved_asset_found(p, asset_query);
    let a = resolve_id(p.asset_ids(), asset_query)->Ok_0;
    let asset = p.assets[a];
    let t = track_for_asset(p, asset.kind, track)->Ok_0;
    lemma_track_for_asset_in_bounds(p, asset.kind, track);
    let tid = p.tracks[t].id;
    assert(p.track_ids()[t] == tid);
    assert(exact_at(p.track_ids(), tid, t));
    lemma_first_exact_exists(p.track_ids(), tid, t);
    let q = add_to_project(p, asset_query, track, at_frame, source_in_frame, duration_frames, clip_id)->Ok_0;
    let n = p.clips.len() as int;
    let c = q.clips[n];
    assert(q == with_new_clip(p, c));
    assert(clip_fine(p, c));
    lemma_new_clip_keeps_valid(p, c);
}

/// The track chosen for an asset is one of the project's tracks.
proof fn lemma_track_for_asset_in_bounds(p: ProjectView, kind: AssetKind, track: Option<Seq<char>>)
    ensures
        track_for_asset(p, kind, track) matches Ok(t) ==> 0 <= t < p.tracks.len(),
{
    match track {
        Some(id) => {
            lemma_first_exact_in_bounds(p.track_ids(), id);
        },
        None => {},
    }
}

/// Adding a clip to a well-formed project under a fresh id keeps it well
/// formed.
pub proof fn law_add_keeps_valid(
    p: ProjectView,
    asset_query: Seq<char>,
    track: Option<Seq<char>>,
    at_frame: i64,
    source_in_frame: i64,
    duration_frames: Option<i64>,
    clip_id: Seq<char>,
)
    requires
        p.valid(),
        forall|j: int| 0 <= j < p.clips.len() ==> p.clips[j].id != clip_id,
        add_spec(p, asset_query, track, at_frame, source_in_frame, duration_frames, clip_id) is Ok,
    ensures
        add_spec(p, asset_query, track, at_frame, source_in_frame, duration_frames, clip_id)->Ok_0.project.valid(),
{
    law_add_to_project_keeps_valid(p, asset_query, track, at_frame, source_in_frame, duration_frames, clip_id);
}

/// Appending to a well-formed project under a fresh id keeps it well formed.
pub proof fn law_append_keeps_valid(
    p: ProjectView,
    asset_query: Seq<char>,
    track: Option<Seq<char>>,
    source_in_frame: i64,
    duration_frames: Option<i64>,
    clip_id: Seq<char>,
)
    requires
        p.valid(),
        forall|j: int| 0 <= j < p.clips.len() ==> p.clips[j].id != clip_id,
        append_spec(p, asset_query, track, source_in_frame, duration_frames, clip_id) is Ok,
    ensures
        append_spec(p, asset_query, track, source_in_frame, duration_frames, clip_id)->Ok_0.project.valid(),
{
    let a = resolve_id(p.asset_ids(), asset_query)->Ok_0;
    let asset = p.assets[a];
    let t = track_for_asset(p, asset.kind, track)->Ok_0;
    let target = p.tracks[t].id;
    let at = track_end(p, target, p.clips.len()) as i64;
    law_add_to_project_keeps_valid(p, asset.id, Some(target), at, source_in_frame, duration_frames, clip_id);
}

/// Duplicating a clip of a well-formed project under a fresh id keeps it
/// well formed.
pub proof fn law_duplicate_keeps_valid(
    p: ProjectView,
    clip_query: Seq<char>,
    track: Option<Seq<char>>,
    at_frame: i64,
    source_in_frame: Option<i64>,
    duration_frames: Option<i64>,
    clip_id: Seq<char>,
)
    requires
        p.valid(),
        forall|j: int| 0 <= j < p.clips.len() ==> p.clips[j].id != clip_id,
        duplicate_spec(p, clip_query, track, at_frame, source_in_frame, duration_frames, clip_id) is Ok,
    ensures
        duplicate_spec(p, clip_query, track, at_frame, source_in_frame, duration_frames, clip_id)->Ok_0.project.valid(),
{
    lemma_resolve_in_bounds(p.clip_ids(), clip_query);
    let i = resolve_id(p.clip_ids(), clip_query)->Ok_0;
    let source = p.clips[i];
    lemma_valid_clip(p, i);
    let track_id = match track {
        Some(t) => t,
        None => source.track_id,
    };
    let source_in = match source_in_frame {
        Some(s) => s,
        None => source.source_in_frame,
    };
    let duration = match duration_frames {
        Some(d) => d,
        None => source.duration_frames,
    };
    law_add_to_project_keeps_valid(p, source.asset_id, Some(track_id), at_frame, source_in, Some(duration), clip_id);
    let q = add_to_project(p, source.asset_id, Some(track_id), at_frame, source_in, Some(duration), clip_id)->Ok_0;
    lemma_resolve_in_bounds(q.clip_ids(), clip_id);
    let k = resolve_id(q.clip_ids(), clip_id)->Ok_0;
    let c = ClipView { transform: source.transform, ..q.clips[k] };
    lemma_valid_clip(q, k);
    lemma_clip_fine_same_media(p, q, q.clips[k]);
    lemma_clip_fine_same_media(p, q, c);
    lemma_valid_clip(p, i);
    lemma_replace_clip_keeps_valid(q, k, c);
}

/// A transform accepted on a well-formed project keeps it well formed.
pub proof fn law_transform_keeps_valid(
    p: ProjectView,
    clip_query: Seq<char>,
    rotation_degrees: Option<i16>,
    fit: Option<FitMode>,
    position_x_bits: Option<u64>,
    position_y_bits: Option<u64>,
    reset: bool,
)
    requires
        p.valid(),
        transform_spec(p, clip_query, rotation_degrees, fit, position_x_bits, position_y_bits, reset)
            is Ok,
    ensures
        transform_spec(p, clip_query, rotation_degrees, fit, position_x_bits, position_y_bits, reset)->Ok_0.project.valid(),
{
    lemma_resolve_in_bounds(p.clip_ids(), clip_query);
    let i = resolve_id(p.clip_ids(), clip_query)->Ok_0;
    lemma_valid_clip(p, i);
    let q = transform_spec(p, clip_query, rotation_degrees, fit, position_x_bits, position_y_bits, reset)->Ok_0.project;
    let c = q.clips[i];
    assert(q == with_clip(p, i, c));
    assert(clip_fine(p, c));
    lemma_replace_clip_keeps_valid(p, i, c);
}

/// A move accepted on a well-formed project keeps it well formed.
pub proof fn law_move_keeps_valid(p: ProjectView, clip_query: Seq<char>, track: Option<Seq<char>>, at_frame: i64)
    requires
        p.valid(),
        move_spec(p, clip_query, track, at_frame) is Ok,
    ensures
        move_spec(p, clip_query, track, at_frame)->Ok_0.project.valid(),
{
    lemma_resolve_in_bounds(p.clip_ids(), clip_query);
    let i = resolve_id(p.clip_ids(), clip_query)->Ok_0;
    lemma_valid_clip(p, i);
    let q = move_spec(p, clip_query, track, at_frame)->Ok_0.project;
    let c = q.clips[i];
    assert(q == with_clip(p, i, c));
    if let Some(tid) = track {
        lemma_first_exact_in_bounds(p.track_ids(), tid);
    }
    assert(clip_fine(p, c));
    lemma_replace_clip_keeps_valid(p, i, c);
}

/// A trim accepted on a well-formed project keeps it well formed.
pub proof fn law_trim_keeps_valid(
    p: ProjectView,
    clip_query: Seq<char>,
    start_frame: i64,
    duration_frames: i64,
    source_in_frame: i64,
)
    requires
        p.valid(),
        trim_spec(p, clip_query, start_frame, duration_frames, source_in_frame) is Ok,
    ensures
        trim_spec(p, clip_query, start_frame, duration_frames, source_in_frame)->Ok_0.project.valid(),
{
    lemma_resolve_in_bounds(p.clip_ids(), clip_query);
    let i = resolve_id(p.clip_ids(), clip_query)->Ok_0;
    lemma_valid_clip(p, i);
    let q = trim_spec(p, clip_query, start_frame, duration_frames, source_in_frame)->Ok_0.project;
    let c = q.clips[i];
    assert(q == with_clip(p, i, c));
    assert(clip_fine(p, c));
    lemma_replace_clip_keeps_valid(p, i, c);
}

/// Removing a clip from a well-formed project keeps it well formed.
pub proof fn law_remove_keeps_valid(p: ProjectView, clip_query: Seq<char>)
    requires
        p.valid(),
        remove_spec(p, clip_query) is Ok,
    ensures
        remove_spec(p, clip_query)->Ok_0.project.valid(),
{
    lemma_resolve_in_bounds(p.clip_ids(), clip_query);
    let i = resolve_id(p.clip_ids(), clip_query)->Ok_0;
    lemma_valid_iff_parts(p);
    let q = remove_spec(p, clip_query)->Ok_0.project;
    let n = p.clips.len() as int;
    assert forall|k: int| 0 <= k < q.clips.len() implies clip_fine(q, #[trigger] q.clips[k]) by {
        lemma_clip_fine_same_media(p, q, q.clips[k]);
        if k < i {
            assert(q.clips[k] == p.clips[k]);
        } else {
            assert(q.clips[k] == p.clips[k + 1]);
        }
    }
    assert forall|a: int, b: int| 0 <= a < b < q.clips.len() implies #[trigger] q.clips[a].id
        != #[trigger] q.clips[b].id by {
        let a1 = if a < i { a } else { a + 1 };
        let b1 = if b < i { b } else { b + 1 };
        assert(q.clips[a] == p.clips[a1]);
        assert(q.clips[b] == p.clips[b1]);
        assert(p.clips[a1].id != p.clips[b1].id);
    }
    if let Some(s) = q.selected_clip_id {
        if i < q.clips.len() {
            assert(q.clips[i].id == s);
        } else {
            assert(q.clips[q.clips.len() - 1].id == s);
        }
    }
    lemma_valid_iff_parts(q);
}

/// A split accepted on a well-formed project, with a new id that no clip
/// has, keeps it well formed.
pub proof fn law_split_keeps_valid(p: ProjectView, clip_query: Seq<char>, at_frame: i64, clip_id: Seq<char>)
    requires
        p.valid(),
        forall|j: int| 0 <= j < p.clips.len() ==> p.clips[j].id != clip_id,
        split_spec(p, clip_query, at_frame, clip_id) is Ok,
    ensures
        split_spec(p, clip_query, at_frame, clip_id)->Ok_0.project.valid(),
{
    lemma_resolve_in_bounds(p.clip_ids(), clip_query);
    let i = resolve_id(p.clip_ids(), clip_query)->Ok_0;
    lemma_valid_clip(p, i);
    lemma_valid_iff_parts(p);
    let q = split_spec(p, clip_query, at_frame, clip_id)->Ok_0.project;
    let n = p.clips.len() as int;
    assert(q.clips.len() == n + 1);
    assert forall|k: int| 0 <= k < q.clips.len() implies clip_fine(q, #[trigger] q.clips[k]) by {
        lemma_clip_fine_same_media(p, q, q.clips[k]);
        if k < i {
            assert(q.clips[k] == p.clips[k]);
        } else if k > i + 1 {
            assert(q.clips[k] == p.clips[k - 1]);
        }
    }
    assert forall|a: int, b: int| 0 <= a < b < q.clips.len() implies #[trigger] q.clips[a].id
        != #[trigger] q.clips[b].id by {
        let a1 = if a <= i { a } else { a - 1 };
        let b1 = if b <= i { b } else { b - 1 };
        if a == i + 1 {
            assert(q.clips[a].id == clip_id);
            assert(q.clips[b] == p.clips[b1]);
        } else if b == i + 1 {
            assert(q.clips[b].id == clip_id);
            assert(q.clips[a].id == p.clips[a1].id);
        } else {
            assert(q.clips[a].id == p.clips[a1].id);
            assert(q.clips[b].id == p.clips[b1].id);
            assert(p.clips[a1].id != p.clips[b1].id);
        }
    }
    assert(q.clips[i + 1].id == clip_id);
    lemma_valid_iff_parts(q);
}

// ---------------------------------------------------------------- overrides

/// A transform without a reset changes only the values it is given: a
/// rotation, fit or position that is given becomes the clip's, and one that
/// is not given keeps the clip's previous value.
pub proof fn law_transform_changes_only_given_values(
    p: ProjectView,
    clip_query: Seq<char>,
    rotation_degrees: Option<i16>,
    fit: Option<FitMode>,
    position_x_bits: Option<u64>,
    position_y_bits: Option<u64>,
)
    requires
        transform_spec(p, clip_query, rotation_degrees, fit, position_x_bits, position_y_bits, false)
            is Ok,
    ensures
        ({
            let i = resolve_id(p.clip_ids(), clip_query)->Ok_0;
            let before = p.clips[i].transform;
            let after = transform_spec(
                p,
                clip_query,
                rotation_degrees,
                fit,
                position_x_bits,
                position_y_bits,
                false,
            )->Ok_0.project.clips[i].transform;
            &&& rotation_degrees is None ==> after.rotation_degrees == before.rotation_degrees
            &&& rotation_degrees matches Some(r) ==> after.rotation_degrees == r
            &&& fit is None ==> after.fit == before.fit
            &&& fit matches Some(f) ==> after.fit == f
            &&& position_x_bits is None ==> after.position_x_bits == before.position_x_bits
            &&& position_x_bits matches Some(x) ==> after.position_x_bits == x
            &&& position_y_bits is None ==> after.position_y_bits == before.position_y_bits
            &&& position_y_bits matches Some(y) ==> after.position_y_bits == y
        }),
{
    lemma_resolve_in_bounds(p.clip_ids(), clip_query);
}

/// A duplicate reads its asset and keeps its transform from the source clip;
/// each of its track, source in point and duration is the override given,
/// or else the source clip's, whatever the other overrides are. It starts at
/// the frame asked for, comes last, and every other clip stays.
pub proof fn law_duplicate_takes_overrides_or_inherits(
    p: ProjectView,
    clip_query: Seq<char>,
    track: Option<Seq<char>>,
    at_frame: i64,
    source_in_frame: Option<i64>,
    duration_frames: Option<i64>,
    clip_id: Seq<char>,
)
    requires
        p.valid(),
        forall|j: int| 0 <= j < p.clips.len() ==> p.clips[j].id != clip_id,
        duplicate_spec(p, clip_query, track, at_frame, source_in_frame, duration_frames, clip_id) is Ok,
    ensures
        ({
            let i = resolve_id(p.clip_ids(), clip_query)->Ok_0;
            let c = p.clips[i];
            let o = duplicate_spec(p, clip_query, track, at_frame, source_in_frame, duration_frames, clip_id)->Ok_0;
            let d = o.project.clips.last();
            &&& o.project.clips.len() == p.clips.len() + 1
            &&& d.id == clip_id && d.start_frame == at_frame
            &&& d.asset_id == c.asset_id && d.transform == c.transform
            &&& track is None ==> d.track_id == c.track_id
            &&& track matches Some(t) ==> d.track_id == t
            &&& source_in_frame is None ==> d.source_in_frame == c.source_in_frame
            &&& source_in_frame matches Some(s) ==> d.source_in_frame == s
            &&& duration_frames is None ==> d.duration_frames == c.duration_frames
            &&& duration_frames matches Some(n) ==> d.duration_frames == n
            &&& forall|j: int| 0 <= j < p.clips.len() ==> o.project.clips[j] == p.clips[j]
            &&& o.affected == seq![c.id] && o.created == seq![clip_id]
        }),
{
    lemma_resolve_in_bounds(p.clip_ids(), clip_query);
    let i = resolve_id(p.clip_ids(), clip_query)->Ok_0;
    let c = p.clips[i];
    lemma_valid_clip(p, i);
    let track_id = match track {
        Some(t) => t,
        None => c.track_id,
    };
    let source_in = match source_in_frame {
        Some(s) => s,
        None => c.source_in_frame,
    };
    let duration = match duration_frames {
        Some(d) => d,
        None => c.duration_frames,
    };
    let a = p.find_asset(c.asset_id)->0;
    lemma_first_exact_in_bounds(p.asset_ids(), c.asset_id);
    law_ids_resolve_exactly_or_by_unique_prefix(p.asset_ids(), c.asset_id);
    assert(resolve_id(p.asset_ids(), c.asset_id) == Ok::<int, LookupError>(a));
    lemma_first_exact_in_bounds(p.track_ids(), track_id);
    let q = add_to_project(p, c.asset_id, Some(track_id), at_frame, source_in, Some(duration), clip_id)->Ok_0;
    let n = p.clips.len() as int;
    assert(q.clips[n].id == clip_id);
    assert(first_exact_at(q.clip_ids(), clip_id, n)) by {
        assert forall|j: int| 0 <= j < n implies q.clip_ids()[j] != clip_id by {
            assert(q.clip_ids()[j] == p.clips[j].id);
        }
    }
    law_ids_resolve_exactly_or_by_unique_prefix(q.clip_ids(), clip_id);
}

} // verus!
