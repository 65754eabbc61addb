//! The project model: media assets, tracks, clips on tracks, and the rules
//! that make a project well formed.
use crate::text::{decimal, is_prefix, owned, push_char, push_padded, push_str, starts_with, string_of};
use vstd::string::*;
use vstd::prelude::*;

verus! {

/// The bit pattern of the IEEE-754 double `0.5`, the centred focal position.
pub const CENTER_POSITION_BITS: u64 = 0x3FE0_0000_0000_0000u64;

/// The bit pattern of the IEEE-754 double `1.0`.
pub const UNIT_POSITION_BITS: u64 = 0x3FF0_0000_0000_0000u64;

/// The bit pattern of the IEEE-754 double `-0.0`.
pub const NEGATIVE_ZERO_BITS: u64 = 0x8000_0000_0000_0000u64;

/// The name of the project file at the root of a project directory.
pub open spec fn project_file_name() -> Seq<char> {
    seq!['p', 'r', 'o', 'j', 'e', 'c', 't', '.', 't', 'e', 'p', 'r', 'o', 'j']
}

/// Frame rate as a fraction of frames per second.
#[derive(Clone, Copy, Debug, PartialEq, Eq, Structural)]
pub struct Fps {
    pub numerator: u32,
    pub denominator: u32,
}

impl Default for Fps {
    fn default() -> (r: Self)
        ensures
            r.numerator == 30 && r.denominator == 1,
    {
        Fps { numerator: 30, denominator: 1 }
    }
}

#[derive(Clone, Copy, Debug, PartialEq, Eq, Structural)]
pub enum AssetKind {
    Video,
    Audio,
}

#[derive(Clone, Copy, Debug, PartialEq, Eq, Structural)]
pub enum TrackKind {
    Video,
    Audio,
}

#[derive(Clone, Copy, Debug, PartialEq, Eq, Structural)]
pub enum FitMode {
    Contain,
    Cover,
}

impl Default for FitMode {
    fn default() -> (r: Self)
        ensures
            r == FitMode::Contain,
    {
        FitMode::Contain
    }
}

/// How a clip is presented in the frame. The focal positions are held as the
/// bit patterns of IEEE-754 doubles, so that the model carries them exactly.
#[derive(Clone, Copy, Debug, PartialEq, Eq, Structural)]
pub struct ClipTransform {
    pub rotation_degrees: i16,
    pub fit: FitMode,
    pub position_x_bits: u64,
    pub position_y_bits: u64,
}

/// The centred, unrotated `contain` transform.
pub open spec fn default_transform() -> ClipTransform {
    ClipTransform {
        rotation_degrees: 0,
        fit: FitMode::Contain,
        position_x_bits: CENTER_POSITION_BITS,
        position_y_bits: CENTER_POSITION_BITS,
    }
}

impl Default for ClipTransform {
    fn default() -> (r: Self)
        ensures
            r == default_transform(),
    {
        ClipTransform {
            rotation_degrees: 0,
            fit: FitMode::Contain,
            position_x_bits: CENTER_POSITION_BITS,
            position_y_bits: CENTER_POSITION_BITS,
        }
    }
}

/// A rotation the editor accepts: a quarter turn multiple in `0..360`.
pub open spec fn rotation_ok(r: i16) -> bool {
    r == 0 || r == 90 || r == 180 || r == 270
}

/// The double with these bits is finite and lies in `0.0..=1.0`.
/// Non-negative doubles are ordered as their bit patterns; `-0.0` compares
/// equal to `0.0`; every other pattern is negative, above one, or not finite.
pub open spec fn position_ok(bits: u64) -> bool {
    bits <= UNIT_POSITION_BITS || bits == NEGATIVE_ZERO_BITS
}

pub fn is_valid_rotation(r: i16) -> (ok: bool)
    ensures
        ok == rotation_ok(r),
{
    r == 0 || r == 90 || r == 180 || r == 270
}

pub fn is_valid_position(bits: u64) -> (ok: bool)
    ensures
        ok == position_ok(bits),
{
    bits <= UNIT_POSITION_BITS || bits == NEGATIVE_ZERO_BITS
}

pub struct Asset {
    pub id: String,
    pub name: String,
    pub path: String,
    pub kind: AssetKind,
    pub duration_frames: i64,
    pub width: u32,
    pub height: u32,
    pub has_audio: bool,
}

pub struct AssetView {
    pub id: Seq<char>,
    pub name: Seq<char>,
    pub path: Seq<char>,
    pub kind: AssetKind,
    pub duration_frames: i64,
    pub width: u32,
    pub height: u32,
    pub has_audio: bool,
}

impl View for Asset {
    type V = AssetView;

    open spec fn view(&self) -> AssetView {
        AssetView {
            id: self.id@,
            name: self.name@,
            path: self.path@,
            kind: self.kind,
            duration_frames: self.duration_frames,
            width: self.width,
            height: self.height,
            has_audio: self.has_audio,
        }
    }
}

impl Clone for Asset {
    fn clone(&self) -> (r: Self)
        ensures
            r@ == self@,
    {
        Asset {
            id: self.id.clone(),
            name: self.name.clone(),
            path: self.path.clone(),
            kind: self.kind,
            duration_frames: self.duration_frames,
            width: self.width,
            height: self.height,
            has_audio: self.has_audio,
        }
    }
}

pub struct Track {
    pub id: String,
    pub kind: TrackKind,
    pub name: String,
}

pub struct TrackView {
    pub id: Seq<char>,
    pub kind: TrackKind,
    pub name: Seq<char>,
}

impl View for Track {
    type V = TrackView;

    open spec fn view(&self) -> TrackView {
        TrackView { id: self.id@, kind: self.kind, name: self.name@ }
    }
}

impl Clone for Track {
    fn clone(&self) -> (r: Self)
        ensures
            r@ == self@,
    {
        Track { id: self.id.clone(), kind: self.kind, name: self.name.clone() }
    }
}

pub struct Clip {
    pub id: String,
    pub asset_id: String,
    pub track_id: String,
    pub start_frame: i64,
    pub duration_frames: i64,
    pub source_in_frame: i64,
    pub transform: ClipTransform,
}

pub struct ClipView {
    pub id: Seq<char>,
    pub asset_id: Seq<char>,
    pub track_id: Seq<char>,
    pub start_frame: i64,
    pub duration_frames: i64,
    pub source_in_frame: i64,
    pub transform: ClipTransform,
}

impl ClipView {
    /// The frame just after the clip's last timeline frame.
    pub open spec fn end(self) -> int {
        self.start_frame + self.duration_frames
    }
}

impl View for Clip {
    type V = ClipView;

    open spec fn view(&self) -> ClipView {
        ClipView {
            id: self.id@,
            asset_id: self.asset_id@,
            track_id: self.track_id@,
            start_frame: self.start_frame,
            duration_frames: self.duration_frames,
            source_in_frame: self.source_in_frame,
            transform: self.transform,
        }
    }
}

impl Clone for Clip {
    fn clone(&self) -> (r: Self)
        ensures
            r@ == self@,
    {
        Clip {
            id: self.id.clone(),
            asset_id: self.asset_id.clone(),
            track_id: self.track_id.clone(),
            start_frame: self.start_frame,
            duration_frames: self.duration_frames,
            source_in_frame: self.source_in_frame,
            transform: self.transform,
        }
    }
}

impl Clip {
    /// The frame just after the clip's last timeline frame.
    pub fn end_frame(&self) -> (r: i64)
        requires
            i64::MIN <= self@.end() <= i64::MAX,
        ensures
            r == self@.end(),
    {
        self.start_frame + self.duration_frames
    }
}

pub struct Project {
    pub schema_version: u32,
    pub name: String,
    pub revision: u64,
    pub fps: Fps,
    pub width: u32,
    pub height: u32,
    pub playhead_frame: i64,
    pub selected_clip_id: Option<String>,
    pub assets: Vec<Asset>,
    pub tracks: Vec<Track>,
    pub clips: Vec<Clip>,
}

#[verifier::ext_equal]
pub struct ProjectView {
    pub schema_version: u32,
    pub name: Seq<char>,
    pub revision: u64,
    pub fps: Fps,
    pub width: u32,
    pub height: u32,
    pub playhead_frame: i64,
    pub selected_clip_id: Option<Seq<char>>,
    pub assets: Seq<AssetView>,
    pub tracks: Seq<TrackView>,
    pub clips: Seq<ClipView>,
}

pub open spec fn option_string_view(o: Option<String>) -> Option<Seq<char>> {
    match o {
        Some(s) => Some(s@),
        None => None,
    }
}

impl View for Project {
    type V = ProjectView;

    open spec fn view(&self) -> ProjectView {
        ProjectView {
            schema_version: self.schema_version,
            name: self.name@,
            revision: self.revision,
            fps: self.fps,
            width: self.width,
            height: self.height,
            playhead_frame: self.playhead_frame,
            selected_clip_id: option_string_view(self.selected_clip_id),
            assets: self.assets@.map_values(|a: Asset| a@),
            tracks: self.tracks@.map_values(|t: Track| t@),
            clips: self.clips@.map_values(|c: Clip| c@),
        }
    }
}

pub fn clone_option_string(o: &Option<String>) -> (r: Option<String>)
    ensures
        option_string_view(r) == option_string_view(*o),
{
    match o {
        Some(s) => Some(s.clone()),
        None => None,
    }
}

pub fn clone_assets(v: &Vec<Asset>) -> (r: Vec<Asset>)
    ensures
        r@.map_values(|a: Asset| a@) == v@.map_values(|a: Asset| a@),
{
    let r = v.clone();
    assert(r@.map_values(|a: Asset| a@) =~= v@.map_values(|a: Asset| a@));
    r
}

pub fn clone_tracks(v: &Vec<Track>) -> (r: Vec<Track>)
    ensures
        r@.map_values(|t: Track| t@) == v@.map_values(|t: Track| t@),
{
    let r = v.clone();
    assert(r@.map_values(|t: Track| t@) =~= v@.map_values(|t: Track| t@));
    r
}

pub fn clone_clips(v: &Vec<Clip>) -> (r: Vec<Clip>)
    ensures
        r@.map_values(|c: Clip| c@) == v@.map_values(|c: Clip| c@),
{
    let r = v.clone();
    assert(r@.map_values(|c: Clip| c@) =~= v@.map_values(|c: Clip| c@));
    r
}

impl Clone for Project {
    fn clone(&self) -> (r: Self)
        ensures
            r@ == self@,
    {
        Project {
            schema_version: self.schema_version,
            name: self.name.clone(),
            revision: self.revision,
            fps: self.fps,
            width: self.width,
            height: self.height,
            playhead_frame: self.playhead_frame,
            selected_clip_id: clone_option_string(&self.selected_clip_id),
            assets: clone_assets(&self.assets),
            tracks: clone_tracks(&self.tracks),
            clips: clone_clips(&self.clips),
        }
    }
}


/// Why an id query names no single item.
#[derive(Clone, Copy, Debug, PartialEq, Eq, Structural)]
pub enum LookupError {
    NotFound,
    Ambiguous,
}

pub open spec fn exact_at(ids: Seq<Seq<char>>, q: Seq<char>, i: int) -> bool {
    0 <= i < ids.len() && ids[i] == q
}

pub open spec fn first_exact_at(ids: Seq<Seq<char>>, q: Seq<char>, i: int) -> bool {
    exact_at(ids, q, i) && forall|j: int| 0 <= j < i ==> ids[j] != q
}

pub open spec fn prefix_at(ids: Seq<Seq<char>>, q: Seq<char>, i: int) -> bool {
    0 <= i < ids.len() && is_prefix(q, ids[i])
}

pub open spec fn sole_prefix_at(ids: Seq<Seq<char>>, q: Seq<char>, i: int) -> bool {
    prefix_at(ids, q, i) && forall|j: int| 0 <= j < ids.len() && j != i ==> !is_prefix(q, #[trigger] ids[j])
}

/// Which item an id query names: the first item whose id is the query, else
/// the one item whose id starts with it.
pub open spec fn resolve_id(ids: Seq<Seq<char>>, q: Seq<char>) -> Result<int, LookupError> {
    if exists|i: int| exact_at(ids, q, i) {
        Ok(choose|i: int| first_exact_at(ids, q, i))
    } else if exists|i: int| sole_prefix_at(ids, q, i) {
        Ok(choose|i: int| sole_prefix_at(ids, q, i))
    } else if exists|i: int| prefix_at(ids, q, i) {
        Err(LookupError::Ambiguous)
    } else {
        Err(LookupError::NotFound)
    }
}

/// Whenever some id equals the query, a first such id exists.
pub proof fn lemma_first_exact_exists(ids: Seq<Seq<char>>, q: Seq<char>, i: int)
    requires
        exact_at(ids, q, i),
    ensures
        exists|k: int| first_exact_at(ids, q, k),
    decreases i,
{
    if forall|j: int| 0 <= j < i ==> ids[j] != q {
        assert(first_exact_at(ids, q, i));
    } else {
        let j = choose|j: int| 0 <= j < i && ids[j] == q;
        lemma_first_exact_exists(ids, q, j);
    }
}

/// The resolved index is in bounds.
pub proof fn lemma_resolve_in_bounds(ids: Seq<Seq<char>>, q: Seq<char>)
    ensures
        resolve_id(ids, q) matches Ok(i) ==> 0 <= i < ids.len(),
        resolve_id(ids, q) matches Ok(i) ==> is_prefix(q, ids[i]),
{
    if exists|i: int| exact_at(ids, q, i) {
        let i = choose|i: int| exact_at(ids, q, i);
        lemma_first_exact_exists(ids, q, i);
        let k = choose|k: int| first_exact_at(ids, q, k);
        assert(ids[k].subrange(0, q.len() as int) =~= q);
    }
}

/// An id query names the first item whose id is exactly the query; failing
/// that, the one item whose id starts with it. With no exact match, a query
/// that starts two ids is ambiguous and one that starts none finds nothing.
pub proof fn law_ids_resolve_exactly_or_by_unique_prefix(ids: Seq<Seq<char>>, q: Seq<char>)
    ensures
        forall|i: int| first_exact_at(ids, q, i) ==> resolve_id(ids, q) == Ok::<int, LookupError>(i),
        (forall|j: int| 0 <= j < ids.len() ==> ids[j] != q) ==> (forall|i: int|
            sole_prefix_at(ids, q, i) ==> resolve_id(ids, q) == Ok::<int, LookupError>(i)),
        (forall|j: int| 0 <= j < ids.len() ==> ids[j] != q) ==> (forall|i: int, k: int|
            prefix_at(ids, q, i) && prefix_at(ids, q, k) && i != k ==> resolve_id(ids, q) == Err::<
                int,
                LookupError,
            >(LookupError::Ambiguous)),
        (forall|j: int| 0 <= j < ids.len() ==> !is_prefix(q, ids[j])) ==> resolve_id(ids, q) == Err::<
            int,
            LookupError,
        >(LookupError::NotFound),
{
    assert forall|i: int| first_exact_at(ids, q, i) implies resolve_id(ids, q) == Ok::<
        int,
        LookupError,
    >(i) by {
        let k = choose|k: int| first_exact_at(ids, q, k);
        if k < i {
            assert(ids[k] != q);
        } else if k > i {
            assert(ids[i] != q);
        }
    }
    if forall|j: int| 0 <= j < ids.len() ==> ids[j] != q {
        assert(!exists|i: int| exact_at(ids, q, i));
        assert forall|i: int| sole_prefix_at(ids, q, i) implies resolve_id(ids, q) == Ok::<
            int,
            LookupError,
        >(i) by {
            let k = choose|k: int| sole_prefix_at(ids, q, k);
            if k != i {
                assert(!is_prefix(q, ids[i]));
            }
        }
        assert forall|i: int, k: int|
            prefix_at(ids, q, i) && prefix_at(ids, q, k) && i != k implies resolve_id(ids, q)
            == Err::<int, LookupError>(LookupError::Ambiguous) by {
            if exists|m: int| sole_prefix_at(ids, q, m) {
                let m = choose|m: int| sole_prefix_at(ids, q, m);
                if m != i {
                    assert(!is_prefix(q, ids[i]));
                } else {
                    assert(!is_prefix(q, ids[k]));
                }
            }
        }
    }
    if forall|j: int| 0 <= j < ids.len() ==> !is_prefix(q, ids[j]) {
        if exists|i: int| exact_at(ids, q, i) {
            let i = choose|i: int| exact_at(ids, q, i);
            assert(ids[i].subrange(0, q.len() as int) =~= q);
            assert(is_prefix(q, ids[i]));
        }
    }
}

/// The id of the item a query names names that same item.
pub proof fn lemma_resolved_id_resolves_to_itself(ids: Seq<Seq<char>>, q: Seq<char>)
    requires
        resolve_id(ids, q) is Ok,
    ensures
        resolve_id(ids, ids[resolve_id(ids, q)->Ok_0]) == resolve_id(ids, q),
{
    lemma_resolve_in_bounds(ids, q);
    let i = resolve_id(ids, q)->Ok_0;
    let id = ids[i];
    if exists|k: int| exact_at(ids, q, k) {
        let k = choose|k: int| exact_at(ids, q, k);
        lemma_first_exact_exists(ids, q, k);
        assert(first_exact_at(ids, q, i));
        assert(id == q);
    } else {
        assert(exists|k: int| sole_prefix_at(ids, q, k));
        assert(sole_prefix_at(ids, q, i));
        assert forall|j: int| 0 <= j < i implies ids[j] != id by {
            if ids[j] == id {
                assert(is_prefix(q, ids[j]));
            }
        }
        assert(first_exact_at(ids, id, i));
    }
    law_ids_resolve_exactly_or_by_unique_prefix(ids, id);
}

/// Looks an id query up in a list of ids, as the project's asset and clip
/// lookups do.
pub fn resolve_in(ids: &Vec<String>, q: &str) -> (r: Result<usize, LookupError>)
    ensures
        match r {
            Ok(i) => resolve_id(ids@.map_values(|s: String| s@), q@) == Ok::<int, LookupError>(i as int),
            Err(e) => resolve_id(ids@.map_values(|s: String| s@), q@) == Err::<int, LookupError>(e),
        },
{
    let ghost v = ids@.map_values(|s: String| s@);
    let query = owned(q);
    let mut i: usize = 0;
    while i < ids.len()
        invariant
            v == ids@.map_values(|s: String| s@),
            query@ == q@,
            i <= ids.len(),
            forall|j: int| 0 <= j < i ==> v[j] != q@,
        decreases ids.len() - i,
    {
        if ids[i] == query {
            proof {
                assert(first_exact_at(v, q@, i as int));
                assert(exists|k: int| exact_at(v, q@, k));
                let k = choose|k: int| first_exact_at(v, q@, k);
                if k < i {
                    assert(v[k] != q@);
                } else if k > i {
                    assert(v[i as int] == q@);
                }
            }
            return Ok(i);
        }
        i = i + 1;
    }
    assert(!exists|k: int| exact_at(v, q@, k));
    let mut count: usize = 0;
    let mut found: usize = 0;
    let mut j: usize = 0;
    while j < ids.len()
        invariant
            v == ids@.map_values(|s: String| s@),
            !exists|k: int| exact_at(v, q@, k),
            j <= ids.len(),
            count <= 1,
            count == 0 ==> forall|k: int| 0 <= k < j ==> !is_prefix(q@, #[trigger] v[k]),
            count == 1 ==> found < j && is_prefix(q@, v[found as int]) && forall|k: int|
                0 <= k < j && k != found ==> !is_prefix(q@, #[trigger] v[k]),
        decreases ids.len() - j,
    {
        if starts_with(ids[j].as_str(), q) {
            if count == 1 {
                proof {
                    assert(prefix_at(v, q@, j as int));
                    assert forall|k: int| !sole_prefix_at(v, q@, k) by {
                        if sole_prefix_at(v, q@, k) {
                            if k == j {
                                assert(!is_prefix(q@, v[found as int]));
                            } else {
                                assert(!is_prefix(q@, v[j as int]));
                            }
                        }
                    }
                }
                return Err(LookupError::Ambiguous);
            }
            count = 1;
            found = j;
        }
        j = j + 1;
    }
    if count == 1 {
        proof {
            assert(sole_prefix_at(v, q@, found as int));
            let k = choose|k: int| sole_prefix_at(v, q@, k);
            if k != found {
                assert(!is_prefix(q@, v[k]));
            }
        }
        Ok(found)
    } else {
        assert(forall|k: int| !prefix_at(v, q@, k));
        Err(LookupError::NotFound)
    }
}


/// Why a project is not well formed. Clip errors carry the clip's index.
#[derive(Clone, Copy, Debug, PartialEq, Eq, Structural)]
pub enum ValidationError {
    UnsupportedSchema,
    InvalidFps,
    DuplicateClipId { clip: usize },
    MissingAsset { clip: usize },
    MissingTrack { clip: usize },
    InvalidTiming { clip: usize },
    InvalidRotation { clip: usize },
    InvalidPosition { clip: usize },
    ExtendsBeyondSource { clip: usize },
    MissingSelection,
}

/// The message of a validation error, as the command line prints it.
pub open spec fn validation_error_text(e: ValidationError) -> Seq<char> {
    match e {
        ValidationError::UnsupportedSchema => "unsupported project schema version"@,
        ValidationError::InvalidFps => "project fps must be positive"@,
        ValidationError::DuplicateClipId { .. } => "duplicate clip id"@,
        ValidationError::MissingAsset { .. } => "clip refers to a missing asset"@,
        ValidationError::MissingTrack { .. } => "clip refers to a missing track"@,
        ValidationError::InvalidTiming { .. } => "clip has invalid timing"@,
        ValidationError::InvalidRotation { .. } => "clip has invalid rotation"@,
        ValidationError::InvalidPosition { .. } => "clip has invalid transform position"@,
        ValidationError::ExtendsBeyondSource { .. } => "clip extends beyond its source"@,
        ValidationError::MissingSelection => "selected clip does not exist"@,
    }
}

impl ValidationError {
    /// The message of the error, as the command line prints it.
    pub fn message(&self) -> (r: &'static str)
        ensures
            r@ == validation_error_text(*self),
    {
        match self {
            ValidationError::UnsupportedSchema => "unsupported project schema version",
            ValidationError::InvalidFps => "project fps must be positive",
            ValidationError::DuplicateClipId { .. } => "duplicate clip id",
            ValidationError::MissingAsset { .. } => "clip refers to a missing asset",
            ValidationError::MissingTrack { .. } => "clip refers to a missing track",
            ValidationError::InvalidTiming { .. } => "clip has invalid timing",
            ValidationError::InvalidRotation { .. } => "clip has invalid rotation",
            ValidationError::InvalidPosition { .. } => "clip has invalid transform position",
            ValidationError::ExtendsBeyondSource { .. } => "clip extends beyond its source",
            ValidationError::MissingSelection => "selected clip does not exist",
        }
    }
}

/// The full message of a validation error of `p`, as the command line
/// prints it: the short message with the clip at fault and what it refers
/// to, the schema version, or the selected id. An index that names no clip
/// of `p` gives the short message.
pub open spec fn validation_error_detail(p: ProjectView, e: ValidationError) -> Seq<char> {
    match e {
        ValidationError::UnsupportedSchema => "unsupported project schema version "@ + decimal(
            p.schema_version as nat,
        ),
        ValidationError::InvalidFps => validation_error_text(e),
        ValidationError::DuplicateClipId { clip } => if clip < p.clips.len() {
            "duplicate clip id: "@ + p.clips[clip as int].id
        } else {
            validation_error_text(e)
        },
        ValidationError::MissingAsset { clip } => if clip < p.clips.len() {
            "clip "@ + p.clips[clip as int].id + " refers to missing asset "@
                + p.clips[clip as int].asset_id
        } else {
            validation_error_text(e)
        },
        ValidationError::MissingTrack { clip } => if clip < p.clips.len() {
            "clip "@ + p.clips[clip as int].id + " refers to missing track "@
                + p.clips[clip as int].track_id
        } else {
            validation_error_text(e)
        },
        ValidationError::InvalidTiming { clip } => if clip < p.clips.len() {
            "clip "@ + p.clips[clip as int].id + " has invalid timing"@
        } else {
            validation_error_text(e)
        },
        ValidationError::InvalidRotation { clip } => if clip < p.clips.len() {
            "clip "@ + p.clips[clip as int].id + " has invalid rotation"@
        } else {
            validation_error_text(e)
        },
        ValidationError::InvalidPosition { clip } => if clip < p.clips.len() {
            "clip "@ + p.clips[clip as int].id + " has invalid transform position"@
        } else {
            validation_error_text(e)
        },
        ValidationError::ExtendsBeyondSource { clip } => if clip < p.clips.len() {
            "clip "@ + p.clips[clip as int].id + " extends beyond its source"@
        } else {
            validation_error_text(e)
        },
        ValidationError::MissingSelection => match p.selected_clip_id {
            Some(s) => "selected clip does not exist: "@ + s,
            None => validation_error_text(e),
        },
    }
}

impl ValidationError {
    /// The full message of the error found in `p`, as the command line
    /// prints it.
    pub fn describe(&self, p: &Project) -> (r: String)
        ensures
            r@ == validation_error_detail(p@, *self),
    {
        let mut out: Vec<char> = Vec::new();
        let n = p.clips.len();
        match *self {
            ValidationError::UnsupportedSchema => {
                push_str(&mut out, "unsupported project schema version ");
                push_padded(&mut out, p.schema_version as u128, 0);
            },
            ValidationError::DuplicateClipId { clip } if clip < n => {
                push_str(&mut out, "duplicate clip id: ");
                push_str(&mut out, p.clips[clip].id.as_str());
            },
            ValidationError::MissingAsset { clip } if clip < n => {
                push_str(&mut out, "clip ");
                push_str(&mut out, p.clips[clip].id.as_str());
                push_str(&mut out, " refers to missing asset ");
                push_str(&mut out, p.clips[clip].asset_id.as_str());
            },
            ValidationError::MissingTrack { clip } if clip < n => {
                push_str(&mut out, "clip ");
                push_str(&mut out, p.clips[clip].id.as_str());
                push_str(&mut out, " refers to missing track ");
                push_str(&mut out, p.clips[clip].track_id.as_str());
            },
            ValidationError::InvalidTiming { clip } if clip < n => {
                push_str(&mut out, "clip ");
                push_str(&mut out, p.clips[clip].id.as_str());
                push_str(&mut out, " has invalid timing");
            },
            ValidationError::InvalidRotation { clip } if clip < n => {
                push_str(&mut out, "clip ");
                push_str(&mut out, p.clips[clip].id.as_str());
                push_str(&mut out, " has invalid rotation");
            },
            ValidationError::InvalidPosition { clip } if clip < n => {
                push_str(&mut out, "clip ");
                push_str(&mut out, p.clips[clip].id.as_str());
                push_str(&mut out, " has invalid transform position");
            },
            ValidationError::ExtendsBeyondSource { clip } if clip < n => {
                push_str(&mut out, "clip ");
                push_str(&mut out, p.clips[clip].id.as_str());
                push_str(&mut out, " extends beyond its source");
            },
            ValidationError::MissingSelection if p.selected_clip_id.is_some() => {
                push_str(&mut out, "selected clip does not exist: ");
                match &p.selected_clip_id {
                    Some(s) => push_str(&mut out, s.as_str()),
                    None => {},
                }
            },
            _ => {
                push_str(&mut out, self.message());
            },
        }
        string_of(&out)
    }
}

pub open spec fn first_exact(ids: Seq<Seq<char>>, q: Seq<char>) -> Option<int> {
    if exists|i: int| exact_at(ids, q, i) {
        Some(choose|i: int| first_exact_at(ids, q, i))
    } else {
        None
    }
}

/// The first index whose id is `q`, found by a scan.
pub fn find_first_exact(ids: &Vec<String>, q: &String) -> (r: Option<usize>)
    ensures
        match r {
            Some(i) => first_exact(ids@.map_values(|s: String| s@), q@) == Some(i as int),
            None => first_exact(ids@.map_values(|s: String| s@), q@) == None::<int>,
        },
{
    let ghost v = ids@.map_values(|s: String| s@);
    let mut i: usize = 0;
    while i < ids.len()
        invariant
            v == ids@.map_values(|s: String| s@),
            i <= ids.len(),
            forall|j: int| 0 <= j < i ==> v[j] != q@,
        decreases ids.len() - i,
    {
        if ids[i] == *q {
            proof {
                assert(first_exact_at(v, q@, i as int));
                assert(exact_at(v, q@, i as int));
                let k = choose|k: int| first_exact_at(v, q@, k);
                if k < i {
                    assert(v[k] != q@);
                } else if k > i {
                    assert(v[i as int] == q@);
                }
            }
            return Some(i);
        }
        i = i + 1;
    }
    assert(!exists|k: int| exact_at(v, q@, k));
    None
}

impl ProjectView {
    pub open spec fn asset_ids(self) -> Seq<Seq<char>> {
        self.assets.map_values(|a: AssetView| a.id)
    }

    pub open spec fn track_ids(self) -> Seq<Seq<char>> {
        self.tracks.map_values(|t: TrackView| t.id)
    }

    pub open spec fn clip_ids(self) -> Seq<Seq<char>> {
        self.clips.map_values(|c: ClipView| c.id)
    }

    /// The first asset with this id, as `Project::asset` finds it.
    pub open spec fn find_asset(self, id: Seq<char>) -> Option<int> {
        first_exact(self.asset_ids(), id)
    }

    /// The first track with this id.
    pub open spec fn find_track(self, id: Seq<char>) -> Option<int> {
        first_exact(self.track_ids(), id)
    }

    /// The problem with clip `i`, given that the clips before it have none.
    pub open spec fn clip_error(self, i: int) -> Option<ValidationError> {
        let c = self.clips[i];
        let at = i as usize;
        if exists|j: int| 0 <= j < i && #[trigger] self.clips[j].id == c.id {
            Some(ValidationError::DuplicateClipId { clip: at })
        } else if self.find_asset(c.asset_id) is None {
            Some(ValidationError::MissingAsset { clip: at })
        } else if self.find_track(c.track_id) is None {
            Some(ValidationError::MissingTrack { clip: at })
        } else if c.start_frame < 0 || c.duration_frames <= 0 || c.source_in_frame < 0 {
            Some(ValidationError::InvalidTiming { clip: at })
        } else if !rotation_ok(c.transform.rotation_degrees) {
            Some(ValidationError::InvalidRotation { clip: at })
        } else if !position_ok(c.transform.position_x_bits) || !position_ok(
            c.transform.position_y_bits,
        ) {
            Some(ValidationError::InvalidPosition { clip: at })
        } else if c.source_in_frame + c.duration_frames > self.assets[self.find_asset(
            c.asset_id,
        )->0].duration_frames + 1 {
            Some(ValidationError::ExtendsBeyondSource { clip: at })
        } else {
            None
        }
    }

    /// The first problem among the first `n` clips.
    pub open spec fn first_clip_error(self, n: nat) -> Option<ValidationError>
        decreases n,
    {
        if n == 0 {
            None
        } else {
            match self.first_clip_error((n - 1) as nat) {
                Some(e) => Some(e),
                None => self.clip_error(n - 1),
            }
        }
    }

    /// What `Project::validate` answers: the first rule the project breaks.
    pub open spec fn validation(self) -> Result<(), ValidationError> {
        if self.schema_version != 1 {
            Err(ValidationError::UnsupportedSchema)
        } else if self.fps.numerator == 0 || self.fps.denominator == 0 {
            Err(ValidationError::InvalidFps)
        } else {
            match self.first_clip_error(self.clips.len()) {
                Some(e) => Err(e),
                None => match self.selected_clip_id {
                    Some(s) => if first_exact(self.clip_ids(), s) is Some {
                        Ok(())
                    } else {
                        Err(ValidationError::MissingSelection)
                    },
                    None => Ok(()),
                },
            }
        }
    }

    pub open spec fn valid(self) -> bool {
        self.validation() is Ok
    }

    /// Every clip's end frame fits in an `i64`.
    pub open spec fn ends_fit(self) -> bool {
        forall|i: int|
            0 <= i < self.clips.len() ==> i64::MIN <= #[trigger] self.clips[i].end() <= i64::MAX
    }

    /// The largest end frame of the clips among the first `n`; zero when `n`
    /// is zero.
    pub open spec fn max_end(self, n: nat) -> int
        decreases n,
    {
        if n == 0 {
            0
        } else if n == 1 {
            self.clips[0].end()
        } else {
            let e = self.clips[n - 1].end();
            let m = self.max_end((n - 1) as nat);
            if e > m { e } else { m }
        }
    }

    /// The timeline's length: the largest end frame of its clips, or zero
    /// without clips.
    pub open spec fn duration(self) -> int {
        self.max_end(self.clips.len())
    }
}

impl Project {
    pub fn asset_ids(&self) -> (r: Vec<String>)
        ensures
            r@.map_values(|s: String| s@) == self@.asset_ids(),
    {
        let mut r: Vec<String> = Vec::new();
        let mut i: usize = 0;
        while i < self.assets.len()
            invariant
                i <= self.assets.len(),
                r@.map_values(|s: String| s@) =~= self@.asset_ids().subrange(0, i as int),
            decreases self.assets.len() - i,
        {
            let id = self.assets[i].id.clone();
            assert(id@ == self@.asset_ids()[i as int]);
            let ghost before = r@;
            r.push(id);
            proof {
                lemma_map_push(before, id, |s: String| s@);
                assert(self@.asset_ids().subrange(0, i + 1) =~= self@.asset_ids().subrange(0, i as int).push(id@));
            }
            i = i + 1;
        }
        assert(self@.asset_ids().subrange(0, i as int) =~= self@.asset_ids());
        r
    }

    pub fn track_ids(&self) -> (r: Vec<String>)
        ensures
            r@.map_values(|s: String| s@) == self@.track_ids(),
    {
        let mut r: Vec<String> = Vec::new();
        let mut i: usize = 0;
        while i < self.tracks.len()
            invariant
                i <= self.tracks.len(),
                r@.map_values(|s: String| s@) =~= self@.track_ids().subrange(0, i as int),
            decreases self.tracks.len() - i,
        {
            let id = self.tracks[i].id.clone();
            assert(id@ == self@.track_ids()[i as int]);
            let ghost before = r@;
            r.push(id);
            proof {
                lemma_map_push(before, id, |s: String| s@);
                assert(self@.track_ids().subrange(0, i + 1) =~= self@.track_ids().subrange(0, i as int).push(id@));
            }
            i = i + 1;
        }
        assert(self@.track_ids().subrange(0, i as int) =~= self@.track_ids());
        r
    }

    pub fn clip_ids(&self) -> (r: Vec<String>)
        ensures
            r@.map_values(|s: String| s@) == self@.clip_ids(),
    {
        let mut r: Vec<String> = Vec::new();
        let mut i: usize = 0;
        while i < self.clips.len()
            invariant
                i <= self.clips.len(),
                r@.map_values(|s: String| s@) =~= self@.clip_ids().subrange(0, i as int),
            decreases self.clips.len() - i,
        {
            let id = self.clips[i].id.clone();
            assert(id@ == self@.clip_ids()[i as int]);
            let ghost before = r@;
            r.push(id);
            proof {
                lemma_map_push(before, id, |s: String| s@);
                assert(self@.clip_ids().subrange(0, i + 1) =~= self@.clip_ids().subrange(0, i as int).push(id@));
            }
            i = i + 1;
        }
        assert(self@.clip_ids().subrange(0, i as int) =~= self@.clip_ids());
        r
    }

    /// The index of the asset that an id or unambiguous id prefix names.
    pub fn resolve_asset_index(&self, query: &str) -> (r: Result<usize, LookupError>)
        ensures
            match r {
                Ok(i) => resolve_id(self@.asset_ids(), query@) == Ok::<int, LookupError>(i as int),
                Err(e) => resolve_id(self@.asset_ids(), query@) == Err::<int, LookupError>(e),
            },
    {
        let ids = self.asset_ids();
        resolve_in(&ids, query)
    }

    /// The index of the clip that an id or unambiguous id prefix names.
    pub fn resolve_clip_index(&self, query: &str) -> (r: Result<usize, LookupError>)
        ensures
            match r {
                Ok(i) => resolve_id(self@.clip_ids(), query@) == Ok::<int, LookupError>(i as int),
                Err(e) => resolve_id(self@.clip_ids(), query@) == Err::<int, LookupError>(e),
            },
    {
        let ids = self.clip_ids();
        resolve_in(&ids, query)
    }

    /// The position of the first asset with exactly this id.
    pub fn asset_position(&self, id: &String) -> (r: Option<usize>)
        ensures
            match r {
                Some(i) => self@.find_asset(id@) == Some(i as int),
                None => self@.find_asset(id@) == None::<int>,
            },
    {
        let ids = self.asset_ids();
        find_first_exact(&ids, id)
    }

    /// The position of the first track with exactly this id.
    pub fn track_position(&self, id: &String) -> (r: Option<usize>)
        ensures
            match r {
                Some(i) => self@.find_track(id@) == Some(i as int),
                None => self@.find_track(id@) == None::<int>,
            },
    {
        let ids = self.track_ids();
        find_first_exact(&ids, id)
    }

    /// The first asset with exactly this id.
    pub fn asset(&self, id: &str) -> (r: Option<&Asset>)
        ensures
            match r {
                Some(a) => exists|i: int| self@.find_asset(id@) == Some(i) && a@ == #[trigger] self@.assets[i],
                None => self@.find_asset(id@) == None::<int>,
            },
    {
        let key = owned(id);
        match self.asset_position(&key) {
            Some(i) => {
                proof {
                    lemma_first_exact_in_bounds(self@.asset_ids(), id@);
                }
                Some(&self.assets[i])
            },
            None => None,
        }
    }
}

/// Mapping a sequence with one more element maps that element last.
pub proof fn lemma_map_push<A, B>(s: Seq<A>, x: A, f: spec_fn(A) -> B)
    ensures
        s.push(x).map_values(f) == s.map_values(f).push(f(x)),
{
    assert(s.push(x).map_values(f) =~= s.map_values(f).push(f(x)));
}

pub proof fn lemma_first_exact_in_bounds(ids: Seq<Seq<char>>, q: Seq<char>)
    ensures
        first_exact(ids, q) matches Some(i) ==> first_exact_at(ids, q, i),
{
    if exists|i: int| exact_at(ids, q, i) {
        let i = choose|i: int| exact_at(ids, q, i);
        lemma_first_exact_exists(ids, q, i);
    }
}


impl Project {
    /// The problem with clip `i`, given that the clips before it have none.
    fn clip_error(&self, i: usize) -> (r: Option<ValidationError>)
        requires
            i < self.clips.len(),
        ensures
            r == self@.clip_error(i as int),
    {
        let c = &self.clips[i];
        assert(c@ == self@.clips[i as int]);
        let mut j: usize = 0;
        while j < i
            invariant
                i < self.clips.len(),
                c@ == self@.clips[i as int],
                j <= i,
                forall|k: int| 0 <= k < j ==> self@.clips[k].id != c@.id,
            decreases i - j,
        {
            if self.clips[j].id == c.id {
                assert(self@.clips[j as int].id == self@.clips[i as int].id);
                return Some(ValidationError::DuplicateClipId { clip: i });
            }
            j = j + 1;
        }
        let asset_index = match self.asset_position(&c.asset_id) {
            Some(a) => a,
            None => {
                return Some(ValidationError::MissingAsset { clip: i });
            },
        };
        if self.track_position(&c.track_id).is_none() {
            return Some(ValidationError::MissingTrack { clip: i });
        }
        if c.start_frame < 0 || c.duration_frames <= 0 || c.source_in_frame < 0 {
            return Some(ValidationError::InvalidTiming { clip: i });
        }
        if !is_valid_rotation(c.transform.rotation_degrees) {
            return Some(ValidationError::InvalidRotation { clip: i });
        }
        if !is_valid_position(c.transform.position_x_bits) || !is_valid_position(
            c.transform.position_y_bits,
        ) {
            return Some(ValidationError::InvalidPosition { clip: i });
        }
        proof {
            lemma_first_exact_in_bounds(self@.asset_ids(), c@.asset_id);
        }
        let limit = self.assets[asset_index].duration_frames as i128 + 1;
        if c.source_in_frame as i128 + c.duration_frames as i128 > limit {
            return Some(ValidationError::ExtendsBeyondSource { clip: i });
        }
        None
    }

    /// Checks the rules of a well-formed project and names the first one it
    /// breaks.
    pub fn validate(&self) -> (r: Result<(), ValidationError>)
        ensures
            r == self@.validation(),
    {
        if self.schema_version != 1 {
            return Err(ValidationError::UnsupportedSchema);
        }
        if self.fps.numerator == 0 || self.fps.denominator == 0 {
            return Err(ValidationError::InvalidFps);
        }
        let n = self.clips.len();
        assert(self@.clips.len() == n);
        let mut i: usize = 0;
        while i < n
            invariant
                n == self.clips.len(),
                self@.clips.len() == n,
                self.schema_version == 1,
                self.fps.numerator != 0 && self.fps.denominator != 0,
                i <= n,
                self@.first_clip_error(i as nat) is None,
            decreases n - i,
        {
            match self.clip_error(i) {
                Some(e) => {
                    assert(self@.first_clip_error((i + 1) as nat) == Some(e));
                    proof {
                        lemma_first_error_persists(self@, (i + 1) as nat, n as nat);
                    }
                    return Err(e);
                },
                None => {},
            }
            i = i + 1;
        }
        assert(self@.first_clip_error(self@.clips.len()) is None);
        match &self.selected_clip_id {
            Some(selected) => {
                assert(self@.selected_clip_id == Some(selected@));
                let ids = self.clip_ids();
                match find_first_exact(&ids, selected) {
                    Some(k) => {
                        Ok(())
                    },
                    None => {
                        assert(self@.validation() == Err::<(), ValidationError>(ValidationError::MissingSelection));
                        Err(ValidationError::MissingSelection)
                    },
                }
            },
            None => {
                assert(self@.selected_clip_id is None);
                assert(self@.validation() == Ok::<(), ValidationError>(()));
                Ok(())
            },
        }
    }

    /// Whether every clip's end frame fits in an `i64`.
    pub fn ends_fit(&self) -> (r: bool)
        ensures
            r == self@.ends_fit(),
    {
        let mut i: usize = 0;
        while i < self.clips.len()
            invariant
                i <= self.clips.len(),
                forall|k: int|
                    0 <= k < i ==> i64::MIN <= #[trigger] self@.clips[k].end() <= i64::MAX,
            decreases self.clips.len() - i,
        {
            let c = &self.clips[i];
            assert(c@ == self@.clips[i as int]);
            let end = c.start_frame as i128 + c.duration_frames as i128;
            if end > i64::MAX as i128 || end < i64::MIN as i128 {
                assert(!(i64::MIN <= self@.clips[i as int].end() <= i64::MAX));
                return false;
            }
            i = i + 1;
        }
        true
    }

    /// The timeline's length: where its last clip ends, or zero.
    pub fn duration_frames(&self) -> (r: i64)
        requires
            self@.ends_fit(),
        ensures
            r == self@.duration(),
    {
        if self.clips.len() == 0 {
            return 0;
        }
        let first = &self.clips[0];
        assert(first@ == self@.clips[0]);
        let mut best: i64 = first.end_frame();
        let mut i: usize = 1;
        while i < self.clips.len()
            invariant
                1 <= i <= self.clips.len(),
                self@.ends_fit(),
                best == self@.max_end(i as nat),
            decreases self.clips.len() - i,
        {
            let c = &self.clips[i];
            assert(c@ == self@.clips[i as int]);
            proof {
                lemma_max_end_bounds(self@, i as nat);
            }
            let e = c.end_frame();
            if e > best {
                best = e;
            }
            i = i + 1;
        }
        best
    }
}

/// The largest end so far lies in the range of `i64`, and is not negative
/// when no clip ends before frame zero.
pub proof fn lemma_max_end_bounds(p: ProjectView, n: nat)
    requires
        p.ends_fit(),
        n <= p.clips.len(),
    ensures
        i64::MIN <= p.max_end(n) <= i64::MAX,
        (forall|j: int| 0 <= j < n ==> #[trigger] p.clips[j].end() >= 0) ==> p.max_end(n) >= 0,
    decreases n,
{
    if n > 0 {
        lemma_max_end_bounds(p, (n - 1) as nat);
        assert(i64::MIN <= p.clips[n - 1].end() <= i64::MAX);
        if n == 1 {
            assert(i64::MIN <= p.clips[0].end() <= i64::MAX);
        }
    }
}

/// Once an error is found among the first clips, it stays the first.
pub proof fn lemma_first_error_persists(p: ProjectView, i: nat, n: nat)
    requires
        i <= n,
        p.first_clip_error(i) is Some,
    ensures
        p.first_clip_error(n) == p.first_clip_error(i),
    decreases n - i,
{
    if i < n {
        lemma_first_error_persists(p, i, (n - 1) as nat);
    }
}


/// A new project's contents: two empty tracks and no media.
pub open spec fn empty_project(name: Seq<char>) -> ProjectView {
    ProjectView {
        schema_version: 1,
        name: name,
        revision: 0,
        fps: Fps { numerator: 30, denominator: 1 },
        width: 1920,
        height: 1080,
        playhead_frame: 0,
        selected_clip_id: None,
        assets: Seq::empty(),
        tracks: seq![
            TrackView { id: "V1"@, kind: TrackKind::Video, name: "Video 1"@ },
            TrackView { id: "A1"@, kind: TrackKind::Audio, name: "Audio 1"@ },
        ],
        clips: Seq::empty(),
    }
}

impl Project {
    /// A project with a video and an audio track and nothing on them.
    pub fn empty(name: String) -> (r: Project)
        ensures
            r@ == empty_project(name@),
    {
        let mut tracks: Vec<Track> = Vec::new();
        tracks.push(Track { id: owned("V1"), kind: TrackKind::Video, name: owned("Video 1") });
        tracks.push(Track { id: owned("A1"), kind: TrackKind::Audio, name: owned("Audio 1") });
        let r = Project {
            schema_version: 1,
            name: name,
            revision: 0,
            fps: Fps::default(),
            width: 1920,
            height: 1080,
            playhead_frame: 0,
            selected_clip_id: None,
            assets: Vec::new(),
            tracks: tracks,
            clips: Vec::new(),
        };
        assert(r@.tracks =~= empty_project(name@).tracks);
        assert(r@.assets =~= empty_project(name@).assets);
        assert(r@.clips =~= empty_project(name@).clips);
        r
    }
}

pub open spec fn is_lower_hex(c: char) -> bool {
    ('0' <= c && c <= '9') || ('a' <= c && c <= 'f')
}

/// The shape of a generated id: the prefix, an underscore and ten lowercase
/// hexadecimal digits.
pub open spec fn has_id_shape(id: Seq<char>, prefix: Seq<char>) -> bool {
    &&& id.len() == prefix.len() + 11
    &&& id.subrange(0, prefix.len() as int) == prefix
    &&& id[prefix.len() as int] == '_'
    &&& forall|i: int| prefix.len() + 1 <= i < id.len() ==> is_lower_hex(#[trigger] id[i])
}

/// A random version-4 UUID in its simple form, from
/// `uuid::Uuid::new_v4().simple().to_string()`. The uuid crate writes the
/// simple form as 32 lowercase hexadecimal digits; which digits come out is
/// random and not stated.
#[verifier::external_body]
pub(crate) fn random_uuid_simple() -> (r: String)
    ensures
        r@.len() == 32,
        forall|i: int| 0 <= i < 32 ==> is_lower_hex(#[trigger] r@[i]),
{
    uuid::Uuid::new_v4().simple().to_string()
}

/// An id from a prefix and a raw random text: the prefix, an underscore and
/// the first ten characters of the raw text.
pub fn id_from(prefix: &str, raw: &str) -> (r: String)
    requires
        raw@.len() >= 10,
    ensures
        r@ == prefix@ + seq!['_'] + raw@.take(10),
{
    let mut r = owned(prefix);
    push_char(&mut r, '_');
    let mut i: usize = 0;
    while i < 10
        invariant
            raw@.len() >= 10,
            i <= 10,
            r@ == prefix@ + seq!['_'] + raw@.take(i as int),
        decreases 10 - i,
    {
        let c = raw.get_char(i);
        push_char(&mut r, c);
        i = i + 1;
        assert(r@ =~= prefix@ + seq!['_'] + raw@.take(i as int));
    }
    r
}

/// A fresh random id: the prefix, an underscore and the first ten hex digits
/// of a random UUID.
pub fn new_id(prefix: &str) -> (r: String)
    ensures
        has_id_shape(r@, prefix@),
        exists|raw: Seq<char>|
            raw.len() == 32 && (forall|i: int| 0 <= i < 32 ==> is_lower_hex(#[trigger] raw[i]))
                && r@ == prefix@ + seq!['_'] + raw.take(10),
{
    let raw = random_uuid_simple();
    let r = id_from(prefix, raw.as_str());
    proof {
        let n = prefix@.len() as int;
        assert(r@.subrange(0, n) =~= prefix@);
        assert(r@[n] == '_');
        assert forall|k: int| n + 1 <= k < r@.len() implies is_lower_hex(#[trigger] r@[k]) by {
            assert(r@[k] == raw@[k - n - 1]);
        }
    }
    r
}


pub proof fn lemma_map_update<A, B>(s: Seq<A>, i: int, x: A, f: spec_fn(A) -> B)
    requires
        0 <= i < s.len(),
    ensures
        s.update(i, x).map_values(f) == s.map_values(f).update(i, f(x)),
{
    assert(s.update(i, x).map_values(f) =~= s.map_values(f).update(i, f(x)));
}

pub proof fn lemma_map_insert<A, B>(s: Seq<A>, i: int, x: A, f: spec_fn(A) -> B)
    requires
        0 <= i <= s.len(),
    ensures
        s.insert(i, x).map_values(f) == s.map_values(f).insert(i, f(x)),
{
    assert(s.insert(i, x).map_values(f) =~= s.map_values(f).insert(i, f(x)));
}

pub proof fn lemma_map_remove<A, B>(s: Seq<A>, i: int, f: spec_fn(A) -> B)
    requires
        0 <= i < s.len(),
    ensures
        s.remove(i).map_values(f) == s.map_values(f).remove(i),
{
    assert(s.remove(i).map_values(f) =~= s.map_values(f).remove(i));
}

/// No prefix of the clips of a project without clip errors has one.
pub proof fn lemma_no_clip_error_prefix(p: ProjectView, n: nat, i: int)
    requires
        p.first_clip_error(n) is None,
        0 <= i < n,
    ensures
        p.clip_error(i) is None,
    decreases n,
{
    if i < n - 1 {
        lemma_no_clip_error_prefix(p, (n - 1) as nat, i);
    }
}

/// In a well-formed project every clip obeys the clip rules.
pub proof fn lemma_valid_clip(p: ProjectView, i: int)
    requires
        p.valid(),
        0 <= i < p.clips.len(),
    ensures
        p.clip_error(i) is None,
        p.find_asset(p.clips[i].asset_id) is Some,
        p.find_track(p.clips[i].track_id) is Some,
        p.clips[i].start_frame >= 0,
        p.clips[i].duration_frames > 0,
        p.clips[i].source_in_frame >= 0,
        rotation_ok(p.clips[i].transform.rotation_degrees),
        position_ok(p.clips[i].transform.position_x_bits),
        position_ok(p.clips[i].transform.position_y_bits),
        0 <= p.find_asset(p.clips[i].asset_id)->0 < p.assets.len(),
        p.clips[i].source_in_frame + p.clips[i].duration_frames <= p.assets[p.find_asset(
            p.clips[i].asset_id,
        )->0].duration_frames + 1,
        forall|j: int| 0 <= j < i ==> p.clips[j].id != p.clips[i].id,
{
    lemma_no_clip_error_prefix(p, p.clips.len(), i);
    lemma_first_exact_in_bounds(p.asset_ids(), p.clips[i].asset_id);
    if exists|j: int| 0 <= j < i && #[trigger] p.clips[j].id == p.clips[i].id {
        assert(p.clip_error(i) is Some);
    }
}

/// A clip is fine in `p` on its own: its asset and its track are there,
/// its timing and transform are valid, and its source range fits its asset.
pub open spec fn clip_fine(p: ProjectView, c: ClipView) -> bool {
    &&& p.find_asset(c.asset_id) is Some
    &&& p.find_track(c.track_id) is Some
    &&& c.start_frame >= 0 && c.duration_frames > 0 && c.source_in_frame >= 0
    &&& rotation_ok(c.transform.rotation_degrees)
    &&& position_ok(c.transform.position_x_bits) && position_ok(c.transform.position_y_bits)
    &&& c.source_in_frame + c.duration_frames <= p.assets[p.find_asset(c.asset_id)->0].duration_frames
        + 1
}

/// No two clips share an id.
pub open spec fn ids_distinct(clips: Seq<ClipView>) -> bool {
    forall|a: int, b: int| 0 <= a < b < clips.len() ==> #[trigger] clips[a].id != #[trigger] clips[b].id
}

/// The rules of a well-formed project, each on its own: the schema and the
/// frame rate, distinct clip ids, every clip fine, and a selection that names
/// a clip.
pub open spec fn well_formed_parts(p: ProjectView) -> bool {
    &&& p.schema_version == 1
    &&& p.fps.numerator != 0 && p.fps.denominator != 0
    &&& ids_distinct(p.clips)
    &&& forall|i: int| 0 <= i < p.clips.len() ==> clip_fine(p, #[trigger] p.clips[i])
    &&& p.selected_clip_id matches Some(s) ==> exists|k: int| 0 <= k < p.clips.len() && #[trigger] p.clips[k].id == s
}

/// A project is well formed exactly when each of its rules holds.
pub proof fn lemma_valid_iff_parts(p: ProjectView)
    ensures
        p.valid() <==> well_formed_parts(p),
{
    if p.valid() {
        assert forall|a: int, b: int| 0 <= a < b < p.clips.len() implies #[trigger] p.clips[a].id
            != #[trigger] p.clips[b].id by {
            lemma_valid_clip(p, b);
        }
        assert forall|i: int| 0 <= i < p.clips.len() implies clip_fine(p, #[trigger] p.clips[i]) by {
            lemma_valid_clip(p, i);
        }
        if let Some(s) = p.selected_clip_id {
            lemma_first_exact_in_bounds(p.clip_ids(), s);
            let k = first_exact(p.clip_ids(), s)->0;
            assert(p.clips[k].id == s);
        }
    }
    if well_formed_parts(p) {
        lemma_parts_no_clip_error(p, p.clips.len());
        if let Some(s) = p.selected_clip_id {
            let k = choose|k: int| 0 <= k < p.clips.len() && #[trigger] p.clips[k].id == s;
            assert(exact_at(p.clip_ids(), s, k));
            lemma_first_exact_exists(p.clip_ids(), s, k);
        }
    }
}

/// With every rule on the clips holding, none of the first `n` clips has a
/// problem.
proof fn lemma_parts_no_clip_error(p: ProjectView, n: nat)
    requires
        well_formed_parts(p),
        n <= p.clips.len(),
    ensures
        p.first_clip_error(n) is None,
    decreases n,
{
    if n > 0 {
        lemma_parts_no_clip_error(p, (n - 1) as nat);
        let i = n - 1;
        assert(clip_fine(p, p.clips[i]));
        if exists|j: int| 0 <= j < i && #[trigger] p.clips[j].id == p.clips[i].id {
            let j = choose|j: int| 0 <= j < i && #[trigger] p.clips[j].id == p.clips[i].id;
            assert(p.clips[j].id != p.clips[i].id);
        }
        assert(p.clip_error(i) is None);
    }
}

/// Whether a clip is fine depends only on the project's assets and tracks.
pub proof fn lemma_clip_fine_same_media(p: ProjectView, q: ProjectView, c: ClipView)
    requires
        q.assets == p.assets,
        q.tracks == p.tracks,
    ensures
        clip_fine(q, c) == clip_fine(p, c),
{
    assert(q.asset_ids() == p.asset_ids());
    assert(q.track_ids() == p.track_ids());
}

} // verus!
