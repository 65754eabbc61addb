//! Media files in a project: which files count as media, the video clip
//! under the playhead, and adding probed media to a project.
use crate::edit::{track_end, track_end_frame};
use crate::decimal::ascii_lower;
use crate::model::{
    default_transform, has_id_shape, lemma_first_exact_in_bounds, lemma_map_push, new_id, Asset, AssetKind, AssetView, Clip, ClipTransform,
    ClipView, Project, ProjectView,
};
use crate::paths::{
    file_name_of, is_absolute, join, path_extension, path_file_name, path_strip_prefix, paths_equal,
    resolve_asset_path, same_path, strip_prefix_of, extension_of,
};
use crate::text::{decimal, owned, push_padded, push_signed_padded, push_str, signed_pad, string_of, zero_pad};
use crate::paths::join_path;
use vstd::prelude::*;

verus! {

/// `s` with every ASCII capital taken to its small letter, as
/// `str::to_ascii_lowercase`.
pub open spec fn lower(s: Seq<char>) -> Seq<char> {
    s.map_values(|c: char| ascii_lower(c))
}

/// The extensions of media files, in small letters.
pub open spec fn media_extensions() -> Seq<Seq<char>> {
    seq![
        seq!['m', 'p', '4'],
        seq!['m', 'o', 'v'],
        seq!['m', 'k', 'v'],
        seq!['w', 'e', 'b', 'm'],
        seq!['m', '4', 'v'],
        seq!['a', 'v', 'i'],
        seq!['w', 'a', 'v'],
        seq!['m', 'p', '3'],
        seq!['m', '4', 'a'],
        seq!['a', 'a', 'c'],
        seq!['f', 'l', 'a', 'c'],
        seq!['o', 'g', 'g'],
    ]
}

/// A path is a media file when its extension, in small letters, is one of
/// `media_extensions()`.
pub open spec fn media_path(p: Seq<char>) -> bool {
    match path_extension(p) {
        Some(e) => media_extensions().contains(lower(e)),
        None => false,
    }
}

fn media_extension_list() -> (r: Vec<Vec<char>>)
    ensures
        r@.len() == media_extensions().len(),
        forall|i: int| 0 <= i < r@.len() ==> (#[trigger] r@[i])@ == media_extensions()[i],
{
    let r = vec![
        vec!['m', 'p', '4'],
        vec!['m', 'o', 'v'],
        vec!['m', 'k', 'v'],
        vec!['w', 'e', 'b', 'm'],
        vec!['m', '4', 'v'],
        vec!['a', 'v', 'i'],
        vec!['w', 'a', 'v'],
        vec!['m', 'p', '3'],
        vec!['m', '4', 'a'],
        vec!['a', 'a', 'c'],
        vec!['f', 'l', 'a', 'c'],
        vec!['o', 'g', 'g'],
    ];
    assert forall|i: int| 0 <= i < r@.len() implies (#[trigger] r@[i])@ == media_extensions()[i] by {
        assert(r@[i]@ =~= media_extensions()[i]);
    }
    r
}

/// Whether `v` holds exactly the characters of `w`.
fn chars_equal(v: &Vec<char>, w: &Vec<char>) -> (r: bool)
    ensures
        r == (v@ == w@),
{
    if v.len() != w.len() {
        return false;
    }
    let mut i: usize = 0;
    while i < v.len()
        invariant
            v.len() == w.len(),
            i <= v.len(),
            forall|j: int| 0 <= j < i ==> v@[j] == w@[j],
        decreases v.len() - i,
    {
        if v[i] != w[i] {
            return false;
        }
        i = i + 1;
    }
    assert(v@ =~= w@);
    true
}

/// `e` with ASCII capitals taken to small letters.
fn lower_chars(e: &str) -> (r: Vec<char>)
    ensures
        r@ == lower(e@),
{
    let n = e.unicode_len();
    let mut r: Vec<char> = Vec::new();
    let mut i: usize = 0;
    while i < n
        invariant
            n == e@.len(),
            i <= n,
            r@ == lower(e@.take(i as int)),
        decreases n - i,
    {
        let c = e.get_char(i);
        let l = if 'A' <= c && c <= 'Z' {
            let b = c as u8;
            assert(b == c as int);
            (b + 32) as char
        } else {
            c
        };
        r.push(l);
        i = i + 1;
        assert(r@ =~= lower(e@.take(i as int)));
    }
    assert(e@.take(n as int) =~= e@);
    r
}

/// Whether a path names a media file, by its extension in any case.
pub fn is_media_path(path: &str) -> (r: bool)
    ensures
        r == media_path(path@),
{
    match extension_of(path) {
        None => false,
        Some(e) => is_media_extension(e.as_str()),
    }
}

/// Whether a file extension, in any ASCII case, is one of the media
/// extensions.
pub fn is_media_extension(e: &str) -> (r: bool)
    ensures
        r == media_extensions().contains(lower(e@)),
{
    let l = lower_chars(e);
    let list = media_extension_list();
    let mut i: usize = 0;
    while i < list.len()
        invariant
            i <= list.len(),
            l@ == lower(e@),
            list@.len() == media_extensions().len(),
            forall|k: int| 0 <= k < list@.len() ==> (#[trigger] list@[k])@ == media_extensions()[k],
            forall|k: int| 0 <= k < i ==> media_extensions()[k] != l@,
        decreases list.len() - i,
    {
        if chars_equal(&l, &list[i]) {
            assert(media_extensions()[i as int] == l@);
            assert(media_extensions().contains(l@));
            return true;
        }
        i = i + 1;
    }
    false
}

/// Clip `i` covers `frame` and shows video.
pub open spec fn shows_video_at(p: ProjectView, i: int, frame: i64) -> bool {
    let c = p.clips[i];
    &&& c.start_frame <= frame < c.end()
    &&& p.find_asset(c.asset_id) matches Some(a) && p.assets[a].kind == AssetKind::Video
}

/// The video clip shown at `frame`: the last clip that covers it and whose
/// asset is a video.
pub open spec fn video_clip_at(p: ProjectView, frame: i64) -> Option<int> {
    if exists|i: int| 0 <= i < p.clips.len() && shows_video_at(p, i, frame) {
        Some(
            choose|i: int|
                0 <= i < p.clips.len() && shows_video_at(p, i, frame) && forall|j: int|
                    i < j < p.clips.len() ==> !shows_video_at(p, j, frame),
        )
    } else {
        None
    }
}

/// The index of the video clip shown at `frame`.
pub fn selected_video_clip(p: &Project, frame: i64) -> (r: Option<usize>)
    ensures
        match r {
            Some(i) => video_clip_at(p@, frame) == Some(i as int),
            None => video_clip_at(p@, frame) == None::<int>,
        },
{
    let mut i = p.clips.len();
    while i > 0
        invariant
            i <= p.clips.len(),
            forall|j: int| i <= j < p@.clips.len() ==> !shows_video_at(p@, j, frame),
        decreases i,
    {
        let k = i - 1;
        let c = &p.clips[k];
        assert(c@ == p@.clips[k as int]);
        let end = c.start_frame as i128 + c.duration_frames as i128;
        if c.start_frame <= frame && (frame as i128) < end {
            match p.asset_position(&c.asset_id) {
                Some(a) => {
                    proof {
                        lemma_first_exact_in_bounds(p@.asset_ids(), c@.asset_id);
                    }
                    assert(p@.assets[a as int] == p.assets@[a as int]@);
                    if p.assets[a].kind == AssetKind::Video {
                        proof {
                            let s = choose|s: int|
                                0 <= s < p@.clips.len() && shows_video_at(p@, s, frame) && forall|
                                    j: int,
                                | s < j < p@.clips.len() ==> !shows_video_at(p@, j, frame);
                            assert(shows_video_at(p@, k as int, frame));
                            if s < k {
                                assert(!shows_video_at(p@, k as int, frame));
                            } else if s > k {
                                assert(!shows_video_at(p@, s, frame));
                            }
                        }
                        return Some(k);
                    }
                },
                None => {},
            }
        }
        i = k;
    }
    None
}

// ---------------------------------------------------------------- importing

/// What probing a media file found, its duration already counted in frames
/// at the project's rate.
#[derive(Clone, Copy, Debug, PartialEq, Eq, Structural)]
pub struct ProbedMedia {
    pub duration_frames: i64,
    pub width: u32,
    pub height: u32,
    pub has_video: bool,
    pub has_audio: bool,
}

/// The track that imported media of this kind goes on.
pub open spec fn import_track(kind: AssetKind) -> Seq<char> {
    match kind {
        AssetKind::Video => seq!['V', '1'],
        AssetKind::Audio => seq!['A', '1'],
    }
}

/// The name of an imported asset: the file name, or `media`.
pub open spec fn import_name(file: Seq<char>) -> Seq<char> {
    match path_file_name(file) {
        Some(n) => n,
        None => seq!['m', 'e', 'd', 'i', 'a'],
    }
}

/// The path an imported asset keeps: relative to the project root when the
/// file is inside it, else the file's own path.
pub open spec fn import_path(root: Seq<char>, file: Seq<char>) -> Seq<char> {
    match path_strip_prefix(file, root) {
        Some(r) => r,
        None => file,
    }
}

/// The project after importing a probed file as a new asset with a clip at
/// the end of its track (`V1` for video, `A1` for audio). The first video
/// imported into a project without assets sets the project's size; the clip
/// is selected when nothing is.
pub open spec fn imported(
    p: ProjectView,
    path: Seq<char>,
    name: Seq<char>,
    probe: ProbedMedia,
    asset_id: Seq<char>,
    clip_id: Seq<char>,
) -> ProjectView {
    let resize = p.assets.len() == 0 && probe.has_video && probe.width > 0 && probe.height > 0;
    let kind = if probe.has_video {
        AssetKind::Video
    } else {
        AssetKind::Audio
    };
    let frames: i64 = if probe.duration_frames < 1 {
        1
    } else {
        probe.duration_frames
    };
    let asset = AssetView {
        id: asset_id,
        name,
        path,
        kind,
        duration_frames: frames,
        width: probe.width,
        height: probe.height,
        has_audio: probe.has_audio,
    };
    let track = import_track(kind);
    let clip = ClipView {
        id: clip_id,
        asset_id,
        track_id: track,
        start_frame: track_end(p, track, p.clips.len()) as i64,
        duration_frames: frames,
        source_in_frame: 0,
        transform: default_transform(),
    };
    ProjectView {
        width: if resize {
            probe.width
        } else {
            p.width
        },
        height: if resize {
            probe.height
        } else {
            p.height
        },
        assets: p.assets.push(asset),
        clips: p.clips.push(clip),
        selected_clip_id: if p.selected_clip_id is None {
            Some(clip_id)
        } else {
            p.selected_clip_id
        },
        ..p
    }
}

/// An imported asset records what the probe found: it is a video exactly
/// when the probe found a video stream, it has sound exactly when the probe
/// found an audio stream, and it keeps the probe's picture size and (at
/// least one frame of) its duration. Its clip plays the whole asset from the
/// start on the track for its kind, and the project's other assets and
/// clips stay.
pub proof fn law_import_records_the_probe(
    p: ProjectView,
    path: Seq<char>,
    name: Seq<char>,
    probe: ProbedMedia,
    asset_id: Seq<char>,
    clip_id: Seq<char>,
)
    ensures
        ({
            let q = imported(p, path, name, probe, asset_id, clip_id);
            let a = q.assets.last();
            let c = q.clips.last();
            &&& q.assets.len() == p.assets.len() + 1 && q.clips.len() == p.clips.len() + 1
            &&& a.id == asset_id && a.path == path && a.name == name
            &&& a.has_audio == probe.has_audio
            &&& (a.kind == AssetKind::Video) == probe.has_video
            &&& a.width == probe.width && a.height == probe.height
            &&& probe.duration_frames >= 1 ==> a.duration_frames == probe.duration_frames
            &&& probe.duration_frames < 1 ==> a.duration_frames == 1
            &&& c.id == clip_id && c.asset_id == asset_id
            &&& c.source_in_frame == 0 && c.duration_frames == a.duration_frames
            &&& c.track_id == import_track(a.kind)
            &&& forall|j: int| 0 <= j < p.assets.len() ==> q.assets[j] == p.assets[j]
            &&& forall|j: int| 0 <= j < p.clips.len() ==> q.clips[j] == p.clips[j]
        }),
{
}

/// Imports a probed file, which lies at `file`, under the given ids.
pub fn import_one_with_ids(
    root: &str,
    p: &mut Project,
    file: &str,
    probe: ProbedMedia,
    asset_id: String,
    clip_id: String,
)
    requires
        old(p)@.ends_fit(),
    ensures
        final(p)@ == imported(
            old(p)@,
            import_path(root@, file@),
            import_name(file@),
            probe,
            asset_id@,
            clip_id@,
        ),
{
    let ghost p0 = p@;
    if p.assets.len() == 0 && probe.has_video && probe.width > 0 && probe.height > 0 {
        p.width = probe.width;
        p.height = probe.height;
    }
    let path = match strip_prefix_of(file, root) {
        Some(r) => r,
        None => owned(file),
    };
    let name = match file_name_of(file) {
        Some(n) => n,
        None => {
            let m = vec!['m', 'e', 'd', 'i', 'a'];
            string_of(&m)
        },
    };
    assert(name@ == import_name(file@));
    let kind = if probe.has_video {
        AssetKind::Video
    } else {
        AssetKind::Audio
    };
    let frames: i64 = if probe.duration_frames < 1 {
        1
    } else {
        probe.duration_frames
    };
    let track_chars = match kind {
        AssetKind::Video => vec!['V', '1'],
        AssetKind::Audio => vec!['A', '1'],
    };
    let track = string_of(&track_chars);
    assert(track@ == import_track(kind));
    let start = track_end_frame(p, &track);
    assert(track_end(p@, track@, p@.clips.len()) == track_end(p0, track@, p0.clips.len())) by {
        assert(p@.clips == p0.clips);
        assert(track_end(p@, track@, p@.clips.len()) == track_end(p0, track@, p0.clips.len())) by {
            lemma_track_end_same_clips(p@, p0, track@, p0.clips.len());
        }
    }
    let asset = Asset {
        id: asset_id.clone(),
        name: name,
        path: path,
        kind: kind,
        duration_frames: frames,
        width: probe.width,
        height: probe.height,
        has_audio: probe.has_audio,
    };
    let ghost av = asset@;
    let ghost assets0 = p.assets@;
    p.assets.push(asset);
    proof {
        lemma_map_push(assets0, asset, |a: Asset| a@);
    }
    let clip = Clip {
        id: clip_id.clone(),
        asset_id: asset_id,
        track_id: track,
        start_frame: start,
        duration_frames: frames,
        source_in_frame: 0,
        transform: ClipTransform::default(),
    };
    let ghost cv = clip@;
    let ghost clips0 = p.clips@;
    p.clips.push(clip);
    proof {
        lemma_map_push(clips0, clip, |c: Clip| c@);
    }
    if p.selected_clip_id.is_none() {
        p.selected_clip_id = Some(clip_id);
    }
    assert(p@ =~= imported(
        p0,
        import_path(root@, file@),
        import_name(file@),
        probe,
        asset_id@,
        clip_id@,
    ));
}

/// Track ends depend on the clips alone.
proof fn lemma_track_end_same_clips(p: ProjectView, q: ProjectView, track: Seq<char>, n: nat)
    requires
        p.clips == q.clips,
        n <= p.clips.len(),
    ensures
        track_end(p, track, n) == track_end(q, track, n),
    decreases n,
{
    if n > 0 {
        lemma_track_end_same_clips(p, q, track, (n - 1) as nat);
    }
}

/// Imports a probed file, which lies at `file`, as a new asset with a clip
/// at the end of its track, under fresh random ids; gives the asset's id.
pub fn import_one(root: &str, p: &mut Project, file: &str, probe: ProbedMedia) -> (r: String)
    requires
        old(p)@.ends_fit(),
    ensures
        has_id_shape(r@, seq!['a', 's', 's', 'e', 't']),
        exists|clip_id: Seq<char>|
            has_id_shape(clip_id, seq!['c', 'l', 'i', 'p']) && final(p)@ == imported(
                old(p)@,
                import_path(root@, file@),
                import_name(file@),
                probe,
                r@,
                clip_id,
            ),
{
    let asset_prefix = vec!['a', 's', 's', 'e', 't'];
    let asset_prefix = string_of(&asset_prefix);
    let clip_prefix = vec!['c', 'l', 'i', 'p'];
    let clip_prefix = string_of(&clip_prefix);
    let asset_id = new_id(asset_prefix.as_str());
    let clip_id = new_id(clip_prefix.as_str());
    let ghost cid = clip_id@;
    let r = asset_id.clone();
    import_one_with_ids(root, p, file, probe, asset_id, clip_id);
    assert(has_id_shape(cid, seq!['c', 'l', 'i', 'p']));
    r
}

/// Counts an import of files as one revision of the project.
pub fn record_import(p: &mut Project)
    requires
        old(p).revision < u64::MAX,
    ensures
        final(p)@ == (ProjectView { revision: (old(p)@.revision + 1) as u64, ..old(p)@ }),
{
    p.revision = p.revision + 1;
}

/// Where an asset's media resolves from `root`.
pub open spec fn resolved_asset_path(root: Seq<char>, a: AssetView) -> Seq<char> {
    if is_absolute(a.path) {
        a.path
    } else {
        join(root, a.path)
    }
}

/// Asset `i` is the first whose media is the file `file`.
pub open spec fn first_asset_at_path(p: ProjectView, root: Seq<char>, file: Seq<char>, i: int) -> bool {
    &&& 0 <= i < p.assets.len()
    &&& same_path(resolved_asset_path(root, p.assets[i]), file)
    &&& forall|j: int| 0 <= j < i ==> !same_path(resolved_asset_path(root, p.assets[j]), file)
}

/// The asset that already holds the file `file`, if any.
pub open spec fn asset_at_path(p: ProjectView, root: Seq<char>, file: Seq<char>) -> Option<int> {
    if exists|i: int| first_asset_at_path(p, root, file, i) {
        Some(choose|i: int| first_asset_at_path(p, root, file, i))
    } else {
        None
    }
}

/// The position of the first asset whose media is the file `file`, so that
/// importing a file twice finds the asset it already has.
pub fn existing_asset(p: &Project, root: &str, file: &str) -> (r: Option<usize>)
    ensures
        match r {
            Some(i) => asset_at_path(p@, root@, file@) == Some(i as int),
            None => asset_at_path(p@, root@, file@) == None::<int>,
        },
{
    let mut i: usize = 0;
    while i < p.assets.len()
        invariant
            i <= p.assets.len(),
            forall|j: int|
                0 <= j < i ==> !same_path(resolved_asset_path(root@, p@.assets[j]), file@),
        decreases p.assets.len() - i,
    {
        assert(p@.assets[i as int] == p.assets@[i as int]@);
        let resolved = resolve_asset_path(root, &p.assets[i]);
        if paths_equal(resolved.as_str(), file) {
            proof {
                assert(first_asset_at_path(p@, root@, file@, i as int));
                let k = choose|k: int| first_asset_at_path(p@, root@, file@, k);
                if k < i {
                    assert(!same_path(resolved_asset_path(root@, p@.assets[k]), file@));
                } else if k > i {
                    assert(!same_path(resolved_asset_path(root@, p@.assets[i as int]), file@));
                }
            }
            return Some(i);
        }
        i = i + 1;
    }
    proof {
        if exists|k: int| first_asset_at_path(p@, root@, file@, k) {
            let k = choose|k: int| first_asset_at_path(p@, root@, file@, k);
            assert(!same_path(resolved_asset_path(root@, p@.assets[k]), file@));
        }
    }
    None
}

// ---------------------------------------------------------------- cache files

/// `.te/cache/frames/r<revision>-frame-<frame>.png`, the numbers in ten
/// digits: where a preview frame of a revision is kept.
pub open spec fn frame_cache_text(revision: u64, frame: i64) -> Seq<char> {
    ".te/cache/frames/r"@ + zero_pad(decimal(revision as nat), 10) + "-frame-"@ + signed_pad(
        frame as int,
        10,
    ) + ".png"@
}

/// Where the preview frame `frame` of a revision is kept under `root`.
pub fn frame_cache_path(root: &str, revision: u64, frame: i64) -> (r: String)
    ensures
        r@ == join(root@, frame_cache_text(revision, frame)),
{
    let mut out: Vec<char> = Vec::new();
    push_str(&mut out, ".te/cache/frames/r");
    push_padded(&mut out, revision as u128, 10);
    push_str(&mut out, "-frame-");
    push_signed_padded(&mut out, frame, 10);
    push_str(&mut out, ".png");
    assert(out@ =~= frame_cache_text(revision, frame));
    let name = string_of(&out);
    join_path(root, name.as_str())
}

/// How many frames a filmstrip shows: the count asked for, kept within 2 to 20.
pub open spec fn filmstrip_count_spec(count: usize) -> usize {
    if count < 2 {
        2
    } else if count > 20 {
        20
    } else {
        count
    }
}

/// How many frames a filmstrip shows.
pub fn filmstrip_count(count: usize) -> (r: usize)
    ensures
        r == filmstrip_count_spec(count),
{
    if count < 2 {
        2
    } else if count > 20 {
        20
    } else {
        count
    }
}

/// `.te/cache/filmstrips/r<revision>-<start>-<end>-<count>.jpg`.
pub open spec fn filmstrip_cache_text(revision: u64, start: i64, end: i64, count: usize) -> Seq<char> {
    ".te/cache/filmstrips/r"@ + zero_pad(decimal(revision as nat), 10) + seq!['-'] + signed_pad(
        start as int,
        10,
    ) + seq!['-'] + signed_pad(end as int, 10) + seq!['-'] + decimal(count as nat) + ".jpg"@
}

/// Where a filmstrip of frames `start..end` of a revision is kept under `root`.
pub fn filmstrip_cache_path(root: &str, revision: u64, start: i64, end: i64, count: usize) -> (r:
    String)
    ensures
        r@ == join(root@, filmstrip_cache_text(revision, start, end, count)),
{
    let mut out: Vec<char> = Vec::new();
    push_str(&mut out, ".te/cache/filmstrips/r");
    push_padded(&mut out, revision as u128, 10);
    out.push('-');
    push_signed_padded(&mut out, start, 10);
    out.push('-');
    push_signed_padded(&mut out, end, 10);
    out.push('-');
    push_padded(&mut out, count as u128, 0);
    proof {
        crate::text::lemma_decimal(count as nat);
    }
    push_str(&mut out, ".jpg");
    assert(out@ =~= filmstrip_cache_text(revision, start, end, count));
    let name = string_of(&out);
    join_path(root, name.as_str())
}

/// `.te/cache/clip-filmstrips/r<revision>-<clip id>-<count>.jpg`, the
/// revision in ten digits.
pub open spec fn clip_filmstrip_cache_text(revision: u64, clip_id: Seq<char>, count: usize) -> Seq<
    char,
> {
    ".te/cache/clip-filmstrips/r"@ + zero_pad(decimal(revision as nat), 10) + seq!['-'] + clip_id
        + seq!['-'] + decimal(count as nat) + ".jpg"@
}

/// Where a filmstrip of one clip of a revision is kept under `root`.
pub fn clip_filmstrip_cache_path(root: &str, revision: u64, clip_id: &str, count: usize) -> (r:
    String)
    ensures
        r@ == join(root@, clip_filmstrip_cache_text(revision, clip_id@, count)),
{
    let mut out: Vec<char> = Vec::new();
    push_str(&mut out, ".te/cache/clip-filmstrips/r");
    push_padded(&mut out, revision as u128, 10);
    out.push('-');
    push_str(&mut out, clip_id);
    out.push('-');
    push_padded(&mut out, count as u128, 0);
    push_str(&mut out, ".jpg");
    assert(out@ =~= clip_filmstrip_cache_text(revision, clip_id@, count));
    let name = string_of(&out);
    join_path(root, name.as_str())
}

/// `.te/cache/waveforms/r<revision>-<clip id>.png`, the revision in ten
/// digits.
pub open spec fn waveform_cache_text(revision: u64, clip_id: Seq<char>) -> Seq<char> {
    ".te/cache/waveforms/r"@ + zero_pad(decimal(revision as nat), 10) + seq!['-'] + clip_id
        + ".png"@
}

/// Where the waveform picture of one clip of a revision is kept under `root`.
pub fn waveform_cache_path(root: &str, revision: u64, clip_id: &str) -> (r: String)
    ensures
        r@ == join(root@, waveform_cache_text(revision, clip_id@)),
{
    let mut out: Vec<char> = Vec::new();
    push_str(&mut out, ".te/cache/waveforms/r");
    push_padded(&mut out, revision as u128, 10);
    out.push('-');
    push_str(&mut out, clip_id);
    push_str(&mut out, ".png");
    assert(out@ =~= waveform_cache_text(revision, clip_id@));
    let name = string_of(&out);
    join_path(root, name.as_str())
}

/// `.te/cache/thumbnails/<asset id>.jpg`.
pub fn thumbnail_cache_path(root: &str, asset_id: &str) -> (r: String)
    ensures
        r@ == join(root@, ".te/cache/thumbnails/"@ + asset_id@ + ".jpg"@),
{
    let mut out: Vec<char> = Vec::new();
    push_str(&mut out, ".te/cache/thumbnails/");
    push_str(&mut out, asset_id);
    push_str(&mut out, ".jpg");
    let name = string_of(&out);
    join_path(root, name.as_str())
}

// ---------------------------------------------------------------- exports

/// Why a project cannot be exported.
#[derive(Clone, Copy, Debug, PartialEq, Eq, Structural)]
pub enum ExportError {
    /// The timeline has no clips.
    EmptyTimeline,
    /// The clip at this index refers to an asset that is not in the project.
    ClipAssetMissing { clip: usize },
}

/// How an export reads and mixes the clips: for each clip in timeline order,
/// the asset it reads (its input), whether it is laid over the picture and
/// whether its sound is mixed in; and how many pictures and sounds there
/// are. The picture that comes out is the last overlay, `[base<layers>]`,
/// and the mix has one input more than the sounds, for the silent track.
pub struct ExportPlan {
    pub inputs: Vec<usize>,
    pub video: Vec<bool>,
    pub audio: Vec<bool>,
    pub video_layers: usize,
    pub audio_streams: usize,
}

/// `ExportPlan` with its lists taken as sequences.
pub struct ExportPlanView {
    pub inputs: Seq<usize>,
    pub video: Seq<bool>,
    pub audio: Seq<bool>,
    pub video_layers: nat,
    pub audio_streams: nat,
}

impl View for ExportPlan {
    type V = ExportPlanView;

    open spec fn view(&self) -> ExportPlanView {
        ExportPlanView {
            inputs: self.inputs@,
            video: self.video@,
            audio: self.audio@,
            video_layers: self.video_layers as nat,
            audio_streams: self.audio_streams as nat,
        }
    }
}

/// The plan for the first `n` clips: each clip's asset (the first with its
/// id), or the first clip whose asset is missing.
pub open spec fn plan_upto(p: ProjectView, n: nat) -> Result<ExportPlanView, ExportError>
    decreases n,
{
    if n == 0 {
        Ok(
            ExportPlanView {
                inputs: Seq::empty(),
                video: Seq::empty(),
                audio: Seq::empty(),
                video_layers: 0,
                audio_streams: 0,
            },
        )
    } else {
        match plan_upto(p, (n - 1) as nat) {
            Err(e) => Err(e),
            Ok(q) => match p.find_asset(p.clips[n - 1].asset_id) {
                None => Err(ExportError::ClipAssetMissing { clip: (n - 1) as usize }),
                Some(a) => {
                    let video = p.assets[a].kind == AssetKind::Video;
                    let audio = p.assets[a].has_audio;
                    Ok(
                        ExportPlanView {
                            inputs: q.inputs.push(a as usize),
                            video: q.video.push(video),
                            audio: q.audio.push(audio),
                            video_layers: q.video_layers + if video {
                                1nat
                            } else {
                                0nat
                            },
                            audio_streams: q.audio_streams + if audio {
                                1nat
                            } else {
                                0nat
                            },
                        },
                    )
                },
            },
        }
    }
}

/// What an export of `p` does: nothing for an empty timeline; else the
/// plan for all its clips.
pub open spec fn export_plan_spec(p: ProjectView) -> Result<ExportPlanView, ExportError> {
    if p.clips.len() == 0 {
        Err(ExportError::EmptyTimeline)
    } else {
        plan_upto(p, p.clips.len())
    }
}

/// The plan of one clip's part is as long as the clips it covers.
proof fn lemma_plan_lengths(p: ProjectView, n: nat)
    requires
        plan_upto(p, n) is Ok,
    ensures
        plan_upto(p, n)->Ok_0.inputs.len() == n,
        plan_upto(p, n)->Ok_0.video.len() == n,
        plan_upto(p, n)->Ok_0.audio.len() == n,
        plan_upto(p, n)->Ok_0.video_layers <= n,
        plan_upto(p, n)->Ok_0.audio_streams <= n,
    decreases n,
{
    if n > 0 {
        lemma_plan_lengths(p, (n - 1) as nat);
    }
}

/// Plans an export of the project: which asset each clip reads, which clips
/// are pictures and which are sounds.
pub fn export_plan(p: &Project) -> (r: Result<ExportPlan, ExportError>)
    ensures
        match r {
            Ok(plan) => export_plan_spec(p@) == Ok::<ExportPlanView, ExportError>(plan@),
            Err(e) => export_plan_spec(p@) == Err::<ExportPlanView, ExportError>(e),
        },
{
    let n = p.clips.len();
    if n == 0 {
        return Err(ExportError::EmptyTimeline);
    }
    let mut plan = ExportPlan {
        inputs: Vec::new(),
        video: Vec::new(),
        audio: Vec::new(),
        video_layers: 0,
        audio_streams: 0,
    };
    let mut i: usize = 0;
    while i < n
        invariant
            n == p.clips.len(),
            i <= n,
            plan_upto(p@, i as nat) == Ok::<ExportPlanView, ExportError>(plan@),
        decreases n - i,
    {
        proof {
            lemma_plan_lengths(p@, i as nat);
        }
        assert(p.clips@[i as int]@ == p@.clips[i as int]);
        match p.asset_position(&p.clips[i].asset_id) {
            None => {
                assert(plan_upto(p@, (i + 1) as nat) == Err::<ExportPlanView, ExportError>(
                    ExportError::ClipAssetMissing { clip: i },
                ));
                proof {
                    lemma_plan_error_persists(p@, (i + 1) as nat, n as nat);
                }
                return Err(ExportError::ClipAssetMissing { clip: i });
            },
            Some(a) => {
                proof {
                    lemma_first_exact_in_bounds(p@.asset_ids(), p@.clips[i as int].asset_id);
                }
                assert(p.assets@[a as int]@ == p@.assets[a as int]);
                let video = match p.assets[a].kind {
                    AssetKind::Video => true,
                    AssetKind::Audio => false,
                };
                let audio = p.assets[a].has_audio;
                plan.inputs.push(a);
                plan.video.push(video);
                plan.audio.push(audio);
                if video {
                    plan.video_layers = plan.video_layers + 1;
                }
                if audio {
                    plan.audio_streams = plan.audio_streams + 1;
                }
                i = i + 1;
            },
        }
    }
    Ok(plan)
}

/// A missing asset found among the first clips stays the plan's answer.
proof fn lemma_plan_error_persists(p: ProjectView, i: nat, n: nat)
    requires
        i <= n,
        plan_upto(p, i) is Err,
    ensures
        plan_upto(p, n) == plan_upto(p, i),
    decreases n - i,
{
    if n > i {
        lemma_plan_error_persists(p, i, (n - 1) as nat);
    }
}

/// The size of an export: the project's size, at least 2 and rounded down
/// to even numbers, as the encoder needs.
pub open spec fn export_size_spec(width: u32, height: u32) -> (u32, u32) {
    let w = if width < 2 {
        2
    } else {
        width
    };
    let h = if height < 2 {
        2
    } else {
        height
    };
    ((w / 2 * 2) as u32, (h / 2 * 2) as u32)
}

/// The size of an export of a project of this size.
pub fn export_size(width: u32, height: u32) -> (r: (u32, u32))
    ensures
        r == export_size_spec(width, height),
{
    let w = if width < 2 {
        2
    } else {
        width
    };
    let h = if height < 2 {
        2
    } else {
        height
    };
    (w / 2 * 2, h / 2 * 2)
}

} // verus!
