//! The interface icons: which icon file each one draws, and which icon files
//! the editor server serves.
use crate::text::{owned, push_char, str_eq};
use vstd::prelude::*;

verus! {

/// The icons that the terminal interface draws.
#[derive(Clone, Copy, Debug, PartialEq, Eq, Structural)]
pub enum Icon {
    ChevronDown,
    Download,
    Eye,
    Film,
    Folder,
    Lock,
    Magnet,
    MousePointer,
    Music,
    Pause,
    Play,
    Scissors,
    Search,
    Sliders,
    SkipBack,
    SkipForward,
    StepBack,
    StepForward,
    Upload,
    Volume,
    VolumeMuted,
}

/// The name of the SVG file (without `.svg`) that an icon is drawn from.
pub open spec fn icon_name(icon: Icon) -> Seq<char> {
    match icon {
        Icon::ChevronDown => "chevron-down"@,
        Icon::Download => "download"@,
        Icon::Eye => "eye"@,
        Icon::Film => "film"@,
        Icon::Folder => "folder"@,
        Icon::Lock => "lock"@,
        Icon::Magnet => "magnet"@,
        Icon::MousePointer => "mouse-pointer-2"@,
        Icon::Music => "music-2"@,
        Icon::Pause => "pause"@,
        Icon::Play => "play"@,
        Icon::Scissors => "scissors"@,
        Icon::Search => "search"@,
        Icon::Sliders => "sliders-horizontal"@,
        Icon::SkipBack => "skip-back"@,
        Icon::SkipForward => "skip-forward"@,
        Icon::StepBack => "step-back"@,
        Icon::StepForward => "step-forward"@,
        Icon::Upload => "upload"@,
        Icon::Volume => "volume-2"@,
        Icon::VolumeMuted => "volume-x"@,
    }
}

impl Icon {
    /// The name of the SVG file (without `.svg`) that the icon is drawn from.
    pub fn svg_name(self) -> (r: &'static str)
        ensures
            r@ == icon_name(self),
    {
        match self {
            Icon::ChevronDown => "chevron-down",
            Icon::Download => "download",
            Icon::Eye => "eye",
            Icon::Film => "film",
            Icon::Folder => "folder",
            Icon::Lock => "lock",
            Icon::Magnet => "magnet",
            Icon::MousePointer => "mouse-pointer-2",
            Icon::Music => "music-2",
            Icon::Pause => "pause",
            Icon::Play => "play",
            Icon::Scissors => "scissors",
            Icon::Search => "search",
            Icon::Sliders => "sliders-horizontal",
            Icon::SkipBack => "skip-back",
            Icon::SkipForward => "skip-forward",
            Icon::StepBack => "step-back",
            Icon::StepForward => "step-forward",
            Icon::Upload => "upload",
            Icon::Volume => "volume-2",
            Icon::VolumeMuted => "volume-x",
        }
    }
}

/// The icon files that the editor server serves, by name.
pub open spec fn served_icons() -> Seq<Seq<char>> {
    seq![
        "film"@,
        "folder"@,
        "pause"@,
        "upload"@,
        "volume-x"@,
        "music-2"@,
        "mouse-pointer-2"@,
        "eye"@,
        "skip-back"@,
        "play"@,
        "step-forward"@,
        "skip-forward"@,
        "download"@,
        "magnet"@,
        "sliders-horizontal"@,
        "lock"@,
        "step-back"@,
        "chevron-down"@,
        "scissors"@,
        "volume-2"@,
        "search"@,
        "undo-2"@,
        "redo-2"@,
        "trash-2"@,
    ]
}

/// The path under the session at which an icon file is served.
pub open spec fn icon_path(name: Seq<char>) -> Seq<char> {
    "icons/"@ + name + ".svg"@
}

/// The served icon that `path` asks for, when it asks for one.
pub open spec fn icon_for_path(path: Seq<char>) -> Option<Seq<char>> {
    if exists|i: int| 0 <= i < served_icons().len() && path == icon_path(served_icons()[i]) {
        Some(
            served_icons()[choose|i: int|
                0 <= i < served_icons().len() && path == icon_path(served_icons()[i])],
        )
    } else {
        None
    }
}

fn served_icon_list() -> (r: Vec<&'static str>)
    ensures
        r@.len() == served_icons().len(),
        forall|i: int| 0 <= i < r@.len() ==> (#[trigger] r@[i])@ == served_icons()[i],
{
    let r = vec![
        "film",
        "folder",
        "pause",
        "upload",
        "volume-x",
        "music-2",
        "mouse-pointer-2",
        "eye",
        "skip-back",
        "play",
        "step-forward",
        "skip-forward",
        "download",
        "magnet",
        "sliders-horizontal",
        "lock",
        "step-back",
        "chevron-down",
        "scissors",
        "volume-2",
        "search",
        "undo-2",
        "redo-2",
        "trash-2",
    ];
    assert forall|i: int| 0 <= i < r@.len() implies (#[trigger] r@[i])@ == served_icons()[i] by {
    }
    r
}

/// `icons/<name>.svg`.
fn icon_path_of(name: &str) -> (r: String)
    ensures
        r@ == icon_path(name@),
{
    let mut r = owned("icons/");
    let n = name.unicode_len();
    let ghost head = r@;
    let mut i: usize = 0;
    while i < n
        invariant
            n == name@.len(),
            i <= n,
            r@ == head + name@.take(i as int),
        decreases n - i,
    {
        push_char(&mut r, name.get_char(i));
        i = i + 1;
        assert(r@ =~= head + name@.take(i as int));
    }
    assert(name@.take(n as int) =~= name@);
    let ghost mid = r@;
    proof {
        reveal_strlit(".svg");
    }
    push_char(&mut r, '.');
    push_char(&mut r, 's');
    push_char(&mut r, 'v');
    push_char(&mut r, 'g');
    assert(r@ =~= mid + ".svg"@);
    r
}

/// The name of the served icon file that `path` (under the session) asks
/// for, as `icons/<name>.svg`.
pub fn icon_file(path: &str) -> (r: Option<&'static str>)
    ensures
        match r {
            Some(name) => icon_for_path(path@) == Some(name@),
            None => icon_for_path(path@) == None::<Seq<char>>,
        },
{
    let list = served_icon_list();
    let mut i: usize = 0;
    while i < list.len()
        invariant
            i <= list.len(),
            list@.len() == served_icons().len(),
            forall|k: int| 0 <= k < list@.len() ==> (#[trigger] list@[k])@ == served_icons()[k],
            forall|k: int| 0 <= k < i ==> path@ != icon_path(#[trigger] served_icons()[k]),
        decreases list.len() - i,
    {
        let candidate = icon_path_of(list[i]);
        if str_eq(candidate.as_str(), path) {
            proof {
                let k = choose|k: int|
                    0 <= k < served_icons().len() && path@ == icon_path(served_icons()[k]);
                assert(path@ == icon_path(served_icons()[i as int]));
                lemma_icon_paths_distinct(k, i as int);
            }
            return Some(list[i]);
        }
        i = i + 1;
    }
    None
}

/// Different served icons are served at different paths.
proof fn lemma_icon_paths_distinct(a: int, b: int)
    requires
        0 <= a < served_icons().len(),
        0 <= b < served_icons().len(),
        icon_path(served_icons()[a]) == icon_path(served_icons()[b]),
    ensures
        served_icons()[a] == served_icons()[b],
{
    let x = served_icons()[a];
    let y = served_icons()[b];
    reveal_strlit("icons/");
    reveal_strlit(".svg");
    let px = icon_path(x);
    let py = icon_path(y);
    assert(px.len() == x.len() + 10);
    assert(x.len() == y.len());
    assert forall|j: int| 0 <= j < x.len() implies x[j] == y[j] by {
        assert(px[6 + j] == x[j]);
        assert(py[6 + j] == y[j]);
    }
    assert(x =~= y);
}

} // verus!
