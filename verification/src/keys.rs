//! What the keys of the terminal editor do: scrubbing the playhead, cycling
//! the selection, playing and pausing, and the edits that keys ask for.
use crate::model::{first_exact, find_first_exact, lemma_first_exact_in_bounds, lemma_max_end_bounds, Fps, Project, ProjectView};
use crate::time::{fps_denominator, round_div};
use vstd::prelude::*;

verus! {

/// The keys that the editor tells apart.
#[derive(Clone, Copy, Debug, PartialEq, Eq, Structural)]
pub enum Key {
    Char(char),
    Left,
    Right,
    Home,
    End,
    Tab,
    Escape,
    Delete,
    Backspace,
    Other,
}

/// A key with the modifiers held down with it.
#[derive(Clone, Copy, Debug, PartialEq, Eq, Structural)]
pub struct KeyPress {
    pub key: Key,
    pub ctrl: bool,
    pub shift: bool,
}

/// What the editor does after a key.
pub enum KeyAction {
    /// Close the editor.
    Quit,
    /// Undo the last edit.
    Undo,
    /// Redo the last undone edit.
    Redo,
    /// The playhead or the selection moved: save the project.
    Save,
    /// Playback started (`true`) or paused (`false`).
    Playback(bool),
    /// Split this clip at the playhead.
    Split(String),
    /// A split needs a selected clip.
    NeedSelection,
    /// Remove this clip.
    Remove(String),
    /// Export the project.
    Export,
    /// Nothing happens.
    Nothing,
}

/// `KeyAction` with its strings taken as character sequences.
pub enum KeyActionView {
    Quit,
    Undo,
    Redo,
    Save,
    Playback(bool),
    Split(Seq<char>),
    NeedSelection,
    Remove(Seq<char>),
    Export,
    Nothing,
}

impl View for KeyAction {
    type V = KeyActionView;

    open spec fn view(&self) -> KeyActionView {
        match self {
            KeyAction::Quit => KeyActionView::Quit,
            KeyAction::Undo => KeyActionView::Undo,
            KeyAction::Redo => KeyActionView::Redo,
            KeyAction::Save => KeyActionView::Save,
            KeyAction::Playback(b) => KeyActionView::Playback(*b),
            KeyAction::Split(s) => KeyActionView::Split(s@),
            KeyAction::NeedSelection => KeyActionView::NeedSelection,
            KeyAction::Remove(s) => KeyActionView::Remove(s@),
            KeyAction::Export => KeyActionView::Export,
            KeyAction::Nothing => KeyActionView::Nothing,
        }
    }
}

/// One second at `fps`, in whole frames (nearest, halves up).
pub open spec fn second_frames(fps: Fps) -> int {
    round_div(fps.numerator as int, fps_denominator(fps))
}

/// How far an arrow key moves the playhead: a frame, or a second with Shift.
pub open spec fn scrub_step(fps: Fps, shift: bool) -> int {
    if shift {
        second_frames(fps)
    } else {
        1
    }
}

/// The clip that Tab selects: the one after the selected clip, wrapping
/// round; after the last clip when nothing (or no clip) is selected.
pub open spec fn next_selection(p: ProjectView) -> int
    recommends
        p.clips.len() > 0,
{
    let current = match p.selected_clip_id {
        Some(id) => match first_exact(p.clip_ids(), id) {
            Some(k) => k,
            None => p.clips.len() - 1,
        },
        None => p.clips.len() - 1,
    };
    (current + 1) % (p.clips.len() as int)
}

/// What a key does to the project and to playback, and what the editor
/// does next. Ctrl+Z undoes, and Shift+Ctrl+Z or Ctrl+Y redoes.
pub open spec fn key_spec(p: ProjectView, key: KeyPress, playing: bool) -> (ProjectView, bool, KeyActionView) {
    if key.key == Key::Char('q') || key.key == Key::Escape {
        (p, playing, KeyActionView::Quit)
    } else if key.ctrl && key.shift && (key.key == Key::Char('z') || key.key == Key::Char('Z')) {
        (p, playing, KeyActionView::Redo)
    } else if key.ctrl && key.key == Key::Char('z') {
        (p, playing, KeyActionView::Undo)
    } else if key.ctrl && key.key == Key::Char('y') {
        (p, playing, KeyActionView::Redo)
    } else {
        match key.key {
            Key::Left => {
                let to = p.playhead_frame - scrub_step(p.fps, key.shift);
                (
                    ProjectView {
                        playhead_frame: if to < 0 {
                            0
                        } else {
                            to as i64
                        },
                        ..p
                    },
                    playing,
                    KeyActionView::Save,
                )
            },
            Key::Right => {
                let to = p.playhead_frame + scrub_step(p.fps, key.shift);
                (
                    ProjectView {
                        playhead_frame: if to > p.duration() {
                            p.duration() as i64
                        } else {
                            to as i64
                        },
                        ..p
                    },
                    playing,
                    KeyActionView::Save,
                )
            },
            Key::Home => (ProjectView { playhead_frame: 0, ..p }, playing, KeyActionView::Save),
            Key::End => (
                ProjectView { playhead_frame: p.duration() as i64, ..p },
                playing,
                KeyActionView::Save,
            ),
            Key::Tab => if p.clips.len() > 0 {
                (
                    ProjectView {
                        selected_clip_id: Some(p.clips[next_selection(p)].id),
                        ..p
                    },
                    playing,
                    KeyActionView::Save,
                )
            } else {
                (p, playing, KeyActionView::Nothing)
            },
            Key::Char(' ') => (p, !playing, KeyActionView::Playback(!playing)),
            Key::Char('s') => match p.selected_clip_id {
                Some(id) => (p, playing, KeyActionView::Split(id)),
                None => (p, playing, KeyActionView::NeedSelection),
            },
            Key::Delete | Key::Backspace => match p.selected_clip_id {
                Some(id) => (p, playing, KeyActionView::Remove(id)),
                None => (p, playing, KeyActionView::Nothing),
            },
            Key::Char('e') => (p, playing, KeyActionView::Export),
            _ => (p, playing, KeyActionView::Nothing),
        }
    }
}

/// Handles a key of the terminal editor: moves the playhead or the
/// selection, toggles playback, and says what else to do.
pub fn handle_key(p: &mut Project, key: KeyPress, playing: &mut bool) -> (r: KeyAction)
    requires
        key.key == Key::Right || key.key == Key::End ==> old(p)@.ends_fit(),
    ensures
        key_spec(old(p)@, key, *old(playing)) == (final(p)@, *final(playing), r@),
{
    if key.key == Key::Char('q') || key.key == Key::Escape {
        return KeyAction::Quit;
    }
    if key.ctrl && key.shift && (key.key == Key::Char('z') || key.key == Key::Char('Z')) {
        return KeyAction::Redo;
    }
    if key.ctrl && key.key == Key::Char('z') {
        return KeyAction::Undo;
    }
    if key.ctrl && key.key == Key::Char('y') {
        return KeyAction::Redo;
    }
    let den: i128 = if p.fps.denominator == 0 {
        1
    } else {
        p.fps.denominator as i128
    };
    let step: i128 = if key.shift {
        (2 * (p.fps.numerator as i128) + den) / (2 * den)
    } else {
        1
    };
    assert(step == scrub_step(p@.fps, key.shift));
    proof {
        if key.shift {
            assert(0 <= step <= 4294967295) by (nonlinear_arith)
                requires
                    step == (2 * (p.fps.numerator as int) + den) / (2 * den),
                    den >= 1,
                    p.fps.numerator <= 4294967295,
            ;
        }
    }
    match key.key {
        Key::Left => {
            let to = p.playhead_frame as i128 - step;
            p.playhead_frame = if to < 0 {
                0
            } else {
                to as i64
            };
            KeyAction::Save
        },
        Key::Right => {
            let duration = p.duration_frames();
            proof {
                lemma_max_end_bounds(p@, p@.clips.len());
            }
            let to = p.playhead_frame as i128 + step;
            p.playhead_frame = if to > duration as i128 {
                duration
            } else {
                to as i64
            };
            KeyAction::Save
        },
        Key::Home => {
            p.playhead_frame = 0;
            KeyAction::Save
        },
        Key::End => {
            p.playhead_frame = p.duration_frames();
            KeyAction::Save
        },
        Key::Tab => {
            let n = p.clips.len();
            if n == 0 {
                return KeyAction::Nothing;
            }
            let ids = p.clip_ids();
            proof {
                assert(ids@.len() == p@.clips.len()) by {
                    assert(ids@.map_values(|s: String| s@).len() == ids@.len());
                }
            }
            let current = match &p.selected_clip_id {
                Some(id) => match find_first_exact(&ids, id) {
                    Some(k) => {
                        proof {
                            lemma_first_exact_in_bounds(p@.clip_ids(), id@);
                        }
                        k
                    },
                    None => n - 1,
                },
                None => n - 1,
            };
            let next = (current + 1) % n;
            assert(p@.clips[next as int] == p.clips@[next as int]@);
            let id = p.clips[next].id.clone();
            p.selected_clip_id = Some(id);
            KeyAction::Save
        },
        Key::Char(' ') => {
            *playing = !*playing;
            KeyAction::Playback(*playing)
        },
        Key::Char('s') => match &p.selected_clip_id {
            Some(id) => KeyAction::Split(id.clone()),
            None => KeyAction::NeedSelection,
        },
        Key::Delete | Key::Backspace => match &p.selected_clip_id {
            Some(id) => KeyAction::Remove(id.clone()),
            None => KeyAction::Nothing,
        },
        Key::Char('e') => KeyAction::Export,
        _ => KeyAction::Nothing,
    }
}

/// What the editor's keys ask for, whatever the project: `q` or Escape
/// quits; Ctrl+Z undoes, and Shift+Ctrl+Z or Ctrl+Y redoes; `e` exports;
/// Space toggles playback; `s` splits the selected clip (or asks for a
/// selection); Delete and Backspace remove the selected clip. None of these
/// keys changes the project.
pub proof fn law_keys_ask_for_their_commands(p: ProjectView, key: KeyPress, playing: bool)
    ensures
        ({
            let (q, now, action) = key_spec(p, key, playing);
            &&& (key.key == Key::Char('q') || key.key == Key::Escape) ==> action == KeyActionView::Quit
            &&& key.ctrl && !key.shift && key.key == Key::Char('z') ==> action == KeyActionView::Undo
            &&& key.ctrl && key.shift && key.key == Key::Char('z') ==> action == KeyActionView::Redo
            &&& key.ctrl && key.key == Key::Char('y') ==> action == KeyActionView::Redo
            &&& key.key == Key::Char('e') ==> action == KeyActionView::Export && q == p && now
                == playing
            &&& !key.ctrl && key.key == Key::Char(' ') ==> action == KeyActionView::Playback(!playing)
                && now == !playing && q == p
            &&& !key.ctrl && key.key == Key::Char('s') ==> q == p && match p.selected_clip_id {
                Some(id) => action == KeyActionView::Split(id),
                None => action == KeyActionView::NeedSelection,
            }
            &&& (key.key == Key::Delete || key.key == Key::Backspace) ==> q == p && match p.selected_clip_id {
                Some(id) => action == KeyActionView::Remove(id),
                None => action == KeyActionView::Nothing,
            }
        }),
{
}

} // verus!
