//! The edit history: the current project with its undo and redo stacks, and
//! the commands that change them.
use crate::edit::{
    add_clip_to, add_spec, append_clip_to, append_spec, duplicate_clip_in, duplicate_spec,
    move_clip_in, move_spec, remove_clip_in, remove_spec, split_clip_in, split_spec,
    str_option_view, strings_view, transform_clip_in, transform_spec, trim_clip_in, trim_spec,
    EditError, EditOutcome,
};
use crate::edit::{
    law_add_keeps_valid, law_append_keeps_valid, law_duplicate_keeps_valid, law_move_keeps_valid,
    law_remove_keeps_valid, law_split_keeps_valid, law_split_preserves_source, law_transform_keeps_valid,
    law_trim_keeps_valid,
};
use crate::model::{
    has_id_shape, lemma_map_push, lemma_resolve_in_bounds, lemma_valid_clip, new_id, resolve_id, FitMode,
    Project, ProjectView,
};
use crate::text::owned;
use vstd::prelude::*;

verus! {

/// What a committed command reports.
#[derive(Debug)]
pub struct EditReport {
    pub ok: bool,
    pub operation: String,
    pub revision_before: u64,
    pub revision_after: u64,
    pub affected: Vec<String>,
    pub created: Vec<String>,
    pub undoable: bool,
}

#[verifier::ext_equal]
pub struct ReportView {
    pub ok: bool,
    pub operation: Seq<char>,
    pub revision_before: u64,
    pub revision_after: u64,
    pub affected: Seq<Seq<char>>,
    pub created: Seq<Seq<char>>,
    pub undoable: bool,
}

impl View for EditReport {
    type V = ReportView;

    open spec fn view(&self) -> ReportView {
        ReportView {
            ok: self.ok,
            operation: self.operation@,
            revision_before: self.revision_before,
            revision_after: self.revision_after,
            affected: strings_view(self.affected),
            created: strings_view(self.created),
            undoable: self.undoable,
        }
    }
}

/// A project together with the snapshots that undo and redo return to; the
/// last snapshot of each stack is the one returned to first.
pub struct Workspace {
    pub project: Project,
    pub undo: Vec<Project>,
    pub redo: Vec<Project>,
}

#[verifier::ext_equal]
pub struct WorkspaceView {
    pub project: ProjectView,
    pub undo: Seq<ProjectView>,
    pub redo: Seq<ProjectView>,
}

pub open spec fn projects_view(v: Vec<Project>) -> Seq<ProjectView> {
    v@.map_values(|p: Project| p@)
}

impl View for Workspace {
    type V = WorkspaceView;

    open spec fn view(&self) -> WorkspaceView {
        WorkspaceView {
            project: self.project@,
            undo: projects_view(self.undo),
            redo: projects_view(self.redo),
        }
    }
}

impl WorkspaceView {
    /// The project and every snapshot are well formed, as loading them checks.
    pub open spec fn valid(self) -> bool {
        &&& self.project.valid()
        &&& forall|i: int| 0 <= i < self.undo.len() ==> (#[trigger] self.undo[i]).valid()
        &&& forall|i: int| 0 <= i < self.redo.len() ==> (#[trigger] self.redo[i]).valid()
    }
}

pub open spec fn with_revision(p: ProjectView, revision: u64) -> ProjectView {
    ProjectView { revision: revision, ..p }
}

/// Commits an edit: the edited project must be well formed; the previous
/// project goes on the undo stack, the redo stack empties, and the revision
/// counts up by one.
pub open spec fn commit(w: WorkspaceView, operation: Seq<char>, model: Result<EditOutcome, EditError>) -> Result<
    (WorkspaceView, ReportView),
    EditError,
> {
    match model {
        Err(e) => Err(e),
        Ok(o) => match o.project.validation() {
            Err(v) => Err(EditError::Invalid(v)),
            Ok(_) => {
                let revision = (w.project.revision + 1) as u64;
                Ok(
                    (
                        WorkspaceView {
                            project: with_revision(o.project, revision),
                            undo: w.undo.push(w.project),
                            redo: Seq::empty(),
                        },
                        ReportView {
                            ok: true,
                            operation: operation,
                            revision_before: w.project.revision,
                            revision_after: revision,
                            affected: o.affected,
                            created: o.created,
                            undoable: true,
                        },
                    ),
                )
            },
        },
    }
}

/// Returns to the last undo snapshot; the current project goes on the redo
/// stack. The restored project takes the next revision.
pub open spec fn undo_spec(w: WorkspaceView) -> Result<(WorkspaceView, ReportView), EditError> {
    if w.undo.len() == 0 {
        Err(EditError::NothingToUndo)
    } else {
        let revision = (w.project.revision + 1) as u64;
        let restored = with_revision(w.undo.last(), revision);
        Ok(
            (
                WorkspaceView { project: restored, undo: w.undo.drop_last(), redo: w.redo.push(w.project) },
                ReportView {
                    ok: true,
                    operation: "undo"@,
                    revision_before: w.project.revision,
                    revision_after: revision,
                    affected: restored.clip_ids(),
                    created: Seq::empty(),
                    undoable: false,
                },
            ),
        )
    }
}

/// Returns to the last redo snapshot; the current project goes on the undo
/// stack. The restored project takes the next revision.
pub open spec fn redo_spec(w: WorkspaceView) -> Result<(WorkspaceView, ReportView), EditError> {
    if w.redo.len() == 0 {
        Err(EditError::NothingToRedo)
    } else {
        let revision = (w.project.revision + 1) as u64;
        let restored = with_revision(w.redo.last(), revision);
        Ok(
            (
                WorkspaceView { project: restored, undo: w.undo.push(w.project), redo: w.redo.drop_last() },
                ReportView {
                    ok: true,
                    operation: "redo"@,
                    revision_before: w.project.revision,
                    revision_after: revision,
                    affected: restored.clip_ids(),
                    created: Seq::empty(),
                    undoable: true,
                },
            ),
        )
    }
}

/// A command's answer and the workspace after it match the model step:
/// on success the stepped workspace and its report, on refusal the same
/// error and an unchanged workspace.
pub open spec fn stepped(
    before: WorkspaceView,
    after: WorkspaceView,
    r: Result<EditReport, EditError>,
    step: Result<(WorkspaceView, ReportView), EditError>,
) -> bool {
    match r {
        Ok(report) => step == Ok::<(WorkspaceView, ReportView), EditError>((after, report@)),
        Err(e) => step == Err::<(WorkspaceView, ReportView), EditError>(e) && after == before,
    }
}

/// Commits the edited project `project` with the affected and created ids.
fn commit_exec(
    ws: &mut Workspace,
    operation: &str,
    project: Project,
    affected: Vec<String>,
    created: Vec<String>,
    model: Ghost<Result<EditOutcome, EditError>>,
) -> (r: Result<EditReport, EditError>)
    requires
        old(ws).project.revision < u64::MAX,
        model@ == Ok::<EditOutcome, EditError>(
            EditOutcome {
                project: project@,
                affected: strings_view(affected),
                created: strings_view(created),
            },
        ),
    ensures
        stepped(old(ws)@, final(ws)@, r, commit(old(ws)@, operation@, model@)),
{
    let mut project = project;
    match project.validate() {
        Err(v) => {
            return Err(EditError::Invalid(v));
        },
        Ok(_) => {},
    }
    let before = ws.project.revision;
    project.revision = before + 1;
    let ghost old_undo = ws.undo@;
    core::mem::swap(&mut ws.project, &mut project);
    ws.undo.push(project);
    ws.redo.clear();
    proof {
        lemma_map_push(old_undo, project, |p: Project| p@);
        assert(projects_view(ws.redo) =~= Seq::<ProjectView>::empty());
    }
    let report = EditReport {
        ok: true,
        operation: owned(operation),
        revision_before: before,
        revision_after: before + 1,
        affected: affected,
        created: created,
        undoable: true,
    };
    assert(ws@ =~= commit(old(ws)@, operation@, model@)->Ok_0.0);
    Ok(report)
}


/// Undoes the last committed edit or redo.
pub fn undo(ws: &mut Workspace) -> (r: Result<EditReport, EditError>)
    requires
        old(ws).project.revision < u64::MAX,
    ensures
        stepped(old(ws)@, final(ws)@, r, undo_spec(old(ws)@)),
        old(ws)@.valid() ==> final(ws)@.valid(),
{
    proof {
        lemma_undo_keeps_valid(old(ws)@);
    }
    let ghost old_undo = ws.undo@;
    let ghost old_redo = ws.redo@;
    match ws.undo.pop() {
        None => {
            assert(ws@ =~= old(ws)@);
            Err(EditError::NothingToUndo)
        },
        Some(restored) => {
            proof {
                assert(old_undo.drop_last() =~= old_undo.subrange(0, old_undo.len() - 1));
                assert(projects_view(ws.undo) =~= old(ws)@.undo.drop_last());
            }
            let before = ws.project.revision;
            let mut current = restored;
            current.revision = before + 1;
            core::mem::swap(&mut ws.project, &mut current);
            ws.redo.push(current);
            proof {
                lemma_map_push(old_redo, current, |p: Project| p@);
            }
            let affected = ws.project.clip_ids();
            let report = EditReport {
                ok: true,
                operation: owned("undo"),
                revision_before: before,
                revision_after: before + 1,
                affected: affected,
                created: Vec::new(),
                undoable: false,
            };
            proof {
                assert(strings_view(report.created) =~= Seq::<Seq<char>>::empty());
                assert(ws@ =~= undo_spec(old(ws)@)->Ok_0.0);
                assert(report@ =~= undo_spec(old(ws)@)->Ok_0.1);
            }
            Ok(report)
        },
    }
}

/// Redoes the last undone edit.
pub fn redo(ws: &mut Workspace) -> (r: Result<EditReport, EditError>)
    requires
        old(ws).project.revision < u64::MAX,
    ensures
        stepped(old(ws)@, final(ws)@, r, redo_spec(old(ws)@)),
        old(ws)@.valid() ==> final(ws)@.valid(),
{
    proof {
        lemma_redo_keeps_valid(old(ws)@);
    }
    let ghost old_undo = ws.undo@;
    let ghost old_redo = ws.redo@;
    match ws.redo.pop() {
        None => {
            assert(ws@ =~= old(ws)@);
            Err(EditError::NothingToRedo)
        },
        Some(restored) => {
            proof {
                assert(old_redo.drop_last() =~= old_redo.subrange(0, old_redo.len() - 1));
                assert(projects_view(ws.redo) =~= old(ws)@.redo.drop_last());
            }
            let before = ws.project.revision;
            let mut current = restored;
            current.revision = before + 1;
            core::mem::swap(&mut ws.project, &mut current);
            ws.undo.push(current);
            proof {
                lemma_map_push(old_undo, current, |p: Project| p@);
            }
            let affected = ws.project.clip_ids();
            let report = EditReport {
                ok: true,
                operation: owned("redo"),
                revision_before: before,
                revision_after: before + 1,
                affected: affected,
                created: Vec::new(),
                undoable: true,
            };
            proof {
                assert(strings_view(report.created) =~= Seq::<Seq<char>>::empty());
                assert(ws@ =~= redo_spec(old(ws)@)->Ok_0.0);
                assert(report@ =~= redo_spec(old(ws)@)->Ok_0.1);
            }
            Ok(report)
        },
    }
}


/// `te add` with the id of the new clip given: the edit committed to the workspace.
pub fn add_clip_with_id(
    ws: &mut Workspace,
    asset_query: &str,
    track_id: Option<&str>,
    at_frame: i64,
    source_in_frame: i64,
    duration_frames: Option<i64>,
    clip_id: String,
) -> (r: Result<EditReport, EditError>)
    requires
        old(ws)@.valid(),
        old(ws).project.revision < u64::MAX,
    ensures
        stepped(
            old(ws)@,
            final(ws)@,
            r,
            commit(old(ws)@, "add"@, add_spec(old(ws)@.project, asset_query@, str_option_view(track_id), at_frame, source_in_frame, duration_frames, clip_id@)),
        ),
        final(ws)@.valid(),
{
    let mut p = ws.project.clone();
    match add_clip_to(&mut p, asset_query, track_id, at_frame, source_in_frame, duration_frames, clip_id) {
        Err(e) => {
            assert(ws@ =~= old(ws)@);
            Err(e)
        },
        Ok((affected, created)) => {
            let r = commit_exec(
                ws,
                "add",
                p,
                affected,
                created,
                Ghost(add_spec(old(ws)@.project, asset_query@, str_option_view(track_id), at_frame, source_in_frame, duration_frames, clip_id@)),
            );
            proof {
                lemma_commit_keeps_valid(old(ws)@, "add"@, add_spec(old(ws)@.project, asset_query@, str_option_view(track_id), at_frame, source_in_frame, duration_frames, clip_id@));
            }
            r
        },
    }
}

/// `te add`: the edit committed to the workspace, with a fresh random id
/// for the new clip.
pub fn add_clip(
    ws: &mut Workspace,
    asset_query: &str,
    track_id: Option<&str>,
    at_frame: i64,
    source_in_frame: i64,
    duration_frames: Option<i64>,
) -> (r: Result<EditReport, EditError>)
    requires
        old(ws)@.valid(),
        old(ws).project.revision < u64::MAX,
    ensures
        exists|id: Seq<char>|
            has_id_shape(id, "clip"@) && stepped(
                old(ws)@,
                final(ws)@,
                r,
                commit(old(ws)@, "add"@, add_spec(old(ws)@.project, asset_query@, str_option_view(track_id), at_frame, source_in_frame, duration_frames, id)),
            ),
        final(ws)@.valid(),
{
    let id = new_id("clip");
    add_clip_with_id(ws, asset_query, track_id, at_frame, source_in_frame, duration_frames, id)
}

/// `te append` with the id of the new clip given: the edit committed to the workspace.
pub fn append_clip_with_id(
    ws: &mut Workspace,
    asset_query: &str,
    track_id: Option<&str>,
    source_in_frame: i64,
    duration_frames: Option<i64>,
    clip_id: String,
) -> (r: Result<EditReport, EditError>)
    requires
        old(ws)@.valid(),
        old(ws).project.revision < u64::MAX,
        old(ws)@.project.ends_fit(),
    ensures
        stepped(
            old(ws)@,
            final(ws)@,
            r,
            commit(old(ws)@, "append"@, append_spec(old(ws)@.project, asset_query@, str_option_view(track_id), source_in_frame, duration_frames, clip_id@)),
        ),
        final(ws)@.valid(),
{
    let mut p = ws.project.clone();
    match append_clip_to(&mut p, asset_query, track_id, source_in_frame, duration_frames, clip_id) {
        Err(e) => {
            assert(ws@ =~= old(ws)@);
            Err(e)
        },
        Ok((affected, created)) => {
            let r = commit_exec(
                ws,
                "append",
                p,
                affected,
                created,
                Ghost(append_spec(old(ws)@.project, asset_query@, str_option_view(track_id), source_in_frame, duration_frames, clip_id@)),
            );
            proof {
                lemma_commit_keeps_valid(old(ws)@, "append"@, append_spec(old(ws)@.project, asset_query@, str_option_view(track_id), source_in_frame, duration_frames, clip_id@));
            }
            r
        },
    }
}

/// `te append`: the edit committed to the workspace, with a fresh random id
/// for the new clip.
pub fn append_clip(
    ws: &mut Workspace,
    asset_query: &str,
    track_id: Option<&str>,
    source_in_frame: i64,
    duration_frames: Option<i64>,
) -> (r: Result<EditReport, EditError>)
    requires
        old(ws)@.valid(),
        old(ws).project.revision < u64::MAX,
        old(ws)@.project.ends_fit(),
    ensures
        exists|id: Seq<char>|
            has_id_shape(id, "clip"@) && stepped(
                old(ws)@,
                final(ws)@,
                r,
                commit(old(ws)@, "append"@, append_spec(old(ws)@.project, asset_query@, str_option_view(track_id), source_in_frame, duration_frames, id)),
            ),
        final(ws)@.valid(),
{
    let id = new_id("clip");
    append_clip_with_id(ws, asset_query, track_id, source_in_frame, duration_frames, id)
}

/// `te duplicate` with the id of the new clip given: the edit committed to the workspace.
pub fn duplicate_clip_with_id(
    ws: &mut Workspace,
    clip_query: &str,
    track_id: Option<&str>,
    at_frame: i64,
    source_in_frame: Option<i64>,
    duration_frames: Option<i64>,
    clip_id: String,
) -> (r: Result<EditReport, EditError>)
    requires
        old(ws)@.valid(),
        old(ws).project.revision < u64::MAX,
    ensures
        stepped(
            old(ws)@,
            final(ws)@,
            r,
            commit(old(ws)@, "duplicate"@, duplicate_spec(old(ws)@.project, clip_query@, str_option_view(track_id), at_frame, source_in_frame, duration_frames, clip_id@)),
        ),
        final(ws)@.valid(),
{
    let mut p = ws.project.clone();
    match duplicate_clip_in(&mut p, clip_query, track_id, at_frame, source_in_frame, duration_frames, clip_id) {
        Err(e) => {
            assert(ws@ =~= old(ws)@);
            Err(e)
        },
        Ok((affected, created)) => {
            let r = commit_exec(
                ws,
                "duplicate",
                p,
                affected,
                created,
                Ghost(duplicate_spec(old(ws)@.project, clip_query@, str_option_view(track_id), at_frame, source_in_frame, duration_frames, clip_id@)),
            );
            proof {
                lemma_commit_keeps_valid(old(ws)@, "duplicate"@, duplicate_spec(old(ws)@.project, clip_query@, str_option_view(track_id), at_frame, source_in_frame, duration_frames, clip_id@));
            }
            r
        },
    }
}

/// `te duplicate`: the edit committed to the workspace, with a fresh random id
/// for the new clip.
pub fn duplicate_clip(
    ws: &mut Workspace,
    clip_query: &str,
    track_id: Option<&str>,
    at_frame: i64,
    source_in_frame: Option<i64>,
    duration_frames: Option<i64>,
) -> (r: Result<EditReport, EditError>)
    requires
        old(ws)@.valid(),
        old(ws).project.revision < u64::MAX,
    ensures
        exists|id: Seq<char>|
            has_id_shape(id, "clip"@) && stepped(
                old(ws)@,
                final(ws)@,
                r,
                commit(old(ws)@, "duplicate"@, duplicate_spec(old(ws)@.project, clip_query@, str_option_view(track_id), at_frame, source_in_frame, duration_frames, id)),
            ),
        final(ws)@.valid(),
{
    let id = new_id("clip");
    duplicate_clip_with_id(ws, clip_query, track_id, at_frame, source_in_frame, duration_frames, id)
}

/// `te split` with the id of the new clip given: the edit committed to the workspace.
pub fn split_with_id(
    ws: &mut Workspace,
    clip_query: &str,
    at_frame: i64,
    clip_id: String,
) -> (r: Result<EditReport, EditError>)
    requires
        old(ws)@.valid(),
        old(ws).project.revision < u64::MAX,
    ensures
        stepped(
            old(ws)@,
            final(ws)@,
            r,
            commit(old(ws)@, "split"@, split_spec(old(ws)@.project, clip_query@, at_frame, clip_id@)),
        ),
        final(ws)@.valid(),
{
    let mut p = ws.project.clone();
    match split_clip_in(&mut p, clip_query, at_frame, clip_id) {
        Err(e) => {
            assert(ws@ =~= old(ws)@);
            Err(e)
        },
        Ok((affected, created)) => {
            let r = commit_exec(
                ws,
                "split",
                p,
                affected,
                created,
                Ghost(split_spec(old(ws)@.project, clip_query@, at_frame, clip_id@)),
            );
            proof {
                lemma_commit_keeps_valid(old(ws)@, "split"@, split_spec(old(ws)@.project, clip_query@, at_frame, clip_id@));
            }
            r
        },
    }
}

/// `te split`: the edit committed to the workspace, with a fresh random id
/// for the new clip.
pub fn split(
    ws: &mut Workspace,
    clip_query: &str,
    at_frame: i64,
) -> (r: Result<EditReport, EditError>)
    requires
        old(ws)@.valid(),
        old(ws).project.revision < u64::MAX,
    ensures
        exists|id: Seq<char>|
            has_id_shape(id, "clip"@) && stepped(
                old(ws)@,
                final(ws)@,
                r,
                commit(old(ws)@, "split"@, split_spec(old(ws)@.project, clip_query@, at_frame, id)),
            ),
        final(ws)@.valid(),
{
    let id = new_id("clip");
    split_with_id(ws, clip_query, at_frame, id)
}

/// `te transform`: the edit committed to the workspace.
pub fn transform_clip(
    ws: &mut Workspace,
    clip_query: &str,
    rotation_degrees: Option<i16>,
    fit: Option<FitMode>,
    position_x_bits: Option<u64>,
    position_y_bits: Option<u64>,
    reset: bool,
) -> (r: Result<EditReport, EditError>)
    requires
        old(ws)@.valid(),
        old(ws).project.revision < u64::MAX,
    ensures
        stepped(
            old(ws)@,
            final(ws)@,
            r,
            commit(old(ws)@, "transform"@, transform_spec(old(ws)@.project, clip_query@, rotation_degrees, fit, position_x_bits, position_y_bits, reset)),
        ),
        final(ws)@.valid(),
{
    let mut p = ws.project.clone();
    match transform_clip_in(&mut p, clip_query, rotation_degrees, fit, position_x_bits, position_y_bits, reset) {
        Err(e) => {
            assert(ws@ =~= old(ws)@);
            Err(e)
        },
        Ok((affected, created)) => {
            let r = commit_exec(
                ws,
                "transform",
                p,
                affected,
                created,
                Ghost(transform_spec(old(ws)@.project, clip_query@, rotation_degrees, fit, position_x_bits, position_y_bits, reset)),
            );
            proof {
                lemma_commit_keeps_valid(old(ws)@, "transform"@, transform_spec(old(ws)@.project, clip_query@, rotation_degrees, fit, position_x_bits, position_y_bits, reset));
            }
            r
        },
    }
}

/// `te move`: the edit committed to the workspace.
pub fn move_clip(
    ws: &mut Workspace,
    clip_query: &str,
    track_id: Option<&str>,
    at_frame: i64,
) -> (r: Result<EditReport, EditError>)
    requires
        old(ws)@.valid(),
        old(ws).project.revision < u64::MAX,
    ensures
        stepped(
            old(ws)@,
            final(ws)@,
            r,
            commit(old(ws)@, "move"@, move_spec(old(ws)@.project, clip_query@, str_option_view(track_id), at_frame)),
        ),
        final(ws)@.valid(),
{
    let mut p = ws.project.clone();
    match move_clip_in(&mut p, clip_query, track_id, at_frame) {
        Err(e) => {
            assert(ws@ =~= old(ws)@);
            Err(e)
        },
        Ok((affected, created)) => {
            let r = commit_exec(
                ws,
                "move",
                p,
                affected,
                created,
                Ghost(move_spec(old(ws)@.project, clip_query@, str_option_view(track_id), at_frame)),
            );
            proof {
                lemma_commit_keeps_valid(old(ws)@, "move"@, move_spec(old(ws)@.project, clip_query@, str_option_view(track_id), at_frame));
            }
            r
        },
    }
}

/// `te remove`: the edit committed to the workspace.
pub fn remove(
    ws: &mut Workspace,
    clip_query: &str,
) -> (r: Result<EditReport, EditError>)
    requires
        old(ws)@.valid(),
        old(ws).project.revision < u64::MAX,
    ensures
        stepped(
            old(ws)@,
            final(ws)@,
            r,
            commit(old(ws)@, "remove"@, remove_spec(old(ws)@.project, clip_query@)),
        ),
        final(ws)@.valid(),
{
    let mut p = ws.project.clone();
    match remove_clip_in(&mut p, clip_query) {
        Err(e) => {
            assert(ws@ =~= old(ws)@);
            Err(e)
        },
        Ok((affected, created)) => {
            let r = commit_exec(
                ws,
                "remove",
                p,
                affected,
                created,
                Ghost(remove_spec(old(ws)@.project, clip_query@)),
            );
            proof {
                lemma_commit_keeps_valid(old(ws)@, "remove"@, remove_spec(old(ws)@.project, clip_query@));
            }
            r
        },
    }
}

/// `te trim`: the edit committed to the workspace.
pub fn trim(
    ws: &mut Workspace,
    clip_query: &str,
    start_frame: i64,
    duration_frames: i64,
    source_in_frame: i64,
) -> (r: Result<EditReport, EditError>)
    requires
        old(ws)@.valid(),
        old(ws).project.revision < u64::MAX,
    ensures
        stepped(
            old(ws)@,
            final(ws)@,
            r,
            commit(old(ws)@, "trim"@, trim_spec(old(ws)@.project, clip_query@, start_frame, duration_frames, source_in_frame)),
        ),
        final(ws)@.valid(),
{
    let mut p = ws.project.clone();
    match trim_clip_in(&mut p, clip_query, start_frame, duration_frames, source_in_frame) {
        Err(e) => {
            assert(ws@ =~= old(ws)@);
            Err(e)
        },
        Ok((affected, created)) => {
            let r = commit_exec(
                ws,
                "trim",
                p,
                affected,
                created,
                Ghost(trim_spec(old(ws)@.project, clip_query@, start_frame, duration_frames, source_in_frame)),
            );
            proof {
                lemma_commit_keeps_valid(old(ws)@, "trim"@, trim_spec(old(ws)@.project, clip_query@, start_frame, duration_frames, source_in_frame));
            }
            r
        },
    }
}

/// A committed edit leaves the workspace well formed.
pub proof fn lemma_commit_keeps_valid(w: WorkspaceView, operation: Seq<char>, model: Result<EditOutcome, EditError>)
    requires
        w.valid(),
    ensures
        commit(w, operation, model) matches Ok((next, _)) ==> next.valid(),
{
    if commit(w, operation, model) is Ok {
        let o = model->Ok_0;
        let next = commit(w, operation, model)->Ok_0.0;
        lemma_revision_keeps_validation(o.project, next.project.revision);
        assert forall|i: int| 0 <= i < next.undo.len() implies (#[trigger] next.undo[i]).valid() by {
            if i < w.undo.len() {
                assert(next.undo[i] == w.undo[i]);
            }
        }
    }
}

/// The revision number plays no part in whether a project is well formed.
pub proof fn lemma_revision_keeps_validation(p: ProjectView, revision: u64)
    ensures
        with_revision(p, revision).validation() == p.validation(),
{
    let q = with_revision(p, revision);
    assert(q.asset_ids() =~= p.asset_ids());
    assert(q.track_ids() =~= p.track_ids());
    assert(q.clip_ids() =~= p.clip_ids());
    lemma_revision_keeps_clip_errors(p, revision, p.clips.len());
}

proof fn lemma_revision_keeps_clip_errors(p: ProjectView, revision: u64, n: nat)
    requires
        n <= p.clips.len(),
    ensures
        with_revision(p, revision).first_clip_error(n) == p.first_clip_error(n),
    decreases n,
{
    let q = with_revision(p, revision);
    assert(q.asset_ids() =~= p.asset_ids());
    assert(q.track_ids() =~= p.track_ids());
    if n > 0 {
        lemma_revision_keeps_clip_errors(p, revision, (n - 1) as nat);
        assert(q.clip_error(n - 1) == p.clip_error(n - 1));
    }
}


/// Undo leaves a well-formed workspace well formed.
pub proof fn lemma_undo_keeps_valid(w: WorkspaceView)
    ensures
        w.valid() && undo_spec(w) is Ok ==> undo_spec(w)->Ok_0.0.valid(),
{
    if w.valid() && undo_spec(w) is Ok {
        let next = undo_spec(w)->Ok_0.0;
        assert(w.undo.last().valid());
        lemma_revision_keeps_validation(w.undo.last(), next.project.revision);
        assert forall|i: int| 0 <= i < next.undo.len() implies (#[trigger] next.undo[i]).valid() by {
            assert(next.undo[i] == w.undo[i]);
        }
        assert forall|i: int| 0 <= i < next.redo.len() implies (#[trigger] next.redo[i]).valid() by {
            if i < w.redo.len() {
                assert(next.redo[i] == w.redo[i]);
            }
        }
    }
}

/// Redo leaves a well-formed workspace well formed.
pub proof fn lemma_redo_keeps_valid(w: WorkspaceView)
    ensures
        w.valid() && redo_spec(w) is Ok ==> redo_spec(w)->Ok_0.0.valid(),
{
    if w.valid() && redo_spec(w) is Ok {
        let next = redo_spec(w)->Ok_0.0;
        assert(w.redo.last().valid());
        lemma_revision_keeps_validation(w.redo.last(), next.project.revision);
        assert forall|i: int| 0 <= i < next.redo.len() implies (#[trigger] next.redo[i]).valid() by {
            assert(next.redo[i] == w.redo[i]);
        }
        assert forall|i: int| 0 <= i < next.undo.len() implies (#[trigger] next.undo[i]).valid() by {
            if i < w.undo.len() {
                assert(next.undo[i] == w.undo[i]);
            }
        }
    }
}

/// Undo right after a committed edit brings back the project as it was
/// before the edit; only its revision has counted on, by two. The undo stack
/// is as before the edit and the edited project waits on the redo stack.
pub proof fn law_undo_reverts_edit(w: WorkspaceView, operation: Seq<char>, model: Result<EditOutcome, EditError>)
    requires
        commit(w, operation, model) is Ok,
        w.project.revision < u64::MAX - 1,
    ensures
        undo_spec(commit(w, operation, model)->Ok_0.0) is Ok,
        undo_spec(commit(w, operation, model)->Ok_0.0)->Ok_0.0.project == with_revision(
            w.project,
            (w.project.revision + 2) as u64,
        ),
        undo_spec(commit(w, operation, model)->Ok_0.0)->Ok_0.0.undo == w.undo,
        undo_spec(commit(w, operation, model)->Ok_0.0)->Ok_0.0.redo == seq![
            commit(w, operation, model)->Ok_0.0.project,
        ],
        ({
            let r = commit(w, operation, model)->Ok_0.1;
            let u = undo_spec(commit(w, operation, model)->Ok_0.0)->Ok_0.1;
            &&& u.operation == "undo"@
            &&& u.revision_before == r.revision_after
            &&& u.revision_after == r.revision_after + 1
            &&& u.affected == w.project.clip_ids()
            &&& u.created == Seq::<Seq<char>>::empty()
            &&& !u.undoable
        }),
{
    let w1 = commit(w, operation, model)->Ok_0.0;
    assert(w1.undo.drop_last() =~= w.undo);
    assert(Seq::<ProjectView>::empty().push(w1.project) =~= seq![w1.project]);
    let restored = with_revision(w.project, (w.project.revision + 2) as u64);
    assert(restored.clip_ids() =~= w.project.clip_ids());
}

/// Redoing an undone edit brings the edited project back under a revision
/// two above the edit's; the redo is reported as undoable, creating no
/// clip, and can itself be undone.
pub proof fn law_redo_restores_edit(w: WorkspaceView, operation: Seq<char>, model: Result<EditOutcome, EditError>)
    requires
        commit(w, operation, model) is Ok,
        w.project.revision < u64::MAX - 2,
    ensures
        ({
            let (w1, r) = commit(w, operation, model)->Ok_0;
            let w2 = undo_spec(w1)->Ok_0.0;
            &&& undo_spec(w1) is Ok
            &&& redo_spec(w2) is Ok
            &&& redo_spec(w2)->Ok_0.0.project == with_revision(w1.project, (r.revision_after + 2) as u64)
            &&& redo_spec(w2)->Ok_0.1.operation == "redo"@
            &&& redo_spec(w2)->Ok_0.1.revision_after == r.revision_after + 2
            &&& redo_spec(w2)->Ok_0.1.undoable
            &&& redo_spec(w2)->Ok_0.1.created == Seq::<Seq<char>>::empty()
            &&& undo_spec(redo_spec(w2)->Ok_0.0) is Ok
        }),
{
    let w1 = commit(w, operation, model)->Ok_0.0;
    let w2 = undo_spec(w1)->Ok_0.0;
    assert(w2.redo.last() == w1.project);
}

/// A committed edit empties the redo stack, so nothing is left to redo; a
/// refused edit is refused with the edit's own error (and, as `stepped`
/// says, leaves the workspace as it was).
pub proof fn law_edit_clears_redo(w: WorkspaceView, operation: Seq<char>, model: Result<EditOutcome, EditError>)
    ensures
        commit(w, operation, model) matches Ok((next, _)) ==> next.redo.len() == 0 && redo_spec(next)
            == Err::<(WorkspaceView, ReportView), EditError>(EditError::NothingToRedo),
        model is Err ==> commit(w, operation, model) == Err::<(WorkspaceView, ReportView), EditError>(
            model->Err_0,
        ),
{
}

/// A split committed to a well-formed workspace gives the new clip an id
/// that no clip of the project had.
pub proof fn law_split_creates_fresh_clip(w: WorkspaceView, clip_query: Seq<char>, at_frame: i64, clip_id: Seq<char>)
    requires
        w.valid(),
        commit(w, "split"@, split_spec(w.project, clip_query, at_frame, clip_id)) is Ok,
    ensures
        forall|j: int| 0 <= j < w.project.clips.len() ==> w.project.clips[j].id != clip_id,
{
    let p = w.project;
    lemma_commit_keeps_valid(w, "split"@, split_spec(p, clip_query, at_frame, clip_id));
    let next = commit(w, "split"@, split_spec(p, clip_query, at_frame, clip_id))->Ok_0.0;
    let q = next.project;
    law_split_preserves_source(p, clip_query, at_frame, clip_id);
    let i = resolve_id(p.clip_ids(), clip_query)->Ok_0;
    lemma_resolve_in_bounds(p.clip_ids(), clip_query);
    lemma_valid_clip(q, i + 1);
    assert forall|j: int| 0 <= j < p.clips.len() implies p.clips[j].id != clip_id by {
        if j < i {
            assert(q.clips[j] == p.clips[j]);
        } else if j == i {
            assert(q.clips[i].id == p.clips[i].id);
        } else {
            lemma_valid_clip(q, j + 1);
            assert(q.clips[j + 1] == p.clips[j]);
        }
    }
}

/// A placed asset committed to a well-formed workspace gets an id that no
/// clip of the project had.
pub proof fn law_add_creates_fresh_clip(
    w: WorkspaceView,
    asset_query: Seq<char>,
    track: Option<Seq<char>>,
    at_frame: i64,
    source_in_frame: i64,
    duration_frames: Option<i64>,
    clip_id: Seq<char>,
)
    requires
        w.valid(),
        commit(
            w,
            "add"@,
            add_spec(w.project, asset_query, track, at_frame, source_in_frame, duration_frames, clip_id),
        ) is Ok,
    ensures
        forall|j: int| 0 <= j < w.project.clips.len() ==> w.project.clips[j].id != clip_id,
{
    let p = w.project;
    let model = add_spec(p, asset_query, track, at_frame, source_in_frame, duration_frames, clip_id);
    lemma_commit_keeps_valid(w, "add"@, model);
    let q = commit(w, "add"@, model)->Ok_0.0.project;
    let n = p.clips.len() as int;
    lemma_valid_clip(q, n);
    assert forall|j: int| 0 <= j < n implies p.clips[j].id != clip_id by {
        assert(q.clips[j] == p.clips[j]);
    }
}

/// Redo right after an undo brings back the project the undo left; only its
/// revision has counted on, by two. The redo stack is as before the undo, and
/// so is the undo stack but for the revision of its last snapshot, which is
/// the project the undo restored.
pub proof fn law_redo_reverts_undo(w: WorkspaceView)
    requires
        undo_spec(w) is Ok,
        w.project.revision < u64::MAX - 1,
    ensures
        redo_spec(undo_spec(w)->Ok_0.0) is Ok,
        redo_spec(undo_spec(w)->Ok_0.0)->Ok_0.0 == (WorkspaceView {
            project: with_revision(w.project, (w.project.revision + 2) as u64),
            undo: w.undo.drop_last().push(
                with_revision(w.undo.last(), (w.project.revision + 1) as u64),
            ),
            redo: w.redo,
        }),
{
    let w1 = undo_spec(w)->Ok_0.0;
    let w2 = redo_spec(w1)->Ok_0.0;
    assert(w2.redo =~= w.redo);
    assert(w2.project =~= with_revision(w.project, (w.project.revision + 2) as u64));
}

/// Undo right after a redo brings back the project the redo left; only its
/// revision has counted on, by two. The undo stack is as before the redo, and
/// so is the redo stack but for the revision of its last snapshot, which is
/// the project the redo restored.
pub proof fn law_undo_reverts_redo(w: WorkspaceView)
    requires
        redo_spec(w) is Ok,
        w.project.revision < u64::MAX - 1,
    ensures
        undo_spec(redo_spec(w)->Ok_0.0) is Ok,
        undo_spec(redo_spec(w)->Ok_0.0)->Ok_0.0 == (WorkspaceView {
            project: with_revision(w.project, (w.project.revision + 2) as u64),
            undo: w.undo,
            redo: w.redo.drop_last().push(
                with_revision(w.redo.last(), (w.project.revision + 1) as u64),
            ),
        }),
{
    let w1 = redo_spec(w)->Ok_0.0;
    let w2 = undo_spec(w1)->Ok_0.0;
    assert(w2.undo =~= w.undo);
    assert(w2.project =~= with_revision(w.project, (w.project.revision + 2) as u64));
}

/// Every command that succeeds moves the revision on by exactly one and
/// reports both numbers; a refused edit changes nothing.
pub proof fn law_revision_counts_commands(w: WorkspaceView, operation: Seq<char>, model: Result<EditOutcome, EditError>)
    requires
        w.project.revision < u64::MAX,
    ensures
        commit(w, operation, model) matches Ok((next, report)) ==> next.project.revision
            == w.project.revision + 1 && report.revision_before == w.project.revision
            && report.revision_after == next.project.revision,
        undo_spec(w) matches Ok((next, report)) ==> next.project.revision == w.project.revision
            + 1 && report.revision_before == w.project.revision && report.revision_after
            == next.project.revision,
        redo_spec(w) matches Ok((next, report)) ==> next.project.revision == w.project.revision
            + 1 && report.revision_before == w.project.revision && report.revision_after
            == next.project.revision,
        model is Err ==> commit(w, operation, model) == Err::<(WorkspaceView, ReportView), EditError>(
            model->Err_0,
        ),
{
}

/// An edit that its own checks accept and whose project is well formed is
/// committed: the commit's check of the edited project passes. With the
/// laws of `edit` that accepted edits keep a project well formed (given a
/// new clip id that no clip has), every edit accepted on a well-formed
/// workspace is committed.
pub proof fn law_accepted_edit_commits(w: WorkspaceView, operation: Seq<char>, model: Result<EditOutcome, EditError>)
    requires
        model is Ok,
        model->Ok_0.project.valid(),
    ensures
        commit(w, operation, model) is Ok,
        commit(w, operation, model)->Ok_0.0.project == with_revision(
            model->Ok_0.project,
            (w.project.revision + 1) as u64,
        ),
{
}

/// A split accepted on a well-formed workspace, under a new clip id that no
/// clip has, is committed.
pub proof fn law_split_commits(w: WorkspaceView, clip_query: Seq<char>, at_frame: i64, clip_id: Seq<char>)
    requires
        w.valid(),
        forall|j: int| 0 <= j < w.project.clips.len() ==> w.project.clips[j].id != clip_id,
        split_spec(w.project, clip_query, at_frame, clip_id) is Ok,
    ensures
        commit(w, "split"@, split_spec(w.project, clip_query, at_frame, clip_id)) is Ok,
{
    law_split_keeps_valid(w.project, clip_query, at_frame, clip_id);
}

/// A trim accepted on a well-formed workspace is committed.
pub proof fn law_trim_commits(
    w: WorkspaceView,
    clip_query: Seq<char>,
    start_frame: i64,
    duration_frames: i64,
    source_in_frame: i64,
)
    requires
        w.valid(),
        trim_spec(w.project, clip_query, start_frame, duration_frames, source_in_frame) is Ok,
    ensures
        commit(w, "trim"@, trim_spec(w.project, clip_query, start_frame, duration_frames, source_in_frame))
            is Ok,
{
    law_trim_keeps_valid(w.project, clip_query, start_frame, duration_frames, source_in_frame);
}

/// A placed asset accepted on a well-formed workspace, under a new clip id
/// that no clip has, is committed.
pub proof fn law_add_commits(
    w: WorkspaceView,
    asset_query: Seq<char>,
    track: Option<Seq<char>>,
    at_frame: i64,
    source_in_frame: i64,
    duration_frames: Option<i64>,
    clip_id: Seq<char>,
)
    requires
        w.valid(),
        forall|j: int| 0 <= j < w.project.clips.len() ==> w.project.clips[j].id != clip_id,
        add_spec(w.project, asset_query, track, at_frame, source_in_frame, duration_frames, clip_id) is Ok,
    ensures
        commit(
            w,
            "add"@,
            add_spec(w.project, asset_query, track, at_frame, source_in_frame, duration_frames, clip_id),
        ) is Ok,
{
    law_add_keeps_valid(w.project, asset_query, track, at_frame, source_in_frame, duration_frames, clip_id);
}

/// An append accepted on a well-formed workspace, under a new clip id that
/// no clip has, is committed.
pub proof fn law_append_commits(
    w: WorkspaceView,
    asset_query: Seq<char>,
    track: Option<Seq<char>>,
    source_in_frame: i64,
    duration_frames: Option<i64>,
    clip_id: Seq<char>,
)
    requires
        w.valid(),
        forall|j: int| 0 <= j < w.project.clips.len() ==> w.project.clips[j].id != clip_id,
        append_spec(w.project, asset_query, track, source_in_frame, duration_frames, clip_id) is Ok,
    ensures
        commit(
            w,
            "append"@,
            append_spec(w.project, asset_query, track, source_in_frame, duration_frames, clip_id),
        ) is Ok,
{
    law_append_keeps_valid(w.project, asset_query, track, source_in_frame, duration_frames, clip_id);
}

/// A duplicate accepted on a well-formed workspace, under a new clip id that
/// no clip has, is committed.
pub proof fn law_duplicate_commits(
    w: WorkspaceView,
    clip_query: Seq<char>,
    track: Option<Seq<char>>,
    at_frame: i64,
    source_in_frame: Option<i64>,
    duration_frames: Option<i64>,
    clip_id: Seq<char>,
)
    requires
        w.valid(),
        forall|j: int| 0 <= j < w.project.clips.len() ==> w.project.clips[j].id != clip_id,
        duplicate_spec(w.project, clip_query, track, at_frame, source_in_frame, duration_frames, clip_id)
            is Ok,
    ensures
        commit(
            w,
            "duplicate"@,
            duplicate_spec(w.project, clip_query, track, at_frame, source_in_frame, duration_frames, clip_id),
        ) is Ok,
{
    law_duplicate_keeps_valid(w.project, clip_query, track, at_frame, source_in_frame, duration_frames, clip_id);
}

/// A transform accepted on a well-formed workspace is committed; so a reset
/// is committed whenever the clip query names a clip.
pub proof fn law_transform_commits(
    w: WorkspaceView,
    clip_query: Seq<char>,
    rotation_degrees: Option<i16>,
    fit: Option<FitMode>,
    position_x_bits: Option<u64>,
    position_y_bits: Option<u64>,
    reset: bool,
)
    requires
        w.valid(),
        transform_spec(w.project, clip_query, rotation_degrees, fit, position_x_bits, position_y_bits, reset)
            is Ok,
    ensures
        commit(
            w,
            "transform"@,
            transform_spec(w.project, clip_query, rotation_degrees, fit, position_x_bits, position_y_bits, reset),
        ) is Ok,
{
    law_transform_keeps_valid(w.project, clip_query, rotation_degrees, fit, position_x_bits, position_y_bits, reset);
}

/// A move accepted on a well-formed workspace is committed.
pub proof fn law_move_commits(w: WorkspaceView, clip_query: Seq<char>, track: Option<Seq<char>>, at_frame: i64)
    requires
        w.valid(),
        move_spec(w.project, clip_query, track, at_frame) is Ok,
    ensures
        commit(w, "move"@, move_spec(w.project, clip_query, track, at_frame)) is Ok,
{
    law_move_keeps_valid(w.project, clip_query, track, at_frame);
}

/// A removal accepted on a well-formed workspace is committed.
pub proof fn law_remove_commits(w: WorkspaceView, clip_query: Seq<char>)
    requires
        w.valid(),
        remove_spec(w.project, clip_query) is Ok,
    ensures
        commit(w, "remove"@, remove_spec(w.project, clip_query)) is Ok,
{
    law_remove_keeps_valid(w.project, clip_query);
}

} // verus!
