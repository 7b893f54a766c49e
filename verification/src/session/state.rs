//! The state of a session: the clip being edited with its undo history, what the next
//! recording captures, and the recording under way.

use crate::project::model::{Project, ProjectModel};
use crate::session::edit_zoom::{is_camera_of, resimulate};
use crate::session::error::EditError;
use crate::session::take::{Take, TakeModel};
use crate::session::target::Pending;
use crate::text::same_text;
use crate::zoom::camera::{takes_any_step, CameraTrack, TrackModel};
use vstd::prelude::*;

verus! {

/// Undo history depth (project snapshots are small, frames are not copied).
pub const UNDO_CAP: usize = 100;

/// One step back: the project before an edit, and the tag the edit carried.
#[derive(Debug)]
pub struct UndoStep {
    tag: String,
    project: Project,
}

/// What a session holds.
#[verifier::ext_equal]
pub struct SessionModel {
    /// The project being edited, if a clip is loaded.
    pub project: Option<ProjectModel>,
    /// Tags and states before each edit, oldest first.
    pub undo: Seq<(Seq<char>, ProjectModel)>,
    /// States that were undone, the latest last.
    pub redo: Seq<ProjectModel>,
    /// The camera of the clip, once it was simulated.
    pub track: Option<TrackModel>,
    /// What the next recording captures.
    pub pending: Pending,
    /// The recording under way.
    pub take: Option<TakeModel>,
}

/// Whether the camera is the one simulated from the project.
pub open spec fn camera_follows<S: Fn(i64, i64, i64, i64, i64) -> (i64, i64)>(
    spring: S,
    m: SessionModel,
) -> bool {
    &&& m.project is Some
    &&& m.track is Some
    &&& is_camera_of(spring, m.project->Some_0, m.track->Some_0)
}

/// Whether an edit kept the camera up to date: it was simulated anew where the edit moved
/// it, and stayed as it was otherwise.
pub open spec fn camera_kept<S: Fn(i64, i64, i64, i64, i64) -> (i64, i64)>(
    spring: S,
    before: SessionModel,
    after: SessionModel,
    moved: bool,
) -> bool {
    if moved {
        camera_follows(spring, after)
    } else {
        after.track == before.track
    }
}

impl SessionModel {
    /// The state with another clip, or none, an empty history, and no camera yet.
    pub open spec fn loaded(self, project: Option<ProjectModel>) -> SessionModel {
        SessionModel { project, undo: Seq::empty(), redo: Seq::empty(), track: None, ..self }
    }

    /// The state with another camera.
    pub open spec fn with_track(self, track: Option<TrackModel>) -> SessionModel {
        SessionModel { track, ..self }
    }

    /// Whether an edit with this tag joins the latest step of the history.
    pub open spec fn coalesces(self, tag: Seq<char>) -> bool {
        tag.len() > 0 && self.undo.len() > 0 && self.undo.last().0 == tag
    }

    /// The state after the project was remembered before an edit. Consecutive snapshots with
    /// the same non-empty tag coalesce: only the first keeps its state. Any snapshot forgets
    /// what could be redone; the oldest step goes where there are too many.
    pub open spec fn remembered(self, tag: Seq<char>) -> SessionModel {
        match self.project {
            None => self,
            Some(p) => {
                let undo = if self.coalesces(tag) {
                    self.undo
                } else {
                    let longer = self.undo.push((tag, p));
                    if longer.len() > UNDO_CAP {
                        longer.drop_first()
                    } else {
                        longer
                    }
                };
                SessionModel { undo, redo: Seq::empty(), ..self }
            },
        }
    }

    /// The state after an edit that turned the project into `q`.
    pub open spec fn edited(self, tag: Seq<char>, q: ProjectModel) -> SessionModel {
        SessionModel { project: Some(q), ..self.remembered(tag) }
    }

    /// The state after one step back.
    pub open spec fn undone(self) -> SessionModel {
        if self.undo.len() == 0 {
            self
        } else {
            SessionModel {
                project: Some(self.undo.last().1),
                undo: self.undo.drop_last(),
                redo: match self.project {
                    Some(cur) => self.redo.push(cur),
                    None => self.redo,
                },
                ..self
            }
        }
    }

    /// The state after one step forward again.
    pub open spec fn redone(self) -> SessionModel {
        if self.redo.len() == 0 {
            self
        } else {
            SessionModel {
                project: Some(self.redo.last()),
                undo: match self.project {
                    Some(cur) => self.undo.push((Seq::empty(), cur)),
                    None => self.undo,
                },
                redo: self.redo.drop_last(),
                ..self
            }
        }
    }
}

/// Whether an edit turned one state into another: without a clip it is refused and nothing
/// happens; otherwise the clip is remembered and changed, and the change says what the edit
/// returns. A change that is refused leaves the clip as it was.
pub open spec fn did<R>(
    before: SessionModel,
    after: SessionModel,
    tag: Seq<char>,
    r: Result<R, EditError>,
    change: spec_fn(ProjectModel) -> (Result<R, EditError>, ProjectModel),
) -> bool {
    match before.project {
        None => r == Err::<R, EditError>(EditError::NoRecording) && after == before,
        Some(p) => r == change(p).0 && after == before.edited(tag, change(p).1),
    }
}

/// Whether an edit that returns a list turned one state into another.
pub open spec fn did_list<T>(
    before: SessionModel,
    after: SessionModel,
    tag: Seq<char>,
    r: Result<Vec<T>, EditError>,
    change: spec_fn(ProjectModel) -> (Result<Seq<T>, EditError>, ProjectModel),
) -> bool {
    match before.project {
        None => r == Err::<Vec<T>, EditError>(EditError::NoRecording) && after == before,
        Some(p) => {
            &&& after == before.edited(tag, change(p).1)
            &&& match (r, change(p).0) {
                (Ok(v), Ok(s)) => v@ == s,
                (Err(a), Err(b)) => a == b,
                _ => false,
            }
        },
    }
}

/// The clip being edited with its history, the next recording's target, and the recording
/// under way.
#[derive(Debug)]
pub struct Session {
    project: Option<Project>,
    undo: Vec<UndoStep>,
    redo: Vec<Project>,
    track: Option<CameraTrack>,
    pending: Pending,
    take: Option<Take>,
}

impl View for Session {
    type V = SessionModel;

    closed spec fn view(&self) -> SessionModel {
        SessionModel {
            project: match self.project {
                Some(p) => Some(p@),
                None => None,
            },
            undo: Seq::new(self.undo@.len(), |i: int| (self.undo@[i].tag@, self.undo@[i].project@)),
            redo: Seq::new(self.redo@.len(), |i: int| self.redo@[i]@),
            track: match self.track {
                Some(t) => Some(t.model()),
                None => None,
            },
            pending: self.pending,
            take: match self.take {
                Some(t) => Some(t@),
                None => None,
            },
        }
    }
}

impl Session {
    /// No clip loaded, nothing recording, and the primary display as the next target.
    pub fn new() -> (e: Self)
        ensures
            e@.project is None,
            e@.undo.len() == 0,
            e@.redo.len() == 0,
            e@.track is None,
            e@.pending == Pending::initial(),
            e@.take is None,
    {
        Session {
            project: None,
            undo: Vec::new(),
            redo: Vec::new(),
            track: None,
            pending: Pending::new(),
            take: None,
        }
    }

    /// Load a clip and simulate its camera: a fresh clip has a fresh, empty history.
    pub fn load<S: Fn(i64, i64, i64, i64, i64) -> (i64, i64)>(&mut self, spring: &S, project: Project)
        requires
            takes_any_step(*spring),
        ensures
            final(self)@.with_track(None) == old(self)@.loaded(Some(project@)),
            camera_follows(*spring, final(self)@),
    {
        let ghost p = project@;
        self.project = Some(project);
        self.undo = Vec::new();
        self.redo = Vec::new();
        self.follow(spring);
        assert(self@.with_track(None) =~= old(self)@.loaded(Some(p)));
    }

    /// Simulate the camera of the clip anew.
    pub(crate) fn follow<S: Fn(i64, i64, i64, i64, i64) -> (i64, i64)>(&mut self, spring: &S)
        requires
            takes_any_step(*spring),
            old(self)@.project is Some,
        ensures
            final(self)@ == old(self)@.with_track(final(self)@.track),
            camera_follows(*spring, final(self)@),
    {
        let ghost mid = *self;
        if let Some(p) = &self.project {
            self.track = Some(resimulate(spring, p));
        }
        assert(self@.undo =~= mid@.undo);
        assert(self@.redo =~= mid@.redo);
    }

    /// The camera of the clip.
    pub fn track(&self) -> (t: Option<&CameraTrack>)
        ensures
            match t {
                Some(t) => self@.track == Some(t.model()),
                None => self@.track is None,
            },
    {
        match &self.track {
            Some(t) => Some(t),
            None => None,
        }
    }

    /// Drop the clip, its history and its camera.
    pub fn unload(&mut self)
        ensures
            final(self)@ == old(self)@.loaded(None),
    {
        self.project = None;
        self.undo = Vec::new();
        self.redo = Vec::new();
        self.track = None;
        assert(self@ =~= old(self)@.loaded(None));
    }

    /// What the next recording captures.
    pub fn pending(&self) -> (p: &Pending)
        ensures
            *p == self@.pending,
    {
        &self.pending
    }

    /// Choose what the next recording captures.
    pub(crate) fn set_pending(&mut self, p: Pending)
        ensures
            final(self)@ == (SessionModel { pending: p, ..old(self)@ }),
    {
        let ghost mid = *self;
        self.pending = p;
        assert(self@.undo =~= mid@.undo);
        assert(self@.redo =~= mid@.redo);
    }

    /// The recording under way.
    pub fn recording(&self) -> (t: Option<&Take>)
        ensures
            match t {
                Some(t) => self@.take == Some(t@),
                None => self@.take is None,
            },
    {
        match &self.take {
            Some(t) => Some(t),
            None => None,
        }
    }

    /// Put a recording under way, and hand out the one before.
    pub(crate) fn replace_take(&mut self, t: Option<Take>) -> (before: Option<Take>)
        ensures
            match before {
                Some(b) => old(self)@.take == Some(b@),
                None => old(self)@.take is None,
            },
            final(self)@ == (SessionModel {
                take: match t {
                    Some(t) => Some(t@),
                    None => None,
                },
                ..old(self)@
            }),
    {
        let ghost mid = *self;
        let before = self.take.take();
        self.take = t;
        assert(self@.undo =~= mid@.undo);
        assert(self@.redo =~= mid@.redo);
        before
    }

    /// The project being edited.
    pub fn project(&self) -> (p: Option<&Project>)
        ensures
            match p {
                Some(p) => self@.project == Some(p@),
                None => self@.project is None,
            },
    {
        match &self.project {
            Some(p) => Some(p),
            None => None,
        }
    }

    /// Remember the project before an edit.
    fn snapshot(&mut self, tag: &str)
        ensures
            final(self)@ == old(self)@.remembered(tag@),
    {
        let ghost before = *self;
        match &self.project {
            None => {
                assert(self@ =~= old(self)@.remembered(tag@));
            },
            Some(p) => {
                let n: usize = self.undo.len();
                let joins = tag.unicode_len() > 0 && n > 0 && same_text(
                    self.undo[n - 1].tag.as_str(),
                    tag,
                );
                let step = UndoStep { tag: tag.to_owned(), project: p.clone() };
                self.redo = Vec::new();
                if !joins {
                    self.undo.push(step);
                    if self.undo.len() > UNDO_CAP {
                        self.undo.remove(0);
                    }
                }
                assert(joins == before@.coalesces(tag@)) by {
                    if n > 0 {
                        assert(before@.undo.last() == (
                            before.undo@[n - 1].tag@,
                            before.undo@[n - 1].project@,
                        ));
                    }
                }
                assert(self@.redo =~= before@.remembered(tag@).redo);
                assert(self@.undo =~= before@.remembered(tag@).undo);
            },
        }
    }

    /// Remember the project and hand it out to be edited.
    pub(crate) fn begin(&mut self, tag: &str) -> (p: Option<Project>)
        ensures
            match p {
                Some(p) => {
                    &&& old(self)@.project == Some(p@)
                    &&& final(self)@ == SessionModel { project: None, ..old(self)@.remembered(tag@) }
                },
                None => old(self)@.project is None && final(self)@ == old(self)@,
            },
    {
        self.snapshot(tag);
        let ghost mid = *self;
        let p = self.project.take();
        assert(self@.undo =~= mid@.undo);
        assert(self@.redo =~= mid@.redo);
        p
    }

    /// Remember the project for an edit that never joins another, and hand it out.
    pub(crate) fn begin_discrete(&mut self) -> (p: Option<Project>)
        ensures
            match p {
                Some(p) => {
                    &&& old(self)@.project == Some(p@)
                    &&& final(self)@ == SessionModel {
                        project: None,
                        ..old(self)@.remembered(Seq::empty())
                    }
                },
                None => old(self)@.project is None && final(self)@ == old(self)@,
            },
    {
        proof {
            reveal_strlit("");
            assert(""@ =~= Seq::<char>::empty());
        }
        self.begin("")
    }

    /// Put the edited project back.
    pub(crate) fn commit(&mut self, p: Project)
        ensures
            final(self)@ == (SessionModel { project: Some(p@), ..old(self)@ }),
    {
        let ghost mid = *self;
        self.project = Some(p);
        assert(self@.undo =~= mid@.undo);
        assert(self@.redo =~= mid@.redo);
    }

    /// Revert the most recent edit; the camera follows. Returns `false` if there is nothing
    /// to undo.
    pub fn undo<S: Fn(i64, i64, i64, i64, i64) -> (i64, i64)>(&mut self, spring: &S) -> (r: bool)
        requires
            takes_any_step(*spring),
        ensures
            r == (old(self)@.undo.len() > 0),
            final(self)@.with_track(old(self)@.track) == old(self)@.undone(),
            camera_kept(*spring, old(self)@, final(self)@, r),
    {
        let ghost before = *self;
        match self.undo.pop() {
            None => {
                assert(self@ =~= before@);
                false
            },
            Some(step) => {
                if let Some(cur) = self.project.take() {
                    self.redo.push(cur);
                }
                self.project = Some(step.project);
                self.follow(spring);
                assert(self@.undo =~= before@.undone().undo);
                assert(self@.redo =~= before@.undone().redo);
                true
            },
        }
    }

    /// Re-apply the most recently undone edit; the camera follows. Returns `false` if there
    /// is nothing to redo.
    pub fn redo<S: Fn(i64, i64, i64, i64, i64) -> (i64, i64)>(&mut self, spring: &S) -> (r: bool)
        requires
            takes_any_step(*spring),
        ensures
            r == (old(self)@.redo.len() > 0),
            final(self)@.with_track(old(self)@.track) == old(self)@.redone(),
            camera_kept(*spring, old(self)@, final(self)@, r),
    {
        let ghost before = *self;
        match self.redo.pop() {
            None => {
                assert(self@ =~= before@);
                false
            },
            Some(next) => {
                if let Some(cur) = self.project.take() {
                    let tag = "".to_owned();
                    proof {
                        reveal_strlit("");
                        assert(tag@ =~= Seq::empty());
                    }
                    self.undo.push(UndoStep { tag, project: cur });
                }
                self.project = Some(next);
                self.follow(spring);
                assert(self@.undo =~= before@.redone().undo);
                assert(self@.redo =~= before@.redone().redo);
                true
            },
        }
    }
}

/// Undoing an edit brings back the project as it was before it.
pub proof fn undo_reverts_an_edit(m: SessionModel, tag: Seq<char>, q: ProjectModel)
    requires
        m.project is Some,
        !m.coalesces(tag),
    ensures
        m.edited(tag, q).undone().project == m.project,
{
}

/// A run of edits with one tag is one step: undoing it goes back to before the first.
pub proof fn a_run_of_edits_is_one_step(
    m: SessionModel,
    tag: Seq<char>,
    q1: ProjectModel,
    q2: ProjectModel,
)
    requires
        m.project is Some,
        !m.coalesces(tag),
        tag.len() > 0,
    ensures
        m.edited(tag, q1).edited(tag, q2).undone().project == m.project,
        m.edited(tag, q1).edited(tag, q2).undo == m.edited(tag, q1).undo,
{
}

/// Redoing what was undone brings the project back to where it was.
pub proof fn redo_reapplies_what_was_undone(m: SessionModel)
    requires
        m.project is Some,
        m.undo.len() > 0,
    ensures
        m.undone().redone().project == m.project,
        m.undone().redone().redo == m.redo,
        m.undone().redone().undo.len() == m.undo.len(),
{
    assert(m.redo.push(m.project.unwrap()).drop_last() =~= m.redo);
}

/// Undoing what was redone brings the project back to where it was.
pub proof fn undo_reverts_a_redo(m: SessionModel)
    requires
        m.project is Some,
        m.redo.len() > 0,
    ensures
        m.redone().undone() == m,
{
    let cur = m.project.unwrap();
    assert(m.undo.push((Seq::<char>::empty(), cur)).drop_last() =~= m.undo);
    assert(m.redo.drop_last().push(m.redo.last()) =~= m.redo);
}

/// An edit forgets what could be redone.
pub proof fn edits_forget_the_redo_branch(m: SessionModel, tag: Seq<char>, q: ProjectModel)
    requires
        m.project is Some,
    ensures
        m.edited(tag, q).redo.len() == 0,
{
}

/// The history never grows past its cap by editing.
pub proof fn history_is_bounded(m: SessionModel, tag: Seq<char>, q: ProjectModel)
    requires
        m.undo.len() <= UNDO_CAP,
    ensures
        m.edited(tag, q).undo.len() <= UNDO_CAP,
{
}

/// An edit sets the project and remembers the one before under its tag, unless it goes on
/// with an edit of the same tag; all else in the session stays. Once the history is full, the
/// oldest step goes.
pub proof fn edits_touch_the_project_alone(m: SessionModel, tag: Seq<char>, q: ProjectModel)
    requires
        m.project is Some,
    ensures
        ({
            let e = m.edited(tag, q);
            let goes_on = tag.len() > 0 && m.undo.len() > 0 && m.undo[m.undo.len() - 1].0 == tag;
            &&& e.project == Some(q)
            &&& e.track == m.track
            &&& e.pending == m.pending
            &&& e.take == m.take
            &&& e.redo.len() == 0
            &&& goes_on ==> e.undo == m.undo
            &&& !goes_on && m.undo.len() < 100 ==> e.undo == m.undo.push((tag, m.project->Some_0))
            &&& !goes_on && m.undo.len() == 100 ==> e.undo == m.undo.push(
                (tag, m.project->Some_0),
            ).drop_first()
        }),
{
}

/// Going back and forth moves the project between the histories and touches nothing else.
pub proof fn history_moves_the_project_alone(m: SessionModel)
    requires
        m.project is Some,
    ensures
        m.undo.len() > 0 ==> m.undone().project == Some(m.undo[m.undo.len() - 1].1)
            && m.undone().undo == m.undo.drop_last() && m.undone().redo == m.redo.push(
            m.project->Some_0,
        ),
        m.undo.len() == 0 ==> m.undone() == m,
        m.redo.len() > 0 ==> m.redone().project == Some(m.redo[m.redo.len() - 1])
            && m.redone().redo == m.redo.drop_last() && m.redone().undo == m.undo.push(
            (Seq::empty(), m.project->Some_0),
        ),
        m.redo.len() == 0 ==> m.redone() == m,
        m.undone().track == m.track && m.undone().pending == m.pending && m.undone().take == m.take,
        m.redone().track == m.track && m.redone().pending == m.pending && m.redone().take == m.take,
{
}

} // verus!
