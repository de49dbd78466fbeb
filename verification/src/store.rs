//! The storage layer: an in-memory store of projects and study sessions.
//!
//! Rows mirror the two persisted tables. Timestamps are held as canonical
//! RFC 3339 text and parsed back on every read; corrupt text aborts that
//! single read with `StorageFailure`. Ids are assigned from monotone
//! counters, names are checked for uniqueness on write, and deleting a
//! project cascades to its sessions.

use vstd::prelude::*;
use vstd::pervasive::VecAdditionalExecFns;
use vstd::multiset::Multiset;
use crate::models::{Project, StudySession, CreateProject, ManualStudySession, StoreError};
use crate::time::{parsed_rfc3339, fmt_rfc3339, parse_rfc3339, now_timestamp};
use crate::{valid_ts, MAX_TIMESTAMP};

verus! {

/// A stored project: one row of the projects table.
pub struct ProjectRow {
    pub id: i64,
    pub name: String,
}

/// A stored study session: one row of the sessions table. The timestamps
/// are canonical RFC 3339 text; an absent `end_time` marks the session as
/// active.
pub struct SessionRow {
    pub id: i64,
    pub project_id: i64,
    pub start_time: String,
    pub end_time: Option<String>,
    pub description: Option<String>,
}

pub(crate) fn clone_opt_string(o: &Option<String>) -> (r: Option<String>)
    ensures
        r == *o,
{
    match o {
        Some(s) => Some(s.clone()),
        None => None,
    }
}

impl Clone for ProjectRow {
    fn clone(&self) -> (r: Self)
        ensures
            r == *self,
    {
        ProjectRow { id: self.id, name: self.name.clone() }
    }
}

impl Clone for SessionRow {
    fn clone(&self) -> (r: Self)
        ensures
            r == *self,
    {
        SessionRow {
            id: self.id,
            project_id: self.project_id,
            start_time: self.start_time.clone(),
            end_time: clone_opt_string(&self.end_time),
            description: clone_opt_string(&self.description),
        }
    }
}

/// Index of the first project row with the given id, or -1 if there is none.
pub open spec fn find_project_idx(s: Seq<ProjectRow>, id: int) -> int
    decreases s.len(),
{
    if s.len() == 0 {
        -1
    } else if s[0].id == id {
        0
    } else {
        let r = find_project_idx(s.drop_first(), id);
        if r < 0 {
            -1
        } else {
            r + 1
        }
    }
}

pub open spec fn has_project(s: Seq<ProjectRow>, id: int) -> bool {
    find_project_idx(s, id) >= 0
}

/// Index of the first session row with the given id, or -1 if there is none.
pub open spec fn find_session_idx(s: Seq<SessionRow>, id: int) -> int
    decreases s.len(),
{
    if s.len() == 0 {
        -1
    } else if s[0].id == id {
        0
    } else {
        let r = find_session_idx(s.drop_first(), id);
        if r < 0 {
            -1
        } else {
            r + 1
        }
    }
}

/// A session row is active when it has no end time.
pub open spec fn is_active_row(r: SessionRow) -> bool {
    r.end_time is None
}

pub open spec fn has_active(s: Seq<SessionRow>) -> bool {
    exists|i: int| 0 <= i < s.len() && is_active_row(#[trigger] s[i])
}

/// Index of the first session row that the given id can clock out: it must
/// match the id and still be active. -1 if there is none.
pub open spec fn find_clockable_idx(s: Seq<SessionRow>, id: int) -> int
    decreases s.len(),
{
    if s.len() == 0 {
        -1
    } else if s[0].id == id && is_active_row(s[0]) {
        0
    } else {
        let r = find_clockable_idx(s.drop_first(), id);
        if r < 0 {
            -1
        } else {
            r + 1
        }
    }
}

/// Some project row carries this name.
pub open spec fn name_taken(s: Seq<ProjectRow>, name: Seq<char>) -> bool {
    exists|i: int| 0 <= i < s.len() && (#[trigger] s[i]).name@ == name
}

/// Some project row other than the one with the given id carries this name.
pub open spec fn other_name_taken(s: Seq<ProjectRow>, id: int, name: Seq<char>) -> bool {
    exists|i: int| 0 <= i < s.len() && (#[trigger] s[i]).name@ == name && s[i].id != id
}

pub proof fn lemma_find_project_idx(s: Seq<ProjectRow>, id: int)
    ensures
        find_project_idx(s, id) >= 0 ==> {
            let i = find_project_idx(s, id);
            &&& 0 <= i < s.len()
            &&& s[i].id == id
            &&& forall|j: int| 0 <= j < i ==> (#[trigger] s[j]).id != id
        },
        find_project_idx(s, id) < 0 ==> forall|j: int|
            0 <= j < s.len() ==> (#[trigger] s[j]).id != id,
    decreases s.len(),
{
    if s.len() > 0 && s[0].id != id {
        lemma_find_project_idx(s.drop_first(), id);
        assert forall|j: int| 1 <= j < s.len() implies #[trigger] s[j] == s.drop_first()[j - 1] by {}
    }
}

pub proof fn lemma_find_project_idx_at(s: Seq<ProjectRow>, id: int, i: int)
    requires
        0 <= i < s.len(),
        s[i].id == id,
        forall|j: int| 0 <= j < i ==> (#[trigger] s[j]).id != id,
    ensures
        find_project_idx(s, id) == i,
    decreases s.len(),
{
    if i > 0 {
        assert(s.drop_first()[i - 1] == s[i]);
        assert forall|j: int| 0 <= j < i - 1 implies (#[trigger] s.drop_first()[j]).id != id by {
            assert(s.drop_first()[j] == s[j + 1]);
        }
        lemma_find_project_idx_at(s.drop_first(), id, i - 1);
    }
}

pub proof fn lemma_find_session_idx(s: Seq<SessionRow>, id: int)
    ensures
        find_session_idx(s, id) >= 0 ==> {
            let i = find_session_idx(s, id);
            &&& 0 <= i < s.len()
            &&& s[i].id == id
            &&& forall|j: int| 0 <= j < i ==> (#[trigger] s[j]).id != id
        },
        find_session_idx(s, id) < 0 ==> forall|j: int|
            0 <= j < s.len() ==> (#[trigger] s[j]).id != id,
    decreases s.len(),
{
    if s.len() > 0 && s[0].id != id {
        lemma_find_session_idx(s.drop_first(), id);
        assert forall|j: int| 1 <= j < s.len() implies #[trigger] s[j] == s.drop_first()[j - 1] by {}
    }
}

pub proof fn lemma_find_session_idx_at(s: Seq<SessionRow>, id: int, i: int)
    requires
        0 <= i < s.len(),
        s[i].id == id,
        forall|j: int| 0 <= j < i ==> (#[trigger] s[j]).id != id,
    ensures
        find_session_idx(s, id) == i,
    decreases s.len(),
{
    if i > 0 {
        assert(s.drop_first()[i - 1] == s[i]);
        assert forall|j: int| 0 <= j < i - 1 implies (#[trigger] s.drop_first()[j]).id != id by {
            assert(s.drop_first()[j] == s[j + 1]);
        }
        lemma_find_session_idx_at(s.drop_first(), id, i - 1);
    }
}

pub proof fn lemma_find_clockable_idx(s: Seq<SessionRow>, id: int)
    ensures
        find_clockable_idx(s, id) >= 0 ==> {
            let i = find_clockable_idx(s, id);
            &&& 0 <= i < s.len()
            &&& s[i].id == id
            &&& is_active_row(s[i])
            &&& forall|j: int| 0 <= j < i ==> !((#[trigger] s[j]).id == id && is_active_row(s[j]))
        },
        find_clockable_idx(s, id) < 0 ==> forall|j: int|
            0 <= j < s.len() ==> !((#[trigger] s[j]).id == id && is_active_row(s[j])),
    decreases s.len(),
{
    if s.len() > 0 && !(s[0].id == id && is_active_row(s[0])) {
        lemma_find_clockable_idx(s.drop_first(), id);
        assert forall|j: int| 1 <= j < s.len() implies #[trigger] s[j] == s.drop_first()[j - 1] by {}
    }
}

pub proof fn lemma_find_clockable_idx_at(s: Seq<SessionRow>, id: int, i: int)
    requires
        0 <= i < s.len(),
        s[i].id == id,
        is_active_row(s[i]),
        forall|j: int| 0 <= j < i ==> !((#[trigger] s[j]).id == id && is_active_row(s[j])),
    ensures
        find_clockable_idx(s, id) == i,
    decreases s.len(),
{
    if i > 0 {
        assert(s.drop_first()[i - 1] == s[i]);
        assert forall|j: int| 0 <= j < i - 1 implies !((#[trigger] s.drop_first()[j]).id == id
            && is_active_row(s.drop_first()[j])) by {
            assert(s.drop_first()[j] == s[j + 1]);
        }
        lemma_find_clockable_idx_at(s.drop_first(), id, i - 1);
    }
}

/// The project rows that survive deleting the project with the given id.
pub open spec fn projects_without(s: Seq<ProjectRow>, id: int) -> Seq<ProjectRow>
    decreases s.len(),
{
    if s.len() == 0 {
        Seq::empty()
    } else {
        let pre = projects_without(s.drop_last(), id);
        if s.last().id == id {
            pre
        } else {
            pre.push(s.last())
        }
    }
}

/// The session rows that survive the cascade when the given project goes.
pub open spec fn sessions_without_project(s: Seq<SessionRow>, pid: int) -> Seq<SessionRow>
    decreases s.len(),
{
    if s.len() == 0 {
        Seq::empty()
    } else {
        let pre = sessions_without_project(s.drop_last(), pid);
        if s.last().project_id == pid {
            pre
        } else {
            pre.push(s.last())
        }
    }
}

/// The session rows that survive deleting the session with the given id.
pub open spec fn sessions_without(s: Seq<SessionRow>, id: int) -> Seq<SessionRow>
    decreases s.len(),
{
    if s.len() == 0 {
        Seq::empty()
    } else {
        let pre = sessions_without(s.drop_last(), id);
        if s.last().id == id {
            pre
        } else {
            pre.push(s.last())
        }
    }
}

pub proof fn lemma_projects_without(s: Seq<ProjectRow>, id: int)
    ensures
        forall|k: int| 0 <= k < projects_without(s, id).len()
            ==> (#[trigger] projects_without(s, id)[k]).id != id,
        projects_without(s, id).len() <= s.len(),
        (projects_without(s, id).len() == s.len()) <==> (forall|j: int|
            0 <= j < s.len() ==> (#[trigger] s[j]).id != id),
        forall|k: int|
            #![trigger projects_without(s, id)[k]]
            0 <= k < projects_without(s, id).len() ==> exists|j: int|
                0 <= j < s.len() && projects_without(s, id)[k] == #[trigger] s[j],
        (forall|a: int, b: int|
            0 <= a < b < s.len() ==> (#[trigger] s[a]).id != (#[trigger] s[b]).id) ==> (forall|
            a: int,
            b: int,
        |
            0 <= a < b < projects_without(s, id).len() ==> (#[trigger] projects_without(s, id)[a]).id
                != (#[trigger] projects_without(s, id)[b]).id),
    decreases s.len(),
{
    if s.len() > 0 {
        lemma_projects_without(s.drop_last(), id);
        let pre = projects_without(s.drop_last(), id);
        let res = projects_without(s, id);
        assert forall|j: int| 0 <= j < s.drop_last().len() implies #[trigger] s.drop_last()[j]
            == s[j] by {}
        assert forall|j: int| 0 <= j < s.len() - 1 implies #[trigger] s[j] == s.drop_last()[j] by {}
        assert forall|k: int|
            #![trigger res[k]]
            0 <= k < res.len() implies exists|j: int|
                0 <= j < s.len() && res[k] == #[trigger] s[j] by {
            if k < pre.len() {
                let j = choose|j: int| 0 <= j < s.drop_last().len() && pre[k] == s.drop_last()[j];
                assert(res[k] == s[j]);
            } else {
                assert(res[k] == s[s.len() - 1]);
            }
        }
        if forall|a: int, b: int|
            0 <= a < b < s.len() ==> (#[trigger] s[a]).id != (#[trigger] s[b]).id {
            assert forall|a: int, b: int|
                0 <= a < b < res.len() implies (#[trigger] res[a]).id != (#[trigger] res[b]).id by {
                if b < pre.len() {
                    assert(pre[a].id != pre[b].id);
                } else {
                    // res[b] is s.last(); res[a] stands somewhere in s.drop_last()
                    let j = choose|j: int|
                        0 <= j < s.drop_last().len() && #[trigger] pre[a] == s.drop_last()[j];
                    assert(s[j].id != s[s.len() - 1].id);
                }
            }
        }
    }
}

pub proof fn lemma_sessions_without_project(s: Seq<SessionRow>, pid: int)
    ensures
        forall|k: int| 0 <= k < sessions_without_project(s, pid).len()
            ==> (#[trigger] sessions_without_project(s, pid)[k]).project_id != pid,
        sessions_without_project(s, pid).len() <= s.len(),
        forall|k: int|
            #![trigger sessions_without_project(s, pid)[k]]
            0 <= k < sessions_without_project(s, pid).len() ==> exists|j: int|
                0 <= j < s.len() && sessions_without_project(s, pid)[k] == #[trigger] s[j],
        (forall|a: int, b: int|
            0 <= a < b < s.len() ==> (#[trigger] s[a]).id != (#[trigger] s[b]).id) ==> (forall|
            a: int,
            b: int,
        |
            0 <= a < b < sessions_without_project(s, pid).len()
                ==> (#[trigger] sessions_without_project(s, pid)[a]).id
                != (#[trigger] sessions_without_project(s, pid)[b]).id),
    decreases s.len(),
{
    if s.len() > 0 {
        lemma_sessions_without_project(s.drop_last(), pid);
        let pre = sessions_without_project(s.drop_last(), pid);
        let res = sessions_without_project(s, pid);
        assert forall|j: int| 0 <= j < s.drop_last().len() implies #[trigger] s.drop_last()[j]
            == s[j] by {}
        assert forall|j: int| 0 <= j < s.len() - 1 implies #[trigger] s[j] == s.drop_last()[j] by {}
        assert forall|k: int|
            #![trigger res[k]]
            0 <= k < res.len() implies exists|j: int|
                0 <= j < s.len() && res[k] == #[trigger] s[j] by {
            if k < pre.len() {
                let j = choose|j: int| 0 <= j < s.drop_last().len() && pre[k] == s.drop_last()[j];
                assert(res[k] == s[j]);
            } else {
                assert(res[k] == s[s.len() - 1]);
            }
        }
        if forall|a: int, b: int|
            0 <= a < b < s.len() ==> (#[trigger] s[a]).id != (#[trigger] s[b]).id {
            assert forall|a: int, b: int|
                0 <= a < b < res.len() implies (#[trigger] res[a]).id != (#[trigger] res[b]).id by {
                if b < pre.len() {
                    assert(pre[a].id != pre[b].id);
                } else {
                    let j = choose|j: int|
                        0 <= j < s.drop_last().len() && pre[a] == s.drop_last()[j];
                    assert(s[j].id != s[s.len() - 1].id);
                }
            }
        }
    }
}

pub proof fn lemma_sessions_without(s: Seq<SessionRow>, id: int)
    ensures
        forall|k: int| 0 <= k < sessions_without(s, id).len()
            ==> (#[trigger] sessions_without(s, id)[k]).id != id,
        sessions_without(s, id).len() <= s.len(),
        (sessions_without(s, id).len() == s.len()) <==> (forall|j: int|
            0 <= j < s.len() ==> (#[trigger] s[j]).id != id),
        forall|k: int|
            #![trigger sessions_without(s, id)[k]]
            0 <= k < sessions_without(s, id).len() ==> exists|j: int|
                0 <= j < s.len() && sessions_without(s, id)[k] == #[trigger] s[j],
        (forall|a: int, b: int|
            0 <= a < b < s.len() ==> (#[trigger] s[a]).id != (#[trigger] s[b]).id) ==> (forall|
            a: int,
            b: int,
        |
            0 <= a < b < sessions_without(s, id).len() ==> (#[trigger] sessions_without(s, id)[a]).id
                != (#[trigger] sessions_without(s, id)[b]).id),
    decreases s.len(),
{
    if s.len() > 0 {
        lemma_sessions_without(s.drop_last(), id);
        let pre = sessions_without(s.drop_last(), id);
        let res = sessions_without(s, id);
        assert forall|j: int| 0 <= j < s.drop_last().len() implies #[trigger] s.drop_last()[j]
            == s[j] by {}
        assert forall|j: int| 0 <= j < s.len() - 1 implies #[trigger] s[j] == s.drop_last()[j] by {}
        assert forall|k: int|
            #![trigger res[k]]
            0 <= k < res.len() implies exists|j: int|
                0 <= j < s.len() && res[k] == #[trigger] s[j] by {
            if k < pre.len() {
                let j = choose|j: int| 0 <= j < s.drop_last().len() && pre[k] == s.drop_last()[j];
                assert(res[k] == s[j]);
            } else {
                assert(res[k] == s[s.len() - 1]);
            }
        }
        if forall|a: int, b: int|
            0 <= a < b < s.len() ==> (#[trigger] s[a]).id != (#[trigger] s[b]).id {
            assert forall|a: int, b: int|
                0 <= a < b < res.len() implies (#[trigger] res[a]).id != (#[trigger] res[b]).id by {
                if b < pre.len() {
                    assert(pre[a].id != pre[b].id);
                } else {
                    let j = choose|j: int|
                        0 <= j < s.drop_last().len() && pre[a] == s.drop_last()[j];
                    assert(s[j].id != s[s.len() - 1].id);
                }
            }
        }
    }
}

/// The store: the sole owner of persisted state. Everything handed back to
/// callers is an independent copy.
pub struct Store {
    pub projects: Vec<ProjectRow>,
    pub sessions: Vec<SessionRow>,
    pub next_project_id: i64,
    pub next_session_id: i64,
}

impl Store {
    /// Well-formedness: ids are positive, below their counter, and unique.
    pub open spec fn wf(&self) -> bool {
        &&& 1 <= self.next_project_id
        &&& 1 <= self.next_session_id
        &&& forall|i: int| 0 <= i < self.projects@.len()
            ==> 1 <= (#[trigger] self.projects@[i]).id < self.next_project_id
        &&& forall|i: int, j: int|
            0 <= i < j < self.projects@.len()
                ==> (#[trigger] self.projects@[i]).id != (#[trigger] self.projects@[j]).id
        &&& forall|i: int| 0 <= i < self.sessions@.len()
            ==> 1 <= (#[trigger] self.sessions@[i]).id < self.next_session_id
        &&& forall|i: int, j: int|
            0 <= i < j < self.sessions@.len()
                ==> (#[trigger] self.sessions@[i]).id != (#[trigger] self.sessions@[j]).id
    }

    /// A fresh, empty store: both tables exist and hold nothing.
    pub fn new() -> (s: Store)
        ensures
            s.projects@.len() == 0,
            s.sessions@.len() == 0,
            s.next_project_id == 1,
            s.next_session_id == 1,
            s.wf(),
    {
        Store { projects: Vec::new(), sessions: Vec::new(), next_project_id: 1, next_session_id: 1 }
    }

    /// Position of the first project row with this id, if any.
    fn project_pos(&self, id: i64) -> (r: Option<usize>)
        ensures
            r matches Some(i) ==> find_project_idx(self.projects@, id as int) == i as int,
            r is None ==> find_project_idx(self.projects@, id as int) < 0,
    {
        let n = self.projects.len();
        let mut i: usize = 0;
        while i < n
            invariant
                n == self.projects@.len(),
                i <= n,
                forall|j: int| 0 <= j < i ==> (#[trigger] self.projects@[j]).id != id,
            decreases n - i,
        {
            if self.projects[i].id == id {
                proof {
                    lemma_find_project_idx_at(self.projects@, id as int, i as int);
                }
                return Some(i);
            }
            i += 1;
        }
        proof {
            lemma_find_project_idx(self.projects@, id as int);
        }
        None
    }

    /// Position of the first session row with this id, if any.
    fn session_pos(&self, id: i64) -> (r: Option<usize>)
        ensures
            r matches Some(i) ==> find_session_idx(self.sessions@, id as int) == i as int,
            r is None ==> find_session_idx(self.sessions@, id as int) < 0,
    {
        let n = self.sessions.len();
        let mut i: usize = 0;
        while i < n
            invariant
                n == self.sessions@.len(),
                i <= n,
                forall|j: int| 0 <= j < i ==> (#[trigger] self.sessions@[j]).id != id,
            decreases n - i,
        {
            if self.sessions[i].id == id {
                proof {
                    lemma_find_session_idx_at(self.sessions@, id as int, i as int);
                }
                return Some(i);
            }
            i += 1;
        }
        proof {
            lemma_find_session_idx(self.sessions@, id as int);
        }
        None
    }

    /// Creates a project with a fresh id. Fails with `ConstraintViolation`
    /// exactly when the name is already taken.
    pub fn create_project(&mut self, data: &CreateProject) -> (r: Result<Project, StoreError>)
        ensures
            match r {
                Ok(p) => {
                    &&& !name_taken(old(self).projects@, data.name@)
                    &&& old(self).next_project_id < i64::MAX
                    &&& p.id == Some(old(self).next_project_id)
                    &&& p.name@ == data.name@
                    &&& final(self).projects@ == old(self).projects@.push(
                        final(self).projects@.last(),
                    )
                    &&& final(self).projects@.last().id == old(self).next_project_id
                    &&& final(self).projects@.last().name@ == data.name@
                    &&& final(self).next_project_id == old(self).next_project_id + 1
                    &&& final(self).sessions@ == old(self).sessions@
                    &&& final(self).next_session_id == old(self).next_session_id
                },
                Err(e) => {
                    &&& *final(self) == *old(self)
                    &&& (e == StoreError::ConstraintViolation <==> name_taken(
                        old(self).projects@,
                        data.name@,
                    ))
                    &&& (e == StoreError::StorageFailure ==> old(self).next_project_id
                        == i64::MAX)
                    &&& (e == StoreError::ConstraintViolation || e == StoreError::StorageFailure)
                },
            },
            old(self).wf() ==> final(self).wf(),
    {
        let n = self.projects.len();
        let mut i: usize = 0;
        while i < n
            invariant
                n == self.projects@.len(),
                i <= n,
                forall|j: int| 0 <= j < i ==> (#[trigger] self.projects@[j]).name@ != data.name@,
            decreases n - i,
        {
            if self.projects[i].name == data.name {
                return Err(StoreError::ConstraintViolation);
            }
            i += 1;
        }
        if self.next_project_id == i64::MAX {
            return Err(StoreError::StorageFailure);
        }
        let id = self.next_project_id;
        self.next_project_id = id + 1;
        self.projects.push(ProjectRow { id, name: data.name.clone() });
        Ok(Project { id: Some(id), name: data.name.clone() })
    }

    /// Looks a project up by id; `None` signals absence, distinct from error.
    pub fn get_project(&self, project_id: i64) -> (r: Option<Project>)
        ensures
            match r {
                Some(p) => {
                    let i = find_project_idx(self.projects@, project_id as int);
                    &&& i >= 0
                    &&& p.id == Some(project_id)
                    &&& p.name@ == self.projects@[i].name@
                },
                None => find_project_idx(self.projects@, project_id as int) < 0,
            },
    {
        match self.project_pos(project_id) {
            Some(i) => {
                proof {
                    lemma_find_project_idx(self.projects@, project_id as int);
                }
                let row = &self.projects[i];
                Some(Project { id: Some(row.id), name: row.name.clone() })
            },
            None => None,
        }
    }

    /// Renames a project in place, reporting how many rows changed
    /// (0 = not found). Fails with `ConstraintViolation` exactly when some
    /// other project already carries the new name.
    pub fn update_project(&mut self, project_id: i64, data: &CreateProject) -> (r: Result<
        usize,
        StoreError,
    >)
        ensures
            match r {
                Ok(n) => {
                    let i = find_project_idx(old(self).projects@, project_id as int);
                    if n == 0 {
                        &&& i < 0
                        &&& *final(self) == *old(self)
                    } else {
                        &&& n == 1
                        &&& i >= 0
                        &&& !other_name_taken(old(self).projects@, project_id as int, data.name@)
                        &&& final(self).projects@ == old(self).projects@.update(
                            i,
                            final(self).projects@[i],
                        )
                        &&& final(self).projects@[i].id == old(self).projects@[i].id
                        &&& final(self).projects@[i].name@ == data.name@
                        &&& final(self).sessions@ == old(self).sessions@
                        &&& final(self).next_project_id == old(self).next_project_id
                        &&& final(self).next_session_id == old(self).next_session_id
                    }
                },
                Err(e) => {
                    &&& *final(self) == *old(self)
                    &&& e == StoreError::ConstraintViolation
                    &&& find_project_idx(old(self).projects@, project_id as int) >= 0
                    &&& other_name_taken(old(self).projects@, project_id as int, data.name@)
                },
            },
            old(self).wf() ==> final(self).wf(),
    {
        let pos = match self.project_pos(project_id) {
            Some(i) => i,
            None => {
                return Ok(0);
            },
        };
        proof {
            lemma_find_project_idx(self.projects@, project_id as int);
        }
        let n = self.projects.len();
        let mut i: usize = 0;
        while i < n
            invariant
                n == self.projects@.len(),
                i <= n,
                pos < n,
                find_project_idx(self.projects@, project_id as int) == pos as int,
                forall|j: int|
                    0 <= j < i ==> !((#[trigger] self.projects@[j]).name@ == data.name@
                        && self.projects@[j].id != project_id),
            decreases n - i,
        {
            if self.projects[i].name == data.name && self.projects[i].id != project_id {
                return Err(StoreError::ConstraintViolation);
            }
            i += 1;
        }
        let old_id = self.projects[pos].id;
        self.projects.set(pos, ProjectRow { id: old_id, name: data.name.clone() });
        Ok(1)
    }

    /// Deletes a project by id and cascades to its sessions; reports how
    /// many project rows went away (0 = not found).
    pub fn delete_project(&mut self, project_id: i64) -> (r: usize)
        ensures
            final(self).projects@ == projects_without(old(self).projects@, project_id as int),
            final(self).sessions@ == sessions_without_project(
                old(self).sessions@,
                project_id as int,
            ),
            r as int == old(self).projects@.len() - final(self).projects@.len(),
            (r == 0 <==> find_project_idx(old(self).projects@, project_id as int) < 0),
            final(self).next_project_id == old(self).next_project_id,
            final(self).next_session_id == old(self).next_session_id,
            old(self).wf() ==> final(self).wf(),
    {
        let ghost orig = *self;
        let n = self.projects.len();
        let mut kept: Vec<ProjectRow> = Vec::new();
        let mut i: usize = 0;
        while i < n
            invariant
                n == self.projects@.len(),
                i <= n,
                kept@ == projects_without(self.projects@.take(i as int), project_id as int),
            decreases n - i,
        {
            proof {
                assert(self.projects@.take(i + 1).drop_last() =~= self.projects@.take(i as int));
                assert(self.projects@.take(i + 1).last() == self.projects@[i as int]);
            }
            if self.projects[i].id != project_id {
                kept.push(self.projects[i].clone());
            }
            i += 1;
        }
        proof {
            assert(self.projects@.take(n as int) =~= self.projects@);
            lemma_projects_without(self.projects@, project_id as int);
        }
        let removed = n - kept.len();
        self.projects = kept;

        let m = self.sessions.len();
        let mut kept_s: Vec<SessionRow> = Vec::new();
        let mut k: usize = 0;
        while k < m
            invariant
                m == self.sessions@.len(),
                k <= m,
                kept_s@ == sessions_without_project(self.sessions@.take(k as int), project_id as int),
            decreases m - k,
        {
            proof {
                assert(self.sessions@.take(k + 1).drop_last() =~= self.sessions@.take(k as int));
                assert(self.sessions@.take(k + 1).last() == self.sessions@[k as int]);
            }
            if self.sessions[k].project_id != project_id {
                kept_s.push(self.sessions[k].clone());
            }
            k += 1;
        }
        proof {
            assert(self.sessions@.take(m as int) =~= self.sessions@);
            lemma_sessions_without_project(self.sessions@, project_id as int);
        }
        self.sessions = kept_s;

        proof {
            lemma_find_project_idx(orig.projects@, project_id as int);
            if find_project_idx(orig.projects@, project_id as int) >= 0 {
                let fi = find_project_idx(orig.projects@, project_id as int);
                assert(orig.projects@[fi].id == project_id);
            }
            if orig.wf() {
                assert forall|a: int|
                    0 <= a < self.projects@.len() implies 1 <= (#[trigger] self.projects@[a]).id
                    < self.next_project_id by {
                    let j = choose|j: int|
                        0 <= j < orig.projects@.len() && self.projects@[a] == orig.projects@[j];
                    assert(1 <= orig.projects@[j].id < orig.next_project_id);
                }
                assert forall|a: int|
                    0 <= a < self.sessions@.len() implies 1 <= (#[trigger] self.sessions@[a]).id
                    < self.next_session_id by {
                    let j = choose|j: int|
                        0 <= j < orig.sessions@.len() && self.sessions@[a] == orig.sessions@[j];
                    assert(1 <= orig.sessions@[j].id < orig.next_session_id);
                }
            }
        }
        removed
    }
}

broadcast use {vstd::seq_lib::group_to_multiset_ensures, vstd::multiset::group_multiset_axioms};

/// An abstract study session: what a stored row or a returned value
/// denotes, with timestamps as plain integers.
pub ghost struct SessionView {
    pub id: Option<int>,
    pub project_id: int,
    pub start_time: int,
    pub end_time: Option<int>,
    pub description: Option<Seq<char>>,
}

pub open spec fn opt_str_view(o: Option<String>) -> Option<Seq<char>> {
    match o {
        Some(s) => Some(s@),
        None => None,
    }
}

pub open spec fn opt_i64_view(o: Option<i64>) -> Option<int> {
    match o {
        Some(t) => Some(t as int),
        None => None,
    }
}

/// The instant a stored optional timestamp denotes, if any.
pub open spec fn opt_parsed(o: Option<String>) -> Option<int> {
    match o {
        Some(s) => parsed_rfc3339(s@),
        None => None,
    }
}

pub open spec fn unwrap_or_zero(o: Option<int>) -> int {
    match o {
        Some(t) => t,
        None => 0,
    }
}

/// The timestamp text of a stored row is intact: all of it parses.
pub open spec fn row_ok(r: SessionRow) -> bool {
    &&& parsed_rfc3339(r.start_time@) is Some
    &&& (r.end_time matches Some(e) ==> parsed_rfc3339(e@) is Some)
}

pub open spec fn row_view(r: SessionRow) -> SessionView {
    SessionView {
        id: Some(r.id as int),
        project_id: r.project_id as int,
        start_time: unwrap_or_zero(parsed_rfc3339(r.start_time@)),
        end_time: opt_parsed(r.end_time),
        description: opt_str_view(r.description),
    }
}

pub open spec fn sess_view(s: StudySession) -> SessionView {
    SessionView {
        id: opt_i64_view(s.id),
        project_id: s.project_id as int,
        start_time: s.start_time as int,
        end_time: opt_i64_view(s.end_time),
        description: opt_str_view(s.description),
    }
}

/// Views of a sequence of session values.
pub open spec fn views_of(v: Seq<StudySession>) -> Seq<SessionView> {
    v.map_values(|x: StudySession| sess_view(x))
}

/// Views of a sequence of stored rows.
pub open spec fn row_views(s: Seq<SessionRow>) -> Seq<SessionView> {
    s.map_values(|r: SessionRow| row_view(r))
}

/// Whether a listing picks this row: all rows, or one project's rows.
pub open spec fn sel_match(r: SessionRow, pid: Option<int>) -> bool {
    match pid {
        Some(p) => r.project_id == p,
        None => true,
    }
}

/// The rows a listing picks, in stored order.
pub open spec fn selected_sessions(s: Seq<SessionRow>, pid: Option<int>) -> Seq<SessionRow>
    decreases s.len(),
{
    if s.len() == 0 {
        Seq::empty()
    } else {
        let pre = selected_sessions(s.drop_last(), pid);
        if sel_match(s.last(), pid) {
            pre.push(s.last())
        } else {
            pre
        }
    }
}

/// Every row a listing picks has intact timestamp text.
pub open spec fn sel_all_ok(s: Seq<SessionRow>, pid: Option<int>) -> bool {
    forall|i: int| 0 <= i < s.len() && sel_match(#[trigger] s[i], pid) ==> row_ok(s[i])
}

/// Every active row has intact timestamp text.
pub open spec fn all_active_ok(s: Seq<SessionRow>) -> bool {
    forall|i: int| 0 <= i < s.len() && is_active_row(#[trigger] s[i]) ==> row_ok(s[i])
}

pub proof fn lemma_selected_all(s: Seq<SessionRow>)
    ensures
        selected_sessions(s, None) == s,
    decreases s.len(),
{
    if s.len() > 0 {
        lemma_selected_all(s.drop_last());
        assert(selected_sessions(s, None) =~= s);
    }
}

proof fn lemma_selected_take_step(s: Seq<SessionRow>, pid: Option<int>, i: int)
    requires
        0 <= i < s.len(),
    ensures
        selected_sessions(s.take(i + 1), pid) == if sel_match(s[i], pid) {
            selected_sessions(s.take(i), pid).push(s[i])
        } else {
            selected_sessions(s.take(i), pid)
        },
{
    assert(s.take(i + 1).drop_last() =~= s.take(i));
    assert(s.take(i + 1).last() == s[i]);
}

proof fn lemma_views_of_push(v: Seq<StudySession>, x: StudySession)
    ensures
        views_of(v.push(x)) == views_of(v).push(sess_view(x)),
{
    assert(views_of(v.push(x)) =~= views_of(v).push(sess_view(x)));
}

proof fn lemma_views_of_remove(v: Seq<StudySession>, i: int)
    requires
        0 <= i < v.len(),
    ensures
        views_of(v.remove(i)) == views_of(v).remove(i),
{
    assert(views_of(v.remove(i)) =~= views_of(v).remove(i));
}

proof fn lemma_row_views_push(s: Seq<SessionRow>, r: SessionRow)
    ensures
        row_views(s.push(r)) == row_views(s).push(row_view(r)),
{
    assert(row_views(s.push(r)) =~= row_views(s).push(row_view(r)));
}

/// Reads one stored row back into a session value; corrupt timestamp text
/// aborts this single read.
fn row_to_session(r: &SessionRow) -> (res: Result<StudySession, StoreError>)
    ensures
        match res {
            Ok(s) => row_ok(*r) && sess_view(s) == row_view(*r),
            Err(e) => e == StoreError::StorageFailure && !row_ok(*r),
        },
{
    let start = match parse_rfc3339(r.start_time.as_str()) {
        Some(t) => t,
        None => {
            return Err(StoreError::StorageFailure);
        },
    };
    let end = match &r.end_time {
        Some(text) => match parse_rfc3339(text.as_str()) {
            Some(t) => Some(t),
            None => {
                return Err(StoreError::StorageFailure);
            },
        },
        None => None,
    };
    Ok(StudySession {
        id: Some(r.id),
        project_id: r.project_id,
        start_time: start,
        end_time: end,
        description: clone_opt_string(&r.description),
    })
}

impl Store {
    /// Whether some session is currently active.
    pub fn has_active_session(&self) -> (r: bool)
        ensures
            r == has_active(self.sessions@),
    {
        let n = self.sessions.len();
        let mut i: usize = 0;
        while i < n
            invariant
                n == self.sessions@.len(),
                i <= n,
                forall|j: int| 0 <= j < i ==> !is_active_row(#[trigger] self.sessions@[j]),
            decreases n - i,
        {
            if self.sessions[i].end_time.is_none() {
                return true;
            }
            i += 1;
        }
        false
    }

    fn insert_session(
        &mut self,
        project_id: i64,
        start_time: i64,
        end_time: Option<i64>,
        description: Option<String>,
    ) -> (r: Result<StudySession, StoreError>)
        requires
            valid_ts(start_time),
            end_time matches Some(e) ==> valid_ts(e),
        ensures
            match r {
                Ok(s) => {
                    &&& has_project(old(self).projects@, project_id as int)
                    &&& old(self).next_session_id < i64::MAX
                    &&& s.id == Some(old(self).next_session_id)
                    &&& s.project_id == project_id
                    &&& s.start_time == start_time
                    &&& s.end_time == end_time
                    &&& s.description == description
                    &&& final(self).sessions@ == old(self).sessions@.push(
                        final(self).sessions@.last(),
                    )
                    &&& final(self).sessions@.last().id == old(self).next_session_id
                    &&& final(self).sessions@.last().project_id == project_id
                    &&& row_ok(final(self).sessions@.last())
                    &&& row_view(final(self).sessions@.last()) == sess_view(s)
                    &&& final(self).next_session_id == old(self).next_session_id + 1
                    &&& final(self).projects@ == old(self).projects@
                    &&& final(self).next_project_id == old(self).next_project_id
                },
                Err(e) => {
                    &&& *final(self) == *old(self)
                    &&& (e == StoreError::ConstraintViolation <==> !has_project(
                        old(self).projects@,
                        project_id as int,
                    ))
                    &&& (e == StoreError::StorageFailure ==> old(self).next_session_id
                        == i64::MAX)
                    &&& (e == StoreError::ConstraintViolation || e == StoreError::StorageFailure)
                },
            },
            old(self).wf() ==> final(self).wf(),
    {
        if self.project_pos(project_id).is_none() {
            return Err(StoreError::ConstraintViolation);
        }
        if self.next_session_id == i64::MAX {
            return Err(StoreError::StorageFailure);
        }
        let id = self.next_session_id;
        self.next_session_id = id + 1;
        let start_text = fmt_rfc3339(start_time);
        let end_text = match end_time {
            Some(e) => Some(fmt_rfc3339(e)),
            None => None,
        };
        let row = SessionRow {
            id,
            project_id,
            start_time: start_text,
            end_time: end_text,
            description: clone_opt_string(&description),
        };
        self.sessions.push(row);
        Ok(StudySession { id: Some(id), project_id, start_time, end_time, description })
    }

    /// Inserts a session that starts at the given instant and is still
    /// active. Does not itself check the single-active-session rule: that
    /// is the caller's responsibility (see `clock_in_at`).
    pub fn start_session_at(
        &mut self,
        project_id: i64,
        start_time: i64,
        description: Option<String>,
    ) -> (r: Result<StudySession, StoreError>)
        requires
            valid_ts(start_time),
        ensures
            match r {
                Ok(s) => {
                    &&& has_project(old(self).projects@, project_id as int)
                    &&& old(self).next_session_id < i64::MAX
                    &&& s.id == Some(old(self).next_session_id)
                    &&& s.project_id == project_id
                    &&& s.start_time == start_time
                    &&& s.end_time is None
                    &&& s.description == description
                    &&& final(self).sessions@ == old(self).sessions@.push(
                        final(self).sessions@.last(),
                    )
                    &&& final(self).sessions@.last().id == old(self).next_session_id
                    &&& final(self).sessions@.last().project_id == project_id
                    &&& is_active_row(final(self).sessions@.last())
                    &&& row_ok(final(self).sessions@.last())
                    &&& row_view(final(self).sessions@.last()) == sess_view(s)
                    &&& final(self).next_session_id == old(self).next_session_id + 1
                    &&& final(self).projects@ == old(self).projects@
                    &&& final(self).next_project_id == old(self).next_project_id
                },
                Err(e) => {
                    &&& *final(self) == *old(self)
                    &&& (e == StoreError::ConstraintViolation <==> !has_project(
                        old(self).projects@,
                        project_id as int,
                    ))
                    &&& (e == StoreError::StorageFailure ==> old(self).next_session_id
                        == i64::MAX)
                    &&& (e == StoreError::ConstraintViolation || e == StoreError::StorageFailure)
                },
            },
            old(self).wf() ==> final(self).wf(),
    {
        self.insert_session(project_id, start_time, None, description)
    }

    /// Starts a session at the current wall-clock time. Like the raw
    /// storage insert, it does not check the single-active-session rule.
    pub fn create_study_session(&mut self, project_id: i64, description: Option<String>) -> (r:
        Result<StudySession, StoreError>)
        ensures
            match r {
                Ok(s) => {
                    &&& has_project(old(self).projects@, project_id as int)
                    &&& old(self).next_session_id < i64::MAX
                    &&& s.id == Some(old(self).next_session_id)
                    &&& s.project_id == project_id
                    &&& valid_ts(s.start_time)
                    &&& s.end_time is None
                    &&& s.description == description
                    &&& final(self).sessions@ == old(self).sessions@.push(
                        final(self).sessions@.last(),
                    )
                    &&& final(self).sessions@.last().id == old(self).next_session_id
                    &&& final(self).sessions@.last().project_id == project_id
                    &&& is_active_row(final(self).sessions@.last())
                    &&& row_ok(final(self).sessions@.last())
                    &&& row_view(final(self).sessions@.last()) == sess_view(s)
                    &&& final(self).next_session_id == old(self).next_session_id + 1
                    &&& final(self).projects@ == old(self).projects@
                    &&& final(self).next_project_id == old(self).next_project_id
                },
                Err(e) => {
                    &&& *final(self) == *old(self)
                    &&& (e == StoreError::ConstraintViolation ==> !has_project(
                        old(self).projects@,
                        project_id as int,
                    ))
                    &&& (e == StoreError::ConstraintViolation || e == StoreError::StorageFailure)
                },
            },
            old(self).wf() ==> final(self).wf(),
    {
        let t = now_timestamp();
        if t < 0 || t > MAX_TIMESTAMP {
            return Err(StoreError::StorageFailure);
        }
        self.start_session_at(project_id, t, description)
    }

    /// The session-start rule at a given instant: refuses with `Conflict`
    /// while some session is active, otherwise starts a new session, which
    /// is active. Succeeds exactly when no session is active, the project
    /// exists and the id space is not exhausted.
    pub fn clock_in_at(
        &mut self,
        project_id: i64,
        start_time: i64,
        description: Option<String>,
    ) -> (r: Result<StudySession, StoreError>)
        requires
            valid_ts(start_time),
        ensures
            match r {
                Ok(s) => {
                    &&& !has_active(old(self).sessions@)
                    &&& has_project(old(self).projects@, project_id as int)
                    &&& old(self).next_session_id < i64::MAX
                    &&& s.id == Some(old(self).next_session_id)
                    &&& s.project_id == project_id
                    &&& s.start_time == start_time
                    &&& s.end_time is None
                    &&& s.description == description
                    &&& final(self).sessions@ == old(self).sessions@.push(
                        final(self).sessions@.last(),
                    )
                    &&& final(self).sessions@.last().id == old(self).next_session_id
                    &&& final(self).sessions@.last().project_id == project_id
                    &&& is_active_row(final(self).sessions@.last())
                    &&& row_ok(final(self).sessions@.last())
                    &&& row_view(final(self).sessions@.last()) == sess_view(s)
                    &&& final(self).next_session_id == old(self).next_session_id + 1
                    &&& final(self).projects@ == old(self).projects@
                    &&& final(self).next_project_id == old(self).next_project_id
                },
                Err(e) => {
                    &&& *final(self) == *old(self)
                    &&& (e == StoreError::Conflict <==> has_active(old(self).sessions@))
                    &&& (e == StoreError::ConstraintViolation <==> !has_active(old(self).sessions@)
                        && !has_project(old(self).projects@, project_id as int))
                    &&& (e == StoreError::StorageFailure ==> old(self).next_session_id
                        == i64::MAX)
                    &&& (e == StoreError::Conflict || e == StoreError::ConstraintViolation
                        || e == StoreError::StorageFailure)
                },
            },
            (!has_active(old(self).sessions@) && has_project(old(self).projects@, project_id as int)
                && old(self).next_session_id < i64::MAX) ==> r is Ok,
            old(self).wf() ==> final(self).wf(),
    {
        if self.has_active_session() {
            return Err(StoreError::Conflict);
        }
        self.start_session_at(project_id, start_time, description)
    }

    /// Clock-in: starts a session for the project at the current time,
    /// refusing with `Conflict` while another session is active.
    pub fn clock_in(&mut self, project_id: i64, description: Option<String>) -> (r: Result<
        StudySession,
        StoreError,
    >)
        ensures
            match r {
                Ok(s) => {
                    &&& !has_active(old(self).sessions@)
                    &&& has_project(old(self).projects@, project_id as int)
                    &&& old(self).next_session_id < i64::MAX
                    &&& s.id == Some(old(self).next_session_id)
                    &&& s.project_id == project_id
                    &&& valid_ts(s.start_time)
                    &&& s.end_time is None
                    &&& s.description == description
                    &&& final(self).sessions@ == old(self).sessions@.push(
                        final(self).sessions@.last(),
                    )
                    &&& final(self).sessions@.last().id == old(self).next_session_id
                    &&& final(self).sessions@.last().project_id == project_id
                    &&& is_active_row(final(self).sessions@.last())
                    &&& row_ok(final(self).sessions@.last())
                    &&& row_view(final(self).sessions@.last()) == sess_view(s)
                    &&& final(self).next_session_id == old(self).next_session_id + 1
                    &&& final(self).projects@ == old(self).projects@
                    &&& final(self).next_project_id == old(self).next_project_id
                },
                Err(e) => {
                    &&& *final(self) == *old(self)
                    &&& (e == StoreError::Conflict <==> has_active(old(self).sessions@))
                    &&& (e == StoreError::ConstraintViolation ==> !has_project(
                        old(self).projects@,
                        project_id as int,
                    ))
                    &&& (e == StoreError::Conflict || e == StoreError::ConstraintViolation
                        || e == StoreError::StorageFailure)
                },
            },
            old(self).wf() ==> final(self).wf(),
    {
        if self.has_active_session() {
            return Err(StoreError::Conflict);
        }
        self.create_study_session(project_id, description)
    }

    /// Inserts a fully specified session; both timestamps are supplied, so
    /// the new session is closed. No active-session check applies.
    pub fn add_manual_study_session(&mut self, data: &ManualStudySession) -> (r: Result<
        StudySession,
        StoreError,
    >)
        requires
            valid_ts(data.start_time),
            valid_ts(data.end_time),
        ensures
            match r {
                Ok(s) => {
                    &&& has_project(old(self).projects@, data.project_id as int)
                    &&& old(self).next_session_id < i64::MAX
                    &&& s.id == Some(old(self).next_session_id)
                    &&& s.project_id == data.project_id
                    &&& s.start_time == data.start_time
                    &&& s.end_time == Some(data.end_time)
                    &&& s.description == data.description
                    &&& final(self).sessions@ == old(self).sessions@.push(
                        final(self).sessions@.last(),
                    )
                    &&& final(self).sessions@.last().id == old(self).next_session_id
                    &&& final(self).sessions@.last().project_id == data.project_id
                    &&& row_ok(final(self).sessions@.last())
                    &&& row_view(final(self).sessions@.last()) == sess_view(s)
                    &&& final(self).next_session_id == old(self).next_session_id + 1
                    &&& final(self).projects@ == old(self).projects@
                    &&& final(self).next_project_id == old(self).next_project_id
                },
                Err(e) => {
                    &&& *final(self) == *old(self)
                    &&& (e == StoreError::ConstraintViolation <==> !has_project(
                        old(self).projects@,
                        data.project_id as int,
                    ))
                    &&& (e == StoreError::StorageFailure ==> old(self).next_session_id
                        == i64::MAX)
                    &&& (e == StoreError::ConstraintViolation || e == StoreError::StorageFailure)
                },
            },
            old(self).wf() ==> final(self).wf(),
    {
        self.insert_session(
            data.project_id,
            data.start_time,
            Some(data.end_time),
            clone_opt_string(&data.description),
        )
    }

    /// Clock-out at a given instant: sets the end time of the session with
    /// this id, only if it is still active; reports how many rows changed
    /// (0 = not found or already closed).
    pub fn clock_out_at(&mut self, session_id: i64, end_time: i64) -> (r: usize)
        requires
            valid_ts(end_time),
        ensures
            ({
                let ci = find_clockable_idx(old(self).sessions@, session_id as int);
                &&& (r == 0 <==> ci < 0)
                &&& (ci < 0 ==> *final(self) == *old(self))
                &&& (ci >= 0 ==> {
                    &&& r == 1
                    &&& final(self).sessions@ == old(self).sessions@.update(
                        ci,
                        final(self).sessions@[ci],
                    )
                    &&& final(self).sessions@[ci].id == old(self).sessions@[ci].id
                    &&& final(self).sessions@[ci].project_id == old(self).sessions@[ci].project_id
                    &&& final(self).sessions@[ci].start_time == old(self).sessions@[ci].start_time
                    &&& final(self).sessions@[ci].description == old(self).sessions@[ci].description
                    &&& final(self).sessions@[ci].end_time matches Some(e) && parsed_rfc3339(e@)
                        == Some(end_time as int)
                    &&& final(self).projects@ == old(self).projects@
                    &&& final(self).next_project_id == old(self).next_project_id
                    &&& final(self).next_session_id == old(self).next_session_id
                })
            }),
            old(self).wf() ==> final(self).wf(),
    {
        let n = self.sessions.len();
        let mut i: usize = 0;
        while i < n
            invariant
                n == self.sessions@.len(),
                i <= n,
                *self == *old(self),
                valid_ts(end_time),
                forall|j: int|
                    0 <= j < i ==> !((#[trigger] self.sessions@[j]).id == session_id
                        && is_active_row(self.sessions@[j])),
            decreases n - i,
        {
            if self.sessions[i].id == session_id && self.sessions[i].end_time.is_none() {
                proof {
                    lemma_find_clockable_idx_at(self.sessions@, session_id as int, i as int);
                }
                let row = &self.sessions[i];
                let new_row = SessionRow {
                    id: row.id,
                    project_id: row.project_id,
                    start_time: row.start_time.clone(),
                    end_time: Some(fmt_rfc3339(end_time)),
                    description: clone_opt_string(&row.description),
                };
                self.sessions.set(i, new_row);
                proof {
                    assert forall|a: int| 0 <= a < self.sessions@.len() implies (#[trigger] self
                        .sessions@[a]).id == old(self).sessions@[a].id by {}
                }
                return 1;
            }
            i += 1;
        }
        proof {
            lemma_find_clockable_idx(self.sessions@, session_id as int);
        }
        0
    }

    /// Clock-out at the current wall-clock time.
    pub fn clock_out_study_session(&mut self, session_id: i64) -> (r: Result<usize, StoreError>)
        ensures
            match r {
                Ok(c) => ({
                    let ci = find_clockable_idx(old(self).sessions@, session_id as int);
                    &&& (c == 0 <==> ci < 0)
                    &&& (ci < 0 ==> *final(self) == *old(self))
                    &&& (ci >= 0 ==> {
                        &&& c == 1
                        &&& final(self).sessions@ == old(self).sessions@.update(
                            ci,
                            final(self).sessions@[ci],
                        )
                        &&& final(self).sessions@[ci].id == old(self).sessions@[ci].id
                        &&& final(self).sessions@[ci].project_id == old(
                            self,
                        ).sessions@[ci].project_id
                        &&& final(self).sessions@[ci].start_time == old(
                            self,
                        ).sessions@[ci].start_time
                        &&& final(self).sessions@[ci].description == old(
                            self,
                        ).sessions@[ci].description
                        &&& final(self).sessions@[ci].end_time matches Some(e) && (
                        parsed_rfc3339(e@) matches Some(t) && 0 <= t <= MAX_TIMESTAMP as int)
                        &&& final(self).projects@ == old(self).projects@
                        &&& final(self).next_project_id == old(self).next_project_id
                        &&& final(self).next_session_id == old(self).next_session_id
                    })
                }),
                Err(e) => e == StoreError::StorageFailure && *final(self) == *old(self),
            },
            old(self).wf() ==> final(self).wf(),
    {
        let t = now_timestamp();
        if t < 0 || t > MAX_TIMESTAMP {
            return Err(StoreError::StorageFailure);
        }
        Ok(self.clock_out_at(session_id, t))
    }

    /// Looks a session up by id; corrupt stored timestamp text is reported
    /// as `StorageFailure` instead of a value.
    pub fn get_study_session(&self, session_id: i64) -> (r: Result<Option<StudySession>, StoreError>)
        ensures
            ({
                let i = find_session_idx(self.sessions@, session_id as int);
                match r {
                    Ok(Some(s)) => i >= 0 && row_ok(self.sessions@[i]) && sess_view(s) == row_view(
                        self.sessions@[i],
                    ),
                    Ok(None) => i < 0,
                    Err(e) => e == StoreError::StorageFailure && i >= 0 && !row_ok(
                        self.sessions@[i],
                    ),
                }
            }),
    {
        match self.session_pos(session_id) {
            Some(i) => {
                proof {
                    lemma_find_session_idx(self.sessions@, session_id as int);
                }
                match row_to_session(&self.sessions[i]) {
                    Ok(s) => Ok(Some(s)),
                    Err(e) => Err(e),
                }
            },
            None => Ok(None),
        }
    }

    /// Deletes a session by id; reports how many rows went away
    /// (0 = not found).
    pub fn delete_study_session(&mut self, session_id: i64) -> (r: usize)
        ensures
            final(self).sessions@ == sessions_without(old(self).sessions@, session_id as int),
            r as int == old(self).sessions@.len() - final(self).sessions@.len(),
            (r == 0 <==> find_session_idx(old(self).sessions@, session_id as int) < 0),
            final(self).projects@ == old(self).projects@,
            final(self).next_project_id == old(self).next_project_id,
            final(self).next_session_id == old(self).next_session_id,
            old(self).wf() ==> final(self).wf(),
    {
        let ghost orig = *self;
        let m = self.sessions.len();
        let mut kept: Vec<SessionRow> = Vec::new();
        let mut k: usize = 0;
        while k < m
            invariant
                m == self.sessions@.len(),
                k <= m,
                kept@ == sessions_without(self.sessions@.take(k as int), session_id as int),
            decreases m - k,
        {
            proof {
                assert(self.sessions@.take(k as int + 1).drop_last() =~= self.sessions@.take(
                    k as int,
                ));
                assert(self.sessions@.take(k as int + 1).last() == self.sessions@[k as int]);
            }
            if self.sessions[k].id != session_id {
                kept.push(self.sessions[k].clone());
            }
            k += 1;
        }
        proof {
            assert(self.sessions@.take(m as int) =~= self.sessions@);
            lemma_sessions_without(self.sessions@, session_id as int);
        }
        let removed = m - kept.len();
        self.sessions = kept;
        proof {
            lemma_find_session_idx(orig.sessions@, session_id as int);
            if find_session_idx(orig.sessions@, session_id as int) >= 0 {
                let fi = find_session_idx(orig.sessions@, session_id as int);
                assert(orig.sessions@[fi].id == session_id);
            }
            if orig.wf() {
                assert forall|a: int|
                    0 <= a < self.sessions@.len() implies 1 <= (#[trigger] self.sessions@[a]).id
                    < self.next_session_id by {
                    let j = choose|j: int|
                        0 <= j < orig.sessions@.len() && self.sessions@[a] == orig.sessions@[j];
                    assert(1 <= orig.sessions@[j].id < orig.next_session_id);
                }
            }
        }
        removed
    }

    /// Rewrites a session by id from a fully specified payload; reports how
    /// many rows changed (0 = not found). Fails with `ConstraintViolation`
    /// exactly when the row exists and the new project id does not.
    pub fn update_study_session(&mut self, session_id: i64, data: &ManualStudySession) -> (r:
        Result<usize, StoreError>)
        requires
            valid_ts(data.start_time),
            valid_ts(data.end_time),
        ensures
            ({
                let i = find_session_idx(old(self).sessions@, session_id as int);
                match r {
                    Ok(n) => if n == 0 {
                        &&& i < 0
                        &&& *final(self) == *old(self)
                    } else {
                        &&& n == 1
                        &&& i >= 0
                        &&& has_project(old(self).projects@, data.project_id as int)
                        &&& final(self).sessions@ == old(self).sessions@.update(
                            i,
                            final(self).sessions@[i],
                        )
                        &&& final(self).sessions@[i].id == old(self).sessions@[i].id
                        &&& row_ok(final(self).sessions@[i])
                        &&& row_view(final(self).sessions@[i]) == (SessionView {
                            id: Some(old(self).sessions@[i].id as int),
                            project_id: data.project_id as int,
                            start_time: data.start_time as int,
                            end_time: Some(data.end_time as int),
                            description: opt_str_view(data.description),
                        })
                        &&& final(self).projects@ == old(self).projects@
                        &&& final(self).next_project_id == old(self).next_project_id
                        &&& final(self).next_session_id == old(self).next_session_id
                    },
                    Err(e) => {
                        &&& *final(self) == *old(self)
                        &&& e == StoreError::ConstraintViolation
                        &&& i >= 0
                        &&& !has_project(old(self).projects@, data.project_id as int)
                    },
                }
            }),
            old(self).wf() ==> final(self).wf(),
    {
        let pos = match self.session_pos(session_id) {
            Some(i) => i,
            None => {
                return Ok(0);
            },
        };
        proof {
            lemma_find_session_idx(self.sessions@, session_id as int);
        }
        if self.project_pos(data.project_id).is_none() {
            return Err(StoreError::ConstraintViolation);
        }
        let old_id = self.sessions[pos].id;
        let new_row = SessionRow {
            id: old_id,
            project_id: data.project_id,
            start_time: fmt_rfc3339(data.start_time),
            end_time: Some(fmt_rfc3339(data.end_time)),
            description: clone_opt_string(&data.description),
        };
        self.sessions.set(pos, new_row);
        proof {
            assert forall|a: int| 0 <= a < self.sessions@.len() implies (#[trigger] self
                .sessions@[a]).id == old(self).sessions@[a].id by {}
        }
        Ok(1)
    }

    /// The single active session, if any: the one with no end time, most
    /// recent by start time should more than one somehow exist.
    pub fn get_active_study_session(&self) -> (r: Result<Option<StudySession>, StoreError>)
        ensures
            match r {
                Ok(None) => !has_active(self.sessions@),
                Ok(Some(s)) => {
                    &&& all_active_ok(self.sessions@)
                    &&& s.end_time is None
                    &&& exists|i: int|
                        0 <= i < self.sessions@.len() && is_active_row(#[trigger] self.sessions@[i])
                            && sess_view(s) == row_view(self.sessions@[i])
                    &&& forall|j: int|
                        0 <= j < self.sessions@.len() && is_active_row(#[trigger] self.sessions@[j])
                            ==> row_view(self.sessions@[j]).start_time <= s.start_time as int
                },
                Err(e) => e == StoreError::StorageFailure && !all_active_ok(self.sessions@),
            },
    {
        let n = self.sessions.len();
        let mut best: Option<(usize, i64)> = None;
        let mut i: usize = 0;
        while i < n
            invariant
                n == self.sessions@.len(),
                i <= n,
                forall|j: int|
                    0 <= j < i && is_active_row(#[trigger] self.sessions@[j]) ==> row_ok(
                        self.sessions@[j],
                    ),
                match best {
                    None => forall|j: int| 0 <= j < i ==> !is_active_row(#[trigger] self.sessions@[j]),
                    Some((bi, bt)) => {
                        &&& bi < i
                        &&& is_active_row(self.sessions@[bi as int])
                        &&& row_ok(self.sessions@[bi as int])
                        &&& row_view(self.sessions@[bi as int]).start_time == bt as int
                        &&& forall|j: int|
                            0 <= j < i && is_active_row(#[trigger] self.sessions@[j]) ==> row_view(
                                self.sessions@[j],
                            ).start_time <= bt as int
                    },
                },
            decreases n - i,
        {
            if self.sessions[i].end_time.is_none() {
                match parse_rfc3339(self.sessions[i].start_time.as_str()) {
                    Some(t) => {
                        let better = match best {
                            None => true,
                            Some((_, bt)) => t > bt,
                        };
                        if better {
                            best = Some((i, t));
                        }
                    },
                    None => {
                        return Err(StoreError::StorageFailure);
                    },
                }
            }
            i += 1;
        }
        match best {
            Some((bi, _)) => {
                match row_to_session(&self.sessions[bi]) {
                    Ok(s) => Ok(Some(s)),
                    Err(e) => {
                        proof {
                            assert(false);
                        }
                        Err(e)
                    },
                }
            },
            None => Ok(None),
        }
    }
}

proof fn lemma_multiset_transfer<V>(out0: Multiset<V>, in0: Multiset<V>, m: V)
    requires
        in0.count(m) > 0,
    ensures
        out0.insert(m).add(in0.remove(m)) == out0.add(in0),
{
    assert(out0.insert(m).add(in0.remove(m)) =~= out0.add(in0));
}

impl Store {
    fn collect_sessions(&self, pid: Option<i64>) -> (r: Result<Vec<StudySession>, StoreError>)
        ensures
            match r {
                Ok(v) => {
                    &&& sel_all_ok(self.sessions@, opt_i64_view(pid))
                    &&& views_of(v@) == row_views(
                        selected_sessions(self.sessions@, opt_i64_view(pid)),
                    )
                },
                Err(e) => e == StoreError::StorageFailure && !sel_all_ok(
                    self.sessions@,
                    opt_i64_view(pid),
                ),
            },
    {
        let n = self.sessions.len();
        let mut out: Vec<StudySession> = Vec::new();
        let mut i: usize = 0;
        while i < n
            invariant
                n == self.sessions@.len(),
                i <= n,
                views_of(out@) == row_views(
                    selected_sessions(self.sessions@.take(i as int), opt_i64_view(pid)),
                ),
                forall|j: int|
                    0 <= j < i && sel_match(#[trigger] self.sessions@[j], opt_i64_view(pid))
                        ==> row_ok(self.sessions@[j]),
            decreases n - i,
        {
            proof {
                lemma_selected_take_step(self.sessions@, opt_i64_view(pid), i as int);
            }
            let picked = match pid {
                Some(p) => self.sessions[i].project_id == p,
                None => true,
            };
            if picked {
                match row_to_session(&self.sessions[i]) {
                    Ok(s) => {
                        proof {
                            lemma_views_of_push(out@, s);
                            lemma_row_views_push(
                                selected_sessions(self.sessions@.take(i as int), opt_i64_view(pid)),
                                self.sessions@[i as int],
                            );
                        }
                        out.push(s);
                    },
                    Err(_) => {
                        return Err(StoreError::StorageFailure);
                    },
                }
            }
            i += 1;
        }
        proof {
            assert(self.sessions@.take(n as int) =~= self.sessions@);
        }
        Ok(out)
    }

    fn sort_sessions_desc(v: Vec<StudySession>) -> (r: Vec<StudySession>)
        ensures
            views_of(r@).to_multiset() == views_of(v@).to_multiset(),
            forall|a: int, b: int|
                0 <= a < b < r@.len() ==> (#[trigger] r@[a]).start_time >= (#[trigger] r@[b]).start_time,
    {
        let mut input = v;
        let mut out: Vec<StudySession> = Vec::new();
        let ghost total = views_of(v@).to_multiset();
        while input.len() > 0
            invariant
                total == views_of(v@).to_multiset(),
                views_of(out@).to_multiset().add(views_of(input@).to_multiset()) == total,
                forall|a: int, b: int|
                    0 <= a < b < out@.len() ==> (#[trigger] out@[a]).start_time
                        >= (#[trigger] out@[b]).start_time,
                forall|a: int, j: int|
                    0 <= a < out@.len() && 0 <= j < input@.len() ==> (#[trigger] out@[a]).start_time
                        >= (#[trigger] input@[j]).start_time,
            decreases input.len(),
        {
            let mut mi: usize = 0;
            let mut k: usize = 1;
            while k < input.len()
                invariant
                    input@.len() > 0,
                    mi < input@.len(),
                    k <= input@.len(),
                    forall|j: int|
                        0 <= j < k ==> (#[trigger] input@[j]).start_time
                            <= input@[mi as int].start_time,
                decreases input@.len() - k,
            {
                if input[k].start_time > input[mi].start_time {
                    mi = k;
                }
                k += 1;
            }
            let ghost in0 = input@;
            let ghost out0 = out@;
            let x = input.remove(mi);
            out.push(x);
            proof {
                lemma_views_of_remove(in0, mi as int);
                lemma_views_of_push(out0, x);
                assert(views_of(in0).contains(views_of(in0)[mi as int]));
                lemma_multiset_transfer(
                    views_of(out0).to_multiset(),
                    views_of(in0).to_multiset(),
                    sess_view(x),
                );
            }
        }
        proof {
            assert(views_of(input@) =~= Seq::<SessionView>::empty());
            assert(views_of(out@).to_multiset() =~= total) by {
                assert forall|e: SessionView|
                    views_of(input@).to_multiset().count(e) == 0 by {
                    if views_of(input@).to_multiset().count(e) > 0 {
                        assert(views_of(input@).contains(e));
                    }
                }
            }
        }
        out
    }

    /// All sessions, ordered by start time descending. Corrupt stored
    /// timestamp text is reported as `StorageFailure`.
    pub fn get_all_study_sessions(&self) -> (r: Result<Vec<StudySession>, StoreError>)
        ensures
            match r {
                Ok(v) => {
                    &&& sel_all_ok(self.sessions@, None)
                    &&& views_of(v@).to_multiset() == row_views(self.sessions@).to_multiset()
                    &&& forall|a: int, b: int|
                        0 <= a < b < v@.len() ==> (#[trigger] v@[a]).start_time
                            >= (#[trigger] v@[b]).start_time
                },
                Err(e) => e == StoreError::StorageFailure && !sel_all_ok(self.sessions@, None),
            },
    {
        let collected = match self.collect_sessions(None) {
            Ok(c) => c,
            Err(e) => {
                return Err(e);
            },
        };
        proof {
            lemma_selected_all(self.sessions@);
        }
        Ok(Self::sort_sessions_desc(collected))
    }

    /// One project's sessions, ordered by start time descending. Corrupt
    /// stored timestamp text is reported as `StorageFailure`.
    pub fn get_study_sessions_for_project(&self, project_id: i64) -> (r: Result<
        Vec<StudySession>,
        StoreError,
    >)
        ensures
            match r {
                Ok(v) => {
                    &&& sel_all_ok(self.sessions@, Some(project_id as int))
                    &&& views_of(v@).to_multiset() == row_views(
                        selected_sessions(self.sessions@, Some(project_id as int)),
                    ).to_multiset()
                    &&& forall|a: int, b: int|
                        0 <= a < b < v@.len() ==> (#[trigger] v@[a]).start_time
                            >= (#[trigger] v@[b]).start_time
                    &&& forall|a: int|
                        0 <= a < v@.len() ==> (#[trigger] v@[a]).project_id == project_id
                },
                Err(e) => e == StoreError::StorageFailure && !sel_all_ok(
                    self.sessions@,
                    Some(project_id as int),
                ),
            },
    {
        let collected = match self.collect_sessions(Some(project_id)) {
            Ok(c) => c,
            Err(e) => {
                return Err(e);
            },
        };
        let sorted = Self::sort_sessions_desc(collected);
        proof {
            let sel = selected_sessions(self.sessions@, Some(project_id as int));
            lemma_selected_pids(self.sessions@, project_id as int);
            assert forall|a: int| 0 <= a < sorted@.len() implies (#[trigger] sorted@[a]).project_id
                == project_id by {
                assert(views_of(sorted@).contains(views_of(sorted@)[a]));
                assert(views_of(sorted@).to_multiset().count(views_of(sorted@)[a]) > 0);
                assert(row_views(sel).to_multiset().count(views_of(sorted@)[a]) > 0);
                assert(row_views(sel).contains(views_of(sorted@)[a]));
                let w = choose|w: int|
                    0 <= w < row_views(sel).len() && row_views(sel)[w] == views_of(sorted@)[a];
                assert(row_views(sel)[w].project_id == project_id as int);
            }
        }
        Ok(sorted)
    }
}

proof fn lemma_selected_pids(s: Seq<SessionRow>, pid: int)
    ensures
        forall|k: int| 0 <= k < selected_sessions(s, Some(pid)).len()
            ==> (#[trigger] selected_sessions(s, Some(pid))[k]).project_id == pid,
    decreases s.len(),
{
    if s.len() > 0 {
        lemma_selected_pids(s.drop_last(), pid);
    }
}

/// Lexicographic order on text, by Unicode code point: the order the
/// canonical textual store sorts names by.
pub open spec fn lex_leq(a: Seq<char>, b: Seq<char>) -> bool
    decreases a.len(),
{
    if a.len() == 0 {
        true
    } else if b.len() == 0 {
        false
    } else if (a[0] as u32) < (b[0] as u32) {
        true
    } else if (a[0] as u32) > (b[0] as u32) {
        false
    } else {
        lex_leq(a.drop_first(), b.drop_first())
    }
}

pub proof fn lemma_lex_refl(a: Seq<char>)
    ensures
        lex_leq(a, a),
    decreases a.len(),
{
    if a.len() > 0 {
        lemma_lex_refl(a.drop_first());
    }
}

pub proof fn lemma_lex_total(a: Seq<char>, b: Seq<char>)
    ensures
        lex_leq(a, b) || lex_leq(b, a),
    decreases a.len(),
{
    if a.len() > 0 && b.len() > 0 && (a[0] as u32) == (b[0] as u32) {
        lemma_lex_total(a.drop_first(), b.drop_first());
    }
}

pub proof fn lemma_lex_trans(a: Seq<char>, b: Seq<char>, c: Seq<char>)
    requires
        lex_leq(a, b),
        lex_leq(b, c),
    ensures
        lex_leq(a, c),
    decreases a.len(),
{
    if a.len() > 0 && b.len() > 0 && c.len() > 0 && (a[0] as u32) == (b[0] as u32)
        && (b[0] as u32) == (c[0] as u32) {
        lemma_lex_trans(a.drop_first(), b.drop_first(), c.drop_first());
    }
}

proof fn lemma_lex_skip(a: Seq<char>, b: Seq<char>, i: int)
    requires
        0 <= i <= a.len(),
        i <= b.len(),
        forall|j: int| 0 <= j < i ==> a[j] == #[trigger] b[j],
    ensures
        lex_leq(a, b) == lex_leq(a.skip(i), b.skip(i)),
    decreases i,
{
    if i == 0 {
        assert(a.skip(0) =~= a);
        assert(b.skip(0) =~= b);
    } else {
        assert(a[0] == b[0]);
        assert(a.drop_first() =~= a.skip(1));
        assert(b.drop_first() =~= b.skip(1));
        assert forall|j: int| 0 <= j < i - 1 implies a.drop_first()[j] == #[trigger] b
            .drop_first()[j] by {
            assert(b.drop_first()[j] == b[j + 1]);
            assert(a.drop_first()[j] == a[j + 1]);
        }
        lemma_lex_skip(a.drop_first(), b.drop_first(), i - 1);
        assert(a.drop_first().skip(i - 1) =~= a.skip(i));
        assert(b.drop_first().skip(i - 1) =~= b.skip(i));
    }
}

/// Whether one name sorts at or before another, as the store orders them.
fn name_leq(a: &String, b: &String) -> (r: bool)
    ensures
        r == lex_leq(a@, b@),
{
    let alen = a.as_str().unicode_len();
    let blen = b.as_str().unicode_len();
    let mut i: usize = 0;
    while i < alen && i < blen
        invariant
            alen == a@.len(),
            blen == b@.len(),
            i <= alen,
            i <= blen,
            forall|j: int| 0 <= j < i ==> a@[j] == #[trigger] b@[j],
        decreases alen - i,
    {
        let ca = a.as_str().get_char(i);
        let cb = b.as_str().get_char(i);
        if (ca as u32) < (cb as u32) {
            proof {
                lemma_lex_skip(a@, b@, i as int);
                assert(a@.skip(i as int)[0] == a@[i as int]);
                assert(b@.skip(i as int)[0] == b@[i as int]);
            }
            return true;
        }
        if (ca as u32) > (cb as u32) {
            proof {
                lemma_lex_skip(a@, b@, i as int);
                assert(a@.skip(i as int)[0] == a@[i as int]);
                assert(b@.skip(i as int)[0] == b@[i as int]);
            }
            return false;
        }
        proof {
            assert(a@[i as int] == b@[i as int]);
        }
        i += 1;
    }
    proof {
        lemma_lex_skip(a@, b@, i as int);
    }
    if i < blen {
        // a is exhausted and is a prefix of b
        proof {
            assert(a@.skip(i as int).len() == 0);
        }
        true
    } else {
        // b is exhausted; a sorts after b unless they are equal
        proof {
            assert(b@.skip(i as int).len() == 0);
        }
        i >= alen
    }
}

/// An abstract project: what a stored row or a returned value denotes.
pub ghost struct ProjectView {
    pub id: Option<int>,
    pub name: Seq<char>,
}

pub open spec fn proj_view(p: Project) -> ProjectView {
    ProjectView { id: opt_i64_view(p.id), name: p.name@ }
}

pub open spec fn prow_view(r: ProjectRow) -> ProjectView {
    ProjectView { id: Some(r.id as int), name: r.name@ }
}

/// Views of a sequence of project values.
pub open spec fn proj_views(v: Seq<Project>) -> Seq<ProjectView> {
    v.map_values(|p: Project| proj_view(p))
}

/// Views of a sequence of stored project rows.
pub open spec fn prow_views(s: Seq<ProjectRow>) -> Seq<ProjectView> {
    s.map_values(|r: ProjectRow| prow_view(r))
}

proof fn lemma_proj_views_push(v: Seq<Project>, x: Project)
    ensures
        proj_views(v.push(x)) == proj_views(v).push(proj_view(x)),
{
    assert(proj_views(v.push(x)) =~= proj_views(v).push(proj_view(x)));
}

proof fn lemma_proj_views_remove(v: Seq<Project>, i: int)
    requires
        0 <= i < v.len(),
    ensures
        proj_views(v.remove(i)) == proj_views(v).remove(i),
{
    assert(proj_views(v.remove(i)) =~= proj_views(v).remove(i));
}

proof fn lemma_prow_views_push(s: Seq<ProjectRow>, r: ProjectRow)
    ensures
        prow_views(s.push(r)) == prow_views(s).push(prow_view(r)),
{
    assert(prow_views(s.push(r)) =~= prow_views(s).push(prow_view(r)));
}

impl Store {
    fn sort_projects_by_name(v: Vec<Project>) -> (r: Vec<Project>)
        ensures
            proj_views(r@).to_multiset() == proj_views(v@).to_multiset(),
            forall|a: int, b: int|
                0 <= a < b < r@.len() ==> lex_leq(
                    (#[trigger] r@[a]).name@,
                    (#[trigger] r@[b]).name@,
                ),
    {
        let mut input = v;
        let mut out: Vec<Project> = Vec::new();
        let ghost total = proj_views(v@).to_multiset();
        while input.len() > 0
            invariant
                total == proj_views(v@).to_multiset(),
                proj_views(out@).to_multiset().add(proj_views(input@).to_multiset()) == total,
                forall|a: int, b: int|
                    0 <= a < b < out@.len() ==> lex_leq(
                        (#[trigger] out@[a]).name@,
                        (#[trigger] out@[b]).name@,
                    ),
                forall|a: int, j: int|
                    0 <= a < out@.len() && 0 <= j < input@.len() ==> lex_leq(
                        (#[trigger] out@[a]).name@,
                        (#[trigger] input@[j]).name@,
                    ),
            decreases input.len(),
        {
            let mut mi: usize = 0;
            let mut k: usize = 1;
            proof {
                lemma_lex_refl(input@[0].name@);
            }
            while k < input.len()
                invariant
                    input@.len() > 0,
                    mi < input@.len(),
                    k <= input@.len(),
                    forall|j: int|
                        0 <= j < k ==> lex_leq(
                            input@[mi as int].name@,
                            (#[trigger] input@[j]).name@,
                        ),
                decreases input@.len() - k,
            {
                if !name_leq(&input[mi].name, &input[k].name) {
                    proof {
                        lemma_lex_total(input@[mi as int].name@, input@[k as int].name@);
                        lemma_lex_refl(input@[k as int].name@);
                        assert forall|j: int| 0 <= j < k + 1 implies lex_leq(
                            input@[k as int].name@,
                            (#[trigger] input@[j]).name@,
                        ) by {
                            if j < k {
                                lemma_lex_trans(
                                    input@[k as int].name@,
                                    input@[mi as int].name@,
                                    input@[j].name@,
                                );
                            }
                        }
                    }
                    mi = k;
                }
                k += 1;
            }
            let ghost in0 = input@;
            let ghost out0 = out@;
            let x = input.remove(mi);
            out.push(x);
            proof {
                lemma_proj_views_remove(in0, mi as int);
                lemma_proj_views_push(out0, x);
                assert(proj_views(in0).contains(proj_views(in0)[mi as int]));
                lemma_multiset_transfer(
                    proj_views(out0).to_multiset(),
                    proj_views(in0).to_multiset(),
                    proj_view(x),
                );
            }
        }
        proof {
            assert(proj_views(input@) =~= Seq::<ProjectView>::empty());
            assert(proj_views(out@).to_multiset() =~= total) by {
                assert forall|e: ProjectView|
                    proj_views(input@).to_multiset().count(e) == 0 by {
                    if proj_views(input@).to_multiset().count(e) > 0 {
                        assert(proj_views(input@).contains(e));
                    }
                }
            }
        }
        out
    }

    /// All projects, ordered by name ascending.
    pub fn get_all_projects(&self) -> (r: Vec<Project>)
        ensures
            r@.len() == self.projects@.len(),
            proj_views(r@).to_multiset() == prow_views(self.projects@).to_multiset(),
            forall|a: int, b: int|
                0 <= a < b < r@.len() ==> lex_leq(
                    (#[trigger] r@[a]).name@,
                    (#[trigger] r@[b]).name@,
                ),
    {
        let n = self.projects.len();
        let mut out: Vec<Project> = Vec::new();
        let mut i: usize = 0;
        while i < n
            invariant
                n == self.projects@.len(),
                i <= n,
                out@.len() == i,
                proj_views(out@) == prow_views(self.projects@.take(i as int)),
            decreases n - i,
        {
            proof {
                assert(self.projects@.take(i as int + 1).drop_last() =~= self.projects@.take(
                    i as int,
                ));
                assert(self.projects@.take(i as int + 1) =~= self.projects@.take(i as int).push(
                    self.projects@[i as int],
                ));
                lemma_prow_views_push(self.projects@.take(i as int), self.projects@[i as int]);
                lemma_proj_views_push(
                    out@,
                    Project {
                        id: Some(self.projects@[i as int].id),
                        name: self.projects@[i as int].name,
                    },
                );
            }
            let row = &self.projects[i];
            out.push(Project { id: Some(row.id), name: row.name.clone() });
            i += 1;
        }
        proof {
            assert(self.projects@.take(n as int) =~= self.projects@);
        }
        let sorted = Self::sort_projects_by_name(out);
        proof {
            assert(sorted@.len() == proj_views(sorted@).len());
            assert(proj_views(sorted@).to_multiset().len() == proj_views(sorted@).len());
            assert(prow_views(self.projects@).to_multiset().len() == prow_views(
                self.projects@,
            ).len());
        }
        sorted
    }
}

} // verus!
