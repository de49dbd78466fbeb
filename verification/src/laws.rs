//! The laws the store obeys across operations, stated over the same spec
//! functions its contracts use.

use vstd::prelude::*;
use crate::store::{
    ProjectRow, SessionRow, find_project_idx, find_session_idx, find_clockable_idx,
    projects_without, sessions_without_project, is_active_row, lemma_projects_without,
    lemma_sessions_without_project, lemma_find_project_idx, lemma_find_clockable_idx,
    lemma_find_session_idx_at,
};

verus! {

/// Deleting a project removes it for good: no surviving project row carries
/// its id, so a lookup after the deletion reports not-found, and the
/// cascade leaves no session row referencing it. Every other row survives.
pub proof fn lemma_delete_project_cascades(
    projects: Seq<ProjectRow>,
    sessions: Seq<SessionRow>,
    pid: int,
)
    ensures
        find_project_idx(projects_without(projects, pid), pid) < 0,
        forall|k: int| 0 <= k < sessions_without_project(sessions, pid).len()
            ==> (#[trigger] sessions_without_project(sessions, pid)[k]).project_id != pid,
        forall|k: int|
            0 <= k < projects.len() && (#[trigger] projects[k]).id != pid ==> projects_without(
                projects,
                pid,
            ).contains(projects[k]),
        forall|k: int|
            0 <= k < sessions.len() && (#[trigger] sessions[k]).project_id != pid
                ==> sessions_without_project(sessions, pid).contains(sessions[k]),
{
    lemma_projects_without(projects, pid);
    lemma_sessions_without_project(sessions, pid);
    lemma_find_project_idx(projects_without(projects, pid), pid);
    lemma_projects_without_keeps(projects, pid);
    lemma_sessions_without_project_keeps(sessions, pid);
}

proof fn lemma_projects_without_keeps(s: Seq<ProjectRow>, pid: int)
    ensures
        forall|k: int|
            0 <= k < s.len() && (#[trigger] s[k]).id != pid ==> projects_without(s, pid).contains(
                s[k],
            ),
    decreases s.len(),
{
    if s.len() > 0 {
        lemma_projects_without_keeps(s.drop_last(), pid);
        let pre = projects_without(s.drop_last(), pid);
        let res = projects_without(s, pid);
        assert forall|k: int| 0 <= k < s.len() && (#[trigger] s[k]).id != pid implies res.contains(
            s[k],
        ) by {
            if k < s.len() - 1 {
                assert(s.drop_last()[k] == s[k]);
                assert(pre.contains(s[k]));
                let w = choose|w: int| 0 <= w < pre.len() && pre[w] == s[k];
                assert(res[w] == s[k]);
            } else {
                assert(res.last() == s[k]);
            }
        }
    }
}

proof fn lemma_sessions_without_project_keeps(s: Seq<SessionRow>, pid: int)
    ensures
        forall|k: int|
            0 <= k < s.len() && (#[trigger] s[k]).project_id != pid ==> sessions_without_project(
                s,
                pid,
            ).contains(s[k]),
    decreases s.len(),
{
    if s.len() > 0 {
        lemma_sessions_without_project_keeps(s.drop_last(), pid);
        let pre = sessions_without_project(s.drop_last(), pid);
        let res = sessions_without_project(s, pid);
        assert forall|k: int|
            0 <= k < s.len() && (#[trigger] s[k]).project_id != pid implies res.contains(s[k]) by {
            if k < s.len() - 1 {
                assert(s.drop_last()[k] == s[k]);
                assert(pre.contains(s[k]));
                let w = choose|w: int| 0 <= w < pre.len() && pre[w] == s[k];
                assert(res[w] == s[k]);
            } else {
                assert(res.last() == s[k]);
            }
        }
    }
}

/// Clocking out is not repeatable: once the session's end time is set, no
/// row with that id is clockable any more, so a second clock-out on the
/// same id reports zero rows affected. Holds of every store whose session
/// ids are unique, which the store keeps invariant.
pub proof fn lemma_clock_out_twice(s: Seq<SessionRow>, s2: Seq<SessionRow>, sid: int)
    requires
        forall|a: int, b: int|
            0 <= a < b < s.len() ==> (#[trigger] s[a]).id != (#[trigger] s[b]).id,
        find_clockable_idx(s, sid) >= 0,
        s2 == s.update(find_clockable_idx(s, sid), s2[find_clockable_idx(s, sid)]),
        s2[find_clockable_idx(s, sid)].id == s[find_clockable_idx(s, sid)].id,
        !is_active_row(s2[find_clockable_idx(s, sid)]),
    ensures
        find_clockable_idx(s2, sid) < 0,
{
    let ci = find_clockable_idx(s, sid);
    lemma_find_clockable_idx(s, sid);
    lemma_find_clockable_idx(s2, sid);
    if find_clockable_idx(s2, sid) >= 0 {
        let cj = find_clockable_idx(s2, sid);
        if cj != ci {
            assert(s2[cj] == s[cj]);
            assert(s[cj].id == sid && s[ci].id == sid);
        }
        assert(false);
    }
}

/// The write–read round trip: a session row just inserted with a fresh id
/// is found again by that id, unchanged. With the contracts of
/// `add_manual_study_session` and `get_study_session` this says a manual
/// insertion read back by id yields the very fields that were written.
pub proof fn lemma_manual_round_trip(s: Seq<SessionRow>, row: SessionRow)
    requires
        forall|j: int| 0 <= j < s.len() ==> (#[trigger] s[j]).id != row.id,
    ensures
        find_session_idx(s.push(row), row.id as int) == s.len(),
        s.push(row)[find_session_idx(s.push(row), row.id as int)] == row,
{
    assert forall|j: int| 0 <= j < s.len() implies (#[trigger] s.push(row)[j]).id != row.id by {
        assert(s.push(row)[j] == s[j]);
    }
    lemma_find_session_idx_at(s.push(row), row.id as int, s.len() as int);
}

} // verus!
