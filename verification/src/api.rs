//! The request-level logic of the HTTP handlers: path-parameter parsing,
//! the not-found mapping for zero-row outcomes, and the entity echoed back
//! by update handlers. The transport itself stays outside the library.

use vstd::prelude::*;
use crate::models::{Project, StudySession, CreateProject, ManualStudySession, StoreError};
use crate::store::{
    Store, find_project_idx, find_session_idx, find_clockable_idx, has_project, has_active,
    other_name_taken, row_ok, row_view, sess_view, opt_str_view, SessionView,
};
use crate::valid_ts;

verus! {

pub open spec fn is_digit(c: char) -> bool {
    48 <= c as u32 <= 57
}

pub open spec fn digit_val(c: char) -> int {
    c as u32 - 48
}

pub open spec fn all_digits(s: Seq<char>) -> bool {
    forall|i: int| 0 <= i < s.len() ==> is_digit(#[trigger] s[i])
}

/// The number a run of decimal digits denotes.
pub open spec fn digits_val(s: Seq<char>) -> int
    decreases s.len(),
{
    if s.len() == 0 {
        0
    } else {
        digits_val(s.drop_last()) * 10 + digit_val(s.last())
    }
}

/// What an id path parameter parses to: a non-empty run of decimal digits
/// whose value fits the id type; anything else is rejected.
pub open spec fn parsed_id(s: Seq<char>) -> Option<int> {
    if s.len() > 0 && all_digits(s) && digits_val(s) <= i64::MAX {
        Some(digits_val(s))
    } else {
        None
    }
}

proof fn lemma_digits_val_take_step(s: Seq<char>, i: int)
    requires
        0 <= i < s.len(),
    ensures
        digits_val(s.take(i + 1)) == digits_val(s.take(i)) * 10 + digit_val(s[i]),
{
    assert(s.take(i + 1).drop_last() =~= s.take(i));
    assert(s.take(i + 1).last() == s[i]);
}

proof fn lemma_digits_val_nonneg(s: Seq<char>)
    requires
        all_digits(s),
    ensures
        digits_val(s) >= 0,
    decreases s.len(),
{
    if s.len() > 0 {
        assert forall|j: int| 0 <= j < s.len() - 1 implies is_digit(#[trigger] s.drop_last()[j]) by {
            assert(s.drop_last()[j] == s[j]);
        }
        lemma_digits_val_nonneg(s.drop_last());
    }
}

proof fn lemma_digits_val_prefix(s: Seq<char>, i: int)
    requires
        all_digits(s),
        0 <= i <= s.len(),
    ensures
        digits_val(s) >= digits_val(s.take(i)),
    decreases s.len() - i,
{
    if i < s.len() {
        lemma_digits_val_take_step(s, i);
        assert forall|j: int| 0 <= j < i implies is_digit(#[trigger] s.take(i)[j]) by {
            assert(s.take(i)[j] == s[j]);
        }
        lemma_digits_val_nonneg(s.take(i));
        lemma_digits_val_prefix(s, i + 1);
    } else {
        assert(s.take(i) =~= s);
    }
}

/// Parses an id path parameter: a non-empty run of decimal digits whose
/// value fits the id type. Anything else is `BadRequest`.
pub fn parse_id(s: &str) -> (r: Result<i64, StoreError>)
    ensures
        match r {
            Ok(v) => parsed_id(s@) == Some(v as int),
            Err(e) => e == StoreError::BadRequest && parsed_id(s@) is None,
        },
{
    let n = s.unicode_len();
    if n == 0 {
        return Err(StoreError::BadRequest);
    }
    let mut acc: i64 = 0;
    let mut i: usize = 0;
    while i < n
        invariant
            n == s@.len(),
            i <= n,
            0 <= acc,
            acc as int == digits_val(s@.take(i as int)),
            forall|j: int| 0 <= j < i ==> is_digit(#[trigger] s@[j]),
        decreases n - i,
    {
        let c = s.get_char(i);
        let cv = c as u32;
        if cv < 48 || cv > 57 {
            return Err(StoreError::BadRequest);
        }
        let d = (cv - 48) as i64;
        proof {
            lemma_digits_val_take_step(s@, i as int);
        }
        let shifted = match acc.checked_mul(10) {
            Some(m) => m,
            None => {
                proof {
                    lemma_overflow_means_none(s@, i as int, acc as int, d as int);
                }
                return Err(StoreError::BadRequest);
            },
        };
        acc = match shifted.checked_add(d) {
            Some(a) => a,
            None => {
                proof {
                    lemma_overflow_means_none(s@, i as int, acc as int, d as int);
                }
                return Err(StoreError::BadRequest);
            },
        };
        i += 1;
    }
    proof {
        assert(s@.take(n as int) =~= s@);
    }
    Ok(acc)
}

proof fn lemma_overflow_means_none(s: Seq<char>, i: int, acc: int, d: int)
    requires
        0 <= i < s.len(),
        acc == digits_val(s.take(i)),
        0 <= d <= 9,
        d == digit_val(s[i]),
        acc * 10 + d > i64::MAX,
    ensures
        parsed_id(s) is None,
{
    if all_digits(s) && digits_val(s) <= i64::MAX {
        lemma_digits_val_take_step(s, i);
        lemma_digits_val_prefix(s, i + 1);
        assert(false);
    }
}

/// Looks a project up, reporting absence as `NotFound`.
pub fn get_project_api(store: &Store, project_id: i64) -> (r: Result<Project, StoreError>)
    ensures
        match r {
            Ok(p) => {
                let i = find_project_idx(store.projects@, project_id as int);
                &&& i >= 0
                &&& p.id == Some(project_id)
                &&& p.name@ == store.projects@[i].name@
            },
            Err(e) => e == StoreError::NotFound && find_project_idx(
                store.projects@,
                project_id as int,
            ) < 0,
        },
{
    match store.get_project(project_id) {
        Some(p) => Ok(p),
        None => Err(StoreError::NotFound),
    }
}

/// Renames a project and echoes the entity actually written, rather than a
/// placeholder: the given id with the new name.
pub fn update_project_api(store: &mut Store, project_id: i64, data: &CreateProject) -> (r: Result<
    Project,
    StoreError,
>)
    ensures
        match r {
            Ok(p) => {
                let i = find_project_idx(old(store).projects@, project_id as int);
                &&& i >= 0
                &&& p.id == Some(project_id)
                &&& p.name@ == data.name@
                &&& final(store).projects@ == old(store).projects@.update(
                    i,
                    final(store).projects@[i],
                )
                &&& final(store).projects@[i].id == old(store).projects@[i].id
                &&& final(store).projects@[i].name@ == data.name@
                &&& final(store).sessions@ == old(store).sessions@
            },
            Err(e) => {
                &&& *final(store) == *old(store)
                &&& (e == StoreError::NotFound <==> find_project_idx(
                    old(store).projects@,
                    project_id as int,
                ) < 0)
                &&& (e == StoreError::ConstraintViolation <==> other_name_taken(
                    old(store).projects@,
                    project_id as int,
                    data.name@,
                ) && find_project_idx(old(store).projects@, project_id as int) >= 0)
                &&& (e == StoreError::NotFound || e == StoreError::ConstraintViolation)
            },
        },
        old(store).wf() ==> final(store).wf(),
{
    match store.update_project(project_id, data) {
        Ok(0) => Err(StoreError::NotFound),
        Ok(_) => Ok(Project { id: Some(project_id), name: data.name.clone() }),
        Err(e) => Err(e),
    }
}

/// Deletes a project (cascading to its sessions), reporting absence as
/// `NotFound`.
pub fn delete_project_api(store: &mut Store, project_id: i64) -> (r: Result<(), StoreError>)
    ensures
        final(store).projects@ == crate::store::projects_without(
            old(store).projects@,
            project_id as int,
        ),
        final(store).sessions@ == crate::store::sessions_without_project(
            old(store).sessions@,
            project_id as int,
        ),
        r is Ok <==> find_project_idx(old(store).projects@, project_id as int) >= 0,
        r matches Err(e) ==> e == StoreError::NotFound,
        old(store).wf() ==> final(store).wf(),
{
    let removed = store.delete_project(project_id);
    if removed == 0 {
        Err(StoreError::NotFound)
    } else {
        Ok(())
    }
}

/// Starts a session from the raw path parameter: parses the project id,
/// then applies the single-active-session rule before inserting.
pub fn start_session_api(store: &mut Store, project_id_raw: &str) -> (r: Result<
    StudySession,
    StoreError,
>)
    ensures
        match r {
            Ok(s) => {
                &&& parsed_id(project_id_raw@) == Some(s.project_id as int)
                &&& !has_active(old(store).sessions@)
                &&& has_project(old(store).projects@, s.project_id as int)
                &&& s.id == Some(old(store).next_session_id)
                &&& valid_ts(s.start_time)
                &&& s.end_time is None
                &&& final(store).sessions@ == old(store).sessions@.push(
                    final(store).sessions@.last(),
                )
                &&& row_ok(final(store).sessions@.last())
                &&& row_view(final(store).sessions@.last()) == sess_view(s)
                &&& final(store).projects@ == old(store).projects@
            },
            Err(e) => {
                &&& *final(store) == *old(store)
                &&& (e == StoreError::BadRequest <==> parsed_id(project_id_raw@) is None)
                &&& (parsed_id(project_id_raw@) matches Some(pid) ==> {
                    &&& (e == StoreError::Conflict <==> has_active(old(store).sessions@))
                    &&& (e == StoreError::ConstraintViolation ==> !has_project(
                        old(store).projects@,
                        pid,
                    ))
                    &&& (e == StoreError::Conflict || e == StoreError::ConstraintViolation
                        || e == StoreError::StorageFailure)
                })
            },
        },
        old(store).wf() ==> final(store).wf(),
{
    let project_id = match parse_id(project_id_raw) {
        Ok(v) => v,
        Err(e) => {
            return Err(e);
        },
    };
    store.clock_in(project_id, None)
}

/// Clocks a session out, reporting "not found or already closed" as
/// `NotFound`.
pub fn clock_out_api(store: &mut Store, session_id: i64) -> (r: Result<(), StoreError>)
    ensures
        ({
            let ci = find_clockable_idx(old(store).sessions@, session_id as int);
            match r {
                Ok(_) => {
                    &&& ci >= 0
                    &&& final(store).sessions@ == old(store).sessions@.update(
                        ci,
                        final(store).sessions@[ci],
                    )
                    &&& final(store).sessions@[ci].id == old(store).sessions@[ci].id
                    &&& final(store).sessions@[ci].start_time == old(store).sessions@[ci].start_time
                    &&& final(store).sessions@[ci].end_time is Some
                    &&& final(store).projects@ == old(store).projects@
                },
                Err(e) => {
                    &&& *final(store) == *old(store)
                    &&& (e == StoreError::NotFound ==> ci < 0)
                    &&& (e == StoreError::NotFound || e == StoreError::StorageFailure)
                },
            }
        }),
        old(store).wf() ==> final(store).wf(),
{
    match store.clock_out_study_session(session_id) {
        Ok(0) => Err(StoreError::NotFound),
        Ok(_) => Ok(()),
        Err(e) => Err(e),
    }
}

/// Looks a session up, reporting absence as `NotFound`.
pub fn get_session_api(store: &Store, session_id: i64) -> (r: Result<StudySession, StoreError>)
    ensures
        ({
            let i = find_session_idx(store.sessions@, session_id as int);
            match r {
                Ok(s) => i >= 0 && row_ok(store.sessions@[i]) && sess_view(s) == row_view(
                    store.sessions@[i],
                ),
                Err(e) => (e == StoreError::NotFound && i < 0) || (e == StoreError::StorageFailure
                    && i >= 0 && !row_ok(store.sessions@[i])),
            }
        }),
{
    match store.get_study_session(session_id) {
        Ok(Some(s)) => Ok(s),
        Ok(None) => Err(StoreError::NotFound),
        Err(e) => Err(e),
    }
}

/// Rewrites a session and echoes the entity actually written: the given id
/// with the payload's fields.
pub fn update_session_api(store: &mut Store, session_id: i64, data: &ManualStudySession) -> (r:
    Result<StudySession, StoreError>)
    requires
        valid_ts(data.start_time),
        valid_ts(data.end_time),
    ensures
        ({
            let i = find_session_idx(old(store).sessions@, session_id as int);
            match r {
                Ok(s) => {
                    &&& i >= 0
                    &&& s.id == Some(session_id)
                    &&& s.project_id == data.project_id
                    &&& s.start_time == data.start_time
                    &&& s.end_time == Some(data.end_time)
                    &&& s.description == data.description
                    &&& has_project(old(store).projects@, data.project_id as int)
                    &&& final(store).sessions@ == old(store).sessions@.update(
                        i,
                        final(store).sessions@[i],
                    )
                    &&& final(store).sessions@[i].id == old(store).sessions@[i].id
                    &&& row_ok(final(store).sessions@[i])
                    &&& row_view(final(store).sessions@[i]) == (SessionView {
                        id: Some(old(store).sessions@[i].id as int),
                        project_id: data.project_id as int,
                        start_time: data.start_time as int,
                        end_time: Some(data.end_time as int),
                        description: opt_str_view(data.description),
                    })
                    &&& final(store).projects@ == old(store).projects@
                },
                Err(e) => {
                    &&& *final(store) == *old(store)
                    &&& (e == StoreError::NotFound <==> i < 0)
                    &&& (e == StoreError::ConstraintViolation <==> i >= 0 && !has_project(
                        old(store).projects@,
                        data.project_id as int,
                    ))
                    &&& (e == StoreError::NotFound || e == StoreError::ConstraintViolation)
                },
            }
        }),
        old(store).wf() ==> final(store).wf(),
{
    match store.update_study_session(session_id, data) {
        Ok(0) => Err(StoreError::NotFound),
        Ok(_) => Ok(StudySession {
            id: Some(session_id),
            project_id: data.project_id,
            start_time: data.start_time,
            end_time: Some(data.end_time),
            description: crate::store::clone_opt_string(&data.description),
        }),
        Err(e) => Err(e),
    }
}

/// Deletes a session, reporting absence as `NotFound`.
pub fn delete_session_api(store: &mut Store, session_id: i64) -> (r: Result<(), StoreError>)
    ensures
        final(store).sessions@ == crate::store::sessions_without(
            old(store).sessions@,
            session_id as int,
        ),
        final(store).projects@ == old(store).projects@,
        r is Ok <==> find_session_idx(old(store).sessions@, session_id as int) >= 0,
        r matches Err(e) ==> e == StoreError::NotFound,
        old(store).wf() ==> final(store).wf(),
{
    let removed = store.delete_study_session(session_id);
    if removed == 0 {
        Err(StoreError::NotFound)
    } else {
        Ok(())
    }
}

} // verus!
