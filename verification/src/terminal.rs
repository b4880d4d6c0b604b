//! Interactive command sessions scoped to a project, with a hard cap of
//! three concurrently open sessions per project. The manager owns only the
//! session records; spawning the shell, streaming its output and killing
//! its process tree are the embedding application's work, driven by the
//! values these methods return.

use vstd::prelude::*;
use vstd::string::StringExecFns;
use crate::errors::LauncherError;
use crate::models::{TerminalSession, TerminalStatus};
use crate::shims;
use crate::text;

verus! {

/// The cap on concurrently open sessions per project.
pub const MAX_SESSIONS_PER_PROJECT: usize = 3;

/// Some session in `s` carries this id.
pub open spec fn has_session(s: Seq<TerminalSession>, id: Seq<char>) -> bool {
    exists|i: int| 0 <= i < s.len() && (#[trigger] s[i]).session_id@ == id
}

/// No two sessions share an id.
pub open spec fn unique_session_ids(s: Seq<TerminalSession>) -> bool {
    forall|i: int, j: int|
        0 <= i < j < s.len() ==> (#[trigger] s[i]).session_id@ != (#[trigger] s[j]).session_id@
}

/// The sessions belonging to one project, in tracking order.
pub open spec fn sessions_of(s: Seq<TerminalSession>, project: Seq<char>) -> Seq<TerminalSession>
    decreases s.len(),
{
    if s.len() == 0 {
        Seq::empty()
    } else {
        let rest = sessions_of(s.drop_last(), project);
        if s.last().project_id@ == project {
            rest.push(s.last())
        } else {
            rest
        }
    }
}

/// How many sessions a project has open.
pub open spec fn session_count(s: Seq<TerminalSession>, project: Seq<char>) -> nat {
    sessions_of(s, project).len()
}

/// `s` with any session of this id removed.
pub open spec fn without_session(s: Seq<TerminalSession>, id: Seq<char>) -> Seq<TerminalSession>
    decreases s.len(),
{
    if s.len() == 0 {
        Seq::empty()
    } else {
        let rest = without_session(s.drop_last(), id);
        if s.last().session_id@ == id {
            rest
        } else {
            rest.push(s.last())
        }
    }
}

/// The pids of sessions whose command is currently alive.
pub open spec fn live_pids(s: Seq<TerminalSession>) -> Seq<u32>
    decreases s.len(),
{
    if s.len() == 0 {
        Seq::empty()
    } else {
        let rest = live_pids(s.drop_last());
        match s.last().pid {
            Some(p) => rest.push(p),
            None => rest,
        }
    }
}

/// What `begin_command` does at the index of the named session.
pub open spec fn begin_outcome(
    before: Seq<TerminalSession>,
    after: Seq<TerminalSession>,
    i: int,
    cmd: Seq<char>,
    r: Result<String, LauncherError>,
) -> bool
    recommends
        0 <= i < before.len(),
{
    let s = before[i];
    if s.status == TerminalStatus::Running {
        (r matches Err(LauncherError::AlreadyRunning)) && after == before
    } else {
        &&& r matches Ok(p) && p@ == s.project_id@
        &&& after.len() == before.len()
        &&& after[i].session_id == s.session_id
        &&& after[i].project_id == s.project_id
        &&& after[i].command matches Some(c) && c@ == cmd
        &&& after[i].status == TerminalStatus::Running
        &&& after[i].pid is None
        &&& forall|j: int| 0 <= j < before.len() && j != i ==> after[j] == before[j]
    }
}

/// What `kill_session` does at the index of the named session.
pub open spec fn kill_outcome(
    before: Seq<TerminalSession>,
    after: Seq<TerminalSession>,
    i: int,
    r: Result<u32, LauncherError>,
) -> bool
    recommends
        0 <= i < before.len(),
{
    let s = before[i];
    match s.pid {
        None => (r matches Err(LauncherError::NoActiveProcess)) && after == before,
        Some(p) => (r matches Ok(q) && q == p) && after == before.update(
            i,
            TerminalSession { status: TerminalStatus::Error, pid: None, ..s },
        ),
    }
}

/// With unique ids, the named session's index is the only match.
proof fn lemma_only_index(s: Seq<TerminalSession>, i: int, id: Seq<char>)
    requires
        unique_session_ids(s),
        0 <= i < s.len(),
        s[i].session_id@ == id,
    ensures
        forall|j: int| 0 <= j < s.len() && (#[trigger] s[j]).session_id@ == id ==> j == i,
{
}

/// Replacing one session by another with the same id keeps ids unique.
proof fn lemma_update_same_id_unique(s: Seq<TerminalSession>, i: int, t: TerminalSession)
    requires
        unique_session_ids(s),
        0 <= i < s.len(),
        t.session_id@ == s[i].session_id@,
    ensures
        unique_session_ids(s.update(i, t)),
{
    let u = s.update(i, t);
    assert forall|x: int, y: int|
        0 <= x < y < u.len() implies (#[trigger] u[x]).session_id@ != (#[trigger] u[y]).session_id@
        by {
        assert(s[x].session_id@ != s[y].session_id@);
    }
}

proof fn lemma_sessions_of_len(s: Seq<TerminalSession>, project: Seq<char>)
    ensures
        sessions_of(s, project).len() <= s.len(),
    decreases s.len(),
{
    if s.len() > 0 {
        lemma_sessions_of_len(s.drop_last(), project);
    }
}

proof fn lemma_without_absent(s: Seq<TerminalSession>, id: Seq<char>)
    requires
        !has_session(s, id),
    ensures
        without_session(s, id) =~= s,
    decreases s.len(),
{
    if s.len() > 0 {
        assert(forall|i: int|
            0 <= i < s.len() - 1 ==> (#[trigger] s.drop_last()[i]).session_id@ == s[i].session_id@);
        lemma_without_absent(s.drop_last(), id);
        assert(s[s.len() - 1].session_id@ != id);
    }
}

proof fn lemma_without_at(s: Seq<TerminalSession>, i: int, id: Seq<char>)
    requires
        unique_session_ids(s),
        0 <= i < s.len(),
        s[i].session_id@ == id,
    ensures
        without_session(s, id) =~= s.remove(i),
    decreases s.len(),
{
    if i == s.len() - 1 {
        assert forall|j: int| 0 <= j < s.drop_last().len() implies (#[trigger] s.drop_last()[j])
            .session_id@ != id by {
            assert(s[j].session_id@ != s[i].session_id@);
        }
        lemma_without_absent(s.drop_last(), id);
        assert(s.remove(i) =~= s.drop_last());
    } else {
        assert(s.last().session_id@ != id);
        let d = s.drop_last();
        assert(unique_session_ids(d)) by {
            assert(forall|x: int, y: int|
                0 <= x < y < d.len() ==> (#[trigger] d[x]).session_id@ != (#[trigger] d[y])
                    .session_id@) by {
                assert(forall|x: int| 0 <= x < d.len() ==> #[trigger] d[x] == s[x]);
            }
        }
        assert(d[i] == s[i]);
        lemma_without_at(d, i, id);
        assert(without_session(s, id) =~= d.remove(i).push(s.last()));
        assert(d.remove(i).push(s.last()) =~= s.remove(i));
    }
}

/// Tracks the terminal sessions of all projects; the single place where
/// session records live.
pub struct TerminalManager {
    sessions: Vec<TerminalSession>,
}

impl TerminalManager {
    /// The tracked sessions, in tracking order.
    pub closed spec fn sessions_seq(self) -> Seq<TerminalSession> {
        self.sessions@
    }

    /// Well-formed: session ids are unique.
    pub open spec fn wf(self) -> bool {
        unique_session_ids(self.sessions_seq())
    }

    /// A manager tracking no sessions.
    pub fn new() -> (r: TerminalManager)
        ensures
            r.wf(),
            r.sessions_seq().len() == 0,
    {
        TerminalManager { sessions: Vec::new() }
    }

    fn find_session(&self, session_id: &str) -> (r: Option<usize>)
        ensures
            match r {
                Some(i) => i < self.sessions@.len() && self.sessions@[i as int].session_id@
                    == session_id@,
                None => !has_session(self.sessions@, session_id@),
            },
    {
        let n = self.sessions.len();
        let mut i: usize = 0;
        while i < n
            invariant
                i <= n,
                n == self.sessions@.len(),
                forall|j: int| 0 <= j < i ==> (#[trigger] self.sessions@[j]).session_id@ != session_id@,
            decreases n - i,
        {
            if text::str_eq(self.sessions[i].session_id.as_str(), session_id) {
                return Some(i);
            }
            i = i + 1;
        }
        None
    }

    fn count_for_project(&self, project: &str) -> (r: usize)
        ensures
            r == session_count(self.sessions@, project@),
    {
        let n = self.sessions.len();
        let mut i: usize = 0;
        let mut cnt: usize = 0;
        while i < n
            invariant
                i <= n,
                n == self.sessions@.len(),
                cnt == session_count(self.sessions@.subrange(0, i as int), project@),
                cnt <= i,
            decreases n - i,
        {
            let ghost prefix = self.sessions@.subrange(0, i as int);
            proof {
                let next = self.sessions@.subrange(0, i + 1);
                assert(next.drop_last() =~= prefix);
                assert(next.last() == self.sessions@[i as int]);
                lemma_sessions_of_len(prefix, project@);
            }
            if text::str_eq(self.sessions[i].project_id.as_str(), project) {
                cnt = cnt + 1;
            }
            i = i + 1;
        }
        proof {
            assert(self.sessions@.subrange(0, n as int) =~= self.sessions@);
        }
        cnt
    }

    /// Opens a new idle session for the project, unless the project
    /// already has the maximum number of open sessions. The returned copy
    /// is what callers display; the tracked record is identical.
    pub fn create_session(&mut self, project_id: String) -> (r: Result<
        TerminalSession,
        LauncherError,
    >)
        requires
            old(self).wf(),
        ensures
            final(self).wf(),
            session_count(old(self).sessions_seq(), project_id@) >= MAX_SESSIONS_PER_PROJECT
                ==> (r matches Err(LauncherError::TooManySessions)) && *final(self) == *old(self),
            session_count(old(self).sessions_seq(), project_id@) < MAX_SESSIONS_PER_PROJECT ==> {
                &&& r matches Ok(s)
                &&& {
                    let s = r->Ok_0;
                    &&& s.project_id@ == project_id@
                    &&& s.command is None
                    &&& s.status == TerminalStatus::Idle
                    &&& s.pid is None
                    &&& s.session_id@.len() == 36
                    &&& final(self).sessions_seq() == without_session(
                        old(self).sessions_seq(),
                        s.session_id@,
                    ).push(s)
                    &&& !has_session(old(self).sessions_seq(), s.session_id@) ==> final(self).sessions_seq()
                        == old(self).sessions_seq().push(s)
                    &&& !has_session(old(self).sessions_seq(), s.session_id@) ==> session_count(
                        final(self).sessions_seq(),
                        project_id@,
                    ) == session_count(old(self).sessions_seq(), project_id@) + 1
                }
            },
    {
        let count = self.count_for_project(project_id.as_str());
        if count >= MAX_SESSIONS_PER_PROJECT {
            return Err(LauncherError::TooManySessions);
        }
        let session_id = shims::fresh_id();
        // a colliding id would leave two records under one key; drop the
        // old record first, as a keyed map insert would
        let ghost before = self.sessions@;
        match self.find_session(session_id.as_str()) {
            Some(i) => {
                proof {
                    lemma_without_at(self.sessions@, i as int, session_id@);
                }
                let _ = self.sessions.remove(i);
            },
            None => {
                proof {
                    lemma_without_absent(self.sessions@, session_id@);
                }
            },
        }
        let ghost mid = self.sessions@;
        let session = TerminalSession {
            session_id,
            project_id,
            command: None,
            status: TerminalStatus::Idle,
            pid: None,
        };
        let copy = TerminalSession {
            session_id: session.session_id.clone(),
            project_id: session.project_id.clone(),
            command: None,
            status: TerminalStatus::Idle,
            pid: None,
        };
        proof {
            assert(copy == session);
        }
        self.sessions.push(session);
        proof {
            assert(self.sessions@ =~= without_session(before, copy.session_id@).push(copy));
            assert forall|x: int, y: int|
                0 <= x < y < self.sessions@.len() implies (#[trigger] self.sessions@[x]).session_id@
                != (#[trigger] self.sessions@[y]).session_id@ by {
                if y < self.sessions@.len() - 1 {
                    lemma_without_preserves_unique(before, copy.session_id@);
                    assert(mid[x].session_id@ != mid[y].session_id@);
                } else {
                    lemma_without_has_no_id(before, copy.session_id@, x);
                }
            }
            if !has_session(before, copy.session_id@) {
                lemma_without_absent(before, copy.session_id@);
                assert(self.sessions@ =~= before.push(copy));
                assert(self.sessions@.drop_last() =~= before);
                assert(self.sessions@.last() == copy);
                assert(sessions_of(self.sessions@, project_id@) == sessions_of(
                    before,
                    project_id@,
                ).push(copy));
            }
        }
        Ok(copy)
    }

    /// Accepts a command for the session: records it, marks the session
    /// `Running` with no pid yet, and returns the owning project's id so
    /// the caller can spawn the shell and tag its log events. Rejects a
    /// blank command, an unknown session, and a session already running.
    pub fn begin_command(&mut self, session_id: &str, command: &str) -> (r: Result<
        String,
        LauncherError,
    >)
        requires
            old(self).wf(),
        ensures
            final(self).wf(),
            text::seq_is_blank(command@) ==> (r matches Err(LauncherError::EmptyCommand))
                && *final(self) == *old(self),
            !text::seq_is_blank(command@) && !has_session(old(self).sessions_seq(), session_id@)
                ==> (r matches Err(LauncherError::NotFound)) && *final(self) == *old(self),
            forall|i: int|
                0 <= i < old(self).sessions_seq().len() && (#[trigger] old(self).sessions_seq()[i])
                    .session_id@ == session_id@ && !text::seq_is_blank(command@) ==> begin_outcome(
                    old(self).sessions_seq(),
                    final(self).sessions_seq(),
                    i,
                    command@,
                    r,
                ),
    {
        if text::is_blank(command) {
            return Err(LauncherError::EmptyCommand);
        }
        let found = self.find_session(session_id);
        match found {
            None => Err(LauncherError::NotFound),
            Some(i) => {
                proof {
                    lemma_only_index(self.sessions@, i as int, session_id@);
                }
                if matches!(self.sessions[i].status, TerminalStatus::Running) {
                    return Err(LauncherError::AlreadyRunning);
                }
                let ghost before = self.sessions@;
                let s = self.sessions.remove(i);
                let project_id = s.project_id.clone();
                let updated = TerminalSession {
                    session_id: s.session_id,
                    project_id: s.project_id,
                    command: Some(String::from_str(command)),
                    status: TerminalStatus::Running,
                    pid: None,
                };
                self.sessions.insert(i, updated);
                proof {
                    assert(self.sessions@ =~= before.update(
                        i as int,
                        self.sessions@[i as int],
                    ));
                    lemma_update_same_id_unique(before, i as int, self.sessions@[i as int]);
                }
                Ok(project_id)
            },
        }
    }

    /// Records the OS pid of the session's live command, if the session
    /// still exists; everything else is left untouched.
    pub fn set_session_pid(&mut self, session_id: &str, pid: Option<u32>)
        requires
            old(self).wf(),
        ensures
            final(self).wf(),
            !has_session(old(self).sessions_seq(), session_id@) ==> *final(self) == *old(self),
            forall|i: int|
                0 <= i < old(self).sessions_seq().len() && (#[trigger] old(self).sessions_seq()[i])
                    .session_id@ == session_id@ ==> final(self).sessions_seq()
                    == old(self).sessions_seq().update(
                    i,
                    TerminalSession {
                        pid,
                        ..old(self).sessions_seq()[i]
                    },
                ),
    {
        let found = self.find_session(session_id);
        match found {
            None => {
            },
            Some(i) => {
                proof {
                    lemma_only_index(self.sessions@, i as int, session_id@);
                }
                let ghost before = self.sessions@;
                let s = self.sessions.remove(i);
                let updated = TerminalSession { pid, ..s };
                self.sessions.insert(i, updated);
                proof {
                    assert(self.sessions@ =~= before.update(
                        i as int,
                        self.sessions@[i as int],
                    ));
                    lemma_update_same_id_unique(before, i as int, self.sessions@[i as int]);
                }
            },
        }
    }

    /// Ends the session's running command: `Completed` on a zero exit,
    /// `Error` otherwise, with the pid cleared. A session that no longer
    /// exists is left alone.
    pub fn finish_command(&mut self, session_id: &str, success: bool)
        requires
            old(self).wf(),
        ensures
            final(self).wf(),
            !has_session(old(self).sessions_seq(), session_id@) ==> *final(self) == *old(self),
            forall|i: int|
                0 <= i < old(self).sessions_seq().len() && (#[trigger] old(self).sessions_seq()[i])
                    .session_id@ == session_id@ ==> final(self).sessions_seq()
                    == old(self).sessions_seq().update(
                    i,
                    TerminalSession {
                        status: if success {
                            TerminalStatus::Completed
                        } else {
                            TerminalStatus::Error
                        },
                        pid: None,
                        ..old(self).sessions_seq()[i]
                    },
                ),
    {
        let found = self.find_session(session_id);
        match found {
            None => {
            },
            Some(i) => {
                proof {
                    lemma_only_index(self.sessions@, i as int, session_id@);
                }
                let ghost before = self.sessions@;
                let s = self.sessions.remove(i);
                let updated = TerminalSession {
                    status: if success {
                        TerminalStatus::Completed
                    } else {
                        TerminalStatus::Error
                    },
                    pid: None,
                    ..s
                };
                self.sessions.insert(i, updated);
                proof {
                    assert(self.sessions@ =~= before.update(
                        i as int,
                        self.sessions@[i as int],
                    ));
                    lemma_update_same_id_unique(before, i as int, self.sessions@[i as int]);
                }
            },
        }
    }

    /// Marks the session `Error` with its pid cleared and returns the pid
    /// whose process tree the caller must kill. Fails on an unknown
    /// session and on a session with no live process.
    pub fn kill_session(&mut self, session_id: &str) -> (r: Result<u32, LauncherError>)
        requires
            old(self).wf(),
        ensures
            final(self).wf(),
            !has_session(old(self).sessions_seq(), session_id@) ==> (r matches Err(
                LauncherError::NotFound,
            )) && *final(self) == *old(self),
            forall|i: int|
                0 <= i < old(self).sessions_seq().len() && (#[trigger] old(self).sessions_seq()[i])
                    .session_id@ == session_id@ ==> kill_outcome(
                    old(self).sessions_seq(),
                    final(self).sessions_seq(),
                    i,
                    r,
                ),
    {
        let found = self.find_session(session_id);
        match found {
            None => Err(LauncherError::NotFound),
            Some(i) => {
                proof {
                    lemma_only_index(self.sessions@, i as int, session_id@);
                }
                let pid_opt = self.sessions[i].pid;
                match pid_opt {
                    None => Err(LauncherError::NoActiveProcess),
                    Some(p) => {
                        let ghost before = self.sessions@;
                        let s = self.sessions.remove(i);
                        let updated = TerminalSession {
                            status: TerminalStatus::Error,
                            pid: None,
                            ..s
                        };
                        self.sessions.insert(i, updated);
                        proof {
                            assert(self.sessions@ =~= before.update(
                                i as int,
                                self.sessions@[i as int],
                            ));
                            lemma_update_same_id_unique(
                                before,
                                i as int,
                                self.sessions@[i as int],
                            );
                        }
                        Ok(p)
                    },
                }
            },
        }
    }

    /// Drops the session entirely and returns the pid of any still-live
    /// process for a best-effort kill. Fails only on an unknown session.
    pub fn close_session(&mut self, session_id: &str) -> (r: Result<Option<u32>, LauncherError>)
        requires
            old(self).wf(),
        ensures
            final(self).wf(),
            !has_session(old(self).sessions_seq(), session_id@) ==> (r matches Err(
                LauncherError::NotFound,
            )) && *final(self) == *old(self),
            forall|i: int|
                0 <= i < old(self).sessions_seq().len() && (#[trigger] old(self).sessions_seq()[i])
                    .session_id@ == session_id@ ==> (r matches Ok(p) && p == old(self).sessions_seq()[i].pid)
                    && final(self).sessions_seq() == old(self).sessions_seq().remove(i),
            r is Ok ==> !has_session(final(self).sessions_seq(), session_id@),
    {
        let found = self.find_session(session_id);
        match found {
            None => Err(LauncherError::NotFound),
            Some(i) => {
                proof {
                    lemma_only_index(self.sessions@, i as int, session_id@);
                }
                let ghost before = self.sessions@;
                let s = self.sessions.remove(i);
                proof {
                    assert forall|x: int, y: int|
                        0 <= x < y < self.sessions@.len() implies (#[trigger] self.sessions@[x])
                        .session_id@ != (#[trigger] self.sessions@[y]).session_id@ by {
                        if x < i as int {
                            assert(self.sessions@[x] == before[x]);
                        } else {
                            assert(self.sessions@[x] == before[x + 1]);
                        }
                        if y < i as int {
                            assert(self.sessions@[y] == before[y]);
                        } else {
                            assert(self.sessions@[y] == before[y + 1]);
                        }
                    }
                    assert forall|x: int|
                        0 <= x < self.sessions@.len() implies (#[trigger] self.sessions@[x])
                        .session_id@ != session_id@ by {
                        if x < i as int {
                            assert(self.sessions@[x] == before[x]);
                        } else {
                            assert(self.sessions@[x] == before[x + 1]);
                        }
                    }
                }
                Ok(s.pid)
            },
        }
    }

    /// Forgets every session unconditionally and returns the pids of all
    /// live commands so the caller can kill their trees; used at shutdown.
    pub fn stop_all(&mut self) -> (r: Vec<u32>)
        requires
            old(self).wf(),
        ensures
            final(self).wf(),
            final(self).sessions_seq().len() == 0,
            r@ == live_pids(old(self).sessions_seq()),
    {
        let n = self.sessions.len();
        let mut pids: Vec<u32> = Vec::new();
        let mut i: usize = 0;
        while i < n
            invariant
                i <= n,
                n == self.sessions@.len(),
                pids@ == live_pids(self.sessions@.subrange(0, i as int)),
            decreases n - i,
        {
            let ghost prefix = self.sessions@.subrange(0, i as int);
            proof {
                let next = self.sessions@.subrange(0, i + 1);
                assert(next.drop_last() =~= prefix);
                assert(next.last() == self.sessions@[i as int]);
            }
            match self.sessions[i].pid {
                Some(p) => pids.push(p),
                None => {
                },
            }
            i = i + 1;
        }
        proof {
            assert(self.sessions@.subrange(0, n as int) =~= self.sessions@);
        }
        self.sessions.clear();
        pids
    }

    /// Copies of the project's open sessions, in tracking order.
    pub fn get_sessions(&self, project_id: String) -> (r: Vec<TerminalSession>)
        ensures
            r@ == sessions_of(self.sessions_seq(), project_id@),
    {
        let n = self.sessions.len();
        let mut out: Vec<TerminalSession> = Vec::new();
        let mut i: usize = 0;
        while i < n
            invariant
                i <= n,
                n == self.sessions@.len(),
                out@ == sessions_of(self.sessions@.subrange(0, i as int), project_id@),
            decreases n - i,
        {
            let ghost prefix = self.sessions@.subrange(0, i as int);
            proof {
                let next = self.sessions@.subrange(0, i + 1);
                assert(next.drop_last() =~= prefix);
                assert(next.last() == self.sessions@[i as int]);
            }
            if text::str_eq(self.sessions[i].project_id.as_str(), project_id.as_str()) {
                let s = duplicate_session(&self.sessions[i]);
                out.push(s);
            }
            i = i + 1;
        }
        proof {
            assert(self.sessions@.subrange(0, n as int) =~= self.sessions@);
        }
        out
    }
}

proof fn lemma_without_preserves_unique(s: Seq<TerminalSession>, id: Seq<char>)
    requires
        unique_session_ids(s),
    ensures
        unique_session_ids(without_session(s, id)),
    decreases s.len(),
{
    if s.len() > 0 {
        let d = s.drop_last();
        assert(unique_session_ids(d)) by {
            assert(forall|x: int| 0 <= x < d.len() ==> #[trigger] d[x] == s[x]);
        }
        lemma_without_preserves_unique(d, id);
        if s.last().session_id@ != id {
            let w = without_session(d, id);
            assert forall|x: int, y: int|
                0 <= x < y < w.push(s.last()).len() implies (#[trigger] w.push(s.last())[x])
                .session_id@ != (#[trigger] w.push(s.last())[y]).session_id@ by {
                if y == w.len() {
                    lemma_without_is_subset(d, id, x);
                } else {
                    assert(w[x].session_id@ != w[y].session_id@);
                }
            }
        }
    }
}

/// Every element of `without_session(s, id)` occurs in `s`.
proof fn lemma_without_is_subset(s: Seq<TerminalSession>, id: Seq<char>, x: int)
    requires
        0 <= x < without_session(s, id).len(),
    ensures
        exists|k: int| 0 <= k < s.len() && #[trigger] s[k] == without_session(s, id)[x],
    decreases s.len(),
{
    if s.len() > 0 {
        let d = s.drop_last();
        let w = without_session(s, id);
        if s.last().session_id@ == id {
            lemma_without_is_subset(d, id, x);
            let k = choose|k: int| 0 <= k < d.len() && #[trigger] d[k] == without_session(d, id)[x];
            assert(s[k] == w[x]);
        } else {
            if x < w.len() - 1 {
                lemma_without_is_subset(d, id, x);
                let k = choose|k: int|
                    0 <= k < d.len() && #[trigger] d[k] == without_session(d, id)[x];
                assert(s[k] == w[x]);
            } else {
                assert(s[s.len() - 1] == w[x]);
            }
        }
    }
}

proof fn lemma_without_has_no_id(s: Seq<TerminalSession>, id: Seq<char>, x: int)
    requires
        0 <= x < without_session(s, id).len(),
    ensures
        without_session(s, id)[x].session_id@ != id,
    decreases s.len(),
{
    if s.len() > 0 {
        let d = s.drop_last();
        let w = without_session(s, id);
        if s.last().session_id@ == id {
            lemma_without_has_no_id(d, id, x);
        } else {
            if x < w.len() - 1 {
                lemma_without_has_no_id(d, id, x);
            }
        }
    }
}

/// The single terminal log line emitted when a command's process exits,
/// carrying the exit code when the OS reported one.
pub fn exit_log_line(code: Option<i32>) -> (r: String)
    ensures
        code is Some ==> r@ == "[exit] code="@ + text::dec_signed(code->0 as int),
        code is None ==> r@ == "[exit]"@,
{
    match code {
        Some(c) => {
            let mut m = String::from_str("[exit] code=");
            let digits = text::i64_decimal(c as i64);
            m.append(digits.as_str());
            m
        },
        None => String::from_str("[exit]"),
    }
}

/// A field-for-field copy whose equality Verus can see.
pub fn duplicate_session(s: &TerminalSession) -> (r: TerminalSession)
    ensures
        r == *s,
{
    let command: Option<String> = match &s.command {
        Some(c) => Some(c.clone()),
        None => None,
    };
    TerminalSession {
        session_id: s.session_id.clone(),
        project_id: s.project_id.clone(),
        command,
        status: s.status,
        pid: s.pid,
    }
}

} // verus!
