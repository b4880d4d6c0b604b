//! Supervision of long-running dev-server processes. The manager owns the
//! record map alone: a record's presence means "running". Spawning,
//! output streaming and tree-killing are the embedding application's
//! work; `stop_project` hands back the record whose tree must die, and
//! removal precedes the kill so a concurrent second stop sees `NotFound`.

use vstd::prelude::*;
use vstd::string::StringExecFns;
use crate::errors::LauncherError;
use crate::models::{ProcessInfo, ProcessStatus};
use crate::shims;
use crate::text;

verus! {

/// Some record in `s` carries this process id.
pub open spec fn has_process(s: Seq<ProcessInfo>, id: Seq<char>) -> bool {
    exists|i: int| 0 <= i < s.len() && (#[trigger] s[i]).process_id@ == id
}

/// No two records share a process id.
pub open spec fn unique_process_ids(s: Seq<ProcessInfo>) -> bool {
    forall|i: int, j: int|
        0 <= i < j < s.len() ==> (#[trigger] s[i]).process_id@ != (#[trigger] s[j]).process_id@
}

/// `s` with any record of this process id removed.
pub open spec fn without_process(s: Seq<ProcessInfo>, id: Seq<char>) -> Seq<ProcessInfo>
    decreases s.len(),
{
    if s.len() == 0 {
        Seq::empty()
    } else {
        let rest = without_process(s.drop_last(), id);
        if s.last().process_id@ == id {
            rest
        } else {
            rest.push(s.last())
        }
    }
}

proof fn lemma_without_process_absent(s: Seq<ProcessInfo>, id: Seq<char>)
    requires
        !has_process(s, id),
    ensures
        without_process(s, id) =~= s,
    decreases s.len(),
{
    if s.len() > 0 {
        assert(forall|i: int|
            0 <= i < s.len() - 1 ==> (#[trigger] s.drop_last()[i]).process_id@ == s[i].process_id@);
        lemma_without_process_absent(s.drop_last(), id);
        assert(s[s.len() - 1].process_id@ != id);
    }
}

proof fn lemma_without_process_at(s: Seq<ProcessInfo>, i: int, id: Seq<char>)
    requires
        unique_process_ids(s),
        0 <= i < s.len(),
        s[i].process_id@ == id,
    ensures
        without_process(s, id) =~= s.remove(i),
    decreases s.len(),
{
    if i == s.len() - 1 {
        assert forall|j: int| 0 <= j < s.drop_last().len() implies (#[trigger] s.drop_last()[j])
            .process_id@ != id by {
            assert(s[j].process_id@ != s[i].process_id@);
        }
        lemma_without_process_absent(s.drop_last(), id);
        assert(s.remove(i) =~= s.drop_last());
    } else {
        assert(s.last().process_id@ != id);
        let d = s.drop_last();
        assert(unique_process_ids(d)) by {
            assert(forall|x: int| 0 <= x < d.len() ==> #[trigger] d[x] == s[x]);
        }
        assert(d[i] == s[i]);
        lemma_without_process_at(d, i, id);
        assert(without_process(s, id) =~= d.remove(i).push(s.last()));
        assert(d.remove(i).push(s.last()) =~= s.remove(i));
    }
}

/// Every element of `without_process(s, id)` occurs in `s`.
proof fn lemma_without_process_is_subset(s: Seq<ProcessInfo>, id: Seq<char>, x: int)
    requires
        0 <= x < without_process(s, id).len(),
    ensures
        exists|k: int| 0 <= k < s.len() && #[trigger] s[k] == without_process(s, id)[x],
    decreases s.len(),
{
    if s.len() > 0 {
        let d = s.drop_last();
        let w = without_process(s, id);
        if s.last().process_id@ == id {
            lemma_without_process_is_subset(d, id, x);
            let k = choose|k: int|
                0 <= k < d.len() && #[trigger] d[k] == without_process(d, id)[x];
            assert(s[k] == w[x]);
        } else {
            if x < w.len() - 1 {
                lemma_without_process_is_subset(d, id, x);
                let k = choose|k: int|
                    0 <= k < d.len() && #[trigger] d[k] == without_process(d, id)[x];
                assert(s[k] == w[x]);
            } else {
                assert(s[s.len() - 1] == w[x]);
            }
        }
    }
}

proof fn lemma_without_process_preserves_unique(s: Seq<ProcessInfo>, id: Seq<char>)
    requires
        unique_process_ids(s),
    ensures
        unique_process_ids(without_process(s, id)),
    decreases s.len(),
{
    if s.len() > 0 {
        let d = s.drop_last();
        assert(unique_process_ids(d)) by {
            assert(forall|x: int| 0 <= x < d.len() ==> #[trigger] d[x] == s[x]);
        }
        lemma_without_process_preserves_unique(d, id);
        if s.last().process_id@ != id {
            let w = without_process(d, id);
            assert forall|x: int, y: int|
                0 <= x < y < w.push(s.last()).len() implies (#[trigger] w.push(s.last())[x])
                .process_id@ != (#[trigger] w.push(s.last())[y]).process_id@ by {
                if y == w.len() {
                    lemma_without_process_is_subset(d, id, x);
                } else {
                    assert(w[x].process_id@ != w[y].process_id@);
                }
            }
        }
    }
}

proof fn lemma_without_process_has_no_id(s: Seq<ProcessInfo>, id: Seq<char>, x: int)
    requires
        0 <= x < without_process(s, id).len(),
    ensures
        without_process(s, id)[x].process_id@ != id,
    decreases s.len(),
{
    if s.len() > 0 {
        let d = s.drop_last();
        let w = without_process(s, id);
        if s.last().process_id@ == id {
            lemma_without_process_has_no_id(d, id, x);
        } else {
            if x < w.len() - 1 {
                lemma_without_process_has_no_id(d, id, x);
            }
        }
    }
}

/// A field-for-field copy whose equality Verus can see.
pub fn duplicate_process(p: &ProcessInfo) -> (r: ProcessInfo)
    ensures
        r == *p,
{
    ProcessInfo {
        process_id: p.process_id.clone(),
        project_id: p.project_id.clone(),
        project_name: p.project_name.clone(),
        status: p.status,
        started_at: p.started_at,
        pid: p.pid,
    }
}

/// Tracks the running dev-server processes of all projects.
pub struct ProcessManager {
    processes: Vec<ProcessInfo>,
}

impl ProcessManager {
    /// The tracked records, in tracking order.
    pub closed spec fn processes_seq(self) -> Seq<ProcessInfo> {
        self.processes@
    }

    /// Well-formed: process ids are unique.
    pub open spec fn wf(self) -> bool {
        unique_process_ids(self.processes_seq())
    }

    /// A supervisor tracking no processes.
    pub fn new() -> (r: ProcessManager)
        ensures
            r.wf(),
            r.processes_seq().len() == 0,
    {
        ProcessManager { processes: Vec::new() }
    }

    fn find_process(&self, process_id: &str) -> (r: Option<usize>)
        ensures
            match r {
                Some(i) => i < self.processes@.len() && self.processes@[i as int].process_id@
                    == process_id@,
                None => !has_process(self.processes@, process_id@),
            },
    {
        let n = self.processes.len();
        let mut i: usize = 0;
        while i < n
            invariant
                i <= n,
                n == self.processes@.len(),
                forall|j: int|
                    0 <= j < i ==> (#[trigger] self.processes@[j]).process_id@ != process_id@,
            decreases n - i,
        {
            if text::str_eq(self.processes[i].process_id.as_str(), process_id) {
                return Some(i);
            }
            i = i + 1;
        }
        None
    }

    /// Tracks a process the caller has just spawned, under a freshly
    /// generated process id, marked `Running` and stamped with the clock.
    /// Returns the copy handed to callers; the tracked record is identical.
    pub fn register(&mut self, project_id: String, project_name: String, pid: Option<u32>) -> (r:
        ProcessInfo)
        requires
            old(self).wf(),
        ensures
            final(self).wf(),
            r.process_id@.len() == 36,
            r.project_id@ == project_id@,
            r.project_name@ == project_name@,
            r.status == ProcessStatus::Running,
            r.pid == pid,
            final(self).processes_seq() == without_process(
                old(self).processes_seq(),
                r.process_id@,
            ).push(r),
            !has_process(old(self).processes_seq(), r.process_id@) ==> final(self).processes_seq()
                == old(self).processes_seq().push(r),
    {
        let process_id = shims::fresh_id();
        // a colliding id would leave two records under one key; drop the
        // old record first, as a keyed map insert would
        let ghost before = self.processes@;
        match self.find_process(process_id.as_str()) {
            Some(i) => {
                proof {
                    lemma_without_process_at(self.processes@, i as int, process_id@);
                }
                let _ = self.processes.remove(i);
            },
            None => {
                proof {
                    lemma_without_process_absent(self.processes@, process_id@);
                }
            },
        }
        let ghost mid = self.processes@;
        let record = ProcessInfo {
            process_id,
            project_id,
            project_name,
            status: ProcessStatus::Running,
            started_at: shims::now_millis(),
            pid,
        };
        let copy = duplicate_process(&record);
        self.processes.push(record);
        proof {
            assert(self.processes@ =~= without_process(before, copy.process_id@).push(copy));
            assert forall|x: int, y: int|
                0 <= x < y < self.processes@.len() implies (#[trigger] self.processes@[x])
                .process_id@ != (#[trigger] self.processes@[y]).process_id@ by {
                if y < self.processes@.len() - 1 {
                    lemma_without_process_preserves_unique(before, copy.process_id@);
                    assert(mid[x].process_id@ != mid[y].process_id@);
                } else {
                    lemma_without_process_has_no_id(before, copy.process_id@, x);
                }
            }
            if !has_process(before, copy.process_id@) {
                lemma_without_process_absent(before, copy.process_id@);
                assert(self.processes@ =~= before.push(copy));
            }
        }
        copy
    }

    /// Forgets the record and returns it so the caller can kill the
    /// process tree; removal comes first, so a second concurrent stop
    /// observes `NotFound` rather than killing twice. A later lookup of
    /// this id finds nothing.
    pub fn stop_project(&mut self, process_id: &str) -> (r: Result<ProcessInfo, LauncherError>)
        requires
            old(self).wf(),
        ensures
            final(self).wf(),
            !has_process(old(self).processes_seq(), process_id@) ==> (r matches Err(
                LauncherError::NotFound,
            )) && *final(self) == *old(self),
            forall|i: int|
                0 <= i < old(self).processes_seq().len() && (#[trigger] old(self).processes_seq()[i])
                    .process_id@ == process_id@ ==> (r matches Ok(p) && p == old(self).processes_seq()[i])
                    && final(self).processes_seq() == old(self).processes_seq().remove(i),
            r is Ok ==> !has_process(final(self).processes_seq(), process_id@),
    {
        let found = self.find_process(process_id);
        match found {
            None => Err(LauncherError::NotFound),
            Some(i) => {
                proof {
                    assert forall|j: int|
                        0 <= j < self.processes@.len() && (#[trigger] self.processes@[j])
                            .process_id@ == process_id@ implies j == i as int by {}
                }
                let ghost before = self.processes@;
                let record = self.processes.remove(i);
                proof {
                    assert forall|x: int, y: int|
                        0 <= x < y < self.processes@.len() implies (#[trigger] self.processes@[x])
                        .process_id@ != (#[trigger] self.processes@[y]).process_id@ by {
                        if x < i as int {
                            assert(self.processes@[x] == before[x]);
                        } else {
                            assert(self.processes@[x] == before[x + 1]);
                        }
                        if y < i as int {
                            assert(self.processes@[y] == before[y]);
                        } else {
                            assert(self.processes@[y] == before[y + 1]);
                        }
                    }
                    assert forall|x: int|
                        0 <= x < self.processes@.len() implies (#[trigger] self.processes@[x])
                        .process_id@ != process_id@ by {
                        if x < i as int {
                            assert(self.processes@[x] == before[x]);
                        } else {
                            assert(self.processes@[x] == before[x + 1]);
                        }
                    }
                }
                Ok(record)
            },
        }
    }

    /// The ids of all tracked processes, in tracking order.
    pub fn get_all_processes(&self) -> (r: Vec<String>)
        ensures
            r@.len() == self.processes_seq().len(),
            forall|i: int|
                0 <= i < r@.len() ==> (#[trigger] r@[i])@ == self.processes_seq()[i].process_id@,
    {
        let n = self.processes.len();
        let mut out: Vec<String> = Vec::new();
        let mut i: usize = 0;
        while i < n
            invariant
                i <= n,
                n == self.processes@.len(),
                out@.len() == i,
                forall|j: int|
                    0 <= j < i ==> (#[trigger] out@[j])@ == self.processes@[j].process_id@,
            decreases n - i,
        {
            out.push(self.processes[i].process_id.clone());
            i = i + 1;
        }
        out
    }

    /// Whether a record with this id is tracked.
    pub fn is_running(&self, process_id: &str) -> (r: bool)
        ensures
            r == has_process(self.processes_seq(), process_id@),
    {
        match self.find_process(process_id) {
            Some(_) => true,
            None => false,
        }
    }

    /// Copies of all tracked records, in tracking order.
    pub fn running_records(&self) -> (r: Vec<ProcessInfo>)
        ensures
            r@ == self.processes_seq(),
    {
        let n = self.processes.len();
        let mut out: Vec<ProcessInfo> = Vec::new();
        let mut i: usize = 0;
        while i < n
            invariant
                i <= n,
                n == self.processes@.len(),
                out@ == self.processes@.subrange(0, i as int),
            decreases n - i,
        {
            out.push(duplicate_process(&self.processes[i]));
            proof {
                assert(out@ =~= self.processes@.subrange(0, i + 1));
            }
            i = i + 1;
        }
        proof {
            assert(self.processes@.subrange(0, n as int) =~= self.processes@);
        }
        out
    }

    /// Forgets every record and returns them all, so the caller can kill
    /// each process tree; used at application shutdown.
    pub fn stop_all(&mut self) -> (r: Vec<ProcessInfo>)
        requires
            old(self).wf(),
        ensures
            final(self).wf(),
            final(self).processes_seq().len() == 0,
            r@ == old(self).processes_seq(),
    {
        let out = self.running_records();
        self.processes.clear();
        out
    }

    /// The shell invocation for one supported one-shot task kind.
    pub fn task_command(task: &str) -> (r: Result<(String, Vec<String>), LauncherError>)
        ensures
            task@ == "npm_install"@ ==> (r matches Ok(c) && c.0@ == "npm"@ && c.1@.len() == 1
                && c.1@[0]@ == "install"@),
            task@ == "pnpm_install"@ ==> (r matches Ok(c) && c.0@ == "pnpm"@ && c.1@.len() == 1
                && c.1@[0]@ == "install"@),
            task@ == "npm_deploy"@ ==> (r matches Ok(c) && c.0@ == "npm"@ && c.1@.len() == 2
                && c.1@[0]@ == "run"@ && c.1@[1]@ == "deploy"@),
            task@ != "npm_install"@ && task@ != "pnpm_install"@ && task@ != "npm_deploy"@ ==> r
                matches Err(LauncherError::UnsupportedTask),
    {
        proof {
            // revealing the literals tells the three task names apart
            reveal_strlit("npm_install");
            reveal_strlit("pnpm_install");
            reveal_strlit("npm_deploy");
            assert("npm_install"@.len() == 11);
            assert("pnpm_install"@.len() == 12);
            assert("npm_deploy"@.len() == 10);
        }
        if text::str_eq(task, "npm_install") {
            let mut args: Vec<String> = Vec::new();
            args.push(String::from_str("install"));
            Ok((String::from_str("npm"), args))
        } else if text::str_eq(task, "pnpm_install") {
            let mut args: Vec<String> = Vec::new();
            args.push(String::from_str("install"));
            Ok((String::from_str("pnpm"), args))
        } else if text::str_eq(task, "npm_deploy") {
            let mut args: Vec<String> = Vec::new();
            args.push(String::from_str("run"));
            args.push(String::from_str("deploy"));
            Ok((String::from_str("npm"), args))
        } else {
            Err(LauncherError::UnsupportedTask)
        }
    }

    /// What a finished one-shot task reports: success only on a zero exit,
    /// otherwise the exit code, with -1 standing for an unknown code.
    pub fn task_outcome(success: bool, code: Option<i32>) -> (r: Result<(), LauncherError>)
        ensures
            r == (if success {
                Ok::<(), LauncherError>(())
            } else {
                Err::<(), LauncherError>(
                    LauncherError::TaskFailed(
                        match code {
                            Some(c) => c,
                            None => -1i32,
                        },
                    ),
                )
            }),
    {
        if success {
            Ok(())
        } else {
            match code {
                Some(c) => Err(LauncherError::TaskFailed(c)),
                None => Err(LauncherError::TaskFailed(-1)),
            }
        }
    }
}

} // verus!
