//! Deterministic port-conflict resolution for a batch of projects against
//! a set of globally reserved ports. Whether a port is OS-bindable is a
//! probe the embedding application performs; it hands the observed
//! unbindable ports in as data, so the whole pass is a pure function of
//! its inputs and is processed in input order: the earlier project wins a
//! contested port.

use vstd::prelude::*;
use crate::errors::LauncherError;
use crate::models::{PortChange, ProjectInfo};
use crate::workspace::Workspace;

verus! {

broadcast use vstd::set::group_set_axioms;

/// The ports named by a list, as a set.
pub open spec fn set_of(s: Seq<u16>) -> Set<u16> {
    Set::new(|p: u16| s.contains(p))
}

/// A port can be taken: not yet consumed in this pass and OS-bindable.
pub open spec fn port_free(p: u16, consumed: Set<u16>, unbindable: Set<u16>) -> bool {
    !consumed.contains(p) && !unbindable.contains(p)
}

/// The linear forward scan: the first free port in `q ..= range_end`.
pub open spec fn scan_from(q: u16, range_end: u16, consumed: Set<u16>, unbindable: Set<u16>) -> Option<u16>
    decreases range_end - q,
{
    if q > range_end {
        None
    } else if port_free(q, consumed, unbindable) {
        Some(q)
    } else if q == range_end {
        None
    } else {
        scan_from((q + 1) as u16, range_end, consumed, unbindable)
    }
}

/// The consumed-set before project `k` is processed: the global ports
/// plus every port assigned to an earlier project.
pub open spec fn consumed_before(
    ps: Seq<ProjectInfo>,
    k: int,
    init: Set<u16>,
    unbindable: Set<u16>,
    range_end: u16,
) -> Set<u16>
    decreases k, 0int,
{
    if k <= 0 {
        init
    } else {
        let prev = consumed_before(ps, k - 1, init, unbindable, range_end);
        match assigned_at(ps, k - 1, init, unbindable, range_end) {
            Some(p) => prev.insert(p),
            None => prev,
        }
    }
}

/// The port project `k` ends up with: its requested port when that is
/// free, else the first free port of the forward scan; `None` when the
/// scan exhausts the range.
pub open spec fn assigned_at(
    ps: Seq<ProjectInfo>,
    k: int,
    init: Set<u16>,
    unbindable: Set<u16>,
    range_end: u16,
) -> Option<u16>
    decreases k, 1int,
{
    let c = consumed_before(ps, k, init, unbindable, range_end);
    let req = ps[k].port;
    if port_free(req, c, unbindable) {
        Some(req)
    } else {
        scan_from(req, range_end, c, unbindable)
    }
}

/// The reassignment records produced for the first `k` projects, as
/// (project name, old port, new port) triples.
pub open spec fn changes_upto(
    ps: Seq<ProjectInfo>,
    k: int,
    init: Set<u16>,
    unbindable: Set<u16>,
    range_end: u16,
) -> Seq<(Seq<char>, u16, u16)>
    decreases k, 2int,
{
    if k <= 0 {
        Seq::empty()
    } else {
        let prev = changes_upto(ps, k - 1, init, unbindable, range_end);
        let c = consumed_before(ps, k - 1, init, unbindable, range_end);
        let req = ps[k - 1].port;
        if port_free(req, c, unbindable) {
            prev
        } else {
            match assigned_at(ps, k - 1, init, unbindable, range_end) {
                Some(p) => prev.push((ps[k - 1].name@, req, p)),
                None => prev,
            }
        }
    }
}

/// A project record with only its port replaced.
pub open spec fn with_port(p: ProjectInfo, q: u16) -> ProjectInfo {
    ProjectInfo { port: q, ..p }
}

/// The views of produced `PortChange` records.
pub open spec fn change_views(s: Seq<PortChange>) -> Seq<(Seq<char>, u16, u16)> {
    s.map_values(|c: PortChange| (c.project_name@, c.old_port, c.new_port))
}

/// Every project of the batch can be assigned a port.
pub open spec fn all_assignable(
    ps: Seq<ProjectInfo>,
    init: Set<u16>,
    unbindable: Set<u16>,
    range_end: u16,
) -> bool {
    forall|k: int| 0 <= k < ps.len() ==> assigned_at(ps, k, init, unbindable, range_end) is Some
}

/// What a successful pass leaves behind: each project carries its
/// assigned port, everything else of it untouched, and the change list
/// records exactly the reassignments, in order.
pub open spec fn resolve_ok(
    before: Seq<ProjectInfo>,
    after: Seq<ProjectInfo>,
    changes: Seq<PortChange>,
    init: Set<u16>,
    unbindable: Set<u16>,
    range_end: u16,
) -> bool {
    &&& after.len() == before.len()
    &&& forall|k: int|
        0 <= k < before.len() ==> after[k] == with_port(
            before[k],
            assigned_at(before, k, init, unbindable, range_end)->0,
        )
    &&& change_views(changes) == changes_upto(
        before,
        before.len() as int,
        init,
        unbindable,
        range_end,
    )
}

/// What a failed pass leaves behind: the first project whose scan
/// exhausts the range is named in the error, earlier projects keep their
/// (possibly reassigned) ports — the pass is deliberately not
/// transactional — and later projects are untouched.
pub open spec fn resolve_err(
    before: Seq<ProjectInfo>,
    after: Seq<ProjectInfo>,
    e: LauncherError,
    init: Set<u16>,
    unbindable: Set<u16>,
    range_end: u16,
) -> bool {
    exists|k: int|
        #![auto]
        {
            &&& 0 <= k < before.len()
            &&& assigned_at(before, k, init, unbindable, range_end) is None
            &&& forall|j: int|
                0 <= j < k ==> assigned_at(before, j, init, unbindable, range_end) is Some
            &&& e matches LauncherError::PortExhausted(nm) && nm@ == before[k].name@
            &&& after.len() == before.len()
            &&& forall|j: int|
                0 <= j < k ==> after[j] == with_port(
                    before[j],
                    assigned_at(before, j, init, unbindable, range_end)->0,
                )
            &&& forall|j: int| k <= j < before.len() ==> after[j] == before[j]
        }
}

/// The forward scan returns the smallest free port at or above `q` and
/// within the range, and `None` exactly when there is none.
pub proof fn lemma_scan_minimal(q: u16, range_end: u16, consumed: Set<u16>, unbindable: Set<u16>)
    ensures
        match scan_from(q, range_end, consumed, unbindable) {
            Some(p) => q <= p <= range_end && port_free(p, consumed, unbindable) && forall|x: u16|
                q <= x < p ==> !port_free(x, consumed, unbindable),
            None => forall|x: u16| q <= x <= range_end ==> !port_free(x, consumed, unbindable),
        },
    decreases range_end - q,
{
    if q > range_end {
    } else if port_free(q, consumed, unbindable) {
    } else if q == range_end {
    } else {
        lemma_scan_minimal((q + 1) as u16, range_end, consumed, unbindable);
    }
}

/// A project whose requested port is free at its turn keeps it, and no
/// reassignment is recorded for it.
pub proof fn lemma_free_request_kept(
    ps: Seq<ProjectInfo>,
    k: int,
    init: Set<u16>,
    unbindable: Set<u16>,
    range_end: u16,
)
    requires
        0 <= k < ps.len(),
        port_free(ps[k].port, consumed_before(ps, k, init, unbindable, range_end), unbindable),
    ensures
        assigned_at(ps, k, init, unbindable, range_end) == Some(ps[k].port),
        changes_upto(ps, k + 1, init, unbindable, range_end) == changes_upto(
            ps,
            k,
            init,
            unbindable,
            range_end,
        ),
{
}

/// A project whose requested port is consumed or unbindable at its turn
/// is moved to the smallest free port at or above the request and within
/// the range; when there is none, no port is assigned and the pass fails.
pub proof fn lemma_reassignment_minimal(
    ps: Seq<ProjectInfo>,
    k: int,
    init: Set<u16>,
    unbindable: Set<u16>,
    range_end: u16,
)
    requires
        0 <= k < ps.len(),
        !port_free(ps[k].port, consumed_before(ps, k, init, unbindable, range_end), unbindable),
    ensures
        match assigned_at(ps, k, init, unbindable, range_end) {
            Some(p) => ps[k].port <= p <= range_end && port_free(
                p,
                consumed_before(ps, k, init, unbindable, range_end),
                unbindable,
            ) && forall|x: u16|
                ps[k].port <= x < p ==> !port_free(
                    x,
                    consumed_before(ps, k, init, unbindable, range_end),
                    unbindable,
                ),
            None => forall|x: u16|
                ps[k].port <= x <= range_end ==> !port_free(
                    x,
                    consumed_before(ps, k, init, unbindable, range_end),
                    unbindable,
                ),
        },
        (assigned_at(ps, k, init, unbindable, range_end) matches Some(p) ==> p != ps[k].port),
{
    lemma_scan_minimal(
        ps[k].port,
        range_end,
        consumed_before(ps, k, init, unbindable, range_end),
        unbindable,
    );
}

/// The consumed-set only grows over the pass.
proof fn lemma_consumed_monotonic(
    ps: Seq<ProjectInfo>,
    i: int,
    j: int,
    init: Set<u16>,
    unbindable: Set<u16>,
    range_end: u16,
)
    requires
        0 <= i <= j,
    ensures
        consumed_before(ps, i, init, unbindable, range_end) <= consumed_before(
            ps,
            j,
            init,
            unbindable,
            range_end,
        ),
    decreases j - i,
{
    if i < j {
        lemma_consumed_monotonic(ps, i, j - 1, init, unbindable, range_end);
    }
}

/// An assigned port is free at its own turn.
proof fn lemma_assigned_free(
    ps: Seq<ProjectInfo>,
    k: int,
    init: Set<u16>,
    unbindable: Set<u16>,
    range_end: u16,
)
    requires
        0 <= k < ps.len(),
        assigned_at(ps, k, init, unbindable, range_end) is Some,
    ensures
        port_free(
            assigned_at(ps, k, init, unbindable, range_end)->0,
            consumed_before(ps, k, init, unbindable, range_end),
            unbindable,
        ),
{
    let c = consumed_before(ps, k, init, unbindable, range_end);
    if !port_free(ps[k].port, c, unbindable) {
        lemma_scan_minimal(ps[k].port, range_end, c, unbindable);
    }
}

/// No two projects of one pass are assigned the same port: once a port
/// is given out it enters the consumed-set, and every later assignment
/// is free at its own turn.
pub proof fn lemma_assignments_distinct(
    ps: Seq<ProjectInfo>,
    i: int,
    j: int,
    init: Set<u16>,
    unbindable: Set<u16>,
    range_end: u16,
)
    requires
        0 <= i < j < ps.len(),
        assigned_at(ps, i, init, unbindable, range_end) is Some,
        assigned_at(ps, j, init, unbindable, range_end) is Some,
    ensures
        assigned_at(ps, i, init, unbindable, range_end)->0 != assigned_at(
            ps,
            j,
            init,
            unbindable,
            range_end,
        )->0,
{
    let p = assigned_at(ps, i, init, unbindable, range_end)->0;
    assert(consumed_before(ps, i + 1, init, unbindable, range_end).contains(p));
    lemma_consumed_monotonic(ps, i + 1, j, init, unbindable, range_end);
    lemma_assigned_free(ps, j, init, unbindable, range_end);
}

/// Two projects in one batch requesting the same port: when the earlier
/// one keeps it, the later one is always reassigned away from it.
pub proof fn lemma_same_request_later_moves(
    ps: Seq<ProjectInfo>,
    i: int,
    j: int,
    init: Set<u16>,
    unbindable: Set<u16>,
    range_end: u16,
)
    requires
        0 <= i < j < ps.len(),
        ps[i].port == ps[j].port,
        assigned_at(ps, i, init, unbindable, range_end) == Some(ps[i].port),
        assigned_at(ps, j, init, unbindable, range_end) is Some,
    ensures
        assigned_at(ps, j, init, unbindable, range_end) != Some(ps[j].port),
{
    lemma_assignments_distinct(ps, i, j, init, unbindable, range_end);
}

fn vec_contains_u16(v: &Vec<u16>, p: u16) -> (r: bool)
    ensures
        r == v@.contains(p),
{
    let n = v.len();
    let mut i: usize = 0;
    while i < n
        invariant
            i <= n,
            n == v@.len(),
            forall|j: int| 0 <= j < i ==> v@[j] != p,
        decreases n - i,
    {
        if v[i] == p {
            return true;
        }
        i = i + 1;
    }
    false
}

proof fn lemma_set_of_push(s: Seq<u16>, p: u16)
    ensures
        set_of(s.push(p)) =~= set_of(s).insert(p),
{
    assert forall|x: u16| set_of(s.push(p)).contains(x) implies set_of(s).insert(p).contains(x) by {
        let i = choose|i: int| 0 <= i < s.push(p).len() && s.push(p)[i] == x;
        if i < s.len() {
            assert(s[i] == x);
        }
    }
    assert forall|x: u16| set_of(s).insert(p).contains(x) implies set_of(s.push(p)).contains(x) by {
        if x == p {
            assert(s.push(p)[s.len() as int] == x);
        } else {
            let i = choose|i: int| 0 <= i < s.len() && s[i] == x;
            assert(s.push(p)[i] == x);
        }
    }
}

/// Resolves port conflicts for a batch of projects; owns no state across
/// passes beyond the working set it rebuilds each time.
pub struct PortManager {
    used_ports: Vec<u16>,
    range_start: u16,
    range_end: u16,
}

impl PortManager {
    /// The working set of this pass.
    pub closed spec fn used_seq(self) -> Seq<u16> {
        self.used_ports@
    }

    /// The inclusive lower bound of the configured range.
    pub closed spec fn spec_range_start(self) -> u16 {
        self.range_start
    }

    /// The inclusive upper bound of the forward scan.
    pub closed spec fn spec_range_end(self) -> u16 {
        self.range_end
    }

    /// An allocator for the given range, with an empty working set.
    pub fn new(range_start: u16, range_end: u16) -> (r: PortManager)
        ensures
            r.spec_range_start() == range_start,
            r.spec_range_end() == range_end,
            r.used_seq().len() == 0,
    {
        PortManager { used_ports: Vec::new(), range_start, range_end }
    }

    fn find_next_port(&self, start: u16, unbindable: &Vec<u16>) -> (r: Option<u16>)
        ensures
            r == scan_from(
                start,
                self.spec_range_end(),
                set_of(self.used_seq()),
                set_of(unbindable@),
            ),
    {
        let re = self.range_end;
        if start > re {
            return None;
        }
        let ghost consumed = set_of(self.used_ports@);
        let ghost ub = set_of(unbindable@);
        let mut q: u16 = start;
        loop
            invariant
                start <= q <= re,
                re == self.range_end,
                consumed == set_of(self.used_ports@),
                ub == set_of(unbindable@),
                scan_from(start, re, consumed, ub) == scan_from(q, re, consumed, ub),
            decreases re - q,
        {
            let avail = !vec_contains_u16(unbindable, q);
            let used = vec_contains_u16(&self.used_ports, q);
            if avail && !used {
                return Some(q);
            }
            if q == re {
                return None;
            }
            q = q + 1;
        }
    }

    /// One deterministic resolution pass, in input order. Seeds the
    /// consumed-set from `global_used_ports`; `unbindable` lists the ports
    /// the caller observed as not bindable on loopback. Each project keeps
    /// its requested port when that is free, and is otherwise moved to the
    /// first free port of the forward scan, recorded as a `PortChange`;
    /// when the scan exhausts the range the pass stops at that project
    /// with `PortExhausted`, keeping earlier reassignments.
    pub fn resolve_conflicts(
        &mut self,
        projects: &mut Vec<ProjectInfo>,
        global_used_ports: &Vec<u16>,
        unbindable: &Vec<u16>,
    ) -> (r: Result<Vec<PortChange>, LauncherError>)
        ensures
            final(self).spec_range_start() == old(self).spec_range_start(),
            final(self).spec_range_end() == old(self).spec_range_end(),
            r is Ok <==> all_assignable(
                old(projects)@,
                set_of(global_used_ports@),
                set_of(unbindable@),
                old(self).spec_range_end(),
            ),
            r matches Ok(chs) ==> resolve_ok(
                old(projects)@,
                final(projects)@,
                chs@,
                set_of(global_used_ports@),
                set_of(unbindable@),
                old(self).spec_range_end(),
            ),
            r matches Err(e) ==> resolve_err(
                old(projects)@,
                final(projects)@,
                e,
                set_of(global_used_ports@),
                set_of(unbindable@),
                old(self).spec_range_end(),
            ),
    {
        let ghost ps0 = projects@;
        let ghost gu = set_of(global_used_ports@);
        let ghost ub = set_of(unbindable@);
        let ghost re = self.range_end;

        self.used_ports.clear();
        let gn = global_used_ports.len();
        let mut g: usize = 0;
        while g < gn
            invariant
                g <= gn,
                gn == global_used_ports@.len(),
                self.used_ports@ == global_used_ports@.subrange(0, g as int),
                self.range_end == re,
                re == old(self).spec_range_end(),
                self.range_start == old(self).spec_range_start(),
            decreases gn - g,
        {
            self.used_ports.push(global_used_ports[g]);
            proof {
                assert(self.used_ports@ =~= global_used_ports@.subrange(0, g + 1));
            }
            g = g + 1;
        }
        proof {
            assert(global_used_ports@.subrange(0, gn as int) =~= global_used_ports@);
            assert(set_of(self.used_ports@) =~= consumed_before(ps0, 0, gu, ub, re));
        }

        let mut changes: Vec<PortChange> = Vec::new();
        let n = projects.len();
        let mut i: usize = 0;
        while i < n
            invariant
                i <= n,
                n == projects@.len(),
                ps0.len() == n,
                ps0 == old(projects)@,
                gu == set_of(global_used_ports@),
                ub == set_of(unbindable@),
                self.range_end == re,
                re == old(self).spec_range_end(),
                self.range_start == old(self).spec_range_start(),
                set_of(self.used_ports@) == consumed_before(ps0, i as int, gu, ub, re),
                forall|k: int| 0 <= k < i ==> assigned_at(ps0, k, gu, ub, re) is Some,
                forall|k: int|
                    0 <= k < i ==> projects@[k] == with_port(
                        ps0[k],
                        assigned_at(ps0, k, gu, ub, re)->0,
                    ),
                forall|k: int| i <= k < n ==> projects@[k] == ps0[k],
                change_views(changes@) == changes_upto(ps0, i as int, gu, ub, re),
            decreases n - i,
        {
            let ghost consumed = set_of(self.used_ports@);
            let requested = projects[i].port;
            let avail = !vec_contains_u16(unbindable, requested);
            let used = vec_contains_u16(&self.used_ports, requested);
            if avail && !used {
                let ghost before_used = self.used_ports@;
                self.used_ports.push(requested);
                proof {
                    lemma_set_of_push(before_used, requested);
                    assert(projects@[i as int] == ps0[i as int]);
                    assert(set_of(before_used).contains(requested) == before_used.contains(
                        requested,
                    ));
                    assert(set_of(unbindable@).contains(requested) == unbindable@.contains(
                        requested,
                    ));
                    assert(port_free(requested, consumed, ub));
                    assert(assigned_at(ps0, i as int, gu, ub, re) == Some(requested));
                    assert(set_of(self.used_ports@) =~= consumed_before(ps0, i + 1, gu, ub, re));
                    assert(projects@[i as int] == with_port(ps0[i as int], requested));
                }
            } else {
                proof {
                    assert(!port_free(requested, consumed, ub));
                }
                match self.find_next_port(requested, unbindable) {
                    None => {
                        let e = LauncherError::PortExhausted(projects[i].name.clone());
                        proof {
                            let k = i as int;
                            assert(assigned_at(ps0, k, gu, ub, re) is None);
                            assert(e matches LauncherError::PortExhausted(nm) && nm@
                                == ps0[k].name@);
                            assert(forall|j: int|
                                0 <= j < k ==> assigned_at(ps0, j, gu, ub, re) is Some);
                            assert(forall|j: int|
                                0 <= j < k ==> projects@[j] == with_port(
                                    ps0[j],
                                    assigned_at(ps0, j, gu, ub, re)->0,
                                ));
                            assert(forall|j: int| k <= j < ps0.len() ==> projects@[j] == ps0[j]);
                            assert(resolve_err(ps0, projects@, e, gu, ub, re));
                        }
                        return Err(e);
                    },
                    Some(new_port) => {
                        let name = projects[i].name.clone();
                        changes.push(
                            PortChange { project_name: name, old_port: requested, new_port },
                        );
                        let ghost before_projects = projects@;
                        let p = projects.remove(i);
                        let moved = ProjectInfo { port: new_port, ..p };
                        projects.insert(i, moved);
                        let ghost before_used = self.used_ports@;
                        self.used_ports.push(new_port);
                        proof {
                            assert(projects@ =~= before_projects.update(
                                i as int,
                                with_port(ps0[i as int], new_port),
                            ));
                            assert(assigned_at(ps0, i as int, gu, ub, re) == Some(new_port));
                            lemma_set_of_push(before_used, new_port);
                            assert(set_of(self.used_ports@) =~= consumed_before(
                                ps0,
                                i + 1,
                                gu,
                                ub,
                                re,
                            ));
                            assert(projects@[i as int] == with_port(ps0[i as int], new_port));
                            assert(change_views(changes@) =~= changes_upto(ps0, i + 1, gu, ub, re));
                        }
                    },
                }
            }
            i = i + 1;
        }
        proof {
            assert(resolve_ok(ps0, projects@, changes@, gu, ub, re));
        }
        Ok(changes)
    }
}

/// The first project carrying this name, if any; used to apply a
/// `PortChange` back to the project it names.
pub fn find_project_by_name(projects: &Vec<ProjectInfo>, name: &str) -> (r: Option<usize>)
    ensures
        match r {
            Some(i) => i < projects@.len() && projects@[i as int].name@ == name@ && forall|j: int|
                0 <= j < i ==> (#[trigger] projects@[j]).name@ != name@,
            None => forall|j: int|
                0 <= j < projects@.len() ==> (#[trigger] projects@[j]).name@ != name@,
        },
{
    let n = projects.len();
    let mut i: usize = 0;
    while i < n
        invariant
            i <= n,
            n == projects@.len(),
            forall|j: int| 0 <= j < i ==> (#[trigger] projects@[j]).name@ != name@,
        decreases n - i,
    {
        if crate::text::str_eq(projects[i].name.as_str(), name) {
            return Some(i);
        }
        i = i + 1;
    }
    None
}

/// The declared ports of the first `k` projects marked valid.
pub open spec fn valid_ports_of(ps: Seq<ProjectInfo>, k: int) -> Set<u16>
    decreases k,
{
    if k <= 0 {
        Set::empty()
    } else {
        let rest = valid_ports_of(ps, k - 1);
        if ps[k - 1].is_valid {
            rest.insert(ps[k - 1].port)
        } else {
            rest
        }
    }
}

/// The ports reserved by the first `k` workspaces other than the current
/// one: every valid project's declared port, whether or not it runs.
pub open spec fn global_ports_of(ws: Seq<Workspace>, current: Seq<char>, k: int) -> Set<u16>
    decreases k,
{
    if k <= 0 {
        Set::empty()
    } else {
        let rest = global_ports_of(ws, current, k - 1);
        if ws[k - 1].id@ == current {
            rest
        } else {
            rest.union(valid_ports_of(ws[k - 1].projects@, ws[k - 1].projects@.len() as int))
        }
    }
}

/// Gathers the ports reserved by all other workspaces, skipping the one
/// being resolved: the declared port of every project marked valid,
/// regardless of whether that project is running — reservation is
/// deliberately conservative. The result lists each port once.
pub fn collect_global_used_ports(workspaces: &Vec<Workspace>, current_workspace_id: &str) -> (r:
    Vec<u16>)
    ensures
        set_of(r@) == global_ports_of(
            workspaces@,
            current_workspace_id@,
            workspaces@.len() as int,
        ),
{
    let wn = workspaces.len();
    let mut acc: Vec<u16> = Vec::new();
    let mut w: usize = 0;
    while w < wn
        invariant
            w <= wn,
            wn == workspaces@.len(),
            set_of(acc@) == global_ports_of(workspaces@, current_workspace_id@, w as int),
        decreases wn - w,
    {
        if !crate::text::str_eq(workspaces[w].id.as_str(), current_workspace_id) {
            let ghost outer = set_of(acc@);
            let projects = &workspaces[w].projects;
            let pn = projects.len();
            let mut p: usize = 0;
            while p < pn
                invariant
                    p <= pn,
                    w < wn,
                    wn == workspaces@.len(),
                    pn == workspaces@[w as int].projects@.len(),
                    projects@ == workspaces@[w as int].projects@,
                    outer == global_ports_of(workspaces@, current_workspace_id@, w as int),
                    set_of(acc@) == outer.union(valid_ports_of(projects@, p as int)),
                decreases pn - p,
            {
                if projects[p].is_valid {
                    let port = projects[p].port;
                    let present = vec_contains_u16(&acc, port);
                    let ghost before = acc@;
                    if !present {
                        acc.push(port);
                        proof {
                            lemma_set_of_push(before, port);
                        }
                    }
                    proof {
                        if present {
                            assert(set_of(before).contains(port));
                            assert(set_of(acc@) =~= outer.union(
                                valid_ports_of(projects@, p + 1),
                            ));
                        } else {
                            assert(set_of(acc@) =~= outer.union(
                                valid_ports_of(projects@, p + 1),
                            ));
                        }
                    }
                }
                p = p + 1;
            }
        }
        proof {
            assert(set_of(acc@) =~= global_ports_of(
                workspaces@,
                current_workspace_id@,
                w + 1,
            ));
        }
        w = w + 1;
    }
    acc
}

} // verus!
