//! The order in which a process tree dies: every process comes after all
//! of its descendants, and the root comes last. The embedding application
//! snapshots the tree from the OS, asks for the order, and then signals
//! each pid in turn (gracefully, then forcefully); a pid that already
//! exited is treated as success there.

use vstd::prelude::*;

verus! {

broadcast use vstd::std_specs::vec::axiom_vec_index_decreases;

/// A snapshot of one process and the processes it spawned.
#[derive(Debug)]
pub struct ProcessNode {
    pub pid: u32,
    pub children: Vec<ProcessNode>,
}

/// The kill order of a tree: each child's subtree first, in child order,
/// then the root itself.
pub open spec fn kill_order_of(n: ProcessNode) -> Seq<u32>
    decreases n, 1int,
{
    kill_order_of_kids(n.children, n.children@.len() as int) + seq![n.pid]
}

/// The kill order of the first `i` children, concatenated.
pub open spec fn kill_order_of_kids(kids: Vec<ProcessNode>, i: int) -> Seq<u32>
    decreases kids, 0int, i,
{
    if i <= 0 || i > kids@.len() {
        Seq::empty()
    } else {
        kill_order_of_kids(kids, i - 1) + kill_order_of(kids@[i - 1])
    }
}

/// `p` is the pid of `n` or of one of its descendants.
pub open spec fn in_tree(n: ProcessNode, p: u32) -> bool
    decreases n, 1int,
{
    p == n.pid || in_kids(n.children, n.children@.len() as int, p)
}

/// `p` is in one of the first `i` children's subtrees.
pub open spec fn in_kids(kids: Vec<ProcessNode>, i: int, p: u32) -> bool
    decreases kids, 0int, i,
{
    0 < i <= kids@.len() && (in_tree(kids@[i - 1], p) || in_kids(kids, i - 1, p))
}

/// The kill order of any tree ends with its root and is never empty.
pub proof fn lemma_kill_order_root_last(n: ProcessNode)
    ensures
        kill_order_of(n).len() >= 1,
        kill_order_of(n).last() == n.pid,
{
}

/// The kill order holds exactly the pids of the tree.
pub proof fn lemma_kill_order_complete(n: ProcessNode, p: u32)
    ensures
        kill_order_of(n).contains(p) <==> in_tree(n, p),
    decreases n, 1int,
{
    lemma_kids_complete(n.children, n.children@.len() as int, p);
    if p == n.pid {
        assert(kill_order_of(n).last() == p);
    }
    if kill_order_of(n).contains(p) {
        let i = choose|i: int| 0 <= i < kill_order_of(n).len() && kill_order_of(n)[i] == p;
        if i < kill_order_of(n).len() - 1 {
            assert(kill_order_of_kids(n.children, n.children@.len() as int).contains(p));
        }
    }
    if in_tree(n, p) && p != n.pid {
        let k = kill_order_of_kids(n.children, n.children@.len() as int);
        let i = choose|i: int| 0 <= i < k.len() && k[i] == p;
        assert(kill_order_of(n)[i] == p);
    }
}

proof fn lemma_kids_complete(kids: Vec<ProcessNode>, i: int, p: u32)
    requires
        i <= kids@.len(),
    ensures
        kill_order_of_kids(kids, i).contains(p) <==> in_kids(kids, i, p),
    decreases kids, 0int, i,
{
    if i > 0 {
        lemma_kids_complete(kids, i - 1, p);
        lemma_kill_order_complete(kids@[i - 1], p);
        let rest = kill_order_of_kids(kids, i - 1);
        let sub = kill_order_of(kids@[i - 1]);
        if rest.contains(p) {
            let x = choose|x: int| 0 <= x < rest.len() && rest[x] == p;
            assert((rest + sub)[x] == p);
        }
        if sub.contains(p) {
            let x = choose|x: int| 0 <= x < sub.len() && sub[x] == p;
            assert((rest + sub)[rest.len() + x] == p);
        }
        if (rest + sub).contains(p) {
            let x = choose|x: int| 0 <= x < (rest + sub).len() && (rest + sub)[x] == p;
            if x < rest.len() {
                assert(rest[x] == p);
            } else {
                assert(sub[x - rest.len()] == p);
            }
        }
    }
}

/// A child's whole subtree order stands unbroken inside the parent's
/// order, strictly before the parent's own pid (which comes last). With
/// `lemma_kill_order_root_last` this is the ordering rule of the tree
/// kill: every process dies only after all of its descendants.
pub proof fn lemma_child_order_embedded(n: ProcessNode, ci: int)
    requires
        0 <= ci < n.children@.len(),
    ensures
        exists|off: int|
            0 <= off && off + kill_order_of(n.children@[ci]).len() < kill_order_of(n).len()
                && #[trigger] kill_order_of(n).subrange(
                off,
                off + kill_order_of(n.children@[ci]).len(),
            ) == kill_order_of(n.children@[ci]),
{
    let kids_order = kill_order_of_kids(n.children, n.children@.len() as int);
    lemma_kids_order_embedded(n.children, n.children@.len() as int, ci);
    let off = choose|off: int|
        0 <= off && off + kill_order_of(n.children@[ci]).len() <= kids_order.len()
            && #[trigger] kids_order.subrange(off, off + kill_order_of(n.children@[ci]).len())
            == kill_order_of(n.children@[ci]);
    let clen = kill_order_of(n.children@[ci]).len();
    assert(kill_order_of(n).subrange(off, off + clen as int) =~= kids_order.subrange(
        off,
        off + clen as int,
    ));
}

proof fn lemma_kids_order_embedded(kids: Vec<ProcessNode>, i: int, ci: int)
    requires
        0 <= ci < i <= kids@.len(),
    ensures
        exists|off: int|
            0 <= off && off + kill_order_of(kids@[ci]).len() <= kill_order_of_kids(kids, i).len()
                && #[trigger] kill_order_of_kids(kids, i).subrange(
                off,
                off + kill_order_of(kids@[ci]).len(),
            ) == kill_order_of(kids@[ci]),
    decreases i,
{
    let rest = kill_order_of_kids(kids, i - 1);
    let sub = kill_order_of(kids@[i - 1]);
    let clen = kill_order_of(kids@[ci]).len();
    if ci == i - 1 {
        let off = rest.len() as int;
        assert(kill_order_of_kids(kids, i).subrange(off, off + clen as int) =~= sub);
    } else {
        lemma_kids_order_embedded(kids, i - 1, ci);
        let off = choose|off: int|
            0 <= off && off + clen <= rest.len() && #[trigger] rest.subrange(off, off + clen as int)
                == kill_order_of(kids@[ci]);
        assert(kill_order_of_kids(kids, i).subrange(off, off + clen as int) =~= rest.subrange(
            off,
            off + clen as int,
        ));
    }
}

/// Computes the kill order of a snapshot: deepest descendants first,
/// every parent after its children, the root last.
pub fn kill_order(node: &ProcessNode) -> (r: Vec<u32>)
    ensures
        r@ == kill_order_of(*node),
        r@.len() >= 1,
        r@.last() == node.pid,
    decreases *node,
{
    let mut out: Vec<u32> = Vec::new();
    let n = node.children.len();
    let mut i: usize = 0;
    while i < n
        invariant
            i <= n,
            n == node.children@.len(),
            out@ == kill_order_of_kids(node.children, i as int),
        decreases n - i,
    {
        let mut sub = kill_order(&node.children[i]);
        out.append(&mut sub);
        i = i + 1;
    }
    out.push(node.pid);
    proof {
        assert(out@ =~= kill_order_of(*node));
    }
    out
}

} // verus!
