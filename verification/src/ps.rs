//! The tree view of `ps`: processes under their parents.
//!
//! The processes are given as a table (the program reads them from the
//! system). A process is a root of the view if the walk up its parents stops
//! at it (no parent, or a parent that is not in the table), or if the walk
//! comes back to a process that an earlier walk went through, in which case
//! that process's parent is a root; every other process is shown under its
//! parent. Children come in the order of their names, then of the depth of
//! their subtrees, then of their ids; roots in the order of their ids.
use vstd::prelude::*;
use crate::flags::FlagSpec;
use crate::text::{chars_of, lemma_seq_lt_irreflexive, lemma_seq_lt_total, lemma_seq_lt_transitive, nat_to_decimal, seq_lt, string_of, u64_to_chars, vec_extend, vec_eq, vec_lt};

verus! {

/// A process as the tree view shows it.
pub struct ProcInfo {
    pub pid: u32,
    pub parent: Option<u32>,
    pub name: String,
    pub cmd: String,
}

/// Do the processes have distinct ids (as in a table keyed by id)?
pub open spec fn pids_distinct(ps: Seq<ProcInfo>) -> bool {
    forall|i: int, j: int| 0 <= i < ps.len() && 0 <= j < ps.len() && i != j ==> ps[i].pid != ps[j].pid
}

/// The position of the process with id `pid`, if any.
pub open spec fn pos_of(ps: Seq<ProcInfo>, pid: u32) -> Option<int> {
    if exists|i: int| 0 <= i < ps.len() && ps[i].pid == pid {
        Some(choose|i: int| 0 <= i < ps.len() && ps[i].pid == pid)
    } else {
        None
    }
}

/// The walk up from process `c`: it adds a root (see the module's comment)
/// and marks the processes it goes through. `fuel` bounds its length; a walk
/// marks a new process at each step, so the number of processes and one more
/// is never used up.
pub open spec fn walk(ps: Seq<ProcInfo>, c: int, roots: Set<u32>, seen: Set<u32>, fuel: nat) -> (Set<u32>, Set<u32>)
    decreases fuel,
{
    if fuel == 0 || c < 0 || c >= ps.len() {
        (roots, seen)
    } else {
        match ps[c].parent {
            None => (roots.insert(ps[c].pid), seen),
            Some(pp) => match pos_of(ps, pp) {
                None => (roots.insert(ps[c].pid), seen),
                Some(k) => if seen.contains(ps[c].pid) {
                    (roots.insert(pp), seen)
                } else {
                    walk(ps, k, roots, seen.insert(ps[c].pid), (fuel - 1) as nat)
                },
            },
        }
    }
}

/// The roots and marks after the walks from the first `n` processes.
pub open spec fn walks(ps: Seq<ProcInfo>, n: int) -> (Set<u32>, Set<u32>)
    decreases n,
{
    if n <= 0 {
        (Set::empty(), Set::empty())
    } else {
        let (r, s) = walks(ps, n - 1);
        walk(ps, n - 1, r, s, (ps.len() + 1) as nat)
    }
}

/// The roots of the tree view.
pub open spec fn root_set(ps: Seq<ProcInfo>) -> Set<u32> {
    walks(ps, ps.len() as int).0
}

/// The position of the process with id `pid` (see [`pos_of`]).
fn find_pid(procs: &Vec<ProcInfo>, pid: u32) -> (res: Option<usize>)
    requires
        pids_distinct(procs@),
    ensures
        match pos_of(procs@, pid) {
            Some(k) => res == Some(k as usize),
            None => res is None,
        },
{
    let mut i: usize = 0;
    while i < procs.len()
        invariant
            i <= procs.len(),
            pids_distinct(procs@),
            forall|j: int| 0 <= j < i ==> procs@[j].pid != pid,
        decreases procs.len() - i,
    {
        if procs[i].pid == pid {
            proof {
                assert(procs@[i as int].pid == pid);
                let k = choose|k: int| 0 <= k < procs@.len() && procs@[k].pid == pid;
                assert(k == i);
            }
            return Some(i);
        }
        i += 1;
    }
    None
}

/// Is `x` in the list `v`?
fn list_has(v: &Vec<u32>, x: u32) -> (res: bool)
    ensures
        res == v@.contains(x),
{
    let mut i: usize = 0;
    while i < v.len()
        invariant
            i <= v.len(),
            forall|j: int| 0 <= j < i ==> v@[j] != x,
        decreases v.len() - i,
    {
        if v[i] == x {
            assert(v@[i as int] == x);
            return true;
        }
        i += 1;
    }
    false
}

/// Add `x` to the list `v` if it is not there.
fn list_add(v: &mut Vec<u32>, x: u32)
    ensures
        final(v)@.to_set() == old(v)@.to_set().insert(x),
{
    if !list_has(v, x) {
        v.push(x);
        proof {
            assert(final(v)@.to_set() =~= old(v)@.to_set().insert(x)) by {
                assert forall|y: u32| #[trigger] final(v)@.contains(y) <==> (old(v)@.contains(y) || y == x) by {
                    if final(v)@.contains(y) {
                        let k = choose|k: int| 0 <= k < final(v)@.len() && final(v)@[k] == y;
                        if k < old(v)@.len() {
                            assert(old(v)@[k] == y);
                        }
                    }
                    if old(v)@.contains(y) {
                        let k = choose|k: int| 0 <= k < old(v)@.len() && old(v)@[k] == y;
                        assert(final(v)@[k] == y);
                    }
                    if y == x {
                        assert(final(v)@[old(v)@.len() as int] == y);
                    }
                }
            }
        }
    } else {
        proof {
            assert(old(v)@.to_set().insert(x) =~= old(v)@.to_set());
        }
    }
}

/// The walk up from process `c` (see [`walk`]).
fn do_walk(procs: &Vec<ProcInfo>, c: usize, roots: &mut Vec<u32>, seen: &mut Vec<u32>, fuel: usize)
    requires
        pids_distinct(procs@),
    ensures
        (final(roots)@.to_set(), final(seen)@.to_set()) == walk(
            procs@,
            c as int,
            old(roots)@.to_set(),
            old(seen)@.to_set(),
            fuel as nat,
        ),
    decreases fuel,
{
    if fuel == 0 || c >= procs.len() {
        return;
    }
    match procs[c].parent {
        None => {
            list_add(roots, procs[c].pid);
        },
        Some(pp) => match find_pid(procs, pp) {
            None => {
                list_add(roots, procs[c].pid);
            },
            Some(k) => {
                if list_has(seen, procs[c].pid) {
                    list_add(roots, pp);
                } else {
                    list_add(seen, procs[c].pid);
                    do_walk(procs, k, roots, seen, fuel - 1);
                }
            },
        },
    }
}

/// The roots of the tree view (see [`root_set`]), in increasing order.
pub fn tree_roots(procs: &Vec<ProcInfo>) -> (res: Vec<u32>)
    requires
        pids_distinct(procs@),
        procs@.len() < usize::MAX,
    ensures
        res@.to_set() == root_set(procs@),
        forall|i: int, j: int| 0 <= i < j < res@.len() ==> res@[i] < res@[j],
{
    let mut roots: Vec<u32> = Vec::new();
    let mut seen: Vec<u32> = Vec::new();
    let mut n: usize = 0;
    proof {
        assert(roots@.to_set() =~= Set::<u32>::empty());
        assert(seen@.to_set() =~= Set::<u32>::empty());
    }
    while n < procs.len()
        invariant
            n <= procs.len() < usize::MAX,
            pids_distinct(procs@),
            (roots@.to_set(), seen@.to_set()) == walks(procs@, n as int),
        decreases procs.len() - n,
    {
        do_walk(procs, n, &mut roots, &mut seen, procs.len() + 1);
        n += 1;
    }
    let sorted = sort_ids(&roots);
    sorted
}

/// The ids of `v` in increasing order, each once.
fn sort_ids(v: &Vec<u32>) -> (res: Vec<u32>)
    ensures
        res@.to_set() == v@.to_set(),
        forall|i: int, j: int| 0 <= i < j < res@.len() ==> res@[i] < res@[j],
{
    let mut out: Vec<u32> = Vec::new();
    let mut k: usize = 0;
    while k < v.len()
        invariant
            k <= v.len(),
            out@.to_set() == v@.take(k as int).to_set(),
            forall|i: int, j: int| 0 <= i < j < out@.len() ==> out@[i] < out@[j],
        decreases v.len() - k,
    {
        let x = v[k];
        let mut pos: usize = 0;
        while pos < out.len() && out[pos] < x
            invariant
                pos <= out.len(),
                forall|i: int| 0 <= i < pos ==> out@[i] < x,
            decreases out.len() - pos,
        {
            pos += 1;
        }
        let ghost before = out@;
        proof {
            assert(v@.take(k + 1) =~= v@.take(k as int).push(x));
            assert(v@.take(k + 1).to_set() =~= v@.take(k as int).to_set().insert(x)) by {
                assert forall|y: u32| #[trigger] v@.take(k + 1).contains(y) <==> (v@.take(k as int).contains(y)
                    || y == x) by {
                    let a = v@.take(k + 1);
                    let b = v@.take(k as int);
                    if a.contains(y) {
                        let q = choose|q: int| 0 <= q < a.len() && a[q] == y;
                        if q < k {
                            assert(b[q] == y);
                        }
                    }
                    if b.contains(y) {
                        let q = choose|q: int| 0 <= q < b.len() && b[q] == y;
                        assert(a[q] == y);
                    }
                    if y == x {
                        assert(a[k as int] == y);
                    }
                }
            }
        }
        if pos < out.len() && out[pos] == x {
            proof {
                assert(before.contains(x));
                assert(before.to_set().insert(x) =~= before.to_set());
            }
        } else {
            out.insert(pos, x);
            proof {
                assert(out@ =~= before.insert(pos as int, x));
                assert forall|i: int, j: int| 0 <= i < j < out@.len() implies out@[i] < out@[j] by {
                    if j < pos {
                        assert(out@[i] == before[i] && out@[j] == before[j]);
                    } else if j == pos {
                        assert(out@[i] == before[i]);
                    } else if i == pos {
                        assert(out@[j] == before[j - 1]);
                        assert(before[pos as int] > x);
                        if j - 1 > pos {
                            assert(before[pos as int] < before[j - 1]);
                        }
                    } else if i < pos {
                        assert(out@[i] == before[i] && out@[j] == before[j - 1]);
                    } else {
                        assert(out@[i] == before[i - 1] && out@[j] == before[j - 1]);
                    }
                }
                assert(out@.to_set() =~= before.to_set().insert(x)) by {
                    assert forall|y: u32| #[trigger] out@.contains(y) <==> (before.contains(y) || y == x) by {
                        if out@.contains(y) {
                            let q = choose|q: int| 0 <= q < out@.len() && out@[q] == y;
                            if q < pos {
                                assert(before[q] == y);
                            } else if q > pos {
                                assert(before[q - 1] == y);
                            }
                        }
                        if before.contains(y) {
                            let q = choose|q: int| 0 <= q < before.len() && before[q] == y;
                            if q < pos {
                                assert(out@[q] == y);
                            } else {
                                assert(out@[q + 1] == y);
                            }
                        }
                        if y == x {
                            assert(out@[pos as int] == y);
                        }
                    }
                }
            }
        }
        k += 1;
    }
    proof {
        assert(v@.take(v.len() as int) =~= v@);
    }
    out
}

/// Is process `i` shown under the process with id `p`: it is not a root, and
/// `p` is its parent?
pub open spec fn is_child(ps: Seq<ProcInfo>, roots: Set<u32>, p: u32, i: int) -> bool {
    0 <= i < ps.len() && !roots.contains(ps[i].pid) && ps[i].parent == Some(p)
}

/// The depth of the subtree of the process with id `p`: 0 without children,
/// else one more than the deepest child's. `fuel` bounds the recursion; the
/// number of processes is never used up, as the tree has no cycle.
pub open spec fn depth(ps: Seq<ProcInfo>, roots: Set<u32>, p: u32, fuel: nat) -> nat
    decreases fuel, 0nat,
{
    if fuel == 0 {
        0
    } else {
        let m = max_child_depth(ps, roots, p, ps.len(), (fuel - 1) as nat);
        if m.0 {
            m.1 + 1
        } else {
            0
        }
    }
}

/// Whether some of the first `k` processes is a child of `p`, and the
/// greatest depth among them.
pub open spec fn max_child_depth(ps: Seq<ProcInfo>, roots: Set<u32>, p: u32, k: nat, fuel: nat) -> (bool, nat)
    decreases fuel, k,
{
    if k == 0 {
        (false, 0)
    } else {
        let prev = max_child_depth(ps, roots, p, (k - 1) as nat, fuel);
        if is_child(ps, roots, p, k - 1) {
            let d = depth(ps, roots, ps[k - 1].pid, fuel);
            (true, if d > prev.1 { d } else { prev.1 })
        } else {
            prev
        }
    }
}

/// The depth of the subtree of `p` (see [`depth`]).
fn depth_of(procs: &Vec<ProcInfo>, roots: &Vec<u32>, p: u32, fuel: usize) -> (res: usize)
    ensures
        res as nat == depth(procs@, roots@.to_set(), p, fuel as nat),
        res <= fuel,
    decreases fuel, 0nat,
{
    if fuel == 0 {
        return 0;
    }
    let ghost rs = roots@.to_set();
    let mut has = false;
    let mut m: usize = 0;
    let mut k: usize = 0;
    while k < procs.len()
        invariant
            k <= procs.len(),
            rs == roots@.to_set(),
            0 < fuel,
            (has, m as nat) == max_child_depth(procs@, rs, p, k as nat, (fuel - 1) as nat),
            m < fuel,
        decreases procs.len() - k,
    {
        let child = !list_has(roots, procs[k].pid) && match procs[k].parent {
            Some(q) => q == p,
            None => false,
        };
        if child {
            let d = depth_of(procs, roots, procs[k].pid, fuel - 1);
            has = true;
            if d > m {
                m = d;
            }
        }
        k += 1;
    }
    if has {
        m + 1
    } else {
        0
    }
}

/// Does child `i` come before child `j`: by name, then depth, then id?
pub open spec fn child_before(ps: Seq<ProcInfo>, roots: Set<u32>, i: int, j: int, fuel: nat) -> bool {
    let ni = ps[i].name@;
    let nj = ps[j].name@;
    let di = depth(ps, roots, ps[i].pid, fuel);
    let dj = depth(ps, roots, ps[j].pid, fuel);
    seq_lt(ni, nj) || (ni == nj && (di < dj || (di == dj && ps[i].pid < ps[j].pid)))
}

/// Is `s` the children of `p` (as positions), each once, in order?
pub open spec fn is_children_order(ps: Seq<ProcInfo>, roots: Set<u32>, p: u32, s: Seq<int>, fuel: nat) -> bool {
    &&& forall|k: int| 0 <= k < s.len() ==> is_child(ps, roots, p, #[trigger] s[k])
    &&& forall|i: int| is_child(ps, roots, p, i) ==> s.contains(i)
    &&& forall|a: int, b: int| 0 <= a < b < s.len() ==> child_before(ps, roots, #[trigger] s[a], #[trigger] s[b], fuel)
}

/// The children of `p`, in order (see [`child_before`]).
pub open spec fn children_order(ps: Seq<ProcInfo>, roots: Set<u32>, p: u32, fuel: nat) -> Seq<int> {
    choose|s: Seq<int>| is_children_order(ps, roots, p, s, fuel)
}

/// Two sequences, each in strictly increasing order for the same transitive
/// and irreflexive relation, with the same elements, are equal.
pub proof fn lemma_sorted_unique<A>(a: Seq<A>, b: Seq<A>, lt: spec_fn(A, A) -> bool)
    requires
        forall|x: A| #[trigger] a.contains(x) ==> !lt(x, x),
        forall|x: A, y: A, z: A| #![trigger lt(x, y), lt(y, z)] lt(x, y) && lt(y, z) ==> lt(x, z),
        forall|i: int, j: int| 0 <= i < j < a.len() ==> lt(#[trigger] a[i], #[trigger] a[j]),
        forall|i: int, j: int| 0 <= i < j < b.len() ==> lt(#[trigger] b[i], #[trigger] b[j]),
        forall|x: A| #[trigger] a.contains(x) <==> b.contains(x),
    ensures
        a == b,
    decreases a.len(),
{
    if a.len() == 0 {
        if b.len() > 0 {
            assert(b.contains(b[0]));
            assert(a.contains(b[0]));
        }
        assert(a =~= b);
    } else {
        assert(a.contains(a[0]));
        assert(b.contains(a[0]));
        let j = choose|j: int| 0 <= j < b.len() && b[j] == a[0];
        assert(b.contains(b[0]));
        assert(a.contains(b[0]));
        let i = choose|i: int| 0 <= i < a.len() && a[i] == b[0];
        if j > 0 {
            assert(lt(b[0], b[j]));
            if i > 0 {
                assert(lt(a[0], a[i]));
                assert(lt(a[0], a[0]));
            } else {
                assert(lt(b[0], b[0]));
                assert(a.contains(b[0]));
            }
        }
        assert(a[0] == b[0]);
        let a1 = a.drop_first();
        let b1 = b.drop_first();
        assert forall|x: A| #[trigger] a1.contains(x) <==> b1.contains(x) by {
            if a1.contains(x) {
                let k = choose|k: int| 0 <= k < a1.len() && a1[k] == x;
                assert(a[k + 1] == x);
                assert(a.contains(x));
                assert(lt(a[0], a[k + 1]));
                let q = choose|q: int| 0 <= q < b.len() && b[q] == x;
                if q == 0 {
                    assert(lt(a[0], a[0]));
                    assert(a.contains(a[0]));
                }
                assert(b1[q - 1] == x);
            }
            if b1.contains(x) {
                let k = choose|k: int| 0 <= k < b1.len() && b1[k] == x;
                assert(b[k + 1] == x);
                assert(b.contains(x));
                assert(a.contains(x));
                assert(lt(b[0], b[k + 1]));
                let q = choose|q: int| 0 <= q < a.len() && a[q] == x;
                if q == 0 {
                    assert(lt(b[0], b[0]));
                    assert(a.contains(b[0]));
                }
                assert(a1[q - 1] == x);
            }
        }
        assert forall|x: A| #[trigger] a1.contains(x) implies !lt(x, x) by {
            let k = choose|k: int| 0 <= k < a1.len() && a1[k] == x;
            assert(a[k + 1] == x);
            assert(a.contains(x));
        }
        assert forall|i: int, j: int| 0 <= i < j < a1.len() implies lt(#[trigger] a1[i], #[trigger] a1[j]) by {
            assert(a1[i] == a[i + 1] && a1[j] == a[j + 1]);
        }
        assert forall|i: int, j: int| 0 <= i < j < b1.len() implies lt(#[trigger] b1[i], #[trigger] b1[j]) by {
            assert(b1[i] == b[i + 1] && b1[j] == b[j + 1]);
        }
        lemma_sorted_unique(a1, b1, lt);
        assert(a =~= seq![a[0]] + a1);
        assert(b =~= seq![b[0]] + b1);
    }
}

/// The order of children is transitive, irreflexive, and total on distinct
/// processes.
pub proof fn lemma_child_before(ps: Seq<ProcInfo>, roots: Set<u32>, fuel: nat)
    requires
        pids_distinct(ps),
    ensures
        forall|i: int| 0 <= i < ps.len() ==> !#[trigger] child_before(ps, roots, i, i, fuel),
        forall|i: int, j: int, k: int|
            #![trigger child_before(ps, roots, i, j, fuel), child_before(ps, roots, j, k, fuel)]
            child_before(ps, roots, i, j, fuel) && child_before(ps, roots, j, k, fuel) ==> child_before(
                ps,
                roots,
                i,
                k,
                fuel,
            ),
        forall|i: int, j: int|
            0 <= i < ps.len() && 0 <= j < ps.len() && i != j ==> child_before(ps, roots, i, j, fuel)
                || child_before(ps, roots, j, i, fuel),
{
    assert forall|i: int| 0 <= i < ps.len() implies !#[trigger] child_before(ps, roots, i, i, fuel) by {
        lemma_seq_lt_irreflexive(ps[i].name@);
    }
    assert forall|i: int, j: int, k: int|
        child_before(ps, roots, i, j, fuel) && child_before(ps, roots, j, k, fuel) implies child_before(
            ps,
            roots,
            i,
            k,
            fuel,
        ) by {
        let (ni, nj, nk) = (ps[i].name@, ps[j].name@, ps[k].name@);
        if seq_lt(ni, nj) && seq_lt(nj, nk) {
            lemma_seq_lt_transitive(ni, nj, nk);
        }
    }
    assert forall|i: int, j: int|
        0 <= i < ps.len() && 0 <= j < ps.len() && i != j implies child_before(ps, roots, i, j, fuel)
            || child_before(ps, roots, j, i, fuel) by {
        lemma_seq_lt_total(ps[i].name@, ps[j].name@);
        assert(ps[i].pid != ps[j].pid);
    }
}

/// Positions as integers.
pub open spec fn ints(v: Seq<usize>) -> Seq<int> {
    v.map_values(|x: usize| x as int)
}

/// Does the key (name, depth, id) `a` come before `b`?
fn key_before(an: &Vec<char>, ad: usize, ap: u32, bn: &Vec<char>, bd: usize, bp: u32) -> (res: bool)
    ensures
        res == (seq_lt(an@, bn@) || (an@ == bn@ && (ad < bd || (ad == bd && ap < bp)))),
{
    vec_lt(an, bn) || (vec_eq(an, bn) && (ad < bd || (ad == bd && ap < bp)))
}

/// The children of `p` in order (see [`children_order`]), as positions.
fn children_of(procs: &Vec<ProcInfo>, roots: &Vec<u32>, p: u32, fuel: usize) -> (res: Vec<usize>)
    requires
        pids_distinct(procs@),
    ensures
        is_children_order(procs@, roots@.to_set(), p, ints(res@), fuel as nat),
{
    let ghost ps = procs@;
    let ghost rs = roots@.to_set();
    proof {
        lemma_child_before(ps, rs, fuel as nat);
    }
    let mut idx: Vec<usize> = Vec::new();
    let mut names: Vec<Vec<char>> = Vec::new();
    let mut depths: Vec<usize> = Vec::new();
    let mut k: usize = 0;
    while k < procs.len()
        invariant
            ps == procs@,
            rs == roots@.to_set(),
            pids_distinct(ps),
            k <= procs.len(),
            idx.len() == names.len(),
            idx.len() == depths.len(),
            forall|j: int| 0 <= j < idx.len() ==> #[trigger] idx@[j] < k,
            forall|j: int| 0 <= j < idx.len() ==> is_child(ps, rs, p, #[trigger] idx@[j] as int),
            forall|j: int| 0 <= j < idx.len() ==> #[trigger] names@[j]@ == ps[idx@[j] as int].name@,
            forall|j: int| 0 <= j < idx.len() ==> #[trigger] depths@[j] as nat == depth(ps, rs, ps[idx@[j] as int].pid, fuel as nat),
            forall|i: int| 0 <= i < k && is_child(ps, rs, p, i) ==> ints(idx@).contains(i),
            forall|a: int, b: int| 0 <= a < b < idx.len() ==> child_before(ps, rs, #[trigger] idx@[a] as int, #[trigger] idx@[b] as int, fuel as nat),
            forall|i: int| 0 <= i < ps.len() ==> !#[trigger] child_before(ps, rs, i, i, fuel as nat),
            forall|i: int, j: int, l: int|
                #![trigger child_before(ps, rs, i, j, fuel as nat), child_before(ps, rs, j, l, fuel as nat)]
                child_before(ps, rs, i, j, fuel as nat) && child_before(ps, rs, j, l, fuel as nat) ==> child_before(ps, rs, i, l, fuel as nat),
            forall|i: int, j: int|
                0 <= i < ps.len() && 0 <= j < ps.len() && i != j ==> child_before(ps, rs, i, j, fuel as nat)
                    || child_before(ps, rs, j, i, fuel as nat),
        decreases procs.len() - k,
    {
        let child = !list_has(roots, procs[k].pid) && match procs[k].parent {
            Some(q) => q == p,
            None => false,
        };
        if child {
            let name = chars_of(procs[k].name.as_str());
            let d = depth_of(procs, roots, procs[k].pid, fuel);
            let pid = procs[k].pid;
            let mut pos: usize = 0;
            while pos < idx.len() && !key_before(&name, d, pid, &names[pos], depths[pos], procs[idx[pos]].pid)
                invariant
                    ps == procs@,
                    rs == roots@.to_set(),
                    pos <= idx.len(),
                    idx.len() == names.len(),
                    idx.len() == depths.len(),
                    k < procs.len(),
                    forall|j: int| 0 <= j < idx.len() ==> #[trigger] idx@[j] < k,
                    forall|j: int| 0 <= j < idx.len() ==> #[trigger] names@[j]@ == ps[idx@[j] as int].name@,
                    forall|j: int| 0 <= j < idx.len() ==> #[trigger] depths@[j] as nat == depth(ps, rs, ps[idx@[j] as int].pid, fuel as nat),
                    name@ == ps[k as int].name@,
                    d as nat == depth(ps, rs, ps[k as int].pid, fuel as nat),
                    pid == ps[k as int].pid,
                    forall|j: int| 0 <= j < pos ==> !child_before(ps, rs, k as int, #[trigger] idx@[j] as int, fuel as nat),
                decreases idx.len() - pos,
            {
                pos += 1;
            }
            let ghost before = idx@;
            proof {
                assert forall|j: int| 0 <= j < pos implies child_before(ps, rs, #[trigger] before[j] as int, k as int, fuel as nat) by {
                    assert(before[j] < k);
                }
                if pos < before.len() {
                    assert(child_before(ps, rs, k as int, before[pos as int] as int, fuel as nat));
                }
            }
            idx.insert(pos, k);
            names.insert(pos, name);
            depths.insert(pos, d);
            proof {
                assert(idx@ =~= before.insert(pos as int, k));
                assert forall|a: int, b: int| 0 <= a < b < idx.len() implies child_before(ps, rs, #[trigger] idx@[a] as int, #[trigger] idx@[b] as int, fuel as nat) by {
                    if b < pos {
                        assert(idx@[a] == before[a] && idx@[b] == before[b]);
                    } else if b == pos {
                        assert(idx@[a] == before[a]);
                    } else if a == pos {
                        assert(idx@[b] == before[b - 1]);
                        if b - 1 > pos {
                            assert(child_before(ps, rs, before[pos as int] as int, before[b - 1] as int, fuel as nat));
                        }
                    } else if a < pos {
                        assert(idx@[a] == before[a] && idx@[b] == before[b - 1]);
                    } else {
                        assert(idx@[a] == before[a - 1] && idx@[b] == before[b - 1]);
                    }
                }
                assert forall|i: int| 0 <= i < k + 1 && is_child(ps, rs, p, i) implies ints(idx@).contains(i) by {
                    if i == k {
                        assert(ints(idx@)[pos as int] == i);
                    } else {
                        let q = choose|q: int| 0 <= q < ints(before).len() && ints(before)[q] == i;
                        if q < pos {
                            assert(ints(idx@)[q] == i);
                        } else {
                            assert(ints(idx@)[q + 1] == i);
                        }
                    }
                }
                assert forall|j: int| 0 <= j < idx.len() implies #[trigger] names@[j]@ == ps[idx@[j] as int].name@ by {
                    if j > pos {
                        assert(idx@[j] == before[j - 1]);
                    }
                }
            }
        } else {
            proof {
                assert forall|i: int| 0 <= i < k + 1 && is_child(ps, rs, p, i) implies ints(idx@).contains(i) by {
                    if i == k {
                        assert(!is_child(ps, rs, p, i));
                    }
                }
            }
        }
        k += 1;
    }
    proof {
        let s = ints(idx@);
        assert forall|j: int| 0 <= j < s.len() implies is_child(ps, rs, p, #[trigger] s[j]) by {
            assert(s[j] == idx@[j] as int);
        }
        assert forall|a: int, b: int| 0 <= a < b < s.len() implies child_before(ps, rs, #[trigger] s[a], #[trigger] s[b], fuel as nat) by {
            assert(s[a] == idx@[a] as int && s[b] == idx@[b] as int);
        }
    }
    idx
}

/// `s` is the children of `p` in order only if it is the chosen order.
proof fn lemma_children_order_unique(ps: Seq<ProcInfo>, rs: Set<u32>, p: u32, s: Seq<int>, fuel: nat)
    requires
        pids_distinct(ps),
        is_children_order(ps, rs, p, s, fuel),
    ensures
        children_order(ps, rs, p, fuel) == s,
{
    let c = children_order(ps, rs, p, fuel);
    assert(is_children_order(ps, rs, p, c, fuel));
    lemma_child_before(ps, rs, fuel);
    let lt = |x: int, y: int| child_before(ps, rs, x, y, fuel);
    assert forall|x: int| #[trigger] s.contains(x) implies !lt(x, x) by {
        let k = choose|k: int| 0 <= k < s.len() && s[k] == x;
        assert(is_child(ps, rs, p, s[k]));
    }
    assert forall|x: int| #[trigger] s.contains(x) <==> c.contains(x) by {
        if s.contains(x) {
            let k = choose|k: int| 0 <= k < s.len() && s[k] == x;
            assert(is_child(ps, rs, p, s[k]));
        }
        if c.contains(x) {
            let k = choose|k: int| 0 <= k < c.len() && c[k] == x;
            assert(is_child(ps, rs, p, c[k]));
        }
    }
    assert forall|i: int, j: int| 0 <= i < j < s.len() implies lt(#[trigger] s[i], #[trigger] s[j]) by {
    }
    assert forall|i: int, j: int| 0 <= i < j < c.len() implies lt(#[trigger] c[i], #[trigger] c[j]) by {
    }
    lemma_sorted_unique(s, c, lt);
}

/// The roots in increasing order.
pub open spec fn sorted_roots(ps: Seq<ProcInfo>) -> Seq<u32> {
    choose|s: Seq<u32>| s.to_set() == root_set(ps) && forall|i: int, j: int| 0 <= i < j < s.len() ==> s[i] < s[j]
}

/// The branch drawn before a process: a corner for the last child, a tee
/// otherwise; turning down if it has children.
pub open spec fn branch(last: bool, has_children: bool) -> Seq<char> {
    if last {
        if has_children { seq!['└', '─', '─', '─', '┬'] } else { seq!['└', '─', '─', '─', '─'] }
    } else {
        if has_children { seq!['├', '─', '─', '─', '┬'] } else { seq!['├', '─', '─', '─', '─'] }
    }
}

/// The line of a process: the prefix and branch, its id, its parent's id (or
/// `root`), its name, and its command line if `long`.
pub open spec fn tree_line(pr: ProcInfo, prefix: Seq<char>, last: bool, has_children: bool, long: bool) -> Seq<char> {
    prefix + branch(last, has_children) + seq![' '] + nat_to_decimal(pr.pid as nat) + seq![' ', '('] + match pr.parent {
        Some(q) => nat_to_decimal(q as nat),
        None => seq!['r', 'o', 'o', 't'],
    } + seq![')', ' '] + pr.name@ + seq![' '] + if long {
        pr.cmd@
    } else {
        Seq::empty()
    }
}

/// The prefix of the children's lines.
pub open spec fn child_prefix(prefix: Seq<char>, last: bool) -> Seq<char> {
    if last {
        prefix + seq![' ', ' ', ' ', ' ']
    } else {
        prefix + seq!['│', ' ', ' ', ' ']
    }
}

/// The lines of the subtree of process `i`: its line, then its children's
/// subtrees. `fuel` bounds the recursion; the number of processes is never
/// used up, as the tree has no cycle.
pub open spec fn subtree_lines(ps: Seq<ProcInfo>, rs: Set<u32>, i: int, prefix: Seq<char>, last: bool, long: bool, fuel: nat) -> Seq<Seq<char>>
    decreases fuel, 0nat,
{
    if fuel == 0 || i < 0 || i >= ps.len() {
        Seq::empty()
    } else {
        let s = children_order(ps, rs, ps[i].pid, ps.len());
        seq![tree_line(ps[i], prefix, last, s.len() > 0, long)] + children_lines(
            ps,
            rs,
            s,
            s.len(),
            child_prefix(prefix, last),
            long,
            (fuel - 1) as nat,
        )
    }
}

/// The subtrees of the first `k` children `s`.
pub open spec fn children_lines(ps: Seq<ProcInfo>, rs: Set<u32>, s: Seq<int>, k: nat, prefix: Seq<char>, long: bool, fuel: nat) -> Seq<Seq<char>>
    decreases fuel, k,
{
    if k == 0 || k > s.len() {
        Seq::empty()
    } else {
        children_lines(ps, rs, s, (k - 1) as nat, prefix, long, fuel) + subtree_lines(
            ps,
            rs,
            s[k - 1],
            prefix,
            k == s.len(),
            long,
            fuel,
        )
    }
}

/// The lines of the trees of the first `k` roots of `roots`.
pub open spec fn forest_lines(ps: Seq<ProcInfo>, roots: Seq<u32>, k: nat, long: bool) -> Seq<Seq<char>>
    decreases k,
{
    if k == 0 || k > roots.len() {
        Seq::empty()
    } else {
        forest_lines(ps, roots, (k - 1) as nat, long) + match pos_of(ps, roots[k - 1]) {
            Some(i) => subtree_lines(ps, roots.to_set(), i, Seq::empty(), false, long, ps.len()),
            None => Seq::empty(),
        }
    }
}

/// The lines of the tree view of `ps` (see the module's comment).
pub open spec fn process_tree_lines(ps: Seq<ProcInfo>, long: bool) -> Seq<Seq<char>> {
    let r = sorted_roots(ps);
    forest_lines(ps, r, r.len(), long)
}

/// Push the line of process `i` (see [`tree_line`]).
fn push_tree_line(out: &mut Vec<String>, pr: &ProcInfo, prefix: &Vec<char>, last: bool, has_children: bool, long: bool)
    ensures
        crate::expand::strings_view(final(out)@) == crate::expand::strings_view(old(out)@).push(
            tree_line(*pr, prefix@, last, has_children, long),
        ),
{
    let mut t = prefix.clone();
    proof {
        assert(t@ == prefix@);
    }
    t.push(if last { '└' } else { '├' });
    t.push('─');
    t.push('─');
    t.push('─');
    t.push(if has_children { '┬' } else { '─' });
    t.push(' ');
    let d = u64_to_chars(pr.pid as u64);
    vec_extend(&mut t, &d);
    t.push(' ');
    t.push('(');
    match pr.parent {
        Some(q) => {
            let e = u64_to_chars(q as u64);
            vec_extend(&mut t, &e);
        },
        None => {
            t.push('r');
            t.push('o');
            t.push('o');
            t.push('t');
        },
    }
    t.push(')');
    t.push(' ');
    let n = chars_of(pr.name.as_str());
    vec_extend(&mut t, &n);
    t.push(' ');
    if long {
        let c = chars_of(pr.cmd.as_str());
        vec_extend(&mut t, &c);
    }
    proof {
        let expected = tree_line(*pr, prefix@, last, has_children, long);
        assert(t@ =~= expected);
    }
    let ghost before = crate::expand::strings_view(out@);
    out.push(string_of(&t));
    proof {
        assert(crate::expand::strings_view(out@) =~= before.push(t@));
    }
}

/// Push the lines of the subtree of process `i` (see [`subtree_lines`]).
fn push_subtree(
    procs: &Vec<ProcInfo>,
    roots: &Vec<u32>,
    i: usize,
    prefix: &Vec<char>,
    last: bool,
    long: bool,
    fuel: usize,
    out: &mut Vec<String>,
)
    requires
        pids_distinct(procs@),
    ensures
        crate::expand::strings_view(final(out)@) == crate::expand::strings_view(old(out)@) + subtree_lines(
            procs@,
            roots@.to_set(),
            i as int,
            prefix@,
            last,
            long,
            fuel as nat,
        ),
    decreases fuel, 0nat,
{
    let ghost ps = procs@;
    let ghost rs = roots@.to_set();
    if fuel == 0 || i >= procs.len() {
        proof {
            assert(crate::expand::strings_view(out@) =~= crate::expand::strings_view(out@) + Seq::<Seq<char>>::empty());
        }
        return;
    }
    let kids = children_of(procs, roots, procs[i].pid, procs.len());
    let ghost s = ints(kids@);
    proof {
        lemma_children_order_unique(ps, rs, ps[i as int].pid, s, ps.len());
    }
    let ghost start = crate::expand::strings_view(out@);
    push_tree_line(out, &procs[i], prefix, last, kids.len() > 0, long);
    let mut np = prefix.clone();
    if last {
        np.push(' ');
    } else {
        np.push('│');
    }
    np.push(' ');
    np.push(' ');
    np.push(' ');
    proof {
        assert(np@ =~= child_prefix(prefix@, last));
    }
    let ghost head = crate::expand::strings_view(out@);
    let mut k: usize = 0;
    while k < kids.len()
        invariant
            ps == procs@,
            rs == roots@.to_set(),
            pids_distinct(ps),
            0 < fuel,
            k <= kids.len(),
            s == ints(kids@),
            np@ == child_prefix(prefix@, last),
            crate::expand::strings_view(out@) == head + children_lines(ps, rs, s, k as nat, np@, long, (fuel - 1) as nat),
        decreases kids.len() - k,
    {
        let ghost before = crate::expand::strings_view(out@);
        push_subtree(procs, roots, kids[k], &np, k + 1 == kids.len(), long, fuel - 1, out);
        proof {
            assert(s[k as int] == kids@[k as int] as int);
            assert(children_lines(ps, rs, s, (k + 1) as nat, np@, long, (fuel - 1) as nat) == children_lines(
                ps,
                rs,
                s,
                k as nat,
                np@,
                long,
                (fuel - 1) as nat,
            ) + subtree_lines(ps, rs, s[k as int], np@, k + 1 == s.len(), long, (fuel - 1) as nat));
            assert(crate::expand::strings_view(out@) =~= head + children_lines(
                ps,
                rs,
                s,
                (k + 1) as nat,
                np@,
                long,
                (fuel - 1) as nat,
            ));
        }
        k += 1;
    }
    proof {
        let c = children_order(ps, rs, ps[i as int].pid, ps.len());
        assert(c == s);
        assert(subtree_lines(ps, rs, i as int, prefix@, last, long, fuel as nat) == seq![
            tree_line(ps[i as int], prefix@, last, s.len() > 0, long),
        ] + children_lines(ps, rs, s, s.len(), np@, long, (fuel - 1) as nat));
        assert(crate::expand::strings_view(out@) =~= start + subtree_lines(
            ps,
            rs,
            i as int,
            prefix@,
            last,
            long,
            fuel as nat,
        ));
    }
}

/// The lines of the tree view of the processes (see [`process_tree_lines`]),
/// with their command lines if `long`.
pub fn process_tree(procs: &Vec<ProcInfo>, long: bool) -> (res: Vec<String>)
    requires
        pids_distinct(procs@),
        procs@.len() < usize::MAX,
    ensures
        crate::expand::strings_view(res@) == process_tree_lines(procs@, long),
{
    let ghost ps = procs@;
    let roots = tree_roots(procs);
    let ghost r = roots@;
    proof {
        let c = sorted_roots(ps);
        assert(c.to_set() == root_set(ps) && forall|i: int, j: int| 0 <= i < j < c.len() ==> c[i] < c[j]);
        let lt = |x: u32, y: u32| x < y;
        assert forall|x: u32| #[trigger] r.contains(x) <==> c.contains(x) by {
            assert(r.to_set().contains(x) == r.contains(x));
            assert(c.to_set().contains(x) == c.contains(x));
        }
        assert forall|i: int, j: int| 0 <= i < j < r.len() implies lt(#[trigger] r[i], #[trigger] r[j]) by {
        }
        assert forall|i: int, j: int| 0 <= i < j < c.len() implies lt(#[trigger] c[i], #[trigger] c[j]) by {
        }
        lemma_sorted_unique(r, c, lt);
    }
    let mut out: Vec<String> = Vec::new();
    let empty: Vec<char> = Vec::new();
    let mut k: usize = 0;
    while k < roots.len()
        invariant
            ps == procs@,
            pids_distinct(ps),
            r == roots@,
            r == sorted_roots(ps),
            k <= roots.len(),
            empty@ == Seq::<char>::empty(),
            crate::expand::strings_view(out@) == forest_lines(ps, r, k as nat, long),
        decreases roots.len() - k,
    {
        let ghost before = crate::expand::strings_view(out@);
        match find_pid(procs, roots[k]) {
            Some(i) => {
                push_subtree(procs, &roots, i, &empty, false, long, procs.len(), &mut out);
            },
            None => {
                proof {
                    assert(before + Seq::<Seq<char>>::empty() =~= before);
                }
            },
        }
        proof {
            assert(forest_lines(ps, r, (k + 1) as nat, long) == forest_lines(ps, r, k as nat, long) + match pos_of(ps, r[k as int]) {
                Some(i) => subtree_lines(ps, r.to_set(), i, Seq::empty(), false, long, ps.len()),
                None => Seq::empty(),
            });
        }
        k += 1;
    }
    out
}

/// The number of characters of `s` whose UTF-8 bytes make the first `w`, if
/// `w` falls between characters.
pub open spec fn char_boundary(s: Seq<char>, w: nat) -> Option<int> {
    if exists|k: int| 0 <= k <= s.len() && crate::pager::utf8_len(s.take(k)) == w {
        Some(choose|k: int| 0 <= k <= s.len() && crate::pager::utf8_len(s.take(k)) == w)
    } else {
        None
    }
}

/// The UTF-8 length of a longer prefix is not smaller.
proof fn lemma_utf8_len_take(s: Seq<char>, j: int, k: int)
    requires
        0 <= j <= k <= s.len(),
    ensures
        crate::pager::utf8_len(s.take(j)) <= crate::pager::utf8_len(s.take(k)),
        j < k ==> crate::pager::utf8_len(s.take(j)) < crate::pager::utf8_len(s.take(k)),
    decreases k - j,
{
    if j < k {
        assert(s.take(k).drop_last() =~= s.take(k - 1));
        lemma_utf8_len_take(s, j, k - 1);
    }
}

/// `s` cut to its first `width` bytes (which must end between characters),
/// then padded on the left with spaces to `width` characters.
pub fn truncate_and_pad(s: &str, width: usize) -> (res: String)
    requires
        crate::pager::utf8_len(s@) > width ==> char_boundary(s@, width as nat) is Some,
    ensures
        res@ == crate::cat::pad_left(
            if crate::pager::utf8_len(s@) > width {
                s@.take(char_boundary(s@, width as nat)->0)
            } else {
                s@
            },
            width as nat,
        ),
{
    let t = chars_of(s);
    let mut bytes: usize = 0;
    let mut k: usize = 0;
    while k < t.len() && bytes < width
        invariant
            t@ == s@,
            k <= t.len(),
            bytes as nat == crate::pager::utf8_len(t@.take(k as int)),
            bytes <= width,
            crate::pager::utf8_len(s@) > width ==> char_boundary(s@, width as nat) is Some,
        decreases t.len() - k,
    {
        let w = crate::pager::char_width(t[k]);
        proof {
            assert(t@.take(k + 1).drop_last() =~= t@.take(k as int));
            if crate::pager::utf8_len(s@) > width {
                let b = char_boundary(s@, width as nat)->0;
                if b < k + 1 {
                    lemma_utf8_len_take(s@, b, k as int);
                    assert(false);
                } else if b > k + 1 {
                    lemma_utf8_len_take(s@, k + 1, b);
                }
            } else {
                lemma_utf8_len_take(s@, k + 1, s@.len() as int);
                assert(s@.take(s@.len() as int) =~= s@);
            }
            assert(crate::pager::utf8_len(t@.take(k + 1)) == bytes + w);
            assert(bytes + w <= width);
        }
        bytes = bytes + w;
        k += 1;
    }
    proof {
        assert(t@.take(t.len() as int) =~= t@);
        if crate::pager::utf8_len(s@) > width {
            let b = char_boundary(s@, width as nat)->0;
            if k < t.len() {
                assert(bytes == width);
                if b < k {
                    lemma_utf8_len_take(s@, b, k as int);
                } else if b > k {
                    lemma_utf8_len_take(s@, k as int, b);
                }
                assert(b == k);
            } else {
                assert(bytes as nat == crate::pager::utf8_len(s@));
            }
        } else {
            if k < t.len() {
                lemma_utf8_len_take(s@, k as int, t.len() as int);
            }
        }
    }
    let mut out: Vec<char> = Vec::new();
    let mut n: usize = k;
    while n < width
        invariant
            k <= n,
            n <= width || n == k,
            out@ == crate::help::spaces((n - k) as nat),
        decreases width - n,
    {
        out.push(' ');
        proof {
            assert(out@ =~= crate::help::spaces((n + 1 - k) as nat));
        }
        n += 1;
    }
    let mut i: usize = 0;
    while i < k
        invariant
            i <= k <= t.len(),
            out@ == crate::help::spaces((n - k) as nat) + t@.take(i as int),
        decreases k - i,
    {
        out.push(t[i]);
        proof {
            assert(t@.take(i + 1) =~= t@.take(i as int).push(t@[i as int]));
        }
        i += 1;
    }
    proof {
        if k >= width {
            assert(out@ =~= t@.take(k as int));
        }
    }
    string_of(&out)
}

/// A number as two digits at least (`{:02}`).
pub open spec fn two_digits(n: nat) -> Seq<char> {
    if n < 10 {
        seq!['0'] + nat_to_decimal(n)
    } else {
        nat_to_decimal(n)
    }
}

/// How long a process has run, `D-HH:MM:SS` (without the days if there are
/// none).
pub open spec fn run_time_text(secs: nat) -> Seq<char> {
    let days = secs / 86400;
    let hms = two_digits((secs % 86400) / 3600) + seq![':'] + two_digits((secs % 3600) / 60) + seq![':'] + two_digits(
        secs % 60,
    );
    if days > 0 {
        nat_to_decimal(days) + seq!['-'] + hms
    } else {
        hms
    }
}

/// The digits of `n`, two at least.
fn two_digit_chars(n: u64) -> (res: Vec<char>)
    ensures
        res@ == two_digits(n as nat),
{
    let d = u64_to_chars(n);
    if n < 10 {
        let mut v: Vec<char> = Vec::new();
        v.push('0');
        vec_extend(&mut v, &d);
        proof {
            assert(v@ =~= seq!['0'] + nat_to_decimal(n as nat));
        }
        v
    } else {
        d
    }
}

/// The run time of a process as text (see [`run_time_text`]).
pub fn run_time_string(secs: u64) -> (res: String)
    ensures
        res@ == run_time_text(secs as nat),
{
    let days = secs / 86400;
    let hours = (secs % 86400) / 3600;
    let minutes = (secs % 3600) / 60;
    let seconds = secs % 60;
    let mut t: Vec<char> = Vec::new();
    if days > 0 {
        t = u64_to_chars(days);
        t.push('-');
    }
    let h = two_digit_chars(hours);
    vec_extend(&mut t, &h);
    t.push(':');
    let m = two_digit_chars(minutes);
    vec_extend(&mut t, &m);
    t.push(':');
    let s = two_digit_chars(seconds);
    vec_extend(&mut t, &s);
    proof {
        let hms = two_digits(hours as nat) + seq![':'] + two_digits(minutes as nat) + seq![':'] + two_digits(
            seconds as nat,
        );
        if days > 0 {
            assert(t@ =~= nat_to_decimal(days as nat) + seq!['-'] + hms);
        } else {
            assert(t@ =~= hms);
        }
    }
    string_of(&t)
}

/// The `ps` command and its flags.
pub struct ProcStatus {
    pub flags: crate::flags::CommandFlags,
}

impl ProcStatus {
    /// The command with its flags: `--help`, `--all`, `--long`, `--tree` and
    /// `--sort` (a value).
    pub fn new() -> (res: Self)
        ensures
            res.flags.wf(),
            res.flags.spec_flags().len() == 5,
            res.flags.spec_flags().contains(FlagSpec { short: Some('?'), long: "help"@, help: "Display this help message"@, takes_value: false, default_value: None }),
            res.flags.spec_flags().contains(FlagSpec { short: Some('a'), long: "all"@, help: "List all processes, not just processes belonging to the current user"@, takes_value: false, default_value: None }),
            res.flags.spec_flags().contains(FlagSpec { short: Some('l'), long: "long"@, help: "Long format"@, takes_value: false, default_value: None }),
            res.flags.spec_flags().contains(FlagSpec { short: Some('t'), long: "tree"@, help: "Display processes in a hierarchical view"@, takes_value: false, default_value: None }),
            res.flags.spec_flags().contains(FlagSpec { short: Some('s'), long: "sort"@, help: "Specify sorting order"@, takes_value: true, default_value: None }),
    {
        let mut flags = crate::flags::CommandFlags::new();
        proof {
            reveal_strlit("help");
            reveal_strlit("all");
            reveal_strlit("long");
            reveal_strlit("tree");
            reveal_strlit("sort");
        }
        assert("help"@.len() == 4 && "all"@.len() == 3 && "long"@.len() == 4 && "tree"@.len() == 4 && "sort"@.len() == 4);
        assert("help"@[0] != "long"@[0] && "help"@[0] != "tree"@[0] && "help"@[0] != "sort"@[0]);
        assert("long"@[0] != "tree"@[0] && "long"@[0] != "sort"@[0] && "tree"@[0] != "sort"@[0]);
        let ghost f0 = flags.spec_flags();
        assert(f0.len() == 0);
        let ghost pre_flags_0 = flags.spec_flags();
        flags.add_flag('?', "help", "Display this help message");
        proof { crate::flags::lemma_insertion_keeps(pre_flags_0, flags.spec_flags(), FlagSpec { short: Some('?'), long: "help"@, help: "Display this help message"@, takes_value: false, default_value: None }); }
        let ghost f1 = flags.spec_flags();
        proof {
            let f = crate::flags::FlagSpec { short: Some('?'), long: "help"@, help: "Display this help message"@, takes_value: false, default_value: None };
            crate::flags::lemma_insertion_absent(f0, f1, f, "all"@, 'a');
            crate::flags::lemma_insertion_absent(f0, f1, f, "long"@, 'l');
            crate::flags::lemma_insertion_absent(f0, f1, f, "tree"@, 't');
            crate::flags::lemma_insertion_absent(f0, f1, f, "sort"@, 's');
        }
        let ghost pre_flags_1 = flags.spec_flags();
        flags.add_flag('a', "all", "List all processes, not just processes belonging to the current user");
        proof { crate::flags::lemma_insertion_keeps(pre_flags_1, flags.spec_flags(), FlagSpec { short: Some('a'), long: "all"@, help: "List all processes, not just processes belonging to the current user"@, takes_value: false, default_value: None }); }
        let ghost f2 = flags.spec_flags();
        proof {
            let f = crate::flags::FlagSpec { short: Some('a'), long: "all"@, help: "List all processes, not just processes belonging to the current user"@, takes_value: false, default_value: None };
            crate::flags::lemma_insertion_absent(f1, f2, f, "long"@, 'l');
            crate::flags::lemma_insertion_absent(f1, f2, f, "tree"@, 't');
            crate::flags::lemma_insertion_absent(f1, f2, f, "sort"@, 's');
        }
        let ghost pre_flags_2 = flags.spec_flags();
        flags.add_flag('l', "long", "Long format");
        proof { crate::flags::lemma_insertion_keeps(pre_flags_2, flags.spec_flags(), FlagSpec { short: Some('l'), long: "long"@, help: "Long format"@, takes_value: false, default_value: None }); }
        let ghost f3 = flags.spec_flags();
        proof {
            let f = crate::flags::FlagSpec { short: Some('l'), long: "long"@, help: "Long format"@, takes_value: false, default_value: None };
            crate::flags::lemma_insertion_absent(f2, f3, f, "tree"@, 't');
            crate::flags::lemma_insertion_absent(f2, f3, f, "sort"@, 's');
        }
        let ghost pre_flags_3 = flags.spec_flags();
        flags.add_flag('t', "tree", "Display processes in a hierarchical view");
        proof { crate::flags::lemma_insertion_keeps(pre_flags_3, flags.spec_flags(), FlagSpec { short: Some('t'), long: "tree"@, help: "Display processes in a hierarchical view"@, takes_value: false, default_value: None }); }
        let ghost f4 = flags.spec_flags();
        proof {
            let f = crate::flags::FlagSpec { short: Some('t'), long: "tree"@, help: "Display processes in a hierarchical view"@, takes_value: false, default_value: None };
            crate::flags::lemma_insertion_absent(f3, f4, f, "sort"@, 's');
        }
        let ghost pre_flags_4 = flags.spec_flags();
        flags.add_option('s', "sort", "Specify sorting order");
        proof { crate::flags::lemma_insertion_keeps(pre_flags_4, flags.spec_flags(), FlagSpec { short: Some('s'), long: "sort"@, help: "Specify sorting order"@, takes_value: true, default_value: None }); }
        ProcStatus { flags }
    }
}

} // verus!
