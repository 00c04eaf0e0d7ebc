//! The edit graph of two texts: a breadth-first search leaves, at each point
//! it reached, the step it came by; the steps followed back from the end make
//! an edit script from the first text to the second.
use vstd::prelude::*;
use std::collections::VecDeque;
use crate::expand::strings_view;
use crate::text::str_eq;

verus! {

/// One step of an edit script.
#[derive(Clone, Copy, PartialEq, Eq, Debug, Structural)]
pub enum Edit {
    /// The next line is in both texts.
    Keep,
    /// The next line of the first text is left out.
    Delete,
    /// The next line of the second text is put in.
    Insert,
}

/// A point of the edit graph: `i` lines of the second text and `j` lines of
/// the first are behind, `d` lines of both are ahead, and `op` is the step
/// that led here.
#[derive(Clone, Copy, Debug)]
pub struct Node {
    pub i: usize,
    pub j: usize,
    pub d: usize,
    pub op: Edit,
}

/// The points that the search reached, at most one per pair `(i, j)`.
pub struct Grid {
    width: usize,
    height: usize,
    cells: Vec<Option<Node>>,
}

/// How many of the cells are empty.
pub open spec fn count_none(s: Seq<Option<Node>>) -> nat
    decreases s.len(),
{
    if s.len() == 0 {
        0
    } else {
        count_none(s.drop_last()) + if s.last() is None {
            1nat
        } else {
            0nat
        }
    }
}

proof fn lemma_count_fill(s: Seq<Option<Node>>, k: int, x: Node)
    requires
        0 <= k < s.len(),
        s[k] is None,
    ensures
        count_none(s.update(k, Some(x))) + 1 == count_none(s),
    decreases s.len(),
{
    let t = s.update(k, Some(x));
    if k == s.len() - 1 {
        assert(t.drop_last() =~= s.drop_last());
    } else {
        assert(t.drop_last() =~= s.drop_last().update(k, Some(x)));
        lemma_count_fill(s.drop_last(), k, x);
    }
}

proof fn lemma_cell_index(i: int, j: int, w: int, h: int)
    by (nonlinear_arith)
    requires
        0 <= i < h,
        0 <= j < w,
    ensures
        0 <= i * w + j < h * w,
{
}

proof fn lemma_cell_index_unique(a: int, b: int, i: int, j: int, w: int)
    requires
        0 <= a,
        0 <= i,
        0 <= b < w,
        0 <= j < w,
        a * w + b == i * w + j,
    ensures
        a == i,
        b == j,
{
    vstd::arithmetic::div_mod::lemma_fundamental_div_mod_converse(a * w + b, w, a, b);
    vstd::arithmetic::div_mod::lemma_fundamental_div_mod_converse(i * w + j, w, i, j);
}

impl Grid {
    /// The number of rows: one more than the lines of the second text.
    pub closed spec fn rows(&self) -> int {
        self.height as int
    }

    /// The number of columns: one more than the lines of the first text.
    pub closed spec fn cols(&self) -> int {
        self.width as int
    }

    /// The cells fill the rows and columns.
    pub closed spec fn wf(&self) -> bool {
        &&& self.width > 0
        &&& self.cells@.len() == self.height * self.width
        &&& self.height * self.width <= usize::MAX
    }

    /// The point stored for `(i, j)`, if any.
    pub closed spec fn cell(&self, i: int, j: int) -> Option<Node> {
        if 0 <= i < self.height && 0 <= j < self.width {
            self.cells@[i * self.width + j]
        } else {
            None
        }
    }

    /// How many pairs have no point yet.
    pub closed spec fn free(&self) -> nat {
        count_none(self.cells@)
    }

    /// A grid of `height` rows and `width` columns with no point in it.
    fn new(height: usize, width: usize) -> (g: Grid)
        requires
            width > 0,
            height * width <= usize::MAX,
        ensures
            g.wf(),
            g.rows() == height,
            g.cols() == width,
            forall|i: int, j: int| g.cell(i, j) is None,
    {
        let total = height * width;
        let mut cells: Vec<Option<Node>> = Vec::new();
        let mut k: usize = 0;
        while k < total
            invariant
                k <= total,
                cells@.len() == k,
                forall|m: int| 0 <= m < k ==> cells@[m] is None,
            decreases total - k,
        {
            cells.push(None);
            k += 1;
        }
        let g = Grid { width, height, cells };
        assert forall|i: int, j: int| g.cell(i, j) is None by {
            if 0 <= i < height && 0 <= j < width {
                lemma_cell_index(i, j, width as int, height as int);
            }
        }
        g
    }

    /// The point stored for `(i, j)`; none outside the grid.
    pub fn at(&self, i: usize, j: usize) -> (res: Option<Node>)
        requires
            self.wf(),
        ensures
            res == self.cell(i as int, j as int),
    {
        if i < self.height && j < self.width {
            proof {
                lemma_cell_index(i as int, j as int, self.width as int, self.height as int);
            }
            self.cells[i * self.width + j]
        } else {
            None
        }
    }

    /// Store `n` at its pair.
    fn insert(&mut self, n: Node)
        requires
            old(self).wf(),
            (n.i as int) < old(self).rows(),
            (n.j as int) < old(self).cols(),
        ensures
            final(self).wf(),
            final(self).rows() == old(self).rows(),
            final(self).cols() == old(self).cols(),
            forall|a: int, b: int|
                #[trigger] final(self).cell(a, b) == if a == n.i && b == n.j {
                    Some(n)
                } else {
                    old(self).cell(a, b)
                },
            old(self).cell(n.i as int, n.j as int) is None ==> final(self).free() + 1 == old(self).free(),
    {
        proof {
            lemma_cell_index(n.i as int, n.j as int, self.width as int, self.height as int);
        }
        let k = n.i * self.width + n.j;
        let ghost before = self.cells@;
        self.cells.set(k, Some(n));
        proof {
            assert forall|a: int, b: int|
                #[trigger] self.cell(a, b) == if a == n.i && b == n.j {
                    Some(n)
                } else {
                    old(self).cell(a, b)
                } by {
                if 0 <= a < self.height && 0 <= b < self.width {
                    lemma_cell_index(a, b, self.width as int, self.height as int);
                    if a * self.width + b == k {
                        lemma_cell_index_unique(a, b, n.i as int, n.j as int, self.width as int);
                    }
                }
            }
            if before[k as int] is None {
                lemma_count_fill(before, k as int, n);
            }
        }
    }
}

/// Is there a point at `(i, j)`?
pub open spec fn stored(g: Grid, i: int, j: int) -> bool {
    g.cell(i, j) is Some
}

/// The point at `(i, j)`.
pub open spec fn node_at(g: Grid, i: int, j: int) -> Node {
    g.cell(i, j)->0
}

/// `n` lies in the graph of texts `src` and `dest`, its `d` is the lines left
/// of both, and the step that led to it came from a point of `g`; a kept line
/// is the same in both texts, and a line is left out or put in only where the
/// next lines of the two texts differ (or one text has none left).
pub open spec fn step_ok(g: Grid, src: Seq<Seq<char>>, dest: Seq<Seq<char>>, n: Node) -> bool {
    let i = n.i as int;
    let j = n.j as int;
    &&& i <= dest.len()
    &&& j <= src.len()
    &&& n.d == dest.len() + src.len() - i - j
    &&& match n.op {
        Edit::Keep => (i == 0 && j == 0) || (i > 0 && j > 0 && dest[i - 1] == src[j - 1] && stored(
            g,
            i - 1,
            j - 1,
        )),
        Edit::Delete => j > 0 && stored(g, i, j - 1) && !(i < dest.len() && dest[i] == src[j - 1]),
        Edit::Insert => i > 0 && stored(g, i - 1, j) && !(j < src.len() && dest[i - 1] == src[j]),
    }
}

/// Every point of `g` sits at its own pair and came by a step from another
/// point of `g` (or is the start).
pub open spec fn consistent(g: Grid, src: Seq<Seq<char>>, dest: Seq<Seq<char>>) -> bool {
    &&& g.wf()
    &&& g.rows() == dest.len() + 1
    &&& g.cols() == src.len() + 1
    &&& forall|i: int, j: int|
        #[trigger] stored(g, i, j) ==> node_at(g, i, j).i == i && node_at(g, i, j).j == j && step_ok(
            g,
            src,
            dest,
            node_at(g, i, j),
        )
}

/// Is `(a, b)` stored in `g` or waiting in `q`?
spec fn present(g: Grid, q: Seq<Node>, a: int, b: int) -> bool {
    stored(g, a, b) || exists|k: int| 0 <= k < q.len() && q[k].i == a && q[k].j == b
}

/// The pairs the search goes on to from `(i, j)` are stored or waiting.
spec fn successors_present(g: Grid, q: Seq<Node>, src: Seq<Seq<char>>, dest: Seq<Seq<char>>, i: int, j: int) -> bool {
    if i < dest.len() && j < src.len() {
        if dest[i] == src[j] {
            present(g, q, i + 1, j + 1)
        } else {
            present(g, q, i, j + 1) && present(g, q, i + 1, j)
        }
    } else if i < dest.len() {
        present(g, q, i + 1, j)
    } else if j < src.len() {
        present(g, q, i, j + 1)
    } else {
        true
    }
}

spec fn succ_closed(g: Grid, q: Seq<Node>, src: Seq<Seq<char>>, dest: Seq<Seq<char>>) -> bool {
    forall|i: int, j: int| #[trigger] stored(g, i, j) ==> successors_present(g, q, src, dest, i, j)
}

spec fn grows(g: Grid, h: Grid) -> bool {
    forall|a: int, b: int| #[trigger] stored(g, a, b) ==> stored(h, a, b)
}

proof fn lemma_step_grow(g: Grid, h: Grid, src: Seq<Seq<char>>, dest: Seq<Seq<char>>, n: Node)
    requires
        grows(g, h),
        step_ok(g, src, dest, n),
    ensures
        step_ok(h, src, dest, n),
{
    let i = n.i as int;
    let j = n.j as int;
    if i > 0 && j > 0 {
        assert(stored(g, i - 1, j - 1) ==> stored(h, i - 1, j - 1));
    }
    if j > 0 {
        assert(stored(g, i, j - 1) ==> stored(h, i, j - 1));
    }
    if i > 0 {
        assert(stored(g, i - 1, j) ==> stored(h, i - 1, j));
    }
}

/// What was present before a step of the search is present after it, when the
/// point taken off the queue is stored after the step.
proof fn lemma_present_step(g: Grid, q: Seq<Node>, h: Grid, r: Seq<Node>, a: int, b: int)
    requires
        present(g, q, a, b),
        grows(g, h),
        q.len() > 0,
        stored(h, q[0].i as int, q[0].j as int),
        r.len() + 1 >= q.len(),
        forall|k: int| 0 <= k < q.len() - 1 ==> r[k] == q[k + 1],
    ensures
        present(h, r, a, b),
{
    if stored(g, a, b) {
        assert(stored(h, a, b));
    } else {
        let k = choose|k: int| 0 <= k < q.len() && q[k].i == a && q[k].j == b;
        if k > 0 {
            assert(r[k - 1] == q[k]);
        }
    }
}

proof fn lemma_successors_step(
    g: Grid,
    q: Seq<Node>,
    h: Grid,
    r: Seq<Node>,
    src: Seq<Seq<char>>,
    dest: Seq<Seq<char>>,
    i: int,
    j: int,
)
    requires
        successors_present(g, q, src, dest, i, j),
        grows(g, h),
        q.len() > 0,
        stored(h, q[0].i as int, q[0].j as int),
        r.len() + 1 >= q.len(),
        forall|k: int| 0 <= k < q.len() - 1 ==> r[k] == q[k + 1],
    ensures
        successors_present(h, r, src, dest, i, j),
{
    if i < dest.len() && j < src.len() {
        if dest[i] == src[j] {
            lemma_present_step(g, q, h, r, i + 1, j + 1);
        } else {
            lemma_present_step(g, q, h, r, i, j + 1);
            lemma_present_step(g, q, h, r, i + 1, j);
        }
    } else if i < dest.len() {
        lemma_present_step(g, q, h, r, i + 1, j);
    } else if j < src.len() {
        lemma_present_step(g, q, h, r, i, j + 1);
    }
}

/// With nothing waiting, a stored point leads on to the end.
proof fn lemma_reach_end(g: Grid, src: Seq<Seq<char>>, dest: Seq<Seq<char>>, i: int, j: int)
    requires
        succ_closed(g, Seq::empty(), src, dest),
        stored(g, i, j),
        0 <= i <= dest.len(),
        0 <= j <= src.len(),
    ensures
        stored(g, dest.len() as int, src.len() as int),
    decreases dest.len() + src.len() - i - j,
{
    assert(successors_present(g, Seq::empty(), src, dest, i, j));
    if i < dest.len() && j < src.len() {
        if dest[i] == src[j] {
            lemma_reach_end(g, src, dest, i + 1, j + 1);
        } else {
            lemma_reach_end(g, src, dest, i, j + 1);
        }
    } else if i < dest.len() {
        lemma_reach_end(g, src, dest, i + 1, j);
    } else if j < src.len() {
        lemma_reach_end(g, src, dest, i, j + 1);
    }
}

/// The search: from the start, a line that is the same in both texts is
/// kept; otherwise the search goes on both by leaving out a line of the first
/// text and by putting in one of the second. Each pair keeps the first point
/// that reached it. The end is always reached.
pub fn diff(src: &Vec<String>, dest: &Vec<String>) -> (grid: Grid)
    requires
        (src.len() + 1) * (dest.len() + 1) <= usize::MAX,
    ensures
        consistent(grid, strings_view(src@), strings_view(dest@)),
        stored(grid, dest.len() as int, src.len() as int),
{
    let ghost sv = strings_view(src@);
    let ghost dv = strings_view(dest@);
    let sl = src.len();
    let dl = dest.len();
    proof {
        assert((dl + 1) * (sl + 1) == (sl + 1) * (dl + 1)) by (nonlinear_arith);
        assert(sl + dl <= (sl + 1) * (dl + 1)) by (nonlinear_arith);
    }
    let mut grid = Grid::new(dl + 1, sl + 1);
    let mut queue: VecDeque<Node> = VecDeque::new();
    queue.push_back(Node { i: 0, j: 0, d: sl + dl, op: Edit::Keep });
    proof {
        assert(queue@[0].i == 0 && queue@[0].j == 0);
    }
    while queue.len() > 0
        invariant
            sv == strings_view(src@),
            dv == strings_view(dest@),
            sl == src.len(),
            dl == dest.len(),
            consistent(grid, sv, dv),
            forall|k: int| 0 <= k < queue@.len() ==> step_ok(grid, sv, dv, #[trigger] queue@[k]),
            present(grid, queue@, 0, 0),
            succ_closed(grid, queue@, sv, dv),
        decreases 3 * grid.free() + queue@.len(),
    {
        let ghost g0 = grid;
        let ghost q0 = queue@;
        let n = queue.pop_front().unwrap();
        assert(step_ok(g0, sv, dv, q0[0]));
        let existing = grid.at(n.i, n.j);
        if let Some(m) = existing {
            assert(stored(g0, n.i as int, n.j as int));
            if m.d <= n.d {
                proof {
                    assert(grows(g0, g0));
                    assert forall|a: int, b: int| #[trigger] stored(grid, a, b) implies successors_present(
                        grid,
                        queue@,
                        sv,
                        dv,
                        a,
                        b,
                    ) by {
                        lemma_successors_step(g0, q0, grid, queue@, sv, dv, a, b);
                    }
                    lemma_present_step(g0, q0, grid, queue@, 0, 0);
                }
                continue;
            }
        }
        let ghost q1 = queue@;
        let i = n.i;
        let j = n.j;
        if i < dl {
            if j < sl {
                if str_eq(dest[i].as_str(), src[j].as_str()) {
                    queue.push_back(Node { i: i + 1, j: j + 1, d: n.d - 2, op: Edit::Keep });
                } else {
                    queue.push_back(Node { i, j: j + 1, d: n.d - 1, op: Edit::Delete });
                    queue.push_back(Node { i: i + 1, j, d: n.d - 1, op: Edit::Insert });
                }
            } else {
                queue.push_back(Node { i: i + 1, j, d: n.d - 1, op: Edit::Insert });
            }
        } else if j < sl {
            queue.push_back(Node { i, j: j + 1, d: n.d - 1, op: Edit::Delete });
        }
        let ghost q2 = queue@;
        assert(forall|k: int| 0 <= k < q1.len() ==> q2[k] == q1[k]);
        grid.insert(n);
        proof {
            assert(grows(g0, grid));
            assert(stored(grid, i as int, j as int));
            assert forall|a: int, b: int| #[trigger] stored(grid, a, b) implies node_at(grid, a, b).i == a
                && node_at(grid, a, b).j == b && step_ok(grid, sv, dv, node_at(grid, a, b)) by {
                if a == i && b == j {
                    lemma_step_grow(g0, grid, sv, dv, n);
                } else {
                    assert(stored(g0, a, b));
                    lemma_step_grow(g0, grid, sv, dv, node_at(g0, a, b));
                }
            }
            assert forall|k: int| 0 <= k < queue@.len() implies step_ok(grid, sv, dv, #[trigger] queue@[k]) by {
                if k < q1.len() {
                    assert(queue@[k] == q0[k + 1]);
                    assert(step_ok(g0, sv, dv, q0[k + 1]));
                    lemma_step_grow(g0, grid, sv, dv, q0[k + 1]);
                }
            }
            assert forall|a: int, b: int| #[trigger] stored(grid, a, b) implies successors_present(
                grid,
                queue@,
                sv,
                dv,
                a,
                b,
            ) by {
                if a == i && b == j {
                    if (i as int) < dv.len() && (j as int) < sv.len() {
                        if dv[i as int] == sv[j as int] {
                            assert(queue@[q1.len() as int].i == a + 1 && queue@[q1.len() as int].j == b + 1);
                        } else {
                            assert(queue@[q1.len() as int].i == a && queue@[q1.len() as int].j == b + 1);
                            assert(queue@[q1.len() as int + 1].i == a + 1 && queue@[q1.len() as int + 1].j == b);
                        }
                    } else if (i as int) < dv.len() {
                        assert(queue@[q1.len() as int].i == a + 1 && queue@[q1.len() as int].j == b);
                    } else if (j as int) < sv.len() {
                        assert(queue@[q1.len() as int].i == a && queue@[q1.len() as int].j == b + 1);
                    }
                } else {
                    assert(stored(g0, a, b));
                    lemma_successors_step(g0, q0, grid, queue@, sv, dv, a, b);
                }
            }
            lemma_present_step(g0, q0, grid, queue@, 0, 0);
        }
    }
    proof {
        assert(queue@ =~= Seq::<Node>::empty());
        assert(stored(grid, 0, 0));
        lemma_reach_end(grid, sv, dv, 0, 0);
    }
    grid
}

/// The steps followed back from `(i, j)` to the start, in forward order.
pub open spec fn path(g: Grid, i: nat, j: nat) -> Seq<Edit>
    decreases i + j,
{
    if (i == 0 && j == 0) || !stored(g, i as int, j as int) {
        Seq::empty()
    } else {
        match node_at(g, i as int, j as int).op {
            Edit::Keep => if i > 0 && j > 0 {
                path(g, (i - 1) as nat, (j - 1) as nat).push(Edit::Keep)
            } else {
                Seq::empty()
            },
            Edit::Delete => if j > 0 {
                path(g, i, (j - 1) as nat).push(Edit::Delete)
            } else {
                Seq::empty()
            },
            Edit::Insert => if i > 0 {
                path(g, (i - 1) as nat, j).push(Edit::Insert)
            } else {
                Seq::empty()
            },
        }
    }
}

/// Lines of the first text that a script goes past: the kept and left out.
pub open spec fn src_pos(s: Seq<Edit>) -> nat
    decreases s.len(),
{
    if s.len() == 0 {
        0
    } else {
        src_pos(s.drop_last()) + if s.last() == Edit::Insert {
            0nat
        } else {
            1nat
        }
    }
}

/// Lines of the second text that a script goes past: the kept and put in.
pub open spec fn dest_pos(s: Seq<Edit>) -> nat
    decreases s.len(),
{
    if s.len() == 0 {
        0
    } else {
        dest_pos(s.drop_last()) + if s.last() == Edit::Delete {
            0nat
        } else {
            1nat
        }
    }
}

/// Each kept line is the same in both texts, and no step goes past the end of
/// either.
pub open spec fn steps_match(s: Seq<Edit>, src: Seq<Seq<char>>, dest: Seq<Seq<char>>) -> bool
    decreases s.len(),
{
    if s.len() == 0 {
        true
    } else {
        &&& src_pos(s) <= src.len()
        &&& dest_pos(s) <= dest.len()
        &&& (s.last() == Edit::Keep ==> src[src_pos(s) - 1] == dest[dest_pos(s) - 1])
        &&& steps_match(s.drop_last(), src, dest)
    }
}

/// A script from the first text `src` to the second `dest`: it goes past all
/// lines of both, and keeps only lines that are the same in both.
pub open spec fn valid_script(s: Seq<Edit>, src: Seq<Seq<char>>, dest: Seq<Seq<char>>) -> bool {
    &&& src_pos(s) == src.len()
    &&& dest_pos(s) == dest.len()
    &&& steps_match(s, src, dest)
}

/// A line is left out or put in only where the next lines of the two texts
/// differ, or one of them has no line left.
pub open spec fn changes_only_differences(s: Seq<Edit>, src: Seq<Seq<char>>, dest: Seq<Seq<char>>) -> bool
    decreases s.len(),
{
    if s.len() == 0 {
        true
    } else {
        let p = src_pos(s.drop_last()) as int;
        let q = dest_pos(s.drop_last()) as int;
        &&& (s.last() != Edit::Keep ==> !(p < src.len() && q < dest.len() && src[p] == dest[q]))
        &&& changes_only_differences(s.drop_last(), src, dest)
    }
}

/// The text that a script makes of `src`: the kept lines, from `src`, and the
/// lines put in, from `dest`.
pub open spec fn applied(s: Seq<Edit>, src: Seq<Seq<char>>, dest: Seq<Seq<char>>) -> Seq<Seq<char>>
    decreases s.len(),
{
    if s.len() == 0 {
        Seq::empty()
    } else if s.last() == Edit::Keep {
        applied(s.drop_last(), src, dest).push(src[src_pos(s) - 1])
    } else if s.last() == Edit::Insert {
        applied(s.drop_last(), src, dest).push(dest[dest_pos(s) - 1])
    } else {
        applied(s.drop_last(), src, dest)
    }
}

#[verifier::rlimit(40)]
proof fn lemma_path_valid(g: Grid, src: Seq<Seq<char>>, dest: Seq<Seq<char>>, i: nat, j: nat)
    requires
        consistent(g, src, dest),
        stored(g, i as int, j as int),
    ensures
        src_pos(path(g, i, j)) == j,
        dest_pos(path(g, i, j)) == i,
        steps_match(path(g, i, j), src, dest),
        changes_only_differences(path(g, i, j), src, dest),
    decreases i + j,
{
    let n = node_at(g, i as int, j as int);
    assert(n.i == i && n.j == j && step_ok(g, src, dest, n));
    let p = path(g, i, j);
    if i == 0 && j == 0 {
    } else {
        match n.op {
            Edit::Keep => {
                lemma_path_valid(g, src, dest, (i - 1) as nat, (j - 1) as nat);
                assert(p.drop_last() == path(g, (i - 1) as nat, (j - 1) as nat));
            },
            Edit::Delete => {
                lemma_path_valid(g, src, dest, i, (j - 1) as nat);
                assert(p.drop_last() == path(g, i, (j - 1) as nat));
            },
            Edit::Insert => {
                lemma_path_valid(g, src, dest, (i - 1) as nat, j);
                assert(p.drop_last() == path(g, (i - 1) as nat, j));
            },
        }
    }
}

proof fn lemma_applied_prefix(s: Seq<Edit>, src: Seq<Seq<char>>, dest: Seq<Seq<char>>)
    requires
        steps_match(s, src, dest),
    ensures
        applied(s, src, dest) == dest.take(dest_pos(s) as int),
    decreases s.len(),
{
    if s.len() > 0 {
        lemma_applied_prefix(s.drop_last(), src, dest);
        let q = dest_pos(s) as int;
        if s.last() != Edit::Delete {
            assert(dest.take(q) =~= dest.take(q - 1).push(dest[q - 1]));
        }
    }
}

/// Following the steps that a script gives, from the first text, makes the
/// second text: the kept lines and the lines put in are the second text, in
/// order.
pub proof fn lemma_script_makes_second(s: Seq<Edit>, src: Seq<Seq<char>>, dest: Seq<Seq<char>>)
    requires
        valid_script(s, src, dest),
    ensures
        applied(s, src, dest) == dest,
{
    lemma_applied_prefix(s, src, dest);
    assert(dest.take(dest.len() as int) =~= dest);
}

/// The edit script that the search found: its steps from the start to the
/// end, followed back from the end.
#[verifier::rlimit(30)]
pub fn edit_script(grid: &Grid, src: &Vec<String>, dest: &Vec<String>) -> (res: Vec<Edit>)
    requires
        consistent(*grid, strings_view(src@), strings_view(dest@)),
        stored(*grid, dest.len() as int, src.len() as int),
    ensures
        res@ == path(*grid, dest.len() as nat, src.len() as nat),
        valid_script(res@, strings_view(src@), strings_view(dest@)),
        changes_only_differences(res@, strings_view(src@), strings_view(dest@)),
{
    let ghost sv = strings_view(src@);
    let ghost dv = strings_view(dest@);
    let mut i = dest.len();
    let mut j = src.len();
    let mut back: Vec<Edit> = Vec::new();
    while i > 0 || j > 0
        invariant
            consistent(*grid, sv, dv),
            stored(*grid, i as int, j as int),
            path(*grid, dest.len() as nat, src.len() as nat) == path(*grid, i as nat, j as nat) + back@.reverse(),
        decreases i + j,
    {
        let n = grid.at(i, j).unwrap();
        assert(n.i == i && n.j == j && step_ok(*grid, sv, dv, n));
        let ghost old_back = back@;
        match n.op {
            Edit::Keep => {
                back.push(Edit::Keep);
                i -= 1;
                j -= 1;
            },
            Edit::Delete => {
                back.push(Edit::Delete);
                j -= 1;
            },
            Edit::Insert => {
                back.push(Edit::Insert);
                i -= 1;
            },
        }
        proof {
            assert(back@.reverse() =~= seq![n.op] + old_back.reverse());
            assert(path(*grid, i as nat, j as nat) + back@.reverse() =~= path(*grid, i as nat, j as nat).push(n.op)
                + old_back.reverse());
        }
    }
    let mut res: Vec<Edit> = Vec::new();
    let mut k = back.len();
    while k > 0
        invariant
            k <= back@.len(),
            res@ =~= back@.subrange(k as int, back@.len() as int).reverse(),
        decreases k,
    {
        k -= 1;
        res.push(back[k]);
        assert(back@.subrange(k as int, back@.len() as int).reverse() =~= back@.subrange(k + 1, back@.len() as int).reverse().push(back@[k as int]));
    }
    proof {
        assert(back@.subrange(0, back@.len() as int) =~= back@);
        assert(path(*grid, 0, 0) =~= Seq::<Edit>::empty());
        assert(res@ =~= path(*grid, dest.len() as nat, src.len() as nat));
        lemma_path_valid(*grid, sv, dv, dest.len() as nat, src.len() as nat);
    }
    res
}

} // verus!
