//! Live ranges of virtual registers and the liveness analysis that
//! computes them.
use vstd::prelude::*;
use crate::machine::{BlockLive, CodeView, MachineFunction, MachineInstr, MachineModule, MachineOpcode, MachineOperand};
use rustc_hash::FxHashMap;
use crate::fxhash::{fx_map_get, fx_map_insert, fx_map_into_entries, fx_map_new, fx_map_remove, vreg_set_contains, vreg_set_elements, vreg_set_insert};

verus! {

/// A half-open range `[start, end)` of instruction indices.
#[derive(Debug, Clone, Copy, PartialEq, Eq, Structural)]
pub struct LiveSegment {
    pub start: usize,
    pub end: usize,
}

/// The segments in which a register is live, block by block.
#[derive(Debug, Clone)]
pub struct LiveRange {
    pub segments: Vec<LiveSegment>,
}

/// The live range of one virtual register.
#[derive(Debug, Clone)]
pub struct LiveInterval {
    pub vreg: usize,
    pub range: LiveRange,
}

/// The live intervals of a function, by virtual register.
pub struct LiveRegMatrix {
    pub map: FxHashMap<usize, LiveInterval>,
}

pub struct LivenessAnalyzer<'a> {
    pub module: &'a MachineModule,
}

pub struct LivenessAnalysis<'a> {
    pub module: &'a mut MachineModule,
}

/// Block `x` neither defines `r` nor has it live on entry: a backward walk
/// that adds `r` to live-in sets may pass through it.
pub open spec fn open_block(s: Seq<BlockLive>, r: usize, x: usize) -> bool {
    &&& (x as int) < s.len()
    &&& !s[x as int].def.contains(r)
    &&& !s[x as int].live_in.contains(r)
}

/// `x` is a predecessor of `y` that does not yet have `r` live on exit.
pub open spec fn pred_step(s: Seq<BlockLive>, g: Seq<Seq<usize>>, r: usize, y: usize, x: usize) -> bool {
    &&& g[y as int].contains(x)
    &&& !s[x as int].live_out.contains(r)
}

/// A walk backwards along predecessor edges through open blocks, each step
/// to a block that does not yet have `r` live on exit.
pub open spec fn live_path(s: Seq<BlockLive>, g: Seq<Seq<usize>>, r: usize, path: Seq<usize>) -> bool {
    &&& path.len() >= 1
    &&& forall|i: int| 0 <= i < path.len() ==> open_block(s, r, #[trigger] path[i])
    &&& forall|i: int| 1 <= i < path.len() ==> pred_step(s, g, r, path[i - 1], #[trigger] path[i])
}

/// Such a walk leads from `b` to `x`.
pub open spec fn reaches(s: Seq<BlockLive>, g: Seq<Seq<usize>>, r: usize, b: usize, x: usize) -> bool {
    exists|path: Seq<usize>|
        #[trigger] live_path(s, g, r, path) && path[0] == b && path[path.len() - 1] == x
}

/// `q` is a predecessor of a block that such a walk from `b` reaches.
pub open spec fn feeds(s: Seq<BlockLive>, g: Seq<Seq<usize>>, r: usize, b: usize, q: usize) -> bool {
    exists|y: usize| #[trigger] reaches(s, g, r, b, y) && g[y as int].contains(q)
}

/// Propagating a use of `r` in block `b` upwards: `r` becomes live on entry
/// to every block that a walk from `b` reaches and live on exit from each
/// of their predecessors.
pub open spec fn prop_up(s: Seq<BlockLive>, g: Seq<Seq<usize>>, b: usize, r: usize) -> Seq<BlockLive> {
    Seq::new(
        s.len(),
        |x: int|
            BlockLive {
                def: s[x].def,
                live_in: if reaches(s, g, r, b, x as usize) {
                    s[x].live_in.insert(r)
                } else {
                    s[x].live_in
                },
                live_out: if feeds(s, g, r, b, x as usize) {
                    s[x].live_out.insert(r)
                } else {
                    s[x].live_out
                },
            },
    )
}

pub open spec fn add_live_in(s: Seq<BlockLive>, x: usize, r: usize) -> Seq<BlockLive> {
    s.update(x as int, BlockLive { live_in: s[x as int].live_in.insert(r), ..s[x as int] })
}

pub open spec fn add_live_out(s: Seq<BlockLive>, x: usize, r: usize) -> Seq<BlockLive> {
    s.update(x as int, BlockLive { live_out: s[x as int].live_out.insert(r), ..s[x as int] })
}

/// Propagating a use of `r` in block `b`.  For an operand of a phi, `pred`
/// is the block that the value comes from: `r` becomes live on entry to
/// `b`, live on exit from that block only, and is propagated upwards from
/// there.  A block that defines `r` or already has it live on entry stops
/// the propagation.
pub open spec fn propagate_spec(s: Seq<BlockLive>, g: Seq<Seq<usize>>, b: usize, pred: Option<usize>, r: usize) -> Seq<BlockLive> {
    match pred {
        None => prop_up(s, g, b, r),
        Some(p) => if s[b as int].def.contains(r) || s[b as int].live_in.contains(r) {
            s
        } else {
            let s1 = add_live_in(s, b, r);
            if s1[p as int].live_out.contains(r) {
                s1
            } else {
                prop_up(add_live_out(s1, p, r), g, p, r)
            }
        },
    }
}

/// The number of the first `k` blocks that do not have `r` live on exit.
pub open spec fn count_missing(s: Seq<BlockLive>, r: usize, k: nat) -> nat
    decreases k,
{
    if k == 0 {
        0
    } else {
        count_missing(s, r, (k - 1) as nat) + if s[k - 1].live_out.contains(r) {
            0nat
        } else {
            1nat
        }
    }
}

proof fn lemma_count_missing(s: Seq<BlockLive>, s2: Seq<BlockLive>, r: usize, p: int, k: nat)
    requires
        k <= s.len() == s2.len(),
        forall|x: int| 0 <= x < s.len() && s[x].live_out.contains(r) ==> s2[x].live_out.contains(r),
        0 <= p < s.len(),
        !s[p].live_out.contains(r),
        s2[p].live_out.contains(r),
    ensures
        count_missing(s2, r, k) <= count_missing(s, r, k),
        k > p ==> count_missing(s2, r, k) < count_missing(s, r, k),
    decreases k,
{
    if k > 0 {
        lemma_count_missing(s, s2, r, p, (k - 1) as nat);
    }
}

} // verus!

verus! {

/// `c` is `a` with `r` possibly added to its live-in and live-out sets.
pub open spec fn grown_at(a: BlockLive, c: BlockLive, r: usize) -> bool {
    &&& c.def == a.def
    &&& c.live_in == a.live_in || c.live_in == a.live_in.insert(r)
    &&& c.live_out == a.live_out || c.live_out == a.live_out.insert(r)
}

pub open spec fn grown(s0: Seq<BlockLive>, s: Seq<BlockLive>, r: usize) -> bool {
    &&& s.len() == s0.len()
    &&& forall|x: int| 0 <= x < s.len() ==> grown_at(s0[x], #[trigger] s[x], r)
}

pub open spec fn new_in(s0: Seq<BlockLive>, s: Seq<BlockLive>, r: usize, x: usize) -> bool {
    &&& (x as int) < s.len()
    &&& s[x as int].live_in.contains(r)
    &&& !s0[x as int].live_in.contains(r)
}

pub open spec fn new_out(s0: Seq<BlockLive>, s: Seq<BlockLive>, r: usize, x: usize) -> bool {
    &&& (x as int) < s.len()
    &&& s[x as int].live_out.contains(r)
    &&& !s0[x as int].live_out.contains(r)
}

pub open spec fn graph_ok(g: Seq<Seq<usize>>, n: int) -> bool {
    &&& g.len() == n
    &&& n <= usize::MAX
    &&& forall|x: int, j: int| 0 <= x < n && 0 <= j < g[x].len() ==> (#[trigger] g[x][j] as int) < n
}

/// What holds part way through propagating `r` upwards from `b`, starting
/// from `s0`: every block newly given `r` on entry is reached by a walk
/// from `b`; every block newly given `r` on exit is a predecessor of one of
/// them and defines `r` or has it on entry; and the predecessors of every
/// such block other than `b` have `r` on exit.
pub open spec fn partial_prop(s0: Seq<BlockLive>, s: Seq<BlockLive>, g: Seq<Seq<usize>>, b: usize, r: usize) -> bool {
    &&& grown(s0, s, r)
    &&& forall|x: usize| #[trigger] new_in(s0, s, r, x) ==> reaches(s0, g, r, b, x)
    &&& forall|q: usize|
        #[trigger] new_out(s0, s, r, q) ==> (exists|x: usize| new_in(s0, s, r, x) && #[trigger] g[x as int].contains(q))
    &&& forall|q: usize|
        #[trigger] new_out(s0, s, r, q) ==> s[q as int].def.contains(r) || s[q as int].live_in.contains(r)
    &&& forall|x: usize, j: int|
        new_in(s0, s, r, x) && x != b && 0 <= j < g[x as int].len() ==> s[#[trigger] g[x as int][j] as int].live_out.contains(r)
}

proof fn lemma_trivial_path(s: Seq<BlockLive>, g: Seq<Seq<usize>>, r: usize, p: usize)
    requires
        open_block(s, r, p),
    ensures
        reaches(s, g, r, p, p),
{
    let path = seq![p];
    assert(live_path(s, g, r, path));
}

proof fn lemma_blocked(s: Seq<BlockLive>, g: Seq<Seq<usize>>, r: usize, b: usize)
    requires
        !open_block(s, r, b),
    ensures
        prop_up(s, g, b, r) =~= s,
{
    assert forall|x: usize| !reaches(s, g, r, b, x) by {
        if reaches(s, g, r, b, x) {
            let path = choose|path: Seq<usize>|
                #[trigger] live_path(s, g, r, path) && path[0] == b && path[path.len() - 1] == x;
            assert(open_block(s, r, path[0]));
        }
    }
    assert forall|q: usize| !feeds(s, g, r, b, q) by {
        if feeds(s, g, r, b, q) {
            let y = choose|y: usize| #[trigger] reaches(s, g, r, b, y) && g[y as int].contains(q);
        }
    }
}

/// A walk from `p` in a grown state, preceded by a step from `b`, is a walk
/// from `b` in the state it was grown from.
proof fn lemma_prepend(s0: Seq<BlockLive>, s1: Seq<BlockLive>, g: Seq<Seq<usize>>, r: usize, b: usize, p: usize, x: usize)
    requires
        grown(s0, s1, r),
        open_block(s0, r, b),
        g[b as int].contains(p),
        !s0[p as int].live_out.contains(r),
        reaches(s1, g, r, p, x),
    ensures
        reaches(s0, g, r, b, x),
{
    let path = choose|path: Seq<usize>|
        #[trigger] live_path(s1, g, r, path) && path[0] == p && path[path.len() - 1] == x;
    let path2 = seq![b] + path;
    assert forall|i: int| 0 <= i < path2.len() implies open_block(s0, r, #[trigger] path2[i]) by {
        if i > 0 {
            assert(path2[i] == path[i - 1]);
            assert(open_block(s1, r, path[i - 1]));
            assert(grown_at(s0[path[i - 1] as int], s1[path[i - 1] as int], r));
        }
    }
    assert forall|i: int| 1 <= i < path2.len() implies pred_step(s0, g, r, path2[i - 1], #[trigger] path2[i]) by {
        assert(path2[i] == path[i - 1]);
        if i > 1 {
            assert(path2[i - 1] == path[i - 2]);
            assert(pred_step(s1, g, r, path[i - 2], path[i - 1]));
            assert(open_block(s1, r, path[i - 1]));
            assert(grown_at(s0[path[i - 1] as int], s1[path[i - 1] as int], r));
        }
    }
    assert(live_path(s0, g, r, path2));
    assert(path2[0] == b && path2[path2.len() - 1] == x);
}

/// A walk from `b` to `y`, followed by a step to a predecessor `q` of `y`
/// that is open and lacks `r` on exit, is a walk from `b` to `q`.
proof fn lemma_append(s: Seq<BlockLive>, g: Seq<Seq<usize>>, r: usize, b: usize, y: usize, q: usize)
    requires
        reaches(s, g, r, b, y),
        g[y as int].contains(q),
        open_block(s, r, q),
        !s[q as int].live_out.contains(r),
    ensures
        reaches(s, g, r, b, q),
{
    let path = choose|path: Seq<usize>|
        #[trigger] live_path(s, g, r, path) && path[0] == b && path[path.len() - 1] == y;
    let path2 = path.push(q);
    assert forall|i: int| 0 <= i < path2.len() implies open_block(s, r, #[trigger] path2[i]) by {
        if i < path.len() {
            assert(path2[i] == path[i]);
        }
    }
    assert forall|i: int| 1 <= i < path2.len() implies pred_step(s, g, r, path2[i - 1], #[trigger] path2[i]) by {
        if i < path.len() {
            assert(path2[i] == path[i]);
            assert(path2[i - 1] == path[i - 1]);
        }
    }
    assert(live_path(s, g, r, path2));
}

} // verus!

verus! {

proof fn lemma_path_in(s0: Seq<BlockLive>, s: Seq<BlockLive>, g: Seq<Seq<usize>>, b: usize, r: usize, path: Seq<usize>, i: int)
    requires
        partial_prop(s0, s, g, b, r),
        (b as int) < s.len(),
        s[b as int].live_in.contains(r),
        forall|j: int| 0 <= j < g[b as int].len() ==> s[#[trigger] g[b as int][j] as int].live_out.contains(r),
        live_path(s0, g, r, path),
        path[0] == b,
        0 <= i < path.len(),
    ensures
        s[path[i] as int].live_in.contains(r),
    decreases i,
{
    if i > 0 {
        lemma_path_in(s0, s, g, b, r, path, i - 1);
        let y = path[i - 1];
        let q = path[i];
        assert(open_block(s0, r, y));
        assert(open_block(s0, r, q));
        assert(pred_step(s0, g, r, y, q));
        assert(new_in(s0, s, r, y));
        let j = choose|j: int| 0 <= j < g[y as int].len() && g[y as int][j] == q;
        assert(s[g[y as int][j] as int].live_out.contains(r));
        assert(new_out(s0, s, r, q));
    }
}

/// When the propagation from `b` has reached a state where `b` has `r` on
/// entry and all its predecessors have it on exit, the state is the
/// propagated one.
proof fn lemma_closure(s0: Seq<BlockLive>, s: Seq<BlockLive>, g: Seq<Seq<usize>>, b: usize, r: usize)
    requires
        partial_prop(s0, s, g, b, r),
        graph_ok(g, s0.len() as int),
        open_block(s0, r, b),
        s[b as int].live_in.contains(r),
        forall|j: int| 0 <= j < g[b as int].len() ==> s[#[trigger] g[b as int][j] as int].live_out.contains(r),
    ensures
        s =~= prop_up(s0, g, b, r),
{
    let t = prop_up(s0, g, b, r);
    assert forall|x: int| 0 <= x < s.len() implies #[trigger] s[x] == t[x] by {
        assert(grown_at(s0[x], s[x], r));
        let xu = x as usize;
        if reaches(s0, g, r, b, xu) {
            let path = choose|path: Seq<usize>|
                #[trigger] live_path(s0, g, r, path) && path[0] == b && path[path.len() - 1] == xu;
            lemma_path_in(s0, s, g, b, r, path, path.len() - 1);
            assert(s[x].live_in =~= s0[x].live_in.insert(r));
        } else {
            if s[x].live_in.contains(r) && !s0[x].live_in.contains(r) {
                assert(new_in(s0, s, r, xu));
            }
            assert(s[x].live_in =~= s0[x].live_in);
        }
        if feeds(s0, g, r, b, xu) {
            let y = choose|y: usize| #[trigger] reaches(s0, g, r, b, y) && g[y as int].contains(xu);
            let path = choose|path: Seq<usize>|
                #[trigger] live_path(s0, g, r, path) && path[0] == b && path[path.len() - 1] == y;
            lemma_path_in(s0, s, g, b, r, path, path.len() - 1);
            assert(open_block(s0, r, path[path.len() - 1]));
            assert(new_in(s0, s, r, y));
            let j = choose|j: int| 0 <= j < g[y as int].len() && g[y as int][j] == xu;
            assert(s[g[y as int][j] as int].live_out.contains(r));
            assert(s[x].live_out =~= s0[x].live_out.insert(r));
        } else {
            if s[x].live_out.contains(r) && !s0[x].live_out.contains(r) {
                assert(new_out(s0, s, r, xu));
                let y = choose|y: usize| new_in(s0, s, r, y) && #[trigger] g[y as int].contains(xu);
                assert(reaches(s0, g, r, b, y));
            }
            assert(s[x].live_out =~= s0[x].live_out);
        }
    }
}

} // verus!

verus! {

proof fn lemma_grown_trans(s0: Seq<BlockLive>, s1: Seq<BlockLive>, s2: Seq<BlockLive>, r: usize)
    requires
        grown(s0, s1, r),
        grown(s1, s2, r),
    ensures
        grown(s0, s2, r),
{
    assert forall|x: int| 0 <= x < s2.len() implies grown_at(s0[x], #[trigger] s2[x], r) by {
        assert(grown_at(s0[x], s1[x], r));
        assert(grown_at(s1[x], s2[x], r));
        assert(s0[x].live_in.insert(r).insert(r) =~= s0[x].live_in.insert(r));
        assert(s0[x].live_out.insert(r).insert(r) =~= s0[x].live_out.insert(r));
    }
}

proof fn lemma_prop_up_grown(s: Seq<BlockLive>, g: Seq<Seq<usize>>, p: usize, r: usize)
    ensures
        grown(s, prop_up(s, g, p, r), r),
{
    let t = prop_up(s, g, p, r);
    assert forall|x: int| 0 <= x < t.len() implies grown_at(s[x], #[trigger] t[x], r) by {
    }
}

/// One step of the propagation from `b`: its predecessor `p` is given `r`
/// on exit and the propagation continues from `p`.
proof fn lemma_step(s0: Seq<BlockLive>, sc: Seq<BlockLive>, g: Seq<Seq<usize>>, b: usize, p: usize, r: usize)
    requires
        partial_prop(s0, sc, g, b, r),
        graph_ok(g, s0.len() as int),
        open_block(s0, r, b),
        sc[b as int].live_in.contains(r),
        g[b as int].contains(p),
        !sc[p as int].live_out.contains(r),
    ensures
        ({
            let s2 = prop_up(add_live_out(sc, p, r), g, p, r);
            &&& partial_prop(s0, s2, g, b, r)
            &&& s2[b as int].live_in.contains(r)
            &&& s2[p as int].live_out.contains(r)
            &&& forall|q: int| 0 <= q < sc.len() && sc[q].live_out.contains(r) ==> #[trigger] s2[q].live_out.contains(r)
        }),
{
    let n = s0.len();
    let j0 = choose|j: int| 0 <= j < g[b as int].len() && g[b as int][j] == p;
    assert((g[b as int][j0] as int) < n);
    let si = add_live_out(sc, p, r);
    let s2 = prop_up(si, g, p, r);
    assert(grown(sc, si, r)) by {
        assert forall|x: int| 0 <= x < si.len() implies grown_at(sc[x], #[trigger] si[x], r) by {
            assert(sc[x].live_in.insert(r).insert(r) =~= sc[x].live_in.insert(r));
        }
    }
    lemma_grown_trans(s0, sc, si, r);
    lemma_prop_up_grown(si, g, p, r);
    lemma_grown_trans(s0, si, s2, r);
    assert(!s0[p as int].live_out.contains(r)) by {
        assert(grown_at(s0[p as int], sc[p as int], r));
    }
    // blocks newly given `r` on entry are reached from `b`
    assert forall|x: usize| #[trigger] new_in(s0, s2, r, x) implies reaches(s0, g, r, b, x) by {
        if new_in(s0, sc, r, x) {
        } else {
            assert(!si[x as int].live_in.contains(r));
            assert(reaches(si, g, r, p, x));
            lemma_prepend(s0, si, g, r, b, p, x);
        }
    }
    assert(new_in(s0, s2, r, b));
    // blocks newly given `r` on exit are predecessors of newly live blocks
    assert forall|q: usize| #[trigger] new_out(s0, s2, r, q) implies (exists|x: usize|
        new_in(s0, s2, r, x) && #[trigger] g[x as int].contains(q)) by {
        if new_out(s0, sc, r, q) {
            let x = choose|x: usize| new_in(s0, sc, r, x) && #[trigger] g[x as int].contains(q);
            assert(new_in(s0, s2, r, x));
        } else if q == p {
            assert(new_in(s0, s2, r, b) && g[b as int].contains(q));
        } else {
            assert(!si[q as int].live_out.contains(r));
            assert(feeds(si, g, r, p, q));
            let y = choose|y: usize| #[trigger] reaches(si, g, r, p, y) && g[y as int].contains(q);
            let path = choose|path: Seq<usize>|
                #[trigger] live_path(si, g, r, path) && path[0] == p && path[path.len() - 1] == y;
            assert(open_block(si, r, path[path.len() - 1]));
            assert(grown_at(s0[y as int], si[y as int], r));
            assert(new_in(s0, s2, r, y));
        }
    }
    // blocks newly given `r` on exit define it or have it on entry
    assert forall|q: usize| #[trigger] new_out(s0, s2, r, q) implies s2[q as int].def.contains(r)
        || s2[q as int].live_in.contains(r) by {
        if new_out(s0, sc, r, q) {
        } else if q == p {
            if open_block(si, r, p) {
                lemma_trivial_path(si, g, r, p);
            }
        } else {
            assert(!si[q as int].live_out.contains(r));
            assert(feeds(si, g, r, p, q));
            let y = choose|y: usize| #[trigger] reaches(si, g, r, p, y) && g[y as int].contains(q);
            if open_block(si, r, q) {
                lemma_append(si, g, r, p, y, q);
            }
        }
    }
    // the predecessors of newly live blocks other than `b` have `r` on exit
    assert forall|x: usize, j: int|
        new_in(s0, s2, r, x) && x != b && 0 <= j < g[x as int].len() implies s2[#[trigger] g[x as int][j] as int].live_out.contains(r) by {
        let q = g[x as int][j];
        assert((q as int) < n);
        if new_in(s0, sc, r, x) {
            assert(sc[q as int].live_out.contains(r));
        } else {
            assert(!si[x as int].live_in.contains(r));
            assert(reaches(si, g, r, p, x));
            assert(g[x as int].contains(q));
            assert(feeds(si, g, r, p, q));
        }
    }
}

} // verus!

verus! {

proof fn lemma_start(s0: Seq<BlockLive>, g: Seq<Seq<usize>>, b: usize, r: usize)
    requires
        open_block(s0, r, b),
    ensures
        partial_prop(s0, add_live_in(s0, b, r), g, b, r),
{
    let s1 = add_live_in(s0, b, r);
    assert forall|x: int| 0 <= x < s1.len() implies grown_at(s0[x], #[trigger] s1[x], r) by {
    }
    lemma_trivial_path(s0, g, r, b);
    assert forall|x: usize| #[trigger] new_in(s0, s1, r, x) implies reaches(s0, g, r, b, x) by {
        assert(x == b);
    }
}

proof fn lemma_wf_graph(f: &MachineFunction)
    requires
        f.wf(),
        f.nblocks() <= usize::MAX,
    ensures
        graph_ok(f.graph(), f.nblocks()),
{
    let g = f.graph();
    assert forall|x: int, j: int| 0 <= x < f.nblocks() && 0 <= j < g[x].len() implies (#[trigger] g[x][j] as int) < f.nblocks() by {
        assert(g[x][j] == f.basic_block_arena@[x].pred@[j]);
    }
}

proof fn lemma_same_shape(a: &MachineFunction, b: &MachineFunction)
    requires
        b.same_shape(a),
    ensures
        a.wf() ==> b.wf(),
        a.graph() == b.graph(),
        a.same_shape(b),
{
    assert forall|x: int| 0 <= x < a.nblocks() implies #[trigger] a.graph()[x] == b.graph()[x] by {
        assert(b.basic_block_arena@[x].pred@ == a.basic_block_arena@[x].pred@);
    }
    assert(a.graph() =~= b.graph());
    if a.wf() {
        assert forall|x: int, j: int|
            0 <= x < b.nblocks() && 0 <= j < b.basic_block_arena@[x].pred@.len()
                implies #[trigger] b.basic_block_arena@[x].pred@[j] < b.nblocks() by {
            assert(b.basic_block_arena@[x].pred@ == a.basic_block_arena@[x].pred@);
        }
        assert forall|x: int, j: int|
            0 <= x < b.nblocks() && 0 <= j < b.basic_block_arena@[x].iseq@.len()
                implies #[trigger] b.basic_block_arena@[x].iseq@[j] < b.instr_arena@.len() by {
            assert(b.basic_block_arena@[x].iseq@ == a.basic_block_arena@[x].iseq@);
        }
    }
}

proof fn lemma_same_shape_trans(a: &MachineFunction, b: &MachineFunction, c: &MachineFunction)
    requires
        b.same_shape(a),
        c.same_shape(b),
    ensures
        c.same_shape(a),
{
}

/// Propagates a use of `reg` in block `bb` (for a phi operand, coming from
/// block `pred_bb`) into the live-in and live-out sets.
fn propagate(cur_func: &mut MachineFunction, bb: usize, pred_bb: Option<usize>, reg: usize)
    requires
        old(cur_func).wf(),
        (bb as int) < old(cur_func).nblocks(),
        pred_bb matches Some(p) ==> (p as int) < old(cur_func).nblocks(),
    ensures
        final(cur_func).same_shape(&*old(cur_func)),
        final(cur_func).live_state() == propagate_spec(
            old(cur_func).live_state(),
            old(cur_func).graph(),
            bb,
            pred_bb,
            reg,
        ),
        in_def_disjoint(old(cur_func).live_state()) ==> in_def_disjoint(final(cur_func).live_state()),
        exit_covered(old(cur_func).live_state()) ==> exit_covered(final(cur_func).live_state()),
    decreases count_missing(old(cur_func).live_state(), reg, old(cur_func).nblocks() as nat),
{
    proof {
        assert(old(cur_func).basic_block_arena@.len() == old(cur_func).basic_block_arena.len());
        lemma_wf_graph(&*old(cur_func));
        lemma_propagate_laws(old(cur_func).live_state(), old(cur_func).graph(), bb, pred_bb, reg);
    }
    let ghost s0 = cur_func.live_state();
    let ghost g = cur_func.graph();
    let ghost f0 = *cur_func;
    let n = cur_func.basic_block_arena.len();
    proof {
        lemma_wf_graph(&*cur_func);
    }
    if vreg_set_contains(&cur_func.basic_block_arena[bb].liveness.def, reg) {
        proof {
            lemma_blocked(s0, g, reg, bb);
        }
        return;
    }
    if !vreg_set_insert(&mut cur_func.basic_block_arena[bb].liveness.live_in, reg) {
        proof {
            assert(s0[bb as int].live_in.insert(reg) =~= s0[bb as int].live_in);
            assert(cur_func.live_state() =~= s0);
            lemma_blocked(s0, g, reg, bb);
        }
        return;
    }
    let ghost s1 = cur_func.live_state();
    assert(s1 =~= add_live_in(s0, bb, reg));
    proof {
        lemma_same_shape(&f0, &*cur_func);
    }
    match pred_bb {
        Some(p) => {
            if vreg_set_insert(&mut cur_func.basic_block_arena[p].liveness.live_out, reg) {
                let ghost s2 = cur_func.live_state();
                assert(s2 =~= add_live_out(s1, p, reg));
                proof {
                    lemma_same_shape_trans(&f0, &f0, &*cur_func);
                    lemma_same_shape(&f0, &*cur_func);
                    assert forall|x: int| 0 <= x < s0.len() && s0[x].live_out.contains(reg) implies s2[x].live_out.contains(reg) by {
                    }
                    lemma_count_missing(s0, s2, reg, p as int, n as nat);
                }
                propagate(cur_func, p, None, reg);
            } else {
                assert(cur_func.live_state() =~= s1) by {
                    assert(s1[p as int].live_out.insert(reg) =~= s1[p as int].live_out);
                }
            }
            return;
        },
        None => {},
    }
    proof {
        lemma_start(s0, g, bb, reg);
    }
    let npred = cur_func.basic_block_arena[bb].pred.len();
    let mut k: usize = 0;
    while k < npred
        invariant
            cur_func.same_shape(&f0),
            f0 == *old(cur_func),
            f0.wf(),
            s0 == f0.live_state(),
            g == f0.graph(),
            n == f0.nblocks(),
            graph_ok(g, n as int),
            (bb as int) < n,
            open_block(s0, reg, bb),
            npred == g[bb as int].len(),
            0 <= k <= npred,
            partial_prop(s0, cur_func.live_state(), g, bb, reg),
            cur_func.live_state()[bb as int].live_in.contains(reg),
            forall|j: int| 0 <= j < k ==> cur_func.live_state()[#[trigger] g[bb as int][j] as int].live_out.contains(reg),
        decreases npred - k,
    {
        proof {
            lemma_same_shape(&f0, &*cur_func);
        }
        let p = cur_func.basic_block_arena[bb].pred[k];
        assert(p == g[bb as int][k as int]);
        let ghost sc = cur_func.live_state();
        let ghost fc = *cur_func;
        if vreg_set_insert(&mut cur_func.basic_block_arena[p].liveness.live_out, reg) {
            let ghost s2 = cur_func.live_state();
            assert(s2 =~= add_live_out(sc, p, reg));
            proof {
                lemma_same_shape_trans(&f0, &fc, &*cur_func);
                lemma_same_shape(&f0, &*cur_func);
                lemma_step(s0, sc, g, bb, p, reg);
                assert(!s0[p as int].live_out.contains(reg)) by {
                    assert(grown_at(s0[p as int], sc[p as int], reg));
                }
                assert forall|x: int| 0 <= x < s0.len() && s0[x].live_out.contains(reg) implies s2[x].live_out.contains(reg) by {
                    assert(grown_at(s0[x], sc[x], reg));
                }
                lemma_count_missing(s0, s2, reg, p as int, n as nat);
            }
            let ghost fm = *cur_func;
            propagate(cur_func, p, None, reg);
            proof {
                lemma_same_shape_trans(&f0, &fm, &*cur_func);
            }
        } else {
            assert(cur_func.live_state() =~= sc) by {
                assert(sc[p as int].live_out.insert(reg) =~= sc[p as int].live_out);
            }
            proof {
                lemma_same_shape_trans(&f0, &fc, &*cur_func);
            }
        }
        k = k + 1;
    }
    proof {
        lemma_closure(s0, cur_func.live_state(), g, bb, reg);
    }
}

} // verus!

verus! {

pub open spec fn with_def(b: BlockLive, d: Set<usize>) -> BlockLive {
    BlockLive { def: d, ..b }
}

pub open spec fn def_after(d: Set<usize>, v: Option<usize>) -> Set<usize> {
    match v {
        Some(v) => d.insert(v),
        None => d,
    }
}

/// The register that instruction `i` of `c` defines first, if it defines any.
pub open spec fn first_def_c(c: CodeView, i: int) -> Option<usize> {
    if c.instrs[i].def@.len() > 0 {
        Some(c.instrs[i].def@[0].vreg)
    } else {
        None
    }
}

/// The register that instruction `i` defines first, if it defines any.
pub open spec fn first_def(f: &MachineFunction, i: int) -> Option<usize> {
    if f.instr_arena@[i].def@.len() > 0 {
        Some(f.instr_arena@[i].def@[0].vreg)
    } else {
        None
    }
}

/// The registers that the first `m` instructions of block `x` define first.
pub open spec fn block_defs_upto(f: &MachineFunction, x: int, m: int) -> Set<usize> {
    Set::new(
        |v: usize|
            exists|j: int|
                0 <= j < m && #[trigger] first_def(f, f.basic_block_arena@[x].iseq@[j] as int) == Some(v),
    )
}

/// The registers that the instructions of block `x` define first.
pub open spec fn block_defs(f: &MachineFunction, x: int) -> Set<usize> {
    block_defs_upto(f, x, f.basic_block_arena@[x].iseq@.len() as int)
}

/// The def sets after recording the registers defined in every block of
/// the layout.
pub open spec fn defs_set(f: &MachineFunction, x: int) -> Set<usize> {
    if f.basic_blocks@.contains(x as usize) {
        f.live_state()[x].def.union(block_defs(f, x))
    } else {
        f.live_state()[x].def
    }
}

impl<'a> LivenessAnalysis<'a> {
    fn set_def_on_instr(cur_func: &mut MachineFunction, bb: usize, instr_id: usize)
        requires
            (bb as int) < old(cur_func).nblocks(),
            (instr_id as int) < old(cur_func).instr_arena@.len(),
        ensures
            final(cur_func).same_shape(&*old(cur_func)),
            final(cur_func).live_state() == old(cur_func).live_state().update(
                bb as int,
                with_def(
                    old(cur_func).live_state()[bb as int],
                    def_after(old(cur_func).live_state()[bb as int].def, first_def(&*old(cur_func), instr_id as int)),
                ),
            ),
    {
        if cur_func.instr_arena[instr_id].def.len() > 0 {
            let v = cur_func.instr_arena[instr_id].def[0].vreg;
            let _ = vreg_set_insert(&mut cur_func.basic_block_arena[bb].liveness.def, v);
        }
        assert(cur_func.live_state() =~= old(cur_func).live_state().update(
            bb as int,
            with_def(
                old(cur_func).live_state()[bb as int],
                def_after(old(cur_func).live_state()[bb as int].def, first_def(&*old(cur_func), instr_id as int)),
            ),
        ));
    }

    /// Records in each block of the layout the registers that its
    /// instructions define.
    fn set_def(cur_func: &mut MachineFunction)
        requires
            old(cur_func).wf(),
        ensures
            final(cur_func).same_shape(&*old(cur_func)),
            forall|x: int|
                0 <= x < old(cur_func).nblocks() ==> #[trigger] final(cur_func).live_state()[x]
                    == with_def(old(cur_func).live_state()[x], defs_set(&*old(cur_func), x)),
    {
        let ghost f0 = *cur_func;
        let ghost s0 = cur_func.live_state();
        let nbbs = cur_func.basic_blocks.len();
        let nblk = cur_func.basic_block_arena.len();
        let mut i: usize = 0;
        while i < nbbs
            invariant
                nblk == s0.len(),
                f0 == *old(cur_func),
                f0.wf(),
                s0 == f0.live_state(),
                cur_func.same_shape(&f0),
                nbbs == f0.basic_blocks@.len(),
                0 <= i <= nbbs,
                cur_func.live_state().len() == s0.len(),
                forall|x: int|
                    0 <= x < s0.len() ==> #[trigger] cur_func.live_state()[x] == with_def(s0[x], if f0.basic_blocks@.take(i as int).contains(x as usize) {
                            s0[x].def.union(block_defs(&f0, x))
                        } else {
                            s0[x].def
                        }),
            decreases nbbs - i,
        {
            proof {
                lemma_same_shape(&f0, &*cur_func);
            }
            let bb = cur_func.basic_blocks[i];
            let len = cur_func.basic_block_arena[bb].iseq.len();
            let ghost sb = cur_func.live_state();
            let mut j: usize = 0;
            while j < len
                invariant
                    f0 == *old(cur_func),
                    f0.wf(),
                    s0 == f0.live_state(),
                    cur_func.same_shape(&f0),
                    (bb as int) < f0.nblocks(),
                    len == f0.basic_block_arena@[bb as int].iseq@.len(),
                    0 <= j <= len,
                    sb.len() == s0.len(),
                    cur_func.live_state().len() == s0.len(),
                    forall|x: int|
                        0 <= x < s0.len() ==> #[trigger] cur_func.live_state()[x] == with_def(sb[x], if x == bb as int {
                                sb[x].def.union(block_defs_upto(&f0, x, j as int))
                            } else {
                                sb[x].def
                            }),
                decreases len - j,
            {
                proof {
                    lemma_same_shape(&f0, &*cur_func);
                }
                let instr_id = cur_func.basic_block_arena[bb].iseq[j];
                let ghost sc = cur_func.live_state();
                let ghost fc = *cur_func;
                LivenessAnalysis::set_def_on_instr(cur_func, bb, instr_id);
                proof {
                    lemma_same_shape_trans(&f0, &fc, &*cur_func);
                    let x = bb as int;
                    assert(first_def(&fc, instr_id as int) == first_def(&f0, instr_id as int));
                    assert(block_defs_upto(&f0, x, j + 1) =~= match first_def(&f0, instr_id as int) {
                        Some(v) => block_defs_upto(&f0, x, j as int).insert(v),
                        None => block_defs_upto(&f0, x, j as int),
                    });
                    assert forall|y: int| 0 <= y < s0.len() implies #[trigger] cur_func.live_state()[y] == with_def(sb[y], if y == bb as int {
                                sb[y].def.union(block_defs_upto(&f0, y, j + 1))
                            } else {
                                sb[y].def
                            }) by {
                        if y == x {
                            assert(cur_func.live_state()[y].def =~= sb[y].def.union(block_defs_upto(&f0, y, j + 1)));
                        }
                    }
                }
                j = j + 1;
            }
            proof {
                let x = bb as int;
                assert(block_defs_upto(&f0, x, len as int) == block_defs(&f0, x));
                assert forall|y: int| 0 <= y < s0.len() implies #[trigger] cur_func.live_state()[y] == with_def(s0[y], if f0.basic_blocks@.take(i + 1).contains(y as usize) {
                            s0[y].def.union(block_defs(&f0, y))
                        } else {
                            s0[y].def
                        }) by {
                    let t0 = f0.basic_blocks@.take(i as int);
                    let t1 = f0.basic_blocks@.take(i + 1);
                    assert(t1 =~= t0.push(bb));
                    assert(t1[i as int] == bb);
                    if t1.contains(y as usize) && y != x {
                        let k = choose|k: int| 0 <= k < t1.len() && t1[k] == y as usize;
                        assert(t0[k] == y as usize);
                    }
                    if t0.contains(y as usize) {
                        let k = choose|k: int| 0 <= k < t0.len() && t0[k] == y as usize;
                        assert(t1[k] == y as usize);
                    }
                    if y == x {
                        assert(f0.basic_blocks@.take(i + 1).contains(y as usize));
                        assert(cur_func.live_state()[y].def =~= s0[y].def.union(block_defs(&f0, y)));
                    }
                }
            }
            i = i + 1;
        }
        proof {
            assert(f0.basic_blocks@.take(nbbs as int) =~= f0.basic_blocks@);
        }
    }
}

} // verus!

verus! {

/// For operand `i` of a phi, the block that the value comes from: the
/// operand after it.
pub open spec fn phi_source(ins: MachineInstr, i: int) -> Option<usize> {
    if ins.opcode == MachineOpcode::Phi {
        match ins.operand@[i + 1] {
            MachineOperand::Branch(x) => Some(x),
            _ => None,
        }
    } else {
        None
    }
}

/// The register uses among the first `m` operands of `ins` in block `b`,
/// in order: the block, the block the value comes from (for a phi) and the
/// register.
pub open spec fn instr_uses(ins: MachineInstr, b: usize, m: int) -> Seq<(usize, Option<usize>, usize)>
    decreases m,
{
    if m <= 0 {
        seq![]
    } else {
        let prev = instr_uses(ins, b, m - 1);
        match ins.operand@[m - 1] {
            MachineOperand::Register(reg) => prev.push((b, phi_source(ins, m - 1), reg.vreg)),
            _ => prev,
        }
    }
}

/// The register uses of the first `m` instructions of block `b`.
pub open spec fn block_uses(f: &MachineFunction, b: usize, m: int) -> Seq<(usize, Option<usize>, usize)>
    decreases m,
{
    if m <= 0 {
        seq![]
    } else {
        let ins = f.instr_arena@[f.basic_block_arena@[b as int].iseq@[m - 1] as int];
        block_uses(f, b, m - 1) + instr_uses(ins, b, ins.operand@.len() as int)
    }
}

/// The register uses of the first `m` blocks of the layout.
pub open spec fn fn_uses(f: &MachineFunction, m: int) -> Seq<(usize, Option<usize>, usize)>
    decreases m,
{
    if m <= 0 {
        seq![]
    } else {
        let b = f.basic_blocks@[m - 1];
        fn_uses(f, m - 1) + block_uses(f, b, f.basic_block_arena@[b as int].iseq@.len() as int)
    }
}

/// The liveness sets after propagating the uses, in order.
pub open spec fn apply_uses(s: Seq<BlockLive>, g: Seq<Seq<usize>>, uses: Seq<(usize, Option<usize>, usize)>) -> Seq<BlockLive>
    decreases uses.len(),
{
    if uses.len() == 0 {
        s
    } else {
        let e = uses.last();
        propagate_spec(apply_uses(s, g, uses.drop_last()), g, e.0, e.1, e.2)
    }
}

/// The phi operands of instruction `id` are followed by the block they come
/// from, a block of the function.
pub open spec fn instr_ok(f: &MachineFunction, id: int) -> bool {
    let ins = f.instr_arena@[id];
    ins.opcode == MachineOpcode::Phi ==> forall|i: int|
        0 <= i < ins.operand@.len() && (#[trigger] ins.operand@[i] is Register) ==> i + 1
            < ins.operand@.len() && (ins.operand@[i + 1] matches MachineOperand::Branch(x) && (x as int) < f.nblocks())
}

/// Every instruction of every block of the layout satisfies `instr_ok`.
pub open spec fn uses_ok(f: &MachineFunction) -> bool {
    forall|k: int, j: int|
        0 <= k < f.basic_blocks@.len() && 0 <= j < f.basic_block_arena@[f.basic_blocks@[k] as int].iseq@.len()
            ==> instr_ok(f, #[trigger] f.basic_block_arena@[f.basic_blocks@[k] as int].iseq@[j] as int)
}

proof fn lemma_apply_uses_concat(s: Seq<BlockLive>, g: Seq<Seq<usize>>, a: Seq<(usize, Option<usize>, usize)>, b: Seq<(usize, Option<usize>, usize)>)
    ensures
        apply_uses(s, g, a + b) == apply_uses(apply_uses(s, g, a), g, b),
    decreases b.len(),
{
    if b.len() == 0 {
        assert(a + b =~= a);
    } else {
        assert((a + b).drop_last() =~= a + b.drop_last());
        assert((a + b).last() == b.last());
        lemma_apply_uses_concat(s, g, a, b.drop_last());
    }
}

proof fn lemma_apply_uses_push(s: Seq<BlockLive>, g: Seq<Seq<usize>>, a: Seq<(usize, Option<usize>, usize)>, e: (usize, Option<usize>, usize))
    ensures
        apply_uses(s, g, a.push(e)) == propagate_spec(apply_uses(s, g, a), g, e.0, e.1, e.2),
{
    assert(a.push(e).drop_last() =~= a);
}

impl<'a> LivenessAnalysis<'a> {
    fn visit_instr(cur_func: &mut MachineFunction, bb: usize, instr_id: usize)
        requires
            old(cur_func).wf(),
            (bb as int) < old(cur_func).nblocks(),
            (instr_id as int) < old(cur_func).instr_arena@.len(),
            instr_ok(&*old(cur_func), instr_id as int),
        ensures
            final(cur_func).same_shape(&*old(cur_func)),
            final(cur_func).live_state() == apply_uses(
                old(cur_func).live_state(),
                old(cur_func).graph(),
                instr_uses(
                    old(cur_func).instr_arena@[instr_id as int],
                    bb,
                    old(cur_func).instr_arena@[instr_id as int].operand@.len() as int,
                ),
            ),
    {
        let ghost f0 = *cur_func;
        let ghost ins = f0.instr_arena@[instr_id as int];
        let n = cur_func.instr_arena[instr_id].operand.len();
        let mut i: usize = 0;
        while i < n
            invariant
                f0 == *old(cur_func),
                f0.wf(),
                (instr_id as int) < f0.instr_arena@.len(),
                ins == f0.instr_arena@[instr_id as int],
                instr_ok(&f0, instr_id as int),
                (bb as int) < f0.nblocks(),
                n == ins.operand@.len(),
                cur_func.same_shape(&f0),
                0 <= i <= n,
                cur_func.live_state() == apply_uses(f0.live_state(), f0.graph(), instr_uses(ins, bb, i as int)),
            decreases n - i,
        {
            proof {
                lemma_same_shape(&f0, &*cur_func);
            }
            let op = cur_func.instr_arena[instr_id].operand[i];
            assert(op == ins.operand@[i as int]);
            match op {
                MachineOperand::Register(reg) => {
                    let pred = if cur_func.instr_arena[instr_id].opcode == MachineOpcode::Phi {
                        match cur_func.instr_arena[instr_id].operand[i + 1] {
                            MachineOperand::Branch(x) => Some(x),
                            _ => {
                                proof {
                                    assert(false);
                                }
                                None
                            },
                        }
                    } else {
                        None
                    };
                    assert(pred == phi_source(ins, i as int));
                    let ghost fc = *cur_func;
                    proof {
                        lemma_apply_uses_push(f0.live_state(), f0.graph(), instr_uses(ins, bb, i as int), (bb, pred, reg.vreg));
                    }
                    propagate(cur_func, bb, pred, reg.vreg);
                    proof {
                        lemma_same_shape_trans(&f0, &fc, &*cur_func);
                    }
                },
                _ => {},
            }
            i = i + 1;
        }
    }

    /// Propagates the register uses of block `bb`, in order.
    fn visit_block(cur_func: &mut MachineFunction, bb: usize)
        requires
            old(cur_func).wf(),
            (bb as int) < old(cur_func).nblocks(),
            forall|j: int|
                0 <= j < old(cur_func).basic_block_arena@[bb as int].iseq@.len() ==> instr_ok(
                    &*old(cur_func),
                    #[trigger] old(cur_func).basic_block_arena@[bb as int].iseq@[j] as int,
                ),
        ensures
            final(cur_func).same_shape(&*old(cur_func)),
            final(cur_func).live_state() == apply_uses(
                old(cur_func).live_state(),
                old(cur_func).graph(),
                block_uses(&*old(cur_func), bb, old(cur_func).basic_block_arena@[bb as int].iseq@.len() as int),
            ),
    {
        let ghost f0 = *cur_func;
        let ghost s0 = f0.live_state();
        let ghost g = f0.graph();
        let len = cur_func.basic_block_arena[bb].iseq.len();
        let mut j: usize = 0;
        while j < len
            invariant
                f0 == *old(cur_func),
                f0.wf(),
                forall|j: int| 0 <= j < len ==> instr_ok(&f0, #[trigger] f0.basic_block_arena@[bb as int].iseq@[j] as int),
                s0 == f0.live_state(),
                g == f0.graph(),
                cur_func.same_shape(&f0),
                (bb as int) < f0.nblocks(),
                len == f0.basic_block_arena@[bb as int].iseq@.len(),
                0 <= j <= len,
                cur_func.live_state() == apply_uses(s0, g, block_uses(&f0, bb, j as int)),
            decreases len - j,
        {
            proof {
                lemma_same_shape(&f0, &*cur_func);
            }
            let instr_id = cur_func.basic_block_arena[bb].iseq[j];
            assert(instr_id == f0.basic_block_arena@[bb as int].iseq@[j as int]);
            assert(instr_ok(&f0, instr_id as int));
            let ghost fc = *cur_func;
            let ghost before = block_uses(&f0, bb, j as int);
            let ghost iu = instr_uses(f0.instr_arena@[instr_id as int], bb, f0.instr_arena@[instr_id as int].operand@.len() as int);
            LivenessAnalysis::visit_instr(cur_func, bb, instr_id);
            proof {
                lemma_same_shape_trans(&f0, &fc, &*cur_func);
                lemma_same_shape(&f0, &fc);
                lemma_apply_uses_concat(s0, g, before, iu);
            }
            j = j + 1;
        }
    }

    /// Propagates every register use of the blocks of the layout, in order.
    fn visit(cur_func: &mut MachineFunction)
        requires
            old(cur_func).wf(),
            uses_ok(&*old(cur_func)),
        ensures
            final(cur_func).same_shape(&*old(cur_func)),
            final(cur_func).live_state() == apply_uses(
                old(cur_func).live_state(),
                old(cur_func).graph(),
                fn_uses(&*old(cur_func), old(cur_func).basic_blocks@.len() as int),
            ),
    {
        let ghost f0 = *cur_func;
        let ghost s0 = f0.live_state();
        let ghost g = f0.graph();
        let nbbs = cur_func.basic_blocks.len();
        let mut i: usize = 0;
        while i < nbbs
            invariant
                f0 == *old(cur_func),
                f0.wf(),
                uses_ok(&f0),
                s0 == f0.live_state(),
                g == f0.graph(),
                cur_func.same_shape(&f0),
                nbbs == f0.basic_blocks@.len(),
                0 <= i <= nbbs,
                cur_func.live_state() == apply_uses(s0, g, fn_uses(&f0, i as int)),
            decreases nbbs - i,
        {
            proof {
                lemma_same_shape(&f0, &*cur_func);
            }
            let bb = cur_func.basic_blocks[i];
            let ghost fc = *cur_func;
            let ghost before = fn_uses(&f0, i as int);
            let ghost bu = block_uses(&f0, bb, f0.basic_block_arena@[bb as int].iseq@.len() as int);
            assert forall|j: int|
                0 <= j < fc.basic_block_arena@[bb as int].iseq@.len() implies instr_ok(
                    &fc,
                    #[trigger] fc.basic_block_arena@[bb as int].iseq@[j] as int,
                ) by {
                assert(instr_ok(&f0, f0.basic_block_arena@[f0.basic_blocks@[i as int] as int].iseq@[j] as int));
            }
            LivenessAnalysis::visit_block(cur_func, bb);
            proof {
                lemma_same_shape_trans(&f0, &fc, &*cur_func);
                assert(block_uses(&fc, bb, fc.basic_block_arena@[bb as int].iseq@.len() as int) == bu) by {
                    lemma_block_uses_same(&f0, &fc, bb, f0.basic_block_arena@[bb as int].iseq@.len() as int);
                }
                lemma_apply_uses_concat(s0, g, before, bu);
            }
            i = i + 1;
        }
    }
}

proof fn lemma_block_uses_same(a: &MachineFunction, b: &MachineFunction, bb: usize, m: int)
    requires
        b.same_shape(a),
        (bb as int) < a.nblocks(),
        m <= a.basic_block_arena@[bb as int].iseq@.len(),
    ensures
        block_uses(a, bb, m) == block_uses(b, bb, m),
    decreases m,
{
    assert(b.basic_block_arena@[bb as int].iseq@ == a.basic_block_arena@[bb as int].iseq@);
    if m > 0 {
        lemma_block_uses_same(a, b, bb, m - 1);
    }
}

} // verus!

verus! {

impl LiveSegment {
    pub fn new(start: usize, end: usize) -> (s: Self)
        ensures
            s == (LiveSegment { start, end }),
    {
        LiveSegment { start, end }
    }

    /// The two segments overlap: each starts before the other ends.
    pub open spec fn interferes_with(&self, seg: LiveSegment) -> bool {
        self.start < seg.end && self.end > seg.start
    }

    pub fn interference(&self, seg: &LiveSegment) -> (r: bool)
        ensures
            r == self.interferes_with(*seg),
    {
        self.start < seg.end && self.end > seg.start
    }
}

/// Index `x` lies in the half-open range of `s`.
pub open spec fn in_segment(s: LiveSegment, x: int) -> bool {
    s.start <= x < s.end
}

/// Interference is symmetric, and for non-empty segments it holds exactly
/// when some index lies in both half-open ranges.
pub proof fn lemma_interference(a: LiveSegment, b: LiveSegment)
    ensures
        a.interferes_with(b) == b.interferes_with(a),
        a.start < a.end && b.start < b.end ==> (a.interferes_with(b) <==> exists|x: int|
            #[trigger] in_segment(a, x) && in_segment(b, x)),
{
    if a.start < a.end && b.start < b.end && a.start < b.end && a.end > b.start {
        let x: int = if a.start >= b.start { a.start as int } else { b.start as int };
        assert(in_segment(a, x) && in_segment(b, x));
    }
}

impl LiveRange {
    pub fn new(segments: Vec<LiveSegment>) -> (r: Self)
        ensures
            r.segments@ == segments@,
    {
        LiveRange { segments }
    }

    pub fn new_empty() -> (r: Self)
        ensures
            r.segments@ == Seq::<LiveSegment>::empty(),
    {
        LiveRange { segments: Vec::new() }
    }

    pub fn add_segment(&mut self, seg: LiveSegment)
        ensures
            final(self).segments@ == old(self).segments@.push(seg),
    {
        self.segments.push(seg)
    }
}

impl LiveInterval {
    pub fn new(vreg: usize, range: LiveRange) -> (i: Self)
        ensures
            i.vreg == vreg,
            i.range.segments@ == range.segments@,
    {
        LiveInterval { vreg, range }
    }
}

impl LiveRegMatrix {
    pub fn new(map: FxHashMap<usize, LiveInterval>) -> (m: Self)
        ensures
            m.map@ == map@,
    {
        LiveRegMatrix { map }
    }
}

} // verus!

verus! {

/// The number of instructions in the first `k` blocks of the layout: the
/// index of the first instruction of block `k`.
pub open spec fn instr_base(c: CodeView, k: int) -> int
    decreases k,
{
    if k <= 0 {
        0
    } else {
        instr_base(c, k - 1) + c.iseqs[c.layout[k - 1] as int].len()
    }
}

/// The instruction at position `j` of block `b`.
pub open spec fn instr_at(c: CodeView, b: usize, j: int) -> MachineInstr {
    c.instrs[c.iseqs[b as int][j] as int]
}

/// Instruction `ins` has register `v` among its first `o` operands.
pub open spec fn uses_reg(ins: MachineInstr, v: usize, o: int) -> bool {
    exists|i: int| 0 <= i < o && (#[trigger] ins.operand@[i] matches MachineOperand::Register(r) && r.vreg == v)
}

/// The last position before `j` in block `b` whose instruction defines `v`
/// first, or -1.
pub open spec fn last_def_before(c: CodeView, b: usize, v: usize, j: int) -> int
    decreases j,
{
    if j <= 0 {
        -1
    } else if first_def_c(c, c.iseqs[b as int][j - 1] as int) == Some(v) {
        j - 1
    } else {
        last_def_before(c, b, v, j - 1)
    }
}

/// The last position in `[lo, hi)` of block `b` whose instruction uses `v`,
/// or -1.
pub open spec fn last_use_between(c: CodeView, b: usize, v: usize, lo: int, hi: int) -> int
    decreases hi - lo,
{
    if hi <= lo {
        -1
    } else if uses_reg(instr_at(c, b, hi - 1), v, instr_at(c, b, hi - 1).operand@.len() as int) {
        hi - 1
    } else {
        last_use_between(c, b, v, lo, hi - 1)
    }
}

/// The segment of `v` in the `k`-th block of the layout after its first `j`
/// instructions, before live-out registers are extended to the block's end:
/// it starts at the last definition (or at the block's start when `v` is
/// live on entry and not defined) and ends at the last use after that start
/// (0 when there is none).
pub open spec fn seg_after(c: CodeView, s: Seq<BlockLive>, k: int, v: usize, j: int) -> Option<LiveSegment> {
    let b = c.layout[k];
    let base = instr_base(c, k);
    let d = last_def_before(c, b, v, j);
    if !s[b as int].live_in.contains(v) && d < 0 {
        None
    } else {
        let s = if d < 0 { 0 } else { d };
        let u = last_use_between(c, b, v, s, j);
        Some(LiveSegment { start: (base + s) as usize, end: if u < 0 { 0 } else { (base + u) as usize } })
    }
}

/// The segment of `v` in the `k`-th block of the layout: a register live on
/// exit is live to the block's end.
pub open spec fn block_segment(c: CodeView, s: Seq<BlockLive>, k: int, v: usize) -> Option<LiveSegment> {
    let b = c.layout[k];
    let m = c.iseqs[b as int].len() as int;
    match seg_after(c, s, k, v, m) {
        Some(sg) => Some(if s[b as int].live_out.contains(v) {
            LiveSegment { start: sg.start, end: (instr_base(c, k) + m) as usize }
        } else {
            sg
        }),
        None => None,
    }
}

/// The segments of `v` in the first `k` blocks of the layout, in order.
pub open spec fn live_segments(c: CodeView, s: Seq<BlockLive>, v: usize, k: int) -> Seq<LiveSegment>
    decreases k,
{
    if k <= 0 {
        seq![]
    } else {
        match block_segment(c, s, k - 1, v) {
            Some(sg) => live_segments(c, s, v, k - 1).push(sg),
            None => live_segments(c, s, v, k - 1),
        }
    }
}

/// Building live intervals does not fail on `f`: every register used in a
/// block of the layout is live on entry or defined at or before the use,
/// every register live on exit is live on entry or defined in the block,
/// and the instructions can be numbered in a `usize`.
pub open spec fn matrix_ok(c: CodeView, s: Seq<BlockLive>) -> bool {
    &&& instr_base(c, c.layout.len() as int) <= usize::MAX
    &&& forall|k: int, j: int, v: usize|
        0 <= k < c.layout.len() && 0 <= j < c.iseqs[c.layout[k] as int].len()
            && #[trigger] uses_reg(instr_at(c, c.layout[k], j), v, instr_at(c, c.layout[k], j).operand@.len() as int)
            ==> s[c.layout[k] as int].live_in.contains(v)
                || last_def_before(c, c.layout[k], v, j + 1) >= 0
    &&& forall|k: int, v: usize|
        0 <= k < c.layout.len() && #[trigger] s[c.layout[k] as int].live_out.contains(v)
            ==> s[c.layout[k] as int].live_in.contains(v)
                || last_def_before(c, c.layout[k], v, c.iseqs[c.layout[k] as int].len() as int) >= 0
}

} // verus!

verus! {

proof fn lemma_seg_step(c: CodeView, s: Seq<BlockLive>, k: int, v: usize, j: int)
    requires
        0 <= k < c.layout.len(),
        0 <= j,
    ensures
        ({
            let b = c.layout[k];
            let base = instr_base(c, k);
            let ins = instr_at(c, b, j);
            let used = uses_reg(ins, v, ins.operand@.len() as int);
            seg_after(c, s, k, v, j + 1) == if first_def_c(c, c.iseqs[b as int][j] as int) == Some(v) {
                Some(LiveSegment { start: (base + j) as usize, end: if used { (base + j) as usize } else { 0 } })
            } else {
                match seg_after(c, s, k, v, j) {
                    Some(sg) => Some(LiveSegment { start: sg.start, end: if used { (base + j) as usize } else { sg.end } }),
                    None => None,
                }
            }
        }),
{
    let b = c.layout[k];
    let d = last_def_before(c, b, v, j);
    let s = if d < 0 { 0 } else { d };
    assert(d < j) by {
        lemma_last_def_lt(c, b, v, j);
    }
    if first_def_c(c, c.iseqs[b as int][j] as int) == Some(v) {
        assert(last_use_between(c, b, v, j, j) == -1);
    } else {
        assert(last_def_before(c, b, v, j + 1) == d);
    }
}

proof fn lemma_last_def_lt(c: CodeView, b: usize, v: usize, j: int)
    ensures
        -1 <= last_def_before(c, b, v, j) < (if j > 0 { j } else { 0 }),
        last_def_before(c, b, v, j) >= 0 ==> first_def_c(c, c.iseqs[b as int][last_def_before(c, b, v, j)] as int) == Some(v),
    decreases j,
{
    if j > 0 {
        lemma_last_def_lt(c, b, v, j - 1);
    }
}

proof fn lemma_instr_base_mono(c: CodeView, k: int, n: int)
    requires
        0 <= k <= n,
    ensures
        0 <= instr_base(c, k) <= instr_base(c, n),
    decreases n,
{
    if n > k {
        lemma_instr_base_mono(c, k, n - 1);
    } else if n > 0 {
        lemma_instr_base_mono(c, n - 1, n - 1);
    }
}

} // verus!

verus! {

pub open spec fn mk_seg(start: usize, end: usize) -> LiveSegment {
    LiveSegment { start, end }
}

/// The end of the segment of `v` after the definition of instruction `j`
/// of the `k`-th block, before its uses.
pub open spec fn end_before_uses(c: CodeView, s: Seq<BlockLive>, k: int, v: usize, j: int) -> usize {
    let b = c.layout[k];
    if first_def_c(c, c.iseqs[b as int][j] as int) == Some(v) {
        0
    } else {
        match seg_after(c, s, k, v, j) {
            Some(sg) => sg.end,
            None => 0,
        }
    }
}

impl<'a> LivenessAnalysis<'a> {
    /// The segments of the registers live in the `k`-th block of the layout,
    /// whose first instruction has index `base`.
    fn block_segments(cur_func: &MachineFunction, k: usize, base: usize) -> (m: FxHashMap<usize, LiveSegment>)
        requires
            cur_func.wf() && matrix_ok(cur_func.code(), cur_func.live_state()),
            (k as int) < cur_func.basic_blocks@.len(),
            base == instr_base(cur_func.code(), k as int),
        ensures
            forall|v: usize| #[trigger] m@.contains_key(v) == block_segment(cur_func.code(), cur_func.live_state(), k as int, v) is Some,
            forall|v: usize| #[trigger] m@.contains_key(v) ==> block_segment(cur_func.code(), cur_func.live_state(), k as int, v) == Some(m@[v]),
    {
        let ghost f = *cur_func;
        let ghost c = f.code();
        let ghost s = f.live_state();
        let ghost ki = k as int;
        let bb = cur_func.basic_blocks[k];
        let m = cur_func.basic_block_arena[bb].iseq.len();
        proof {
            lemma_instr_base_mono(cur_func.code(), ki + 1, cur_func.basic_blocks@.len() as int);
        }
        let mut vreg2seg: FxHashMap<usize, LiveSegment> = fx_map_new();
        let ins_elems = vreg_set_elements(&cur_func.basic_block_arena[bb].liveness.live_in);
        let mut i: usize = 0;
        while i < ins_elems.len()
            invariant
                forall|v: usize| #[trigger] vreg2seg@.contains_key(v) == ins_elems@.take(i as int).contains(v),
                forall|v: usize| #[trigger] vreg2seg@.contains_key(v) ==> vreg2seg@[v] == mk_seg(base, 0),
                0 <= i <= ins_elems@.len(),
            decreases ins_elems@.len() - i,
        {
            let v = ins_elems[i];
            fx_map_insert(&mut vreg2seg, v, LiveSegment::new(base, 0));
            proof {
                let t0 = ins_elems@.take(i as int);
                let t1 = ins_elems@.take(i + 1);
                assert(t1 =~= t0.push(v));
                assert forall|w: usize| #[trigger] vreg2seg@.contains_key(w) == t1.contains(w) by {
                    if t1.contains(w) && w != v {
                        let x = choose|x: int| 0 <= x < t1.len() && t1[x] == w;
                        assert(t0[x] == w);
                    }
                    if t0.contains(w) {
                        let x = choose|x: int| 0 <= x < t0.len() && t0[x] == w;
                        assert(t1[x] == w);
                    }
                    if w == v {
                        assert(t1[i as int] == v);
                    }
                }
            }
            i = i + 1;
        }
        proof {
            assert(ins_elems@.take(ins_elems@.len() as int) =~= ins_elems@);
            assert forall|v: usize| #[trigger] vreg2seg@.contains_key(v) == seg_after(c, s, ki, v, 0) is Some by {
                assert(last_def_before(c, bb, v, 0) == -1);
            }
            assert forall|v: usize| #[trigger] vreg2seg@.contains_key(v) implies seg_after(c, s, ki, v, 0) == Some(vreg2seg@[v]) by {
                assert(last_def_before(c, bb, v, 0) == -1);
                assert(last_use_between(c, bb, v, 0, 0) == -1);
            }
        }
        let mut index = base;
        let mut j: usize = 0;
        while j < m
            invariant
                f == *cur_func,
                c == f.code(),
                s == f.live_state(),
                cur_func.wf() && matrix_ok(cur_func.code(), cur_func.live_state()),
                (k as int) < c.layout.len(),
                ki == k as int,
                bb == c.layout[ki],
                m == c.iseqs[bb as int].len(),
                base == instr_base(c, ki),
                base + m <= usize::MAX,
                0 <= j <= m,
                index == base + j,
                forall|v: usize| #[trigger] vreg2seg@.contains_key(v) == seg_after(c, s, ki, v, j as int) is Some,
                forall|v: usize| #[trigger] vreg2seg@.contains_key(v) ==> seg_after(c, s, ki, v, j as int) == Some(vreg2seg@[v]),
            decreases m - j,
        {
            let instr_id = cur_func.basic_block_arena[bb].iseq[j];
            let ghost ins = instr_at(c, bb, j as int);
            if cur_func.instr_arena[instr_id].def.len() > 0 {
                let v = cur_func.instr_arena[instr_id].def[0].vreg;
                fx_map_insert(&mut vreg2seg, v, LiveSegment::new(index, 0));
            }
            let nops = cur_func.instr_arena[instr_id].operand.len();
            let mut o: usize = 0;
            while o < nops
                invariant
                    f == *cur_func,
                    c == f.code(),
                    s == f.live_state(),
                    cur_func.wf() && matrix_ok(cur_func.code(), cur_func.live_state()),
                    (k as int) < c.layout.len(),
                    ki == k as int,
                    bb == c.layout[ki],
                    m == c.iseqs[bb as int].len(),
                    0 <= j < m,
                    instr_id == c.iseqs[bb as int][j as int],
                    (instr_id as int) < c.instrs.len(),
                    ins == c.instrs[instr_id as int],
                    nops == ins.operand@.len(),
                    0 <= o <= nops,
                    index == base + j,
                    base == instr_base(c, ki),
                    forall|v: usize| #[trigger] vreg2seg@.contains_key(v) == seg_after(c, s, ki, v, j + 1) is Some,
                    forall|v: usize| #[trigger] vreg2seg@.contains_key(v) ==> vreg2seg@[v] == mk_seg(
                        seg_after(c, s, ki, v, j + 1)->Some_0.start,
                        if uses_reg(ins, v, o as int) { index } else { end_before_uses(c, s, ki, v, j as int) },
                    ),
                decreases nops - o,
            {
                match cur_func.instr_arena[instr_id].operand[o] {
                    MachineOperand::Register(r) => {
                        proof {
                            assert(ins.operand@[o as int] matches MachineOperand::Register(rr) && rr.vreg == r.vreg);
                            assert(uses_reg(ins, r.vreg, nops as int));
                            assert(uses_reg(instr_at(c, c.layout[ki], j as int), r.vreg, instr_at(c, c.layout[ki], j as int).operand@.len() as int));
                            lemma_seg_step(c, s, ki, r.vreg, j as int);
                        }
                        let sg = *fx_map_get(&vreg2seg, r.vreg).unwrap();
                        fx_map_insert(&mut vreg2seg, r.vreg, LiveSegment::new(sg.start, index));
                        proof {
                            assert forall|v: usize| #[trigger] vreg2seg@.contains_key(v) implies vreg2seg@[v] == mk_seg(
                                seg_after(c, s, ki, v, j + 1)->Some_0.start,
                                if uses_reg(ins, v, o + 1) { index } else { end_before_uses(c, s, ki, v, j as int) },
                            ) by {
                                if v == r.vreg {
                                    assert(ins.operand@[o as int] matches MachineOperand::Register(rr) && rr.vreg == v);
                                } else if uses_reg(ins, v, o + 1) {
                                    let x = choose|x: int| 0 <= x < o + 1 && (#[trigger] ins.operand@[x] matches MachineOperand::Register(rr) && rr.vreg == v);
                                    assert(x != o);
                                }
                            }
                        }
                    },
                    _ => {
                        proof {
                            assert forall|v: usize| #[trigger] vreg2seg@.contains_key(v) implies uses_reg(ins, v, o + 1) == uses_reg(ins, v, o as int) by {
                                if uses_reg(ins, v, o + 1) {
                                    let x = choose|x: int| 0 <= x < o + 1 && (#[trigger] ins.operand@[x] matches MachineOperand::Register(rr) && rr.vreg == v);
                                    assert(x != o);
                                }
                            }
                        }
                    },
                }
                o = o + 1;
            }
            proof {
                assert forall|v: usize| #[trigger] vreg2seg@.contains_key(v) implies seg_after(c, s, ki, v, j + 1) == Some(vreg2seg@[v]) by {
                    lemma_seg_step(c, s, ki, v, j as int);
                }
            }
            index = index + 1;
            j = j + 1;
        }
        let out_elems = vreg_set_elements(&cur_func.basic_block_arena[bb].liveness.live_out);
        let mut i: usize = 0;
        while i < out_elems.len()
            invariant
                f == *cur_func,
                c == f.code(),
                s == f.live_state(),
                cur_func.wf() && matrix_ok(cur_func.code(), cur_func.live_state()),
                (k as int) < c.layout.len(),
                ki == k as int,
                bb == c.layout[ki],
                m == c.iseqs[bb as int].len(),
                index == base + m,
                base == instr_base(c, ki),
                out_elems@.to_set() == s[bb as int].live_out,
                0 <= i <= out_elems@.len(),
                forall|v: usize| #[trigger] vreg2seg@.contains_key(v) == seg_after(c, s, ki, v, m as int) is Some,
                forall|v: usize| #[trigger] vreg2seg@.contains_key(v) ==> vreg2seg@[v] == mk_seg(
                    seg_after(c, s, ki, v, m as int)->Some_0.start,
                    if out_elems@.take(i as int).contains(v) { index } else { seg_after(c, s, ki, v, m as int)->Some_0.end },
                ),
            decreases out_elems@.len() - i,
        {
            let v = out_elems[i];
            proof {
                assert(out_elems@.contains(v));
                assert(s[c.layout[ki] as int].live_out.contains(v));
            }
            let sg = *fx_map_get(&vreg2seg, v).unwrap();
            fx_map_insert(&mut vreg2seg, v, LiveSegment::new(sg.start, index));
            proof {
                let t0 = out_elems@.take(i as int);
                let t1 = out_elems@.take(i + 1);
                assert(t1 =~= t0.push(v));
                assert forall|w: usize| #[trigger] vreg2seg@.contains_key(w) implies vreg2seg@[w] == mk_seg(
                    seg_after(c, s, ki, w, m as int)->Some_0.start,
                    if t1.contains(w) { index } else { seg_after(c, s, ki, w, m as int)->Some_0.end },
                ) by {
                    if t1.contains(w) && w != v {
                        let x = choose|x: int| 0 <= x < t1.len() && t1[x] == w;
                        assert(t0[x] == w);
                    }
                    if t0.contains(w) {
                        let x = choose|x: int| 0 <= x < t0.len() && t0[x] == w;
                        assert(t1[x] == w);
                    }
                    if w == v {
                        assert(t1[i as int] == v);
                    }
                }
            }
            i = i + 1;
        }
        proof {
            assert(out_elems@.take(out_elems@.len() as int) =~= out_elems@);
            assert forall|v: usize| #[trigger] vreg2seg@.contains_key(v) implies block_segment(c, s, ki, v) == Some(vreg2seg@[v]) by {
                if out_elems@.contains(v) {
                    assert(s[bb as int].live_out.contains(v));
                } else {
                    assert(!out_elems@.to_set().contains(v));
                }
            }
        }
        vreg2seg
    }
}

} // verus!

verus! {

pub open spec fn entry_keys<V>(es: Seq<(usize, V)>) -> Seq<usize> {
    es.map_values(|e: (usize, V)| e.0)
}

impl<'a> LivenessAnalysis<'a> {
    /// The live interval of every register that is live somewhere in the
    /// layout: one segment per block of the layout in which it is live, in
    /// layout order, instructions being numbered across the whole layout.
    pub fn construct_live_reg_matrix(&self, cur_func: &MachineFunction) -> (r: LiveRegMatrix)
        requires
            cur_func.wf() && matrix_ok(cur_func.code(), cur_func.live_state()),
        ensures
            forall|v: usize|
                #[trigger] r.map@.contains_key(v) == (live_segments(cur_func.code(), cur_func.live_state(), v, cur_func.basic_blocks@.len() as int).len() > 0),
            forall|v: usize|
                #[trigger] r.map@.contains_key(v) ==> r.map@[v].vreg == v && r.map@[v].range.segments@
                    == live_segments(cur_func.code(), cur_func.live_state(), v, cur_func.basic_blocks@.len() as int),
    {
        LivenessAnalysis::live_reg_matrix(cur_func)
    }

    fn live_reg_matrix(cur_func: &MachineFunction) -> (r: LiveRegMatrix)
        requires
            cur_func.wf() && matrix_ok(cur_func.code(), cur_func.live_state()),
        ensures
            forall|v: usize|
                #[trigger] r.map@.contains_key(v) == (live_segments(cur_func.code(), cur_func.live_state(), v, cur_func.basic_blocks@.len() as int).len() > 0),
            forall|v: usize|
                #[trigger] r.map@.contains_key(v) ==> r.map@[v].vreg == v && r.map@[v].range.segments@
                    == live_segments(cur_func.code(), cur_func.live_state(), v, cur_func.basic_blocks@.len() as int),
    {
        let ghost f = *cur_func;
        let ghost c = f.code();
        let ghost s = f.live_state();
        let mut vreg2range: FxHashMap<usize, LiveRange> = fx_map_new();
        let mut index: usize = 0;
        let nbbs = cur_func.basic_blocks.len();
        let mut k: usize = 0;
        while k < nbbs
            invariant
                f == *cur_func,
                c == f.code(),
                s == f.live_state(),
                cur_func.wf() && matrix_ok(cur_func.code(), cur_func.live_state()),
                nbbs == c.layout.len(),
                0 <= k <= nbbs,
                index == instr_base(c, k as int),
                forall|v: usize| #[trigger] vreg2range@.contains_key(v) == (live_segments(c, s, v, k as int).len() > 0),
                forall|v: usize| #[trigger] vreg2range@.contains_key(v) ==> vreg2range@[v].segments@ == live_segments(c, s, v, k as int),
            decreases nbbs - k,
        {
            let segs = LivenessAnalysis::block_segments(cur_func, k, index);
            let ghost segm = segs@;
            let entries = fx_map_into_entries(segs);
            let ghost keys = entry_keys(entries@);
            let mut i: usize = 0;
            while i < entries.len()
                invariant
                    f == *cur_func,
                    c == f.code(),
                    s == f.live_state(),
                    0 <= k < nbbs,
                    nbbs == c.layout.len(),
                    keys == entry_keys(entries@),
                    keys.no_duplicates(),
                    keys.to_set() == segm.dom(),
                    forall|x: int| 0 <= x < entries@.len() ==> segm[#[trigger] entries@[x].0] == entries@[x].1,
                    forall|v: usize| #[trigger] segm.contains_key(v) == block_segment(c, s, k as int, v) is Some,
                    forall|v: usize| #[trigger] segm.contains_key(v) ==> block_segment(c, s, k as int, v) == Some(segm[v]),
                    0 <= i <= entries@.len(),
                    forall|v: usize| #[trigger] vreg2range@.contains_key(v) == (live_segments(c, s, v, k as int).len() > 0 || keys.take(i as int).contains(v)),
                    forall|v: usize| #[trigger] vreg2range@.contains_key(v) ==> vreg2range@[v].segments@ == (if keys.take(i as int).contains(v) {
                        live_segments(c, s, v, k + 1)
                    } else {
                        live_segments(c, s, v, k as int)
                    }),
                decreases entries@.len() - i,
            {
                let v = entries[i].0;
                let sg = entries[i].1;
                assert(keys[i as int] == v);
                assert(segm.contains_key(v)) by {
                    assert(keys.to_set().contains(v));
                }
                let mut range = match fx_map_remove(&mut vreg2range, v) {
                    Some(r) => r,
                    None => LiveRange::new_empty(),
                };
                proof {
                    assert(!keys.take(i as int).contains(v)) by {
                        if keys.take(i as int).contains(v) {
                            let x = choose|x: int| 0 <= x < i && keys.take(i as int)[x] == v;
                            assert(keys[x] == keys[i as int]);
                        }
                    }
                    assert(range.segments@ == live_segments(c, s, v, k as int));
                }
                range.add_segment(sg);
                fx_map_insert(&mut vreg2range, v, range);
                proof {
                    let t0 = keys.take(i as int);
                    let t1 = keys.take(i + 1);
                    assert(t1 =~= t0.push(v));
                    assert(live_segments(c, s, v, k + 1) == live_segments(c, s, v, k as int).push(sg));
                    assert forall|w: usize| #[trigger] vreg2range@.contains_key(w) == (live_segments(c, s, w, k as int).len() > 0 || t1.contains(w))
                        && (vreg2range@.contains_key(w) ==> vreg2range@[w].segments@ == (if t1.contains(w) {
                        live_segments(c, s, w, k + 1)
                    } else {
                        live_segments(c, s, w, k as int)
                    })) by {
                        if t1.contains(w) && w != v {
                            let x = choose|x: int| 0 <= x < t1.len() && t1[x] == w;
                            assert(t0[x] == w);
                        }
                        if t0.contains(w) {
                            let x = choose|x: int| 0 <= x < t0.len() && t0[x] == w;
                            assert(t1[x] == w);
                        }
                        if w == v {
                            assert(t1[i as int] == v);
                        }
                    }
                }
                i = i + 1;
            }
            proof {
                assert(keys.take(entries@.len() as int) =~= keys);
                assert forall|v: usize| #[trigger] vreg2range@.contains_key(v) == (live_segments(c, s, v, k + 1).len() > 0)
                    && (vreg2range@.contains_key(v) ==> vreg2range@[v].segments@ == live_segments(c, s, v, k + 1)) by {
                    if keys.contains(v) {
                        assert(keys.to_set().contains(v));
                    } else {
                        assert(!keys.to_set().contains(v));
                        assert(live_segments(c, s, v, k + 1) == live_segments(c, s, v, k as int));
                    }
                }
                lemma_instr_base_mono(c, k + 1, nbbs as int);
            }
            let bb = cur_func.basic_blocks[k];
            index = index + cur_func.basic_block_arena[bb].iseq.len();
            k = k + 1;
        }
        let ghost ranges = vreg2range@;
        let mut entries = fx_map_into_entries(vreg2range);
        let ghost all = entries@;
        let mut map: FxHashMap<usize, LiveInterval> = fx_map_new();
        while entries.len() > 0
            invariant
                entry_keys(all).no_duplicates(),
                entry_keys(all).to_set() == ranges.dom(),
                forall|x: int| 0 <= x < all.len() ==> ranges[#[trigger] all[x].0] == all[x].1,
                entries@ == all.take(entries@.len() as int),
                0 <= entries@.len() <= all.len(),
                forall|v: usize| #[trigger] map@.contains_key(v) == (ranges.contains_key(v) && !entry_keys(entries@).contains(v)),
                forall|v: usize| #[trigger] map@.contains_key(v) ==> map@[v].vreg == v && map@[v].range.segments@ == ranges[v].segments@,
            decreases entries@.len(),
        {
            let ghost n = entries@.len();
            let e = entries.pop().unwrap();
            let v = e.0;
            let range = e.1;
            proof {
                assert(all[n - 1] == e);
                assert(entries@ =~= all.take(n - 1));
                let ks = entry_keys(all);
                assert(ks[n - 1] == v);
                assert(ranges.contains_key(v)) by {
                    assert(ks.to_set().contains(v));
                }
            }
            fx_map_insert(&mut map, v, LiveInterval::new(v, range));
            proof {
                let ks = entry_keys(all);
                assert forall|w: usize| #[trigger] map@.contains_key(w) == (ranges.contains_key(w) && !entry_keys(entries@).contains(w)) by {
                    let old_keys = entry_keys(all.take(n as int));
                    let new_keys = entry_keys(entries@);
                    if new_keys.contains(w) {
                        let x = choose|x: int| 0 <= x < new_keys.len() && new_keys[x] == w;
                        assert(ks[x] == w);
                        assert(old_keys[x] == w);
                        if w == v {
                            assert(ks[x] == ks[n - 1]);
                        }
                    }
                    if old_keys.contains(w) && w != v {
                        let x = choose|x: int| 0 <= x < old_keys.len() && old_keys[x] == w;
                        assert(x != n - 1);
                        assert(new_keys[x] == w);
                    }
                    if w == v {
                        assert(old_keys[n - 1] == v);
                    }
                }
            }
        }
        proof {
            assert(entry_keys(entries@) =~= Seq::<usize>::empty());
        }
        LiveRegMatrix::new(map)
    }
}

} // verus!

verus! {

/// The liveness sets after recording the definitions of the blocks of the
/// layout.
pub open spec fn defined_state(f: &MachineFunction) -> Seq<BlockLive> {
    Seq::new(f.basic_block_arena@.len(), |x: int| with_def(f.live_state()[x], defs_set(f, x)))
}

/// The liveness sets that analysing `f` computes: definitions recorded,
/// then every register use of the layout propagated, in order.
pub open spec fn analyzed_state(f: &MachineFunction) -> Seq<BlockLive> {
    apply_uses(defined_state(f), f.graph(), fn_uses(f, f.basic_blocks@.len() as int))
}

/// Analysing `f` does not fail.
pub open spec fn analysis_ok(f: &MachineFunction) -> bool {
    &&& f.wf()
    &&& uses_ok(f)
    &&& matrix_ok(f.code(), analyzed_state(f))
}

proof fn lemma_fn_uses_same(a: &MachineFunction, b: &MachineFunction, m: int)
    requires
        b.same_shape(a),
        a.wf(),
        m <= a.basic_blocks@.len(),
    ensures
        fn_uses(a, m) == fn_uses(b, m),
        a.code() == b.code(),
        uses_ok(a) ==> uses_ok(b),
    decreases m,
{
    if m > 0 {
        lemma_fn_uses_same(a, b, m - 1);
        let bb = a.basic_blocks@[m - 1];
        lemma_block_uses_same(a, b, bb, a.basic_block_arena@[bb as int].iseq@.len() as int);
        assert(b.basic_block_arena@[bb as int].iseq@ == a.basic_block_arena@[bb as int].iseq@);
    }
    assert forall|x: int| 0 <= x < a.nblocks() implies #[trigger] a.code().iseqs[x] == b.code().iseqs[x] by {
        assert(b.basic_block_arena@[x].iseq@ == a.basic_block_arena@[x].iseq@);
    }
    assert(a.code().iseqs =~= b.code().iseqs);
    if uses_ok(a) {
        assert forall|k: int, j: int|
            0 <= k < b.basic_blocks@.len() && 0 <= j < b.basic_block_arena@[b.basic_blocks@[k] as int].iseq@.len()
                implies instr_ok(b, #[trigger] b.basic_block_arena@[b.basic_blocks@[k] as int].iseq@[j] as int) by {
            let bb = b.basic_blocks@[k];
            assert(b.basic_block_arena@[bb as int].iseq@ == a.basic_block_arena@[bb as int].iseq@);
            assert(instr_ok(a, a.basic_block_arena@[a.basic_blocks@[k] as int].iseq@[j] as int));
        }
    }
}

impl<'a> LivenessAnalysis<'a> {
    pub fn new(module: &'a mut MachineModule) -> (s: Self)
        ensures
            *s.module == *old(module),
            *final(s.module) == *final(module),
    {
        LivenessAnalysis { module }
    }

    fn analyze(cur_func: &mut MachineFunction) -> (r: LiveRegMatrix)
        requires
            analysis_ok(&*old(cur_func)),
        ensures
            final(cur_func).same_shape(&*old(cur_func)),
            final(cur_func).live_state() == analyzed_state(&*old(cur_func)),
            forall|v: usize|
                #[trigger] r.map@.contains_key(v) == (live_segments(
                    old(cur_func).code(),
                    analyzed_state(&*old(cur_func)),
                    v,
                    old(cur_func).basic_blocks@.len() as int,
                ).len() > 0),
            forall|v: usize|
                #[trigger] r.map@.contains_key(v) ==> r.map@[v].vreg == v && r.map@[v].range.segments@
                    == live_segments(
                    old(cur_func).code(),
                    analyzed_state(&*old(cur_func)),
                    v,
                    old(cur_func).basic_blocks@.len() as int,
                ),
    {
        let ghost f0 = *cur_func;
        LivenessAnalysis::set_def(cur_func);
        let ghost f1 = *cur_func;
        proof {
            lemma_same_shape(&f0, &f1);
            lemma_fn_uses_same(&f0, &f1, f0.basic_blocks@.len() as int);
            assert(f1.live_state() =~= defined_state(&f0));
        }
        LivenessAnalysis::visit(cur_func);
        proof {
            lemma_same_shape_trans(&f0, &f1, &*cur_func);
            lemma_same_shape(&f0, &*cur_func);
            lemma_fn_uses_same(&f0, &*cur_func, f0.basic_blocks@.len() as int);
        }
        LivenessAnalysis::live_reg_matrix(&*cur_func)
    }
}

} // verus!

verus! {

impl<'a> LivenessAnalysis<'a> {
    /// Computes the def, live-in and live-out sets of the blocks of
    /// `cur_func` and returns the live intervals of its registers.
    pub fn analyze_function(&mut self, cur_func: &mut MachineFunction) -> (r: LiveRegMatrix)
        requires
            analysis_ok(&*old(cur_func)),
        ensures
            final(cur_func).same_shape(&*old(cur_func)),
            final(cur_func).live_state() == analyzed_state(&*old(cur_func)),
            forall|v: usize|
                #[trigger] r.map@.contains_key(v) == (live_segments(
                    old(cur_func).code(),
                    analyzed_state(&*old(cur_func)),
                    v,
                    old(cur_func).basic_blocks@.len() as int,
                ).len() > 0),
            forall|v: usize|
                #[trigger] r.map@.contains_key(v) ==> r.map@[v].vreg == v && r.map@[v].range.segments@
                    == live_segments(
                    old(cur_func).code(),
                    analyzed_state(&*old(cur_func)),
                    v,
                    old(cur_func).basic_blocks@.len() as int,
                ),
    {
        LivenessAnalysis::analyze(cur_func)
    }

    /// Analyses every function of the module.
    pub fn analyze_module(&mut self)
        requires
            forall|i: int| 0 <= i < old(self).module.functions@.len() ==> analysis_ok(#[trigger] &old(self).module.functions@[i]),
        ensures
            final(self).module.functions@.len() == old(self).module.functions@.len(),
            forall|i: int|
                0 <= i < old(self).module.functions@.len() ==> {
                    &&& (#[trigger] final(self).module.functions@[i]).same_shape(&old(self).module.functions@[i])
                    &&& final(self).module.functions@[i].live_state() == analyzed_state(&old(self).module.functions@[i])
                },
    {
        let n = self.module.functions.len();
        let mut i: usize = 0;
        while i < n
            invariant
                n == old(self).module.functions@.len(),
                self.module.functions@.len() == n,
                0 <= i <= n,
                forall|j: int| i <= j < n ==> #[trigger] self.module.functions@[j] == old(self).module.functions@[j],
                forall|j: int| 0 <= j < n ==> analysis_ok(#[trigger] &old(self).module.functions@[j]),
                forall|j: int|
                    0 <= j < i ==> {
                        &&& (#[trigger] self.module.functions@[j]).same_shape(&old(self).module.functions@[j])
                        &&& self.module.functions@[j].live_state() == analyzed_state(&old(self).module.functions@[j])
                    },
            decreases n - i,
        {
            assert(analysis_ok(&old(self).module.functions@[i as int]));
            let _ = LivenessAnalysis::analyze(&mut self.module.functions[i]);
            i = i + 1;
        }
    }
}

} // verus!

verus! {

/// A register live on exit from a block is defined in it or live on entry
/// to it.
pub open spec fn exit_covered(s: Seq<BlockLive>) -> bool {
    forall|x: int, r: usize|
        0 <= x < s.len() && #[trigger] s[x].live_out.contains(r) ==> s[x].def.contains(r) || s[x].live_in.contains(r)
}

/// No block has a register both live on entry to it and defined in it.
pub open spec fn in_def_disjoint(s: Seq<BlockLive>) -> bool {
    forall|x: int, r: usize| 0 <= x < s.len() && #[trigger] s[x].live_in.contains(r) ==> !s[x].def.contains(r)
}

proof fn lemma_prop_up_disjoint(s: Seq<BlockLive>, g: Seq<Seq<usize>>, b: usize, r: usize)
    requires
        in_def_disjoint(s),
        s.len() <= usize::MAX,
    ensures
        in_def_disjoint(prop_up(s, g, b, r)),
{
    let t = prop_up(s, g, b, r);
    assert forall|x: int, r2: usize| 0 <= x < t.len() && #[trigger] t[x].live_in.contains(r2) implies !t[x].def.contains(r2) by {
        if r2 == r && reaches(s, g, r, b, x as usize) && !s[x].live_in.contains(r) {
            let path = choose|path: Seq<usize>|
                #[trigger] live_path(s, g, r, path) && path[0] == b && path[path.len() - 1] == x as usize;
            assert(open_block(s, r, path[path.len() - 1]));
            assert(path[path.len() - 1] as int == x);
        }
    }
}

proof fn lemma_prop_up_laws(s: Seq<BlockLive>, g: Seq<Seq<usize>>, b: usize, r: usize)
    requires
        graph_ok(g, s.len() as int),
        (b as int) < s.len(),
    ensures
        grown(s, prop_up(s, g, b, r), r),
        prop_up(s, g, b, r)[b as int].def.contains(r) || prop_up(s, g, b, r)[b as int].live_in.contains(r),
        exit_covered(s) ==> exit_covered(prop_up(s, g, b, r)),
{
    let t = prop_up(s, g, b, r);
    lemma_prop_up_grown(s, g, b, r);
    if open_block(s, r, b) {
        lemma_trivial_path(s, g, r, b);
    }
    if exit_covered(s) {
        assert forall|x: int, r2: usize| 0 <= x < t.len() && #[trigger] t[x].live_out.contains(r2) implies t[x].def.contains(r2)
            || t[x].live_in.contains(r2) by {
            if r2 == r && !s[x].live_out.contains(r) && !s[x].def.contains(r) && !s[x].live_in.contains(r) {
                let q = x as usize;
                assert(feeds(s, g, r, b, q));
                let y = choose|y: usize| #[trigger] reaches(s, g, r, b, y) && g[y as int].contains(q);
                lemma_append(s, g, r, b, y, q);
            }
        }
    }
}

proof fn lemma_propagate_disjoint(s: Seq<BlockLive>, g: Seq<Seq<usize>>, b: usize, pred: Option<usize>, r: usize)
    requires
        in_def_disjoint(s),
        s.len() <= usize::MAX,
        (b as int) < s.len(),
        pred matches Some(p) ==> (p as int) < s.len(),
    ensures
        in_def_disjoint(propagate_spec(s, g, b, pred, r)),
{
    match pred {
        None => {
            lemma_prop_up_disjoint(s, g, b, r);
        },
        Some(p) => {
            if !(s[b as int].def.contains(r) || s[b as int].live_in.contains(r)) {
                let s1 = add_live_in(s, b, r);
                assert(in_def_disjoint(s1)) by {
                    assert forall|x: int, r2: usize| 0 <= x < s1.len() && #[trigger] s1[x].live_in.contains(r2) implies !s1[x].def.contains(r2) by {
                        if x != b as int {
                            assert(s1[x] == s[x]);
                        }
                    }
                }
                if !s1[p as int].live_out.contains(r) {
                    let s2 = add_live_out(s1, p, r);
                    assert(in_def_disjoint(s2)) by {
                        assert forall|x: int, r2: usize| 0 <= x < s2.len() && #[trigger] s2[x].live_in.contains(r2) implies !s2[x].def.contains(r2) by {
                            assert(s2[x].live_in == s1[x].live_in && s2[x].def == s1[x].def);
                        }
                    }
                    lemma_prop_up_disjoint(s2, g, p, r);
                }
            }
        },
    }
}

/// Propagating a use never removes anything and adds only the used
/// register; afterwards the using block defines the register or has it live
/// on entry; it keeps every register live on exit from a block defined in
/// it or live on entry to it; and it never makes a register live on entry
/// to a block that defines it.
pub proof fn lemma_propagate_laws(s: Seq<BlockLive>, g: Seq<Seq<usize>>, b: usize, pred: Option<usize>, r: usize)
    requires
        graph_ok(g, s.len() as int),
        (b as int) < s.len(),
        pred matches Some(p) ==> (p as int) < s.len(),
    ensures
        grown(s, propagate_spec(s, g, b, pred, r), r),
        propagate_spec(s, g, b, pred, r)[b as int].def.contains(r)
            || propagate_spec(s, g, b, pred, r)[b as int].live_in.contains(r),
        exit_covered(s) ==> exit_covered(propagate_spec(s, g, b, pred, r)),
        in_def_disjoint(s) ==> in_def_disjoint(propagate_spec(s, g, b, pred, r)),
{
    if in_def_disjoint(s) {
        lemma_propagate_disjoint(s, g, b, pred, r);
    }
    match pred {
        None => {
            lemma_prop_up_laws(s, g, b, r);
        },
        Some(p) => {
            if s[b as int].def.contains(r) || s[b as int].live_in.contains(r) {
                assert forall|x: int| 0 <= x < s.len() implies grown_at(s[x], #[trigger] s[x], r) by {
                }
            } else {
                let s1 = add_live_in(s, b, r);
                assert(grown(s, s1, r)) by {
                    assert forall|x: int| 0 <= x < s1.len() implies grown_at(s[x], #[trigger] s1[x], r) by {
                    }
                }
                if s1[p as int].live_out.contains(r) {
                    if exit_covered(s) {
                        assert forall|x: int, r2: usize| 0 <= x < s1.len() && #[trigger] s1[x].live_out.contains(r2) implies s1[x].def.contains(r2)
                            || s1[x].live_in.contains(r2) by {
                            assert(s[x].live_out.contains(r2));
                        }
                    }
                } else {
                    let s2 = add_live_out(s1, p, r);
                    assert(grown(s1, s2, r)) by {
                        assert forall|x: int| 0 <= x < s2.len() implies grown_at(s1[x], #[trigger] s2[x], r) by {
                        }
                    }
                    lemma_grown_trans(s, s1, s2, r);
                    lemma_prop_up_laws(s2, g, p, r);
                    lemma_grown_trans(s, s2, prop_up(s2, g, p, r), r);
                    let t = prop_up(s2, g, p, r);
                    assert(grown_at(s2[b as int], t[b as int], r));
                    if exit_covered(s) {
                        assert forall|x: int, r2: usize| 0 <= x < s2.len() && #[trigger] s2[x].live_out.contains(r2) implies s2[x].def.contains(r2)
                            || s2[x].live_in.contains(r2) || (x == p && r2 == r) by {
                            if !(x == p && r2 == r) {
                                assert(s[x].live_out.contains(r2));
                            }
                        }
                        // `p` itself: the propagation from it puts `r` on its entry unless it defines `r`
                        assert forall|x: int, r2: usize| 0 <= x < t.len() && #[trigger] t[x].live_out.contains(r2) implies t[x].def.contains(r2)
                            || t[x].live_in.contains(r2) by {
                            assert(grown_at(s2[x], t[x], r));
                            if r2 == r && !s2[x].live_out.contains(r) && !s2[x].def.contains(r) && !s2[x].live_in.contains(r) {
                                let q = x as usize;
                                assert(feeds(s2, g, r, p, q));
                                let y = choose|y: usize| #[trigger] reaches(s2, g, r, p, y) && g[y as int].contains(q);
                                lemma_append(s2, g, r, p, y, q);
                            } else if x == p && r2 == r && !s2[x].def.contains(r) && !s2[x].live_in.contains(r) {
                                lemma_trivial_path(s2, g, r, p);
                            }
                        }
                    }
                }
            }
        },
    }
}

} // verus!

verus! {

/// Every use names one of the first `n` blocks and, for a phi operand, a
/// source block among them.
spec fn uses_in(u: Seq<(usize, Option<usize>, usize)>, n: int) -> bool {
    forall|i: int| 0 <= i < u.len() ==> (#[trigger] u[i]).0 < n && (u[i].1 matches Some(p) ==> (p as int) < n)
}

proof fn lemma_uses_in_concat(a: Seq<(usize, Option<usize>, usize)>, b: Seq<(usize, Option<usize>, usize)>, n: int)
    requires
        uses_in(a, n),
        uses_in(b, n),
    ensures
        uses_in(a + b, n),
{
    assert forall|i: int| 0 <= i < (a + b).len() implies (#[trigger] (a + b)[i]).0 < n && ((a + b)[i].1 matches Some(p) ==> (p as int) < n) by {
        if i < a.len() {
            assert((a + b)[i] == a[i]);
        } else {
            assert((a + b)[i] == b[i - a.len()]);
        }
    }
}

proof fn lemma_apply_uses_laws(s: Seq<BlockLive>, g: Seq<Seq<usize>>, u: Seq<(usize, Option<usize>, usize)>)
    requires
        graph_ok(g, s.len() as int),
        uses_in(u, s.len() as int),
    ensures
        apply_uses(s, g, u).len() == s.len(),
        forall|x: int| 0 <= x < s.len() ==> #[trigger] apply_uses(s, g, u)[x].def == s[x].def,
        exit_covered(s) ==> exit_covered(apply_uses(s, g, u)),
        in_def_disjoint(s) ==> in_def_disjoint(apply_uses(s, g, u)),
        forall|i: int|
            0 <= i < u.len() ==> apply_uses(s, g, u)[(#[trigger] u[i]).0 as int].def.contains(u[i].2)
                || apply_uses(s, g, u)[u[i].0 as int].live_in.contains(u[i].2),
    decreases u.len(),
{
    if u.len() > 0 {
        let u0 = u.drop_last();
        let e = u.last();
        assert(uses_in(u0, s.len() as int)) by {
            assert forall|i: int| 0 <= i < u0.len() implies (#[trigger] u0[i]).0 < s.len() && (u0[i].1 matches Some(p) ==> (p as int) < s.len()) by {
                assert(u0[i] == u[i]);
            }
        }
        lemma_apply_uses_laws(s, g, u0);
        let t0 = apply_uses(s, g, u0);
        let t = apply_uses(s, g, u);
        assert(u[u.len() - 1] == e);
        lemma_propagate_laws(t0, g, e.0, e.1, e.2);
        assert(t == propagate_spec(t0, g, e.0, e.1, e.2));
        assert forall|x: int| 0 <= x < s.len() implies #[trigger] t[x].def == s[x].def by {
            assert(grown_at(t0[x], t[x], e.2));
        }
        assert forall|i: int|
            0 <= i < u.len() implies t[(#[trigger] u[i]).0 as int].def.contains(u[i].2) || t[u[i].0 as int].live_in.contains(u[i].2) by {
            if i < u.len() - 1 {
                assert(u0[i] == u[i]);
                let x = u[i].0 as int;
                assert(grown_at(t0[x], t[x], e.2));
            }
        }
    }
}

proof fn lemma_instr_uses_in(f: &MachineFunction, id: int, b: usize, m: int)
    requires
        0 <= id < f.instr_arena@.len(),
        instr_ok(f, id),
        (b as int) < f.nblocks(),
        m <= f.instr_arena@[id].operand@.len(),
    ensures
        uses_in(instr_uses(f.instr_arena@[id], b, m), f.nblocks()),
    decreases m,
{
    let ins = f.instr_arena@[id];
    if m > 0 {
        lemma_instr_uses_in(f, id, b, m - 1);
        let prev = instr_uses(ins, b, m - 1);
        match ins.operand@[m - 1] {
            MachineOperand::Register(reg) => {
                let e = (b, phi_source(ins, m - 1), reg.vreg);
                assert(ins.operand@[m - 1] is Register);
                assert forall|i: int| 0 <= i < prev.push(e).len() implies (#[trigger] prev.push(e)[i]).0 < f.nblocks()
                    && (prev.push(e)[i].1 matches Some(p) ==> (p as int) < f.nblocks()) by {
                    if i < prev.len() {
                        assert(prev.push(e)[i] == prev[i]);
                    }
                }
            },
            _ => {},
        }
    }
}

proof fn lemma_block_uses_in(f: &MachineFunction, b: usize, m: int)
    requires
        f.wf(),
        (b as int) < f.nblocks(),
        m <= f.basic_block_arena@[b as int].iseq@.len(),
        forall|j: int| 0 <= j < m ==> instr_ok(f, #[trigger] f.basic_block_arena@[b as int].iseq@[j] as int),
    ensures
        uses_in(block_uses(f, b, m), f.nblocks()),
    decreases m,
{
    if m > 0 {
        lemma_block_uses_in(f, b, m - 1);
        let id = f.basic_block_arena@[b as int].iseq@[m - 1] as int;
        assert(instr_ok(f, id));
        lemma_instr_uses_in(f, id, b, f.instr_arena@[id].operand@.len() as int);
        lemma_uses_in_concat(block_uses(f, b, m - 1), instr_uses(f.instr_arena@[id], b, f.instr_arena@[id].operand@.len() as int), f.nblocks());
    }
}

proof fn lemma_fn_uses_in(f: &MachineFunction, m: int)
    requires
        f.wf(),
        uses_ok(f),
        m <= f.basic_blocks@.len(),
    ensures
        uses_in(fn_uses(f, m), f.nblocks()),
    decreases m,
{
    if m > 0 {
        lemma_fn_uses_in(f, m - 1);
        let b = f.basic_blocks@[m - 1];
        assert forall|j: int| 0 <= j < f.basic_block_arena@[b as int].iseq@.len() implies instr_ok(f, #[trigger] f.basic_block_arena@[b as int].iseq@[j] as int) by {
            assert(instr_ok(f, f.basic_block_arena@[f.basic_blocks@[m - 1] as int].iseq@[j] as int));
        }
        lemma_block_uses_in(f, b, f.basic_block_arena@[b as int].iseq@.len() as int);
        lemma_uses_in_concat(fn_uses(f, m - 1), block_uses(f, b, f.basic_block_arena@[b as int].iseq@.len() as int), f.nblocks());
    }
}

} // verus!

verus! {

proof fn lemma_instr_uses_has(ins: MachineInstr, b: usize, m: int, o: int, reg: crate::machine::MachineRegister)
    requires
        0 <= o < m <= ins.operand@.len(),
        ins.operand@[o] == MachineOperand::Register(reg),
    ensures
        instr_uses(ins, b, m).contains((b, phi_source(ins, o), reg.vreg)),
    decreases m,
{
    let x = (b, phi_source(ins, o), reg.vreg);
    let prev = instr_uses(ins, b, m - 1);
    if o < m - 1 {
        lemma_instr_uses_has(ins, b, m - 1, o, reg);
        let w = choose|w: int| 0 <= w < prev.len() && prev[w] == x;
        match ins.operand@[m - 1] {
            MachineOperand::Register(r2) => {
                let e = (b, phi_source(ins, m - 1), r2.vreg);
                assert(prev.push(e)[w] == x);
            },
            _ => {},
        }
    } else {
        assert(instr_uses(ins, b, m) == prev.push(x));
        assert(prev.push(x)[prev.len() as int] == x);
    }
}

proof fn lemma_block_uses_has(f: &MachineFunction, b: usize, m: int, j: int, o: int, reg: crate::machine::MachineRegister)
    requires
        0 <= j < m <= f.basic_block_arena@[b as int].iseq@.len(),
        0 <= o < f.instr_arena@[f.basic_block_arena@[b as int].iseq@[j] as int].operand@.len(),
        f.instr_arena@[f.basic_block_arena@[b as int].iseq@[j] as int].operand@[o] == MachineOperand::Register(reg),
    ensures
        block_uses(f, b, m).contains((b, phi_source(f.instr_arena@[f.basic_block_arena@[b as int].iseq@[j] as int], o), reg.vreg)),
    decreases m,
{
    let x = (b, phi_source(f.instr_arena@[f.basic_block_arena@[b as int].iseq@[j] as int], o), reg.vreg);
    let last = f.instr_arena@[f.basic_block_arena@[b as int].iseq@[m - 1] as int];
    let prev = block_uses(f, b, m - 1);
    let iu = instr_uses(last, b, last.operand@.len() as int);
    assert(block_uses(f, b, m) == prev + iu);
    if j < m - 1 {
        lemma_block_uses_has(f, b, m - 1, j, o, reg);
        let w = choose|w: int| 0 <= w < prev.len() && prev[w] == x;
        assert((prev + iu)[w] == x);
    } else {
        lemma_instr_uses_has(last, b, last.operand@.len() as int, o, reg);
        let w = choose|w: int| 0 <= w < iu.len() && iu[w] == x;
        assert((prev + iu)[prev.len() + w] == x);
    }
}

proof fn lemma_fn_uses_has(f: &MachineFunction, m: int, k: int, j: int, o: int, reg: crate::machine::MachineRegister)
    requires
        0 <= k < m <= f.basic_blocks@.len(),
        0 <= j < f.basic_block_arena@[f.basic_blocks@[k] as int].iseq@.len(),
        0 <= o < f.instr_arena@[f.basic_block_arena@[f.basic_blocks@[k] as int].iseq@[j] as int].operand@.len(),
        f.instr_arena@[f.basic_block_arena@[f.basic_blocks@[k] as int].iseq@[j] as int].operand@[o] == MachineOperand::Register(reg),
    ensures
        fn_uses(f, m).contains(
            (f.basic_blocks@[k], phi_source(f.instr_arena@[f.basic_block_arena@[f.basic_blocks@[k] as int].iseq@[j] as int], o), reg.vreg),
        ),
    decreases m,
{
    let b = f.basic_blocks@[k];
    let x = (b, phi_source(f.instr_arena@[f.basic_block_arena@[b as int].iseq@[j] as int], o), reg.vreg);
    let lb = f.basic_blocks@[m - 1];
    let prev = fn_uses(f, m - 1);
    let bu = block_uses(f, lb, f.basic_block_arena@[lb as int].iseq@.len() as int);
    assert(fn_uses(f, m) == prev + bu);
    if k < m - 1 {
        lemma_fn_uses_has(f, m - 1, k, j, o, reg);
        let w = choose|w: int| 0 <= w < prev.len() && prev[w] == x;
        assert((prev + bu)[w] == x);
    } else {
        lemma_block_uses_has(f, b, f.basic_block_arena@[b as int].iseq@.len() as int, j, o, reg);
        let w = choose|w: int| 0 <= w < bu.len() && bu[w] == x;
        assert((prev + bu)[prev.len() + w] == x);
    }
}

/// Liveness analysis records in the def set of each block of the layout the
/// registers that its instructions define; afterwards every register used
/// in a block of the layout is defined in that block or live on entry to
/// it; when every register live on exit from a block is defined in it or
/// live on entry to it beforehand (as with the empty sets the analysis
/// starts from), that still holds afterwards; and when no register is both
/// live on entry to a block and defined in it once the definitions are
/// recorded (as when the live-in sets start empty), that too still holds
/// afterwards.
pub proof fn lemma_analysis_covers_uses(f: &MachineFunction)
    requires
        f.wf(),
        uses_ok(f),
    ensures
        forall|x: int| 0 <= x < f.nblocks() ==> #[trigger] analyzed_state(f)[x].def == defs_set(f, x),
        forall|k: int, j: int, v: usize|
            0 <= k < f.basic_blocks@.len() && 0 <= j < f.basic_block_arena@[f.basic_blocks@[k] as int].iseq@.len()
                && #[trigger] uses_reg(
                instr_at(f.code(), f.basic_blocks@[k], j),
                v,
                instr_at(f.code(), f.basic_blocks@[k], j).operand@.len() as int,
            ) ==> analyzed_state(f)[f.basic_blocks@[k] as int].def.contains(v)
                || analyzed_state(f)[f.basic_blocks@[k] as int].live_in.contains(v),
        exit_covered(f.live_state()) ==> exit_covered(analyzed_state(f)),
        in_def_disjoint(defined_state(f)) ==> in_def_disjoint(analyzed_state(f)),
        (forall|x: int| 0 <= x < f.nblocks() ==> (#[trigger] f.live_state()[x]).live_in.is_empty()) ==> in_def_disjoint(
            analyzed_state(f),
        ),
{
    let s0 = f.live_state();
    let d = defined_state(f);
    let g = f.graph();
    let n = f.basic_blocks@.len() as int;
    let u = fn_uses(f, n);
    assert(f.basic_block_arena@.len() == f.basic_block_arena.len());
    lemma_wf_graph(f);
    lemma_fn_uses_in(f, n);
    lemma_apply_uses_laws(d, g, u);
    if forall|x: int| 0 <= x < f.nblocks() ==> (#[trigger] f.live_state()[x]).live_in.is_empty() {
        assert forall|x: int, r: usize| 0 <= x < d.len() && #[trigger] d[x].live_in.contains(r) implies !d[x].def.contains(r) by {
            assert(s0[x].live_in.is_empty());
        }
    }
    if exit_covered(s0) {
        assert forall|x: int, r: usize| 0 <= x < d.len() && #[trigger] d[x].live_out.contains(r) implies d[x].def.contains(r)
            || d[x].live_in.contains(r) by {
            assert(s0[x].live_out.contains(r));
        }
    }
    assert forall|k: int, j: int, v: usize|
        0 <= k < n && 0 <= j < f.basic_block_arena@[f.basic_blocks@[k] as int].iseq@.len()
            && #[trigger] uses_reg(
            instr_at(f.code(), f.basic_blocks@[k], j),
            v,
            instr_at(f.code(), f.basic_blocks@[k], j).operand@.len() as int,
        ) implies analyzed_state(f)[f.basic_blocks@[k] as int].def.contains(v)
            || analyzed_state(f)[f.basic_blocks@[k] as int].live_in.contains(v) by {
        let b = f.basic_blocks@[k];
        let ins = instr_at(f.code(), b, j);
        assert(ins == f.instr_arena@[f.basic_block_arena@[b as int].iseq@[j] as int]);
        let o = choose|o: int|
            0 <= o < ins.operand@.len() && (#[trigger] ins.operand@[o] matches MachineOperand::Register(r) && r.vreg == v);
        let reg = ins.operand@[o]->Register_0;
        lemma_fn_uses_has(f, n, k, j, o, reg);
        let w = choose|w: int| 0 <= w < u.len() && u[w] == (b, phi_source(ins, o), reg.vreg);
        assert(u[w].0 == b && u[w].2 == v);
    }
}

} // verus!

verus! {

proof fn lemma_last_use_bounds(c: CodeView, b: usize, v: usize, lo: int, hi: int)
    ensures
        last_use_between(c, b, v, lo, hi) == -1 || lo <= last_use_between(c, b, v, lo, hi) < hi,
    decreases hi - lo,
{
    if hi > lo {
        lemma_last_use_bounds(c, b, v, lo, hi - 1);
    }
}

/// The segment of a register in the `k`-th block of the layout starts
/// within that block and ends by the block's end.
proof fn lemma_block_segment_bounds(c: CodeView, s: Seq<BlockLive>, k: int, v: usize)
    requires
        0 <= k < c.layout.len(),
        instr_base(c, c.layout.len() as int) <= usize::MAX,
    ensures
        block_segment(c, s, k, v) matches Some(sg) ==> instr_base(c, k) <= sg.start <= instr_base(c, k + 1)
            && sg.end <= instr_base(c, k + 1),
{
    let b = c.layout[k];
    let m = c.iseqs[b as int].len() as int;
    let base = instr_base(c, k);
    lemma_instr_base_mono(c, k + 1, c.layout.len() as int);
    lemma_instr_base_mono(c, k, k);
    assert(instr_base(c, k + 1) == base + m);
    lemma_last_def_lt(c, b, v, m);
    let d = last_def_before(c, b, v, m);
    let st = if d < 0 { 0 } else { d };
    lemma_last_use_bounds(c, b, v, st, m);
}

/// The segments of a register's live interval come one per block of the
/// layout at most, in layout order, and none overlaps a later one: each
/// ends no later than any later one starts.
pub proof fn lemma_live_segments_ordered(c: CodeView, s: Seq<BlockLive>, v: usize, k: int)
    requires
        0 <= k <= c.layout.len(),
        instr_base(c, c.layout.len() as int) <= usize::MAX,
    ensures
        live_segments(c, s, v, k).len() <= k,
        forall|i: int, j: int|
            0 <= i < j < live_segments(c, s, v, k).len() ==> (#[trigger] live_segments(c, s, v, k)[i]).end
                <= (#[trigger] live_segments(c, s, v, k)[j]).start && live_segments(c, s, v, k)[i].start
                <= live_segments(c, s, v, k)[j].start,
        forall|i: int, j: int|
            0 <= i < j < live_segments(c, s, v, k).len() ==> !(#[trigger] live_segments(c, s, v, k)[i]).interferes_with(
                #[trigger] live_segments(c, s, v, k)[j],
            ),
        forall|i: int|
            0 <= i < live_segments(c, s, v, k).len() ==> (#[trigger] live_segments(c, s, v, k)[i]).start
                <= instr_base(c, k) && live_segments(c, s, v, k)[i].end <= instr_base(c, k),
    decreases k,
{
    if k > 0 {
        lemma_live_segments_ordered(c, s, v, k - 1);
        lemma_block_segment_bounds(c, s, k - 1, v);
        let prev = live_segments(c, s, v, k - 1);
        match block_segment(c, s, k - 1, v) {
            Some(sg) => {
                let cur = prev.push(sg);
                assert(live_segments(c, s, v, k) == cur);
                assert forall|i: int| 0 <= i < cur.len() implies (#[trigger] cur[i]).start <= instr_base(c, k) && cur[i].end
                    <= instr_base(c, k) by {
                    if i < prev.len() {
                        assert(cur[i] == prev[i]);
                        lemma_instr_base_mono(c, k - 1, k);
                    }
                }
                assert forall|i: int, j: int| 0 <= i < j < cur.len() implies (#[trigger] cur[i]).end <= (#[trigger] cur[j]).start
                    && cur[i].start <= cur[j].start by {
                    assert(cur[i] == prev[i]);
                    if j < prev.len() {
                        assert(cur[j] == prev[j]);
                    }
                }
            },
            None => {},
        }
    }
}

} // verus!
