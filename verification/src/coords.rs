//! Chunk coordinates and observer views.
//!
//! A `ChunkPos` names one 16 x 16 column-region of the world. A `ChunkView`
//! is the axis-aligned square of chunk positions an observer can see, given
//! its own chunk position and a view distance.

use vstd::prelude::*;

verus! {

/// Integer (x, z) pair identifying one fixed-size horizontal column of the
/// world. Equality is by value.
#[derive(Clone, Copy, PartialEq, Eq, Structural, Debug, Hash)]
pub struct ChunkPos {
    pub x: i32,
    pub z: i32,
}

/// Squared distance between two chunk positions, as unbounded integers.
pub open spec fn dist_sq(a: ChunkPos, b: ChunkPos) -> int {
    (a.x - b.x) * (a.x - b.x) + (a.z - b.z) * (a.z - b.z)
}

impl ChunkPos {
    pub fn new(x: i32, z: i32) -> (r: ChunkPos)
        ensures
            r.x == x,
            r.z == z,
    {
        ChunkPos { x, z }
    }

    /// Squared distance to another chunk position, used as a generation
    /// priority: smaller means more urgent.
    pub fn distance_squared(self, other: ChunkPos) -> (r: u64)
        requires
            dist_sq(self, other) <= u64::MAX,
        ensures
            r == dist_sq(self, other),
    {
        let dx = (self.x as i64) - (other.x as i64);
        let dz = (self.z as i64) - (other.z as i64);
        let ax: u64 = if dx >= 0 { dx as u64 } else { (-dx) as u64 };
        let az: u64 = if dz >= 0 { dz as u64 } else { (-dz) as u64 };
        assert(ax * ax == (self.x - other.x) * (self.x - other.x)) by (nonlinear_arith)
            requires
                ax == if dx >= 0 { dx as int } else { -(dx as int) },
                dx == self.x - other.x,
        ;
        assert(az * az == (self.z - other.z) * (self.z - other.z)) by (nonlinear_arith)
            requires
                az == if dz >= 0 { dz as int } else { -(dz as int) },
                dz == self.z - other.z,
        ;
        ax * ax + az * az
    }
}

/// The square of chunk positions within a view distance of an observer's own
/// chunk position.
#[derive(Clone, Copy, PartialEq, Eq, Structural, Debug)]
pub struct ChunkView {
    /// The chunk the observer stands in: the view's center.
    pub pos: ChunkPos,
    /// View radius in chunks; the view is a square of side `2 * dist + 1`.
    pub dist: u8,
}

impl ChunkView {
    /// The view square stays within the coordinate range of `i32`.
    pub open spec fn wf(self) -> bool {
        &&& i32::MIN <= self.pos.x - self.dist
        &&& self.pos.x + self.dist <= i32::MAX
        &&& i32::MIN <= self.pos.z - self.dist
        &&& self.pos.z + self.dist <= i32::MAX
    }

    /// A chunk position is in view when both axes are within `dist` of the
    /// center.
    pub open spec fn spec_contains(self, p: ChunkPos) -> bool {
        &&& self.pos.x - self.dist <= p.x <= self.pos.x + self.dist
        &&& self.pos.z - self.dist <= p.z <= self.pos.z + self.dist
    }

    /// All positions of the view square, row by row.
    pub open spec fn spec_positions(self) -> Seq<ChunkPos> {
        let w = 2 * (self.dist as int) + 1;
        Seq::new(
            (w * w) as nat,
            |k: int|
                ChunkPos {
                    x: (self.pos.x - self.dist + k % w) as i32,
                    z: (self.pos.z - self.dist + k / w) as i32,
                },
        )
    }

    pub fn new(pos: ChunkPos, dist: u8) -> (r: ChunkView)
        ensures
            r.pos == pos,
            r.dist == dist,
    {
        ChunkView { pos, dist }
    }

    pub fn contains(&self, p: ChunkPos) -> (r: bool)
        ensures
            r == self.spec_contains(p),
    {
        let d = self.dist as i64;
        let cx = self.pos.x as i64;
        let cz = self.pos.z as i64;
        cx - d <= p.x as i64 && p.x as i64 <= cx + d && cz - d <= p.z as i64 && p.z as i64 <= cz
            + d
    }

    /// Enumerates the view square.
    pub fn positions(&self) -> (r: Vec<ChunkPos>)
        requires
            self.wf(),
        ensures
            r@ == self.spec_positions(),
    {
        let w: usize = 2 * (self.dist as usize) + 1;
        assert(w * w <= 511 * 511) by (nonlinear_arith)
            requires
                w <= 511,
        ;
        let x_lo: i64 = self.pos.x as i64 - self.dist as i64;
        let z_lo: i64 = self.pos.z as i64 - self.dist as i64;
        let n: usize = w * w;
        let mut r: Vec<ChunkPos> = Vec::new();
        let mut k: usize = 0;
        while k < n
            invariant
                n == w * w,
                w == 2 * (self.dist as int) + 1,
                x_lo == self.pos.x - self.dist,
                z_lo == self.pos.z - self.dist,
                self.wf(),
                k <= n,
                r@ =~= self.spec_positions().take(k as int),
            decreases n - k,
        {
            let dx: usize = k % w;
            let dz: usize = k / w;
            proof {
                assert(k / w < w) by (nonlinear_arith)
                    requires
                        0 < w,
                        k < w * w,
                ;
            }
            let x = (x_lo + dx as i64) as i32;
            let z = (z_lo + dz as i64) as i32;
            r.push(ChunkPos { x, z });
            k = k + 1;
            proof {
                assert(r@ =~= self.spec_positions().take(k as int));
            }
        }
        assert(r@ =~= self.spec_positions());
        r
    }

    /// Every position of the view square is in view, and every position in
    /// view is in the square.
    pub proof fn lemma_positions_contains(self, p: ChunkPos)
        requires
            self.wf(),
        ensures
            self.spec_positions().contains(p) <==> self.spec_contains(p),
    {
        let w = 2 * (self.dist as int) + 1;
        let s = self.spec_positions();
        if self.spec_contains(p) {
            let dx = p.x - (self.pos.x - self.dist);
            let dz = p.z - (self.pos.z - self.dist);
            let k = dz * w + dx;
            assert(0 <= k < w * w) by (nonlinear_arith)
                requires
                    0 <= dx < w,
                    0 <= dz < w,
                    k == dz * w + dx,
            ;
            vstd::arithmetic::div_mod::lemma_fundamental_div_mod_converse(k, w, dz, dx);
            assert(s[k] == p);
            assert(s.contains(p));
        }
        if s.contains(p) {
            let k = choose|k: int| 0 <= k < s.len() && s[k] == p;
            vstd::arithmetic::div_mod::lemma_fundamental_div_mod(k, w);
            vstd::arithmetic::div_mod::lemma_mod_division_less_than_divisor(k, w);
            assert(0 <= k / w < w) by (nonlinear_arith)
                requires
                    0 < w,
                    0 <= k < w * w,
                    k == w * (k / w) + k % w,
                    0 <= k % w < w,
            ;
        }
    }
}

/// The positions of `s` that are not in view `o`, in the order of `s`.
pub open spec fn filter_out(s: Seq<ChunkPos>, o: ChunkView) -> Seq<ChunkPos>
    decreases s.len(),
{
    if s.len() == 0 {
        Seq::empty()
    } else {
        filter_out(s.drop_last(), o) + if o.spec_contains(s.last()) {
            Seq::<ChunkPos>::empty()
        } else {
            seq![s.last()]
        }
    }
}

pub proof fn lemma_filter_out_contains(s: Seq<ChunkPos>, o: ChunkView, p: ChunkPos)
    ensures
        filter_out(s, o).contains(p) <==> s.contains(p) && !o.spec_contains(p),
    decreases s.len(),
{
    if s.len() > 0 {
        lemma_filter_out_contains(s.drop_last(), o, p);
        assert(s.contains(p) <==> s.drop_last().contains(p) || s.last() == p) by {
            if s.contains(p) {
                let i = choose|i: int| 0 <= i < s.len() && s[i] == p;
                if i < s.len() - 1 {
                    assert(s.drop_last()[i] == p);
                }
            }
            if s.drop_last().contains(p) {
                let i = choose|i: int| 0 <= i < s.drop_last().len() && s.drop_last()[i] == p;
                assert(s[i] == p);
            }
            if s.last() == p {
                assert(s[s.len() - 1] == p);
            }
        }
        let fd = filter_out(s.drop_last(), o);
        let tail = if o.spec_contains(s.last()) {
            Seq::<ChunkPos>::empty()
        } else {
            seq![s.last()]
        };
        let f = filter_out(s, o);
        assert(f == fd + tail);
        assert(f.contains(p) <==> fd.contains(p) || tail.contains(p)) by {
            if fd.contains(p) {
                let i = choose|i: int| 0 <= i < fd.len() && fd[i] == p;
                assert(f[i] == p);
            }
            if tail.contains(p) {
                let i = choose|i: int| 0 <= i < tail.len() && tail[i] == p;
                assert(f[fd.len() + i] == p);
            }
            if f.contains(p) {
                let i = choose|i: int| 0 <= i < f.len() && f[i] == p;
                if i < fd.len() {
                    assert(fd[i] == p);
                } else {
                    assert(tail[i - fd.len()] == p);
                }
            }
        }
        if !o.spec_contains(s.last()) && s.last() == p {
            assert(tail[0] == p);
        }
    }
}

/// An observer's current view, and the view it had on the previous tick.
/// `old_view` is `None` on an observer's first tick.
#[derive(Clone, Copy, PartialEq, Eq, Structural, Debug)]
pub struct ObserverView {
    pub view: ChunkView,
    pub old_view: Option<ChunkView>,
}

impl ObserverView {
    pub open spec fn wf(self) -> bool {
        self.view.wf()
    }

    /// The chunk positions that are newly in view this tick: the whole view
    /// square on the first tick, the view diff on a later tick, and nothing
    /// at all when the view did not move.
    pub open spec fn delta_seq(self) -> Seq<ChunkPos> {
        match self.old_view {
            None => self.view.spec_positions(),
            Some(o) => if o == self.view {
                Seq::empty()
            } else {
                filter_out(self.view.spec_positions(), o)
            },
        }
    }

    /// Enumerates the chunk positions newly in view this tick.
    pub fn delta_positions(&self) -> (r: Vec<ChunkPos>)
        requires
            self.wf(),
        ensures
            r@ == self.delta_seq(),
    {
        match &self.old_view {
            None => self.view.positions(),
            Some(o) => {
                if *o == self.view {
                    Vec::new()
                } else {
                    let ps = self.view.positions();
                    let mut r: Vec<ChunkPos> = Vec::new();
                    let mut i: usize = 0;
                    while i < ps.len()
                        invariant
                            i <= ps@.len(),
                            ps@ == self.view.spec_positions(),
                            self.old_view == Some(*o),
                            r@ == filter_out(ps@.take(i as int), *o),
                        decreases ps@.len() - i,
                    {
                        let p = ps[i];
                        proof {
                            assert(ps@.take(i + 1).drop_last() =~= ps@.take(i as int));
                            assert(ps@.take(i + 1).last() == p);
                        }
                        if !o.contains(p) {
                            r.push(p);
                        }
                        i = i + 1;
                    }
                    proof {
                        assert(ps@.take(ps@.len() as int) =~= ps@);
                    }
                    r
                }
            },
        }
    }

    /// A position is in the delta exactly when it is in the current view and
    /// was not in the previous one.
    pub proof fn lemma_delta_contains(self, p: ChunkPos)
        requires
            self.wf(),
        ensures
            self.delta_seq().contains(p) <==> (self.view.spec_contains(p) && match self.old_view {
                None => true,
                Some(o) => !o.spec_contains(p),
            }),
    {
        self.view.lemma_positions_contains(p);
        match self.old_view {
            None => {},
            Some(o) => {
                lemma_filter_out_contains(self.view.spec_positions(), o, p);
            },
        }
    }
}

} // verus!
