use vstd::prelude::*;
use crate::config::Config;
use crate::heights::{height_at, HeightMap};
use crate::particle::{moved, step, Particle};

verus! {

/// The smallest `y` among the particles of `s` that stand in column `c`, or
/// `floor` where none does.
pub open spec fn lowest_top(s: Seq<Particle>, c: u32, floor: u32) -> u32
    decreases s.len(),
{
    if s.len() == 0 {
        floor
    } else {
        let rest = lowest_top(s.drop_last(), c, floor);
        if s.last().x == c && s.last().y < rest {
            s.last().y
        } else {
            rest
        }
    }
}

/// The heights `m` merged with the settled particles `s`: every column below
/// the canvas width takes the smaller of its recorded height and the top of
/// the particles in it; the entries of other columns are kept.
pub open spec fn merged_heights(m: Map<u32, u32>, s: Seq<Particle>, cfg: Config) -> Map<u32, u32> {
    Map::new(
        |c: u32| m.contains_key(c) || c < cfg.width,
        |c: u32|
            if c < cfg.width {
                let top = lowest_top(s, c, cfg.height);
                let cur = height_at(m, c, cfg.height);
                if top < cur {
                    top
                } else {
                    cur
                }
            } else {
                m[c]
            },
    )
}

/// The heights that `get_max_heights` starts from.
pub open spec fn start_heights(peaks: Option<HeightMap>) -> Map<u32, u32> {
    match peaks {
        Some(m) => m@,
        None => Map::empty(),
    }
}

/// Merges the tops of the settled particles into the recorded heights, column
/// by column over the canvas width.
pub fn get_max_heights(peaks: Option<HeightMap>, settled_particles: &[Particle], cfg: &Config) -> (r: HeightMap)
    ensures
        r@ == merged_heights(start_heights(peaks), settled_particles@, *cfg),
{
    let ghost base = start_heights(peaks);
    let ghost s = settled_particles@;
    let mut heights = match peaks {
        Some(m) => m,
        None => HeightMap::new(),
    };
    proof {
        assert(heights@ =~= base);
    }
    let mut x: u32 = 0;
    while x < cfg.width
        invariant
            s == settled_particles@,
            x <= cfg.width,
            forall|c: u32| #[trigger]
                heights@.contains_key(c) == (base.contains_key(c) || c < x),
            forall|c: u32|
                c < x ==> #[trigger] heights@[c] == merged_heights(base, s, *cfg)[c],
            forall|c: u32| x <= c && base.contains_key(c) ==> #[trigger] heights@[c] == base[c],
        decreases cfg.width - x,
    {
        let mut top: u32 = cfg.height;
        let mut i: usize = 0;
        while i < settled_particles.len()
            invariant
                s == settled_particles@,
                i <= s.len(),
                top == lowest_top(s.take(i as int), x, cfg.height),
            decreases s.len() - i,
        {
            proof {
                assert(s.take(i + 1).drop_last() =~= s.take(i as int));
            }
            let p = settled_particles[i];
            if p.x == x && p.y < top {
                top = p.y;
            }
            i = i + 1;
        }
        proof {
            assert(s.take(s.len() as int) =~= s);
        }
        heights.lower_to(x, top, cfg.height);
        x = x + 1;
    }
    proof {
        assert(heights@ =~= merged_heights(base, s, *cfg));
    }
    heights
}

/// Every particle of `a` advanced by one tick against the heights `m`.
pub open spec fn stepped_all(a: Seq<Particle>, m: Map<u32, u32>, cfg: Config) -> Seq<Particle> {
    a.map_values(|p: Particle| step(p, m, cfg))
}

/// The particles of `u` that have not settled, in order.
pub open spec fn still_active(u: Seq<Particle>) -> Seq<Particle> {
    u.filter(|p: Particle| !p.settled)
}

/// The particles of `u` that have settled, in order.
pub open spec fn came_to_rest(u: Seq<Particle>) -> Seq<Particle> {
    u.filter(|p: Particle| p.settled)
}

/// The state of a simulation as plain values.
pub struct Sand {
    pub active: Seq<Particle>,
    pub settled: Seq<Particle>,
    pub peaks: Map<u32, u32>,
}

/// The state after one tick: with nothing active nothing changes; otherwise
/// every active particle is advanced against the heights of the start of the
/// tick, those that settled move in order to the end of the settled ones, and
/// the heights take in every settled particle.
pub open spec fn ticked(s: Sand, cfg: Config) -> Sand {
    if s.active.len() == 0 {
        s
    } else {
        let u = stepped_all(s.active, s.peaks, cfg);
        let settled = s.settled + came_to_rest(u);
        Sand { active: still_active(u), settled, peaks: merged_heights(s.peaks, settled, cfg) }
    }
}

/// The particles of a simulation and the heights of the pile.
pub struct ParticleSet {
    /// Particles still falling or sliding.
    pub particles: Vec<Particle>,
    /// Particles at rest, in the order in which they settled.
    pub settled: Vec<Particle>,
    /// The recorded top of the pile in each column.
    pub peaks: HeightMap,
    /// The physical constants.
    pub config: Config,
}

impl View for ParticleSet {
    type V = Sand;

    open spec fn view(&self) -> Sand {
        Sand { active: self.particles@, settled: self.settled@, peaks: self.peaks@ }
    }
}

impl ParticleSet {
    /// The constants are valid and every active particle is unsettled.
    pub open spec fn wf(&self) -> bool {
        &&& self.config.wf()
        &&& forall|i: int| 0 <= i < self.particles@.len() ==> !(#[trigger] self.particles@[i]).settled
    }

    /// An empty simulation under the constants `config`.
    pub fn new(config: Config) -> (r: ParticleSet)
        requires
            config.wf(),
        ensures
            r.wf(),
            r.config == config,
            r@.active.len() == 0,
            r@.settled.len() == 0,
            r@.peaks.dom() == Set::<u32>::empty(),
            config.height >= 1 ==> within_floor(r@, config),
    {
        ParticleSet { particles: Vec::new(), settled: Vec::new(), peaks: HeightMap::new(), config }
    }

    /// Adds a particle at rest at cell `(x, y)` to the active ones.
    pub fn add_particle(&mut self, x: u32, y: u32)
        ensures
            final(self).config == old(self).config,
            final(self)@.active == old(self)@.active.push(Particle { x, y, vx: 0, vy: 0, settled: false }),
            final(self)@.settled == old(self)@.settled,
            final(self)@.peaks == old(self)@.peaks,
            old(self).wf() ==> final(self).wf(),
            within_floor(old(self)@, old(self).config) && y < old(self).config.height ==> within_floor(
                final(self)@,
                final(self).config,
            ),
    {
        self.particles.push(Particle::new(x, y));
    }

    /// Advances the simulation by one tick.
    pub fn update(&mut self)
        requires
            old(self).wf(),
        ensures
            final(self).wf(),
            final(self).config == old(self).config,
            final(self)@ == ticked(old(self)@, old(self).config),
            final(self)@.active.len() + final(self)@.settled.len() == old(self)@.active.len()
                + old(self)@.settled.len(),
            within_floor(old(self)@, old(self).config) ==> within_floor(final(self)@, final(self).config),
            forall|c: u32|
                height_at(final(self)@.peaks, c, old(self).config.height) <= height_at(
                    old(self)@.peaks,
                    c,
                    old(self).config.height,
                ),
    {
        if self.particles.len() == 0 {
            return;
        }
        let ghost u = stepped_all(self.particles@, self.peaks@, self.config);
        let ghost settled0 = self.settled@;
        let mut still: Vec<Particle> = Vec::new();
        let mut i: usize = 0;
        while i < self.particles.len()
            invariant
                0 <= i <= self.particles@.len(),
                self.config == old(self).config,
                self.particles@ == old(self).particles@,
                self.peaks@ == old(self).peaks@,
                u == stepped_all(self.particles@, self.peaks@, self.config),
                self.config.wf(),
                still@ == still_active(u.take(i as int)),
                self.settled@ == settled0 + came_to_rest(u.take(i as int)),
            decreases self.particles@.len() - i,
        {
            proof {
                assert(u.take(i + 1).drop_last() =~= u.take(i as int));
                reveal(Seq::filter);
            }
            let mut p = self.particles[i];
            p.update(&self.peaks, &self.config);
            if p.settled {
                self.settled.push(p);
            } else {
                still.push(p);
            }
            proof {
                assert(u.take(i + 1).last() == p);
            }
            i = i + 1;
        }
        proof {
            assert(u.take(u.len() as int) =~= u);
            lemma_partition_len(u);
            broadcast use vstd::seq_lib::group_filter_ensures;

        }
        self.particles = still;
        let mut prev = HeightMap::new();
        std::mem::swap(&mut prev, &mut self.peaks);
        self.peaks = get_max_heights(Some(prev), self.settled.as_slice(), &self.config);
        proof {
            lemma_merge_never_raises(old(self)@.peaks, self.settled@, self.config);
            if within_floor(old(self)@, old(self).config) {
                lemma_tick_within_floor(old(self)@, old(self).config);
            }
        }
    }
}

/// Splitting a sequence into its settled and its unsettled particles keeps
/// every particle.
pub proof fn lemma_partition_len(u: Seq<Particle>)
    ensures
        still_active(u).len() + came_to_rest(u).len() == u.len(),
    decreases u.len(),
{
    reveal(Seq::filter);
    if u.len() > 0 {
        lemma_partition_len(u.drop_last());
    }
}

/// Merging settled particles into the heights never lowers the pile: no
/// column's height grows.
pub proof fn lemma_merge_never_raises(m: Map<u32, u32>, s: Seq<Particle>, cfg: Config)
    ensures
        forall|c: u32|
            height_at(merged_heights(m, s, cfg), c, cfg.height) <= height_at(m, c, cfg.height),
{
}

/// The pile stays on the canvas: the floor is at least one row down, no
/// recorded height lies below it, every settled particle lies above it, and so
/// does every active particle at rest.
pub open spec fn within_floor(s: Sand, cfg: Config) -> bool {
    &&& cfg.height >= 1
    &&& forall|c: u32| #[trigger] s.peaks.contains_key(c) ==> s.peaks[c] <= cfg.height
    &&& forall|i: int| 0 <= i < s.settled.len() ==> (#[trigger] s.settled[i]).y < cfg.height
    &&& forall|i: int|
        0 <= i < s.active.len() && (#[trigger] s.active[i]).vy == 0 ==> s.active[i].y < cfg.height
}

/// A tick keeps every settled particle above the floor: no settled particle's
/// `y` exceeds `height - 1`, given that particles were spawned above the floor.
pub proof fn lemma_tick_within_floor(s: Sand, cfg: Config)
    requires
        cfg.wf(),
        forall|i: int| 0 <= i < s.active.len() ==> !(#[trigger] s.active[i]).settled,
        within_floor(s, cfg),
    ensures
        within_floor(ticked(s, cfg), cfg),
{
    if s.active.len() > 0 {
        let u = stepped_all(s.active, s.peaks, cfg);
        assert forall|j: int| 0 <= j < u.len() && ((#[trigger] u[j]).settled || u[j].vy == 0) implies u[j].y
            < cfg.height by {
            let p = s.active[j];
            assert(p.vy == 0 ==> moved(p.y, p.vy as int) == p.y);
        }
        let t = ticked(s, cfg);
        let rest = came_to_rest(u);
        let still = still_active(u);
        assert forall|i: int| 0 <= i < rest.len() implies (#[trigger] rest[i]).y < cfg.height by {
            broadcast use vstd::seq_lib::group_filter_ensures;

            assert(rest.contains(rest[i]));
            u.lemma_filter_contains_rev(|p: Particle| p.settled, rest[i]);
        }
        assert forall|i: int| 0 <= i < still.len() && (#[trigger] still[i]).vy == 0 implies still[i].y
            < cfg.height by {
            assert(still.contains(still[i]));
            u.lemma_filter_contains_rev(|p: Particle| !p.settled, still[i]);
        }
        assert forall|i: int| 0 <= i < t.settled.len() implies (#[trigger] t.settled[i]).y < cfg.height by {
            if i >= s.settled.len() {
                assert(t.settled[i] == rest[i - s.settled.len()]);
            }
        }
    }
}

/// `a` and `b` hold the same particles, whatever their order.
pub open spec fn same_members(a: Seq<Particle>, b: Seq<Particle>) -> bool {
    forall|q: Particle| a.contains(q) <==> b.contains(q)
}

/// The top of column `c` is at most the floor, at most the `y` of every
/// particle in the column, and is the floor or the `y` of one of them.
proof fn lemma_lowest_top_bounds(s: Seq<Particle>, c: u32, floor: u32)
    ensures
        lowest_top(s, c, floor) <= floor,
        forall|i: int| 0 <= i < s.len() && (#[trigger] s[i]).x == c ==> lowest_top(s, c, floor) <= s[i].y,
        lowest_top(s, c, floor) == floor || exists|i: int|
            0 <= i < s.len() && (#[trigger] s[i]).x == c && s[i].y == lowest_top(s, c, floor),
    decreases s.len(),
{
    if s.len() > 0 {
        let r = s.drop_last();
        lemma_lowest_top_bounds(r, c, floor);
        assert forall|i: int| 0 <= i < s.len() && (#[trigger] s[i]).x == c implies lowest_top(s, c, floor) <= s[i].y by {
            if i < r.len() {
                assert(s[i] == r[i]);
            }
        }
        if lowest_top(s, c, floor) != floor && lowest_top(s, c, floor) != s.last().y {
            let i = choose|i: int| 0 <= i < r.len() && (#[trigger] r[i]).x == c && r[i].y == lowest_top(r, c, floor);
            assert(s[i] == r[i]);
        }
    }
}

/// Column tops depend only on which particles have settled.
proof fn lemma_lowest_top_members(s: Seq<Particle>, t: Seq<Particle>, c: u32, floor: u32)
    requires
        same_members(s, t),
    ensures
        lowest_top(s, c, floor) == lowest_top(t, c, floor),
{
    lemma_lowest_top_bounds(s, c, floor);
    lemma_lowest_top_bounds(t, c, floor);
    let a = lowest_top(s, c, floor);
    let b = lowest_top(t, c, floor);
    if a != floor {
        let i = choose|i: int| 0 <= i < s.len() && (#[trigger] s[i]).x == c && s[i].y == a;
        assert(s.contains(s[i]));
        let j = choose|j: int| 0 <= j < t.len() && t[j] == s[i];
        assert(b <= a);
    }
    if b != floor {
        let j = choose|j: int| 0 <= j < t.len() && (#[trigger] t[j]).x == c && t[j].y == b;
        assert(t.contains(t[j]));
        let i = choose|i: int| 0 <= i < s.len() && s[i] == t[j];
        assert(a <= b);
    }
}

/// Stepping every particle keeps two sequences with the same particles alike.
proof fn lemma_stepped_members(a: Seq<Particle>, b: Seq<Particle>, m: Map<u32, u32>, cfg: Config)
    requires
        same_members(a, b),
    ensures
        same_members(stepped_all(a, m, cfg), stepped_all(b, m, cfg)),
{
    let sa = stepped_all(a, m, cfg);
    let sb = stepped_all(b, m, cfg);
    assert forall|q: Particle| sa.contains(q) implies sb.contains(q) by {
        let i = choose|i: int| 0 <= i < sa.len() && sa[i] == q;
        assert(a.contains(a[i]));
        let j = choose|j: int| 0 <= j < b.len() && b[j] == a[i];
        assert(sb[j] == q);
    }
    assert forall|q: Particle| sb.contains(q) implies sa.contains(q) by {
        let j = choose|j: int| 0 <= j < sb.len() && sb[j] == q;
        assert(b.contains(b[j]));
        let i = choose|i: int| 0 <= i < a.len() && a[i] == b[j];
        assert(sa[i] == q);
    }
}

/// Filtering keeps two sequences with the same particles alike.
proof fn lemma_filter_members(a: Seq<Particle>, b: Seq<Particle>, pred: spec_fn(Particle) -> bool)
    requires
        same_members(a, b),
    ensures
        same_members(a.filter(pred), b.filter(pred)),
{
    broadcast use vstd::seq_lib::group_filter_ensures;

    assert forall|q: Particle| a.filter(pred).contains(q) implies b.filter(pred).contains(q) by {
        a.lemma_filter_contains_rev(pred, q);
        let j = choose|j: int| 0 <= j < b.len() && b[j] == q;
        let i = choose|i: int| 0 <= i < a.filter(pred).len() && a.filter(pred)[i] == q;
        assert(pred(b[j]));
    }
    assert forall|q: Particle| b.filter(pred).contains(q) implies a.filter(pred).contains(q) by {
        b.lemma_filter_contains_rev(pred, q);
        let i = choose|i: int| 0 <= i < a.len() && a[i] == q;
        let j = choose|j: int| 0 <= j < b.filter(pred).len() && b.filter(pred)[j] == q;
        assert(pred(a[i]));
    }
}

/// Joining keeps sequences with the same particles alike.
proof fn lemma_concat_members(a: Seq<Particle>, b: Seq<Particle>, c: Seq<Particle>, d: Seq<Particle>)
    requires
        same_members(a, b),
        same_members(c, d),
    ensures
        same_members(a + c, b + d),
{
    assert forall|q: Particle| (a + c).contains(q) <==> a.contains(q) || c.contains(q) by {
        if (a + c).contains(q) {
            let i = choose|i: int| 0 <= i < (a + c).len() && (a + c)[i] == q;
            if i >= a.len() {
                assert(c[i - a.len()] == q);
            }
        }
        if c.contains(q) {
            let i = choose|i: int| 0 <= i < c.len() && c[i] == q;
            assert((a + c)[a.len() + i] == q);
        }
        if a.contains(q) {
            let i = choose|i: int| 0 <= i < a.len() && a[i] == q;
            assert((a + c)[i] == q);
        }
    }
    assert forall|q: Particle| (b + d).contains(q) <==> b.contains(q) || d.contains(q) by {
        if (b + d).contains(q) {
            let i = choose|i: int| 0 <= i < (b + d).len() && (b + d)[i] == q;
            if i >= b.len() {
                assert(d[i - b.len()] == q);
            }
        }
        if d.contains(q) {
            let i = choose|i: int| 0 <= i < d.len() && d[i] == q;
            assert((b + d)[b.len() + i] == q);
        }
        if b.contains(q) {
            let i = choose|i: int| 0 <= i < b.len() && b[i] == q;
            assert((b + d)[i] == q);
        }
    }    assert forall|q: Particle| (a + c).contains(q) <==> (b + d).contains(q) by {
        assert(a.contains(q) <==> b.contains(q));
        assert(c.contains(q) <==> d.contains(q));
    }
}

/// A tick's outcome does not depend on the order in which particles are
/// held: from states with the same active particles, the same settled ones
/// and the same heights, one tick gives again the same active and settled
/// particles and the very same heights. With equal states it gives equal
/// states, so equal runs end alike.
pub proof fn lemma_tick_order_independent(a: Sand, b: Sand, cfg: Config)
    requires
        same_members(a.active, b.active),
        same_members(a.settled, b.settled),
        a.peaks == b.peaks,
    ensures
        same_members(ticked(a, cfg).active, ticked(b, cfg).active),
        same_members(ticked(a, cfg).settled, ticked(b, cfg).settled),
        ticked(a, cfg).peaks == ticked(b, cfg).peaks,
        a == b ==> ticked(a, cfg) == ticked(b, cfg),
{
    if a.active.len() == 0 && b.active.len() > 0 {
        assert(b.active.contains(b.active[0]));
    }
    if b.active.len() == 0 && a.active.len() > 0 {
        assert(a.active.contains(a.active[0]));
    }
    if a.active.len() > 0 && b.active.len() > 0 {
        let ua = stepped_all(a.active, a.peaks, cfg);
        let ub = stepped_all(b.active, b.peaks, cfg);
        lemma_stepped_members(a.active, b.active, a.peaks, cfg);
        lemma_filter_members(ua, ub, |p: Particle| !p.settled);
        lemma_filter_members(ua, ub, |p: Particle| p.settled);
        lemma_concat_members(a.settled, b.settled, came_to_rest(ua), came_to_rest(ub));
        let sa = a.settled + came_to_rest(ua);
        let sb = b.settled + came_to_rest(ub);
        assert forall|c: u32| c < cfg.width implies lowest_top(sa, c, cfg.height) == lowest_top(sb, c, cfg.height) by {
            lemma_lowest_top_members(sa, sb, c, cfg.height);
        }
        assert(merged_heights(a.peaks, sa, cfg) =~= merged_heights(b.peaks, sb, cfg));
    }
}

} // verus!
