//! The wave scheduler: at spawn ticks every spawner emits four hazards, at
//! despawn ticks all hazards are cleared and the scheduler is re-armed.
use crate::geometry::Point;
use vstd::prelude::*;

verus! {

/// Whether a new wave may be emitted.
#[derive(Clone, Copy, Debug, PartialEq, Eq, Structural)]
pub enum SpawnStatus {
    Ready,
    Standby,
}

/// A hazard in flight: its position at emission, its velocity, and the index
/// of the spawner that emitted it.
#[derive(Clone, Copy, Debug, PartialEq, Eq, Structural)]
pub struct Hazard {
    pub x: i64,
    pub y: i64,
    pub vx: i64,
    pub vy: i64,
    pub source: usize,
}

/// Elapsed time in milliseconds, rounded to whole seconds, halves up.
pub open spec fn rounded_seconds(ms: int) -> int {
    (ms + 500) / 1000
}

/// A spawn tick: more than a second has passed and the rounded second is even.
pub open spec fn spawn_due(ms: int) -> bool {
    ms > 1000 && rounded_seconds(ms) % 2 == 0
}

/// A despawn tick: more than a second has passed and the rounded second is a
/// multiple of three.
pub open spec fn despawn_due(ms: int) -> bool {
    ms > 1000 && rounded_seconds(ms) % 3 == 0
}

fn rounded_secs(elapsed_ms: u64) -> (r: u64)
    ensures
        r == rounded_seconds(elapsed_ms as int),
{
    let q = elapsed_ms / 1000;
    let rem = elapsed_ms % 1000;
    assert((elapsed_ms as int + 500) / 1000 == q + if rem >= 500 { 1int } else { 0 })
        by (nonlinear_arith)
        requires
            q == elapsed_ms as int / 1000,
            rem == elapsed_ms as int % 1000,
    ;
    if rem >= 500 {
        q + 1
    } else {
        q
    }
}

/// Whether hazards are due to be emitted at `elapsed_ms` milliseconds.
pub fn is_spawn_tick(elapsed_ms: u64) -> (r: bool)
    ensures
        r == spawn_due(elapsed_ms as int),
{
    elapsed_ms > 1000 && rounded_secs(elapsed_ms) % 2 == 0
}

/// Whether hazards are due to be cleared at `elapsed_ms` milliseconds.
pub fn is_despawn_tick(elapsed_ms: u64) -> (r: bool)
    ensures
        r == despawn_due(elapsed_ms as int),
{
    elapsed_ms > 1000 && rounded_secs(elapsed_ms) % 3 == 0
}

/// Step along the x axis for each of the four directions of emission:
/// right, left, up, down.
pub open spec fn dir_x(d: int) -> int {
    if d == 0 {
        1
    } else if d == 1 {
        -1
    } else {
        0
    }
}

/// Step along the y axis for each of the four directions of emission.
pub open spec fn dir_y(d: int) -> int {
    if d == 2 {
        1
    } else if d == 3 {
        -1
    } else {
        0
    }
}

/// `h` is the hazard that spawner number `src`, at `s`, emits in direction
/// `d`: `radius` away from it, moving outward at `speed`.
pub open spec fn emitted(h: Hazard, s: Point, src: int, d: int, radius: int, speed: int) -> bool {
    &&& h.x == s.x + radius * dir_x(d)
    &&& h.y == s.y + radius * dir_y(d)
    &&& h.vx == speed * dir_x(d)
    &&& h.vy == speed * dir_y(d)
    &&& h.source == src
}

/// `hs` is the wave of `spawners`: four hazards for each spawner, in the
/// order of the spawners and, for each, right, left, up, down.
pub open spec fn is_wave(hs: Seq<Hazard>, spawners: Seq<Point>, radius: int, speed: int) -> bool {
    &&& hs.len() == 4 * spawners.len()
    &&& forall|k: int|
        0 <= k < hs.len() ==> emitted(#[trigger] hs[k], spawners[k / 4], k / 4, k % 4, radius, speed)
}

/// A spawner whose emissions stay within the range of `i64`.
pub open spec fn emission_fits(s: Point, radius: int) -> bool {
    i64::MIN + radius <= s.x <= i64::MAX - radius && i64::MIN + radius <= s.y <= i64::MAX - radius
}

/// The abstract state of a scheduler.
pub struct WaveView {
    pub status: SpawnStatus,
    pub hazards: Seq<Hazard>,
    pub radius: int,
    pub speed: int,
}

/// The state after a despawn check at `ms`: on a despawn tick every hazard
/// is gone and the status is `Ready`; otherwise nothing changes.
pub open spec fn despawned(pre: WaveView, ms: int) -> WaveView {
    if despawn_due(ms) {
        WaveView { status: SpawnStatus::Ready, hazards: Seq::empty(), ..pre }
    } else {
        pre
    }
}

/// `post` follows `pre` by a spawn check at `ms`: on a spawn tick, with the
/// status `Ready` and at least one spawner, the status becomes `Standby` and
/// the wave of the spawners is all there is; otherwise nothing changes.
pub open spec fn spawned(pre: WaveView, ms: int, spawners: Seq<Point>, post: WaveView) -> bool {
    &&& post.radius == pre.radius
    &&& post.speed == pre.speed
    &&& if spawn_due(ms) && pre.status == SpawnStatus::Ready && spawners.len() > 0 {
        post.status == SpawnStatus::Standby && is_wave(post.hazards, spawners, pre.radius, pre.speed)
    } else {
        post == pre
    }
}

/// `post` follows `pre` by one update at `ms`: the despawn check first, then
/// the spawn check.
pub open spec fn updated(pre: WaveView, ms: int, spawners: Seq<Point>, post: WaveView) -> bool {
    spawned(despawned(pre, ms), ms, spawners, post)
}

/// A spawn tick with `k` spawners and the status `Ready` leaves exactly `4k`
/// hazards, each emitted by one of the spawners and standing `radius` away
/// from it along one axis.
pub proof fn lemma_wave_cardinality(
    pre: WaveView,
    ms: int,
    spawners: Seq<Point>,
    post: WaveView,
)
    requires
        pre.status == SpawnStatus::Ready,
        spawn_due(ms),
        spawners.len() > 0,
        spawned(pre, ms, spawners, post),
    ensures
        post.status == SpawnStatus::Standby,
        post.hazards.len() == 4 * spawners.len(),
        forall|k: int|
            0 <= k < post.hazards.len() ==> {
                let h = #[trigger] post.hazards[k];
                let s = spawners[h.source as int];
                &&& 0 <= h.source < spawners.len()
                &&& {
                    ||| h.y == s.y && (h.x == s.x + pre.radius || h.x == s.x - pre.radius)
                    ||| h.x == s.x && (h.y == s.y + pre.radius || h.y == s.y - pre.radius)
                }
            },
{
    assert forall|k: int| 0 <= k < post.hazards.len() implies {
        let h = #[trigger] post.hazards[k];
        let s = spawners[h.source as int];
        &&& 0 <= h.source < spawners.len()
        &&& {
            ||| h.y == s.y && (h.x == s.x + pre.radius || h.x == s.x - pre.radius)
            ||| h.x == s.x && (h.y == s.y + pre.radius || h.y == s.y - pre.radius)
        }
    } by {
        assert(emitted(post.hazards[k], spawners[k / 4], k / 4, k % 4, pre.radius, pre.speed));
    }
}

/// Two waves of the same spawners, with the same radius and speed, are the
/// same hazards.
pub proof fn lemma_wave_unique(
    a: Seq<Hazard>,
    b: Seq<Hazard>,
    spawners: Seq<Point>,
    radius: int,
    speed: int,
)
    requires
        is_wave(a, spawners, radius, speed),
        is_wave(b, spawners, radius, speed),
    ensures
        a == b,
{
    assert forall|k: int| 0 <= k < a.len() implies a[k] == b[k] by {
        assert(emitted(a[k], spawners[k / 4], k / 4, k % 4, radius, speed));
        assert(emitted(b[k], spawners[k / 4], k / 4, k % 4, radius, speed));
    }
    assert(a =~= b);
}

/// Once an update has sent a wave out, a later update at a spawn tick, with
/// the same spawners, adds no hazard: the scheduler stays `Standby` with the
/// hazards it had.
pub proof fn lemma_no_second_wave(
    s0: WaveView,
    t1: int,
    s1: WaveView,
    t2: int,
    s2: WaveView,
    spawners: Seq<Point>,
)
    requires
        s0.status == SpawnStatus::Ready,
        updated(s0, t1, spawners, s1),
        s1.status == SpawnStatus::Standby,
        spawn_due(t2),
        updated(s1, t2, spawners, s2),
    ensures
        s2.status == SpawnStatus::Standby,
        s2.hazards == s1.hazards,
{
    assert(is_wave(s1.hazards, spawners, s0.radius, s0.speed));
    if despawn_due(t2) {
        lemma_wave_unique(s1.hazards, s2.hazards, spawners, s0.radius, s0.speed);
    }
}

/// A despawn tick leaves no hazard and the status `Ready`, also when there was
/// no hazard to clear; a second despawn check then changes nothing.
pub proof fn lemma_despawn_idempotent(s: WaveView, t1: int, t2: int)
    requires
        despawn_due(t1),
    ensures
        despawned(s, t1).hazards.len() == 0,
        despawned(s, t1).status == SpawnStatus::Ready,
        s.hazards.len() == 0 ==> despawned(s, t1).hazards == s.hazards,
        despawned(despawned(s, t1), t2) == despawned(s, t1),
{
    if s.hazards.len() == 0 {
        assert(s.hazards =~= Seq::<Hazard>::empty());
    }
}

/// Emits and clears hazards around the spawners as time goes by.
pub struct WaveScheduler {
    status: SpawnStatus,
    hazards: Vec<Hazard>,
    radius: u32,
    speed: u32,
}

impl View for WaveScheduler {
    type V = WaveView;

    closed spec fn view(&self) -> WaveView {
        WaveView {
            status: self.status,
            hazards: self.hazards@,
            radius: self.radius as int,
            speed: self.speed as int,
        }
    }
}

impl WaveScheduler {
    /// While the scheduler is `Ready` no hazard is in flight.
    pub open spec fn wf(&self) -> bool {
        self@.status == SpawnStatus::Ready ==> self@.hazards.len() == 0
    }

    /// A scheduler that is `Ready` with no hazards, whose hazards appear
    /// `radius` away from their spawner and move at `speed`.
    pub fn new(radius: u32, speed: u32) -> (r: WaveScheduler)
        ensures
            r.wf(),
            r@.status == SpawnStatus::Ready,
            r@.hazards.len() == 0,
            r@.radius == radius,
            r@.speed == speed,
    {
        WaveScheduler { status: SpawnStatus::Ready, hazards: Vec::new(), radius, speed }
    }

    /// On a spawn tick, with the status `Ready` and at least one spawner,
    /// emits four hazards around every spawner and sets the status to
    /// `Standby`.
    pub fn spawn_zombies(&mut self, elapsed_ms: u64, spawners: &Vec<Point>)
        requires
            old(self).wf(),
            forall|i: int|
                0 <= i < spawners.len() ==> emission_fits(
                    #[trigger] spawners@[i],
                    old(self)@.radius,
                ),
        ensures
            final(self).wf(),
            spawned(old(self)@, elapsed_ms as int, spawners@, final(self)@),
    {
        if is_spawn_tick(elapsed_ms) && self.status == SpawnStatus::Ready && spawners.len() > 0 {
            self.status = SpawnStatus::Standby;
            let r = self.radius as i64;
            let v = self.speed as i64;
            let ghost radius = r as int;
            let ghost speed = v as int;
            let mut i: usize = 0;
            while i < spawners.len()
                invariant
                    i <= spawners.len(),
                    r == self.radius && v == self.speed,
                    radius == r && speed == v,
                    self.status == SpawnStatus::Standby,
                    self.hazards@.len() == 4 * i,
                    forall|j: int|
                        0 <= j < spawners.len() ==> emission_fits(#[trigger] spawners@[j], radius),
                    forall|k: int|
                        0 <= k < self.hazards@.len() ==> emitted(
                            #[trigger] self.hazards@[k],
                            spawners@[k / 4],
                            k / 4,
                            k % 4,
                            radius,
                            speed,
                        ),
                decreases spawners.len() - i,
            {
                let s = spawners[i];
                assert(emission_fits(spawners@[i as int], radius));
                assert(i64::MIN + r <= s.x <= i64::MAX - r && i64::MIN + r <= s.y <= i64::MAX - r);
                let ghost before = self.hazards@;
                self.hazards.push(Hazard { x: s.x + r, y: s.y, vx: v, vy: 0, source: i });
                self.hazards.push(Hazard { x: s.x - r, y: s.y, vx: -v, vy: 0, source: i });
                self.hazards.push(Hazard { x: s.x, y: s.y + r, vx: 0, vy: v, source: i });
                self.hazards.push(Hazard { x: s.x, y: s.y - r, vx: 0, vy: -v, source: i });
                assert forall|k: int| 0 <= k < self.hazards@.len() implies emitted(
                    #[trigger] self.hazards@[k],
                    spawners@[k / 4],
                    k / 4,
                    k % 4,
                    radius,
                    speed,
                ) by {
                    if k < before.len() {
                        assert(self.hazards@[k] == before[k]);
                    } else {
                        let d = k - 4 * i;
                        assert(k / 4 == i && k % 4 == d);
                        let hz = self.hazards@[k];
                        if d == 0 {
                            assert(hz.x == s.x + r && hz.y == s.y && hz.vx == v && hz.vy == 0);
                        } else if d == 1 {
                            assert(hz.x == s.x - r && hz.y == s.y && hz.vx == -v && hz.vy == 0);
                        } else if d == 2 {
                            assert(hz.x == s.x && hz.y == s.y + r && hz.vx == 0 && hz.vy == v);
                        } else {
                            assert(hz.x == s.x && hz.y == s.y - r && hz.vx == 0 && hz.vy == -v);
                        }
                        assert(hz.source == i);
                    }
                }
                i += 1;
            }
        }
    }

    /// On a despawn tick, clears every hazard and sets the status to `Ready`,
    /// whatever it was.
    pub fn despawn_zombies(&mut self, elapsed_ms: u64)
        requires
            old(self).wf(),
        ensures
            final(self).wf(),
            final(self)@ == despawned(old(self)@, elapsed_ms as int),
    {
        if is_despawn_tick(elapsed_ms) {
            self.status = SpawnStatus::Ready;
            self.hazards.clear();
            assert(self@.hazards =~= Seq::empty());
        }
    }

    /// One update at `elapsed_ms`: the despawn check, then the spawn check.
    pub fn update(&mut self, elapsed_ms: u64, spawners: &Vec<Point>)
        requires
            old(self).wf(),
            forall|i: int|
                0 <= i < spawners.len() ==> emission_fits(
                    #[trigger] spawners@[i],
                    old(self)@.radius,
                ),
        ensures
            final(self).wf(),
            updated(old(self)@, elapsed_ms as int, spawners@, final(self)@),
    {
        self.despawn_zombies(elapsed_ms);
        self.spawn_zombies(elapsed_ms, spawners);
    }

    pub fn status(&self) -> (r: SpawnStatus)
        ensures
            r == self@.status,
    {
        self.status
    }

    /// The hazards in flight.
    pub fn hazards(&self) -> (r: &Vec<Hazard>)
        ensures
            r@ == self@.hazards,
    {
        &self.hazards
    }

    pub fn radius(&self) -> (r: u32)
        ensures
            r == self@.radius,
    {
        self.radius
    }

    pub fn speed(&self) -> (r: u32)
        ensures
            r == self@.speed,
    {
        self.speed
    }
}

} // verus!
