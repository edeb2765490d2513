//! Random placement of obstacle and spawner sites that keep apart from each
//! other and from reserved points.
use crate::geometry::{
    blocked, capacity, clashes, inner_interval, is_invalid_spot, lemma_capacity, too_close, within,
    Point, Rect,
};
use rand::rngs::StdRng;
use rand::Rng;
use vstd::prelude::*;

verus! {

/// rand's seedable generator `rngs::StdRng`, carried through the allocation as
/// an opaque value so that a fixed seed gives a reproducible level.
#[verifier::external_type_specification]
#[verifier::external_body]
pub struct ExStdRng(StdRng);

/// Relies on rand's `Rng::gen_range` over an inclusive range: it panics only
/// when the range is empty, and otherwise returns a value inside it.
#[verifier::external_body]
fn draw_between(rng: &mut StdRng, lo: i64, hi: i64) -> (r: i64)
    requires
        lo <= hi,
    ensures
        lo <= r <= hi,
{
    rng.gen_range(lo..=hi)
}

/// What a placed site does in the level.
#[derive(Clone, Copy, Debug, PartialEq, Eq, Structural)]
pub enum Role {
    Obstacle,
    Spawner,
}

/// A placed site: a fixed point with its role.
#[derive(Clone, Copy, Debug, PartialEq, Eq, Structural)]
pub struct Site {
    pub pos: Point,
    pub role: Role,
}

pub open spec fn positions(sites: Seq<Site>) -> Seq<Point> {
    sites.map_values(|s: Site| s.pos)
}

/// No two sites clash, and no site clashes with a reserved point.
pub open spec fn separated(sites: Seq<Site>, reserved: Seq<Point>, sep: int) -> bool {
    &&& forall|i: int, j: int|
        0 <= i < sites.len() && 0 <= j < sites.len() && i != j ==> !clashes(
            #[trigger] sites[i].pos,
            #[trigger] sites[j].pos,
            sep,
        )
    &&& forall|i: int, k: int|
        0 <= i < sites.len() && 0 <= k < reserved.len() ==> !clashes(
            #[trigger] reserved[k],
            #[trigger] sites[i].pos,
            sep,
        )
}

/// Every site lies in `region` with the margin `h` kept on each side.
pub open spec fn all_within(sites: Seq<Site>, region: Rect, h: int) -> bool {
    forall|i: int| 0 <= i < sites.len() ==> within(region, h, #[trigger] sites[i].pos)
}

/// Whether `region` with the margin `h` kept on each side holds any point.
pub open spec fn has_room(region: Rect, h: int) -> bool {
    region.min_x + h <= region.max_x - h && region.min_y + h <= region.max_y - h
}

/// The role that a coin flip gives a site: 1 makes a spawner.
pub open spec fn role_of(coin: int) -> Role {
    if coin == 1 {
        Role::Spawner
    } else {
        Role::Obstacle
    }
}

/// The role that the coin flip `coin` gives a site.
pub fn role_for(coin: i64) -> (r: Role)
    ensures
        r == role_of(coin as int),
{
    if coin == 1 {
        Role::Spawner
    } else {
        Role::Obstacle
    }
}

/// The first of `candidates` that clashes with none of `occupied`.
pub open spec fn first_clear(occupied: Seq<Point>, candidates: Seq<Point>, sep: int) -> Option<
    Point,
>
    decreases candidates.len(),
{
    if candidates.len() == 0 {
        None
    } else if !blocked(occupied, candidates[0], sep) {
        Some(candidates[0])
    } else {
        first_clear(occupied, candidates.subrange(1, candidates.len() as int), sep)
    }
}

/// Every one of `candidates` clashes with some occupied point.
pub open spec fn all_blocked(occupied: Seq<Point>, candidates: Seq<Point>, sep: int) -> bool {
    forall|j: int| 0 <= j < candidates.len() ==> blocked(occupied, #[trigger] candidates[j], sep)
}

/// The first clear candidate is one of the candidates, clear, and preceded only
/// by blocked ones; there is none exactly when all are blocked.
pub proof fn lemma_first_clear(occupied: Seq<Point>, candidates: Seq<Point>, sep: int)
    ensures
        first_clear(occupied, candidates, sep) is None <==> all_blocked(occupied, candidates, sep),
        first_clear(occupied, candidates, sep) matches Some(p) ==> {
            &&& !blocked(occupied, p, sep)
            &&& exists|i: int| 0 <= i < candidates.len() && candidates[i] == p
        },
    decreases candidates.len(),
{
    if candidates.len() > 0 {
        let rest = candidates.subrange(1, candidates.len() as int);
        lemma_first_clear(occupied, rest, sep);
        assert forall|j: int| 0 <= j < rest.len() implies rest[j] == candidates[j + 1] by {}
        if all_blocked(occupied, rest, sep) && blocked(occupied, candidates[0], sep) {
            assert forall|j: int| 0 <= j < candidates.len() implies blocked(
                occupied,
                #[trigger] candidates[j],
                sep,
            ) by {
                if j > 0 {
                    assert(candidates[j] == rest[j - 1]);
                }
            }
        }
        if let Some(p) = first_clear(occupied, rest, sep) {
            if blocked(occupied, candidates[0], sep) {
                let i = choose|i: int| 0 <= i < rest.len() && rest[i] == p;
                assert(candidates[i + 1] == p);
            }
        }
    }
}

/// The sites and occupied points after one site's turn: the first clear
/// candidate, if any, becomes a site with the coin's role and is occupied.
pub open spec fn site_step(
    sites: Seq<Site>,
    occupied: Seq<Point>,
    candidates: Seq<Point>,
    coin: int,
    sep: int,
) -> (Seq<Site>, Seq<Point>) {
    match first_clear(occupied, candidates, sep) {
        Some(p) => (sites.push(Site { pos: p, role: role_of(coin) }), occupied.push(p)),
        None => (sites, occupied),
    }
}

/// The sites placed from the candidates drawn for each site in turn, and the
/// coin flipped for it; the occupied points are the reserved ones and the
/// sites placed so far, of both roles.
pub open spec fn placed_sites(
    reserved: Seq<Point>,
    sep: int,
    attempts: Seq<Seq<Point>>,
    coins: Seq<i64>,
) -> Seq<Site>
    decreases attempts.len(),
{
    if attempts.len() == 0 {
        Seq::empty()
    } else {
        let prev = placed_sites(reserved, sep, attempts.drop_last(), coins.drop_last());
        site_step(prev, reserved + positions(prev), attempts.last(), coins.last() as int, sep).0
    }
}

/// Every candidate drawn for site `i` clashed with a reserved point or with a
/// site placed before it.
pub open spec fn attempt_failed(
    reserved: Seq<Point>,
    sep: int,
    attempts: Seq<Seq<Point>>,
    coins: Seq<i64>,
    i: int,
) -> bool {
    let prev = placed_sites(reserved, sep, attempts.subrange(0, i), coins.subrange(0, i));
    all_blocked(reserved + positions(prev), attempts[i], sep)
}

/// At most one site is placed per turn, and a site is missing only where
/// every candidate drawn for it was blocked.
pub proof fn lemma_skipped_only_when_all_blocked(
    reserved: Seq<Point>,
    sep: int,
    attempts: Seq<Seq<Point>>,
    coins: Seq<i64>,
)
    requires
        coins.len() == attempts.len(),
    ensures
        placed_sites(reserved, sep, attempts, coins).len() <= attempts.len(),
        placed_sites(reserved, sep, attempts, coins).len() < attempts.len() ==> exists|i: int|
            0 <= i < attempts.len() && #[trigger] attempt_failed(reserved, sep, attempts, coins, i),
    decreases attempts.len(),
{
    if attempts.len() > 0 {
        let n = attempts.len() - 1;
        let a = attempts.drop_last();
        let c = coins.drop_last();
        lemma_skipped_only_when_all_blocked(reserved, sep, a, c);
        let prev = placed_sites(reserved, sep, a, c);
        lemma_first_clear(reserved + positions(prev), attempts.last(), sep);
        if placed_sites(reserved, sep, attempts, coins).len() < attempts.len() {
            if prev.len() < a.len() {
                let i = choose|i: int| 0 <= i < a.len() && #[trigger] attempt_failed(reserved, sep, a, c, i);
                assert(a.subrange(0, i) =~= attempts.subrange(0, i));
                assert(c.subrange(0, i) =~= coins.subrange(0, i));
                assert(a[i] == attempts[i]);
                assert(attempt_failed(reserved, sep, attempts, coins, i));
            } else {
                assert(attempts.subrange(0, n) =~= a);
                assert(coins.subrange(0, n) =~= c);
                assert(attempt_failed(reserved, sep, attempts, coins, n));
            }
        }
    }
}

/// Takes the first of `candidates` that clashes with none of the `occupied`
/// points as a site, with the role that `coin` gives it, and occupies it too.
/// Returns whether a site was taken: it is, exactly when some candidate is
/// clear.
pub fn place_site(
    sites: &mut Vec<Site>,
    occupied: &mut Vec<Point>,
    candidates: &Vec<Point>,
    coin: i64,
    sep: u32,
) -> (placed: bool)
    ensures
        placed == (first_clear(old(occupied)@, candidates@, sep as int) is Some),
        placed == exists|i: int|
            0 <= i < candidates.len() && !blocked(old(occupied)@, #[trigger] candidates@[i], sep as int),
        (final(sites)@, final(occupied)@) == site_step(
            old(sites)@,
            old(occupied)@,
            candidates@,
            coin as int,
            sep as int,
        ),
{
    proof {
        lemma_first_clear(occupied@, candidates@, sep as int);
    }
    let ghost occ = occupied@;
    let ghost first = first_clear(occ, candidates@, sep as int);
    assert(candidates@.subrange(0, candidates.len() as int) =~= candidates@);
    let mut i: usize = 0;
    while i < candidates.len()
        invariant
            i <= candidates.len(),
            first_clear(occupied@, candidates@, sep as int) == first_clear(
                occupied@,
                candidates@.subrange(i as int, candidates.len() as int),
                sep as int,
            ),
            forall|j: int| 0 <= j < i ==> blocked(occupied@, #[trigger] candidates@[j], sep as int),
            occupied@ == occ,
            sites@ == old(sites)@,
            occ == old(occupied)@,
            first == first_clear(occ, candidates@, sep as int),
            first is None <==> all_blocked(occ, candidates@, sep as int),
        decreases candidates.len() - i,
    {
        let c = candidates[i];
        let ghost rest = candidates@.subrange(i as int, candidates.len() as int);
        assert(rest[0] == c);
        if !is_invalid_spot(occupied, c, sep) {
            assert(first_clear(occ, rest, sep as int) == Some(c));
            assert(first == Some(c));
            sites.push(Site { pos: c, role: role_for(coin) });
            occupied.push(c);
            return true;
        }
        assert(rest.subrange(1, rest.len() as int) =~= candidates@.subrange(
            i + 1,
            candidates.len() as int,
        ));
        i += 1;
    }
    assert(candidates@.subrange(i as int, candidates.len() as int) =~= Seq::<Point>::empty());
    assert(first is None);
    assert(all_blocked(occ, candidates@, sep as int));
    false
}

/// Draws `n` candidates uniformly from `[x0, x1] × [y0, y1]`.
fn draw_candidates(rng: &mut StdRng, x0: i64, x1: i64, y0: i64, y1: i64, n: usize) -> (r: Vec<
    Point,
>)
    requires
        x0 <= x1,
        y0 <= y1,
    ensures
        r.len() == n,
        forall|j: int| 0 <= j < n ==> x0 <= (#[trigger] r@[j]).x <= x1 && y0 <= r@[j].y <= y1,
{
    let mut r: Vec<Point> = Vec::new();
    let mut j: usize = 0;
    while j < n
        invariant
            j <= n,
            x0 <= x1 && y0 <= y1,
            r.len() == j,
            forall|k: int| 0 <= k < j ==> x0 <= (#[trigger] r@[k]).x <= x1 && y0 <= r@[k].y <= y1,
        decreases n - j,
    {
        let x = draw_between(rng, x0, x1);
        let y = draw_between(rng, y0, y1);
        r.push(Point { x, y });
        j += 1;
    }
    r
}

proof fn lemma_push_keeps_separation(
    sites: Seq<Site>,
    reserved: Seq<Point>,
    candidate: Point,
    role: Role,
    sep: int,
)
    requires
        separated(sites, reserved, sep),
        !blocked(reserved + positions(sites), candidate, sep),
    ensures
        separated(sites.push(Site { pos: candidate, role }), reserved, sep),
{
    let occ = reserved + positions(sites);
    let all = sites.push(Site { pos: candidate, role });
    assert forall|k: int| 0 <= k < reserved.len() implies !clashes(reserved[k], candidate, sep) by {
        assert(occ[k] == reserved[k]);
    }
    assert forall|i: int| 0 <= i < sites.len() implies !clashes(sites[i].pos, candidate, sep) by {
        assert(occ[reserved.len() + i] == sites[i].pos);
    }
    assert forall|i: int, j: int|
        0 <= i < all.len() && 0 <= j < all.len() && i != j implies !clashes(
            #[trigger] all[i].pos,
            #[trigger] all[j].pos,
            sep,
        ) by {
        if i < sites.len() && j < sites.len() {
            assert(all[i] == sites[i] && all[j] == sites[j]);
        } else if i < sites.len() {
            assert(all[i] == sites[i]);
        } else if j < sites.len() {
            assert(all[j] == sites[j]);
        }
    }
    assert forall|i: int, k: int| 0 <= i < all.len() && 0 <= k < reserved.len() implies !clashes(
        #[trigger] reserved[k],
        #[trigger] all[i].pos,
        sep,
    ) by {
        if i < sites.len() {
            assert(all[i] == sites[i]);
        }
    }
}

/// `attempts` and `coins` are what `allocate` draws: for each of `count`
/// sites a coin of 0 or 1 and `retry_limit` candidates in the region with
/// its margin, or none when the region has no room.
pub open spec fn drawn_for(
    attempts: Seq<Seq<Point>>,
    coins: Seq<i64>,
    count: int,
    retry_limit: int,
    region: Rect,
    h: int,
) -> bool {
    &&& attempts.len() == count
    &&& coins.len() == count
    &&& forall|i: int|
        0 <= i < count ==> (#[trigger] attempts[i]).len() == if has_room(region, h) {
            retry_limit
        } else {
            0
        }
    &&& forall|i: int, j: int|
        0 <= i < count && 0 <= j < attempts[i].len() ==> within(region, h, #[trigger] attempts[i][j])
    &&& forall|i: int| 0 <= i < count ==> 0 <= #[trigger] coins[i] <= 1
}

/// Places up to `count` sites in `region`, each kept `half_extent` away from
/// the region's edges. For each site in turn it flips a coin for the role
/// (1 makes a spawner) and draws `retry_limit` candidates uniformly from the
/// region; the first candidate that clashes (see `is_invalid_spot`) with no
/// reserved point and no site placed before becomes the site. Where all of
/// them clash, the site is skipped.
pub fn allocate(
    count: usize,
    region: Rect,
    reserved: &Vec<Point>,
    min_separation: u32,
    retry_limit: usize,
    half_extent: u32,
    rng: &mut StdRng,
) -> (sites: Vec<Site>)
    ensures
        exists|attempts: Seq<Seq<Point>>, coins: Seq<i64>|
            drawn_for(
                attempts,
                coins,
                count as int,
                retry_limit as int,
                region,
                half_extent as int,
            ) && sites@ == placed_sites(reserved@, min_separation as int, attempts, coins),
        sites.len() <= count,
        retry_limit == 0 ==> sites.len() == 0,
        !has_room(region, half_extent as int) ==> sites.len() == 0,
        all_within(sites@, region, half_extent as int),
        separated(sites@, reserved@, min_separation as int),
        min_separation > 0 ==> sites.len() <= capacity(
            region,
            half_extent as int,
            min_separation as int,
        ),
        min_separation > 0 && count > capacity(region, half_extent as int, min_separation as int)
            ==> sites.len() < count,
        count > 0 && retry_limit > 0 && reserved.len() == 0 && has_room(region, half_extent as int)
            ==> sites.len() > 0,
{
    let sep = min_separation;
    let ghost h = half_extent as int;
    let ghost sepi = sep as int;
    let xr = inner_interval(region.min_x, region.max_x, half_extent);
    let yr = inner_interval(region.min_y, region.max_y, half_extent);
    let room: Option<(i64, i64, i64, i64)> = match (xr, yr) {
        (Some((x0, x1)), Some((y0, y1))) => Some((x0, x1, y0, y1)),
        _ => None,
    };
    let mut sites: Vec<Site> = Vec::new();
    let mut occupied: Vec<Point> = Vec::new();
    let mut k: usize = 0;
    while k < reserved.len()
        invariant
            k <= reserved.len(),
            occupied@ == reserved@.subrange(0, k as int),
        decreases reserved.len() - k,
    {
        occupied.push(reserved[k]);
        k += 1;
    }
    assert(occupied@ == reserved@ + positions(sites@));
    let ghost mut attempts: Seq<Seq<Point>> = Seq::empty();
    let ghost mut coins: Seq<i64> = Seq::empty();
    let mut c: usize = 0;
    while c < count
        invariant
            c <= count,
            h == half_extent as int,
            sepi == sep as int,
            room is Some <==> has_room(region, h),
            room matches Some((x0, x1, y0, y1)) ==> x0 == region.min_x + h && x1 == region.max_x
                - h && y0 == region.min_y + h && y1 == region.max_y - h,
            drawn_for(attempts, coins, c as int, retry_limit as int, region, h),
            sites@ == placed_sites(reserved@, sepi, attempts, coins),
            occupied@ == reserved@ + positions(sites@),
            sites.len() <= c,
            all_within(sites@, region, h),
            separated(sites@, reserved@, sepi),
            retry_limit == 0 ==> sites.len() == 0,
            !has_room(region, h) ==> sites.len() == 0,
            c > 0 && retry_limit > 0 && reserved.len() == 0 && has_room(region, h) ==> sites.len()
                > 0,
        decreases count - c,
    {
        let coin = draw_between(rng, 0, 1);
        let candidates = match room {
            Some((x0, x1, y0, y1)) => draw_candidates(rng, x0, x1, y0, y1, retry_limit),
            None => Vec::new(),
        };
        let ghost before = sites@;
        let ghost occ = occupied@;
        proof {
            lemma_first_clear(occ, candidates@, sepi);
        }
        let placed = place_site(&mut sites, &mut occupied, &candidates, coin, sep);
        proof {
            if let Some(p) = first_clear(occ, candidates@, sepi) {
                lemma_push_keeps_separation(before, reserved@, p, role_of(coin as int), sepi);
                assert(positions(sites@) =~= positions(before).push(p));
                let j = choose|j: int| 0 <= j < candidates@.len() && candidates@[j] == p;
                assert(within(region, h, candidates@[j]));
            }
            if before.len() == 0 && reserved.len() == 0 && retry_limit > 0 && has_room(region, h) {
                assert(occ.len() == 0);
                assert(!blocked(occ, candidates@[0], sepi));
            }
            let na = attempts.push(candidates@);
            let nc = coins.push(coin);
            assert(na.drop_last() =~= attempts);
            assert(nc.drop_last() =~= coins);
            assert forall|i: int, j: int|
                0 <= i < c + 1 && 0 <= j < na[i].len() implies within(
                region,
                h,
                #[trigger] na[i][j],
            ) by {
                if i < c {
                    assert(na[i] == attempts[i]);
                }
            }
            attempts = na;
            coins = nc;
        }
        c += 1;
    }
    proof {
        if sep > 0 {
            let ps = positions(sites@);
            assert forall|i: int| 0 <= i < ps.len() implies within(region, h, #[trigger] ps[i]) by {
                assert(ps[i] == sites@[i].pos);
            }
            assert forall|i: int, j: int|
                0 <= i < ps.len() && 0 <= j < ps.len() && i != j implies !too_close(
                    #[trigger] ps[i],
                    #[trigger] ps[j],
                    sep as int,
                ) by {
                assert(ps[i] == sites@[i].pos && ps[j] == sites@[j].pos);
            }
            lemma_capacity(ps, region, h, sep as int);
        }
    }
    sites
}

/// The positions of the spawners among `sites`, in their order.
pub open spec fn spawner_points(sites: Seq<Site>) -> Seq<Point>
    decreases sites.len(),
{
    if sites.len() == 0 {
        Seq::empty()
    } else {
        let rest = spawner_points(sites.drop_last());
        if sites.last().role == Role::Spawner {
            rest.push(sites.last().pos)
        } else {
            rest
        }
    }
}

/// The positions of the spawner sites, in the order of `sites`.
pub fn spawner_positions(sites: &Vec<Site>) -> (r: Vec<Point>)
    ensures
        r@ == spawner_points(sites@),
{
    let mut r: Vec<Point> = Vec::new();
    let mut i: usize = 0;
    while i < sites.len()
        invariant
            i <= sites.len(),
            r@ == spawner_points(sites@.subrange(0, i as int)),
        decreases sites.len() - i,
    {
        assert(sites@.subrange(0, i + 1).drop_last() =~= sites@.subrange(0, i as int));
        if sites[i].role == Role::Spawner {
            r.push(sites[i].pos);
        }
        i += 1;
    }
    assert(sites@.subrange(0, sites.len() as int) =~= sites@);
    r
}

} // verus!
