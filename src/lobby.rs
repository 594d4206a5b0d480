//! One room: its ducks, spectators, bread and round clock.
use vstd::prelude::*;
use crate::physics::{
    BREAD_FLOOR, DROP_HEIGHT, Vec3, collect_bread, fall_step, fallen_height, touched, untouched,
};
use crate::podium::{PODIUM_SIZE, Standing, distinct_ids, is_top, outranks, select_podium};

verus! {

/// Most bread items a lobby holds at once.
pub const BREAD_LIMIT: usize = 500;

/// Milliseconds between two ticks.
pub const TICK_INTERVAL_MS: u64 = 50;

/// Expected bread spawns per second while a round runs.
pub const BREAD_SPAWN_PER_SECOND: u64 = 3;

/// Spawn rolls are drawn uniformly from `0..=SPAWN_ROLL_MAX`.
pub const SPAWN_ROLL_MAX: u32 = 1_000_000;

/// A roll at or below this spawns bread: `3 × 0.05` of the roll range.
pub const SPAWN_THRESHOLD: u32 = 150_000;

/// Round length of a fresh lobby, in seconds.
pub const DEFAULT_ROUND_SECS: u64 = 120;

/// Podium places stand on `x = PODIUM_X0 + slot × PODIUM_STEP`.
pub const PODIUM_X0: i32 = -1250;

/// Distance between two podium places.
pub const PODIUM_STEP: i32 = 1250;

/// Depth of the podium places.
pub const PODIUM_Z: i32 = -500;

/// Depth at which ducks off the podium wait.
pub const WAITING_Z: i32 = 4000;

/// A duck's simulated state: where it stands, where it faces (milliradians)
/// and its score.
#[derive(Clone, Copy, Debug, PartialEq, Eq, Structural)]
pub struct Duck {
    pub id: u32,
    pub pos: Vec3,
    pub heading: i32,
    pub score: u32,
}

impl Duck {
    /// A duck at the origin, facing ahead, with no score.
    pub fn new(id: u32) -> (d: Duck)
        ensures
            d == Duck::fresh(id),
    {
        Duck { id, pos: Vec3 { x: 0, y: 0, z: 0 }, heading: 0, score: 0 }
    }

    pub open spec fn fresh(id: u32) -> Duck {
        Duck { id, pos: Vec3 { x: 0, y: 0, z: 0 }, heading: 0, score: 0 }
    }
}

/// How a duck is shown to the others.
#[derive(Clone, Debug)]
pub struct DuckInfo {
    pub name: Vec<u8>,
    pub variety: Vec<u8>,
    pub color: Vec<u8>,
}

/// A bread spawn drawn for one tick: the roll, and the planar spot.
#[derive(Clone, Copy, Debug, PartialEq, Eq, Structural)]
pub struct SpawnDraw {
    pub roll: u32,
    pub x: i32,
    pub z: i32,
}

/// What a lobby broadcasts each tick: every active duck, and the bread
/// spawned during this tick, if any.
#[derive(Clone, Debug)]
pub struct SyncPacket {
    pub ducks: Vec<Duck>,
    pub bread: Option<Vec3>,
}

/// The outcome of one tick of a lobby.
#[derive(Clone, Debug)]
pub struct TickReport {
    pub packet: SyncPacket,
    /// The podium, when this tick ended the round.
    pub podium: Option<Vec<Standing>>,
}

/// A room. `ducks[i]` is the duck of the member shown as `infos[i]`.
#[derive(Clone, Debug)]
pub struct Lobby {
    pub name: Vec<u8>,
    pub ducks: Vec<Duck>,
    pub infos: Vec<DuckInfo>,
    pub spectators: Vec<u32>,
    pub breads: Vec<Vec3>,
    /// When the running round started, in ms since the epoch.
    pub start_ms: Option<u64>,
    /// When the lobby last ticked, in ms since the epoch.
    pub last_tick_ms: u64,
    pub duration_secs: u64,
}

/// Adds `n` to a score, stopping at the largest score.
pub open spec fn add_score(s: u32, n: int) -> u32 {
    if s + n > u32::MAX {
        u32::MAX
    } else {
        (s + n) as u32
    }
}

/// The ids of a sequence of ducks.
pub open spec fn ids_of(ducks: Seq<Duck>) -> Seq<u32> {
    ducks.map_values(|d: Duck| d.id)
}

/// The standings of a sequence of ducks.
pub open spec fn standings_of(ducks: Seq<Duck>) -> Seq<Standing> {
    ducks.map_values(|d: Duck| Standing { id: d.id, score: d.score })
}

/// The bread left after the first ducks of `ducks`, in order, each ate what
/// they touched.
pub open spec fn left_after(ducks: Seq<Duck>, breads: Seq<Vec3>) -> Seq<Vec3>
    decreases ducks.len(),
{
    if ducks.len() == 0 {
        breads
    } else {
        untouched(ducks.last().pos, left_after(ducks.drop_last(), breads))
    }
}

/// The duck `d`, at index `i` of `ducks`, after the ducks before it ate.
pub open spec fn fed(ducks: Seq<Duck>, breads: Seq<Vec3>, i: int) -> Duck {
    let d = ducks[i];
    Duck {
        score: add_score(d.score, touched(d.pos, left_after(ducks.take(i), breads)).len() as int),
        ..d
    }
}

/// Every bread height after one fall step of `dt` milliseconds.
pub open spec fn fallen(breads: Seq<Vec3>, dt: int) -> Seq<Vec3> {
    breads.map_values(|b: Vec3| Vec3 { y: fallen_height(b.y as int, dt) as i32, ..b })
}

/// Milliseconds from `last` to `now`, or 0 if the clock went back.
pub open spec fn elapsed(last: u64, now: u64) -> int {
    if now >= last {
        now - last
    } else {
        0
    }
}

/// Whatever is left after the ducks ate was there before.
pub proof fn lemma_left_after_within(ducks: Seq<Duck>, breads: Seq<Vec3>)
    ensures
        left_after(ducks, breads).len() <= breads.len(),
        forall|b: Vec3| #[trigger] left_after(ducks, breads).contains(b) ==> breads.contains(b),
    decreases ducks.len(),
{
    if ducks.len() > 0 {
        let rest = left_after(ducks.drop_last(), breads);
        lemma_left_after_within(ducks.drop_last(), breads);
        let pred = |b: Vec3| !crate::physics::overlaps(ducks.last().pos, b);
        rest.lemma_filter_len(pred);
        assert forall|b: Vec3| #[trigger] left_after(ducks, breads).contains(b) implies breads.contains(b) by {
            rest.lemma_filter_contains_rev(pred, b);
        }
    }
}

/// How many bread items the ducks of `ducks` ate in all, each in turn.
pub open spec fn eaten_by(ducks: Seq<Duck>, breads: Seq<Vec3>) -> int
    decreases ducks.len(),
{
    if ducks.len() == 0 {
        0
    } else {
        eaten_by(ducks.drop_last(), breads) + touched(
            ducks.last().pos,
            left_after(ducks.drop_last(), breads),
        ).len()
    }
}

/// Pickups neither create nor duplicate bread: what the ducks ate, plus
/// what is left, is exactly what there was, so no item is eaten twice.
pub proof fn lemma_pickups_conserve(ducks: Seq<Duck>, breads: Seq<Vec3>)
    ensures
        eaten_by(ducks, breads) + left_after(ducks, breads).len() == breads.len(),
    decreases ducks.len(),
{
    if ducks.len() > 0 {
        lemma_pickups_conserve(ducks.drop_last(), breads);
        crate::physics::lemma_split_len(ducks.last().pos, left_after(ducks.drop_last(), breads));
    }
}

/// Holds of every id but `skip`.
pub open spec fn other_than(skip: u32) -> spec_fn(u32) -> bool {
    |i: u32| i != skip
}

/// Collects the ids of `ids` other than `skip`, after `out`.
pub fn push_ids_except(out: &mut Vec<u32>, ids: &Vec<u32>, skip: u32)
    ensures
        final(out)@ == old(out)@ + ids@.filter(other_than(skip)),
{
    let ghost start = out@;
    let mut k: usize = 0;
    while k < ids.len()
        invariant
            k <= ids@.len(),
            out@ == start + ids@.take(k as int).filter(other_than(skip)),
        decreases ids@.len() - k,
    {
        proof {
            reveal(Seq::filter);
            let t = ids@.take(k + 1);
            assert(t.drop_last() == ids@.take(k as int));
            assert(t.last() == ids@[k as int]);
            assert(t.filter(other_than(skip)) == if ids@[k as int] != skip {
                ids@.take(k as int).filter(other_than(skip)).push(ids@[k as int])
            } else {
                ids@.take(k as int).filter(other_than(skip))
            });
        }
        if ids[k] != skip {
            out.push(ids[k]);
        }
        k = k + 1;
    }
    assert(ids@.take(ids@.len() as int) == ids@);
}

/// `new` is `old` without the participant `id`: no longer a spectator, and
/// their duck and info gone if they were a member.
pub open spec fn without(old: Lobby, new: Lobby, id: u32) -> bool {
    &&& new.spectators@ == old.spectators@.filter(other_than(id))
    &&& new.name == old.name
    &&& new.breads == old.breads
    &&& new.start_ms == old.start_ms
    &&& new.last_tick_ms == old.last_tick_ms
    &&& new.duration_secs == old.duration_secs
    &&& {
        ||| exists|k: int|
            0 <= k < old.ducks@.len() && old.ducks@[k].id == id && new.ducks@ == old.ducks@.remove(
                k,
            ) && new.infos@ == old.infos@.remove(k)
        ||| (forall|k: int| 0 <= k < old.ducks@.len() ==> old.ducks@[k].id != id) && new.ducks
            == old.ducks && new.infos == old.infos
    }
}

/// `d` after an update for `id` to stand at `pos` facing `heading`.
pub open spec fn moved(d: Duck, id: u32, pos: Vec3, heading: i32) -> Duck {
    if d.id == id {
        Duck { pos, heading, ..d }
    } else {
        d
    }
}

/// Where the duck in podium slot `slot` stands.
pub open spec fn podium_duck(d: Duck, slot: int) -> Duck {
    Duck {
        pos: Vec3 { x: (PODIUM_X0 + slot * PODIUM_STEP) as i32, y: 0, z: PODIUM_Z },
        heading: 0,
        ..d
    }
}

/// Where a duck off the podium waits.
pub open spec fn waiting_duck(d: Duck) -> Duck {
    Duck { pos: Vec3 { x: 0, y: 0, z: WAITING_Z }, heading: 0, ..d }
}

/// The slot of `id` on `podium`, if it stands there.
pub open spec fn slot_of(podium: Seq<Standing>, id: u32) -> Option<int> {
    if exists|s: int| 0 <= s < podium.len() && podium[s].id == id {
        Some(choose|s: int| 0 <= s < podium.len() && podium[s].id == id)
    } else {
        None
    }
}

/// The duck `d` placed for the end of a round with `podium`.
pub open spec fn placed(podium: Seq<Standing>, d: Duck) -> Duck {
    match slot_of(podium, d.id) {
        Some(s) => podium_duck(d, s),
        None => waiting_duck(d),
    }
}

/// `new` and `r` are what one tick at `now` with spawn draw `draw` makes of
/// `old`. If the round is over, the ducks are ranked and placed, reported,
/// and the round is cleared; otherwise bread falls for the time since the
/// last tick, each member in turn eats what they touch, and bread may spawn.
/// Either way no bread is below the floor.
pub open spec fn ticked(old: Lobby, new: Lobby, now: u64, draw: SpawnDraw, r: TickReport) -> bool {
    &&& forall|i: int| 0 <= i < new.breads@.len() ==> #[trigger] new.breads@[i].y >= BREAD_FLOOR
    &&& new.last_tick_ms == now
    &&& new.infos == old.infos
    &&& new.spectators == old.spectators
    &&& new.name == old.name
    &&& new.duration_secs == old.duration_secs
    &&& new.ducks@.len() == old.ducks@.len()
    &&& old.over_at(now as int) ==> {
            &&& r.podium.is_some()
            &&& is_top(standings_of(old.ducks@), PODIUM_SIZE as int, r.podium.unwrap()@)
            &&& r.packet.bread.is_none()
            &&& r.packet.ducks@.len() == old.ducks@.len()
            &&& forall|i: int|
                0 <= i < old.ducks@.len() ==> #[trigger] r.packet.ducks@[i] == placed(
                    r.podium.unwrap()@,
                    old.ducks@[i],
                )
            &&& forall|i: int|
                0 <= i < old.ducks@.len() ==> #[trigger] new.ducks@[i] == (Duck {
                    score: 0,
                    ..r.packet.ducks@[i]
                })
            &&& !new.running()
            &&& new.breads@.len() == 0
        }
    &&& !old.over_at(now as int) ==> {
            let fb = fallen(old.breads@, elapsed(old.last_tick_ms, now));
            let left = left_after(old.ducks@, fb);
            &&& r.podium.is_none()
            &&& new.start_ms == old.start_ms
            &&& forall|i: int|
                0 <= i < old.ducks@.len() ==> #[trigger] new.ducks@[i] == fed(
                    old.ducks@,
                    fb,
                    i,
                )
            &&& r.packet.ducks@ == new.ducks@
            &&& r.packet.bread.is_some() <==> (old.running() && draw.roll
                <= SPAWN_THRESHOLD && left.len() < BREAD_LIMIT)
            &&& r.packet.bread.is_some() ==> r.packet.bread == Some(
                Vec3 { x: draw.x, y: DROP_HEIGHT, z: draw.z },
            ) && new.breads@ == left.push(r.packet.bread.unwrap())
            &&& r.packet.bread.is_none() ==> new.breads@ == left
        }
}

/// A round started at `s` ends at the first tick at or after `s` plus its
/// duration: that tick reports a podium and leaves the lobby waiting.
pub proof fn lemma_round_runs_out(
    old: Lobby,
    new: Lobby,
    now: u64,
    draw: SpawnDraw,
    r: TickReport,
)
    requires
        old.start_ms.is_some(),
        now >= old.start_ms.unwrap() + old.duration_secs * 1000,
        ticked(old, new, now, draw, r),
    ensures
        old.over_at(now as int),
        r.podium.is_some(),
        !new.running(),
{
}

/// Before its time is up a round keeps running through a tick.
pub proof fn lemma_round_keeps_running(
    old: Lobby,
    new: Lobby,
    now: u64,
    draw: SpawnDraw,
    r: TickReport,
)
    requires
        old.start_ms.is_some(),
        now < old.start_ms.unwrap() + old.duration_secs * 1000,
        ticked(old, new, now, draw, r),
    ensures
        r.podium.is_none(),
        new.start_ms == old.start_ms,
{
}

impl Lobby {
    /// The lobby's own invariant: members and their infos line up, member
    /// ids are distinct and not 0, and the bread stays within its limit.
    pub open spec fn wf(&self) -> bool {
        &&& self.ducks@.len() == self.infos@.len()
        &&& distinct_ids(standings_of(self.ducks@))
        &&& forall|i: int| 0 <= i < self.ducks@.len() ==> (#[trigger] self.ducks@[i]).id != 0
        &&& self.breads@.len() <= BREAD_LIMIT
    }

    pub open spec fn running(&self) -> bool {
        self.start_ms.is_some()
    }

    /// The round has lasted its full duration at `now`.
    pub open spec fn over_at(&self, now: int) -> bool {
        match self.start_ms {
            Some(s) => now >= s && now - s >= self.duration_secs * 1000,
            None => false,
        }
    }

    /// An empty lobby, waiting for a round.
    pub fn new(name: Vec<u8>, now_ms: u64) -> (l: Lobby)
        ensures
            l.wf(),
            l.name@ == name@,
            l.ducks@.len() == 0,
            l.infos@.len() == 0,
            l.spectators@.len() == 0,
            l.breads@.len() == 0,
            l.start_ms.is_none(),
            l.last_tick_ms == now_ms,
            l.duration_secs == DEFAULT_ROUND_SECS,
    {
        let l = Lobby {
            name,
            ducks: Vec::new(),
            infos: Vec::new(),
            spectators: Vec::new(),
            breads: Vec::new(),
            start_ms: None,
            last_tick_ms: now_ms,
            duration_secs: DEFAULT_ROUND_SECS,
        };
        assert(standings_of(l.ducks@).len() == 0);
        l
    }

    /// Whether a round is running.
    pub fn is_running(&self) -> (r: bool)
        ensures
            r == self.running(),
    {
        self.start_ms.is_some()
    }

    /// Whether the running round is over at `now_ms`.
    pub fn round_over(&self, now_ms: u64) -> (r: bool)
        ensures
            r == self.over_at(now_ms as int),
    {
        match self.start_ms {
            Some(s) => {
                if now_ms < s {
                    false
                } else {
                    let elapsed = now_ms - s;
                    proof {
                        assert(elapsed / 1000 >= self.duration_secs <==> elapsed
                            >= self.duration_secs * 1000) by (nonlinear_arith);
                    }
                    elapsed / 1000 >= self.duration_secs
                }
            },
            None => false,
        }
    }

    /// Index of the member with id `id`.
    pub fn member_index(&self, id: u32) -> (r: Option<usize>)
        ensures
            match r {
                Some(i) => i < self.ducks@.len() && self.ducks@[i as int].id == id,
                None => forall|i: int| 0 <= i < self.ducks@.len() ==> self.ducks@[i].id != id,
            },
    {
        let mut i: usize = 0;
        while i < self.ducks.len()
            invariant
                i <= self.ducks@.len(),
                forall|j: int| 0 <= j < i ==> self.ducks@[j].id != id,
            decreases self.ducks@.len() - i,
        {
            if self.ducks[i].id == id {
                return Some(i);
            }
            i = i + 1;
        }
        None
    }

    /// Lets every bread item fall for `dt_ms`.
    pub fn drop_bread(&mut self, dt_ms: u64)
        ensures
            final(self).breads@ == fallen(old(self).breads@, dt_ms as int),
            final(self).ducks == old(self).ducks,
            final(self).infos == old(self).infos,
            final(self).spectators == old(self).spectators,
            final(self).name == old(self).name,
            final(self).start_ms == old(self).start_ms,
            final(self).last_tick_ms == old(self).last_tick_ms,
            final(self).duration_secs == old(self).duration_secs,
            forall|i: int|
                0 <= i < final(self).breads@.len() ==> #[trigger] final(self).breads@[i].y
                    >= BREAD_FLOOR,
    {
        let ghost before = self.breads@;
        let mut i: usize = 0;
        while i < self.breads.len()
            invariant
                self.breads@.len() == before.len(),
                i <= before.len(),
                forall|j: int|
                    0 <= j < i ==> self.breads@[j] == fallen(before, dt_ms as int)[j],
                forall|j: int| i <= j < before.len() ==> self.breads@[j] == before[j],
                forall|j: int| 0 <= j < i ==> #[trigger] self.breads@[j].y >= BREAD_FLOOR,
                self.ducks == old(self).ducks,
                self.infos == old(self).infos,
                self.spectators == old(self).spectators,
                self.name == old(self).name,
                self.start_ms == old(self).start_ms,
                self.last_tick_ms == old(self).last_tick_ms,
                self.duration_secs == old(self).duration_secs,
            decreases before.len() - i,
        {
            let b = self.breads[i];
            let y = fall_step(b.y, dt_ms);
            self.breads.set(i, Vec3 { x: b.x, y, z: b.z });
            i = i + 1;
        }
        assert(self.breads@ == fallen(before, dt_ms as int));
    }

    /// Each member in turn eats the bread that their box touches; each item
    /// goes to at most one duck.
    pub fn resolve_pickups(&mut self)
        ensures
            final(self).breads@ == left_after(old(self).ducks@, old(self).breads@),
            final(self).ducks@.len() == old(self).ducks@.len(),
            forall|i: int|
                0 <= i < old(self).ducks@.len() ==> #[trigger] final(self).ducks@[i] == fed(
                    old(self).ducks@,
                    old(self).breads@,
                    i,
                ),
            final(self).infos == old(self).infos,
            final(self).spectators == old(self).spectators,
            final(self).name == old(self).name,
            final(self).start_ms == old(self).start_ms,
            final(self).last_tick_ms == old(self).last_tick_ms,
            final(self).duration_secs == old(self).duration_secs,
    {
        let ghost ducks0 = self.ducks@;
        let ghost breads0 = self.breads@;
        let mut i: usize = 0;
        while i < self.ducks.len()
            invariant
                self.ducks@.len() == ducks0.len(),
                i <= ducks0.len(),
                self.breads@ == left_after(ducks0.take(i as int), breads0),
                forall|j: int| 0 <= j < i ==> #[trigger] self.ducks@[j] == fed(ducks0, breads0, j),
                forall|j: int| i <= j < ducks0.len() ==> #[trigger] self.ducks@[j] == ducks0[j],
                self.infos == old(self).infos,
                self.spectators == old(self).spectators,
                self.name == old(self).name,
                self.start_ms == old(self).start_ms,
                self.last_tick_ms == old(self).last_tick_ms,
                self.duration_secs == old(self).duration_secs,
            decreases ducks0.len() - i,
        {
            let d = self.ducks[i];
            let eaten = collect_bread(&d.pos, &mut self.breads);
            let score: u32 = if eaten as u64 > (u32::MAX - d.score) as u64 {
                u32::MAX
            } else {
                d.score + eaten as u32
            };
            self.ducks.set(i, Duck { score, ..d });
            proof {
                assert(ducks0.take(i + 1).drop_last() == ducks0.take(i as int));
                assert(ducks0.take(i + 1).last() == d);
            }
            i = i + 1;
        }
        assert(ducks0.take(ducks0.len() as int) == ducks0);
    }

    /// Spawns one bread item at height 10 above `(draw.x, draw.z)` when a
    /// round runs, the roll is at or below the threshold and the lobby has
    /// room; returns the item spawned.
    pub fn spawn_bread(&mut self, draw: SpawnDraw) -> (r: Option<Vec3>)
        requires
            old(self).breads@.len() <= BREAD_LIMIT,
        ensures
            r.is_some() <==> (old(self).running() && draw.roll <= SPAWN_THRESHOLD
                && old(self).breads@.len() < BREAD_LIMIT),
            r.is_some() ==> r == Some(Vec3 { x: draw.x, y: DROP_HEIGHT, z: draw.z })
                && final(self).breads@ == old(self).breads@.push(r.unwrap()),
            r.is_none() ==> final(self).breads@ == old(self).breads@,
            final(self).breads@.len() <= BREAD_LIMIT,
            final(self).ducks == old(self).ducks,
            final(self).infos == old(self).infos,
            final(self).spectators == old(self).spectators,
            final(self).name == old(self).name,
            final(self).start_ms == old(self).start_ms,
            final(self).last_tick_ms == old(self).last_tick_ms,
            final(self).duration_secs == old(self).duration_secs,
    {
        if self.start_ms.is_some() && draw.roll <= SPAWN_THRESHOLD && self.breads.len()
            < BREAD_LIMIT {
            let b = Vec3 { x: draw.x, y: DROP_HEIGHT, z: draw.z };
            self.breads.push(b);
            Some(b)
        } else {
            None
        }
    }

    /// Ranks the members, moves the podium's ducks onto their places and
    /// every other duck to the waiting spot; returns the podium.
    pub fn end_round(&mut self) -> (podium: Vec<Standing>)
        requires
            old(self).wf(),
        ensures
            final(self).wf(),
            is_top(standings_of(old(self).ducks@), PODIUM_SIZE as int, podium@),
            final(self).ducks@.len() == old(self).ducks@.len(),
            forall|i: int|
                0 <= i < old(self).ducks@.len() ==> #[trigger] final(self).ducks@[i] == placed(
                    podium@,
                    old(self).ducks@[i],
                ),
            final(self).infos == old(self).infos,
            final(self).spectators == old(self).spectators,
            final(self).breads == old(self).breads,
            final(self).name == old(self).name,
            final(self).start_ms == old(self).start_ms,
            final(self).last_tick_ms == old(self).last_tick_ms,
            final(self).duration_secs == old(self).duration_secs,
    {
        let ghost ducks0 = self.ducks@;
        let mut entries: Vec<Standing> = Vec::new();
        let mut i: usize = 0;
        while i < self.ducks.len()
            invariant
                self.ducks@ == ducks0,
                i <= ducks0.len(),
                entries@ == standings_of(ducks0).take(i as int),
            decreases ducks0.len() - i,
        {
            let d = self.ducks[i];
            entries.push(Standing { id: d.id, score: d.score });
            assert(standings_of(ducks0).take(i + 1) == standings_of(ducks0).take(i as int).push(
                Standing { id: d.id, score: d.score },
            ));
            i = i + 1;
        }
        assert(standings_of(ducks0).take(ducks0.len() as int) == standings_of(ducks0));
        let podium = select_podium(&entries);
        let ghost p = podium@;
        proof {
            assert forall|a: int, b: int| 0 <= a < b < p.len() implies p[a].id != p[b].id by {
                let ja = choose|j: int| 0 <= j < entries@.len() && entries@[j] == p[a];
                let jb = choose|j: int| 0 <= j < entries@.len() && entries@[j] == p[b];
                assert(entries@.contains(p[a]));
                assert(entries@.contains(p[b]));
                assert(outranks(p[a], p[b]));
                if ja != jb {
                    if ja < jb {
                        assert(entries@[ja].id != entries@[jb].id);
                    } else {
                        assert(entries@[jb].id != entries@[ja].id);
                    }
                }
            }
        }
        let mut i: usize = 0;
        while i < self.ducks.len()
            invariant
                self.ducks@.len() == ducks0.len(),
                i <= ducks0.len(),
                podium@ == p,
                forall|a: int, b: int| 0 <= a < b < p.len() ==> p[a].id != p[b].id,
                forall|j: int| 0 <= j < i ==> #[trigger] self.ducks@[j] == placed(p, ducks0[j]),
                forall|j: int| i <= j < ducks0.len() ==> #[trigger] self.ducks@[j] == ducks0[j],
                self.infos == old(self).infos,
                self.spectators == old(self).spectators,
                self.breads == old(self).breads,
                self.name == old(self).name,
                self.start_ms == old(self).start_ms,
                self.last_tick_ms == old(self).last_tick_ms,
                self.duration_secs == old(self).duration_secs,
                p.len() <= PODIUM_SIZE,
            decreases ducks0.len() - i,
        {
            let d = self.ducks[i];
            let mut slot: usize = 0;
            while slot < podium.len() && podium[slot].id != d.id
                invariant
                    slot <= p.len(),
                    podium@ == p,
                    forall|s: int| 0 <= s < slot ==> p[s].id != d.id,
                decreases p.len() - slot,
            {
                slot = slot + 1;
            }
            if slot < podium.len() {
                proof {
                    let c = choose|s: int| 0 <= s < p.len() && p[s].id == d.id;
                    assert(c == slot);
                }
                let x: i32 = PODIUM_X0 + slot as i32 * PODIUM_STEP;
                self.ducks.set(i, Duck { pos: Vec3 { x, y: 0, z: PODIUM_Z }, heading: 0, ..d });
            } else {
                self.ducks.set(i, Duck { pos: Vec3 { x: 0, y: 0, z: WAITING_Z }, heading: 0, ..d });
            }
            i = i + 1;
        }
        proof {
            assert(standings_of(self.ducks@) =~= standings_of(ducks0));
        }
        podium
    }

    /// Clears the round: no bread, no start, every score back to 0. The
    /// members stay.
    pub fn reset_round(&mut self, now_ms: u64)
        requires
            old(self).wf(),
        ensures
            final(self).wf(),
            !final(self).running(),
            final(self).breads@.len() == 0,
            final(self).ducks@.len() == old(self).ducks@.len(),
            forall|i: int|
                0 <= i < old(self).ducks@.len() ==> #[trigger] final(self).ducks@[i] == (Duck {
                    score: 0,
                    ..old(self).ducks@[i]
                }),
            final(self).last_tick_ms == now_ms,
            final(self).infos == old(self).infos,
            final(self).spectators == old(self).spectators,
            final(self).name == old(self).name,
            final(self).duration_secs == old(self).duration_secs,
    {
        let ghost ducks0 = self.ducks@;
        let mut i: usize = 0;
        while i < self.ducks.len()
            invariant
                self.ducks@.len() == ducks0.len(),
                i <= ducks0.len(),
                forall|j: int|
                    0 <= j < i ==> #[trigger] self.ducks@[j] == (Duck { score: 0, ..ducks0[j] }),
                forall|j: int| i <= j < ducks0.len() ==> #[trigger] self.ducks@[j] == ducks0[j],
                self.infos == old(self).infos,
                self.spectators == old(self).spectators,
                self.name == old(self).name,
                self.duration_secs == old(self).duration_secs,
            decreases ducks0.len() - i,
        {
            let d = self.ducks[i];
            self.ducks.set(i, Duck { score: 0, ..d });
            i = i + 1;
        }
        self.breads = Vec::new();
        self.start_ms = None;
        self.last_tick_ms = now_ms;
        proof {
            assert(ids_of(self.ducks@) =~= ids_of(ducks0));
            assert forall|a: int, b: int|
                0 <= a < b < self.ducks@.len() implies standings_of(self.ducks@)[a].id
                != standings_of(self.ducks@)[b].id by {
                assert(standings_of(ducks0)[a].id != standings_of(ducks0)[b].id);
            }
        }
    }

    /// The packet that shows every member's duck, and `bread` if one was
    /// spawned.
    pub fn sync_packet(&self, bread: Option<Vec3>) -> (p: SyncPacket)
        ensures
            p.ducks@ == self.ducks@,
            p.bread == bread,
    {
        let mut ducks: Vec<Duck> = Vec::new();
        let mut i: usize = 0;
        while i < self.ducks.len()
            invariant
                i <= self.ducks@.len(),
                ducks@ == self.ducks@.take(i as int),
            decreases self.ducks@.len() - i,
        {
            ducks.push(self.ducks[i]);
            assert(self.ducks@.take(i + 1) == self.ducks@.take(i as int).push(self.ducks@[i as int]));
            i = i + 1;
        }
        assert(self.ducks@.take(self.ducks@.len() as int) == self.ducks@);
        SyncPacket { ducks, bread }
    }

    /// Runs one tick at `now_ms`. If the round is over, ranks and places the
    /// ducks, then clears the round; otherwise lets bread fall for the time
    /// since the last tick, resolves pickups and may spawn bread from `draw`.
    pub fn tick(&mut self, now_ms: u64, draw: SpawnDraw) -> (r: TickReport)
        requires
            old(self).wf(),
        ensures
            final(self).wf(),
            ticked(*old(self), *final(self), now_ms, draw, r),
    {
        if self.round_over(now_ms) {
            let podium = self.end_round();
            let packet = self.sync_packet(None);
            self.reset_round(now_ms);
            TickReport { packet, podium: Some(podium) }
        } else {
            let dt: u64 = if now_ms >= self.last_tick_ms {
                now_ms - self.last_tick_ms
            } else {
                0
            };
            self.last_tick_ms = now_ms;
            let ghost ducks0 = self.ducks@;
            self.drop_bread(dt);
            let ghost fb = self.breads@;
            self.resolve_pickups();
            proof {
                lemma_left_after_within(ducks0, fb);
                assert(ids_of(self.ducks@) =~= ids_of(ducks0));
                assert forall|a: int, b: int|
                    0 <= a < b < self.ducks@.len() implies standings_of(self.ducks@)[a].id
                    != standings_of(self.ducks@)[b].id by {
                    assert(standings_of(ducks0)[a].id != standings_of(ducks0)[b].id);
                    assert(self.ducks@[a] == fed(ducks0, fb, a));
                    assert(self.ducks@[b] == fed(ducks0, fb, b));
                }
                assert forall|i: int| 0 <= i < self.ducks@.len() implies (
                #[trigger] self.ducks@[i]).id != 0 by {
                    assert(self.ducks@[i] == fed(ducks0, fb, i));
                }
                assert forall|i: int| 0 <= i < self.breads@.len() implies #[trigger] self.breads@[i].y
                    >= BREAD_FLOOR by {
                    assert(self.breads@.contains(self.breads@[i]));
                    let j = choose|j: int| 0 <= j < fb.len() && fb[j] == self.breads@[i];
                }
            }
            let bread = self.spawn_bread(draw);
            let packet = self.sync_packet(bread);
            TickReport { packet, podium: None }
        }
    }

    /// Adds a member with a fresh duck at the origin.
    pub fn add_member(&mut self, id: u32, info: DuckInfo)
        requires
            old(self).wf(),
            id != 0,
            forall|k: int| 0 <= k < old(self).ducks@.len() ==> old(self).ducks@[k].id != id,
        ensures
            final(self).wf(),
            final(self).ducks@ == old(self).ducks@.push(Duck::fresh(id)),
            final(self).infos@ == old(self).infos@.push(info),
            final(self).spectators == old(self).spectators,
            final(self).breads == old(self).breads,
            final(self).name == old(self).name,
            final(self).start_ms == old(self).start_ms,
            final(self).last_tick_ms == old(self).last_tick_ms,
            final(self).duration_secs == old(self).duration_secs,
    {
        let ghost before = self.ducks@;
        self.ducks.push(Duck::new(id));
        self.infos.push(info);
        proof {
            assert forall|a: int, b: int|
                0 <= a < b < self.ducks@.len() implies standings_of(self.ducks@)[a].id
                != standings_of(self.ducks@)[b].id by {
                if b < before.len() {
                    assert(standings_of(before)[a].id != standings_of(before)[b].id);
                }
            }
        }
    }

    /// Adds a spectator.
    pub fn add_spectator(&mut self, id: u32)
        ensures
            final(self).spectators@ == old(self).spectators@.push(id),
            final(self).ducks == old(self).ducks,
            final(self).infos == old(self).infos,
            final(self).breads == old(self).breads,
            final(self).name == old(self).name,
            final(self).start_ms == old(self).start_ms,
            final(self).last_tick_ms == old(self).last_tick_ms,
            final(self).duration_secs == old(self).duration_secs,
    {
        self.spectators.push(id);
    }

    /// Removes `id` as member and as spectator; returns whether they were a
    /// member.
    pub fn remove_participant(&mut self, id: u32) -> (was_member: bool)
        requires
            old(self).wf(),
        ensures
            final(self).wf(),
            without(*old(self), *final(self), id),
            was_member == ids_of(old(self).ducks@).contains(id),
            forall|k: int| 0 <= k < final(self).ducks@.len() ==> final(self).ducks@[k].id != id,
    {
        let ghost before = *self;
        let mut kept: Vec<u32> = Vec::new();
        push_ids_except(&mut kept, &self.spectators, id);
        self.spectators = kept;
        match self.member_index(id) {
            Some(k) => {
                self.ducks.remove(k);
                self.infos.remove(k);
                proof {
                    let d0 = before.ducks@;
                    let st0 = standings_of(d0);
                    let st = standings_of(self.ducks@);
                    assert forall|a: int, b: int| 0 <= a < b < st.len() implies st[a].id != st[b].id by {
                        let a0 = if a < k { a } else { a + 1 };
                        let b0 = if b < k { b } else { b + 1 };
                        assert(st[a] == st0[a0]);
                        assert(st[b] == st0[b0]);
                    }
                    assert forall|j: int| 0 <= j < self.ducks@.len() implies self.ducks@[j].id != id by {
                        let j0 = if j < k { j } else { j + 1 };
                        assert(self.ducks@[j] == d0[j0]);
                        assert(st0[j0].id != st0[k as int].id);
                    }
                    assert forall|j: int| 0 <= j < self.ducks@.len() implies (
                    #[trigger] self.ducks@[j]).id != 0 by {
                        let j0 = if j < k { j } else { j + 1 };
                        assert(self.ducks@[j] == d0[j0]);
                    }
                    assert(ids_of(d0)[k as int] == id);
                }
                true
            },
            None => {
                proof {
                    assert forall|j: int| 0 <= j < ids_of(before.ducks@).len() implies ids_of(
                        before.ducks@,
                    )[j] != id by {}
                }
                false
            },
        }
    }

    /// Moves the duck of member `id`, if any, to `pos` facing `heading`.
    pub fn apply_update(&mut self, id: u32, pos: Vec3, heading: i32)
        requires
            old(self).wf(),
        ensures
            final(self).wf(),
            final(self).ducks@.len() == old(self).ducks@.len(),
            forall|k: int|
                0 <= k < old(self).ducks@.len() ==> #[trigger] final(self).ducks@[k] == moved(
                    old(self).ducks@[k],
                    id,
                    pos,
                    heading,
                ),
            final(self).infos == old(self).infos,
            final(self).spectators == old(self).spectators,
            final(self).breads == old(self).breads,
            final(self).name == old(self).name,
            final(self).start_ms == old(self).start_ms,
            final(self).last_tick_ms == old(self).last_tick_ms,
            final(self).duration_secs == old(self).duration_secs,
    {
        let ghost ducks0 = self.ducks@;
        let mut k: usize = 0;
        while k < self.ducks.len()
            invariant
                self.ducks@.len() == ducks0.len(),
                k <= ducks0.len(),
                forall|j: int|
                    0 <= j < k ==> #[trigger] self.ducks@[j] == moved(ducks0[j], id, pos, heading),
                forall|j: int| k <= j < ducks0.len() ==> #[trigger] self.ducks@[j] == ducks0[j],
                self.infos == old(self).infos,
                self.spectators == old(self).spectators,
                self.breads == old(self).breads,
                self.name == old(self).name,
                self.start_ms == old(self).start_ms,
                self.last_tick_ms == old(self).last_tick_ms,
                self.duration_secs == old(self).duration_secs,
            decreases ducks0.len() - k,
        {
            let d = self.ducks[k];
            if d.id == id {
                self.ducks.set(k, Duck { pos, heading, ..d });
            }
            k = k + 1;
        }
        proof {
            assert forall|a: int, b: int|
                0 <= a < b < self.ducks@.len() implies standings_of(self.ducks@)[a].id
                != standings_of(self.ducks@)[b].id by {
                assert(standings_of(ducks0)[a].id != standings_of(ducks0)[b].id);
            }
        }
    }

    /// Sets the round length, and starts the round at `now_ms` unless one
    /// runs; returns whether it started.
    pub fn start_round(&mut self, duration_secs: u64, now_ms: u64) -> (started: bool)
        requires
            old(self).wf(),
        ensures
            final(self).wf(),
            started == !old(self).running(),
            final(self).duration_secs == duration_secs,
            final(self).start_ms == if started {
                Some(now_ms)
            } else {
                old(self).start_ms
            },
            final(self).ducks == old(self).ducks,
            final(self).infos == old(self).infos,
            final(self).spectators == old(self).spectators,
            final(self).breads == old(self).breads,
            final(self).name == old(self).name,
            final(self).last_tick_ms == old(self).last_tick_ms,
    {
        self.duration_secs = duration_secs;
        if self.start_ms.is_none() {
            self.start_ms = Some(now_ms);
            true
        } else {
            false
        }
    }
}

} // verus!
