//! The server's whole state: every lobby and the ids that have a connection.
use vstd::prelude::*;
use crate::command::Command;
use crate::codec::{
    CastEndGame, CastJoinGame, CastLeaveGame, CastStartGame, ReJoinGame, cast_end_text,
    cast_join_text, cast_leave_text, cast_start_text, encode_lobby_list, lobby_list_text, names_view,
    push_bytes, re_join_text,
};
use crate::lobby::{
    Duck, DuckInfo, Lobby, SPAWN_ROLL_MAX, SpawnDraw, TickReport, elapsed, fallen, fed, ids_of,
    moved, other_than, placed, push_ids_except, ticked, without,
};
use crate::physics::Vec3;
use crate::chance::roll_at_most;

verus! {

/// The name of the lobby that joiners enter: `main`.
pub open spec fn default_lobby_name() -> Seq<u8> {
    seq![109u8, 97, 105, 110]
}

/// A text notice and the ids it goes to.
#[derive(Clone, Debug)]
pub struct Notice {
    pub to: Vec<u32>,
    pub text: Vec<u8>,
}

/// A notice as plain values: recipients and bytes.
pub open spec fn notice_view(n: Notice) -> (Seq<u32>, Seq<u8>) {
    (n.to@, n.text@)
}

/// The notices of a list, as plain values.
pub open spec fn notices_view(ns: Seq<Notice>) -> Seq<(Seq<u32>, Seq<u8>)> {
    ns.map_values(|n: Notice| notice_view(n))
}

/// What one lobby sends out after a tick: the sync packet and any notices,
/// to `recipients`.
#[derive(Clone, Debug)]
pub struct LobbyTick {
    pub recipients: Vec<u32>,
    pub report: TickReport,
    pub notices: Vec<Notice>,
}

/// Everyone in the lobby but `skip`: members first, then spectators.
pub open spec fn audience(l: Lobby, skip: u32) -> Seq<u32> {
    ids_of(l.ducks@).filter(other_than(skip)) + l.spectators@.filter(other_than(skip))
}

/// The notice that each member of `l` joined, addressed to `to` alone.
pub open spec fn roster(l: Lobby, to: u32) -> Seq<(Seq<u32>, Seq<u8>)> {
    Seq::new(
        l.ducks@.len(),
        |i: int|
            (
                seq![to],
                cast_join_text(
                    l.ducks@[i].id,
                    l.infos@[i].name@,
                    l.infos@[i].variety@,
                    l.infos@[i].color@,
                ),
            ),
    )
}

/// Appending a notice appends its view.
pub proof fn lemma_notices_push(s: Seq<Notice>, n: Notice)
    ensures
        notices_view(s.push(n)) == notices_view(s).push(notice_view(n)),
{
    assert(notices_view(s.push(n)) =~= notices_view(s).push(notice_view(n)));
}

/// The departure notices for `id`: one per lobby that had them as a member,
/// in lobby order, to everyone left in it.
pub open spec fn leave_notices(olds: Seq<Lobby>, news: Seq<Lobby>, id: u32) -> Seq<
    (Seq<u32>, Seq<u8>),
>
    decreases olds.len(),
{
    if olds.len() == 0 {
        seq![]
    } else {
        let n = olds.len() - 1;
        let prev = leave_notices(olds.take(n), news.take(n), id);
        if ids_of(olds[n].ducks@).contains(id) {
            prev.push((audience(news[n], 0), cast_leave_text(id)))
        } else {
            prev
        }
    }
}

/// Filtering a list of distinct ids keeps them distinct.
proof fn lemma_filter_distinct(s: Seq<u32>, id: u32, i: int, j: int)
    requires
        forall|a: int, b: int| 0 <= a < b < s.len() ==> s[a] != s[b],
        0 <= i < j < s.filter(other_than(id)).len(),
    ensures
        s.filter(other_than(id))[i] != s.filter(other_than(id))[j],
    decreases s.len(),
{
    reveal(Seq::filter);
    let f = s.filter(other_than(id));
    if s.len() > 0 {
        let rest = s.drop_last();
        let fr = rest.filter(other_than(id));
        if s.last() != id && j == f.len() - 1 {
            assert(f[j] == s.last());
            assert(f[i] == fr[i]);
            assert(fr.contains(fr[i]));
            rest.lemma_filter_contains_rev(other_than(id), fr[i]);
            let a = choose|a: int| 0 <= a < rest.len() && rest[a] == fr[i];
            assert(s[a] == rest[a]);
        } else {
            lemma_filter_distinct(rest, id, i, j);
        }
    }
}

/// Whether two byte strings are equal.
pub fn same_bytes(a: &[u8], b: &[u8]) -> (r: bool)
    ensures
        r == (a@ == b@),
{
    if a.len() != b.len() {
        return false;
    }
    let mut k: usize = 0;
    while k < a.len()
        invariant
            a@.len() == b@.len(),
            k <= a@.len(),
            forall|j: int| 0 <= j < k ==> a@[j] == b@[j],
        decreases a@.len() - k,
    {
        if a[k] != b[k] {
            return false;
        }
        k = k + 1;
    }
    assert(a@ =~= b@);
    true
}

/// `new` and `notices` are what the join of `id` (shown as `name`,
/// `variety` and `color`) to the default lobby makes of `old`.
pub open spec fn joined(
    old: GameServer,
    new: GameServer,
    id: u32,
    name: Seq<u8>,
    variety: Seq<u8>,
    color: Seq<u8>,
    notices: Seq<Notice>,
) -> bool {
    let l = old.lobbies@[0];
    let nl = new.lobbies@[0];
    &&& new.connected@ == old.connected@.push(id)
    &&& new.lobbies@.len() == old.lobbies@.len()
    &&& forall|k: int|
        1 <= k < old.lobbies@.len() ==> #[trigger] new.lobbies@[k]
            == old.lobbies@[k]
    &&& nl.name == l.name
    &&& nl.breads == l.breads
    &&& nl.start_ms == l.start_ms
    &&& nl.last_tick_ms == l.last_tick_ms
    &&& nl.duration_secs == l.duration_secs
    &&& if l.running() {
        &&& nl.spectators@ == l.spectators@.push(id)
        &&& nl.ducks == l.ducks
        &&& nl.infos == l.infos
        &&& notices_view(notices) == seq![
            (seq![id], re_join_text(id)),
            (
                seq![id],
                cast_start_text(
                    (l.start_ms.unwrap() / 1000) as u64,
                    l.duration_secs,
                ),
            ),
        ] + roster(l, id)
    } else {
        &&& nl.spectators == l.spectators
        &&& nl.ducks@ == l.ducks@.push(Duck::fresh(id))
        &&& nl.infos@.len() == l.infos@.len() + 1
        &&& forall|k: int| 0 <= k < l.infos@.len() ==> #[trigger] nl.infos@[k] == l.infos@[k]
        &&& nl.infos@.last().name@ == name
        &&& nl.infos@.last().variety@ == variety
        &&& nl.infos@.last().color@ == color
        &&& notices_view(notices) == seq![(seq![id], re_join_text(id))] + roster(
            l,
            id,
        ) + seq![(audience(l, id), cast_join_text(id, name, variety, color))]
    }
}

/// `new` and `notices` are what starting a round of `duration_secs` at
/// `now` in the first lobby named `lobby` makes of `old`.
pub open spec fn round_started(
    old: GameServer,
    new: GameServer,
    lobby: Seq<u8>,
    duration_secs: u64,
    now: u64,
    notices: Seq<Notice>,
) -> bool {
    match old.find_lobby_spec(lobby) {
        None => new == old && notices.len() == 0,
        Some(l) => {
            let o = old.lobbies@[l];
            let n = new.lobbies@[l];
            &&& new.with_lobby(old, l, n)
            &&& n.duration_secs == duration_secs
            &&& n.ducks == o.ducks
            &&& n.infos == o.infos
            &&& n.spectators == o.spectators
            &&& n.breads == o.breads
            &&& n.name == o.name
            &&& n.last_tick_ms == o.last_tick_ms
            &&& if o.running() {
                n.start_ms == o.start_ms && notices.len() == 0
            } else {
                &&& n.start_ms == Some(now)
                &&& notices_view(notices) == seq![
                    (audience(o, 0), cast_start_text(now / 1000, duration_secs)),
                ]
            }
        },
    }
}

/// What handling a command came to.
#[derive(Clone, Debug)]
pub enum Outcome {
    /// The sender joined under `id`; the session now answers to that id.
    Joined { id: u32, notices: Vec<Notice> },
    /// A join found no free id.
    Refused,
    /// Notices to send.
    Sent { notices: Vec<Notice> },
}

/// `r` reports a join under a fresh id, as `joined` says, or a refusal
/// that changed nothing.
pub open spec fn joined_or_refused(
    old: GameServer,
    new: GameServer,
    name: Seq<u8>,
    variety: Seq<u8>,
    color: Seq<u8>,
    r: Outcome,
) -> bool {
    match r {
        Outcome::Joined { id, notices } => id != 0 && !old.connected@.contains(id) && joined(
            old,
            new,
            id,
            name,
            variety,
            color,
            notices@,
        ),
        Outcome::Refused => new == old,
        Outcome::Sent { .. } => false,
    }
}

/// The names of `ls`, in order.
pub open spec fn lobby_names(ls: Seq<Lobby>) -> Seq<Seq<u8>> {
    ls.map_values(|l: Lobby| l.name@)
}

/// How many random ids a join draws before it gives up.
pub const ID_ATTEMPTS: usize = 16;

/// The server: every lobby, and the ids that have a connection.
#[derive(Clone, Debug)]
pub struct GameServer {
    pub connected: Vec<u32>,
    pub lobbies: Vec<Lobby>,
}

/// The ids of everyone in `l` but `skip`: members first, then spectators.
pub fn audience_of(l: &Lobby, skip: u32) -> (r: Vec<u32>)
    ensures
        r@ == audience(*l, skip),
{
    let mut members: Vec<u32> = Vec::new();
    let mut k: usize = 0;
    while k < l.ducks.len()
        invariant
            k <= l.ducks@.len(),
            members@ == ids_of(l.ducks@).take(k as int),
        decreases l.ducks@.len() - k,
    {
        members.push(l.ducks[k].id);
        assert(ids_of(l.ducks@).take(k + 1) == ids_of(l.ducks@).take(k as int).push(
            l.ducks@[k as int].id,
        ));
        k = k + 1;
    }
    assert(ids_of(l.ducks@).take(l.ducks@.len() as int) == ids_of(l.ducks@));
    let mut r: Vec<u32> = Vec::new();
    push_ids_except(&mut r, &members, skip);
    push_ids_except(&mut r, &l.spectators, skip);
    assert(r@ =~= audience(*l, skip));
    r
}

/// A copy of `v`.
fn copy_bytes(v: &Vec<u8>) -> (r: Vec<u8>)
    ensures
        r@ == v@,
{
    let mut r: Vec<u8> = Vec::new();
    push_bytes(&mut r, v.as_slice());
    assert(r@ =~= v@);
    r
}

/// Whether `ids` holds `id`.
fn holds(ids: &Vec<u32>, id: u32) -> (r: bool)
    ensures
        r == ids@.contains(id),
{
    let mut k: usize = 0;
    while k < ids.len()
        invariant
            k <= ids@.len(),
            forall|j: int| 0 <= j < k ==> ids@[j] != id,
        decreases ids@.len() - k,
    {
        if ids[k] == id {
            return true;
        }
        k = k + 1;
    }
    false
}

impl GameServer {
    /// The server's invariant: at least the default lobby, every lobby well
    /// formed, connected ids distinct and not 0, and every member and
    /// spectator connected.
    pub open spec fn wf(&self) -> bool {
        &&& self.lobbies@.len() >= 1
        &&& self.lobbies@[0].name@ == default_lobby_name()
        &&& forall|l: int| 0 <= l < self.lobbies@.len() ==> (#[trigger] self.lobbies@[l]).wf()
        &&& forall|i: int| 0 <= i < self.connected@.len() ==> #[trigger] self.connected@[i] != 0
        &&& forall|i: int, j: int|
            0 <= i < j < self.connected@.len() ==> self.connected@[i] != self.connected@[j]
        &&& forall|l: int, k: int|
            0 <= l < self.lobbies@.len() && 0 <= k < self.lobbies@[l].ducks@.len()
                ==> self.connected@.contains(#[trigger] self.lobbies@[l].ducks@[k].id)
        &&& forall|l: int, k: int|
            0 <= l < self.lobbies@.len() && 0 <= k < self.lobbies@[l].spectators@.len()
                ==> self.connected@.contains(#[trigger] self.lobbies@[l].spectators@[k])
    }

    /// A server with the default lobby `main`, empty, and no connection.
    pub fn new(now_ms: u64) -> (s: GameServer)
        ensures
            s.wf(),
            s.connected@.len() == 0,
            s.lobbies@.len() == 1,
            s.lobbies@[0].ducks@.len() == 0,
            s.lobbies@[0].spectators@.len() == 0,
            !s.lobbies@[0].running(),
    {
        let name: Vec<u8> = vec![109u8, 97, 105, 110];
        let main = Lobby::new(name, now_ms);
        let mut lobbies: Vec<Lobby> = Vec::new();
        lobbies.push(main);
        GameServer { connected: Vec::new(), lobbies }
    }

    /// Whether `id` has a connection.
    pub fn is_connected(&self, id: u32) -> (r: bool)
        ensures
            r == self.connected@.contains(id),
    {
        holds(&self.connected, id)
    }

    /// The notices that tell `to` of every member of lobby `l`.
    fn roster_notices(&self, l: usize, to: u32, out: &mut Vec<Notice>)
        requires
            l < self.lobbies@.len(),
            self.lobbies@[l as int].wf(),
        ensures
            notices_view(final(out)@) == notices_view(old(out)@) + roster(
                self.lobbies@[l as int],
                to,
            ),
    {
        let lobby = &self.lobbies[l];
        let ghost start = out@;
        let mut k: usize = 0;
        while k < lobby.ducks.len()
            invariant
                lobby == self.lobbies@[l as int],
                lobby.wf(),
                k <= lobby.ducks@.len(),
                notices_view(out@) == notices_view(start) + roster(*lobby, to).take(k as int),
            decreases lobby.ducks@.len() - k,
        {
            let info = &lobby.infos[k];
            let cast = CastJoinGame {
                id: lobby.ducks[k].id,
                name: copy_bytes(&info.name),
                variety: copy_bytes(&info.variety),
                color: copy_bytes(&info.color),
            };
            let n = Notice { to: vec![to], text: cast.encode() };
            let ghost before = out@;
            out.push(n);
            proof {
                lemma_notices_push(before, n);
                assert(n.to@ == seq![to]);
                assert(roster(*lobby, to).take(k + 1) == roster(*lobby, to).take(k as int).push(
                    notice_view(n),
                ));
                assert(notices_view(out@) =~= notices_view(start) + roster(*lobby, to).take(
                    k + 1,
                ));
            }
            k = k + 1;
        }
        assert(roster(*lobby, to).take(lobby.ducks@.len() as int) == roster(*lobby, to));
    }

    /// Lets `id` join the default lobby, shown as `name`, `variety` and
    /// `color`. Refused (`None`, nothing changes) when `id` is 0 or already
    /// connected. Mid-round the joiner becomes a spectator and is told the
    /// round's timing and the members; otherwise they get a duck at the
    /// origin, are told of every member, and everyone else of them.
    pub fn join(&mut self, id: u32, name: Vec<u8>, variety: Vec<u8>, color: Vec<u8>) -> (r: Option<
        Vec<Notice>,
    >)
        requires
            old(self).wf(),
        ensures
            final(self).wf(),
            r.is_none() <==> (id == 0 || old(self).connected@.contains(id)),
            r.is_none() ==> *final(self) == *old(self),
            r.is_some() ==> joined(*old(self), *final(self), id, name@, variety@, color@, r.unwrap()@),
    {
        if id == 0 || holds(&self.connected, id) {
            return None;
        }
        let ghost s0 = *self;
        let mut out: Vec<Notice> = Vec::new();
        let re = Notice { to: vec![id], text: ReJoinGame { id }.encode() };
        out.push(re);
        proof {
            assert(re.to@ == seq![id]);
            assert(re.text@ == re_join_text(id));
            lemma_notices_push(Seq::empty(), re);
            assert(out@ == Seq::<Notice>::empty().push(re));
            assert(notices_view(out@) =~= seq![(seq![id], re_join_text(id))]);
        }
        if self.lobbies[0].is_running() {
            let start: u64 = match self.lobbies[0].start_ms {
                Some(s) => s / 1000,
                None => 0,
            };
            let cast = CastStartGame {
                start_time: start,
                game_duration: self.lobbies[0].duration_secs,
            };
            let timing = Notice { to: vec![id], text: cast.encode() };
            let ghost before = out@;
            out.push(timing);
            proof {
                lemma_notices_push(before, timing);
                assert(notices_view(out@) =~= seq![
                    (seq![id], re_join_text(id)),
                    (seq![id], cast_start_text(start, s0.lobbies@[0].duration_secs)),
                ]);
            }
            self.roster_notices(0, id, &mut out);
            self.lobbies[0].add_spectator(id);
        } else {
            self.roster_notices(0, id, &mut out);
            let everyone = audience_of(&self.lobbies[0], id);
            let cast = CastJoinGame {
                id,
                name: copy_bytes(&name),
                variety: copy_bytes(&variety),
                color: copy_bytes(&color),
            };
            let arrival = Notice { to: everyone, text: cast.encode() };
            let ghost before = out@;
            out.push(arrival);
            proof {
                lemma_notices_push(before, arrival);
                assert(notices_view(out@) =~= seq![(seq![id], re_join_text(id))] + roster(
                    s0.lobbies@[0],
                    id,
                ) + seq![(audience(s0.lobbies@[0], id), cast_join_text(id, name@, variety@, color@))]);
            }
            proof {
                assert forall|k: int| 0 <= k < s0.lobbies@[0].ducks@.len() implies s0.lobbies@[0].ducks@[k].id != id by {
                    assert(s0.connected@.contains(s0.lobbies@[0].ducks@[k].id));
                }
            }
            self.lobbies[0].add_member(id, DuckInfo { name, variety, color });
        }
        self.connected.push(id);
        proof {
            let ls = self.lobbies@;
            assert forall|l: int, k: int|
                0 <= l < ls.len() && 0 <= k < ls[l].ducks@.len() implies self.connected@.contains(
                #[trigger] ls[l].ducks@[k].id,
            ) by {
                if l != 0 || k < s0.lobbies@[0].ducks@.len() {
                    assert(ls[l].ducks@[k] == s0.lobbies@[l].ducks@[k]);
                    assert(s0.connected@.contains(ls[l].ducks@[k].id));
                    let j = choose|j: int|
                        0 <= j < s0.connected@.len() && s0.connected@[j] == ls[l].ducks@[k].id;
                    assert(self.connected@[j] == ls[l].ducks@[k].id);
                } else {
                    assert(self.connected@[s0.connected@.len() as int] == id);
                }
            }
            assert forall|l: int, k: int|
                0 <= l < ls.len() && 0 <= k < ls[l].spectators@.len() implies self.connected@.contains(
                #[trigger] ls[l].spectators@[k],
            ) by {
                if l != 0 || k < s0.lobbies@[0].spectators@.len() {
                    assert(ls[l].spectators@[k] == s0.lobbies@[l].spectators@[k]);
                    assert(s0.connected@.contains(ls[l].spectators@[k]));
                    let j = choose|j: int|
                        0 <= j < s0.connected@.len() && s0.connected@[j] == ls[l].spectators@[k];
                    assert(self.connected@[j] == ls[l].spectators@[k]);
                } else {
                    assert(self.connected@[s0.connected@.len() as int] == id);
                }
            }
            assert forall|l: int| 0 <= l < ls.len() implies (#[trigger] ls[l]).wf() by {
                if l != 0 {
                    assert(ls[l] == s0.lobbies@[l]);
                }
            }
        }
        Some(out)
    }

    /// Disconnects `id`: drops their connection, and removes them from every
    /// lobby, telling the rest of each lobby where they were a member. An id
    /// that is not connected changes nothing and sends nothing.
    pub fn leave(&mut self, id: u32) -> (r: Vec<Notice>)
        requires
            old(self).wf(),
        ensures
            final(self).wf(),
            !old(self).connected@.contains(id) ==> *final(self) == *old(self) && r@.len() == 0,
            old(self).connected@.contains(id) ==> {
                &&& final(self).connected@ == old(self).connected@.filter(other_than(id))
                &&& final(self).lobbies@.len() == old(self).lobbies@.len()
                &&& forall|l: int|
                    0 <= l < old(self).lobbies@.len() ==> without(
                        #[trigger] old(self).lobbies@[l],
                        final(self).lobbies@[l],
                        id,
                    )
                &&& notices_view(r@) == leave_notices(
                    old(self).lobbies@,
                    final(self).lobbies@,
                    id,
                )
            },
    {
        let mut out: Vec<Notice> = Vec::new();
        if !holds(&self.connected, id) {
            return out;
        }
        let ghost s0 = *self;
        let mut kept: Vec<u32> = Vec::new();
        push_ids_except(&mut kept, &self.connected, id);
        self.connected = kept;
        let ghost c = self.connected@;
        proof {
            reveal(Seq::filter);
            assert forall|x: u32| s0.connected@.contains(x) && x != id implies c.contains(x) by {
                let j = choose|j: int| 0 <= j < s0.connected@.len() && s0.connected@[j] == x;
                s0.connected@.lemma_filter_contains(other_than(id), j);
            }
            assert forall|x: u32| c.contains(x) implies s0.connected@.contains(x) && x != id by {
                s0.connected@.lemma_filter_contains_rev(other_than(id), x);
                let j = choose|j: int| 0 <= j < c.len() && c[j] == x;
                s0.connected@.lemma_filter_pred(other_than(id), j);
            }
        }
        let mut l: usize = 0;
        while l < self.lobbies.len()
            invariant
                self.connected@ == c,
                forall|x: u32| s0.connected@.contains(x) && x != id ==> c.contains(x),
                forall|x: u32| c.contains(x) ==> s0.connected@.contains(x) && x != id,
                self.lobbies@.len() == s0.lobbies@.len(),
                l <= s0.lobbies@.len(),
                forall|j: int|
                    0 <= j < l ==> without(#[trigger] s0.lobbies@[j], self.lobbies@[j], id),
                forall|j: int| 0 <= j < l ==> (#[trigger] self.lobbies@[j]).wf(),
                forall|j: int|
                    0 <= j < l ==> forall|k: int|
                        0 <= k < (#[trigger] self.lobbies@[j]).ducks@.len()
                            ==> self.lobbies@[j].ducks@[k].id != id,
                forall|j: int| l <= j < s0.lobbies@.len() ==> #[trigger] self.lobbies@[j] == s0.lobbies@[j],
                notices_view(out@) == leave_notices(
                    s0.lobbies@.take(l as int),
                    self.lobbies@.take(l as int),
                    id,
                ),
                s0.wf(),
            decreases s0.lobbies@.len() - l,
        {
            let ghost before = self.lobbies@;
            let was_member = self.lobbies[l].remove_participant(id);
            let ghost mid = self.lobbies@;
            proof {
                assert(mid.take(l as int) == before.take(l as int));
                assert(s0.lobbies@.take(l + 1).take(l as int) == s0.lobbies@.take(l as int));
                assert(mid.take(l + 1).take(l as int) == mid.take(l as int));
            }
            if was_member {
                let everyone = audience_of(&self.lobbies[l], 0);
                let n = Notice { to: everyone, text: CastLeaveGame { id }.encode() };
                let ghost prev = out@;
                out.push(n);
                proof {
                    lemma_notices_push(prev, n);
                }
            }
            l = l + 1;
        }
        proof {
            assert(s0.lobbies@.take(s0.lobbies@.len() as int) == s0.lobbies@);
            assert(self.lobbies@.take(s0.lobbies@.len() as int) == self.lobbies@);
            let ls = self.lobbies@;
            assert forall|a: int, k: int|
                0 <= a < ls.len() && 0 <= k < ls[a].ducks@.len() implies self.connected@.contains(
                #[trigger] ls[a].ducks@[k].id,
            ) by {
                let o = s0.lobbies@[a];
                assert(without(o, ls[a], id));
                if exists|m: int|
                    0 <= m < o.ducks@.len() && o.ducks@[m].id == id && ls[a].ducks@
                        == o.ducks@.remove(m) {
                    let m = choose|m: int|
                        0 <= m < o.ducks@.len() && o.ducks@[m].id == id && ls[a].ducks@
                            == o.ducks@.remove(m);
                    let k0 = if k < m { k } else { k + 1 };
                    assert(ls[a].ducks@[k] == o.ducks@[k0]);
                } else {
                    assert(ls[a].ducks@[k] == o.ducks@[k]);
                }
            }
            assert forall|a: int, k: int|
                0 <= a < ls.len() && 0 <= k < ls[a].spectators@.len() implies self.connected@.contains(
                #[trigger] ls[a].spectators@[k],
            ) by {
                let o = s0.lobbies@[a];
                let x = ls[a].spectators@[k];
                assert(without(o, ls[a], id));
                assert(ls[a].spectators@.contains(x));
                o.spectators@.lemma_filter_contains_rev(other_than(id), x);
                o.spectators@.lemma_filter_pred(other_than(id), k);
                let j = choose|j: int| 0 <= j < o.spectators@.len() && o.spectators@[j] == x;
                assert(s0.connected@.contains(o.spectators@[j]));
            }
            assert forall|i: int| 0 <= i < c.len() implies #[trigger] c[i] != 0 by {
                assert(c.contains(c[i]));
                let j = choose|j: int| 0 <= j < s0.connected@.len() && s0.connected@[j] == c[i];
            }
            assert forall|i: int, j: int| 0 <= i < j < c.len() implies c[i] != c[j] by {
                lemma_filter_distinct(s0.connected@, id, i, j);
            }
            assert(ls[0].name == s0.lobbies@[0].name);
        }
        out
    }

    /// The index of the first lobby named `name`.
    pub fn find_lobby(&self, name: &[u8]) -> (r: Option<usize>)
        ensures
            match r {
                Some(l) => l < self.lobbies@.len() && self.lobbies@[l as int].name@ == name@
                    && forall|j: int| 0 <= j < l ==> self.lobbies@[j].name@ != name@,
                None => forall|j: int|
                    0 <= j < self.lobbies@.len() ==> self.lobbies@[j].name@ != name@,
            },
    {
        let mut l: usize = 0;
        while l < self.lobbies.len()
            invariant
                l <= self.lobbies@.len(),
                forall|j: int| 0 <= j < l ==> self.lobbies@[j].name@ != name@,
            decreases self.lobbies@.len() - l,
        {
            if same_bytes(self.lobbies[l].name.as_slice(), name) {
                return Some(l);
            }
            l = l + 1;
        }
        None
    }

    /// The names of every lobby, in order.
    pub fn list_lobbies(&self) -> (r: Vec<Vec<u8>>)
        ensures
            r@.len() == self.lobbies@.len(),
            forall|l: int| 0 <= l < r@.len() ==> #[trigger] r@[l]@ == self.lobbies@[l].name@,
    {
        let mut r: Vec<Vec<u8>> = Vec::new();
        let mut l: usize = 0;
        while l < self.lobbies.len()
            invariant
                l <= self.lobbies@.len(),
                r@.len() == l,
                forall|j: int| 0 <= j < l ==> #[trigger] r@[j]@ == self.lobbies@[j].name@,
            decreases self.lobbies@.len() - l,
        {
            r.push(copy_bytes(&self.lobbies[l].name));
            l = l + 1;
        }
        r
    }

    /// `message` addressed to everyone in the first lobby named `lobby`
    /// but `skip_id`; to no one if there is no such lobby.
    pub fn send_message_to_lobby(&self, lobby: &[u8], message: Vec<u8>, skip_id: u32) -> (r:
        Notice)
        ensures
            r.text@ == message@,
            match self.find_lobby_spec(lobby@) {
                Some(l) => r.to@ == audience(self.lobbies@[l], skip_id),
                None => r.to@.len() == 0,
            },
    {
        match self.find_lobby(lobby) {
            Some(l) => Notice { to: audience_of(&self.lobbies[l], skip_id), text: message },
            None => Notice { to: Vec::new(), text: message },
        }
    }

    /// The index of the first lobby named `name`.
    pub open spec fn find_lobby_spec(&self, name: Seq<u8>) -> Option<int> {
        if exists|l: int| 0 <= l < self.lobbies@.len() && self.lobbies@[l].name@ == name {
            Some(
                choose|l: int|
                    0 <= l < self.lobbies@.len() && self.lobbies@[l].name@ == name && forall|j: int|
                        0 <= j < l ==> self.lobbies@[j].name@ != name,
            )
        } else {
            None
        }
    }

    /// The duck of member `id`, from the first lobby that has one.
    pub fn duck(&self, id: u32) -> (r: Option<Duck>)
        ensures
            match r {
                Some(d) => d.id == id && exists|l: int, k: int|
                    0 <= l < self.lobbies@.len() && 0 <= k < self.lobbies@[l].ducks@.len()
                        && self.lobbies@[l].ducks@[k] == d,
                None => forall|l: int, k: int|
                    0 <= l < self.lobbies@.len() && 0 <= k < self.lobbies@[l].ducks@.len()
                        ==> self.lobbies@[l].ducks@[k].id != id,
            },
    {
        let mut l: usize = 0;
        while l < self.lobbies.len()
            invariant
                l <= self.lobbies@.len(),
                forall|a: int, k: int|
                    0 <= a < l && 0 <= k < self.lobbies@[a].ducks@.len()
                        ==> self.lobbies@[a].ducks@[k].id != id,
            decreases self.lobbies@.len() - l,
        {
            match self.lobbies[l].member_index(id) {
                Some(k) => {
                    return Some(self.lobbies[l].ducks[k]);
                },
                None => {},
            }
            l = l + 1;
        }
        None
    }

    /// Moves the duck of `id` to `pos` facing `heading`, as its client says,
    /// in every lobby where `id` is a member; otherwise changes nothing.
    pub fn update(&mut self, id: u32, pos: Vec3, heading: i32)
        requires
            old(self).wf(),
        ensures
            final(self).wf(),
            final(self).connected == old(self).connected,
            final(self).lobbies@.len() == old(self).lobbies@.len(),
            forall|l: int|
                0 <= l < old(self).lobbies@.len() ==> {
                    let o = #[trigger] old(self).lobbies@[l];
                    let n = final(self).lobbies@[l];
                    &&& n.ducks@.len() == o.ducks@.len()
                    &&& forall|k: int|
                        0 <= k < o.ducks@.len() ==> #[trigger] n.ducks@[k] == moved(
                            o.ducks@[k],
                            id,
                            pos,
                            heading,
                        )
                    &&& n.infos == o.infos
                    &&& n.spectators == o.spectators
                    &&& n.breads == o.breads
                    &&& n.name == o.name
                    &&& n.start_ms == o.start_ms
                    &&& n.last_tick_ms == o.last_tick_ms
                    &&& n.duration_secs == o.duration_secs
                },
    {
        let ghost s0 = *self;
        let mut l: usize = 0;
        while l < self.lobbies.len()
            invariant
                self.connected == s0.connected,
                self.lobbies@.len() == s0.lobbies@.len(),
                l <= s0.lobbies@.len(),
                forall|j: int|
                    0 <= j < l ==> {
                        let o = #[trigger] s0.lobbies@[j];
                        let n = self.lobbies@[j];
                        &&& n.wf()
                        &&& n.ducks@.len() == o.ducks@.len()
                        &&& forall|k: int|
                            0 <= k < o.ducks@.len() ==> #[trigger] n.ducks@[k] == moved(
                                o.ducks@[k],
                                id,
                                pos,
                                heading,
                            )
                        &&& n.infos == o.infos
                        &&& n.spectators == o.spectators
                        &&& n.breads == o.breads
                        &&& n.name == o.name
                        &&& n.start_ms == o.start_ms
                        &&& n.last_tick_ms == o.last_tick_ms
                        &&& n.duration_secs == o.duration_secs
                    },
                forall|j: int| l <= j < s0.lobbies@.len() ==> #[trigger] self.lobbies@[j] == s0.lobbies@[j],
                s0.wf(),
            decreases s0.lobbies@.len() - l,
        {
            self.lobbies[l].apply_update(id, pos, heading);
            l = l + 1;
        }
        proof {
            let ls = self.lobbies@;
            assert forall|a: int| 0 <= a < ls.len() implies (#[trigger] ls[a]).wf() by {
                assert(ls[a] == ls[a]);
                let o = s0.lobbies@[a];
            }
            assert forall|a: int, k: int|
                0 <= a < ls.len() && 0 <= k < ls[a].ducks@.len() implies self.connected@.contains(
                #[trigger] ls[a].ducks@[k].id,
            ) by {
                let o = s0.lobbies@[a];
                assert(ls[a].ducks@[k] == moved(o.ducks@[k], id, pos, heading));
            }
            assert forall|a: int, k: int|
                0 <= a < ls.len() && 0 <= k < ls[a].spectators@.len() implies self.connected@.contains(
                #[trigger] ls[a].spectators@[k],
            ) by {
                let o = s0.lobbies@[a];
                assert(ls[a].spectators == o.spectators);
            }
        }
    }

    /// The server is `old` with lobby `l` replaced by `n`.
    pub open spec fn with_lobby(&self, old: GameServer, l: int, n: Lobby) -> bool {
        &&& self.connected == old.connected
        &&& self.lobbies@ == old.lobbies@.update(l, n)
    }

    /// Sets the round length of the first lobby named `lobby` and, unless a
    /// round runs there, starts one at `now_ms` and tells everyone in it when
    /// (seconds since the epoch) and for how long. No such lobby: nothing
    /// changes and nothing is sent.
    pub fn start_round(&mut self, lobby: &[u8], duration_secs: u64, now_ms: u64) -> (r: Vec<
        Notice,
    >)
        requires
            old(self).wf(),
        ensures
            final(self).wf(),
            round_started(*old(self), *final(self), lobby@, duration_secs, now_ms, r@),
    {
        let mut out: Vec<Notice> = Vec::new();
        match self.find_lobby(lobby) {
            None => out,
            Some(l) => {
                let ghost s0 = *self;
                let started = self.lobbies[l].start_round(duration_secs, now_ms);
                if started {
                    let cast = CastStartGame { start_time: now_ms / 1000, game_duration: duration_secs };
                    let n = Notice { to: audience_of(&self.lobbies[l], 0), text: cast.encode() };
                    out.push(n);
                    proof {
                        lemma_notices_push(Seq::empty(), n);
                        assert(out@ == Seq::<Notice>::empty().push(n));
                        assert(audience(self.lobbies@[l as int], 0) == audience(s0.lobbies@[l as int], 0));
                        assert(notices_view(out@) =~= seq![
                            (audience(s0.lobbies@[l as int], 0), cast_start_text(now_ms / 1000, duration_secs)),
                        ]);
                    }
                }
                proof {
                    assert(self.lobbies@ =~= s0.lobbies@.update(l as int, self.lobbies@[l as int]));
                    let ls = self.lobbies@;
                    assert forall|a: int| 0 <= a < ls.len() implies (#[trigger] ls[a]).wf() by {
                        if a != l {
                            assert(ls[a] == s0.lobbies@[a]);
                        }
                    }
                    assert forall|a: int, k: int|
                        0 <= a < ls.len() && 0 <= k < ls[a].ducks@.len() implies self.connected@.contains(
                        #[trigger] ls[a].ducks@[k].id,
                    ) by {
                        assert(ls[a].ducks == s0.lobbies@[a].ducks);
                    }
                    assert forall|a: int, k: int|
                        0 <= a < ls.len() && 0 <= k < ls[a].spectators@.len()
                            implies self.connected@.contains(#[trigger] ls[a].spectators@[k]) by {
                        assert(ls[a].spectators == s0.lobbies@[a].spectators);
                    }
                }
                out
            },
        }
    }

    /// Runs one tick of every lobby at `now_ms`, lobby `l` with spawn draw
    /// `draws[l]`: each sends its sync packet to everyone in it and, when
    /// its round ended, the end notice.
    pub fn tick(&mut self, now_ms: u64, draws: &Vec<SpawnDraw>) -> (r: Vec<LobbyTick>)
        requires
            old(self).wf(),
            draws@.len() == old(self).lobbies@.len(),
        ensures
            final(self).wf(),
            final(self).connected == old(self).connected,
            final(self).lobbies@.len() == old(self).lobbies@.len(),
            r@.len() == old(self).lobbies@.len(),
            forall|l: int|
                0 <= l < old(self).lobbies@.len() ==> {
                    let n = final(self).lobbies@[l];
                    let t = #[trigger] r@[l];
                    &&& ticked(old(self).lobbies@[l], n, now_ms, draws@[l], t.report)
                    &&& t.recipients@ == audience(n, 0)
                    &&& notices_view(t.notices@) == if t.report.podium.is_some() {
                        seq![(audience(n, 0), cast_end_text())]
                    } else {
                        seq![]
                    }
                },
    {
        let ghost s0 = *self;
        let mut out: Vec<LobbyTick> = Vec::new();
        let mut l: usize = 0;
        while l < self.lobbies.len()
            invariant
                self.connected == s0.connected,
                self.lobbies@.len() == s0.lobbies@.len(),
                draws@.len() == s0.lobbies@.len(),
                l <= s0.lobbies@.len(),
                out@.len() == l,
                forall|j: int|
                    0 <= j < l ==> {
                        let n = self.lobbies@[j];
                        let t = #[trigger] out@[j];
                        &&& n.wf()
                        &&& ticked(s0.lobbies@[j], n, now_ms, draws@[j], t.report)
                        &&& t.recipients@ == audience(n, 0)
                        &&& notices_view(t.notices@) == if t.report.podium.is_some() {
                            seq![(audience(n, 0), cast_end_text())]
                        } else {
                            seq![]
                        }
                    },
                forall|j: int| l <= j < s0.lobbies@.len() ==> #[trigger] self.lobbies@[j] == s0.lobbies@[j],
                s0.wf(),
            decreases s0.lobbies@.len() - l,
        {
            let report = self.lobbies[l].tick(now_ms, draws[l]);
            let recipients = audience_of(&self.lobbies[l], 0);
            let mut notices: Vec<Notice> = Vec::new();
            if report.podium.is_some() {
                let n = Notice { to: audience_of(&self.lobbies[l], 0), text: CastEndGame {}.encode() };
                notices.push(n);
                proof {
                    lemma_notices_push(Seq::empty(), n);
                    assert(notices@ == Seq::<Notice>::empty().push(n));
                }
            } else {
                assert(notices_view(notices@) =~= seq![]);
            }
            out.push(LobbyTick { recipients, report, notices });
            l = l + 1;
        }
        proof {
            let ls = self.lobbies@;
            assert forall|a: int, k: int|
                0 <= a < ls.len() && 0 <= k < ls[a].ducks@.len() implies self.connected@.contains(
                #[trigger] ls[a].ducks@[k].id,
            ) by {
                let o = s0.lobbies@[a];
                let t = out@[a];
                assert(ticked(o, ls[a], now_ms, draws@[a], t.report));
                if o.over_at(now_ms as int) {
                    assert(ls[a].ducks@[k].id == t.report.packet.ducks@[k].id);
                    assert(t.report.packet.ducks@[k] == placed(t.report.podium.unwrap()@, o.ducks@[k]));
                } else {
                    assert(ls[a].ducks@[k] == fed(o.ducks@, fallen(o.breads@, elapsed(o.last_tick_ms, now_ms)), k));
                }
                assert(ls[a].ducks@[k].id == o.ducks@[k].id);
            }
            assert forall|a: int, k: int|
                0 <= a < ls.len() && 0 <= k < ls[a].spectators@.len() implies self.connected@.contains(
                #[trigger] ls[a].spectators@[k],
            ) by {
                let t = out@[a];
                assert(ticked(s0.lobbies@[a], ls[a], now_ms, draws@[a], t.report));
                assert(ls[a].spectators == s0.lobbies@[a].spectators);
            }
            let t0 = out@[0];
            assert(ticked(s0.lobbies@[0], ls[0], now_ms, draws@[0], t0.report));
            assert forall|a: int| 0 <= a < ls.len() implies (#[trigger] ls[a]).wf() by {
                let t = out@[a];
            }
            assert(ls[0].name == s0.lobbies@[0].name);
        }
        out
    }

    /// Joins the default lobby under a random id: draws up to `ID_ATTEMPTS`
    /// ids and takes the first that is not 0 and not connected. `None`, and
    /// nothing changes, when every draw collided.
    pub fn join_random(&mut self, name: Vec<u8>, variety: Vec<u8>, color: Vec<u8>) -> (r: Option<
        (u32, Vec<Notice>),
    >)
        requires
            old(self).wf(),
        ensures
            final(self).wf(),
            r.is_none() ==> *final(self) == *old(self),
            r.is_some() ==> {
                let (id, notices) = r.unwrap();
                &&& id != 0
                &&& !old(self).connected@.contains(id)
                &&& joined(*old(self), *final(self), id, name@, variety@, color@, notices@)
            },
    {
        let mut attempt: usize = 0;
        while attempt < ID_ATTEMPTS
            invariant
                self.wf(),
                *self == *old(self),
            decreases ID_ATTEMPTS - attempt,
        {
            let candidate: u32 = rand::random::<u32>();
            if candidate != 0 && !holds(&self.connected, candidate) {
                match self.join(candidate, name, variety, color) {
                    Some(notices) => {
                        return Some((candidate, notices));
                    },
                    None => {
                        return None;
                    },
                }
            }
            attempt = attempt + 1;
        }
        None
    }

    /// Runs one tick at `now_ms` with a random spawn roll for each lobby;
    /// lobby `l` would spawn its bread above `spots[l]` (x, z).
    pub fn tick_random(&mut self, now_ms: u64, spots: &Vec<(i32, i32)>) -> (r: Vec<LobbyTick>)
        requires
            old(self).wf(),
            spots@.len() == old(self).lobbies@.len(),
        ensures
            final(self).wf(),
            final(self).connected == old(self).connected,
            final(self).lobbies@.len() == old(self).lobbies@.len(),
            r@.len() == old(self).lobbies@.len(),
            forall|l: int|
                0 <= l < old(self).lobbies@.len() ==> exists|d: SpawnDraw|
                    {
                        &&& d.x == spots@[l].0
                        &&& d.z == spots@[l].1
                        &&& d.roll <= SPAWN_ROLL_MAX
                        &&& ticked(
                            old(self).lobbies@[l],
                            final(self).lobbies@[l],
                            now_ms,
                            d,
                            (#[trigger] r@[l]).report,
                        )
                    },
    {
        let mut draws: Vec<SpawnDraw> = Vec::new();
        let mut l: usize = 0;
        while l < spots.len()
            invariant
                l <= spots@.len(),
                draws@.len() == l,
                forall|j: int|
                    0 <= j < l ==> (#[trigger] draws@[j]).x == spots@[j].0 && draws@[j].z
                        == spots@[j].1 && draws@[j].roll <= SPAWN_ROLL_MAX,
            decreases spots@.len() - l,
        {
            let (x, z) = spots[l];
            let roll = roll_at_most(SPAWN_ROLL_MAX);
            draws.push(SpawnDraw { roll, x, z });
            l = l + 1;
        }
        let r = self.tick(now_ms, &draws);
        proof {
            assert forall|l: int| 0 <= l < r@.len() implies exists|d: SpawnDraw|
                {
                    &&& d.x == spots@[l].0
                    &&& d.z == spots@[l].1
                    &&& d.roll <= SPAWN_ROLL_MAX
                    &&& ticked(old(self).lobbies@[l], self.lobbies@[l], now_ms, d, (#[trigger] r@[l]).report)
                } by {
                let d = draws@[l];
                assert(ticked(old(self).lobbies@[l], self.lobbies@[l], now_ms, d, r@[l].report));
            }
        }
        r
    }

    /// Joins under a random id, as an outcome.
    fn join_outcome(&mut self, name: Vec<u8>, variety: Vec<u8>, color: Vec<u8>) -> (r: Outcome)
        requires
            old(self).wf(),
        ensures
            final(self).wf(),
            joined_or_refused(*old(self), *final(self), name@, variety@, color@, r),
    {
        match self.join_random(name, variety, color) {
            Some((id, notices)) => Outcome::Joined { id, notices },
            None => Outcome::Refused,
        }
    }

    /// Handles a command from the session of `sender` at `now_ms`: a join
    /// (`join_game` or `/info`) joins the default lobby under a random id;
    /// `vote_start_game` starts the default lobby's round with its current
    /// length; `/start_game` starts the named lobby's round; `/list` answers
    /// the sender with every lobby's name; `/join` changes nothing.
    pub fn handle_command(&mut self, sender: u32, cmd: Command, now_ms: u64) -> (r: Outcome)
        requires
            old(self).wf(),
        ensures
            final(self).wf(),
            match cmd {
                Command::JoinGame { name, variety, color } => joined_or_refused(
                    *old(self),
                    *final(self),
                    name@,
                    variety@,
                    color@,
                    r,
                ),
                Command::Connect { name, variety, color } => joined_or_refused(
                    *old(self),
                    *final(self),
                    name@,
                    variety@,
                    color@,
                    r,
                ),
                Command::VoteStartGame => match r {
                    Outcome::Sent { notices } => round_started(
                        *old(self),
                        *final(self),
                        default_lobby_name(),
                        old(self).lobbies@[0].duration_secs,
                        now_ms,
                        notices@,
                    ),
                    _ => false,
                },
                Command::StartLobby { lobby, game_duration } => match r {
                    Outcome::Sent { notices } => round_started(
                        *old(self),
                        *final(self),
                        lobby@,
                        game_duration,
                        now_ms,
                        notices@,
                    ),
                    _ => false,
                },
                Command::ListLobbies => match r {
                    Outcome::Sent { notices } => *final(self) == *old(self) && notices_view(notices@)
                        == seq![
                        (
                            seq![sender],
                            lobby_list_text(lobby_names(old(self).lobbies@)),
                        ),
                    ],
                    _ => false,
                },
                Command::JoinLobby { .. } => match r {
                    Outcome::Sent { notices } => *final(self) == *old(self) && notices@.len() == 0,
                    _ => false,
                },
            },
    {
        match cmd {
            Command::JoinGame { name, variety, color } => self.join_outcome(name, variety, color),
            Command::Connect { name, variety, color } => self.join_outcome(name, variety, color),
            Command::VoteStartGame => {
                let name: Vec<u8> = vec![109u8, 97, 105, 110];
                let duration = self.lobbies[0].duration_secs;
                proof {
                    assert(name@ == default_lobby_name());
                }
                let notices = self.start_round(name.as_slice(), duration, now_ms);
                Outcome::Sent { notices }
            },
            Command::StartLobby { lobby, game_duration } => {
                let notices = self.start_round(lobby.as_slice(), game_duration, now_ms);
                Outcome::Sent { notices }
            },
            Command::ListLobbies => {
                let names = self.list_lobbies();
                let text = encode_lobby_list(&names);
                let n = Notice { to: vec![sender], text };
                let mut notices: Vec<Notice> = Vec::new();
                notices.push(n);
                proof {
                    assert(names_view(names@) =~= lobby_names(self.lobbies@));
                    lemma_notices_push(Seq::empty(), n);
                    assert(notices@ == Seq::<Notice>::empty().push(n));
                    assert(n.to@ == seq![sender]);
                    assert(n.text@ == lobby_list_text(lobby_names(self.lobbies@)));
                    assert(notices_view(notices@) =~= seq![
                        (seq![sender], lobby_list_text(lobby_names(self.lobbies@))),
                    ]);
                }
                Outcome::Sent { notices }
            },
            Command::JoinLobby { .. } => Outcome::Sent { notices: Vec::new() },
        }
    }
}

} // verus!
