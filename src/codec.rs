//! The text protocol: outbound notices as bytes, and decimal numbers.
use vstd::prelude::*;

verus! {

/// Line feed, which separates the fields of a notice.
pub const NEWLINE: u8 = 10;

/// Space, which separates the fields of a slash command.
pub const SPACE: u8 = 32;

/// The ASCII digit `0`.
pub const DIGIT_ZERO: u8 = 48;

/// The decimal digits of `n`, most significant first, with no leading zero.
pub open spec fn decimal(n: nat) -> Seq<u8>
    decreases n,
{
    if n < 10 {
        seq![(DIGIT_ZERO + n) as u8]
    } else {
        decimal(n / 10).push((DIGIT_ZERO + n % 10) as u8)
    }
}

/// Appends the decimal digits of `n`.
pub fn push_decimal(out: &mut Vec<u8>, n: u64)
    ensures
        final(out)@ == old(out)@ + decimal(n as nat),
    decreases n,
{
    if n >= 10 {
        push_decimal(out, n / 10);
    }
    out.push(DIGIT_ZERO + (n % 10) as u8);
    assert(final(out)@ =~= old(out)@ + decimal(n as nat));
}

/// Appends `bytes`.
pub fn push_bytes(out: &mut Vec<u8>, bytes: &[u8])
    ensures
        final(out)@ == old(out)@ + bytes@,
{
    let ghost start = out@;
    let mut i: usize = 0;
    while i < bytes.len()
        invariant
            i <= bytes@.len(),
            out@ == start + bytes@.take(i as int),
        decreases bytes@.len() - i,
    {
        out.push(bytes[i]);
        assert(bytes@.take(i + 1) == bytes@.take(i as int).push(bytes@[i as int]));
        i = i + 1;
    }
    assert(bytes@.take(bytes@.len() as int) == bytes@);
}

/// `re:join_game`
pub open spec fn tag_re_join() -> Seq<u8> {
    seq![114u8, 101, 58, 106, 111, 105, 110, 95, 103, 97, 109, 101]
}

/// `cast:join_game`
pub open spec fn tag_cast_join() -> Seq<u8> {
    seq![99u8, 97, 115, 116, 58, 106, 111, 105, 110, 95, 103, 97, 109, 101]
}

/// `cast:leave_game`
pub open spec fn tag_cast_leave() -> Seq<u8> {
    seq![99u8, 97, 115, 116, 58, 108, 101, 97, 118, 101, 95, 103, 97, 109, 101]
}

/// `cast:start_game`
pub open spec fn tag_cast_start() -> Seq<u8> {
    seq![99u8, 97, 115, 116, 58, 115, 116, 97, 114, 116, 95, 103, 97, 109, 101]
}

/// `cast:end_game`
pub open spec fn tag_cast_end() -> Seq<u8> {
    seq![99u8, 97, 115, 116, 58, 101, 110, 100, 95, 103, 97, 109, 101]
}

/// `/list`
pub open spec fn tag_list() -> Seq<u8> {
    seq![47u8, 108, 105, 115, 116]
}

/// A tag followed by one number on its own line.
pub open spec fn tagged_number(tag: Seq<u8>, n: nat) -> Seq<u8> {
    tag.push(NEWLINE) + decimal(n)
}

/// Text of the reply that tells a joiner their id.
pub open spec fn re_join_text(id: u32) -> Seq<u8> {
    tagged_number(tag_re_join(), id as nat)
}

/// Text of the notice that a duck joined.
pub open spec fn cast_join_text(id: u32, name: Seq<u8>, variety: Seq<u8>, color: Seq<u8>) -> Seq<
    u8,
> {
    tagged_number(tag_cast_join(), id as nat).push(NEWLINE) + name + seq![NEWLINE] + variety
        + seq![NEWLINE] + color
}

/// Text of the notice that a duck left.
pub open spec fn cast_leave_text(id: u32) -> Seq<u8> {
    tagged_number(tag_cast_leave(), id as nat)
}

/// Text of the notice that a round started at `start_secs` (since the
/// epoch) for `duration_secs`.
pub open spec fn cast_start_text(start_secs: u64, duration_secs: u64) -> Seq<u8> {
    tagged_number(tag_cast_start(), start_secs as nat).push(NEWLINE) + decimal(
        duration_secs as nat,
    )
}

/// Text of the notice that a round ended.
pub open spec fn cast_end_text() -> Seq<u8> {
    tag_cast_end()
}

/// The reply that tells a joiner their id.
#[derive(Clone, Copy, Debug, PartialEq, Eq, Structural)]
pub struct ReJoinGame {
    pub id: u32,
}

impl ReJoinGame {
    pub fn encode(&self) -> (r: Vec<u8>)
        ensures
            r@ == re_join_text(self.id),
    {
        let mut r: Vec<u8> = vec![114u8, 101, 58, 106, 111, 105, 110, 95, 103, 97, 109, 101];
        assert(r@ == tag_re_join());
        r.push(NEWLINE);
        push_decimal(&mut r, self.id as u64);
        r
    }
}

/// The notice that a duck joined, with how it is shown.
#[derive(Clone, Debug)]
pub struct CastJoinGame {
    pub id: u32,
    pub name: Vec<u8>,
    pub variety: Vec<u8>,
    pub color: Vec<u8>,
}

impl CastJoinGame {
    pub fn encode(&self) -> (r: Vec<u8>)
        ensures
            r@ == cast_join_text(self.id, self.name@, self.variety@, self.color@),
    {
        let mut r: Vec<u8> = vec![99u8, 97, 115, 116, 58, 106, 111, 105, 110, 95, 103, 97, 109, 101];
        assert(r@ == tag_cast_join());
        r.push(NEWLINE);
        push_decimal(&mut r, self.id as u64);
        r.push(NEWLINE);
        push_bytes(&mut r, self.name.as_slice());
        r.push(NEWLINE);
        push_bytes(&mut r, self.variety.as_slice());
        r.push(NEWLINE);
        push_bytes(&mut r, self.color.as_slice());
        assert(r@ =~= cast_join_text(self.id, self.name@, self.variety@, self.color@));
        r
    }
}

/// The notice that a duck left.
#[derive(Clone, Copy, Debug, PartialEq, Eq, Structural)]
pub struct CastLeaveGame {
    pub id: u32,
}

impl CastLeaveGame {
    pub fn encode(&self) -> (r: Vec<u8>)
        ensures
            r@ == cast_leave_text(self.id),
    {
        let mut r: Vec<u8> = vec![
            99u8, 97, 115, 116, 58, 108, 101, 97, 118, 101, 95, 103, 97, 109, 101,
        ];
        assert(r@ == tag_cast_leave());
        r.push(NEWLINE);
        push_decimal(&mut r, self.id as u64);
        r
    }
}

/// The notice that a round started: when (seconds since the epoch) and for
/// how long (seconds).
#[derive(Clone, Copy, Debug, PartialEq, Eq, Structural)]
pub struct CastStartGame {
    pub start_time: u64,
    pub game_duration: u64,
}

impl CastStartGame {
    pub fn encode(&self) -> (r: Vec<u8>)
        ensures
            r@ == cast_start_text(self.start_time, self.game_duration),
    {
        let mut r: Vec<u8> = vec![
            99u8, 97, 115, 116, 58, 115, 116, 97, 114, 116, 95, 103, 97, 109, 101,
        ];
        assert(r@ == tag_cast_start());
        r.push(NEWLINE);
        push_decimal(&mut r, self.start_time);
        r.push(NEWLINE);
        push_decimal(&mut r, self.game_duration);
        assert(r@ =~= cast_start_text(self.start_time, self.game_duration));
        r
    }
}

/// The notice that a round ended.
#[derive(Clone, Copy, Debug, PartialEq, Eq, Structural)]
pub struct CastEndGame {}

impl CastEndGame {
    pub fn encode(&self) -> (r: Vec<u8>)
        ensures
            r@ == cast_end_text(),
    {
        let r: Vec<u8> = vec![99u8, 97, 115, 116, 58, 101, 110, 100, 95, 103, 97, 109, 101];
        assert(r@ == tag_cast_end());
        r
    }
}

/// Text of the reply that lists lobby names, one per line after `/list`.
pub open spec fn lobby_list_text(names: Seq<Seq<u8>>) -> Seq<u8>
    decreases names.len(),
{
    if names.len() == 0 {
        tag_list()
    } else {
        lobby_list_text(names.drop_last()).push(NEWLINE) + names.last()
    }
}

/// The names of a list of byte strings, as plain values.
pub open spec fn names_view(names: Seq<Vec<u8>>) -> Seq<Seq<u8>> {
    names.map_values(|n: Vec<u8>| n@)
}

/// The reply that lists lobby names.
pub fn encode_lobby_list(names: &Vec<Vec<u8>>) -> (r: Vec<u8>)
    ensures
        r@ == lobby_list_text(names_view(names@)),
{
    let mut r: Vec<u8> = vec![47u8, 108, 105, 115, 116];
    assert(r@ == tag_list());
    let mut i: usize = 0;
    assert(names_view(names@).take(0) =~= Seq::<Seq<u8>>::empty());
    while i < names.len()
        invariant
            i <= names@.len(),
            r@ == lobby_list_text(names_view(names@).take(i as int)),
        decreases names@.len() - i,
    {
        r.push(NEWLINE);
        push_bytes(&mut r, names[i].as_slice());
        proof {
            let t = names_view(names@).take(i + 1);
            assert(t.drop_last() == names_view(names@).take(i as int));
            assert(t.last() == names@[i as int]@);
        }
        i = i + 1;
    }
    assert(names_view(names@).take(names@.len() as int) == names_view(names@));
    r
}

} // verus!
