//! Inbound text commands, decoded once into a closed set of variants.
use vstd::prelude::*;
use crate::codec::{NEWLINE, SPACE};

verus! {

/// The ASCII slash that opens a lobby command.
pub const SLASH: u8 = 47;

/// The ASCII plus sign, allowed in front of a number.
pub const PLUS: u8 = 43;

/// A command from a client.
#[derive(Clone, Debug)]
pub enum Command {
    /// `join_game`, then name, variety and color on their own lines.
    JoinGame { name: Vec<u8>, variety: Vec<u8>, color: Vec<u8> },
    /// `vote_start_game`.
    VoteStartGame,
    /// `/list`.
    ListLobbies,
    /// `/join <lobby>`.
    JoinLobby { name: Vec<u8> },
    /// `/info <name> <variety> <color>`; the color is the rest of the line.
    Connect { name: Vec<u8>, variety: Vec<u8>, color: Vec<u8> },
    /// `/start_game <lobby> <seconds>`.
    StartLobby { lobby: Vec<u8>, game_duration: u64 },
}

/// `join_game`
pub open spec fn word_join_game() -> Seq<u8> {
    seq![106u8, 111, 105, 110, 95, 103, 97, 109, 101]
}

/// `vote_start_game`
pub open spec fn word_vote_start() -> Seq<u8> {
    seq![118u8, 111, 116, 101, 95, 115, 116, 97, 114, 116, 95, 103, 97, 109, 101]
}

/// `/list`
pub open spec fn word_list() -> Seq<u8> {
    seq![47u8, 108, 105, 115, 116]
}

/// `/join`
pub open spec fn word_join() -> Seq<u8> {
    seq![47u8, 106, 111, 105, 110]
}

/// `/info`
pub open spec fn word_info() -> Seq<u8> {
    seq![47u8, 105, 110, 102, 111]
}

/// `/start_game`
pub open spec fn word_start() -> Seq<u8> {
    seq![47u8, 115, 116, 97, 114, 116, 95, 103, 97, 109, 101]
}

/// ASCII white space: tab, line feed, vertical tab, form feed, carriage
/// return and space.
pub open spec fn is_space(b: u8) -> bool {
    b == SPACE || (9 <= b && b <= 13)
}

/// `s` without its leading white space.
pub open spec fn trim_front(s: Seq<u8>) -> Seq<u8>
    decreases s.len(),
{
    if s.len() > 0 && is_space(s[0]) {
        trim_front(s.skip(1))
    } else {
        s
    }
}

/// `s` without its trailing white space.
pub open spec fn trim_back(s: Seq<u8>) -> Seq<u8>
    decreases s.len(),
{
    if s.len() > 0 && is_space(s.last()) {
        trim_back(s.drop_last())
    } else {
        s
    }
}

/// `s` without white space at either end.
pub open spec fn trimmed(s: Seq<u8>) -> Seq<u8> {
    trim_back(trim_front(s))
}

/// `k` is the first position of `b` in `s`.
pub open spec fn first_at(s: Seq<u8>, b: u8, k: int) -> bool {
    0 <= k < s.len() && s[k] == b && forall|j: int| 0 <= j < k ==> s[j] != b
}

/// What comes before the first `b` of `s`; all of `s` if it has none.
pub open spec fn head(s: Seq<u8>, b: u8) -> Seq<u8> {
    if exists|k: int| first_at(s, b, k) {
        s.take(choose|k: int| first_at(s, b, k))
    } else {
        s
    }
}

/// What comes after the first `b` of `s`, if it has one.
pub open spec fn tail(s: Seq<u8>, b: u8) -> Option<Seq<u8>> {
    if exists|k: int| first_at(s, b, k) {
        Some(s.skip((choose|k: int| first_at(s, b, k)) + 1))
    } else {
        None
    }
}

pub open spec fn is_digit(b: u8) -> bool {
    48 <= b && b <= 57
}

/// Every byte of `d` is a decimal digit.
pub open spec fn all_digits(d: Seq<u8>) -> bool {
    forall|i: int| 0 <= i < d.len() ==> is_digit(#[trigger] d[i])
}

/// The value of a string of decimal digits.
pub open spec fn digits_value(s: Seq<u8>) -> nat
    decreases s.len(),
{
    if s.len() == 0 {
        0
    } else {
        digits_value(s.drop_last()) * 10 + (s.last() - 48) as nat
    }
}

/// The number that `s` writes in decimal, with an optional leading `+`, if
/// it is one and fits in 64 bits.
pub open spec fn number_of(s: Seq<u8>) -> Option<u64> {
    let d = if s.len() > 0 && s[0] == PLUS {
        s.skip(1)
    } else {
        s
    };
    if d.len() > 0 && all_digits(d) && digits_value(d) <= u64::MAX {
        Some(digits_value(d) as u64)
    } else {
        None
    }
}

/// `r` is the command that the text `s` holds: `None` for a line that is
/// no command, or lacks a field.
pub open spec fn parses_as(s: Seq<u8>, r: Option<Command>) -> bool {
    let t = trimmed(s);
    let word = head(t, NEWLINE);
    if word == word_join_game() && tail(t, NEWLINE).is_some() && tail(
        tail(t, NEWLINE).unwrap(),
        NEWLINE,
    ).is_some() && tail(tail(tail(t, NEWLINE).unwrap(), NEWLINE).unwrap(), NEWLINE).is_some() {
        let f1 = tail(t, NEWLINE).unwrap();
        let f2 = tail(f1, NEWLINE).unwrap();
        let f3 = tail(f2, NEWLINE).unwrap();
        match r {
            Some(Command::JoinGame { name, variety, color }) => name@ == head(f1, NEWLINE)
                && variety@ == head(f2, NEWLINE) && color@ == head(f3, NEWLINE),
            _ => false,
        }
    } else if word == word_vote_start() {
        r matches Some(Command::VoteStartGame)
    } else if t.len() > 0 && t[0] == SLASH {
        let h = head(t, SPACE);
        let rest = tail(t, SPACE);
        if h == word_list() {
            r matches Some(Command::ListLobbies)
        } else if h == word_join() {
            match rest {
                Some(n) => match r {
                    Some(Command::JoinLobby { name }) => name@ == n,
                    _ => false,
                },
                None => r.is_none(),
            }
        } else if h == word_info() {
            if rest.is_some() && tail(rest.unwrap(), SPACE).is_some() && tail(
                tail(rest.unwrap(), SPACE).unwrap(),
                SPACE,
            ).is_some() {
                let a = rest.unwrap();
                let b = tail(a, SPACE).unwrap();
                match r {
                    Some(Command::Connect { name, variety, color }) => name@ == head(a, SPACE)
                        && variety@ == head(b, SPACE) && color@ == tail(b, SPACE).unwrap(),
                    _ => false,
                }
            } else {
                r.is_none()
            }
        } else if h == word_start() {
            if rest.is_some() && tail(rest.unwrap(), SPACE).is_some() && number_of(
                tail(rest.unwrap(), SPACE).unwrap(),
            ).is_some() {
                let a = rest.unwrap();
                match r {
                    Some(Command::StartLobby { lobby, game_duration }) => lobby@ == head(a, SPACE)
                        && game_duration == number_of(tail(a, SPACE).unwrap()).unwrap(),
                    _ => false,
                }
            } else {
                r.is_none()
            }
        } else {
            r.is_none()
        }
    } else {
        r.is_none()
    }
}

/// The bytes of `s` from `lo` up to `hi`.
fn slice_copy(s: &[u8], lo: usize, hi: usize) -> (r: Vec<u8>)
    requires
        lo <= hi <= s@.len(),
    ensures
        r@ == s@.subrange(lo as int, hi as int),
{
    let mut r: Vec<u8> = Vec::new();
    let mut i: usize = lo;
    while i < hi
        invariant
            lo <= i <= hi <= s@.len(),
            r@ == s@.subrange(lo as int, i as int),
        decreases hi - i,
    {
        r.push(s[i]);
        assert(s@.subrange(lo as int, i + 1) == s@.subrange(lo as int, i as int).push(s@[i as int]));
        i = i + 1;
    }
    r
}

/// `s` without white space at either end.
pub fn trim(s: &[u8]) -> (r: Vec<u8>)
    ensures
        r@ == trimmed(s@),
{
    let mut lo: usize = 0;
    assert(s@.skip(0) == s@);
    while lo < s.len() && (s[lo] == SPACE || (9 <= s[lo] && s[lo] <= 13))
        invariant
            lo <= s@.len(),
            trim_front(s@) == trim_front(s@.skip(lo as int)),
        decreases s@.len() - lo,
    {
        assert(s@.skip(lo as int).skip(1) == s@.skip(lo + 1));
        lo = lo + 1;
    }
    let ghost t = s@.skip(lo as int);
    assert(trim_front(s@) == t);
    let mut hi: usize = s.len();
    while hi > lo && (s[hi - 1] == SPACE || (9 <= s[hi - 1] && s[hi - 1] <= 13))
        invariant
            lo <= hi <= s@.len(),
            t == s@.skip(lo as int),
            trim_back(t) == trim_back(s@.subrange(lo as int, hi as int)),
        decreases hi - lo,
    {
        assert(s@.subrange(lo as int, hi as int).drop_last() == s@.subrange(lo as int, hi - 1));
        hi = hi - 1;
    }
    assert(s@.subrange(lo as int, s@.len() as int) == t);
    slice_copy(s, lo, hi)
}

/// Splits `s` at its first `b`: what comes before, and what comes after if
/// there is a `b`.
pub fn split_once_at(s: &[u8], b: u8) -> (r: (Vec<u8>, Option<Vec<u8>>))
    ensures
        r.0@ == head(s@, b),
        match r.1 {
            Some(t) => tail(s@, b) == Some(t@),
            None => tail(s@, b).is_none(),
        },
{
    let mut k: usize = 0;
    while k < s.len()
        invariant
            k <= s@.len(),
            forall|j: int| 0 <= j < k ==> s@[j] != b,
        decreases s@.len() - k,
    {
        if s[k] == b {
            assert(first_at(s@, b, k as int));
            proof {
                let c = choose|c: int| first_at(s@, b, c);
                assert(c == k);
            }
            let before = slice_copy(s, 0, k);
            let after = slice_copy(s, k + 1, s.len());
            assert(before@ == s@.take(k as int));
            assert(after@ == s@.skip(k + 1));
            return (before, Some(after));
        }
        k = k + 1;
    }
    assert(!exists|c: int| first_at(s@, b, c));
    let all = slice_copy(s, 0, s.len());
    assert(all@ == s@);
    (all, None)
}

/// A prefix of a string of digits is worth no more than the whole.
proof fn lemma_digits_monotone(s: Seq<u8>, k: int)
    requires
        0 <= k <= s.len(),
    ensures
        digits_value(s.take(k)) <= digits_value(s),
    decreases s.len() - k,
{
    if k < s.len() {
        lemma_digits_monotone(s, k + 1);
        assert(s.take(k + 1).drop_last() == s.take(k));
    } else {
        assert(s.take(k) == s);
    }
}

/// The number that `s` writes in decimal, if it is one and fits in 64 bits.
pub fn parse_number(s: &[u8]) -> (r: Option<u64>)
    ensures
        r == number_of(s@),
{
    let start: usize = if s.len() > 0 && s[0] == PLUS {
        1
    } else {
        0
    };
    let ghost d = if s@.len() > 0 && s@[0] == PLUS {
        s@.skip(1)
    } else {
        s@
    };
    assert(d == s@.skip(start as int));
    assert(number_of(s@) == if d.len() > 0 && all_digits(d) && digits_value(d) <= u64::MAX {
        Some(digits_value(d) as u64)
    } else {
        None
    });
    if start == s.len() {
        return None;
    }
    let mut v: u64 = 0;
    let mut i: usize = start;
    while i < s.len()
        invariant
            start <= i <= s@.len(),
            d == s@.skip(start as int),
            number_of(s@) == if d.len() > 0 && all_digits(d) && digits_value(d) <= u64::MAX {
                Some(digits_value(d) as u64)
            } else {
                None
            },
            v == digits_value(d.take(i - start)),
            forall|j: int| 0 <= j < i - start ==> is_digit(#[trigger] d[j]),
        decreases s@.len() - i,
    {
        let c = s[i];
        assert(d.take(i - start + 1).drop_last() == d.take(i - start));
        assert(d.take(i - start + 1).last() == c);
        assert(d[i - start] == c);
        if c < 48 || c > 57 {
            assert(!is_digit(d[i - start]));
            return None;
        }
        let digit: u64 = (c - 48) as u64;
        if v > (u64::MAX - digit) / 10 {
            proof {
                assert(v * 10 + digit > u64::MAX) by (nonlinear_arith)
                    requires
                        v > (u64::MAX - digit) / 10,
                        digit <= 9,
                ;
                lemma_digits_monotone(d, i - start + 1);
                assert(digits_value(d.take(i - start + 1)) == v * 10 + digit);
                assert(digits_value(d) > u64::MAX);
            }
            return None;
        }
        v = v * 10 + digit;
        i = i + 1;
    }
    assert(d.take(d.len() as int) == d);
    Some(v)
}

/// Whether `s` is the word `w`.
fn is_word(s: &Vec<u8>, w: &Vec<u8>) -> (r: bool)
    ensures
        r == (s@ == w@),
{
    crate::world::same_bytes(s.as_slice(), w.as_slice())
}

/// Decodes one text frame into a command; `None` for a frame that is no
/// command or lacks a field.
pub fn parse_command(text: &[u8]) -> (r: Option<Command>)
    ensures
        parses_as(text@, r),
{
    let t = trim(text);
    let (word, rest) = split_once_at(t.as_slice(), NEWLINE);
    let join_game: Vec<u8> = vec![106u8, 111, 105, 110, 95, 103, 97, 109, 101];
    let vote: Vec<u8> = vec![118u8, 111, 116, 101, 95, 115, 116, 97, 114, 116, 95, 103, 97, 109, 101];
    if is_word(&word, &join_game) {
        if let Some(f1) = rest {
            let (name, r2) = split_once_at(f1.as_slice(), NEWLINE);
            if let Some(f2) = r2 {
                let (variety, r3) = split_once_at(f2.as_slice(), NEWLINE);
                if let Some(f3) = r3 {
                    let (color, _) = split_once_at(f3.as_slice(), NEWLINE);
                    return Some(Command::JoinGame { name, variety, color });
                }
            }
        }
    }
    if is_word(&word, &vote) {
        return Some(Command::VoteStartGame);
    }
    if t.len() == 0 || t[0] != SLASH {
        return None;
    }
    let (h, rest) = split_once_at(t.as_slice(), SPACE);
    let list: Vec<u8> = vec![47u8, 108, 105, 115, 116];
    let join: Vec<u8> = vec![47u8, 106, 111, 105, 110];
    let info: Vec<u8> = vec![47u8, 105, 110, 102, 111];
    let start: Vec<u8> = vec![47u8, 115, 116, 97, 114, 116, 95, 103, 97, 109, 101];
    if is_word(&h, &list) {
        Some(Command::ListLobbies)
    } else if is_word(&h, &join) {
        match rest {
            Some(name) => Some(Command::JoinLobby { name }),
            None => None,
        }
    } else if is_word(&h, &info) {
        match rest {
            Some(a) => {
                let (name, rb) = split_once_at(a.as_slice(), SPACE);
                match rb {
                    Some(b) => {
                        let (variety, rc) = split_once_at(b.as_slice(), SPACE);
                        match rc {
                            Some(color) => Some(Command::Connect { name, variety, color }),
                            None => None,
                        }
                    },
                    None => None,
                }
            },
            None => None,
        }
    } else if is_word(&h, &start) {
        match rest {
            Some(a) => {
                let (lobby, rd) = split_once_at(a.as_slice(), SPACE);
                match rd {
                    Some(d) => match parse_number(d.as_slice()) {
                        Some(game_duration) => Some(Command::StartLobby { lobby, game_duration }),
                        None => None,
                    },
                    None => None,
                }
            },
            None => None,
        }
    } else {
        None
    }
}

} // verus!
