use duck_server::codec::{
    encode_lobby_list, push_decimal, CastEndGame, CastJoinGame, CastLeaveGame, CastStartGame,
    ReJoinGame,
};
use duck_server::command::{parse_command, parse_number, split_once_at, trim, Command};

fn s(v: Vec<u8>) -> String {
    String::from_utf8(v).unwrap()
}

#[test]
fn decimal_digits() {
    for n in [0u64, 7, 10, 99, 4_294_967_295, u64::MAX] {
        let mut out = b"x".to_vec();
        push_decimal(&mut out, n);
        assert_eq!(s(out), format!("x{n}"));
    }
}

#[test]
fn notices_encode_as_lines() {
    assert_eq!(s(ReJoinGame { id: 123 }.encode()), "re:join_game\n123");
    let cast = CastJoinGame {
        id: 4000000000,
        name: b"A".to_vec(),
        variety: b"mallard".to_vec(),
        color: b"white".to_vec(),
    };
    assert_eq!(s(cast.encode()), "cast:join_game\n4000000000\nA\nmallard\nwhite");
    assert_eq!(s(CastLeaveGame { id: 0 }.encode()), "cast:leave_game\n0");
    let start = CastStartGame { start_time: 1_700_000_000, game_duration: 120 };
    assert_eq!(s(start.encode()), "cast:start_game\n1700000000\n120");
    assert_eq!(s(CastEndGame {}.encode()), "cast:end_game");
}

#[test]
fn lobby_list_reply() {
    assert_eq!(s(encode_lobby_list(&Vec::new())), "/list");
    let names = vec![b"main".to_vec(), b"side".to_vec()];
    assert_eq!(s(encode_lobby_list(&names)), "/list\nmain\nside");
}

#[test]
fn trimming_and_splitting() {
    assert_eq!(trim(b"  \t/list \r\n"), b"/list".to_vec());
    assert_eq!(trim(b"   "), Vec::<u8>::new());
    assert_eq!(split_once_at(b"a b c", b' '), (b"a".to_vec(), Some(b"b c".to_vec())));
    assert_eq!(split_once_at(b"abc", b' '), (b"abc".to_vec(), None));
    assert_eq!(split_once_at(b"abc ", b' '), (b"abc".to_vec(), Some(Vec::new())));
}

#[test]
fn numbers_parse_like_unsigned_decimal() {
    assert_eq!(parse_number(b"0"), Some(0));
    assert_eq!(parse_number(b"120"), Some(120));
    assert_eq!(parse_number(b"+5"), Some(5));
    assert_eq!(parse_number(b"18446744073709551615"), Some(u64::MAX));
    assert_eq!(parse_number(b"18446744073709551616"), None);
    assert_eq!(parse_number(b""), None);
    assert_eq!(parse_number(b"+"), None);
    assert_eq!(parse_number(b"-1"), None);
    assert_eq!(parse_number(b"12a"), None);
}

#[test]
fn join_game_command() {
    match parse_command(b"join_game\nA\nmallard\nwhite\n") {
        Some(Command::JoinGame { name, variety, color }) => {
            assert_eq!((name, variety, color), (b"A".to_vec(), b"mallard".to_vec(), b"white".to_vec()));
        }
        other => panic!("unexpected {other:?}"),
    }
    match parse_command(b"join_game\nA\nmallard\nwhite\nextra") {
        Some(Command::JoinGame { color, .. }) => assert_eq!(color, b"white".to_vec()),
        other => panic!("unexpected {other:?}"),
    }
    assert!(parse_command(b"join_game\nA\nmallard").is_none());
}

#[test]
fn vote_and_list_commands() {
    assert!(matches!(parse_command(b"vote_start_game"), Some(Command::VoteStartGame)));
    assert!(matches!(parse_command(b" /list "), Some(Command::ListLobbies)));
    assert!(matches!(parse_command(b"/list everything"), Some(Command::ListLobbies)));
    assert!(parse_command(b"hello").is_none());
    assert!(parse_command(b"/unknown").is_none());
    assert!(parse_command(b"").is_none());
}

#[test]
fn slash_commands_with_fields() {
    match parse_command(b"/join side") {
        Some(Command::JoinLobby { name }) => assert_eq!(name, b"side".to_vec()),
        other => panic!("unexpected {other:?}"),
    }
    assert!(parse_command(b"/join").is_none());
    match parse_command(b"/info A mallard light blue") {
        Some(Command::Connect { name, variety, color }) => {
            assert_eq!(name, b"A".to_vec());
            assert_eq!(variety, b"mallard".to_vec());
            assert_eq!(color, b"light blue".to_vec());
        }
        other => panic!("unexpected {other:?}"),
    }
    assert!(parse_command(b"/info A mallard").is_none());
    match parse_command(b"/start_game main 90") {
        Some(Command::StartLobby { lobby, game_duration }) => {
            assert_eq!(lobby, b"main".to_vec());
            assert_eq!(game_duration, 90);
        }
        other => panic!("unexpected {other:?}"),
    }
    assert!(parse_command(b"/start_game main soon").is_none());
    assert!(parse_command(b"/start_game main").is_none());
}
