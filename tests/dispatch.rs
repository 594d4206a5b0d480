use duck_server::command::Command;
use duck_server::world::{GameServer, Outcome};

#[test]
fn join_command_assigns_an_id() {
    let mut s = GameServer::new(0);
    let cmd = Command::JoinGame { name: b"A".to_vec(), variety: b"mallard".to_vec(), color: b"white".to_vec() };
    match s.handle_command(0, cmd, 10) {
        Outcome::Joined { id, notices } => {
            assert_ne!(id, 0);
            assert!(s.is_connected(id));
            assert_eq!(notices[0].to, vec![id]);
        }
        other => panic!("unexpected {other:?}"),
    }
}

#[test]
fn vote_starts_default_lobby_with_its_length() {
    let mut s = GameServer::new(0);
    s.join(8, b"A".to_vec(), b"v".to_vec(), b"c".to_vec()).unwrap();
    match s.handle_command(8, Command::VoteStartGame, 3_000) {
        Outcome::Sent { notices } => {
            assert_eq!(notices.len(), 1);
            assert_eq!(String::from_utf8(notices[0].text.clone()).unwrap(), "cast:start_game\n3\n120");
        }
        other => panic!("unexpected {other:?}"),
    }
    assert_eq!(s.lobbies[0].start_ms, Some(3_000));
}

#[test]
fn start_lobby_and_list_commands() {
    let mut s = GameServer::new(0);
    let cmd = Command::StartLobby { lobby: b"main".to_vec(), game_duration: 45 };
    assert!(matches!(s.handle_command(1, cmd, 0), Outcome::Sent { .. }));
    assert_eq!(s.lobbies[0].duration_secs, 45);
    match s.handle_command(77, Command::ListLobbies, 0) {
        Outcome::Sent { notices } => {
            assert_eq!(notices[0].to, vec![77]);
            assert_eq!(notices[0].text, b"/list\nmain".to_vec());
        }
        other => panic!("unexpected {other:?}"),
    }
    match s.handle_command(77, Command::JoinLobby { name: b"x".to_vec() }, 0) {
        Outcome::Sent { notices } => assert!(notices.is_empty()),
        other => panic!("unexpected {other:?}"),
    }
}
