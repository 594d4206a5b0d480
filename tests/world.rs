use duck_server::lobby::{Duck, SpawnDraw, BREAD_LIMIT, SPAWN_ROLL_MAX};
use duck_server::physics::Vec3;
use duck_server::world::{GameServer, Notice};

const NO_SPAWN: SpawnDraw = SpawnDraw { roll: SPAWN_ROLL_MAX, x: 0, z: 0 };

fn text(n: &Notice) -> String {
    String::from_utf8(n.text.clone()).unwrap()
}

fn join(s: &mut GameServer, id: u32, name: &str, variety: &str, color: &str) -> Vec<Notice> {
    s.join(id, name.as_bytes().to_vec(), variety.as_bytes().to_vec(), color.as_bytes().to_vec())
        .expect("join refused")
}

#[test]
fn first_join_gets_its_id_and_an_empty_roster() {
    let mut s = GameServer::new(0);
    let notices = join(&mut s, 7, "A", "mallard", "white");
    assert_eq!(notices.len(), 2);
    assert_eq!(notices[0].to, vec![7]);
    assert_eq!(text(&notices[0]), "re:join_game\n7");
    assert_eq!(notices[1].to, Vec::<u32>::new());
    assert_eq!(text(&notices[1]), "cast:join_game\n7\nA\nmallard\nwhite");
    assert!(s.is_connected(7));
    assert_eq!(s.lobbies[0].ducks, vec![Duck::new(7)]);
}

#[test]
fn second_join_receives_roster_with_first_duck() {
    let mut s = GameServer::new(0);
    join(&mut s, 7, "A", "mallard", "white");
    let notices = join(&mut s, 9, "B", "teal", "green");
    assert_eq!(notices.len(), 3);
    assert_eq!(text(&notices[0]), "re:join_game\n9");
    assert_eq!(notices[1].to, vec![9]);
    assert_eq!(text(&notices[1]), "cast:join_game\n7\nA\nmallard\nwhite");
    assert_eq!(notices[2].to, vec![7]);
    assert_eq!(text(&notices[2]), "cast:join_game\n9\nB\nteal\ngreen");
}

#[test]
fn join_refuses_zero_and_taken_ids() {
    let mut s = GameServer::new(0);
    join(&mut s, 7, "A", "mallard", "white");
    assert!(s.join(7, b"C".to_vec(), b"x".to_vec(), b"y".to_vec()).is_none());
    assert!(s.join(0, b"C".to_vec(), b"x".to_vec(), b"y".to_vec()).is_none());
    assert_eq!(s.connected, vec![7]);
}

#[test]
fn join_mid_round_makes_a_spectator() {
    let mut s = GameServer::new(0);
    join(&mut s, 7, "A", "mallard", "white");
    s.start_round(b"main", 30, 5_000);
    let notices = join(&mut s, 9, "B", "teal", "green");
    assert_eq!(text(&notices[0]), "re:join_game\n9");
    assert_eq!(text(&notices[1]), "cast:start_game\n5\n30");
    assert_eq!(text(&notices[2]), "cast:join_game\n7\nA\nmallard\nwhite");
    assert_eq!(notices.len(), 3);
    assert_eq!(s.lobbies[0].spectators, vec![9]);
    assert_eq!(s.lobbies[0].ducks.len(), 1);
}

#[test]
fn submitted_update_is_stored_exactly() {
    let mut s = GameServer::new(0);
    join(&mut s, 42, "A", "mallard", "white");
    s.update(42, Vec3 { x: 1000, y: 2000, z: 3000 }, 500);
    let d = s.duck(42).unwrap();
    assert_eq!(d.pos, Vec3 { x: 1000, y: 2000, z: 3000 });
    assert_eq!(d.heading, 500);
    assert_eq!(d.score, 0);
}

#[test]
fn update_of_unknown_id_changes_nothing() {
    let mut s = GameServer::new(0);
    join(&mut s, 42, "A", "mallard", "white");
    s.update(43, Vec3 { x: 1, y: 2, z: 3 }, 4);
    assert_eq!(s.duck(42).unwrap(), Duck::new(42));
    assert!(s.duck(43).is_none());
}

#[test]
fn leave_of_unknown_id_is_a_no_op() {
    let mut s = GameServer::new(0);
    join(&mut s, 7, "A", "mallard", "white");
    let before = s.connected.clone();
    let notices = s.leave(99);
    assert!(notices.is_empty());
    assert_eq!(s.connected, before);
    assert_eq!(s.lobbies[0].ducks.len(), 1);
    assert!(s.leave(99).is_empty());
}

#[test]
fn leave_tells_the_rest_of_the_lobby() {
    let mut s = GameServer::new(0);
    join(&mut s, 7, "A", "mallard", "white");
    join(&mut s, 9, "B", "teal", "green");
    let notices = s.leave(7);
    assert_eq!(notices.len(), 1);
    assert_eq!(notices[0].to, vec![9]);
    assert_eq!(text(&notices[0]), "cast:leave_game\n7");
    assert!(!s.is_connected(7));
    assert!(s.duck(7).is_none());
    assert!(s.leave(7).is_empty());
}

#[test]
fn spectator_leaves_without_notice() {
    let mut s = GameServer::new(0);
    join(&mut s, 7, "A", "mallard", "white");
    s.start_round(b"main", 30, 0);
    join(&mut s, 9, "B", "teal", "green");
    assert!(s.leave(9).is_empty());
    assert!(s.lobbies[0].spectators.is_empty());
    assert!(!s.is_connected(9));
}

#[test]
fn start_round_notifies_once() {
    let mut s = GameServer::new(0);
    join(&mut s, 7, "A", "mallard", "white");
    let n = s.start_round(b"main", 60, 12_345);
    assert_eq!(n.len(), 1);
    assert_eq!(n[0].to, vec![7]);
    assert_eq!(text(&n[0]), "cast:start_game\n12\n60");
    assert_eq!(s.lobbies[0].start_ms, Some(12_345));
    let again = s.start_round(b"main", 90, 20_000);
    assert!(again.is_empty());
    assert_eq!(s.lobbies[0].start_ms, Some(12_345));
    assert_eq!(s.lobbies[0].duration_secs, 90);
}

#[test]
fn start_round_of_unknown_lobby_is_a_no_op() {
    let mut s = GameServer::new(0);
    assert!(s.start_round(b"nowhere", 60, 1).is_empty());
    assert_eq!(s.lobbies[0].start_ms, None);
    assert_eq!(s.lobbies[0].duration_secs, 120);
}

#[test]
fn falling_bread_is_eaten_once() {
    let mut s = GameServer::new(0);
    join(&mut s, 5, "A", "mallard", "white");
    s.update(5, Vec3 { x: 0, y: 100, z: 0 }, 0);
    s.lobbies[0].breads.push(Vec3 { x: 0, y: 10_000, z: 0 });
    let mut now = 0;
    let mut ticks = 0;
    while !s.lobbies[0].breads.is_empty() {
        now += 50;
        ticks += 1;
        assert!(ticks < 1000);
        let out = s.tick(now, &vec![NO_SPAWN]);
        assert_eq!(out.len(), 1);
        assert_eq!(out[0].recipients, vec![5]);
        assert!(out[0].report.podium.is_none());
        assert!(out[0].report.packet.bread.is_none());
    }
    assert_eq!(s.duck(5).unwrap().score, 1);
    for _ in 0..10 {
        now += 50;
        s.tick(now, &vec![NO_SPAWN]);
    }
    assert_eq!(s.duck(5).unwrap().score, 1);
}

#[test]
fn spawn_only_while_running_and_below_threshold() {
    let mut s = GameServer::new(0);
    join(&mut s, 5, "A", "mallard", "white");
    let draw = SpawnDraw { roll: 0, x: 3000, z: -2000 };
    let out = s.tick(50, &vec![draw]);
    assert!(out[0].report.packet.bread.is_none());
    s.start_round(b"main", 60, 50);
    let out = s.tick(100, &vec![SpawnDraw { roll: 150_001, x: 1, z: 1 }]);
    assert!(out[0].report.packet.bread.is_none());
    let out = s.tick(150, &vec![SpawnDraw { roll: 150_000, x: 3000, z: -2000 }]);
    assert_eq!(out[0].report.packet.bread, Some(Vec3 { x: 3000, y: 10_000, z: -2000 }));
    assert_eq!(s.lobbies[0].breads, vec![Vec3 { x: 3000, y: 10_000, z: -2000 }]);
}

#[test]
fn bread_count_stays_at_limit() {
    let mut s = GameServer::new(0);
    s.start_round(b"main", 600, 0);
    for i in 0..BREAD_LIMIT {
        s.lobbies[0].breads.push(Vec3 { x: 100_000 + i as i32, y: 100, z: 0 });
    }
    let out = s.tick(50, &vec![SpawnDraw { roll: 0, x: 0, z: 0 }]);
    assert!(out[0].report.packet.bread.is_none());
    assert_eq!(s.lobbies[0].breads.len(), BREAD_LIMIT);
    s.lobbies[0].breads.pop();
    let out = s.tick(100, &vec![SpawnDraw { roll: 0, x: 0, z: 0 }]);
    assert!(out[0].report.packet.bread.is_some());
    assert_eq!(s.lobbies[0].breads.len(), BREAD_LIMIT);
}

#[test]
fn round_of_one_second_ends_with_podium() {
    let mut s = GameServer::new(0);
    for id in [11u32, 12, 13, 14] {
        join(&mut s, id, "d", "mallard", "white");
    }
    s.start_round(b"main", 1, 1_000);
    s.lobbies[0].ducks[1].score = 4;
    s.lobbies[0].ducks[3].score = 4;
    s.lobbies[0].ducks[2].score = 1;
    let out = s.tick(1_999, &vec![NO_SPAWN]);
    assert!(out[0].report.podium.is_none());
    assert!(s.lobbies[0].is_running());
    let out = s.tick(2_000, &vec![NO_SPAWN]);
    let podium = out[0].report.podium.clone().unwrap();
    let ids: Vec<u32> = podium.iter().map(|p| p.id).collect();
    assert_eq!(ids, vec![12, 14, 13]);
    assert!(!s.lobbies[0].is_running());
    assert!(s.lobbies[0].breads.is_empty());
    assert_eq!(out[0].notices.len(), 1);
    assert_eq!(text(&out[0].notices[0]), "cast:end_game");
    assert_eq!(out[0].notices[0].to, vec![11, 12, 13, 14]);
    let packet = &out[0].report.packet;
    let at = |id: u32| packet.ducks.iter().find(|d| d.id == id).unwrap().pos;
    assert_eq!(at(12), Vec3 { x: -1250, y: 0, z: -500 });
    assert_eq!(at(14), Vec3 { x: 0, y: 0, z: -500 });
    assert_eq!(at(13), Vec3 { x: 1250, y: 0, z: -500 });
    assert_eq!(at(11), Vec3 { x: 0, y: 0, z: 4000 });
    assert_eq!(packet.ducks.iter().find(|d| d.id == 12).unwrap().score, 4);
    assert!(s.lobbies[0].ducks.iter().all(|d| d.score == 0));
    assert_eq!(s.lobbies[0].ducks.len(), 4);
}

#[test]
fn podium_with_fewer_than_three_ducks() {
    let mut s = GameServer::new(0);
    join(&mut s, 3, "a", "b", "c");
    join(&mut s, 4, "a", "b", "c");
    s.start_round(b"main", 1, 0);
    let out = s.tick(1_000, &vec![NO_SPAWN]);
    let podium = out[0].report.podium.clone().unwrap();
    assert_eq!(podium.len(), 2);
    assert_eq!(podium[0].id, 3);
    assert_eq!(podium[1].id, 4);
}

#[test]
fn random_joins_get_distinct_nonzero_ids() {
    let mut s = GameServer::new(0);
    let mut ids = Vec::new();
    for _ in 0..20 {
        let (id, notices) = s.join_random(b"d".to_vec(), b"v".to_vec(), b"c".to_vec()).unwrap();
        assert_ne!(id, 0);
        assert_eq!(String::from_utf8(notices[0].text.clone()).unwrap(), format!("re:join_game\n{id}"));
        ids.push(id);
    }
    let mut sorted = ids.clone();
    sorted.sort();
    sorted.dedup();
    assert_eq!(sorted.len(), 20);
    assert_eq!(s.connected, ids);
}

#[test]
fn random_ticks_spawn_bread_while_running() {
    let mut s = GameServer::new(0);
    s.start_round(b"main", 600, 0);
    let mut spawned = 0;
    for i in 1..=300u64 {
        let out = s.tick_random(i * 50, &vec![(1234, -4321)]);
        if let Some(b) = out[0].report.packet.bread {
            assert_eq!((b.x, b.y, b.z), (1234, 10_000, -4321));
            spawned += 1;
        }
    }
    assert!(spawned > 0);
    assert!(spawned < 300);
}

#[test]
fn lobby_list_and_broadcast() {
    let mut s = GameServer::new(0);
    join(&mut s, 7, "A", "mallard", "white");
    join(&mut s, 9, "B", "teal", "green");
    let names = s.list_lobbies();
    assert_eq!(names, vec![b"main".to_vec()]);
    let n = s.send_message_to_lobby(b"main", b"hello".to_vec(), 7);
    assert_eq!(n.to, vec![9]);
    assert_eq!(n.text, b"hello".to_vec());
    let none = s.send_message_to_lobby(b"other", b"hello".to_vec(), 0);
    assert!(none.to.is_empty());
}
