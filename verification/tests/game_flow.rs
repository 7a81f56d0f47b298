//! Movement rules, pheromone dynamics, sessions, lobby and drivers.
use fourmilaby::ai::AntAI;
use fourmilaby::ai::DfsPath;
use fourmilaby::ai::ProbabilisticAnt;
use fourmilaby::client::ClientInstance;
use fourmilaby::client::ClientState;
use fourmilaby::config::LobbyConfig;
use fourmilaby::error::ServerError;
use fourmilaby::lobby::Lobby;
use fourmilaby::lobby::MatchDecision;
use fourmilaby::maze::Maze;
use fourmilaby::messages::InfoMessageBody;
use fourmilaby::messages::JoinMessageBody;
use fourmilaby::messages::Message;
use fourmilaby::messages::MoveDirection;
use fourmilaby::messages::MoveMessageBody;
use fourmilaby::messages::OkMazeMessageBody;
use fourmilaby::messages::invert_move_direction;
use fourmilaby::record::GameRecordState;
use fourmilaby::session::GameSession;
use fourmilaby::session::TickOutcome;
use fourmilaby::state::GameState;
use fourmilaby::state::PHER_SCALE;
use fourmilaby::state::PlayerInfo;

/// A 3 by 1 corridor: nest at (0,0), food at (2,0), no interior walls,
/// with the border hull in place.
fn corridor() -> Maze {
    // south|north walls on every tile; west wall on the first, east on the last.
    let hull = 0x01u8 | 0x08;
    let tiles = [hull | 0x02 | 0x10, hull, hull | 0x04 | 0x20];
    Maze::new(3, 1, &tiles).unwrap()
}

fn move_msg(direction: MoveDirection) -> Message {
    Message::Move(MoveMessageBody { direction })
}

#[test]
fn movement_into_wall_leaves_position_unchanged() {
    let mut state = GameState::new(corridor());
    let player = PlayerInfo { position: (0, 0), has_food: false };
    // West is the hull: blocked.
    let after = state.process_movement(player, &MoveMessageBody { direction: MoveDirection::West });
    assert_eq!(after.position, (0, 0));
    assert!(!after.has_food);
}

#[test]
fn movement_off_the_grid_leaves_position_unchanged() {
    // A hull-less single tile: every direction leaves the grid.
    let mut state = GameState::new(Maze::new(1, 1, &[0x10u8]).unwrap());
    let player = PlayerInfo { position: (0, 0), has_food: false };
    for direction in [
        MoveDirection::North,
        MoveDirection::South,
        MoveDirection::East,
        MoveDirection::West,
    ] {
        let after = state.process_movement(player, &MoveMessageBody { direction });
        assert_eq!(after.position, (0, 0));
    }
}

#[test]
fn food_is_picked_up_and_deposited() {
    let mut state = GameState::new(corridor());
    let mut player = PlayerInfo { position: (1, 0), has_food: false };
    // Move east onto the food tile: food picked up.
    player = state.process_movement(player, &MoveMessageBody { direction: MoveDirection::East });
    assert_eq!(player.position, (2, 0));
    assert!(player.has_food);
    // Walk back to the nest: carrying food drops pheromone on the way.
    player = state.process_movement(player, &MoveMessageBody { direction: MoveDirection::West });
    assert_eq!(player.position, (1, 0));
    assert!(player.has_food);
    assert_eq!(state.pheromon[1], 200000);
    // At the nest the food is deposited.
    player = state.process_movement(player, &MoveMessageBody { direction: MoveDirection::West });
    assert_eq!(player.position, (0, 0));
    assert!(!player.has_food);
}

#[test]
fn pheromone_drop_saturates_at_one() {
    let mut state = GameState::new(corridor());
    for _ in 0..7 {
        state.drop_pheromon((1, 0));
    }
    assert_eq!(state.pheromon[1], PHER_SCALE);
    // Out of bounds is a no-op.
    state.drop_pheromon((9, 9));
    assert_eq!(state.pheromon, vec![0, PHER_SCALE, 0]);
}

#[test]
fn evaporation_reduces_nonzero_and_keeps_zero() {
    let mut state = GameState::new(corridor());
    state.drop_pheromon((1, 0));
    assert_eq!(state.pheromon[1], 200000);
    state.update_pheromon();
    // 0.2 evaporates to exactly 0.18; zero levels stay zero.
    assert_eq!(state.pheromon, vec![0, 180000, 0]);
    state.update_pheromon();
    assert_eq!(state.pheromon[1], 162000);
}

#[test]
fn session_join_move_and_gather() {
    let mut session = GameSession::new(GameState::new(corridor()), false);
    session.init_player(77).unwrap();
    // A move east answers with an info snapshot of the new position.
    let mut columns = Vec::new();
    let mut foods = Vec::new();
    for _ in 0..3 {
        let reply = session.process_player_message(77, &move_msg(MoveDirection::East), 0);
        match reply {
            Message::Info(InfoMessageBody { player_column, player_has_food, .. }) => {
                columns.push(player_column);
                foods.push(player_has_food);
            },
            other => panic!("expected an info, got {:?}", other),
        }
    }
    // Two steps reach the food; the third is blocked by the hull.
    assert_eq!(columns, vec![1, 2, 2]);
    assert_eq!(foods, vec![false, true, true]);
}

#[test]
fn session_rejects_double_connection_and_reattaches() {
    let mut session = GameSession::new(GameState::new(corridor()), false);
    session.init_player(1).unwrap();
    match session.init_player(1) {
        Err(ServerError::AlreadyConnected) => (),
        other => panic!("expected AlreadyConnected, got {:?}", other),
    }
    // After a disconnect the same identity reattaches, keeping its state.
    let reply = session.process_player_message(1, &move_msg(MoveDirection::East), 0);
    let column = match reply {
        Message::Info(b) => b.player_column,
        other => panic!("expected an info, got {:?}", other),
    };
    assert_eq!(column, 1);
    session.mark_disconnected(1);
    session.init_player(1).unwrap();
    let reply = session.process_player_message(1, &move_msg(MoveDirection::East), 0);
    match reply {
        Message::Info(b) => assert_eq!(b.player_column, 2),
        other => panic!("expected an info, got {:?}", other),
    }
}

#[test]
fn session_answers_unexpected_for_non_move() {
    let mut session = GameSession::new(GameState::new(corridor()), false);
    session.init_player(5).unwrap();
    let join = Message::Join(JoinMessageBody { difficulty: 0, player_id: None });
    let reply = session.process_player_message(5, &join, 0);
    match reply {
        Message::Unexpected { expected, received } => {
            assert_eq!(expected, vec![String::from("move")]);
            match *received {
                Message::Join(b) => assert_eq!(b.difficulty, 0),
                other => panic!("expected the echoed join, got {:?}", other),
            }
        },
        other => panic!("expected an unexpected reply, got {:?}", other),
    }
    // The session stays usable afterwards.
    let reply = session.process_player_message(5, &move_msg(MoveDirection::East), 0);
    assert!(matches!(reply, Message::Info(_)));
}

#[test]
fn tick_broadcasts_to_connected_players_only() {
    let mut session = GameSession::new(GameState::new(corridor()), false);
    session.init_player(1).unwrap();
    session.init_player(2).unwrap();
    session.mark_disconnected(2);
    match session.tick_players() {
        TickOutcome::Broadcast(sends) => {
            assert_eq!(sends.len(), 1);
            assert_eq!(sends[0].0, 1);
            assert!(matches!(sends[0].1, Message::Info(_)));
        },
        TickOutcome::Stop(_) => panic!("expected a broadcast"),
    }
    session.mark_disconnected(1);
    match session.tick_players() {
        TickOutcome::Stop(record) => assert!(record.is_none()),
        TickOutcome::Broadcast(_) => panic!("expected the session to stop"),
    }
}

#[test]
fn snapshots_are_unaffected_by_later_mutations() {
    let mut state = GameState::new(corridor());
    state.drop_pheromon((1, 0));
    let snapshot = state.snapshot_pheromon();
    state.update_pheromon();
    state.drop_pheromon((0, 0));
    // The snapshot handed out earlier still holds the old levels.
    assert_eq!(snapshot, vec![0, 200000, 0]);
    assert_eq!(state.pheromon, vec![200000, 180000, 0]);
}

#[test]
fn evaporation_shows_up_in_the_next_broadcast() {
    let mut session = GameSession::new(GameState::new(corridor()), false);
    session.init_player(6).unwrap();
    // Drop pheromone at (1, 0) so the level becomes 0.2, then run one
    // evaporation tick: the next info must carry 0.18 at index 1 + 0 * 3.
    session.state.drop_pheromon((1, 0));
    session.tick_evaporate();
    match session.tick_players() {
        TickOutcome::Broadcast(sends) => match &sends[0].1 {
            Message::Info(body) => assert_eq!(body.pheromon[1], 180000),
            other => panic!("expected an info, got {:?}", other),
        },
        TickOutcome::Stop(_) => panic!("expected a broadcast"),
    }
}

#[test]
fn recording_tracks_players_and_delays() {
    let mut session = GameSession::new(GameState::new(corridor()), true);
    session.init_player(4).unwrap();
    session.process_player_message(4, &move_msg(MoveDirection::East), 1000);
    session.process_player_message(4, &move_msg(MoveDirection::East), 1250);
    session.mark_disconnected(4);
    match session.tick_players() {
        TickOutcome::Stop(Some(record)) => {
            assert_eq!(record.players, vec![4]);
            assert_eq!(record.messages.len(), 2);
            assert_eq!(record.messages[0].delay_ms, 0);
            assert_eq!(record.messages[1].delay_ms, 250);
            assert_eq!(record.messages[1].player, 4);
        },
        other => {
            let kind = match other {
                TickOutcome::Stop(None) => "a stop without a record",
                TickOutcome::Stop(Some(_)) => unreachable!(),
                TickOutcome::Broadcast(_) => "a broadcast",
            };
            panic!("expected the recording, got {}", kind);
        },
    }
}

#[test]
fn record_state_inserts_each_player_once() {
    let maze = corridor();
    let mut rec = GameRecordState::new(maze);
    let msg = move_msg(MoveDirection::East);
    rec.track(9, &msg, 10);
    rec.track(9, &msg, 30);
    rec.track(8, &msg, 45);
    assert_eq!(rec.players, vec![9, 8]);
    assert_eq!(rec.messages.len(), 3);
    let frozen = rec.freeze();
    assert_eq!(frozen.messages[1].delay_ms, 20);
    assert_eq!(frozen.messages[2].delay_ms, 15);
}

#[test]
fn lobby_reconnect_and_expiry() {
    let mut lobby = Lobby::new(LobbyConfig::default());
    lobby.register_new_game(10);
    lobby.register_player(42, 10);
    let games_alive = vec![true];
    // A known identity with a live session reconnects to it.
    let body = JoinMessageBody { difficulty: 0, player_id: Some(42) };
    match lobby.find_suitable_game(&body, &games_alive, true, 7) {
        MatchDecision::Reconnect(id, key) => {
            assert_eq!(id, 42);
            assert_eq!(key, 10);
        },
        _ => panic!("expected a reconnect"),
    }
    // An unknown identity expires.
    let body = JoinMessageBody { difficulty: 0, player_id: Some(43) };
    assert!(matches!(
        lobby.find_suitable_game(&body, &games_alive, true, 7),
        MatchDecision::Expired
    ));
    // A known identity whose session died expires too.
    let body = JoinMessageBody { difficulty: 0, player_id: Some(42) };
    assert!(matches!(
        lobby.find_suitable_game(&body, &games_alive, false, 7),
        MatchDecision::Expired
    ));
}

#[test]
fn lobby_matches_first_live_game_or_creates() {
    let mut lobby = Lobby::new(LobbyConfig::default());
    lobby.register_new_game(10);
    lobby.register_new_game(11);
    let body = JoinMessageBody { difficulty: 0, player_id: None };
    match lobby.find_suitable_game(&body, &vec![false, true], true, 5) {
        MatchDecision::JoinExisting(id, key) => {
            assert_eq!(id, 5);
            assert_eq!(key, 11);
        },
        _ => panic!("expected to join the second game"),
    }
    assert!(matches!(
        lobby.find_suitable_game(&body, &vec![false, false], true, 5),
        MatchDecision::CreateNew(5)
    ));
}

#[test]
fn lobby_housekeeping_prunes_dead_entries() {
    let mut lobby = Lobby::new(LobbyConfig::default());
    lobby.register_new_game(10);
    lobby.register_new_game(11);
    lobby.register_new_game(12);
    lobby.register_player(1, 10);
    lobby.register_player(2, 11);
    lobby.prune_games(&vec![false, true, false]);
    assert_eq!(lobby.games, vec![11]);
    lobby.remove_player(1);
    assert!(lobby.get_player_game(1).is_none());
    assert_eq!(lobby.get_player_game(2), Some(11));
}

#[test]
fn client_state_machine_follows_the_handshake() {
    let mut client = ClientInstance::new();
    assert!(matches!(client.state, ClientState::Uninitialized));
    client.join_sent().unwrap();
    assert!(matches!(client.state, ClientState::JoinPending));
    // A second join request is rejected.
    assert!(ClientInstance::new().apply_server_message(move_msg(MoveDirection::East)).is_err());
    let maze = corridor();
    client
        .apply_server_message(Message::OkMaze(OkMazeMessageBody { maze, player_id: 3 }))
        .unwrap();
    assert!(matches!(client.state, ClientState::Joined));
    assert_eq!(client.player_uuid, Some(3));
    client
        .apply_server_message(
            Message::Info(
                InfoMessageBody {
                    player_column: 2,
                    player_line: 0,
                    player_has_food: true,
                    pheromon: vec![0, 0, 0],
                },
            ),
        )
        .unwrap();
    assert_eq!(client.view.player_position, (2, 0));
    assert!(client.view.player_has_food);
    // A non-info message kills the connection.
    assert!(client.apply_server_message(move_msg(MoveDirection::East)).is_err());
    assert!(matches!(client.state, ClientState::Dead));
}

#[test]
fn walkable_directions_match_walls() {
    let maze = corridor();
    let start = maze.get_tile(0, 0).unwrap();
    let dirs = start.get_walkable_directions();
    assert_eq!(dirs, vec![MoveDirection::East]);
    let middle = maze.get_tile(1, 0).unwrap();
    let dirs = middle.get_walkable_directions();
    assert_eq!(dirs.len(), 2);
    assert!(dirs.contains(&MoveDirection::East));
    assert!(dirs.contains(&MoveDirection::West));
}

#[test]
fn invert_direction_is_an_involution() {
    for d in [
        MoveDirection::North,
        MoveDirection::South,
        MoveDirection::East,
        MoveDirection::West,
    ] {
        assert_eq!(invert_move_direction(invert_move_direction(d)), d);
    }
    assert_eq!(invert_move_direction(MoveDirection::North), MoveDirection::South);
    assert_eq!(invert_move_direction(MoveDirection::East), MoveDirection::West);
}

#[test]
fn shortest_path_walks_from_nest_to_food() {
    let maze = corridor();
    let found = match DfsPath::find_shortest(&maze) {
        Ok(p) => p,
        Err(_) => panic!("expected a path in the corridor"),
    };
    assert_eq!(found.path, vec![MoveDirection::East, MoveDirection::East]);
}

#[test]
fn probabilistic_ant_respects_walls() {
    let maze = corridor();
    let mut ant = ProbabilisticAnt::default();
    for _ in 0..20 {
        let info = InfoMessageBody {
            player_column: 0,
            player_line: 0,
            player_has_food: false,
            pheromon: vec![0, 0, 0],
        };
        match ant.step(&maze, &info) {
            // From the corridor start only east is open.
            Some(m) => assert_eq!(m.direction, MoveDirection::East),
            None => panic!("expected a move from the corridor start"),
        }
    }
}

#[test]
fn random_draws_stay_below_their_bound() {
    let rng = fourmilaby::rng::rng_new();
    for _ in 0..200 {
        let v = fourmilaby::rng::rng_u32_below(&rng, 7);
        assert!(v < 7);
    }
    let mut dirs = vec![
        MoveDirection::North,
        MoveDirection::South,
        MoveDirection::East,
        MoveDirection::West,
    ];
    fourmilaby::rng::rng_shuffle_directions(&rng, &mut dirs);
    assert_eq!(dirs.len(), 4);
    for d in [
        MoveDirection::North,
        MoveDirection::South,
        MoveDirection::East,
        MoveDirection::West,
    ] {
        assert!(dirs.contains(&d));
    }
    let _ = fourmilaby::rng::new_player_id();
}
