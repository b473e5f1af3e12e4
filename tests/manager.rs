use snap_backend::manager::{
    route_responses, CreateGameError, Game, GameRef, HandleMessageError,
    SessionManager,
};
use snap_backend::message::{InputMessage, OutputMessage};

#[derive(Default)]
struct DummyGame {
    heard: Vec<usize>,
}

enum DummyInputMessage {
    UserSays(usize),
}

enum DummyOutputMessage {
    OtherUserSays(usize, usize),
}

impl Game for DummyGame {
    type InputMessage = DummyInputMessage;
    type OutputMessage = DummyOutputMessage;
    const NUM_PLAYERS: usize = 3;

    fn player_action(
        &mut self,
        message: InputMessage<usize, Self::InputMessage>,
    ) -> Vec<OutputMessage<usize, Self::OutputMessage>> {
        let DummyInputMessage::UserSays(num) = message.message;
        self.heard.push(num);
        (0..Self::NUM_PLAYERS)
            .map(|i| OutputMessage {
                recipient: i,
                message: DummyOutputMessage::OtherUserSays(message.sender, num),
            })
            .collect()
    }
}

#[derive(Default)]
struct PairGame {}

impl Game for PairGame {
    type InputMessage = usize;
    type OutputMessage = usize;
    const NUM_PLAYERS: usize = 2;

    fn player_action(
        &mut self,
        message: InputMessage<usize, usize>,
    ) -> Vec<OutputMessage<usize, usize>> {
        // Echo to the player number named by the payload, which may not exist.
        vec![OutputMessage {
            recipient: message.message,
            message: message.sender,
        }]
    }
}

#[test]
fn game_creation_ids_unique() {
    let mut manager: SessionManager<DummyGame> = SessionManager::new(5);
    let Ok(users_1) = manager.create() else {
        panic!()
    };
    assert_eq!(users_1.len(), 3);
    let Ok(users_2) = manager.create() else {
        panic!()
    };
    assert_eq!(users_2.len(), 3);

    assert!(users_1.iter().all(|id| !users_2.contains(id)));
}

#[test]
fn game_message_mapping() {
    let mut manager: SessionManager<DummyGame> = SessionManager::new(5);
    for _ in 0..2 {
        _ = manager.create();
    }
    let Ok(users) = manager.create() else {
        panic!()
    };

    for sender in users.iter() {
        let msg = InputMessage {
            sender: *sender,
            message: DummyInputMessage::UserSays(99),
        };
        let Ok(responses) = manager.handle_message(msg) else {
            panic!()
        };
        for response in responses {
            assert!(users.contains(&response.recipient));
            let DummyOutputMessage::OtherUserSays(_, num) = response.message;
            assert_eq!(num, 99);
        }
    }
}

#[test]
fn max_games_enforced() {
    let mut manager: SessionManager<DummyGame> = SessionManager::new(5);
    for _ in 0..5 {
        let Ok(_) = manager.create() else { panic!() };
    }
    let Err(CreateGameError::ServerFull) = manager.create() else {
        panic!()
    };
}

#[test]
fn game_cleanup_frees_up_slots() {
    let mut manager: SessionManager<DummyGame> = SessionManager::new(5);
    for _ in 0..4 {
        let Ok(_) = manager.create() else { panic!() };
    }
    let Ok(users) = manager.create() else {
        panic!()
    };
    let Err(CreateGameError::ServerFull) = manager.create() else {
        panic!()
    };

    let Ok(_) = manager.destroy_users_game(users[0]) else {
        panic!()
    };
    let Ok(_) = manager.create() else { panic!() };
}

#[test]
fn two_slot_scenario() {
    let mut manager: SessionManager<PairGame> = SessionManager::new(2);
    assert_eq!(manager.create(), Ok(vec![1, 2]));
    assert_eq!(manager.create(), Ok(vec![3, 4]));
    assert_eq!(manager.create(), Err(CreateGameError::ServerFull));
    assert_eq!(manager.destroy_users_game(1), Ok(vec![1, 2]));
    let Ok(fresh) = manager.create() else {
        panic!()
    };
    assert_eq!(fresh.len(), 2);
    for id in fresh.iter() {
        assert!(![1, 2, 3, 4].contains(id));
    }
}

#[test]
fn zero_slots_always_full() {
    let mut manager: SessionManager<PairGame> = SessionManager::new(0);
    assert_eq!(manager.create(), Err(CreateGameError::ServerFull));
    assert_eq!(manager.create(), Err(CreateGameError::ServerFull));
}

#[test]
fn destroy_returns_all_members_and_unlocates_them() {
    let mut manager: SessionManager<DummyGame> = SessionManager::new(3);
    let Ok(users) = manager.create() else {
        panic!()
    };
    let Ok(others) = manager.create() else {
        panic!()
    };
    let Ok(members) = manager.destroy_users_game(users[1]) else {
        panic!()
    };
    assert_eq!(members, users);
    for u in users.iter() {
        assert_eq!(manager.locate(*u), None);
        assert_eq!(manager.get_players(*u), Err(()));
    }
    for u in others.iter() {
        assert!(manager.locate(*u).is_some());
        assert_eq!(manager.get_players(*u), Ok(others.clone()));
    }
}

#[test]
fn destroy_of_unknown_participant_is_empty() {
    let mut manager: SessionManager<DummyGame> = SessionManager::new(3);
    let Ok(users) = manager.create() else {
        panic!()
    };
    assert_eq!(manager.destroy_users_game(42), Ok(vec![]));
    assert_eq!(manager.get_players(users[0]), Ok(users.clone()));
}

#[test]
fn repeated_destroy_by_members_is_empty() {
    let mut manager: SessionManager<PairGame> = SessionManager::new(2);
    let Ok(users) = manager.create() else {
        panic!()
    };
    let Ok(others) = manager.create() else {
        panic!()
    };
    assert_eq!(manager.destroy_users_game(users[0]), Ok(users.clone()));
    assert_eq!(manager.destroy_users_game(users[1]), Ok(vec![]));
    assert_eq!(manager.destroy_users_game(users[0]), Ok(vec![]));
    assert_eq!(manager.get_players(others[1]), Ok(others.clone()));
    let Ok(_) = manager.create() else { panic!() };
    assert_eq!(manager.create(), Err(CreateGameError::ServerFull));
}

#[test]
fn destroyed_participant_cannot_reach_reused_slot() {
    let mut manager: SessionManager<PairGame> = SessionManager::new(1);
    let Ok(users) = manager.create() else {
        panic!()
    };
    assert_eq!(manager.destroy_users_game(users[1]), Ok(users.clone()));
    let Ok(_) = manager.create() else { panic!() };
    let msg = InputMessage {
        sender: users[0],
        message: 0,
    };
    assert!(matches!(
        manager.handle_message(msg),
        Err(HandleMessageError::GameDoesNotExist)
    ));
}

#[test]
fn destroy_by_stale_reference_twice_is_empty() {
    let mut manager: SessionManager<PairGame> = SessionManager::new(2);
    let Ok(users) = manager.create() else {
        panic!()
    };
    let Ok(others) = manager.create() else {
        panic!()
    };
    let game_ref: GameRef = manager.locate(users[0]).unwrap();
    assert_eq!(manager.destroy_game(game_ref), users);
    assert_eq!(manager.destroy_game(game_ref), Vec::<usize>::new());
    assert_eq!(manager.destroy_game(game_ref), Vec::<usize>::new());
    assert_eq!(manager.get_players(others[0]), Ok(others.clone()));
}

#[test]
fn stale_reference_does_not_reach_new_session() {
    let mut manager: SessionManager<PairGame> = SessionManager::new(1);
    let Ok(users) = manager.create() else {
        panic!()
    };
    let old_ref = manager.locate(users[0]).unwrap();
    assert_eq!(manager.destroy_users_game(users[0]), Ok(users.clone()));
    let Ok(new_users) = manager.create() else {
        panic!()
    };
    let new_ref = manager.locate(new_users[0]).unwrap();
    assert_eq!(new_ref.index, old_ref.index);
    assert_ne!(new_ref.id, old_ref.id);
    let msg = InputMessage {
        sender: users[0],
        message: 0,
    };
    assert!(matches!(
        manager.handle_message_at(old_ref, msg),
        Err(HandleMessageError::GameDoesNotExist)
    ));
    assert_eq!(manager.destroy_game(old_ref), Vec::<usize>::new());
    assert_eq!(manager.get_players(new_users[1]), Ok(new_users.clone()));
}

#[test]
fn message_from_unknown_sender_is_not_found() {
    let mut manager: SessionManager<PairGame> = SessionManager::new(1);
    let msg = InputMessage {
        sender: 7,
        message: 0,
    };
    assert!(matches!(
        manager.handle_message(msg),
        Err(HandleMessageError::GameDoesNotExist)
    ));
}

#[test]
fn replies_are_mapped_to_participant_ids() {
    let mut manager: SessionManager<PairGame> = SessionManager::new(1);
    let Ok(users) = manager.create() else {
        panic!()
    };
    let msg = InputMessage {
        sender: users[1],
        message: 0,
    };
    let Ok(out) = manager.handle_message(msg) else {
        panic!()
    };
    assert_eq!(out.len(), 1);
    assert_eq!(out[0].recipient, users[0]);
    assert_eq!(out[0].message, 1);
}

#[test]
fn reply_to_missing_player_is_unexpected() {
    let mut manager: SessionManager<PairGame> = SessionManager::new(1);
    let Ok(users) = manager.create() else {
        panic!()
    };
    let msg = InputMessage {
        sender: users[0],
        message: 5,
    };
    assert!(matches!(
        manager.handle_message(msg),
        Err(HandleMessageError::UnexpectedError)
    ));
}

#[test]
fn sender_outside_roster_is_unexpected() {
    let mut manager: SessionManager<PairGame> = SessionManager::new(1);
    let Ok(_) = manager.create() else { panic!() };
    let game_ref = GameRef { index: 0, id: 1 };
    let msg = InputMessage {
        sender: 99,
        message: 0,
    };
    assert!(matches!(
        manager.handle_message_at(game_ref, msg),
        Err(HandleMessageError::UnexpectedError)
    ));
}

#[test]
fn route_responses_maps_and_rejects() {
    let users = vec![10, 20, 30];
    let routed = route_responses(
        &users,
        vec![
            OutputMessage { recipient: 2, message: 'a' },
            OutputMessage { recipient: 0, message: 'b' },
        ],
    )
    .unwrap();
    assert_eq!(routed.len(), 2);
    assert_eq!((routed[0].recipient, routed[0].message), (30, 'a'));
    assert_eq!((routed[1].recipient, routed[1].message), (10, 'b'));
    assert!(route_responses(&users, vec![OutputMessage { recipient: 3, message: 'c' }]).is_none());
}
