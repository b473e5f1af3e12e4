use snap_backend::game::{get_fastest_response, InputMessageType, OutputMessageType, Snap};
use snap_backend::manager::Game;
use snap_backend::message::InputMessage;

type I = InputMessageType;

fn from(sender: usize, message: InputMessageType) -> InputMessage<usize, InputMessageType> {
    InputMessage { sender, message }
}

#[test]
fn faster_responses() {
    assert!(I::Draw(3).was_faster_than(&I::Snap(4)));
    assert!(!I::Snap(4).was_faster_than(&I::Draw(4)));
    assert!(I::Snap(1000).was_faster_than(&I::NoResponse));
    assert!(I::Draw(0).was_faster_than(&I::PlayAgain));
    assert!(!I::NoResponse.was_faster_than(&I::Draw(1)));
    assert!(!I::PlayAgain.was_faster_than(&I::NoResponse));
}

#[test]
fn fastest_response_keeps_earlier_on_tie() {
    assert_eq!(get_fastest_response(&vec![]), None);
    assert_eq!(get_fastest_response(&vec![I::Snap(5), I::Draw(3)]), Some((1, I::Draw(3))));
    assert_eq!(get_fastest_response(&vec![I::Snap(5), I::Draw(5)]), Some((0, I::Snap(5))));
    assert_eq!(get_fastest_response(&vec![I::NoResponse, I::NoResponse]), Some((0, I::NoResponse)));
    assert_eq!(get_fastest_response(&vec![I::NoResponse, I::Snap(9)]), Some((1, I::Snap(9))));
}

#[test]
fn draw_out_of_turn_is_ignored() {
    let mut game = Snap::default();
    assert!(game.player_action(from(1, InputMessageType::Draw(10))).is_empty());
    assert!(game.player_action(from(7, InputMessageType::Snap(10))).is_empty());
    assert!(game.player_action(from(0, InputMessageType::NoResponse)).is_empty());
}

#[test]
fn first_draw_is_announced_to_both() {
    let mut game = Snap::default();
    let out = game.player_action(from(0, InputMessageType::Draw(10)));
    assert_eq!(out.len(), 2);
    for (i, m) in out.iter().enumerate() {
        assert_eq!(m.recipient, i);
        match m.message {
            OutputMessageType::CardDrawn { from, .. } => assert_eq!(from, 0),
            _ => panic!(),
        }
    }
    // Now it is player 1's turn.
    assert!(game.player_action(from(0, InputMessageType::Draw(10))).is_empty());
}

#[test]
fn mistaken_snap_takes_the_center() {
    let mut game = Snap::default();
    let out = game.player_action(from(1, InputMessageType::Snap(7)));
    assert_eq!(out.len(), 4);
    assert_eq!(
        out[0].message,
        OutputMessageType::OtherPlayerResponded {
            player: 1,
            msg: InputMessageType::Snap(7),
            is_mistake: true
        }
    );
    assert_eq!(out[2].message, OutputMessageType::PlayerTakesCenter(1));
    assert_eq!(out[3].recipient, 1);
    // Player 1 now has the turn.
    let out = game.player_action(from(1, InputMessageType::Draw(3)));
    assert_eq!(out.len(), 2);
}
