use snap_backend::cards::{deal_deck, Card, CardPile, Suit, Value};

fn card(suit: Suit, value: Value) -> Card {
    Card { suit, value }
}

#[test]
fn card_names() {
    assert_eq!(card(Suit::Clubs, Value::Ten).to_string(), "10\u{2663}");
    assert_eq!(card(Suit::Hearts, Value::Ace).to_string(), "A\u{2665}");
    assert_eq!(card(Suit::Diamonds, Value::Two).to_string(), "2\u{2666}");
    assert_eq!(card(Suit::Spades, Value::Queen).to_string(), "Q\u{2660}");
}

#[test]
fn pile_top_and_below() {
    let mut pile = CardPile::new();
    assert!(pile.is_empty());
    assert!(pile.last().is_none());
    assert!(pile.penultimate().is_none());
    pile.place(card(Suit::Clubs, Value::Two));
    assert!(!pile.is_empty());
    assert_eq!(pile.last(), Some(&card(Suit::Clubs, Value::Two)));
    assert!(pile.penultimate().is_none());
    pile.place(card(Suit::Hearts, Value::King));
    assert_eq!(pile.last(), Some(&card(Suit::Hearts, Value::King)));
    assert_eq!(pile.penultimate(), Some(&card(Suit::Clubs, Value::Two)));
    assert_eq!(pile.draw(), Some(card(Suit::Hearts, Value::King)));
    assert_eq!(pile.draw(), Some(card(Suit::Clubs, Value::Two)));
    assert_eq!(pile.draw(), None);
}

#[test]
fn absorb_moves_everything_in_reverse() {
    let mut mine = CardPile::new();
    mine.place(card(Suit::Spades, Value::Five));
    let mut theirs = CardPile::new();
    theirs.place(card(Suit::Clubs, Value::Two));
    theirs.place(card(Suit::Clubs, Value::Three));
    mine.absorb(&mut theirs);
    assert!(theirs.is_empty());
    assert_eq!(mine.draw(), Some(card(Suit::Clubs, Value::Two)));
    assert_eq!(mine.draw(), Some(card(Suit::Clubs, Value::Three)));
    assert_eq!(mine.draw(), Some(card(Suit::Spades, Value::Five)));
    assert_eq!(mine.draw(), None);
}

fn drain(pile: &mut CardPile) -> Vec<Card> {
    let mut cards = Vec::new();
    while let Some(c) = pile.draw() {
        cards.push(c);
    }
    cards
}

#[test]
fn shuffle_keeps_the_cards() {
    let mut pile = CardPile::new();
    for v in [Value::Two, Value::Three, Value::Four, Value::Five, Value::Six] {
        pile.place(card(Suit::Hearts, v));
    }
    pile.shuffle();
    let mut names: Vec<String> = drain(&mut pile).iter().map(|c| c.to_string()).collect();
    names.sort();
    assert_eq!(names, vec!["2\u{2665}", "3\u{2665}", "4\u{2665}", "5\u{2665}", "6\u{2665}"]);
}

#[test]
fn deal_gives_two_halves_of_one_deck() {
    let (mut left, mut right) = deal_deck();
    let left = drain(&mut left);
    let right = drain(&mut right);
    assert_eq!(left.len(), 26);
    assert_eq!(right.len(), 26);
    let mut names: Vec<String> = left.iter().chain(right.iter()).map(|c| c.to_string()).collect();
    names.sort();
    names.dedup();
    assert_eq!(names.len(), 52);
}

#[test]
fn deal_is_shuffled() {
    // The unshuffled deck starts with all clubs; a shuffled half holding
    // exactly that order has a chance of about one in 4 * 10^21.
    let (mut left, _) = deal_deck();
    let left: Vec<String> = drain(&mut left).iter().rev().map(|c| c.to_string()).collect();
    let clubs: Vec<String> = [
        Value::Two,
        Value::Three,
        Value::Four,
        Value::Five,
        Value::Six,
        Value::Seven,
        Value::Eight,
        Value::Nine,
        Value::Ten,
        Value::Jack,
        Value::Queen,
        Value::King,
        Value::Ace,
    ]
    .iter()
    .map(|v| card(Suit::Clubs, *v).to_string())
    .collect();
    assert_ne!(left[0..13].to_vec(), clubs);
}
