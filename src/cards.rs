use itertools::Itertools;
use rand::seq::SliceRandom;
use vstd::prelude::*;

verus! {

#[derive(Copy, Clone, Debug, PartialEq, Eq, Structural)]
pub enum Suit {
    Clubs,
    Hearts,
    Spades,
    Diamonds,
}

#[derive(Copy, Clone, Debug, PartialEq, Eq, Structural)]
pub enum Value {
    Two,
    Three,
    Four,
    Five,
    Six,
    Seven,
    Eight,
    Nine,
    Ten,
    Jack,
    Queen,
    King,
    Ace,
}

#[derive(Copy, Clone, Debug, PartialEq, Eq, Structural)]
pub struct Card {
    pub suit: Suit,
    pub value: Value,
}

/// The rank of a card as it is printed.
pub open spec fn value_name(v: Value) -> Seq<char> {
    match v {
        Value::Two => seq!['2'],
        Value::Three => seq!['3'],
        Value::Four => seq!['4'],
        Value::Five => seq!['5'],
        Value::Six => seq!['6'],
        Value::Seven => seq!['7'],
        Value::Eight => seq!['8'],
        Value::Nine => seq!['9'],
        Value::Ten => seq!['1', '0'],
        Value::Jack => seq!['J'],
        Value::Queen => seq!['Q'],
        Value::King => seq!['K'],
        Value::Ace => seq!['A'],
    }
}

/// The suit of a card as its playing-card symbol.
pub open spec fn suit_symbol(s: Suit) -> Seq<char> {
    match s {
        Suit::Clubs => seq!['\u{2663}'],
        Suit::Hearts => seq!['\u{2665}'],
        Suit::Diamonds => seq!['\u{2666}'],
        Suit::Spades => seq!['\u{2660}'],
    }
}

pub open spec fn card_name(c: Card) -> Seq<char> {
    value_name(c.value) + suit_symbol(c.suit)
}

fn value_label(v: Value) -> (r: &'static str)
    ensures
        r@ == value_name(v),
{
    match v {
        Value::Two => {
            proof { reveal_strlit("2"); }
            "2"
        },
        Value::Three => {
            proof { reveal_strlit("3"); }
            "3"
        },
        Value::Four => {
            proof { reveal_strlit("4"); }
            "4"
        },
        Value::Five => {
            proof { reveal_strlit("5"); }
            "5"
        },
        Value::Six => {
            proof { reveal_strlit("6"); }
            "6"
        },
        Value::Seven => {
            proof { reveal_strlit("7"); }
            "7"
        },
        Value::Eight => {
            proof { reveal_strlit("8"); }
            "8"
        },
        Value::Nine => {
            proof { reveal_strlit("9"); }
            "9"
        },
        Value::Ten => {
            proof { reveal_strlit("10"); }
            "10"
        },
        Value::Jack => {
            proof { reveal_strlit("J"); }
            "J"
        },
        Value::Queen => {
            proof { reveal_strlit("Q"); }
            "Q"
        },
        Value::King => {
            proof { reveal_strlit("K"); }
            "K"
        },
        Value::Ace => {
            proof { reveal_strlit("A"); }
            "A"
        },
    }
}

fn suit_label(s: Suit) -> (r: &'static str)
    ensures
        r@ == suit_symbol(s),
{
    match s {
        Suit::Clubs => {
            proof { reveal_strlit("\u{2663}"); }
            "\u{2663}"
        },
        Suit::Hearts => {
            proof { reveal_strlit("\u{2665}"); }
            "\u{2665}"
        },
        Suit::Diamonds => {
            proof { reveal_strlit("\u{2666}"); }
            "\u{2666}"
        },
        Suit::Spades => {
            proof { reveal_strlit("\u{2660}"); }
            "\u{2660}"
        },
    }
}

impl Card {
    /// The rank followed by the suit symbol, such as `10` and a club.
    pub fn to_string(&self) -> (r: String)
        ensures
            r@ == card_name(*self),
    {
        let mut name = value_label(self.value).to_owned();
        name.append(suit_label(self.suit));
        name
    }
}


/// A stack of cards; the end of the sequence is the top of the pile.
pub struct CardPile(Vec<Card>);

impl View for CardPile {
    type V = Seq<Card>;

    closed spec fn view(&self) -> Seq<Card> {
        self.0@
    }
}

/// Relies on rand's SliceRandom::shuffle with the thread-local generator
/// rand::rng(): the cards are permuted in place.
#[verifier::external_body]
fn shuffle_cards(cards: &mut Vec<Card>)
    ensures
        final(cards)@.to_multiset() == old(cards)@.to_multiset(),
{
    cards.shuffle(&mut rand::rng())
}

impl CardPile {
    pub fn new() -> (r: Self)
        ensures
            r@ == Seq::<Card>::empty(),
    {
        CardPile(Vec::with_capacity(52))
    }

    /// Puts the pile in a random order; the same cards stay in it.
    pub fn shuffle(&mut self)
        ensures
            final(self)@.to_multiset() == old(self)@.to_multiset(),
            final(self)@.len() == old(self)@.len(),
    {
        shuffle_cards(&mut self.0);
        proof {
            old(self)@.to_multiset_ensures();
            self@.to_multiset_ensures();
        }
    }

    pub fn is_empty(&self) -> (r: bool)
        ensures
            r == (self@.len() == 0),
    {
        self.0.len() == 0
    }

    /// The top card, if any.
    pub fn last(&self) -> (r: Option<&Card>)
        ensures
            r is None <==> self@.len() == 0,
            r matches Some(c) ==> *c == self@.last(),
    {
        if self.0.len() == 0 {
            None
        } else {
            Some(&self.0[self.0.len() - 1])
        }
    }

    /// The card just below the top, if there are at least two.
    pub fn penultimate(&self) -> (r: Option<&Card>)
        ensures
            r is None <==> self@.len() < 2,
            r matches Some(c) ==> *c == self@[self@.len() - 2],
    {
        if self.0.len() < 2 {
            return None;
        }
        Some(&self.0[self.0.len() - 2])
    }

    /// Takes the top card off the pile.
    pub fn draw(&mut self) -> (r: Option<Card>)
        ensures
            old(self)@.len() == 0 ==> r is None && final(self)@ == old(self)@,
            old(self)@.len() > 0 ==> r == Some(old(self)@.last()) && final(self)@
                == old(self)@.drop_last(),
    {
        self.0.pop()
    }

    /// Puts a card on top of the pile.
    pub fn place(&mut self, card: Card)
        ensures
            final(self)@ == old(self)@.push(card),
    {
        self.0.push(card)
    }

    /// Moves all the cards from another pile, leaving the other empty.
    /// They are drawn from the other's top one by one, so they land in
    /// reverse order.
    pub fn absorb(&mut self, other: &mut Self)
        ensures
            final(self)@ == old(self)@ + old(other)@.reverse(),
            final(other)@ == Seq::<Card>::empty(),
    {
        let ghost mine = self@;
        let ghost theirs = other@;
        loop
            invariant
                other@ == theirs.subrange(0, other@.len() as int),
                other@.len() <= theirs.len(),
                self@ == mine + theirs.subrange(other@.len() as int, theirs.len() as int).reverse(),
            ensures
                other@.len() == 0,
                self@ == mine + theirs.subrange(other@.len() as int, theirs.len() as int).reverse(),
            decreases other@.len(),
        {
            let ghost k = other@.len() as int;
            match other.draw() {
                Some(card) => {
                    self.place(card);
                    proof {
                        let a = theirs.subrange(k, theirs.len() as int);
                        let b = theirs.subrange(k - 1, theirs.len() as int);
                        assert(b.reverse() =~= a.reverse().push(card));
                        assert(other@ =~= theirs.subrange(0, other@.len() as int));
                    }
                },
                None => {
                    break ;
                },
            }
        }
        proof {
            assert(theirs.subrange(0, theirs.len() as int) =~= theirs);
        }
    }
}

pub open spec fn all_suits() -> Seq<Suit> {
    seq![Suit::Clubs, Suit::Hearts, Suit::Spades, Suit::Diamonds]
}

pub open spec fn all_values() -> Seq<Value> {
    seq![
        Value::Two,
        Value::Three,
        Value::Four,
        Value::Five,
        Value::Six,
        Value::Seven,
        Value::Eight,
        Value::Nine,
        Value::Ten,
        Value::Jack,
        Value::Queen,
        Value::King,
        Value::Ace,
    ]
}

/// Every pairing of a suit with a value: all values of the first suit, then
/// all values of the second, and so on.
pub open spec fn pairings(suits: Seq<Suit>, values: Seq<Value>) -> Seq<(Suit, Value)> {
    Seq::new(
        suits.len() * values.len(),
        |k: int| (suits[k / values.len() as int], values[k % values.len() as int]),
    )
}

/// The full deck of 52 cards in suit-major order.
pub open spec fn full_deck() -> Seq<Card> {
    pairings(all_suits(), all_values()).map_values(|p: (Suit, Value)| Card { suit: p.0, value: p.1 })
}

/// Relies on Itertools::cartesian_product: for each suit in order, each value
/// in order.
#[verifier::external_body]
fn suit_value_product(suits: &Vec<Suit>, values: &Vec<Value>) -> (r: Vec<(Suit, Value)>)
    ensures
        r@ == pairings(suits@, values@),
{
    suits.iter().copied().cartesian_product(values.iter().copied()).collect()
}

fn new_deck() -> (r: CardPile)
    ensures
        r@ == full_deck(),
        r@.len() == 52,
{
    let suits: Vec<Suit> = vec![Suit::Clubs, Suit::Hearts, Suit::Spades, Suit::Diamonds];
    let values: Vec<Value> = vec![
        Value::Two,
        Value::Three,
        Value::Four,
        Value::Five,
        Value::Six,
        Value::Seven,
        Value::Eight,
        Value::Nine,
        Value::Ten,
        Value::Jack,
        Value::Queen,
        Value::King,
        Value::Ace,
    ];
    proof {
        assert(suits@ =~= all_suits());
        assert(values@ =~= all_values());
        assert(pairings(all_suits(), all_values()).len() == 4 * 13);
    }
    let pairs = suit_value_product(&suits, &values);
    let mut deck = CardPile::new();
    let mut k: usize = 0;
    while k < pairs.len()
        invariant
            pairs@ == pairings(all_suits(), all_values()),
            pairs@.len() == 52,
            k <= pairs@.len(),
            deck@ == full_deck().subrange(0, k as int),
        decreases pairs@.len() - k,
    {
        let (suit, value) = pairs[k];
        deck.place(Card { suit, value });
        k += 1;
        proof {
            assert(deck@ =~= full_deck().subrange(0, k as int));
        }
    }
    proof {
        assert(full_deck().subrange(0, 52) =~= full_deck());
    }
    deck
}

/// Deals a shuffled deck into two piles of 26 cards each; between them they
/// hold every card of the deck once.
pub fn deal_deck() -> (r: (CardPile, CardPile))
    ensures
        r.0@.len() == 26,
        r.1@.len() == 26,
        (r.0@ + r.1@).to_multiset() == full_deck().to_multiset(),
{
    let mut deck = new_deck();
    deck.shuffle();
    let mut left = CardPile::new();
    let mut right = CardPile::new();
    let ghost d = deck@;
    let mut i: usize = 0;
    while i < 26
        invariant
            deck@ == d,
            d.len() == 52,
            i <= 26,
            left@ == d.subrange(0, i as int),
        decreases 26 - i,
    {
        left.place(deck.0[i]);
        i += 1;
        proof {
            assert(left@ =~= d.subrange(0, i as int));
        }
    }
    while i < 52
        invariant
            deck@ == d,
            d.len() == 52,
            26 <= i <= 52,
            left@ == d.subrange(0, 26),
            right@ == d.subrange(26, i as int),
        decreases 52 - i,
    {
        right.place(deck.0[i]);
        i += 1;
        proof {
            assert(right@ =~= d.subrange(26, i as int));
        }
    }
    proof {
        assert(left@ + right@ =~= d);
    }
    (left, right)
}

} // verus!
