use crate::cards::{deal_deck, full_deck, Card, CardPile};
use crate::manager::Game;
use crate::message::{InputMessage, OutputMessage};
use vstd::multiset::Multiset;
use vstd::prelude::*;

verus! {

/// Milliseconds taken by a player to respond, measured by their browser.
pub type ResponseTimeMs = u32;

/// A player's position at the table.
pub type PlayerNumber = usize;

pub const NUM_PLAYERS: usize = 2;

/// The in-game messages a client may send.
#[derive(Copy, Clone, Debug, PartialEq, Eq, Structural)]
pub enum InputMessageType {
    /// The player drew a card.
    Draw(ResponseTimeMs),
    /// The player snapped.
    Snap(ResponseTimeMs),
    /// The player did not respond in time.
    NoResponse,
    /// The player wants to play again.
    PlayAgain,
}

/// A timed response beats an untimed one, and of two timed ones the strictly
/// quicker wins.
pub open spec fn faster(a: InputMessageType, b: InputMessageType) -> bool {
    match a {
        InputMessageType::Draw(t) | InputMessageType::Snap(t) => match b {
            InputMessageType::Draw(u) | InputMessageType::Snap(u) => t < u,
            _ => true,
        },
        _ => false,
    }
}

impl InputMessageType {
    pub fn was_faster_than(&self, other: &Self) -> (r: bool)
        ensures
            r == faster(*self, *other),
    {
        match self {
            Self::NoResponse | Self::PlayAgain => false,
            Self::Draw(time) | Self::Snap(time) => match other {
                Self::NoResponse | Self::PlayAgain => true,
                Self::Draw(other_time) => *time < *other_time,
                Self::Snap(other_time) => *time < *other_time,
            },
        }
    }
}

#[derive(Copy, Clone, Debug, PartialEq, Eq, Structural)]
pub enum OutputMessageType {
    YourNumber(PlayerNumber),
    CardDrawn { card: Card, from: PlayerNumber },
    OtherPlayerResponded { player: PlayerNumber, msg: InputMessageType, is_mistake: bool },
    PlayerTakesCenter(PlayerNumber),
    PlayerWins(PlayerNumber),
    SomethingWentWrong,
    GameRestarted(usize),
}

pub type GameInput = InputMessage<PlayerNumber, InputMessageType>;

pub type GameOutput = OutputMessage<PlayerNumber, OutputMessageType>;

/// The same message for every player, in player-number order.
pub open spec fn to_all(m: OutputMessageType) -> Seq<GameOutput> {
    seq![OutputMessage { recipient: 0, message: m }, OutputMessage { recipient: 1, message: m }]
}

/// The two top cards of the center pile have the same value.
pub open spec fn snap_possible_on(center: Seq<Card>) -> bool {
    center.len() >= 2 && center[center.len() - 1].value == center[center.len() - 2].value
}

/// The fastest of the first `n` responses and its player number; on a tie
/// the earlier player keeps the lead.
pub open spec fn fastest_of(ms: Seq<InputMessageType>, n: nat) -> Option<(PlayerNumber, InputMessageType)>
    decreases n,
{
    if n == 0 {
        None
    } else if n == 1 {
        Some((0, ms[0]))
    } else {
        match fastest_of(ms, (n - 1) as nat) {
            Some(w) => if faster(ms[n - 1], w.1) {
                Some(((n - 1) as usize, ms[n - 1]))
            } else {
                Some(w)
            },
            None => None,
        }
    }
}

/// How quick a response is: its time, or later than any time when it has none.
pub open spec fn response_rank(m: InputMessageType) -> int {
    match m {
        InputMessageType::Draw(t) | InputMessageType::Snap(t) => t as int,
        _ => u32::MAX as int + 1,
    }
}

proof fn lemma_faster_by_rank(a: InputMessageType, b: InputMessageType)
    ensures
        faster(a, b) == (response_rank(a) < response_rank(b)),
{
}

/// The fastest response is one that no response beats, and the first such:
/// every earlier response is strictly slower than it.
pub proof fn lemma_fastest_is_first_unbeaten(ms: Seq<InputMessageType>, n: nat)
    requires
        1 <= n <= ms.len(),
        ms.len() <= usize::MAX,
    ensures
        fastest_of(ms, n) is Some,
        ({
            let w = fastest_of(ms, n)->Some_0;
            &&& (w.0 as int) < n
            &&& w.1 == ms[w.0 as int]
            &&& forall|j: int| 0 <= j < n ==> !faster(#[trigger] ms[j], w.1)
            &&& forall|j: int| 0 <= j < w.0 ==> faster(w.1, #[trigger] ms[j])
        }),
    decreases n,
{
    if n > 1 {
        lemma_fastest_is_first_unbeaten(ms, (n - 1) as nat);
        let v = fastest_of(ms, (n - 1) as nat)->Some_0;
        let w = fastest_of(ms, n)->Some_0;
        assert forall|j: int| 0 <= j < n implies !faster(#[trigger] ms[j], w.1) by {
            lemma_faster_by_rank(ms[j], w.1);
            lemma_faster_by_rank(ms[j], v.1);
            lemma_faster_by_rank(ms[n - 1], v.1);
        }
        assert forall|j: int| 0 <= j < w.0 implies faster(w.1, #[trigger] ms[j]) by {
            lemma_faster_by_rank(w.1, ms[j]);
            lemma_faster_by_rank(ms[j], v.1);
            lemma_faster_by_rank(ms[n - 1], v.1);
        }
    }
}

/// Moving the top card of a hand onto the center keeps the cards.
proof fn lemma_move_top(hand: Seq<Card>, center: Seq<Card>)
    requires
        hand.len() > 0,
    ensures
        hand.drop_last().to_multiset().add(center.push(hand.last()).to_multiset())
            =~= hand.to_multiset().add(center.to_multiset()),
{
    broadcast use vstd::multiset::group_multiset_axioms;

    assert(hand =~= hand.drop_last().push(hand.last()));
    vstd::seq_lib::to_multiset_build(hand.drop_last(), hand.last());
    vstd::seq_lib::to_multiset_build(center, hand.last());
}

proof fn lemma_fastest_exists(ms: Seq<InputMessageType>, n: nat)
    requires
        n >= 1,
    ensures
        fastest_of(ms, n) is Some,
        (fastest_of(ms, n)->Some_0.0 as int) < n,
    decreases n,
{
    if n > 1 {
        lemma_fastest_exists(ms, (n - 1) as nat);
    }
}

/// The fastest response and the player who gave it; `None` when there is
/// no response at all.
pub fn get_fastest_response(messages: &Vec<InputMessageType>) -> (r: Option<
    (PlayerNumber, InputMessageType),
>)
    ensures
        r == fastest_of(messages@, messages@.len()),
{
    if messages.len() == 0 {
        return None;
    }
    let mut winner: usize = 0;
    let mut winner_msg = messages[0];
    let mut k: usize = 1;
    while k < messages.len()
        invariant
            1 <= k <= messages@.len(),
            fastest_of(messages@, k as nat) == Some((winner, winner_msg)),
        decreases messages@.len() - k,
    {
        if messages[k].was_faster_than(&winner_msg) {
            winner = k;
            winner_msg = messages[k];
        }
        k += 1;
    }
    Some((winner, winner_msg))
}

/// A game of Snap for two players.
pub struct Snap {
    hands: Vec<CardPile>,
    pending: Vec<Option<InputMessageType>>,
    player_turn: PlayerNumber,
    center_pile: CardPile,
}

impl Snap {
    pub closed spec fn hand(&self, p: int) -> Seq<Card> {
        self.hands@[p]@
    }

    /// The response a player gave to a possible snap, while the others are
    /// awaited.
    pub closed spec fn pending_of(&self, p: int) -> Option<InputMessageType> {
        self.pending@[p]
    }

    pub closed spec fn turn(&self) -> int {
        self.player_turn as int
    }

    pub closed spec fn center(&self) -> Seq<Card> {
        self.center_pile@
    }

    /// Two hands, two response slots and a turn that names a player.
    pub closed spec fn wf(&self) -> bool {
        &&& self.hands@.len() == NUM_PLAYERS
        &&& self.pending@.len() == NUM_PLAYERS
        &&& self.player_turn < NUM_PLAYERS
    }

    /// The game is over: no snap is possible and a player has no cards.
    pub open spec fn ended(&self) -> bool {
        !snap_possible_on(self.center()) && (self.hand(0).len() == 0 || self.hand(1).len() == 0)
    }

    /// A freshly dealt game: 26 cards in each hand, the whole deck between
    /// them, an empty center, player 0 to draw and no responses pending.
    pub open spec fn freshly_dealt(&self) -> bool {
        &&& self.wf()
        &&& self.hand(0).len() == 26
        &&& self.hand(1).len() == 26
        &&& (self.hand(0) + self.hand(1)).to_multiset() == full_deck().to_multiset()
        &&& self.center() == Seq::<Card>::empty()
        &&& self.turn() == 0
        &&& self.pending_of(0) is None
        &&& self.pending_of(1) is None
    }

    /// Every card in the game: both hands and the center pile.
    pub open spec fn cards_in_play(&self) -> Multiset<Card> {
        self.hand(0).to_multiset().add(self.hand(1).to_multiset()).add(self.center().to_multiset())
    }

    pub open spec fn same_pending(&self, before: &Self) -> bool {
        self.pending_of(0) == before.pending_of(0) && self.pending_of(1) == before.pending_of(1)
    }

    pub open spec fn same_cards(&self, before: &Self) -> bool {
        &&& self.hand(0) == before.hand(0)
        &&& self.hand(1) == before.hand(1)
        &&& self.center() == before.center()
        &&& self.turn() == before.turn()
    }

    /// `self` follows `before` by a draw of the player whose turn it is, with
    /// the messages `out`: the top card of their hand goes onto the center
    /// and everyone is told; the player wins if that ends the game, else the
    /// turn passes. Drawing from an empty hand aborts the game instead.
    pub open spec fn drew(&self, before: &Self, out: Seq<GameOutput>) -> bool {
        let p = before.turn();
        let q = 1 - p;
        if before.hand(p).len() == 0 {
            self.same_cards(before) && out == to_all(OutputMessageType::SomethingWentWrong)
        } else {
            let card = before.hand(p).last();
            &&& self.hand(p) == before.hand(p).drop_last()
            &&& self.hand(q) == before.hand(q)
            &&& self.center() == before.center().push(card)
            &&& self.ended() ==> self.turn() == p && out == to_all(
                OutputMessageType::CardDrawn { card, from: p as usize },
            ) + to_all(OutputMessageType::PlayerWins(p as usize))
            &&& !self.ended() ==> self.turn() == 1 - p && out == to_all(
                OutputMessageType::CardDrawn { card, from: p as usize },
            )
        }
    }

    /// `self` follows `before` by player `p` taking the center pile into
    /// their hand, which is then shuffled, and taking the turn; everyone is
    /// told with `out`.
    pub open spec fn took_center(&self, before: &Self, p: int, out: Seq<GameOutput>) -> bool {
        &&& self.hand(p).to_multiset() == (before.hand(p) + before.center().reverse()).to_multiset()
        &&& self.hand(1 - p) == before.hand(1 - p)
        &&& self.center() == Seq::<Card>::empty()
        &&& self.turn() == p
        &&& out == to_all(OutputMessageType::PlayerTakesCenter(p as usize))
    }
}


impl Snap {
    /// The message is passed over: from an unknown player, a draw out of
    /// turn, a message that needs a possible snap when there is none, or a
    /// second response to the same possible snap.
    pub open spec fn ignores(&self, message: GameInput) -> bool {
        ||| message.sender >= NUM_PLAYERS
        ||| (message.message is Draw && message.sender != self.turn())
        ||| (!snap_possible_on(self.center()) && (message.message is NoResponse
            || message.message is PlayAgain))
        ||| (snap_possible_on(self.center()) && self.pending_of(message.sender as int) is Some)
    }

    /// Both players' responses once `m` from player `s` is in.
    pub open spec fn responses_with(&self, s: int, m: InputMessageType) -> Seq<InputMessageType> {
        if s == 0 {
            seq![m, self.pending_of(1)->Some_0]
        } else {
            seq![self.pending_of(0)->Some_0, m]
        }
    }

    fn abort(&self) -> (r: Vec<GameOutput>)
        ensures
            r@ == to_all(OutputMessageType::SomethingWentWrong),
    {
        self.to_all_players(OutputMessageType::SomethingWentWrong)
    }

    fn clear_pending_messages(&mut self)
        requires
            old(self).wf(),
        ensures
            final(self).wf(),
            final(self).same_cards(old(self)),
            final(self).pending_of(0) is None,
            final(self).pending_of(1) is None,
    {
        let mut player: usize = 0;
        while player < NUM_PLAYERS
            invariant
                self.wf(),
                self.same_cards(old(self)),
                player <= NUM_PLAYERS,
                forall|q: int| 0 <= q < player ==> self.pending_of(q) is None,
            decreases NUM_PLAYERS - player,
        {
            let ghost prev = *self;
            self.pending.set(player, None);
            player += 1;
            proof {
                assert forall|q: int| 0 <= q < player implies self.pending_of(q) is None by {
                    if q < player - 1 {
                        assert(prev.pending_of(q) is None);
                    }
                }
            }
        }
    }

    fn snap_possible(&self) -> (r: bool)
        ensures
            r == snap_possible_on(self.center()),
    {
        match (self.center_pile.last(), self.center_pile.penultimate()) {
            (Some(last), Some(penultimate)) => last.value == penultimate.value,
            _ => false,
        }
    }

    /// The game ends when a player has got rid of all their cards and no
    /// snap can bring cards back.
    fn has_ended(&self) -> (r: bool)
        requires
            self.wf(),
        ensures
            r == self.ended(),
    {
        if self.snap_possible() {
            return false;
        }
        let mut p: usize = 0;
        while p < NUM_PLAYERS
            invariant
                self.wf(),
                !snap_possible_on(self.center()),
                p <= NUM_PLAYERS,
                forall|q: int| 0 <= q < p ==> self.hand(q).len() > 0,
            decreases NUM_PLAYERS - p,
        {
            if self.hands[p].is_empty() {
                proof {
                    assert(self.hand(p as int).len() == 0);
                    assert(p == 0 || p == 1);
                }
                return true;
            }
            p += 1;
        }
        false
    }

    fn to_all_players(&self, message: OutputMessageType) -> (r: Vec<GameOutput>)
        ensures
            r@ == to_all(message),
    {
        let mut r: Vec<GameOutput> = Vec::new();
        let mut player: usize = 0;
        while player < NUM_PLAYERS
            invariant
                player <= NUM_PLAYERS,
                r@ == to_all(message).subrange(0, player as int),
            decreases NUM_PLAYERS - player,
        {
            r.push(OutputMessage { recipient: player, message });
            player += 1;
            proof {
                assert(r@ =~= to_all(message).subrange(0, player as int));
            }
        }
        proof {
            assert(r@ =~= to_all(message));
        }
        r
    }

    fn draw_from_hand(&mut self, p: usize) -> (r: Option<Card>)
        requires
            old(self).wf(),
            p < NUM_PLAYERS,
        ensures
            final(self).wf(),
            final(self).center() == old(self).center(),
            final(self).turn() == old(self).turn(),
            final(self).same_pending(old(self)),
            final(self).hand(1 - p) == old(self).hand(1 - p),
            old(self).hand(p as int).len() == 0 ==> r is None && final(self).hand(p as int) == old(self).hand(p as int),
            old(self).hand(p as int).len() > 0 ==> r == Some(old(self).hand(p as int).last())
                && final(self).hand(p as int) == old(self).hand(p as int).drop_last(),
    {
        let mut hand = CardPile::new();
        self.hands.set_and_swap(p, &mut hand);
        let card = hand.draw();
        self.hands.set(p, hand);
        card
    }

    /// The player whose turn it is draws a card onto the center; everyone is
    /// told, and the player wins if that ends the game, else the turn passes.
    fn draw_card(&mut self) -> (r: Vec<GameOutput>)
        requires
            old(self).wf(),
        ensures
            final(self).wf(),
            final(self).drew(old(self), r@),
            final(self).same_pending(old(self)),
            final(self).cards_in_play() == old(self).cards_in_play(),
    {
        let p = self.player_turn;
        let card = match self.draw_from_hand(p) {
            None => {
                return self.abort();
            },
            Some(card) => card,
        };
        let mut messages = self.to_all_players(OutputMessageType::CardDrawn { card, from: p });
        self.center_pile.place(card);
        proof {
            broadcast use vstd::multiset::group_multiset_axioms;

            let h0 = old(self).hand(0);
            let h1 = old(self).hand(1);
            let c = old(self).center();
            lemma_move_top(old(self).hand(p as int), c);
            if p == 0 {
                assert(self.cards_in_play() =~= h0.drop_last().to_multiset().add(
                    c.push(h0.last()).to_multiset(),
                ).add(h1.to_multiset()));
            } else {
                assert(self.cards_in_play() =~= h0.to_multiset().add(
                    h1.drop_last().to_multiset().add(c.push(h1.last()).to_multiset()),
                ));
            }
            assert(self.cards_in_play() =~= old(self).cards_in_play());
        }
        if self.has_ended() {
            let mut wins = self.to_all_players(OutputMessageType::PlayerWins(p));
            messages.append(&mut wins);
        } else {
            self.player_turn = (p + 1) % NUM_PLAYERS;
        }
        messages
    }

    /// Player `player` takes the center pile into their hand, which is then
    /// shuffled, and it becomes their turn.
    fn player_takes_center(&mut self, player: PlayerNumber) -> (r: Vec<GameOutput>)
        requires
            old(self).wf(),
            player < NUM_PLAYERS,
        ensures
            final(self).wf(),
            final(self).took_center(old(self), player as int, r@),
            final(self).same_pending(old(self)),
            final(self).cards_in_play() == old(self).cards_in_play(),
    {
        let mut hand = CardPile::new();
        self.hands.set_and_swap(player, &mut hand);
        hand.absorb(&mut self.center_pile);
        hand.shuffle();
        self.hands.set(player, hand);
        self.player_turn = player;
        proof {
            broadcast use vstd::multiset::group_multiset_axioms;

            let h = old(self).hand(player as int);
            let c = old(self).center();
            vstd::seq_lib::lemma_multiset_commutative(h, c.reverse());
            c.lemma_reverse_to_multiset();
            broadcast use vstd::seq_lib::group_to_multiset_ensures;

            assert(Seq::<Card>::empty().to_multiset() =~= Multiset::empty());
            assert(self.cards_in_play() =~= old(self).cards_in_play());
        }
        self.to_all_players(OutputMessageType::PlayerTakesCenter(player))
    }
}


impl Default for Snap {
    /// Deals a shuffled deck between the two players.
    fn default() -> (r: Self)
        ensures
            r.freshly_dealt(),
    {
        let (hand1, hand2) = deal_deck();
        let mut hands: Vec<CardPile> = Vec::new();
        hands.push(hand1);
        hands.push(hand2);
        let mut pending: Vec<Option<InputMessageType>> = Vec::new();
        pending.push(None);
        pending.push(None);
        Snap { hands, pending, player_turn: 0, center_pile: CardPile::new() }
    }
}

impl Snap {
    /// `self` and the messages `out` follow `before` by the message: the
    /// outcome of each kind of message, as `action` carries it out.
    pub open spec fn acted(&self, before: &Self, message: GameInput, out: Seq<GameOutput>) -> bool {
        &&& (before.ended() && message.message == InputMessageType::PlayAgain ==> self.freshly_dealt() && out == to_all(OutputMessageType::GameRestarted(0)))
        &&& (before.ended() && message.message != InputMessageType::PlayAgain ==> out.len() == 0
                && *self == *before)
        &&& (!before.ended() && before.ignores(message) ==> out.len() == 0 && *self
                == *before)
        &&& (!before.ended() && !before.ignores(message) && !snap_possible_on(before.center())
                ==> self.same_pending(before) && (message.message is Draw ==> self.drew(before, out)) && (message.message is Snap ==> out.len() >= 2 && out.subrange(0, 2)
                == to_all(
                OutputMessageType::OtherPlayerResponded {
                    player: message.sender,
                    msg: message.message,
                    is_mistake: true,
                }) && self.took_center(before, message.sender as int, out.subrange(2, out.len() as int))))
        &&& (!before.ended() && !before.ignores(message) && snap_possible_on(before.center())
                && before.pending_of(1 - message.sender) is None ==> self.same_cards(before)
                && self.pending_of(message.sender as int) == Some(message.message) && self.pending_of(1 - message.sender) is None && out == to_all(
                OutputMessageType::OtherPlayerResponded {
                    player: message.sender,
                    msg: message.message,
                    is_mistake: false,
                }))
        &&& (!before.ended() && !before.ignores(message) && snap_possible_on(before.center())
                && before.pending_of(1 - message.sender) is Some ==> self.pending_of(0) is None
                && self.pending_of(1) is None && ({
                let w = fastest_of(before.responses_with(message.sender as int, message.message), 2);
                let told = to_all(
                    OutputMessageType::OtherPlayerResponded {
                        player: message.sender,
                        msg: message.message,
                        is_mistake: false,
                    },
                );
                &&& w is Some
                &&& (w->Some_0.1 is NoResponse || w->Some_0.1 is PlayAgain) ==> self.same_cards(
                    before,
                ) && out == to_all(OutputMessageType::SomethingWentWrong)
                &&& w->Some_0.1 is Draw ==> out.len() >= 2 && out.subrange(0, 2) == told && self.drew(
                    before,
                    out.subrange(2, out.len() as int),
                )
                &&& w->Some_0.1 is Snap ==> out.len() >= 2 && out.subrange(0, 2) == told && self.took_center(
                    before,
                    1 - w->Some_0.0,
                    out.subrange(2, out.len() as int),
                )
            }))
        &&& forall|i: int| 0 <= i < out.len() ==> (#[trigger] out[i]).recipient < NUM_PLAYERS
        &&& !(before.ended() && message.message == InputMessageType::PlayAgain) ==> self.cards_in_play()
            == before.cards_in_play()
    }

    #[verifier::loop_isolation(false)]
    /// Advances the game on a message from player `message.sender` and
    /// returns the messages for the players.
    ///
    /// When no snap is possible, the player whose turn it is draws, and a
    /// snap is a mistake that costs the snapper the center pile. When a snap
    /// is possible, every player's response is awaited; then the fastest
    /// decides: a draw goes on with the game, a snap hands the center pile to
    /// the other player. Once the game has ended only a request to play again
    /// is taken, and it deals a new game.
    pub fn action(&mut self, message: GameInput) -> (r: Vec<GameOutput>)
        requires
            old(self).wf(),
        ensures
            final(self).wf(),
            final(self).acted(old(self), message, r@),
    {
        if self.has_ended() {
            return match message.message {
                InputMessageType::PlayAgain => {
                    *self = Snap::default();
                    self.to_all_players(OutputMessageType::GameRestarted(0))
                },
                _ => Vec::new(),
            };
        }
        let sender = message.sender;
        if sender >= NUM_PLAYERS {
            return Vec::new();
        }
        // A player can only draw on their own turn.

        match message.message {
            InputMessageType::Draw(_) => {
                if sender != self.player_turn {
                    return Vec::new();
                }
            },
            _ => {},
        }
        if !self.snap_possible() {
            // With no snap possible the only valid message is a draw from the
            // player whose turn it is, or a mistaken snap.
            return match message.message {
                InputMessageType::Draw(_) => self.draw_card(),
                InputMessageType::Snap(_) => {
                    let mut messages = self.to_all_players(
                        OutputMessageType::OtherPlayerResponded {
                            player: sender,
                            msg: message.message,
                            is_mistake: true,
                        },
                    );
                    let mut taken = self.player_takes_center(sender);
                    let ghost told = messages@;
                    let ghost tail = taken@;
                    messages.append(&mut taken);
                    proof {
                        assert(messages@.subrange(0, 2) =~= told);
                        assert(messages@.subrange(2, messages@.len() as int) =~= tail);
                    }
                    messages
                },
                _ => Vec::new(),
            };
        }
        // A snap is possible: record the response, tell everyone, and wait
        // until every player has responded.
        if self.pending[sender].is_some() {
            return Vec::new();
        }
        let ghost before = *self;
        self.pending.set(sender, Some(message.message));
        let mut server_msgs = self.to_all_players(
            OutputMessageType::OtherPlayerResponded {
                player: sender,
                msg: message.message,
                is_mistake: false,
            },
        );
        let mut all_responses: Vec<InputMessageType> = Vec::new();
        let mut p: usize = 0;
        while p < NUM_PLAYERS
            invariant
                self.wf(),
                p <= NUM_PLAYERS,
                all_responses@.len() == p,
                forall|q: int| 0 <= q < p ==> self.pending_of(q) == Some(#[trigger] all_responses@[q]),
            decreases NUM_PLAYERS - p,
        {
            match self.pending[p] {
                Some(m) => all_responses.push(m),
                None => {
                    return server_msgs;
                },
            }
            p += 1;
        }
        proof {
            assert(all_responses@ =~= before.responses_with(sender as int, message.message));
            lemma_fastest_exists(all_responses@, 2);
        }
        let (fastest_player, fastest_response) = match get_fastest_response(&all_responses) {
            None => {
                return self.abort();
            },
            Some(w) => w,
        };
        self.clear_pending_messages();
        match fastest_response {
            InputMessageType::NoResponse | InputMessageType::PlayAgain => self.abort(),
            InputMessageType::Draw(_) => {
                let mut drawn = self.draw_card();
                let ghost told = server_msgs@;
                let ghost tail = drawn@;
                server_msgs.append(&mut drawn);
                proof {
                    assert(server_msgs@.subrange(0, 2) =~= told);
                    assert(server_msgs@.subrange(2, server_msgs@.len() as int) =~= tail);
                }
                server_msgs
            },
            InputMessageType::Snap(_) => {
                let loser = (fastest_player + 1) % NUM_PLAYERS;
                let mut taken = self.player_takes_center(loser);
                let ghost told = server_msgs@;
                let ghost tail = taken@;
                server_msgs.append(&mut taken);
                proof {
                    assert(server_msgs@.subrange(0, 2) =~= told);
                    assert(server_msgs@.subrange(2, server_msgs@.len() as int) =~= tail);
                }
                server_msgs
            },
        }
    }

    /// Whether the game is in a shape that `action` can work on.
    fn is_consistent(&self) -> (r: bool)
        ensures
            r == self.wf(),
    {
        self.hands.len() == NUM_PLAYERS && self.pending.len() == NUM_PLAYERS && self.player_turn
            < NUM_PLAYERS
    }
}

impl Game for Snap {
    type InputMessage = InputMessageType;

    type OutputMessage = OutputMessageType;

    const NUM_PLAYERS: usize = 2;

    /// Advances the game; see `Snap::action`. A game in a broken shape is
    /// aborted and the players are told.
    fn player_action(&mut self, message: GameInput) -> (r: Vec<GameOutput>)
        ensures
            old(self).wf() ==> final(self).wf() && final(self).acted(old(self), message, r@),
            !old(self).wf() ==> r@ == to_all(OutputMessageType::SomethingWentWrong) && *final(self)
                == *old(self),
    {
        if !self.is_consistent() {
            return self.abort();
        }
        self.action(message)
    }
}

} // verus!
