use crate::message::{InputMessage, OutputMessage};
use vstd::prelude::*;

verus! {

/// The rules of one interactive session, driven by the session manager.
pub trait Game: Sized {
    type InputMessage;

    type OutputMessage;

    const NUM_PLAYERS: usize;

    /// Advances the session on a message from player number `message.sender`
    /// and returns the messages for players, addressed by player number.
    fn player_action(
        &mut self,
        message: InputMessage<usize, Self::InputMessage>,
    ) -> Vec<OutputMessage<usize, Self::OutputMessage>>;
}

#[derive(Clone, Copy, Debug, PartialEq, Eq, Structural)]
pub enum CreateGameError {
    /// Every slot holds a session.
    ServerFull,
    /// The identifier counters cannot hand out fresh values any more.
    IdsExhausted,
}

#[derive(Clone, Copy, Debug, PartialEq, Eq, Structural)]
pub enum DestroyGameError {
    UnexpectedError,
}

#[derive(Clone, Copy, Debug, PartialEq, Eq, Structural)]
pub enum HandleMessageError {
    GameDoesNotExist,
    UnexpectedError,
}

/// Names one session: the slot that holds it and its generation id, which
/// tells it apart from later sessions in the same slot.
#[derive(Clone, Copy, Debug, PartialEq, Eq, Structural)]
pub struct GameRef {
    pub index: usize,
    pub id: usize,
}

/// One occupied slot: the session's state, its generation id and its
/// participants in player-number order.
pub struct GameContainer<G> {
    pub game: G,
    pub id: usize,
    pub users: Vec<usize>,
}

/// papaya's concurrent hash map, which holds the participant directory.
#[verifier::external_type_specification]
#[verifier::external_body]
#[verifier::reject_recursive_types(K)]
#[verifier::reject_recursive_types(V)]
#[verifier::reject_recursive_types(S)]
pub struct ExConcurrentMap<K, V, S>(papaya::HashMap<K, V, S>);

/// The participant directory, shared between the connections of a server.
pub type Directory = papaya::HashMap<usize, (usize, usize)>;

/// What the participant directory holds: participant id to
/// (slot index, generation id).
pub uninterp spec fn directory_entries(m: Directory) -> Map<usize, (usize, usize)>;

/// Relies on papaya::HashMap::new: a new map holds no entries.
#[verifier::external_body]
fn directory_new() -> (r: Directory)
    ensures
        directory_entries(r).dom() == Set::<usize>::empty(),
{
    papaya::HashMap::new()
}

/// Relies on papaya's HashMapRef::get: the value stored under the key, if any.
#[verifier::external_body]
fn directory_get(m: &Directory, user: usize) -> (r: Option<(usize, usize)>)
    ensures
        r is Some <==> directory_entries(*m).dom().contains(user),
        r matches Some(e) ==> e == directory_entries(*m)[user],
{
    m.pin().get(&user).copied()
}

/// Relies on papaya's HashMapRef::insert: the key maps to the value
/// afterwards, whether or not it was present; other keys are untouched.
#[verifier::external_body]
fn directory_insert(m: &mut Directory, user: usize, entry: (
    usize,
    usize,
))
    ensures
        directory_entries(*final(m)) == directory_entries(*old(m)).insert(user, entry),
{
    m.pin().insert(user, entry);
}

/// Relies on papaya's HashMapRef::remove: the key is absent afterwards;
/// other keys are untouched.
#[verifier::external_body]
fn directory_remove(m: &mut Directory, user: usize)
    ensures
        directory_entries(*final(m)) == directory_entries(*old(m)).remove(user),
{
    m.pin().remove(&user);
}

/// A prefix one longer holds what the shorter one held and the new element.
proof fn lemma_prefix_grows(users: Seq<usize>, k: int)
    requires
        0 < k <= users.len(),
    ensures
        forall|u: usize|
            #[trigger] users.subrange(0, k).contains(u) <==> (users.subrange(0, k - 1).contains(u)
                || u == users[k - 1]),
{
    let now = users.subrange(0, k);
    let before = users.subrange(0, k - 1);
    assert forall|u: usize| now.contains(u) <==> (before.contains(u) || u == users[k - 1]) by {
        if now.contains(u) {
            let j = choose|j: int| 0 <= j < now.len() && now[j] == u;
            if j < before.len() {
                assert(before[j] == u);
            }
        }
        if before.contains(u) {
            let j = choose|j: int| 0 <= j < before.len() && before[j] == u;
            assert(now[j] == u);
        }
        if u == users[k - 1] {
            assert(now[k - 1] == u);
        }
    }
}

/// Points every one of `users` at `entry`.
fn register_all(m: &mut Directory, users: &Vec<usize>, entry: (
    usize,
    usize,
))
    ensures
        forall|u: usize|
            #![trigger directory_entries(*final(m)).dom().contains(u)]
            directory_entries(*final(m)).dom().contains(u) <==> (directory_entries(
                *old(m),
            ).dom().contains(u) || users@.contains(u)),
        forall|u: usize|
            #![trigger directory_entries(*final(m))[u]]
            directory_entries(*final(m)).dom().contains(u) ==> directory_entries(*final(m))[u]
                == if users@.contains(u) {
                entry
            } else {
                directory_entries(*old(m))[u]
            },
{
    let ghost start = directory_entries(*m);
    let mut k: usize = 0;
    while k < users.len()
        invariant
            k <= users@.len(),
            forall|u: usize|
                #![trigger directory_entries(*m).dom().contains(u)]
                directory_entries(*m).dom().contains(u) <==> (start.dom().contains(u)
                    || users@.subrange(0, k as int).contains(u)),
            forall|u: usize|
                #![trigger directory_entries(*m)[u]]
                directory_entries(*m).dom().contains(u) ==> directory_entries(*m)[u] == if users@.subrange(0, k as int).contains(u) {
                    entry
                } else {
                    start[u]
                },
        decreases users@.len() - k,
    {
        directory_insert(m, users[k], entry);
        k += 1;
        proof {
            lemma_prefix_grows(users@, k as int);
        }
    }
    proof {
        assert(users@.subrange(0, users@.len() as int) =~= users@);
    }
}

/// Removes every one of `users` from the directory.
fn unregister_all(m: &mut Directory, users: &Vec<usize>)
    ensures
        forall|u: usize|
            #![trigger directory_entries(*final(m)).dom().contains(u)]
            directory_entries(*final(m)).dom().contains(u) <==> (directory_entries(
                *old(m),
            ).dom().contains(u) && !users@.contains(u)),
        forall|u: usize|
            #![trigger directory_entries(*final(m))[u]]
            directory_entries(*final(m)).dom().contains(u) ==> directory_entries(*final(m))[u]
                == directory_entries(*old(m))[u],
{
    let ghost start = directory_entries(*m);
    let mut k: usize = 0;
    while k < users.len()
        invariant
            k <= users@.len(),
            forall|u: usize|
                #![trigger directory_entries(*m).dom().contains(u)]
                directory_entries(*m).dom().contains(u) <==> (start.dom().contains(u)
                    && !users@.subrange(0, k as int).contains(u)),
            forall|u: usize|
                #![trigger directory_entries(*m)[u]]
                directory_entries(*m).dom().contains(u) ==> directory_entries(*m)[u] == start[u],
        decreases users@.len() - k,
    {
        directory_remove(m, users[k]);
        k += 1;
        proof {
            lemma_prefix_grows(users@, k as int);
        }
    }
    proof {
        assert(users@.subrange(0, users@.len() as int) =~= users@);
    }
}

/// The player number of `user` in a roster: its position.
fn position_of(users: &Vec<usize>, user: usize) -> (r: Option<usize>)
    ensures
        r is None <==> !users@.contains(user),
        r matches Some(k) ==> k < users@.len() && users@[k as int] == user,
{
    let mut k: usize = 0;
    while k < users.len()
        invariant
            k <= users@.len(),
            forall|j: int| 0 <= j < k ==> users@[j] != user,
        decreases users@.len() - k,
    {
        if users[k] == user {
            return Some(k);
        }
        k += 1;
    }
    None
}

fn copy_ids(v: &Vec<usize>) -> (r: Vec<usize>)
    ensures
        r@ == v@,
{
    let mut r: Vec<usize> = Vec::with_capacity(v.len());
    let mut k: usize = 0;
    while k < v.len()
        invariant
            k <= v@.len(),
            r@ == v@.subrange(0, k as int),
        decreases v@.len() - k,
    {
        r.push(v[k]);
        k += 1;
        proof {
            assert(r@ =~= v@.subrange(0, k as int));
        }
    }
    proof {
        assert(v@.subrange(0, v@.len() as int) =~= v@);
    }
    r
}

/// Whether every message is addressed to a player number of the roster.
pub open spec fn all_addressable<M>(users: Seq<usize>, responses: Seq<OutputMessage<usize, M>>) -> bool {
    forall|i: int| 0 <= i < responses.len() ==> (#[trigger] responses[i].recipient as int) < users.len()
}

#[verifier::loop_isolation(false)]
/// Readdresses messages from player numbers to the participant identifiers of
/// the roster, keeping their order; `None` when one of them names a player
/// number that the roster does not have.
pub fn route_responses<M>(users: &Vec<usize>, responses: Vec<OutputMessage<usize, M>>) -> (r: Option<
    Vec<OutputMessage<usize, M>>,
>)
    ensures
        r is Some <==> all_addressable(users@, responses@),
        r matches Some(out) ==> out@.len() == responses@.len() && forall|i: int|
            0 <= i < out@.len() ==> (#[trigger] out@[i]).recipient == users@[responses@[i].recipient as int]
                && out@[i].message == responses@[i].message,
{
    let ghost all = responses@;
    let mut rest = responses;
    let mut out: Vec<OutputMessage<usize, M>> = Vec::new();
    while rest.len() > 0
        invariant
            out@.len() + rest@.len() == all.len(),
            rest@ == all.subrange(out@.len() as int, all.len() as int),
            forall|i: int| 0 <= i < out@.len() ==> (all[i].recipient as int) < users@.len(),
            forall|i: int|
                0 <= i < out@.len() ==> (#[trigger] out@[i]).recipient == users@[all[i].recipient as int]
                    && out@[i].message == all[i].message,
        decreases rest@.len(),
    {
        let ghost n = out@.len() as int;
        let m = rest.remove(0);
        proof {
            assert(m == all[n]);
        }
        if m.recipient >= users.len() {
            proof {
                assert(!all_addressable(users@, all));
            }
            return None;
        }
        let recipient = users[m.recipient];
        out.push(OutputMessage { recipient, message: m.message });
        proof {
            assert(rest@ =~= all.subrange(out@.len() as int, all.len() as int));
        }
    }
    proof {
        assert(all_addressable(users@, all));
    }
    Some(out)
}

/// A table of session slots with a free list and a participant directory.
/// A session lives in one slot; the directory maps each of its participants
/// to the slot and the session's generation id.
pub struct SessionManager<G: Game + Default> {
    games: Vec<Option<GameContainer<G>>>,
    freelist: Vec<usize>,
    users: Directory,
    id_counter: usize,
    generation_counter: usize,
}

/// `ids` were handed out between the two states: each is at or above the
/// participant counter before and below it after.
pub open spec fn issued_between<G: Game + Default>(
    before: SessionManager<G>,
    after: SessionManager<G>,
    ids: Seq<usize>,
) -> bool {
    forall|i: int| 0 <= i < ids.len() ==> before.next_id() <= #[trigger] ids[i] < after.next_id()
}

impl<G: Game + Default> SessionManager<G> {
    pub closed spec fn num_slots(&self) -> nat {
        self.games@.len()
    }

    /// How many slots are free.
    pub closed spec fn free_slots(&self) -> nat {
        self.freelist@.len()
    }

    /// The next participant identifier to be handed out.
    pub closed spec fn next_id(&self) -> nat {
        self.id_counter as nat
    }

    /// The next generation id to be handed out.
    pub closed spec fn next_generation(&self) -> nat {
        self.generation_counter as nat
    }

    pub closed spec fn directory(&self) -> Map<usize, (usize, usize)> {
        directory_entries(self.users)
    }

    /// Whether the reference names the session that its slot holds now.
    pub closed spec fn is_live(&self, g: GameRef) -> bool {
        &&& (g.index as int) < self.games@.len()
        &&& self.games@[g.index as int] is Some
        &&& self.games@[g.index as int]->Some_0.id == g.id
    }

    /// The participants of the session in slot `g.index`, in player-number order.
    pub closed spec fn roster(&self, g: GameRef) -> Seq<usize> {
        self.games@[g.index as int]->Some_0.users@
    }

    /// The state of the session in slot `g.index`.
    pub closed spec fn game_state(&self, g: GameRef) -> G {
        self.games@[g.index as int]->Some_0.game
    }

    /// The session that the directory gives for a participant.
    pub closed spec fn locate_spec(&self, user: usize) -> Option<GameRef> {
        if self.directory().dom().contains(user) {
            Some(GameRef { index: self.directory()[user].0, id: self.directory()[user].1 })
        } else {
            None
        }
    }

    spec fn container_wf(&self, s: int) -> bool {
        let c = self.games@[s]->Some_0;
        &&& c.id < self.generation_counter
        &&& c.users@.len() == G::NUM_PLAYERS
        &&& c.users@.no_duplicates()
        &&& forall|k: int|
            #![trigger c.users@[k]]
            0 <= k < c.users@.len() ==> c.users@[k] < self.id_counter && self.directory().dom().contains(
                c.users@[k],
            ) && self.directory()[c.users@[k]] == (s as usize, c.id)
    }

    spec fn entry_wf(&self, u: usize) -> bool {
        let e = self.directory()[u];
        &&& (e.0 as int) < self.games@.len()
        &&& self.games@[e.0 as int] is Some
        &&& self.games@[e.0 as int]->Some_0.id == e.1
        &&& self.games@[e.0 as int]->Some_0.users@.contains(u)
    }

    /// The free list names exactly the empty slots, once each; every session
    /// has a full roster of identifiers already handed out; the directory
    /// holds exactly the participants of live sessions, each pointing at its
    /// own session.
    pub closed spec fn wf(&self) -> bool {
        &&& self.games@.len() <= usize::MAX
        &&& forall|i: int|
            #![trigger self.freelist@[i]]
            0 <= i < self.freelist@.len() ==> (self.freelist@[i] as int) < self.games@.len()
                && self.games@[self.freelist@[i] as int] is None
        &&& self.freelist@.no_duplicates()
        &&& forall|s: int|
            #![trigger self.games@[s]]
            0 <= s < self.games@.len() && self.games@[s] is None ==> self.freelist@.contains(
                s as usize,
            )
        &&& forall|s: int|
            #![trigger self.games@[s]]
            0 <= s < self.games@.len() && self.games@[s] is Some ==> self.container_wf(s)
        &&& forall|u: usize|
            #![trigger self.directory().dom().contains(u)]
            self.directory().dom().contains(u) ==> self.entry_wf(u)
    }

    /// `self` came from `earlier` by operations of this table: the slots
    /// stay, the counters only grow, and a session live now but not then has
    /// a generation id that was fresh then.
    pub open spec fn succeeds(&self, earlier: &Self) -> bool {
        &&& self.num_slots() == earlier.num_slots()
        &&& self.next_id() >= earlier.next_id()
        &&& self.next_generation() >= earlier.next_generation()
        &&& forall|g: GameRef|
            #![trigger self.is_live(g)]
            self.is_live(g) && !earlier.is_live(g) ==> g.id >= earlier.next_generation()
    }

    /// Whether the counters can still hand out a roster of participant
    /// identifiers and a generation id.
    pub open spec fn has_fresh_ids(&self) -> bool {
        self.next_id() + G::NUM_PLAYERS <= usize::MAX && self.next_generation() < usize::MAX
    }

    /// `self` is `before` with one more session, whose roster is `ids`: each
    /// of them is located at that new session, and every earlier session and
    /// directory entry is as it was.
    pub open spec fn adds_session(&self, before: &Self, ids: Seq<usize>) -> bool {
        &&& self.free_slots() + 1 == before.free_slots()
        &&& forall|i: int|
            #![trigger ids[i]]
            0 <= i < ids.len() ==> (self.locate_spec(ids[i]) matches Some(g) && self.is_live(g)
                && !before.is_live(g) && self.roster(g) == ids && g.id >= before.next_generation())
        &&& forall|i: int, j: int|
            0 <= i < ids.len() && 0 <= j < ids.len() ==> self.locate_spec(#[trigger] ids[i])
                == self.locate_spec(#[trigger] ids[j])
        &&& self.keeps_sessions_of(before)
        &&& forall|u: usize|
            #![trigger before.locate_spec(u)]
            before.locate_spec(u) is Some ==> self.locate_spec(u) == before.locate_spec(u)
        &&& forall|u: usize|
            #![trigger self.locate_spec(u)]
            before.locate_spec(u) is None && !ids.contains(u) ==> self.locate_spec(u) is None
    }

    /// Every session live in `before` is live in `self` with the same roster
    /// and state.
    pub open spec fn keeps_sessions_of(&self, before: &Self) -> bool {
        forall|g: GameRef|
            #![trigger before.is_live(g)]
            before.is_live(g) ==> self.is_live(g) && self.roster(g) == before.roster(g)
                && self.game_state(g) == before.game_state(g)
    }

    proof fn lemma_entry_below_counter(&self, u: usize)
        requires
            self.wf(),
            self.directory().dom().contains(u),
        ensures
            u < self.id_counter,
            (self.directory()[u].0 as int) < self.games@.len(),
            self.games@[self.directory()[u].0 as int] is Some,
    {
        assert(self.entry_wf(u));
        let s = self.directory()[u].0 as int;
        assert(self.container_wf(s));
        let c = self.games@[s]->Some_0;
        let k = choose|k: int| 0 <= k < c.users@.len() && c.users@[k] == u;
        assert(c.users@[k] < self.id_counter);
    }

    /// A table of `max_num_games` empty slots.
    pub fn new(max_num_games: usize) -> (r: Self)
        ensures
            r.wf(),
            r.num_slots() == max_num_games,
            r.free_slots() == max_num_games,
            r.next_id() == 1,
            r.next_generation() == 1,
            forall|u: usize| #[trigger] r.locate_spec(u) is None,
            forall|g: GameRef| !#[trigger] r.is_live(g),
    {
        let mut games: Vec<Option<GameContainer<G>>> = Vec::new();
        let mut freelist: Vec<usize> = Vec::new();
        let mut i: usize = 0;
        while i < max_num_games
            invariant
                i <= max_num_games,
                games@.len() == i,
                freelist@.len() == i,
                forall|s: int| 0 <= s < i ==> games@[s] is None,
                forall|s: int| 0 <= s < i ==> freelist@[s] == s,
            decreases max_num_games - i,
        {
            games.push(None);
            freelist.push(i);
            i += 1;
        }
        let r = SessionManager {
            games,
            freelist,
            users: directory_new(),
            id_counter: 1,
            generation_counter: 1,
        };
        proof {
            assert forall|s: int|
                0 <= s < r.games@.len() && r.games@[s] is None implies r.freelist@.contains(
                    s as usize,
                ) by {
                assert(r.freelist@[s] == s as usize);
            }
        }
        r
    }

    /// Hands out the next participant identifier.
    fn new_id(&mut self) -> (r: usize)
        requires
            old(self).id_counter < usize::MAX,
        ensures
            r == old(self).id_counter,
            final(self).id_counter == old(self).id_counter + 1,
            final(self).games == old(self).games,
            final(self).freelist == old(self).freelist,
            final(self).users == old(self).users,
            final(self).generation_counter == old(self).generation_counter,
    {
        let id = self.id_counter;
        self.id_counter = self.id_counter + 1;
        id
    }

    /// A fresh session for `users`, under the next generation id.
    fn new_game(&mut self, users: Vec<usize>) -> (r: GameContainer<G>)
        requires
            old(self).generation_counter < usize::MAX,
        ensures
            r.id == old(self).generation_counter,
            r.users == users,
            final(self).generation_counter == old(self).generation_counter + 1,
            final(self).games == old(self).games,
            final(self).freelist == old(self).freelist,
            final(self).users == old(self).users,
            final(self).id_counter == old(self).id_counter,
    {
        let id = self.generation_counter;
        self.generation_counter = self.generation_counter + 1;
        GameContainer { game: G::default(), id, users }
    }

    /// Starts a session in a free slot and returns its participants'
    /// identifiers in player-number order.
    pub fn create(&mut self) -> (r: Result<Vec<usize>, CreateGameError>)
        requires
            old(self).wf(),
        ensures
            final(self).wf(),
            final(self).succeeds(old(self)),
            r matches Err(CreateGameError::ServerFull) <==> old(self).free_slots() == 0,
            r matches Err(CreateGameError::IdsExhausted) <==> old(self).free_slots() > 0
                && !old(self).has_fresh_ids(),
            r is Err ==> *final(self) == *old(self),
            r matches Ok(ids) ==> ids@.len() == G::NUM_PLAYERS && ids@.no_duplicates() && (forall|i: int|
                0 <= i < ids@.len() ==> #[trigger] ids@[i] == old(self).next_id() + i)
                && final(self).next_id() == old(self).next_id() + G::NUM_PLAYERS
                && final(self).next_generation() == old(self).next_generation() + 1
                && issued_between(*old(self), *final(self), ids@) && final(self).adds_session(
                old(self),
                ids@,
            ),
    {
        if self.freelist.len() == 0 {
            return Err(CreateGameError::ServerFull);
        }
        if G::NUM_PLAYERS > usize::MAX - self.id_counter || self.generation_counter == usize::MAX {
            return Err(CreateGameError::IdsExhausted);
        }
        let ghost before = *self;
        let slot = match self.freelist.pop() {
            Some(s) => s,
            None => {
                return Err(CreateGameError::ServerFull);
            },
        };
        proof {
            assert(before.freelist@[before.freelist@.len() - 1] == slot);
        }
        let mut users: Vec<usize> = Vec::new();
        let mut i: usize = 0;
        while i < G::NUM_PLAYERS
            invariant
                i <= G::NUM_PLAYERS,
                before.id_counter + G::NUM_PLAYERS <= usize::MAX,
                users@.len() == i,
                forall|k: int| 0 <= k < i ==> users@[k] == before.id_counter + k,
                self.id_counter == before.id_counter + i,
                self.games == before.games,
                self.freelist@ == before.freelist@.drop_last(),
                self.users == before.users,
                self.generation_counter == before.generation_counter,
            decreases G::NUM_PLAYERS - i,
        {
            let id = self.new_id();
            users.push(id);
            i += 1;
        }
        let game = self.new_game(copy_ids(&users));
        let entry = (slot, game.id);
        self.games.set(slot, Some(game));
        register_all(&mut self.users, &users, entry);
        proof {
            self.lemma_create_wf(before, slot, users@);
        }
        Ok(users)
    }

    proof fn lemma_create_wf(&self, before: Self, slot: usize, ids: Seq<usize>)
        requires
            before.wf(),
            before.freelist@.len() > 0,
            slot == before.freelist@.last(),
            self.freelist@ == before.freelist@.drop_last(),
            ids.len() == G::NUM_PLAYERS,
            forall|k: int| 0 <= k < ids.len() ==> ids[k] == before.id_counter + k,
            self.id_counter == before.id_counter + G::NUM_PLAYERS,
            self.generation_counter == before.generation_counter + 1,
            self.games@ == before.games@.update(
                slot as int,
                Some(self.games@[slot as int]->Some_0),
            ),
            self.games@[slot as int] is Some,
            self.games@[slot as int]->Some_0.id == before.generation_counter,
            self.games@[slot as int]->Some_0.users@ == ids,
            forall|u: usize|
                #![trigger self.directory().dom().contains(u)]
                self.directory().dom().contains(u) <==> (before.directory().dom().contains(u)
                    || ids.contains(u)),
            forall|u: usize|
                #![trigger self.directory()[u]]
                self.directory().dom().contains(u) ==> self.directory()[u] == if ids.contains(u) {
                    (slot, before.generation_counter)
                } else {
                    before.directory()[u]
                },
        ensures
            self.wf(),
            self.succeeds(&before),
            self.adds_session(&before, ids),
    {
        let n = before.freelist@.len() - 1;
        assert(before.freelist@[n] == slot);
        assert((slot as int) < before.games@.len() && before.games@[slot as int] is None);
        let gen = before.generation_counter;
        // identifiers of earlier sessions are all below the new ones
        assert forall|u: usize| before.directory().dom().contains(u) implies !ids.contains(u) by {
            before.lemma_entry_below_counter(u);
            if ids.contains(u) {
                let k = choose|k: int| 0 <= k < ids.len() && ids[k] == u;
            }
        }
        // the free list
        assert forall|i: int|
            #![trigger self.freelist@[i]]
            0 <= i < self.freelist@.len() implies (self.freelist@[i] as int) < self.games@.len()
                && self.games@[self.freelist@[i] as int] is None by {
            assert(before.freelist@[i] == self.freelist@[i]);
            assert(self.freelist@[i] != slot);
        }
        assert forall|s: int|
            #![trigger self.games@[s]]
            0 <= s < self.games@.len() && self.games@[s] is None implies self.freelist@.contains(
                s as usize,
            ) by {
            assert(s != slot);
            assert(before.games@[s] is None);
            let i = choose|i: int| 0 <= i < before.freelist@.len() && before.freelist@[i] == s as usize;
            assert((s as usize) as int == s);
            assert(i != n);
            assert(self.freelist@[i] == s as usize);
        }
        // the new roster has no duplicates
        assert forall|a: int, b: int|
            0 <= a < ids.len() && 0 <= b < ids.len() && a != b implies ids[a] != ids[b] by {}
        // every session
        assert forall|s: int|
            #![trigger self.games@[s]]
            0 <= s < self.games@.len() && self.games@[s] is Some implies self.container_wf(s) by {
            let c = self.games@[s]->Some_0;
            if s == slot {
                assert forall|k: int|
                    #![trigger c.users@[k]]
                    0 <= k < c.users@.len() implies c.users@[k] < self.id_counter
                        && self.directory().dom().contains(c.users@[k]) && self.directory()[c.users@[k]]
                        == (s as usize, c.id) by {
                    assert(ids[k] == c.users@[k]);
                    assert(ids.contains(ids[k]));
                }
            } else {
                assert(before.games@[s] == self.games@[s]);
                assert(before.container_wf(s));
                assert forall|k: int|
                    #![trigger c.users@[k]]
                    0 <= k < c.users@.len() implies c.users@[k] < self.id_counter
                        && self.directory().dom().contains(c.users@[k]) && self.directory()[c.users@[k]]
                        == (s as usize, c.id) by {
                    assert(before.directory().dom().contains(c.users@[k]));
                    assert(!ids.contains(c.users@[k]));
                }
            }
        }
        // every directory entry
        assert forall|u: usize|
            #![trigger self.directory().dom().contains(u)]
            self.directory().dom().contains(u) implies self.entry_wf(u) by {
            if ids.contains(u) {
                assert(self.directory()[u] == (slot, gen));
            } else {
                assert(before.entry_wf(u));
                before.lemma_entry_below_counter(u);
                assert(before.directory()[u].0 != slot);
            }
        }
        // what callers see
        assert forall|g: GameRef|
            #![trigger self.is_live(g)]
            self.is_live(g) && !before.is_live(g) implies g.id >= before.next_generation() by {
            if g.index != slot {
                assert(self.games@[g.index as int] == before.games@[g.index as int]);
            }
        }
        assert forall|g: GameRef|
            #![trigger before.is_live(g)]
            before.is_live(g) implies self.is_live(g) && self.roster(g) == before.roster(g)
                && self.game_state(g) == before.game_state(g) by {
            assert(g.index != slot);
        }
        assert forall|i: int|
            #![trigger ids[i]]
            0 <= i < ids.len() implies (self.locate_spec(ids[i]) matches Some(g) && self.is_live(g)
                && !before.is_live(g) && self.roster(g) == ids && g.id >= before.next_generation()) by {
            assert(ids.contains(ids[i]));
            assert(self.directory()[ids[i]] == (slot, gen));
        }
        assert forall|i: int, j: int|
            0 <= i < ids.len() && 0 <= j < ids.len() implies self.locate_spec(#[trigger] ids[i])
                == self.locate_spec(#[trigger] ids[j]) by {
            assert(ids.contains(ids[i]));
            assert(ids.contains(ids[j]));
        }
        assert forall|u: usize|
            #![trigger before.locate_spec(u)]
            before.locate_spec(u) is Some implies self.locate_spec(u) == before.locate_spec(u) by {
            assert(before.directory().dom().contains(u));
            assert(!ids.contains(u));
        }
        assert forall|u: usize|
            #![trigger self.locate_spec(u)]
            before.locate_spec(u) is None && !ids.contains(u) implies self.locate_spec(u) is None by {}
    }

    /// The session that a participant belongs to, from the directory alone.
    pub fn locate(&self, user: usize) -> (r: Option<GameRef>)
        requires
            self.wf(),
        ensures
            r == self.locate_spec(user),
            r matches Some(g) ==> self.is_live(g) && self.roster(g).contains(user),
    {
        match directory_get(&self.users, user) {
            Some(e) => {
                proof {
                    assert(self.entry_wf(user));
                }
                Some(GameRef { index: e.0, id: e.1 })
            },
            None => None,
        }
    }

    /// The identifiers of the participants in the same session as `user`,
    /// `user` among them, in player-number order.
    pub fn get_players(&self, user: usize) -> (r: Result<Vec<usize>, ()>)
        requires
            self.wf(),
        ensures
            r is Err <==> self.locate_spec(user) is None,
            r matches Ok(ids) ==> ids@ == self.roster(self.locate_spec(user)->Some_0)
                && ids@.contains(user) && ids@.len() == G::NUM_PLAYERS,
    {
        match self.locate(user) {
            Some(g) => match &self.games[g.index] {
                Some(c) => Ok(copy_ids(&c.users)),
                None => Err(()),
            },
            None => Err(()),
        }
    }

    /// Ends the session that `game_ref` names and returns its participants,
    /// so that the caller can close their connections. Where the reference is
    /// stale (that session already ended, its slot perhaps reused), nothing
    /// changes and the list is empty.
    pub fn destroy_game(&mut self, game_ref: GameRef) -> (r: Vec<usize>)
        requires
            old(self).wf(),
        ensures
            final(self).wf(),
            final(self).succeeds(old(self)),
            !final(self).is_live(game_ref),
            !old(self).is_live(game_ref) ==> r@ == Seq::<usize>::empty() && *final(self) == *old(self),
            old(self).is_live(game_ref) ==> r@ == old(self).roster(game_ref) && final(self).removes_session(
                old(self),
                game_ref,
            ),
    {
        if game_ref.index >= self.games.len() {
            return Vec::new();
        }
        let live = match &self.games[game_ref.index] {
            Some(c) => c.id == game_ref.id,
            None => false,
        };
        if !live {
            return Vec::new();
        }
        let ghost before = *self;
        let mut slot: Option<GameContainer<G>> = None;
        self.games.set_and_swap(game_ref.index, &mut slot);
        let container = slot.unwrap();
        unregister_all(&mut self.users, &container.users);
        self.freelist.push(game_ref.index);
        proof {
            self.lemma_destroy_wf(before, game_ref, container.users@);
        }
        container.users
    }

    /// `self` is `before` without the session `g`: its slot is free again,
    /// none of its participants can be located, and every other session and
    /// directory entry is as it was.
    pub open spec fn removes_session(&self, before: &Self, g: GameRef) -> bool {
        &&& !self.is_live(g)
        &&& self.free_slots() == before.free_slots() + 1
        &&& forall|u: usize|
            #![trigger self.locate_spec(u)]
            before.roster(g).contains(u) ==> self.locate_spec(u) is None
        &&& forall|u: usize|
            #![trigger self.locate_spec(u)]
            !before.roster(g).contains(u) ==> self.locate_spec(u) == before.locate_spec(u)
        &&& forall|h: GameRef|
            #![trigger before.is_live(h)]
            before.is_live(h) && h.index != g.index ==> self.is_live(h) && self.roster(h)
                == before.roster(h) && self.game_state(h) == before.game_state(h)
        &&& self.next_id() == before.next_id()
        &&& self.next_generation() == before.next_generation()
    }

    proof fn lemma_destroy_wf(&self, before: Self, g: GameRef, ids: Seq<usize>)
        requires
            before.wf(),
            before.is_live(g),
            ids == before.roster(g),
            self.games@ == before.games@.update(g.index as int, None),
            self.freelist@ == before.freelist@.push(g.index),
            self.id_counter == before.id_counter,
            self.generation_counter == before.generation_counter,
            forall|u: usize|
                #![trigger self.directory().dom().contains(u)]
                self.directory().dom().contains(u) <==> (before.directory().dom().contains(u)
                    && !ids.contains(u)),
            forall|u: usize|
                #![trigger self.directory()[u]]
                self.directory().dom().contains(u) ==> self.directory()[u] == before.directory()[u],
        ensures
            self.wf(),
            self.succeeds(&before),
            self.removes_session(&before, g),
    {
        let slot = g.index as int;
        assert(before.container_wf(slot));
        // a participant listed in the destroyed roster points at that slot
        assert forall|u: usize| ids.contains(u) implies before.directory().dom().contains(u)
            && before.directory()[u].0 == g.index by {
            let k = choose|k: int| 0 <= k < ids.len() && ids[k] == u;
            assert(before.games@[slot]->Some_0.users@[k] == u);
        }
        // the free list
        assert(!before.freelist@.contains(g.index)) by {
            if before.freelist@.contains(g.index) {
                let i = choose|i: int| 0 <= i < before.freelist@.len() && before.freelist@[i] == g.index;
                assert(before.games@[before.freelist@[i] as int] is None);
            }
        }
        assert forall|i: int|
            #![trigger self.freelist@[i]]
            0 <= i < self.freelist@.len() implies (self.freelist@[i] as int) < self.games@.len()
                && self.games@[self.freelist@[i] as int] is None by {
            if i < before.freelist@.len() {
                assert(before.freelist@[i] == self.freelist@[i]);
            }
        }
        assert(self.freelist@.no_duplicates()) by {
            assert forall|a: int, b: int|
                0 <= a < self.freelist@.len() && 0 <= b < self.freelist@.len() && a != b implies self.freelist@[a]
                != self.freelist@[b] by {
                let n = before.freelist@.len() as int;
                if a < n && b < n {
                    assert(before.freelist@[a] != before.freelist@[b]);
                } else if a < n {
                    assert(before.freelist@.contains(before.freelist@[a]));
                } else if b < n {
                    assert(before.freelist@.contains(before.freelist@[b]));
                }
            }
        }
        assert forall|s: int|
            #![trigger self.games@[s]]
            0 <= s < self.games@.len() && self.games@[s] is None implies self.freelist@.contains(
                s as usize,
            ) by {
            if s == slot {
                assert(self.freelist@[before.freelist@.len() as int] == g.index);
            } else {
                assert(before.games@[s] is None);
                let i = choose|i: int| 0 <= i < before.freelist@.len() && before.freelist@[i] == s as usize;
                assert(self.freelist@[i] == s as usize);
            }
        }
        // the sessions that stay
        assert forall|s: int|
            #![trigger self.games@[s]]
            0 <= s < self.games@.len() && self.games@[s] is Some implies self.container_wf(s) by {
            assert(s != slot);
            assert(before.games@[s] == self.games@[s]);
            assert(before.container_wf(s));
            let c = self.games@[s]->Some_0;
            assert forall|k: int|
                #![trigger c.users@[k]]
                0 <= k < c.users@.len() implies c.users@[k] < self.id_counter
                    && self.directory().dom().contains(c.users@[k]) && self.directory()[c.users@[k]]
                    == (s as usize, c.id) by {
                assert(before.directory()[c.users@[k]].0 == s as usize);
                if ids.contains(c.users@[k]) {
                    assert(before.directory()[c.users@[k]].0 == g.index);
                }
            }
        }
        assert forall|u: usize|
            #![trigger self.directory().dom().contains(u)]
            self.directory().dom().contains(u) implies self.entry_wf(u) by {
            assert(before.entry_wf(u));
            let e = before.directory()[u];
            if e.0 == g.index {
                assert(before.games@[slot]->Some_0.users@.contains(u));
            }
        }
        // what callers see
        assert forall|h: GameRef|
            #![trigger self.is_live(h)]
            self.is_live(h) && !before.is_live(h) implies h.id >= before.next_generation() by {
            assert(h.index != g.index);
        }
        assert forall|u: usize|
            #![trigger self.locate_spec(u)]
            before.roster(g).contains(u) implies self.locate_spec(u) is None by {}
        assert forall|u: usize|
            #![trigger self.locate_spec(u)]
            !before.roster(g).contains(u) implies self.locate_spec(u) == before.locate_spec(u) by {
            if before.directory().dom().contains(u) {
                assert(self.directory().dom().contains(u));
            }
        }
    }

    /// Ends the session that `user` belongs to and returns all of its
    /// participants, `user` among them. A participant who belongs to no
    /// session (its session already ended, say) gets an empty list and
    /// nothing changes, so racing or repeated destroys are harmless.
    pub fn destroy_users_game(&mut self, user: usize) -> (r: Result<Vec<usize>, DestroyGameError>)
        requires
            old(self).wf(),
        ensures
            final(self).wf(),
            final(self).succeeds(old(self)),
            r is Ok,
            old(self).locate_spec(user) is None ==> (r matches Ok(v) && v@.len() == 0) && *final(self)
                == *old(self),
            old(self).locate_spec(user) is Some ==> (r matches Ok(ids) && ids@ == old(self).roster(
                old(self).locate_spec(user)->Some_0,
            ) && ids@.contains(user) && final(self).removes_session(
                old(self),
                old(self).locate_spec(user)->Some_0,
            )),
    {
        match self.locate(user) {
            None => Ok(Vec::new()),
            Some(g) => Ok(self.destroy_game(g)),
        }
    }

    /// `self` differs from `before` at most in the state of session `g`: the
    /// same sessions are live with the same rosters, the directory, the free
    /// slots and the counters are as they were.
    pub open spec fn changes_at_most_state(&self, before: &Self, g: GameRef) -> bool {
        &&& self.num_slots() == before.num_slots()
        &&& self.free_slots() == before.free_slots()
        &&& self.next_id() == before.next_id()
        &&& self.next_generation() == before.next_generation()
        &&& forall|h: GameRef| #[trigger] self.is_live(h) == before.is_live(h)
        &&& forall|h: GameRef|
            #![trigger before.is_live(h)]
            before.is_live(h) ==> self.roster(h) == before.roster(h) && (h.index != g.index
                ==> self.game_state(h) == before.game_state(h))
        &&& forall|u: usize| #[trigger] self.locate_spec(u) == before.locate_spec(u)
    }

    proof fn lemma_state_change_wf(&self, before: Self, g: GameRef)
        requires
            before.wf(),
            before.is_live(g),
            self.games@.len() == before.games@.len(),
            self.games@[g.index as int] is Some,
            self.games@[g.index as int]->Some_0.id == g.id,
            self.games@[g.index as int]->Some_0.users@ == before.roster(g),
            forall|s: int| 0 <= s < self.games@.len() && s != g.index ==> self.games@[s] == before.games@[s],
            self.freelist == before.freelist,
            self.users == before.users,
            self.id_counter == before.id_counter,
            self.generation_counter == before.generation_counter,
        ensures
            self.wf(),
            self.succeeds(&before),
            self.changes_at_most_state(&before, g),
    {
        assert forall|s: int|
            #![trigger self.games@[s]]
            0 <= s < self.games@.len() && self.games@[s] is Some implies self.container_wf(s) by {
            assert(before.container_wf(s));
        }
        assert forall|u: usize|
            #![trigger self.directory().dom().contains(u)]
            self.directory().dom().contains(u) implies self.entry_wf(u) by {
            assert(before.entry_wf(u));
        }
        assert forall|i: int|
            #![trigger self.freelist@[i]]
            0 <= i < self.freelist@.len() implies (self.freelist@[i] as int) < self.games@.len()
                && self.games@[self.freelist@[i] as int] is None by {
            assert(before.games@[before.freelist@[i] as int] is None);
        }
        assert forall|s: int|
            #![trigger self.games@[s]]
            0 <= s < self.games@.len() && self.games@[s] is None implies self.freelist@.contains(
                s as usize,
            ) by {
            assert(before.games@[s] is None);
        }
    }

    /// Hands a message from participant `message.sender` to the session that
    /// `game_ref` names, as a message from the sender's player number, and
    /// returns the session's replies addressed to participant identifiers.
    /// A stale reference changes nothing and gives `GameDoesNotExist`.
    pub fn handle_message_at(
        &mut self,
        game_ref: GameRef,
        message: InputMessage<usize, G::InputMessage>,
    ) -> (r: Result<Vec<OutputMessage<usize, G::OutputMessage>>, HandleMessageError>)
        requires
            old(self).wf(),
        ensures
            final(self).wf(),
            final(self).succeeds(old(self)),
            r matches Err(HandleMessageError::GameDoesNotExist) <==> !old(self).is_live(game_ref),
            !old(self).is_live(game_ref) ==> *final(self) == *old(self),
            old(self).is_live(game_ref) && !old(self).roster(game_ref).contains(message.sender)
                ==> (r matches Err(HandleMessageError::UnexpectedError)) && *final(self) == *old(self),
            old(self).is_live(game_ref) ==> final(self).changes_at_most_state(old(self), game_ref),
            r matches Ok(out) ==> forall|i: int|
                0 <= i < out@.len() ==> old(self).roster(game_ref).contains(
                    (#[trigger] out@[i]).recipient,
                ),
    {
        if game_ref.index >= self.games.len() {
            return Err(HandleMessageError::GameDoesNotExist);
        }
        let live = match &self.games[game_ref.index] {
            Some(c) => c.id == game_ref.id,
            None => false,
        };
        if !live {
            return Err(HandleMessageError::GameDoesNotExist);
        }
        let player = match &self.games[game_ref.index] {
            Some(c) => position_of(&c.users, message.sender),
            None => None,
        };
        let player = match player {
            Some(p) => p,
            None => {
                return Err(HandleMessageError::UnexpectedError);
            },
        };
        let ghost before = *self;
        let mut slot: Option<GameContainer<G>> = None;
        self.games.set_and_swap(game_ref.index, &mut slot);
        let mut container = slot.unwrap();
        let responses = container.game.player_action(
            InputMessage { sender: player, message: message.message },
        );
        let routed = route_responses(&container.users, responses);
        let ghost roster = container.users@;
        self.games.set(game_ref.index, Some(container));
        proof {
            self.lemma_state_change_wf(before, game_ref);
        }
        match routed {
            Some(out) => {
                proof {
                    assert forall|i: int| 0 <= i < out@.len() implies roster.contains(
                        (#[trigger] out@[i]).recipient,
                    ) by {
                        let k = responses@[i].recipient as int;
                        assert(all_addressable(roster, responses@));
                        assert(roster[k] == out@[i].recipient);
                    }
                }
                Ok(out)
            },
            None => Err(HandleMessageError::UnexpectedError),
        }
    }

    /// Hands a message to the session of its sender, found through the
    /// directory; see `handle_message_at`.
    pub fn handle_message(&mut self, message: InputMessage<usize, G::InputMessage>) -> (r: Result<
        Vec<OutputMessage<usize, G::OutputMessage>>,
        HandleMessageError,
    >)
        requires
            old(self).wf(),
        ensures
            final(self).wf(),
            final(self).succeeds(old(self)),
            r matches Err(HandleMessageError::GameDoesNotExist) <==> old(self).locate_spec(
                message.sender,
            ) is None,
            old(self).locate_spec(message.sender) is None ==> *final(self) == *old(self),
            old(self).locate_spec(message.sender) matches Some(g) ==> final(self).changes_at_most_state(old(self), g)
                && (r matches Ok(out) ==> forall|i: int|
                0 <= i < out@.len() ==> old(self).roster(g).contains((#[trigger] out@[i]).recipient)),
    {
        match self.locate(message.sender) {
            None => Err(HandleMessageError::GameDoesNotExist),
            Some(g) => self.handle_message_at(g, message),
        }
    }
}


/// Running operations of the table one after another keeps the later state a
/// successor of every earlier one.
pub proof fn lemma_succeeds_trans<G: Game + Default>(
    a: SessionManager<G>,
    b: SessionManager<G>,
    c: SessionManager<G>,
)
    requires
        b.succeeds(&a),
        c.succeeds(&b),
    ensures
        c.succeeds(&a),
{
    assert forall|g: GameRef|
        #![trigger c.is_live(g)]
        c.is_live(g) && !a.is_live(g) implies g.id >= a.next_generation() by {
        if b.is_live(g) {
            assert(b.is_live(g) && !a.is_live(g));
        }
    }
}

/// Participant identifiers handed out by one `create` and those handed out
/// by any later `create` never coincide.
pub proof fn lemma_created_ids_distinct<G: Game + Default>(
    a: SessionManager<G>,
    b: SessionManager<G>,
    c: SessionManager<G>,
    d: SessionManager<G>,
    first: Seq<usize>,
    second: Seq<usize>,
)
    requires
        issued_between(a, b, first),
        c.succeeds(&b),
        issued_between(c, d, second),
    ensures
        forall|i: int, j: int|
            0 <= i < first.len() && 0 <= j < second.len() ==> #[trigger] first[i] != #[trigger] second[j],
{
}

/// Once a session has ended, a reference to it never names a live session
/// again, whatever is created afterwards in its slot: routing and destroying
/// through it change nothing.
pub proof fn lemma_stale_reference_stays_stale<G: Game + Default>(
    a: SessionManager<G>,
    b: SessionManager<G>,
    c: SessionManager<G>,
    g: GameRef,
)
    requires
        a.wf(),
        a.is_live(g),
        !b.is_live(g),
        b.succeeds(&a),
        c.succeeds(&b),
    ensures
        !c.is_live(g),
{
    assert(a.container_wf(g.index as int));
}

/// After a session is destroyed, every one of its participants, as the
/// destroy returned them, is unknown to `locate`.
pub proof fn lemma_destroyed_members_not_found<G: Game + Default>(
    before: SessionManager<G>,
    after: SessionManager<G>,
    g: GameRef,
    members: Seq<usize>,
)
    requires
        after.removes_session(&before, g),
        members == before.roster(g),
    ensures
        forall|i: int| 0 <= i < members.len() ==> (#[trigger] after.locate_spec(members[i])) is None,
{
    assert forall|i: int| 0 <= i < members.len() implies (#[trigger] after.locate_spec(members[i])) is None by {
        assert(before.roster(g).contains(members[i]));
    }
}

/// Along the states, the participant counter never goes down.
spec fn ids_grow<G: Game + Default>(states: Seq<SessionManager<G>>) -> bool {
    forall|k: int|
        #![trigger states[k]]
        0 <= k < states.len() - 1 ==> states[k].next_id() <= states[k + 1].next_id()
}

proof fn lemma_next_id_grows<G: Game + Default>(states: Seq<SessionManager<G>>, a: int, b: int)
    requires
        ids_grow(states),
        0 <= a <= b < states.len(),
    ensures
        states[a].next_id() <= states[b].next_id(),
    decreases b - a,
{
    if a < b {
        lemma_next_id_grows(states, a, b - 1);
        assert(states[b - 1].next_id() <= states[b - 1 + 1].next_id());
    }
}

/// Over any run of the table, given as its successive states and the
/// identifiers each step handed out (none for a step that is not a
/// `create`), no identifier is handed out twice: not within one step, and
/// not at two different steps.
pub proof fn lemma_ids_unique_over_history<G: Game + Default>(
    states: Seq<SessionManager<G>>,
    issued: Seq<Seq<usize>>,
)
    requires
        states.len() == issued.len() + 1,
        forall|k: int|
            #![trigger issued[k]]
            0 <= k < issued.len() ==> states[k + 1].succeeds(&states[k]) && issued_between(
                states[k],
                states[k + 1],
                issued[k],
            ) && issued[k].no_duplicates(),
    ensures
        forall|k: int| 0 <= k < issued.len() ==> (#[trigger] issued[k]).no_duplicates(),
        forall|a: int, b: int, i: int, j: int|
            0 <= a < b < issued.len() && 0 <= i < issued[a].len() && 0 <= j < issued[b].len()
                ==> #[trigger] issued[a][i] != #[trigger] issued[b][j],
{
    assert forall|k: int| #![trigger states[k]] 0 <= k < states.len() - 1 implies states[k].next_id()
        <= states[k + 1].next_id() by {
        let step = issued[k];
        assert(states[k + 1].succeeds(&states[k]));
    }
    assert(ids_grow(states));
    assert forall|a: int, b: int, i: int, j: int|
        0 <= a < b < issued.len() && 0 <= i < issued[a].len() && 0 <= j < issued[b].len()
            implies #[trigger] issued[a][i] != #[trigger] issued[b][j] by {
        lemma_next_id_grows(states, a + 1, b);
        assert(issued_between(states[a], states[a + 1], issued[a]));
        assert(issued_between(states[b], states[b + 1], issued[b]));
        assert(issued[a][i] < states[a + 1].next_id());
        assert(states[b].next_id() <= issued[b][j]);
    }
}

} // verus!
