//! Seats, turn order and what is known of the other players.

use std::collections::HashMap;
use vstd::prelude::*;
use vstd::arithmetic::div_mod::{lemma_mod_add_multiples_vanish, lemma_mod_self_0, lemma_small_mod};

verus! {

broadcast use vstd::std_specs::hash::group_hash_axioms;

/// A peer of the mesh: the 16 bytes of its identifier, read big-endian.
#[derive(Debug, Clone, Copy, PartialEq, Eq, Structural)]
pub struct PeerId(pub u128);

/// Direction in which the turn goes round the seats.
#[derive(Debug, Clone, Copy, PartialEq, Eq, Structural)]
pub enum Direction {
    Clockwise,
    CounterClockwise,
}

/// The other direction.
pub open spec fn flipped(d: Direction) -> Direction {
    match d {
        Direction::Clockwise => Direction::CounterClockwise,
        Direction::CounterClockwise => Direction::Clockwise,
    }
}

/// The seat after seat `i` of `n` seats, going in direction `d`.
pub open spec fn next_seat(i: int, n: int, d: Direction) -> int {
    match d {
        Direction::Clockwise => (i + 1) % n,
        Direction::CounterClockwise => (i + n - 1) % n,
    }
}

/// The seat of `p` in `order`, for an order in which `p` sits once.
pub open spec fn seat_of(order: Seq<PeerId>, p: PeerId) -> int {
    choose|i: int| 0 <= i < order.len() && order[i] == p
}

/// Where `p` first sits in `order`, if anywhere.
pub fn position(order: &Vec<PeerId>, p: PeerId) -> (r: Option<usize>)
    ensures
        match r {
            Some(i) => i < order@.len() && order@[i as int] == p && (order@.no_duplicates()
                ==> seat_of(order@, p) == i),
            None => !order@.contains(p),
        },
{
    let mut i: usize = 0;
    while i < order.len()
        invariant
            i <= order@.len(),
            forall|j: int| 0 <= j < i ==> order@[j] != p,
        decreases order@.len() - i,
    {
        if order[i] == p {
            proof {
                if order@.no_duplicates() {
                    let k = seat_of(order@, p);
                    assert(0 <= k < order@.len() && order@[k] == p);
                }
            }
            return Some(i);
        }
        i = i + 1;
    }
    None
}

/// Whose turn it is after `current`'s, going in direction `d`.
pub open spec fn next_player(order: Seq<PeerId>, d: Direction, current: PeerId) -> PeerId {
    order[next_seat(seat_of(order, current), order.len() as int, d)]
}

/// Going one seat in direction `d` and then one in the other direction
/// comes back to the same seat.
pub proof fn lemma_step_back(i: int, n: int, d: Direction)
    requires
        0 <= i < n,
    ensures
        next_seat(next_seat(i, n, d), n, flipped(d)) == i,
{
    lemma_small_mod(i as nat, n as nat);
    lemma_mod_self_0(n);
    lemma_mod_add_multiples_vanish(i, n);
    if i + 1 < n {
        lemma_small_mod((i + 1) as nat, n as nat);
    }
    if i > 0 {
        lemma_small_mod((i - 1) as nat, n as nat);
        lemma_mod_add_multiples_vanish(i - 1, n);
    }
    lemma_small_mod((n - 1) as nat, n as nat);
}

/// A Reverse card: after the turn has moved on from the player at seat
/// `i`, turning the direction round and moving twice lands on the seat
/// next to `i` in the new direction.
pub proof fn lemma_reverse_turns_back(i: int, n: int, d: Direction)
    requires
        0 <= i < n,
    ensures
        next_seat(next_seat(next_seat(i, n, d), n, flipped(d)), n, flipped(d)) == next_seat(
            i,
            n,
            flipped(d),
        ),
{
    lemma_step_back(i, n, d);
}

/// Turn state: whose turn it is, the seating order and the direction.
#[derive(Debug)]
pub struct GameInfo {
    pub current_player: Option<PeerId>,
    pub order: Vec<PeerId>,
    pub direction: Direction,
}

impl GameInfo {
    /// Nobody sits twice, and the current player, if any, has a seat.
    pub open spec fn wf(&self) -> bool {
        &&& self.order@.no_duplicates()
        &&& (self.current_player matches Some(p) ==> self.order@.contains(p))
    }

    /// No game: no seats, no current player, clockwise.
    pub fn new() -> (r: GameInfo)
        ensures
            r.current_player is None,
            r.order@.len() == 0,
            r.direction == Direction::Clockwise,
            r.wf(),
    {
        GameInfo { current_player: None, order: Vec::new(), direction: Direction::Clockwise }
    }

    /// Clears the turn state before a new order arrives.
    pub fn reset(&mut self)
        ensures
            final(self).current_player is None,
            final(self).order@.len() == 0,
            final(self).direction == Direction::Clockwise,
            final(self).wf(),
    {
        self.current_player = None;
        self.order = Vec::new();
        self.direction = Direction::Clockwise;
    }

    /// Moves to the next player in the order and returns the new current
    /// player. Without a current player nothing changes.
    pub fn advance_turn(&mut self) -> (r: Option<PeerId>)
        requires
            old(self).wf(),
        ensures
            r == match old(self).current_player {
                None => None,
                Some(p) => Some(next_player(old(self).order@, old(self).direction, p)),
            },
            final(self).current_player == r,
            final(self).order@ == old(self).order@,
            final(self).direction == old(self).direction,
            final(self).wf(),
    {
        let next_player = match self.current_player {
            Some(current_player) => {
                let ghost order = self.order@;
                let n = self.order.len();
                let mut i: usize = 0;
                while self.order[i] != current_player
                    invariant
                        i < order.len(),
                        n == order.len(),
                        self.order@ == order,
                        order.contains(current_player),
                        forall|j: int| 0 <= j < i ==> order[j] != current_player,
                    decreases order.len() - i,
                {
                    i = i + 1;
                    proof {
                        if i == order.len() {
                            let k = choose|k: int| 0 <= k < order.len() && order[k] == current_player;
                            assert(order[k] == current_player);
                        }
                    }
                }
                proof {
                    let k = seat_of(order, current_player);
                    assert(0 <= k < order.len() && order[k] == current_player);
                    assert(k == i);
                }
                let next_index = match self.direction {
                    Direction::Clockwise => (i + 1) % n,
                    Direction::CounterClockwise => if i == 0 {
                        n - 1
                    } else {
                        i - 1
                    },
                };
                proof {
                    assert(next_index == next_seat(i as int, n as int, self.direction)) by {
                        if i == 0 {
                            assert((0 + n - 1) % (n as int) == n - 1) by (nonlinear_arith)
                                requires n > 0;
                        } else {
                            assert((i + n - 1) % (n as int) == i - 1) by (nonlinear_arith)
                                requires 0 < i < n;
                        }
                    }
                }
                Some(self.order[next_index])
            },
            None => None,
        };
        self.current_player = next_player;
        next_player
    }

    /// Turns the direction round; the current player stays.
    pub fn swap_direction(&mut self)
        ensures
            final(self).direction == flipped(old(self).direction),
            final(self).current_player == old(self).current_player,
            final(self).order@ == old(self).order@,
    {
        self.direction = match self.direction {
            Direction::Clockwise => Direction::CounterClockwise,
            Direction::CounterClockwise => Direction::Clockwise,
        }
    }
}

/// Another player at the table, with the number of cards it is believed
/// to hold.
#[derive(Debug)]
pub struct Opponent {
    pub id: PeerId,
    pub name: String,
    pub card_count: usize,
}

impl Opponent {
    /// An opponent with the given identifier, name and card count.
    pub fn new(id: PeerId, name: String, card_count: usize) -> (r: Opponent)
        ensures
            r.id == id,
            r.name@ == name@,
            r.card_count == card_count,
    {
        Opponent { id, name, card_count }
    }
}

/// The other players, in seating order.
#[derive(Debug)]
pub struct Opponents(pub Vec<Opponent>);

/// `opps` has an entry for `id`.
pub open spec fn has_opponent(opps: Seq<Opponent>, id: PeerId) -> bool {
    exists|i: int| 0 <= i < opps.len() && opps[i].id == id
}

/// `i` is the first entry of `opps` for `id`.
pub open spec fn is_first_entry(opps: Seq<Opponent>, id: PeerId, i: int) -> bool {
    &&& 0 <= i < opps.len()
    &&& opps[i].id == id
    &&& forall|j: int| 0 <= j < i ==> opps[j].id != id
}

/// The first entry of `opps` for `id`, when there is one.
pub open spec fn first_entry(opps: Seq<Opponent>, id: PeerId) -> int {
    choose|i: int| is_first_entry(opps, id, i)
}

/// A peer with an entry has a first entry.
pub proof fn lemma_first_entry(opps: Seq<Opponent>, id: PeerId)
    requires
        has_opponent(opps, id),
    ensures
        is_first_entry(opps, id, first_entry(opps, id)),
    decreases opps.len(),
{
    let init = opps.drop_last();
    assert(forall|j: int| 0 <= j < init.len() ==> init[j] == opps[j]);
    if has_opponent(init, id) {
        lemma_first_entry(init, id);
        let k = first_entry(init, id);
        assert(is_first_entry(opps, id, k));
    } else {
        let w = choose|w: int| 0 <= w < opps.len() && opps[w].id == id;
        if w < opps.len() - 1 {
            assert(init[w].id == id);
        }
        assert(is_first_entry(opps, id, opps.len() - 1));
    }
}

/// `a + b`, or the largest `usize` when that is more.
pub open spec fn saturating_sum(a: usize, b: usize) -> usize {
    if a + b > usize::MAX {
        usize::MAX
    } else {
        (a + b) as usize
    }
}

/// The same opponent with another card count.
pub open spec fn with_count(o: Opponent, n: usize) -> Opponent {
    Opponent { card_count: n, ..o }
}

/// `opps` after the first entry for `id` was credited with `k` more cards.
pub open spec fn credited(opps: Seq<Opponent>, id: PeerId, k: usize) -> Seq<Opponent> {
    if has_opponent(opps, id) {
        let i = first_entry(opps, id);
        opps.update(i, with_count(opps[i], saturating_sum(opps[i].card_count, k)))
    } else {
        opps
    }
}

/// `opps` after the first entry for `id` was debited one card (a count of
/// zero stays zero).
pub open spec fn debited(opps: Seq<Opponent>, id: PeerId) -> Seq<Opponent> {
    if has_opponent(opps, id) {
        let i = first_entry(opps, id);
        let n = opps[i].card_count;
        opps.update(i, with_count(opps[i], if n > 0 { (n - 1) as usize } else { 0 }))
    } else {
        opps
    }
}

impl Opponents {
    /// Where the first entry for `id` stands, if any.
    pub fn find(&self, id: PeerId) -> (r: Option<usize>)
        ensures
            match r {
                Some(i) => is_first_entry(self.0@, id, i as int),
                None => !has_opponent(self.0@, id),
            },
    {
        let mut i: usize = 0;
        while i < self.0.len()
            invariant
                i <= self.0@.len(),
                forall|j: int| 0 <= j < i ==> self.0@[j].id != id,
            decreases self.0@.len() - i,
        {
            if self.0[i].id == id {
                return Some(i);
            }
            i = i + 1;
        }
        None
    }

    /// Sets the card count of entry `i`.
    fn set_count(&mut self, i: usize, n: usize)
        requires
            i < old(self).0@.len(),
        ensures
            final(self).0@ == old(self).0@.update(i as int, with_count(old(self).0@[i as int], n)),
    {
        let mut o = self.0.remove(i);
        o.card_count = n;
        self.0.insert(i, o);
        assert(self.0@ =~= old(self).0@.update(i as int, with_count(old(self).0@[i as int], n)));
    }

    /// Credits the first entry for `id` with `k` more cards; an unknown
    /// peer changes nothing.
    pub fn add_cards(&mut self, id: PeerId, k: usize)
        ensures
            final(self).0@ == credited(old(self).0@, id, k),
    {
        if let Some(i) = self.find(id) {
            proof {
                let j = first_entry(old(self).0@, id);
                assert(is_first_entry(old(self).0@, id, j));
                assert(j == i);
            }
            let n = self.0[i].card_count;
            let m = if n <= usize::MAX - k {
                n + k
            } else {
                usize::MAX
            };
            self.set_count(i, m);
        }
    }

    /// Debits the first entry for `id` one card; returns whether that took
    /// its count from one to zero. An unknown peer changes nothing.
    pub fn remove_card(&mut self, id: PeerId) -> (emptied: bool)
        ensures
            final(self).0@ == debited(old(self).0@, id),
            emptied == (has_opponent(old(self).0@, id) && old(self).0@[first_entry(
                old(self).0@,
                id,
            )].card_count == 1),
    {
        match self.find(id) {
            Some(i) => {
                proof {
                    let j = first_entry(old(self).0@, id);
                    assert(is_first_entry(old(self).0@, id, j));
                    assert(j == i);
                }
                let n = self.0[i].card_count;
                let m = if n > 0 {
                    n - 1
                } else {
                    0
                };
                self.set_count(i, m);
                n == 1
            },
            None => false,
        }
    }

    /// Sets every card count to `n`.
    pub fn reset_counts(&mut self, n: usize)
        ensures
            final(self).0@.len() == old(self).0@.len(),
            forall|j: int|
                0 <= j < old(self).0@.len() ==> #[trigger] final(self).0@[j] == with_count(
                    old(self).0@[j],
                    n,
                ),
    {
        let mut i: usize = 0;
        while i < self.0.len()
            invariant
                i <= self.0@.len(),
                self.0@.len() == old(self).0@.len(),
                forall|j: int| 0 <= j < i ==> #[trigger] self.0@[j] == with_count(old(self).0@[j], n),
                forall|j: int| i <= j < self.0@.len() ==> #[trigger] self.0@[j] == old(self).0@[j],
            decreases self.0@.len() - i,
        {
            self.set_count(i, n);
            i = i + 1;
        }
    }
}

/// Display names of the connected peers, by the value of their identifier.
#[derive(Debug)]
pub struct PeerNames(pub HashMap<u128, String>);

impl PeerNames {
    /// The name of each peer that has one.
    pub open spec fn view(&self) -> Map<u128, Seq<char>> {
        self.0@.map_values(|s: String| s@)
    }

    /// An empty table.
    pub fn new() -> (r: PeerNames)
        ensures
            r.view() == Map::<u128, Seq<char>>::empty(),
    {
        let r = PeerNames(HashMap::new());
        assert(r.view() =~= Map::<u128, Seq<char>>::empty());
        r
    }

    /// The name of `id`, if it has one.
    pub fn get(&self, id: PeerId) -> (r: Option<&String>)
        ensures
            match r {
                Some(s) => self.view().contains_key(id.0) && self.view()[id.0] == s@,
                None => !self.view().contains_key(id.0),
            },
    {
        self.0.get(&id.0)
    }

    /// Records the name of `id`, replacing any earlier one.
    pub fn insert(&mut self, id: PeerId, name: String)
        ensures
            final(self).view() == old(self).view().insert(id.0, name@),
    {
        let ghost text = name@;
        self.0.insert(id.0, name);
        assert(self.view() =~= old(self).view().insert(id.0, text));
    }

    /// Forgets the name of `id`.
    pub fn remove(&mut self, id: PeerId)
        ensures
            final(self).view() == old(self).view().remove(id.0),
    {
        self.0.remove(&id.0);
        assert(self.view() =~= old(self).view().remove(id.0));
    }
}

} // verus!
