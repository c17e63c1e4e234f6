//! The game-state machine that every peer runs. Each event, received or
//! raised locally, goes through the same deterministic transition, so
//! that all copies of the game stay in step without a server.

use vstd::prelude::*;
use crate::card::{
    card_code, card_of_code, color_index, legal, playable_on, Card, CardColor, CardValue,
};
use crate::deck::{
    all_codes, all_legal, cards_of, draw_count, lemma_order_round_trip, reclaimed,
    standard_deck, Deck, DiscardCards, MainPlayer,
};
use crate::info::{
    credited, debited, first_entry, flipped, has_opponent, is_first_entry, lemma_first_entry,
    next_player, position,
    seat_of, with_count, Direction, GameInfo, Opponent, Opponents, PeerId, PeerNames,
};
use crate::protocol::{
    decode_message, encode_draw, encode_name, encode_play, encode_start, encode_wild,
    lemma_start_round_trip, name_packet, parse_message, start_packet, Message, MessageView,
    ProtocolError,
};
use crate::rng::shuffle_in_place;

verus! {

broadcast use vstd::seq_lib::group_to_multiset_ensures;

/// Where the local game stands.
#[derive(Debug, Clone, Copy, PartialEq, Eq, Structural)]
pub enum Phase {
    /// No game yet.
    Idle,
    /// The normal turn loop.
    Playing,
    /// The local player played a wild card and has to choose its color.
    AwaitingWildColor,
    /// Some player has emptied their hand.
    Won,
}

/// Every card of `cards` is canonical once it has gone back into a deck.
pub open spec fn all_reclaimable(cards: Seq<Card>) -> bool {
    forall|i: int| 0 <= i < cards.len() ==> legal(reclaimed(#[trigger] cards[i]))
}

/// The current player after one move of the turn.
pub open spec fn advanced(order: Seq<PeerId>, d: Direction, current: Option<PeerId>) -> Option<
    PeerId,
> {
    match current {
        None => None,
        Some(p) => Some(next_player(order, d, p)),
    }
}

/// Direction and current player once the effect of a card with value
/// `v` has been applied, the turn having already moved past its player:
/// a Skip moves the turn once more, a Reverse turns the direction round
/// and moves twice, and a DrawTwo that makes someone draw moves the turn
/// past the player who drew.
pub open spec fn turn_after_effect(
    v: CardValue,
    order: Seq<PeerId>,
    d: Direction,
    current: Option<PeerId>,
    player: PeerId,
) -> (Direction, Option<PeerId>) {
    match v {
        CardValue::Skip => (d, advanced(order, d, current)),
        CardValue::Reverse => (
            flipped(d),
            advanced(order, flipped(d), advanced(order, flipped(d), current)),
        ),
        CardValue::DrawTwo => if draw_two_victim(v, current, player) is Some {
            (d, advanced(order, d, current))
        } else {
            (d, current)
        },
        _ => (d, current),
    }
}

/// Who has to draw two cards for a card with value `v` played by
/// `player`: the current player, unless that is `player` itself.
pub open spec fn draw_two_victim(v: CardValue, current: Option<PeerId>, player: PeerId) -> Option<
    PeerId,
> {
    match current {
        Some(b) => if v is DrawTwo && b != player {
            Some(b)
        } else {
            None
        },
        None => None,
    }
}

/// `f` is the state after the effect of `card`, played by `player`, was
/// applied to a state with the given deck, hand, opponents and turn state
/// (of a peer `own`). The victim of a DrawTwo draws two cards from the
/// shared deck, into the hand when it is this peer, else into its
/// tracked count, and loses its turn.
pub open spec fn effect_done(
    deck: Seq<Card>,
    hand: Seq<Card>,
    opps: Seq<Opponent>,
    order: Seq<PeerId>,
    d: Direction,
    current: Option<PeerId>,
    own: PeerId,
    card: Card,
    player: PeerId,
    f: GameState,
) -> bool {
    &&& f.game_info.order@ == order
    &&& (f.game_info.direction, f.game_info.current_player) == turn_after_effect(
        card.value,
        order,
        d,
        current,
        player,
    )
    &&& match draw_two_victim(card.value, current, player) {
        None => {
            &&& f.deck.cards@ == deck
            &&& f.main_player.cards@ == hand
            &&& f.opponents.0@ == opps
        },
        Some(b) => {
            let k = draw_count(2, deck.len() as int);
            &&& f.deck.cards@ == deck.skip(k)
            &&& if b == own {
                &&& f.main_player.cards@ == hand + deck.take(k)
                &&& f.opponents.0@ == opps
            } else {
                &&& f.main_player.cards@ == hand
                &&& f.opponents.0@ == credited(opps, b, 2)
            }
        },
    }
}

/// `a` and `b` agree on who this peer is and on the names it knows.
pub open spec fn same_peer(a: GameState, b: GameState) -> bool {
    &&& a.own_id == b.own_id
    &&& a.is_host == b.is_host
    &&& a.username == b.username
    &&& a.peer_names == b.peer_names
}

/// The deck holds the five cards of each of `players` seats and then a
/// discard card; when that one is wild, one more card after it.
pub open spec fn deal_possible(deck: Seq<Card>, players: int) -> bool {
    &&& deck.len() > 5 * players
    &&& (deck[5 * players].color is Wild ==> deck.len() > 5 * players + 1)
}

/// The cards that go onto the discard pile when a game is dealt: the card
/// after the hands and, when that one is wild, the next one on top of it.
pub open spec fn dealt_discard(deck: Seq<Card>, players: int) -> Seq<Card> {
    if deck[5 * players].color is Wild {
        seq![deck[5 * players], deck[5 * players + 1]]
    } else {
        seq![deck[5 * players]]
    }
}

/// The state of one peer's copy of the game.
#[derive(Debug)]
pub struct GameState {
    /// This peer.
    pub own_id: PeerId,
    /// Whether this peer created the room, shuffles and deals.
    pub is_host: bool,
    /// This peer's display name.
    pub username: String,
    pub deck: Deck,
    pub discard_pile: DiscardCards,
    pub main_player: MainPlayer,
    pub game_info: GameInfo,
    pub opponents: Opponents,
    pub peer_names: PeerNames,
    pub phase: Phase,
    /// Who emptied their hand, once somebody has.
    pub winner: Option<PeerId>,
}

/// Why a Start or Restart could not be applied.
#[derive(Debug, Clone, Copy, PartialEq, Eq, Structural)]
pub enum StartError {
    /// This peer has no seat in the order.
    NotSeated,
    /// Some peer has two seats.
    DuplicateSeat,
    /// The deck does not hold the hands and the first discard card.
    DeckTooSmall,
    /// Only the host deals.
    NotHost,
}

/// Why a received packet was dropped.
#[derive(Debug, Clone, Copy, PartialEq, Eq, Structural)]
pub enum ReceiveError {
    /// The packet could not be decoded.
    Decode(ProtocolError),
    /// A Start or Restart that cannot be dealt.
    Start(StartError),
    /// A chosen color arrived while the discard pile is empty.
    NothingToColor,
}

/// The name shown for `id`: the one it announced, else "Unknown".
pub open spec fn display_name(names: Map<u128, Seq<char>>, id: PeerId) -> Seq<char> {
    if names.contains_key(id.0) {
        names[id.0]
    } else {
        "Unknown"@
    }
}

/// `opps` are the players `ids`, in order, with five cards each and their
/// display names.
pub open spec fn seated(opps: Seq<Opponent>, ids: Seq<PeerId>, names: Map<u128, Seq<char>>) -> bool {
    &&& opps.len() == ids.len()
    &&& forall|k: int|
        0 <= k < ids.len() ==> {
            &&& (#[trigger] opps[k]).id == ids[k]
            &&& opps[k].card_count == 5
            &&& opps[k].name@ == display_name(names, ids[k])
        }
}

/// Why a game cannot start for peer `own` from `order` and deck `codes`.
pub open spec fn start_error(own: PeerId, order: Seq<PeerId>, codes: Seq<u8>) -> Option<StartError> {
    if !order.contains(own) {
        Some(StartError::NotSeated)
    } else if !order.no_duplicates() {
        Some(StartError::DuplicateSeat)
    } else if !deal_possible(cards_of(codes), order.len() as int) {
        Some(StartError::DeckTooSmall)
    } else {
        None
    }
}

/// `f` is `o` after a game started (with `restart`, after a reset) from
/// seating `order` and deck `codes`: the deck is adopted and dealt, the
/// first seat plays first, clockwise, and the other seats are the
/// opponents.
pub open spec fn start_applied(
    o: GameState,
    f: GameState,
    restart: bool,
    order: Seq<PeerId>,
    codes: Seq<u8>,
) -> bool {
    let cards = cards_of(codes);
    let n = order.len() as int;
    let s = seat_of(order, o.own_id);
    &&& f.game_info.order@ == order
    &&& f.game_info.current_player == Some(order[0])
    &&& f.game_info.direction == Direction::Clockwise
    &&& seated(f.opponents.0@, order.remove(s), o.peer_names.view())
    &&& f.main_player.cards@ == cards.subrange(5 * s, 5 * s + 5)
    &&& f.discard_pile.cards@ == (if restart {
        Seq::empty()
    } else {
        o.discard_pile.cards@
    }) + dealt_discard(cards, n)
    &&& f.deck.cards@ == cards.skip(5 * n + dealt_discard(cards, n).len())
    &&& f.phase == Phase::Playing
    &&& f.winner is None
    &&& same_peer(o, f)
}

/// `f` is `o` after `peer` drew a card: the top card leaves the deck, the
/// peer's count grows by one and the turn moves on.
pub open spec fn draw_applied(o: GameState, f: GameState, peer: PeerId) -> bool {
    &&& f.deck.cards@ == o.deck.cards@.skip(draw_count(1, o.deck.cards@.len() as int))
    &&& f.opponents.0@ == credited(o.opponents.0@, peer, 1)
    &&& f.game_info.order@ == o.game_info.order@
    &&& f.game_info.direction == o.game_info.direction
    &&& f.game_info.current_player == advanced(
        o.game_info.order@,
        o.game_info.direction,
        o.game_info.current_player,
    )
    &&& f.main_player == o.main_player
    &&& f.discard_pile == o.discard_pile
    &&& f.phase == o.phase
    &&& f.winner == o.winner
    &&& same_peer(o, f)
}

/// Whether a play by `peer` takes its tracked count from one to zero.
pub open spec fn empties_hand(opps: Seq<Opponent>, peer: PeerId) -> bool {
    has_opponent(opps, peer) && opps[first_entry(opps, peer)].card_count == 1
}

/// `f` is `o` after `peer` played `card`: the card goes on the discard
/// pile, the peer's count drops by one (it wins when that reaches zero),
/// the turn moves on and the card's effect is applied.
pub open spec fn play_applied(o: GameState, f: GameState, peer: PeerId, card: Card) -> bool {
    let won = empties_hand(o.opponents.0@, peer);
    &&& f.discard_pile.cards@ == o.discard_pile.cards@.push(card)
    &&& f.winner == if won {
        Some(peer)
    } else {
        o.winner
    }
    &&& f.phase == if won {
        Phase::Won
    } else {
        o.phase
    }
    &&& effect_done(
        o.deck.cards@,
        o.main_player.cards@,
        debited(o.opponents.0@, peer),
        o.game_info.order@,
        o.game_info.direction,
        advanced(o.game_info.order@, o.game_info.direction, o.game_info.current_player),
        o.own_id,
        card,
        peer,
        f,
    )
    &&& same_peer(o, f)
}

/// `f` is `o` after `color` was chosen for the card on top of the
/// discard pile: a copy of it in that color goes on top, and a game
/// waiting for the color goes on.
pub open spec fn wild_applied(o: GameState, f: GameState, color: CardColor) -> bool {
    let top = o.discard_pile.cards@.last();
    &&& f.discard_pile.cards@ == o.discard_pile.cards@.push(Card { color, ..top })
    &&& f.phase == if o.phase is AwaitingWildColor || o.phase is Playing {
        Phase::Playing
    } else {
        o.phase
    }
    &&& f.deck == o.deck
    &&& f.main_player == o.main_player
    &&& f.game_info == o.game_info
    &&& f.opponents == o.opponents
    &&& f.winner == o.winner
    &&& same_peer(o, f)
}

/// `f` is `o` after `peer` announced the display name `name`.
pub open spec fn name_applied(o: GameState, f: GameState, peer: PeerId, name: Seq<char>) -> bool {
    &&& f.peer_names.view() == o.peer_names.view().insert(peer.0, name)
    &&& f.deck == o.deck
    &&& f.discard_pile == o.discard_pile
    &&& f.main_player == o.main_player
    &&& f.game_info == o.game_info
    &&& f.opponents == o.opponents
    &&& f.phase == o.phase
    &&& f.winner == o.winner
    &&& f.own_id == o.own_id
    &&& f.is_host == o.is_host
    &&& f.username == o.username
}

/// The text that `String::from_utf8_lossy` makes of some bytes.
pub uninterp spec fn lossy_text(b: Seq<u8>) -> Seq<char>;

/// Relies on `String::from_utf8_lossy`: the bytes read as UTF-8, each
/// invalid sequence replaced by U+FFFD; valid UTF-8 is read as it is.
#[verifier::external_body]
fn text_of_bytes(b: &Vec<u8>) -> (r: String)
    ensures
        r@ == lossy_text(b@),
        vstd::utf8::valid_utf8(b@) ==> r@ == vstd::utf8::decode_utf8(b@),
{
    String::from_utf8_lossy(b).into_owned()
}

/// Whether nobody sits twice in `order`.
fn no_duplicate_seats(order: &Vec<PeerId>) -> (r: bool)
    ensures
        r == order@.no_duplicates(),
{
    let mut i: usize = 0;
    while i < order.len()
        invariant
            i <= order@.len(),
            forall|a: int, b: int| 0 <= a < b < order@.len() && a < i ==> order@[a] != order@[b],
        decreases order@.len() - i,
    {
        let mut j: usize = i + 1;
        while j < order.len()
            invariant
                i < j <= order@.len(),
                forall|a: int, b: int| 0 <= a < b < order@.len() && a < i ==> order@[a] != order@[b],
                forall|b: int| i < b < j ==> order@[i as int] != order@[b],
            decreases order@.len() - j,
        {
            if order[i] == order[j] {
                return false;
            }
            j = j + 1;
        }
        i = i + 1;
    }
    true
}

/// The opponents for seating `order` as seen from seat `s`: every other
/// seat in order, with five cards and its display name.
fn opponents_around(order: &Vec<PeerId>, s: usize, names: &PeerNames) -> (r: Vec<Opponent>)
    requires
        s < order@.len(),
    ensures
        seated(r@, order@.remove(s as int), names.view()),
{
    let mut opps: Vec<Opponent> = Vec::new();
    let mut i: usize = 0;
    while i < order.len()
        invariant
            i <= order@.len(),
            s < order@.len(),
            opps@.len() == if i <= s { i as int } else { i - 1 },
            forall|k: int|
                0 <= k < opps@.len() ==> {
                    let p = order@[if k < s { k } else { k + 1 }];
                    &&& (#[trigger] opps@[k]).id == p
                    &&& opps@[k].card_count == 5
                    &&& opps@[k].name@ == display_name(names.view(), p)
                },
        decreases order@.len() - i,
    {
        if i != s {
            let id = order[i];
            let name = match names.get(id) {
                Some(n) => n.clone(),
                None => "Unknown".to_owned(),
            };
            opps.push(Opponent::new(id, name, 5));
        }
        i = i + 1;
    }
    proof {
        let ids = order@.remove(s as int);
        assert forall|k: int| 0 <= k < ids.len() implies ids[k] == order@[if k < s { k } else { k + 1 }] by {
        }
    }
    opps
}

/// Why the host cannot deal a fresh deck to seating `order`: a fresh
/// deck of 100 cards holds the hands and the first discard card of at
/// most 19 seats.
pub open spec fn deal_error(own: PeerId, order: Seq<PeerId>) -> Option<StartError> {
    if !order.contains(own) {
        Some(StartError::NotSeated)
    } else if !order.no_duplicates() {
        Some(StartError::DuplicateSeat)
    } else if order.len() > 19 {
        Some(StartError::DeckTooSmall)
    } else {
        None
    }
}

/// `f` is a game that the host dealt from a freshly shuffled deck to
/// seating `order`, onto a discard pile that held `discard`, and `packet`
/// is the Start (or, with `restart`, Restart) packet that carries the
/// order and the deck as it was before dealing.
pub open spec fn dealt_fresh(
    f: GameState,
    restart: bool,
    order: Seq<PeerId>,
    packet: Seq<u8>,
    discard: Seq<Card>,
) -> bool {
    let n = order.len() as int;
    let codes = packet.skip(2 + 16 * n);
    let cards = cards_of(codes);
    let s = seat_of(order, f.own_id);
    &&& packet == start_packet(restart, order, codes)
    &&& all_codes(codes)
    &&& cards.to_multiset() == standard_deck().to_multiset()
    &&& f.game_info.order@ == order
    &&& f.game_info.current_player == Some(order[0])
    &&& f.main_player.cards@ == cards.subrange(5 * s, 5 * s + 5)
    &&& f.discard_pile.cards@ == discard + dealt_discard(cards, n)
    &&& f.deck.cards@ == cards.skip(5 * n + dealt_discard(cards, n).len())
    &&& f.phase == Phase::Playing
    &&& f.winner is None
}

/// Whether this peer may draw: the game is on, it is this peer's turn,
/// the top of the discard pile is no wild card waiting for its color, and
/// the deck is not empty.
pub open spec fn may_draw(o: GameState) -> bool {
    &&& o.phase is Playing
    &&& o.game_info.current_player == Some(o.own_id)
    &&& !(o.discard_pile.cards@.len() > 0 && o.discard_pile.cards@.last().color is Wild)
    &&& o.deck.cards@.len() > 0
}

/// `i` is where `card` first stands in `hand`.
pub open spec fn is_first_card(hand: Seq<Card>, card: Card, i: int) -> bool {
    &&& 0 <= i < hand.len()
    &&& hand[i] == card
    &&& forall|j: int| 0 <= j < i ==> hand[j] != card
}

/// Whether this peer may play `card`: the game is on, it is this peer's
/// turn, the card is in its hand and can be played on the top of the
/// discard pile.
pub open spec fn may_play(o: GameState, card: Card) -> bool {
    &&& o.phase is Playing
    &&& o.game_info.current_player == Some(o.own_id)
    &&& o.main_player.cards@.contains(card)
    &&& (o.discard_pile.cards@.len() > 0 ==> playable_on(card, o.discard_pile.cards@.last()))
}

/// `f` is `o` after this peer played `card` from its hand: the card goes
/// on the discard pile, the turn moves on, the card's effect is applied;
/// a wild card waits for its color, but an emptied hand wins first: when
/// the last card is a wild one, the game is won and no color is awaited.
pub open spec fn local_play_applied(o: GameState, f: GameState, card: Card) -> bool {
    let i = choose|i: int| is_first_card(o.main_player.cards@, card, i);
    let hand = o.main_player.cards@.remove(i);
    &&& f.discard_pile.cards@ == o.discard_pile.cards@.push(card)
    &&& effect_done(
        o.deck.cards@,
        hand,
        o.opponents.0@,
        o.game_info.order@,
        o.game_info.direction,
        advanced(o.game_info.order@, o.game_info.direction, o.game_info.current_player),
        o.own_id,
        card,
        o.own_id,
        f,
    )
    &&& f.phase == if hand.len() == 0 {
        Phase::Won
    } else if card.color is Wild {
        Phase::AwaitingWildColor
    } else {
        Phase::Playing
    }
    &&& f.winner == if hand.len() == 0 {
        Some(o.own_id)
    } else {
        o.winner
    }
    &&& same_peer(o, f)
}

/// The seating order turned one seat to the left.
pub open spec fn rotated(order: Seq<PeerId>) -> Seq<PeerId> {
    if order.len() == 0 {
        order
    } else {
        order.skip(1).push(order[0])
    }
}

/// Where `card` first stands in `hand`, if anywhere.
fn find_card(hand: &Vec<Card>, card: Card) -> (r: Option<usize>)
    ensures
        match r {
            Some(i) => is_first_card(hand@, card, i as int),
            None => !hand@.contains(card),
        },
{
    let mut i: usize = 0;
    while i < hand.len()
        invariant
            i <= hand@.len(),
            forall|j: int| 0 <= j < i ==> hand@[j] != card,
        decreases hand@.len() - i,
    {
        if hand[i] == card {
            return Some(i);
        }
        i = i + 1;
    }
    None
}

/// A DrawTwo moves exactly two cards out of a shared deck of at least
/// two, whichever peer applies it: into the victim's hand when the victim
/// is the applying peer, else into the victim's tracked count, which
/// grows by exactly two.
pub proof fn lemma_draw_two_moves_two_cards(
    deck: Seq<Card>,
    hand: Seq<Card>,
    opps: Seq<Opponent>,
    order: Seq<PeerId>,
    d: Direction,
    current: Option<PeerId>,
    own: PeerId,
    card: Card,
    player: PeerId,
    f: GameState,
)
    requires
        effect_done(deck, hand, opps, order, d, current, own, card, player, f),
        card.value is DrawTwo,
        current matches Some(b) && b != player,
        deck.len() >= 2,
    ensures
        f.deck.cards@.len() == deck.len() - 2,
        f.game_info.current_player == advanced(order, d, current),
        current == Some(own) ==> f.main_player.cards@ == hand + deck.take(2),
        current != Some(own) ==> f.main_player.cards@ == hand,
        forall|i: int|
            current != Some(own) && #[trigger] is_first_entry(opps, current->Some_0, i)
                && opps[i].card_count + 2 <= usize::MAX ==> f.opponents.0@[i].card_count
                == opps[i].card_count + 2,
{
    let b = current->Some_0;
    if b != own {
        assert forall|i: int|
            #[trigger] is_first_entry(opps, b, i) && opps[i].card_count + 2
                <= usize::MAX implies f.opponents.0@[i].card_count == opps[i].card_count + 2 by {
            let k = first_entry(opps, b);
            assert(is_first_entry(opps, b, k));
            assert(k == i);
        }
    }
}

/// A DrawTwo received from `a`, whose turn it was: the next player `b`
/// draws exactly two cards from a shared deck of at least two and loses
/// its turn. On `b`'s own peer the two top cards join the hand; on every
/// other peer `b`'s tracked count grows by exactly two.
pub proof fn lemma_received_draw_two(o: GameState, f: GameState, a: PeerId, card: Card)
    requires
        play_applied(o, f, a, card),
        card.value is DrawTwo,
        o.game_info.current_player == Some(a),
        next_player(o.game_info.order@, o.game_info.direction, a) != a,
        o.deck.cards@.len() >= 2,
    ensures
        ({
            let (order, d) = (o.game_info.order@, o.game_info.direction);
            let b = next_player(order, d, a);
            &&& f.deck.cards@.len() == o.deck.cards@.len() - 2
            &&& f.game_info.current_player == Some(next_player(order, d, b))
            &&& b == o.own_id ==> f.main_player.cards@ == o.main_player.cards@ + o.deck.cards@.take(
                2,
            )
            &&& forall|i: int|
                b != o.own_id && #[trigger] is_first_entry(o.opponents.0@, b, i)
                    && o.opponents.0@[i].card_count + 2 <= usize::MAX
                    ==> f.opponents.0@[i].card_count == o.opponents.0@[i].card_count + 2
        }),
{
    let (order, d) = (o.game_info.order@, o.game_info.direction);
    let b = next_player(order, d, a);
    let opps = o.opponents.0@;
    let opps1 = debited(opps, a);
    assert forall|i: int|
        b != o.own_id && #[trigger] is_first_entry(opps, b, i) && opps[i].card_count + 2
            <= usize::MAX implies f.opponents.0@[i].card_count == opps[i].card_count + 2 by {
        if has_opponent(opps, a) {
            lemma_first_entry(opps, a);
            let ja = first_entry(opps, a);
            assert(ja != i);
        }
        assert(opps1.len() == opps.len());
        assert forall|j: int| 0 <= j < opps.len() implies opps1[j].id == opps[j].id by {}
        assert(opps1[i] == opps[i]);
        assert(is_first_entry(opps1, b, i));
        let k = first_entry(opps1, b);
        assert(is_first_entry(opps1, b, k));
        assert(k == i);
    }
}

/// Lockstep start: a peer that receives the host's Start (or Restart)
/// packet and applies it ends with the same deck, seating order and
/// current player as the host, and with the same cards turned up.
pub proof fn lemma_start_in_lockstep(
    host_before: GameState,
    host: GameState,
    restart: bool,
    order: Seq<PeerId>,
    packet: Seq<u8>,
    guest_before: GameState,
    guest: GameState,
)
    requires
        dealt_fresh(host, restart, order, packet, host_before.discard_pile.cards@),
        order.len() <= 255,
        parse_message(packet) matches Ok(MessageView::Start { restart: r2, order: o2, deck: d2 })
            && start_applied(guest_before, guest, r2, o2, d2),
    ensures
        guest.deck.cards@ == host.deck.cards@,
        guest.game_info.order@ == host.game_info.order@,
        guest.game_info.current_player == host.game_info.current_player,
        guest.discard_pile.cards@.subrange(
            guest.discard_pile.cards@.len() - (host.discard_pile.cards@.len()
                - host_before.discard_pile.cards@.len()),
            guest.discard_pile.cards@.len() as int,
        ) == host.discard_pile.cards@.subrange(
            host_before.discard_pile.cards@.len() as int,
            host.discard_pile.cards@.len() as int,
        ),
{
    let codes = packet.skip(2 + 16 * order.len() as int);
    lemma_start_round_trip(restart, order, codes);
    let cards = cards_of(codes);
    let n = order.len() as int;
    let tail = dealt_discard(cards, n);
    let gd = guest.discard_pile.cards@;
    let hd = host.discard_pile.cards@;
    assert(gd.subrange(gd.len() - tail.len(), gd.len() as int) =~= tail);
    assert(hd.subrange(host_before.discard_pile.cards@.len() as int, hd.len() as int) =~= tail);
}

impl GameState {
    /// Cards in the deck and the hand are canonical, those on the discard
    /// pile are once reclaimed, and the turn state is well formed.
    pub open spec fn wf(&self) -> bool {
        &&& self.deck.wf()
        &&& all_legal(self.main_player.cards@)
        &&& all_reclaimable(self.discard_pile.cards@)
        &&& self.game_info.wf()
    }

    /// A peer's state before any game: a fresh shuffled deck, nothing
    /// dealt, nobody known.
    pub fn new(own_id: PeerId, is_host: bool, username: String) -> (r: GameState)
        ensures
            r.wf(),
            r.own_id == own_id,
            r.is_host == is_host,
            r.username == username,
            r.deck.cards@.to_multiset() == standard_deck().to_multiset(),
            r.discard_pile.cards@.len() == 0,
            r.main_player.cards@.len() == 0,
            r.game_info.current_player is None,
            r.game_info.order@.len() == 0,
            r.opponents.0@.len() == 0,
            r.peer_names.view() == Map::<u128, Seq<char>>::empty(),
            r.phase == Phase::Idle,
            r.winner is None,
    {
        GameState {
            own_id,
            is_host,
            username,
            deck: Deck::shuffled(),
            discard_pile: DiscardCards::new(),
            main_player: MainPlayer::new(),
            game_info: GameInfo::new(),
            opponents: Opponents(Vec::new()),
            peer_names: PeerNames::new(),
            phase: Phase::Idle,
            winner: None,
        }
    }

    /// Clears the turn state, the hand and the discard pile, gives every
    /// opponent five cards again and leaves the won state.
    pub fn reset_game_state(&mut self)
        requires
            old(self).wf(),
        ensures
            final(self).wf(),
            final(self).game_info.current_player is None,
            final(self).game_info.order@.len() == 0,
            final(self).game_info.direction == crate::info::Direction::Clockwise,
            final(self).main_player.cards@.len() == 0,
            final(self).discard_pile.cards@.len() == 0,
            final(self).opponents.0@.len() == old(self).opponents.0@.len(),
            forall|j: int|
                0 <= j < old(self).opponents.0@.len() ==> #[trigger] final(self).opponents.0@[j]
                    == with_count(old(self).opponents.0@[j], 5),
            final(self).deck == old(self).deck,
            final(self).peer_names == old(self).peer_names,
            final(self).own_id == old(self).own_id,
            final(self).is_host == old(self).is_host,
            final(self).username == old(self).username,
            final(self).phase == Phase::Idle,
            final(self).winner is None,
    {
        self.game_info.reset();
        self.main_player.reset();
        self.discard_pile.cards.clear();
        self.opponents.reset_counts(5);
        self.phase = Phase::Idle;
        self.winner = None;
    }

    /// Deals from the deck: this peer's hand is the five cards at its
    /// seat, all hands leave the deck, and the next card (two when the
    /// first is wild) goes onto the discard pile. The game is then on.
    pub fn initialize_game_start(&mut self)
        requires
            old(self).wf(),
            old(self).game_info.order@.contains(old(self).own_id),
            deal_possible(old(self).deck.cards@, old(self).game_info.order@.len() as int),
        ensures
            final(self).wf(),
            ({
                let d = old(self).deck.cards@;
                let n = old(self).game_info.order@.len() as int;
                let s = seat_of(old(self).game_info.order@, old(self).own_id);
                &&& final(self).main_player.cards@ == d.subrange(5 * s, 5 * s + 5)
                &&& final(self).discard_pile.cards@ == old(self).discard_pile.cards@
                    + dealt_discard(d, n)
                &&& final(self).deck.cards@ == d.skip(5 * n + dealt_discard(d, n).len())
            }),
            final(self).game_info == old(self).game_info,
            final(self).opponents == old(self).opponents,
            final(self).peer_names == old(self).peer_names,
            final(self).own_id == old(self).own_id,
            final(self).is_host == old(self).is_host,
            final(self).username == old(self).username,
            final(self).phase == Phase::Playing,
            final(self).winner == old(self).winner,
    {
        let ghost d = self.deck.cards@;
        let total = self.deck.cards.len();
        let n = self.game_info.order.len();
        let s = match position(&self.game_info.order, self.own_id) {
            Some(s) => s,
            None => {
                return;
            },
        };
        let mut hand: Vec<Card> = Vec::new();
        let mut i: usize = 5 * s;
        while i < 5 * s + 5
            invariant
                s < n,
                5 * n < d.len(),
                total == d.len(),
                self.deck.cards@ == d,
                5 * s <= i <= 5 * s + 5,
                hand@ == d.subrange(5 * s, i as int),
            decreases 5 * s + 5 - i,
        {
            hand.push(self.deck.cards[i]);
            i = i + 1;
            assert(hand@ =~= d.subrange(5 * s, i as int));
        }
        self.main_player.cards = hand;
        proof {
            assert forall|j: int| 0 <= j < hand@.len() implies legal(#[trigger] hand@[j]) by {
                assert(hand@[j] == d[5 * s + j]);
            }
        }
        let _dealt = self.deck.take_top(5 * n);
        let ghost rest = self.deck.cards@;
        let first = self.deck.take_top(1);
        let card = first[0];
        assert(card == d[5 * n as int]);
        self.discard_pile.cards.push(card);
        if card.color == CardColor::Wild {
            let second = self.deck.take_top(1);
            assert(second@[0] == d[5 * n + 1]);
            self.discard_pile.cards.push(second[0]);
        }
        proof {
            assert(self.deck.cards@ =~= d.skip(5 * n + dealt_discard(d, n as int).len()));
            assert(self.discard_pile.cards@ =~= old(self).discard_pile.cards@ + dealt_discard(
                d,
                n as int,
            ));
            assert forall|j: int| 0 <= j < self.discard_pile.cards@.len() implies legal(
                reclaimed(#[trigger] self.discard_pile.cards@[j]),
            ) by {
                if j >= old(self).discard_pile.cards@.len() {
                    let c = self.discard_pile.cards@[j];
                    assert(legal(c));
                }
            }
        }
        self.phase = Phase::Playing;
    }

    /// Applies the effect of `card`, played by `card_player`, after the
    /// turn has moved past that player: Skip and Reverse move the turn,
    /// DrawTwo makes the current player draw two cards.
    pub fn handle_card_effect(&mut self, card: &Card, card_player: PeerId)
        requires
            old(self).wf(),
        ensures
            final(self).wf(),
            effect_done(
                old(self).deck.cards@,
                old(self).main_player.cards@,
                old(self).opponents.0@,
                old(self).game_info.order@,
                old(self).game_info.direction,
                old(self).game_info.current_player,
                old(self).own_id,
                *card,
                card_player,
                *final(self),
            ),
            same_peer(*old(self), *final(self)),
            final(self).discard_pile == old(self).discard_pile,
            final(self).phase == old(self).phase,
            final(self).winner == old(self).winner,
    {
        match card.value {
            CardValue::Skip => {
                self.game_info.advance_turn();
            },
            CardValue::Reverse => {
                self.game_info.swap_direction();
                self.game_info.advance_turn();
                self.game_info.advance_turn();
            },
            CardValue::DrawTwo => {
                let next_player = match self.game_info.current_player {
                    Some(p) => p,
                    None => {
                        return;
                    },
                };
                if next_player == card_player {
                    return;
                }
                if next_player == self.own_id {
                    let mut cards = self.deck.draw(2);
                    proof {
                        assert forall|j: int| 0 <= j < cards@.len() implies legal(
                            #[trigger] cards@[j],
                        ) by {
                            assert(cards@[j] == old(self).deck.cards@[j]);
                        }
                    }
                    self.main_player.cards.append(&mut cards);
                } else {
                    self.opponents.add_cards(next_player, 2);
                    let _ = self.deck.draw(2);
                }
                self.game_info.advance_turn();
            },
            _ => {},
        }
    }

    /// Why a game cannot start from `order` and deck `codes`, if it can't.
    fn check_start(&self, order: &Vec<PeerId>, codes: &Vec<u8>) -> (r: Option<StartError>)
        requires
            order@.len() <= 255,
            all_codes(codes@),
        ensures
            r == start_error(self.own_id, order@, codes@),
    {
        if position(order, self.own_id).is_none() {
            return Some(StartError::NotSeated);
        }
        if !no_duplicate_seats(order) {
            return Some(StartError::DuplicateSeat);
        }
        let n = order.len();
        let len = codes.len();
        let ghost cards = cards_of(codes@);
        if len <= 5 * n {
            return Some(StartError::DeckTooSmall);
        }
        if codes[5 * n] >= 104 && len <= 5 * n + 1 {
            return Some(StartError::DeckTooSmall);
        }
        assert(cards[5 * n as int] == card_of_code(codes@[5 * n as int] as int));
        None
    }

    /// Starts a game (with `restart`, after a reset) from the host's
    /// seating order and deck codes, unless this peer has no seat, a seat
    /// is taken twice or the deck is too small; then nothing changes.
    pub fn apply_start(&mut self, restart: bool, order: Vec<PeerId>, codes: &Vec<u8>) -> (r: Result<
        (),
        StartError,
    >)
        requires
            old(self).wf(),
            order@.len() <= 255,
            all_codes(codes@),
        ensures
            final(self).wf(),
            match start_error(old(self).own_id, order@, codes@) {
                Some(e) => r == Err::<(), StartError>(e) && *final(self) == *old(self),
                None => r is Ok && start_applied(*old(self), *final(self), restart, order@, codes@),
            },
    {
        if let Some(e) = self.check_start(&order, codes) {
            return Err(e);
        }
        let s = match position(&order, self.own_id) {
            Some(s) => s,
            None => {
                return Err(StartError::NotSeated);
            },
        };
        if restart {
            self.reset_game_state();
        }
        let ghost names = self.peer_names.view();
        self.opponents = Opponents(opponents_around(&order, s, &self.peer_names));
        let first = order[0];
        self.game_info.order = order;
        self.game_info.current_player = Some(first);
        self.game_info.direction = Direction::Clockwise;
        self.deck.load_from(codes.as_slice());
        self.winner = None;
        proof {
            assert(self.game_info.order@.contains(self.own_id));
        }
        self.initialize_game_start();
        Ok(())
    }

    /// Applies a Draw by `peer`: the top card leaves the deck, the peer's
    /// tracked count grows by one and the turn moves on.
    pub fn apply_draw(&mut self, peer: PeerId)
        requires
            old(self).wf(),
        ensures
            final(self).wf(),
            draw_applied(*old(self), *final(self), peer),
    {
        let _ = self.deck.draw(1);
        self.opponents.add_cards(peer, 1);
        self.game_info.advance_turn();
    }

    /// Applies a Play of `card` by `peer`: the card goes on the discard
    /// pile, the peer's tracked count drops by one (it wins when the count
    /// reaches zero), the turn moves on and the card's effect is applied.
    pub fn apply_play(&mut self, peer: PeerId, card: Card)
        requires
            old(self).wf(),
            legal(card),
        ensures
            final(self).wf(),
            play_applied(*old(self), *final(self), peer, card),
    {
        self.discard_pile.cards.push(card);
        let emptied = self.opponents.remove_card(peer);
        if emptied {
            self.winner = Some(peer);
            self.phase = Phase::Won;
        }
        self.game_info.advance_turn();
        self.handle_card_effect(&card, peer);
    }

    /// Applies the color chosen for the wild card on top of the discard
    /// pile: a copy of that card in the color goes on top.
    pub fn apply_wild(&mut self, color: CardColor) -> (r: Result<(), ReceiveError>)
        requires
            old(self).wf(),
            !(color is Wild),
        ensures
            final(self).wf(),
            if old(self).discard_pile.cards@.len() == 0 {
                r == Err::<(), ReceiveError>(ReceiveError::NothingToColor) && *final(self) == *old(
                    self,
                )
            } else {
                r is Ok && wild_applied(*old(self), *final(self), color)
            },
    {
        let len = self.discard_pile.cards.len();
        if len == 0 {
            return Err(ReceiveError::NothingToColor);
        }
        let mut card = self.discard_pile.cards[len - 1];
        card.color = color;
        self.discard_pile.cards.push(card);
        if self.phase == Phase::AwaitingWildColor || self.phase == Phase::Playing {
            self.phase = Phase::Playing;
        }
        Ok(())
    }

    /// Records the display name that `peer` announced.
    pub fn apply_name(&mut self, peer: PeerId, name: String)
        ensures
            name_applied(*old(self), *final(self), peer, name@),
            old(self).wf() ==> final(self).wf(),
    {
        self.peer_names.insert(peer, name);
    }

    /// Decodes a packet from `peer` and applies it. A packet that cannot
    /// be decoded, a game that cannot be dealt and a color with nothing to
    /// color are reported and change nothing.
    pub fn receive(&mut self, peer: PeerId, packet: &[u8]) -> (r: Result<(), ReceiveError>)
        requires
            old(self).wf(),
        ensures
            final(self).wf(),
            match parse_message(packet@) {
                Err(e) => r == Err::<(), ReceiveError>(ReceiveError::Decode(e)) && *final(self)
                    == *old(self),
                Ok(MessageView::Start { restart, order, deck }) => match start_error(
                    old(self).own_id,
                    order,
                    deck,
                ) {
                    Some(e) => r == Err::<(), ReceiveError>(ReceiveError::Start(e)) && *final(self)
                        == *old(self),
                    None => r is Ok && start_applied(*old(self), *final(self), restart, order, deck),
                },
                Ok(MessageView::Draw) => r is Ok && draw_applied(*old(self), *final(self), peer),
                Ok(MessageView::Play(card)) => r is Ok && play_applied(
                    *old(self),
                    *final(self),
                    peer,
                    card,
                ),
                Ok(MessageView::Name(b)) => r is Ok && name_applied(
                    *old(self),
                    *final(self),
                    peer,
                    lossy_text(b),
                ),
                Ok(MessageView::Wild(color)) => if old(self).discard_pile.cards@.len() == 0 {
                    r == Err::<(), ReceiveError>(ReceiveError::NothingToColor) && *final(self)
                        == *old(self)
                } else {
                    r is Ok && wild_applied(*old(self), *final(self), color)
                },
            },
    {
        let message = match decode_message(packet) {
            Ok(m) => m,
            Err(e) => {
                return Err(ReceiveError::Decode(e));
            },
        };
        match message {
            Message::Start { restart, order, deck } => {
                proof {
                    assert(order@.len() <= 255);
                }
                match self.apply_start(restart, order, &deck) {
                    Ok(()) => Ok(()),
                    Err(e) => Err(ReceiveError::Start(e)),
                }
            },
            Message::Draw => {
                self.apply_draw(peer);
                Ok(())
            },
            Message::Play(card) => {
                self.apply_play(peer, card);
                Ok(())
            },
            Message::Name(bytes) => {
                let name = text_of_bytes(&bytes);
                self.apply_name(peer, name);
                Ok(())
            },
            Message::Wild(color) => self.apply_wild(color),
        }
    }

    /// Deals a freshly shuffled deck to seating `order` (the host's part
    /// of a Start, or with `restart` of a Restart) and returns the packet
    /// to send to every peer. The first seat plays first, clockwise.
    /// Nothing changes when this peer is not the host, has no seat, a seat
    /// is taken twice or there are more seats than the deck can deal.
    pub fn start_game(&mut self, order: Vec<PeerId>, restart: bool) -> (r: Result<
        Vec<u8>,
        StartError,
    >)
        requires
            old(self).wf(),
        ensures
            final(self).wf(),
            !old(self).is_host ==> (r == Err::<Vec<u8>, StartError>(StartError::NotHost)
                && *final(self) == *old(self)),
            old(self).is_host ==> match deal_error(old(self).own_id, order@) {
                Some(e) => r == Err::<Vec<u8>, StartError>(e) && *final(self) == *old(self),
                None => match r {
                    Ok(packet) => {
                        &&& dealt_fresh(
                            *final(self),
                            restart,
                            order@,
                            packet@,
                            old(self).discard_pile.cards@,
                        )
                        &&& final(self).game_info.direction == Direction::Clockwise
                        &&& final(self).opponents == old(self).opponents
                        &&& same_peer(*old(self), *final(self))
                    },
                    Err(_) => false,
                },
            },
    {
        if !self.is_host {
            return Err(StartError::NotHost);
        }
        let s = match position(&order, self.own_id) {
            Some(s) => s,
            None => {
                return Err(StartError::NotSeated);
            },
        };
        if !no_duplicate_seats(&order) {
            return Err(StartError::DuplicateSeat);
        }
        let n = order.len();
        if n > 19 {
            return Err(StartError::DeckTooSmall);
        }
        let deck = Deck::shuffled();
        let codes = deck.get_card_order();
        let ghost cards = deck.cards@;
        proof {
            lemma_order_round_trip(cards);
            assert(cards.len() == 100) by {
                assert(cards.to_multiset().len() == standard_deck().to_multiset().len());
            }
        }
        let packet = encode_start(restart, &order, &codes);
        let first = order[0];
        self.deck = deck;
        self.game_info.order = order;
        self.game_info.current_player = Some(first);
        self.game_info.direction = Direction::Clockwise;
        self.winner = None;
        proof {
            assert(packet@.skip(2 + 16 * n) =~= codes@);
            assert(self.game_info.order@.contains(self.own_id));
        }
        self.initialize_game_start();
        Ok(packet)
    }

    /// The host's start of a game from the lobby: the seating order is
    /// the connected `peers` and this peer, shuffled; the other seats
    /// become the opponents with five cards each. Returns the packet to
    /// send to every peer.
    pub fn host_start(&mut self, peers: Vec<PeerId>) -> (r: Result<Vec<u8>, StartError>)
        requires
            old(self).wf(),
        ensures
            final(self).wf(),
            ({
                let all = peers@.push(old(self).own_id);
                if !old(self).is_host {
                    r == Err::<Vec<u8>, StartError>(StartError::NotHost) && *final(self) == *old(
                        self,
                    )
                } else if !all.no_duplicates() {
                    r == Err::<Vec<u8>, StartError>(StartError::DuplicateSeat) && *final(self)
                        == *old(self)
                } else if all.len() > 19 {
                    r == Err::<Vec<u8>, StartError>(StartError::DeckTooSmall) && *final(self)
                        == *old(self)
                } else {
                    let order = final(self).game_info.order@;
                    &&& order.to_multiset() == all.to_multiset()
                    &&& seated(
                        final(self).opponents.0@,
                        order.remove(seat_of(order, old(self).own_id)),
                        old(self).peer_names.view(),
                    )
                    &&& match r {
                        Ok(packet) => {
                            &&& dealt_fresh(
                                *final(self),
                                false,
                                order,
                                packet@,
                                old(self).discard_pile.cards@,
                            )
                            &&& final(self).game_info.direction == Direction::Clockwise
                            &&& same_peer(*old(self), *final(self))
                        },
                        Err(_) => false,
                    }
                }
            }),
    {
        if !self.is_host {
            return Err(StartError::NotHost);
        }
        let mut order = peers;
        order.push(self.own_id);
        let ghost all = order@;
        if !no_duplicate_seats(&order) {
            return Err(StartError::DuplicateSeat);
        }
        if order.len() > 19 {
            return Err(StartError::DeckTooSmall);
        }
        shuffle_in_place(&mut order);
        proof {
            all.lemma_multiset_has_no_duplicates();
            order@.lemma_multiset_has_no_duplicates_conv();
            assert(all[all.len() - 1] == self.own_id);
            assert(all.contains(self.own_id));
            assert(all.to_multiset().count(self.own_id) > 0);
            assert(order@.contains(self.own_id));
        }
        let s = match position(&order, self.own_id) {
            Some(s) => s,
            None => {
                return Err(StartError::NotSeated);
            },
        };
        let opps = opponents_around(&order, s, &self.peer_names);
        let r = self.start_game(order, false);
        self.opponents = Opponents(opps);
        r
    }

    /// The host's "play again": the seating order turns one seat to the
    /// left, the game state is reset and a fresh deck is dealt. Returns
    /// the Restart packet to send to every peer.
    pub fn restart_game(&mut self) -> (r: Result<Vec<u8>, StartError>)
        requires
            old(self).wf(),
        ensures
            final(self).wf(),
            ({
                let order = rotated(old(self).game_info.order@);
                if !old(self).is_host {
                    r == Err::<Vec<u8>, StartError>(StartError::NotHost) && *final(self) == *old(
                        self,
                    )
                } else {
                    match deal_error(old(self).own_id, order) {
                        Some(e) => r == Err::<Vec<u8>, StartError>(e) && *final(self) == *old(self),
                        None => match r {
                            Ok(packet) => {
                                &&& final(self).opponents.0@.len() == old(self).opponents.0@.len()
                                &&& forall|j: int|
                                    0 <= j < old(self).opponents.0@.len()
                                        ==> #[trigger] final(self).opponents.0@[j]
                                        == with_count(old(self).opponents.0@[j], 5)
                                &&& final(self).game_info.direction == Direction::Clockwise
                                &&& dealt_fresh(
                                    *final(self),
                                    true,
                                    order,
                                    packet@,
                                    Seq::empty(),
                                )
                                &&& same_peer(*old(self), *final(self))
                            },
                            Err(_) => false,
                        },
                    }
                }
            }),
    {
        if !self.is_host {
            return Err(StartError::NotHost);
        }
        let n = self.game_info.order.len();
        if n == 0 {
            return Err(StartError::NotSeated);
        }
        let mut order: Vec<PeerId> = Vec::new();
        let mut i: usize = 1;
        while i < n
            invariant
                1 <= i <= n,
                n == self.game_info.order@.len(),
                order@ == self.game_info.order@.subrange(1, i as int),
            decreases n - i,
        {
            order.push(self.game_info.order[i]);
            i = i + 1;
            assert(order@ =~= self.game_info.order@.subrange(1, i as int));
        }
        order.push(self.game_info.order[0]);
        assert(order@ =~= rotated(self.game_info.order@));
        match position(&order, self.own_id) {
            None => {
                return Err(StartError::NotSeated);
            },
            Some(_) => {},
        }
        if !no_duplicate_seats(&order) {
            return Err(StartError::DuplicateSeat);
        }
        if order.len() > 19 {
            return Err(StartError::DeckTooSmall);
        }
        self.reset_game_state();
        self.start_game(order, true)
    }

    /// Draws the top card into this peer's hand when it may draw, moves
    /// the turn on, and returns the Draw packet to send to every peer.
    /// Otherwise nothing changes.
    pub fn draw_card(&mut self) -> (r: Option<Vec<u8>>)
        requires
            old(self).wf(),
        ensures
            final(self).wf(),
            if may_draw(*old(self)) {
                &&& r matches Some(p) && p@ == seq![1u8]
                &&& final(self).main_player.cards@ == old(self).main_player.cards@.push(
                    old(self).deck.cards@[0],
                )
                &&& final(self).deck.cards@ == old(self).deck.cards@.skip(1)
                &&& final(self).game_info.current_player == advanced(
                    old(self).game_info.order@,
                    old(self).game_info.direction,
                    old(self).game_info.current_player,
                )
                &&& final(self).game_info.order@ == old(self).game_info.order@
                &&& final(self).game_info.direction == old(self).game_info.direction
                &&& final(self).discard_pile == old(self).discard_pile
                &&& final(self).opponents == old(self).opponents
                &&& final(self).phase == old(self).phase
                &&& final(self).winner == old(self).winner
                &&& same_peer(*old(self), *final(self))
            } else {
                r is None && *final(self) == *old(self)
            },
    {
        if self.phase != Phase::Playing || self.game_info.current_player != Some(self.own_id) {
            return None;
        }
        let len = self.discard_pile.cards.len();
        if len > 0 && self.discard_pile.cards[len - 1].color == CardColor::Wild {
            return None;
        }
        if self.deck.is_empty() {
            return None;
        }
        let drawn = self.deck.take_top(1);
        self.main_player.cards.push(drawn[0]);
        self.game_info.advance_turn();
        Some(encode_draw())
    }

    /// Plays `card` from this peer's hand when it may, and returns the
    /// Play packet to send to every peer. Otherwise nothing changes. A
    /// wild card waits for its color, unless it was the last card: then
    /// the game is won and no color is awaited.
    pub fn play_card(&mut self, card: Card) -> (r: Option<Vec<u8>>)
        requires
            old(self).wf(),
        ensures
            final(self).wf(),
            if may_play(*old(self), card) {
                &&& r matches Some(p) && p@ == seq![2u8, card_code(card) as u8]
                &&& local_play_applied(*old(self), *final(self), card)
            } else {
                r is None && *final(self) == *old(self)
            },
    {
        if self.phase != Phase::Playing || self.game_info.current_player != Some(self.own_id) {
            return None;
        }
        let len = self.discard_pile.cards.len();
        if len > 0 && !card.can_play_on(&self.discard_pile.cards[len - 1]) {
            return None;
        }
        let i = match find_card(&self.main_player.cards, card) {
            Some(i) => i,
            None => {
                return None;
            },
        };
        proof {
            let k = choose|k: int| is_first_card(old(self).main_player.cards@, card, k);
            assert(is_first_card(old(self).main_player.cards@, card, i as int));
            assert(k == i);
            assert(legal(card));
        }
        self.main_player.cards.remove(i);
        let ghost hand = self.main_player.cards@;
        proof {
            assert(hand =~= old(self).main_player.cards@.remove(i as int));
            assert forall|j: int| 0 <= j < hand.len() implies legal(#[trigger] hand[j]) by {
                if j < i {
                    assert(hand[j] == old(self).main_player.cards@[j]);
                } else {
                    assert(hand[j] == old(self).main_player.cards@[j + 1]);
                }
            }
        }
        self.discard_pile.cards.push(card);
        if card.color == CardColor::Wild {
            self.phase = Phase::AwaitingWildColor;
        }
        let packet = encode_play(&card);
        self.game_info.advance_turn();
        let own = self.own_id;
        self.handle_card_effect(&card, own);
        if self.main_player.cards.len() == 0 {
            self.phase = Phase::Won;
            self.winner = Some(own);
        }
        Some(packet)
    }

    /// Gives the wild card this peer just played the chosen `color`, and
    /// returns the Wild packet to send to every peer. Nothing changes
    /// unless a color is awaited and `color` is not `Wild`.
    pub fn choose_wild_color(&mut self, color: CardColor) -> (r: Option<Vec<u8>>)
        requires
            old(self).wf(),
        ensures
            final(self).wf(),
            if old(self).phase is AwaitingWildColor && !(color is Wild)
                && old(self).discard_pile.cards@.len() > 0 {
                &&& r matches Some(p) && p@ == seq![5u8, color_index(color) as u8]
                &&& wild_applied(*old(self), *final(self), color)
            } else {
                r is None && *final(self) == *old(self)
            },
    {
        if self.phase != Phase::AwaitingWildColor || color == CardColor::Wild
            || self.discard_pile.cards.len() == 0 {
            return None;
        }
        let _ = self.apply_wild(color);
        Some(encode_wild(color))
    }

    /// The Name packet that announces this peer to a peer that joined.
    pub fn peer_joined(&self) -> (r: Vec<u8>)
        ensures
            r@ == name_packet(vstd::utf8::encode_utf8(self.username@)),
    {
        encode_name(self.username.as_str())
    }

    /// Forgets the name of a peer that left.
    pub fn peer_left(&mut self, peer: PeerId)
        ensures
            final(self).peer_names.view() == old(self).peer_names.view().remove(peer.0),
            final(self).deck == old(self).deck,
            final(self).discard_pile == old(self).discard_pile,
            final(self).main_player == old(self).main_player,
            final(self).game_info == old(self).game_info,
            final(self).opponents == old(self).opponents,
            final(self).phase == old(self).phase,
            final(self).winner == old(self).winner,
            final(self).own_id == old(self).own_id,
            final(self).is_host == old(self).is_host,
            final(self).username == old(self).username,
    {
        self.peer_names.remove(peer);
    }

    /// When the deck has run out, moves the discard pile but its top card
    /// back into the deck (wild cards losing their color) and shuffles.
    pub fn reclaim_discard_pile(&mut self)
        requires
            old(self).wf(),
        ensures
            final(self).wf(),
            ({
                let (d, p) = (old(self).deck.cards@, old(self).discard_pile.cards@);
                if d.len() == 0 && p.len() > 1 {
                    &&& final(self).discard_pile.cards@ == seq![p.last()]
                    &&& final(self).deck.cards@.to_multiset() == p.drop_last().map_values(
                        |c: Card| reclaimed(c),
                    ).to_multiset()
                } else {
                    &&& final(self).discard_pile.cards@ == p
                    &&& final(self).deck.cards@ == d
                }
            }),
            final(self).main_player == old(self).main_player,
            final(self).game_info == old(self).game_info,
            final(self).opponents == old(self).opponents,
            final(self).phase == old(self).phase,
            final(self).winner == old(self).winner,
            same_peer(*old(self), *final(self)),
    {
        self.deck.reclaim(&mut self.discard_pile);
        proof {
            let (d, p) = (old(self).deck.cards@, old(self).discard_pile.cards@);
            if d.len() == 0 && p.len() > 1 {
                let m = p.drop_last().map_values(|c: Card| reclaimed(c));
                assert forall|j: int| 0 <= j < self.deck.cards@.len() implies legal(
                    #[trigger] self.deck.cards@[j],
                ) by {
                    let c = self.deck.cards@[j];
                    assert(self.deck.cards@.to_multiset().count(c) > 0);
                    assert(m.contains(c));
                    let k = choose|k: int| 0 <= k < m.len() && m[k] == c;
                    assert(p[k] == p.drop_last()[k]);
                }
            }
        }
    }
}

} // verus!
