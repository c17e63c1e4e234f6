//! The shared deck, the discard pile and the local player's hand.

use vstd::prelude::*;
use crate::card::{
    card_code, card_of_code, color_at, legal, lemma_card_of_code_of_card, value_at, Card, CardColor,
    CardValue,
};
use crate::rng::shuffle_in_place;

verus! {

broadcast use vstd::seq_lib::group_to_multiset_ensures;

/// Card `i` (`0 <= i < 100`) of a fresh deck: for each color the values
/// without the seven, two copies each, then the four wild cards.
pub open spec fn standard_card(i: int) -> Card {
    if i < 96 {
        let slot = (i % 24) / 2;
        Card {
            color: color_at(i / 24),
            value: value_at(if slot < 7 { slot } else { slot + 1 }),
            iteration: (i % 2 + 1) as u8,
        }
    } else {
        Card { color: CardColor::Wild, value: CardValue::Seven, iteration: (i - 96) as u8 }
    }
}

/// The cards of a fresh deck, in order.
pub open spec fn standard_deck() -> Seq<Card> {
    Seq::new(100, |i: int| standard_card(i))
}

/// The byte codes of a sequence of cards.
pub open spec fn codes_of(cards: Seq<Card>) -> Seq<u8> {
    cards.map_values(|c: Card| card_code(c) as u8)
}

/// The cards that a sequence of byte codes stands for.
pub open spec fn cards_of(codes: Seq<u8>) -> Seq<Card> {
    codes.map_values(|b: u8| card_of_code(b as int))
}

/// Every byte of `codes` is a card code.
pub open spec fn all_codes(codes: Seq<u8>) -> bool {
    forall|i: int| 0 <= i < codes.len() ==> codes[i] < 108
}

/// Every card of `cards` is in canonical form.
pub open spec fn all_legal(cards: Seq<Card>) -> bool {
    forall|i: int| 0 <= i < cards.len() ==> legal(#[trigger] cards[i])
}

/// How many cards a request for `n` gets from a pile of `len` cards.
pub open spec fn draw_count(n: int, len: int) -> int {
    if n <= 0 {
        0
    } else if n < len {
        n
    } else {
        len
    }
}

/// A card as it goes back into the deck: a wild card (the one card with
/// value seven) loses the color that was chosen for it.
pub open spec fn reclaimed(c: Card) -> Card {
    if c.value is Seven {
        Card { color: CardColor::Wild, ..c }
    } else {
        c
    }
}

/// Deck of cards. The first card is the top one, drawn next.
#[derive(Debug)]
pub struct Deck {
    pub cards: Vec<Card>,
}

/// The cards that have been discarded; the last one is on top.
#[derive(Debug)]
pub struct DiscardCards {
    pub cards: Vec<Card>,
}

/// The local player's cards.
#[derive(Debug)]
pub struct MainPlayer {
    pub cards: Vec<Card>,
}

/// Card `i` of a fresh deck.
fn standard_card_at(i: u8) -> (r: Card)
    requires
        i < 100,
    ensures
        r == standard_card(i as int),
{
    if i < 96 {
        let slot = (i % 24) / 2;
        let value = CardValue::from_index(if slot < 7 { slot } else { slot + 1 });
        Card::new(CardColor::from_byte(i / 24), value, i % 2 + 1)
    } else {
        Card::new(CardColor::Wild, CardValue::Seven, i - 96)
    }
}

impl Deck {
    /// Every card of the deck is in canonical form.
    pub open spec fn wf(&self) -> bool {
        all_legal(self.cards@)
    }

    /// The default cards in the deck.
    fn default_cards() -> (r: Vec<Card>)
        ensures
            r@ == standard_deck(),
    {
        let mut cards: Vec<Card> = Vec::new();
        let mut i: u8 = 0;
        while i < 100
            invariant
                i <= 100,
                cards@ == standard_deck().take(i as int),
            decreases 100 - i,
        {
            let c = standard_card_at(i);
            cards.push(c);
            i = i + 1;
            assert(cards@ =~= standard_deck().take(i as int));
        }
        assert(cards@ =~= standard_deck());
        cards
    }

    /// Creates a new deck of cards with the default cards, in order.
    pub fn new() -> (r: Deck)
        ensures
            r.cards@ == standard_deck(),
            r.wf(),
    {
        let cards = Self::default_cards();
        Deck { cards }
    }

    /// A fresh deck in random order.
    pub fn shuffled() -> (r: Deck)
        ensures
            r.cards@.to_multiset() == standard_deck().to_multiset(),
            r.wf(),
    {
        let mut deck = Self::new();
        deck.shuffle();
        deck
    }

    /// Shuffles the deck: the same cards in an order drawn at random.
    pub fn shuffle(&mut self)
        ensures
            final(self).cards@.len() == old(self).cards@.len(),
            final(self).cards@.to_multiset() == old(self).cards@.to_multiset(),
            old(self).wf() ==> final(self).wf(),
    {
        shuffle_in_place(&mut self.cards);
        proof {
            let (a, b) = (old(self).cards@, self.cards@);
            assert forall|i: int| 0 <= i < b.len() && all_legal(a) implies legal(#[trigger] b[i]) by {
                assert(b.to_multiset().count(b[i]) > 0);
                assert(a.contains(b[i]));
            }
        }
    }

    /// The byte codes of the cards in the deck, top first.
    pub fn get_card_order(&self) -> (r: Vec<u8>)
        requires
            self.wf(),
        ensures
            r@ == codes_of(self.cards@),
    {
        let mut order: Vec<u8> = Vec::new();
        let mut i: usize = 0;
        while i < self.cards.len()
            invariant
                i <= self.cards@.len(),
                self.wf(),
                order@ == codes_of(self.cards@).take(i as int),
            decreases self.cards@.len() - i,
        {
            let code = self.cards[i].encode();
            order.push(code);
            i = i + 1;
            assert(order@ =~= codes_of(self.cards@).take(i as int));
        }
        assert(order@ =~= codes_of(self.cards@));
        order
    }

    /// Replaces the deck by the cards that `order` stands for, in order.
    pub fn load_from(&mut self, order: &[u8])
        requires
            all_codes(order@),
        ensures
            final(self).cards@ == cards_of(order@),
            final(self).wf(),
    {
        let mut cards: Vec<Card> = Vec::new();
        let mut i: usize = 0;
        while i < order.len()
            invariant
                i <= order@.len(),
                all_codes(order@),
                cards@ == cards_of(order@).take(i as int),
            decreases order@.len() - i,
        {
            let c = Card::decode(order[i]);
            cards.push(c);
            i = i + 1;
            assert(cards@ =~= cards_of(order@).take(i as int));
        }
        assert(cards@ =~= cards_of(order@));
        self.cards = cards;
    }

    /// Draws up to `n` cards from the top of the deck: fewer when it runs
    /// out, none when `n` is not positive.
    pub fn draw(&mut self, n: i32) -> (r: Vec<Card>)
        ensures
            r@ == old(self).cards@.take(draw_count(n as int, old(self).cards@.len() as int)),
            final(self).cards@ == old(self).cards@.skip(
                draw_count(n as int, old(self).cards@.len() as int),
            ),
            old(self).wf() ==> final(self).wf(),
    {
        let k: usize = if n <= 0 {
            0
        } else if (n as usize) < self.cards.len() {
            n as usize
        } else {
            self.cards.len()
        };
        self.take_top(k)
    }

    /// Removes and returns the top `k` cards.
    pub(crate) fn take_top(&mut self, k: usize) -> (r: Vec<Card>)
        requires
            k <= old(self).cards@.len(),
        ensures
            r@ == old(self).cards@.take(k as int),
            final(self).cards@ == old(self).cards@.skip(k as int),
            old(self).wf() ==> final(self).wf(),
    {
        let rest = self.cards.split_off(k);
        let mut drawn: Vec<Card> = Vec::new();
        drawn.append(&mut self.cards);
        self.cards = rest;
        proof {
            assert(drawn@ =~= old(self).cards@.take(k as int));
            assert(self.cards@ =~= old(self).cards@.skip(k as int));
        }
        drawn
    }

    /// Returns `true` if the deck has no cards left.
    pub fn is_empty(&self) -> (r: bool)
        ensures
            r == (self.cards@.len() == 0),
    {
        self.cards.is_empty()
    }

    /// When the deck has run out and the discard pile holds more than its
    /// top card, moves every card but the top one back into the deck (wild
    /// cards losing their color) and shuffles it. Otherwise does nothing.
    pub fn reclaim(&mut self, discard: &mut DiscardCards)
        ensures
            ({
                let (d, p) = (old(self).cards@, old(discard).cards@);
                if d.len() == 0 && p.len() > 1 {
                    &&& final(discard).cards@ == seq![p.last()]
                    &&& final(self).cards@.to_multiset() == p.drop_last().map_values(
                        |c: Card| reclaimed(c),
                    ).to_multiset()
                    &&& final(self).cards@.len() == p.len() - 1
                } else {
                    &&& final(discard).cards@ == p
                    &&& final(self).cards@ == d
                }
            }),
    {
        if !self.cards.is_empty() {
            return;
        }
        let len = discard.cards.len();
        if len <= 1 {
            return;
        }
        let top = discard.cards.split_off(len - 1);
        let mut moved: Vec<Card> = Vec::new();
        moved.append(&mut discard.cards);
        discard.cards = top;
        let ghost below = moved@;
        let mut i: usize = 0;
        while i < moved.len()
            invariant
                i <= moved@.len(),
                moved@.len() == below.len(),
                forall|j: int| 0 <= j < i ==> moved@[j] == reclaimed(below[j]),
                forall|j: int| i <= j < below.len() ==> moved@[j] == below[j],
            decreases moved@.len() - i,
        {
            if moved[i].value == CardValue::Seven {
                let mut c = moved[i];
                c.color = CardColor::Wild;
                moved.set(i, c);
            }
            i = i + 1;
        }
        self.cards = moved;
        proof {
            assert(below =~= old(discard).cards@.drop_last());
            assert(self.cards@ =~= below.map_values(|c: Card| reclaimed(c)));
            assert(discard.cards@ =~= seq![old(discard).cards@.last()]);
        }
        self.shuffle();
    }
}

impl DiscardCards {
    /// An empty discard pile.
    pub fn new() -> (r: DiscardCards)
        ensures
            r.cards@.len() == 0,
    {
        DiscardCards { cards: Vec::new() }
    }
}

impl MainPlayer {
    /// An empty hand.
    pub fn new() -> (r: MainPlayer)
        ensures
            r.cards@.len() == 0,
    {
        MainPlayer { cards: Vec::new() }
    }

    /// Empties the hand.
    pub fn reset(&mut self)
        ensures
            final(self).cards@.len() == 0,
    {
        self.cards.clear();
    }
}

/// The byte codes of canonical cards stand for those cards again: loading
/// a deck from its order gives back the same card sequence.
pub proof fn lemma_order_round_trip(cards: Seq<Card>)
    requires
        all_legal(cards),
    ensures
        all_codes(codes_of(cards)),
        cards_of(codes_of(cards)) == cards,
{
    assert forall|i: int| 0 <= i < cards.len() implies codes_of(cards)[i] < 108
        && card_of_code(codes_of(cards)[i] as int) == cards[i] by {
        lemma_card_of_code_of_card(cards[i]);
    }
    assert(cards_of(codes_of(cards)) =~= cards);
}

} // verus!
