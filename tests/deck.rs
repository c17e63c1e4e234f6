use crazy7s::card::{Card, CardColor, CardValue};
use crazy7s::deck::{Deck, DiscardCards, MainPlayer};

fn sorted_codes(cards: &[Card]) -> Vec<u8> {
    let mut v: Vec<u8> = cards.iter().map(|c| c.encode()).collect();
    v.sort();
    v
}

#[test]
fn fresh_deck_has_no_sevens_and_four_wilds() {
    let deck = Deck::new();
    assert_eq!(deck.cards.len(), 100);
    let wilds = deck.cards.iter().filter(|c| c.color == CardColor::Wild).count();
    assert_eq!(wilds, 4);
    assert!(deck
        .cards
        .iter()
        .all(|c| c.color == CardColor::Wild || c.value != CardValue::Seven));
    assert_eq!(deck.cards[0], Card::new(CardColor::Red, CardValue::Zero, 1));
    assert_eq!(deck.cards[1], Card::new(CardColor::Red, CardValue::Zero, 2));
    assert_eq!(deck.cards[14], Card::new(CardColor::Red, CardValue::Eight, 1));
    assert_eq!(deck.cards[99], Card::new(CardColor::Wild, CardValue::Seven, 3));
}

#[test]
fn order_then_load_reproduces_the_deck() {
    let deck = Deck::shuffled();
    let order = deck.get_card_order();
    let mut other = Deck::new();
    other.load_from(&order);
    assert_eq!(other.cards, deck.cards);
}

#[test]
fn shuffle_keeps_the_cards() {
    let deck = Deck::shuffled();
    assert_eq!(sorted_codes(&deck.cards), sorted_codes(&Deck::new().cards));
}

#[test]
fn shuffle_changes_the_order() {
    let fresh = Deck::new();
    let a = Deck::shuffled();
    let b = Deck::shuffled();
    assert!(a.cards != fresh.cards || b.cards != fresh.cards);
}

#[test]
fn draw_takes_from_the_top() {
    let mut deck = Deck::new();
    let drawn = deck.draw(3);
    assert_eq!(drawn, Deck::new().cards[0..3].to_vec());
    assert_eq!(deck.cards.len(), 97);
    assert_eq!(deck.cards[0], Deck::new().cards[3]);
}

#[test]
fn draw_returns_fewer_when_exhausted() {
    let mut deck = Deck::new();
    deck.load_from(&[3, 4]);
    let drawn = deck.draw(5);
    assert_eq!(drawn.len(), 2);
    assert!(deck.is_empty());
    assert_eq!(deck.draw(1).len(), 0);
    let mut deck = Deck::new();
    assert_eq!(deck.draw(0).len(), 0);
    assert_eq!(deck.draw(-2).len(), 0);
    assert_eq!(deck.cards.len(), 100);
}

#[test]
fn reclaim_moves_all_but_top_and_uncolors_wilds() {
    let mut deck = Deck::new();
    deck.load_from(&[]);
    let mut discard = DiscardCards::new();
    discard.cards.push(Card::new(CardColor::Red, CardValue::One, 1));
    discard.cards.push(Card::new(CardColor::Wild, CardValue::Seven, 2));
    discard.cards.push(Card::new(CardColor::Blue, CardValue::Seven, 2));
    discard.cards.push(Card::new(CardColor::Blue, CardValue::Nine, 1));
    deck.reclaim(&mut discard);
    assert_eq!(discard.cards, vec![Card::new(CardColor::Blue, CardValue::Nine, 1)]);
    assert_eq!(deck.cards.len(), 3);
    let mut codes = sorted_codes(&deck.cards);
    codes.dedup();
    assert_eq!(codes, vec![1, 106]);
}

#[test]
fn reclaim_does_nothing_while_deck_has_cards() {
    let mut deck = Deck::new();
    deck.load_from(&[5]);
    let mut discard = DiscardCards::new();
    discard.cards.push(Card::new(CardColor::Red, CardValue::One, 1));
    discard.cards.push(Card::new(CardColor::Red, CardValue::Two, 1));
    deck.reclaim(&mut discard);
    assert_eq!(deck.cards.len(), 1);
    assert_eq!(discard.cards.len(), 2);
}

#[test]
fn main_player_reset_empties_hand() {
    let mut player = MainPlayer::new();
    player.cards.push(Card::new(CardColor::Red, CardValue::One, 1));
    player.reset();
    assert!(player.cards.is_empty());
}
