use crazy7s::card::{Card, CardColor, CardValue};
use crazy7s::deck::Deck;

/// Ensures that all cards can be serialized and then deserialized back to themselves.
#[test]
fn test_card_serialization() {
    let deck = Deck::new();
    for card in deck.cards {
        let serialized: u8 = card.encode();
        let deserialized = Card::decode(serialized);
        assert_eq!(card, deserialized);
    }
}

#[test]
fn every_code_decodes_and_encodes_back() {
    for b in 0u8..108 {
        assert_eq!(Card::decode(b).encode(), b);
    }
}

#[test]
fn code_layout_matches_color_value_and_copy() {
    assert_eq!(Card::new(CardColor::Red, CardValue::Zero, 1).encode(), 0);
    assert_eq!(Card::new(CardColor::Blue, CardValue::DrawTwo, 1).encode(), 51);
    assert_eq!(Card::new(CardColor::Yellow, CardValue::Five, 2).encode(), 52 + 13 + 5);
    assert_eq!(Card::new(CardColor::Wild, CardValue::Seven, 3).encode(), 107);
    assert_eq!(
        Card::decode(70),
        Card::new(CardColor::Yellow, CardValue::Five, 2)
    );
    assert_eq!(
        Card::decode(104),
        Card::new(CardColor::Wild, CardValue::Seven, 0)
    );
}

#[test]
fn wild_encoding_ignores_value() {
    assert_eq!(Card::new(CardColor::Wild, CardValue::Two, 2).encode(), 106);
}

#[test]
fn color_bytes() {
    assert_eq!(CardColor::Green.to_byte(), 2);
    assert_eq!(CardColor::from_byte(3), CardColor::Blue);
    assert_eq!(CardColor::from_byte(4), CardColor::Wild);
}

#[test]
fn blue_five_on_blue_seven_turned_red() {
    let five = Card::new(CardColor::Blue, CardValue::Five, 1);
    let red_wild = Card::new(CardColor::Red, CardValue::Seven, 0);
    assert!(!five.can_play_on(&red_wild));
    let red_five = Card::new(CardColor::Red, CardValue::Five, 2);
    assert!(five.can_play_on(&red_five));
    let blue_skip = Card::new(CardColor::Blue, CardValue::Skip, 1);
    assert!(five.can_play_on(&blue_skip));
}

#[test]
fn uncolored_wild_blocks_every_card() {
    let top = Card::new(CardColor::Wild, CardValue::Seven, 1);
    for b in 0u8..108 {
        assert!(!Card::decode(b).can_play_on(&top));
    }
    let wild = Card::new(CardColor::Wild, CardValue::Seven, 2);
    let blue_two = Card::new(CardColor::Blue, CardValue::Two, 1);
    assert!(wild.can_play_on(&blue_two));
}

#[test]
fn sprite_paths() {
    assert_eq!(
        Card::new(CardColor::Red, CardValue::Five, 1).sprite_path(),
        "textures/cards/red5.png"
    );
    assert_eq!(
        Card::new(CardColor::Wild, CardValue::Seven, 2).sprite_path(),
        "textures/cards/wild7.png"
    );
    assert_eq!(
        Card::new(CardColor::Blue, CardValue::DrawTwo, 2).sprite_path(),
        "textures/cards/bluedraw2.png"
    );
}
