use crazy7s::card::{Card, CardColor, CardValue};
use crazy7s::engine::{GameState, Phase, ReceiveError, StartError};
use crazy7s::info::{Direction, PeerId};
use crazy7s::protocol::{encode_play, encode_start, encode_wild, ProtocolError};

const ANN: PeerId = PeerId(11);
const BOB: PeerId = PeerId(22);
const CID: PeerId = PeerId(33);

fn ordered_codes() -> Vec<u8> {
    (0u8..108).collect()
}

fn started(own: PeerId, order: &[PeerId], codes: &[u8]) -> GameState {
    let mut state = GameState::new(own, false, "me".to_string());
    let packet = encode_start(false, &order.to_vec(), &codes.to_vec());
    assert_eq!(state.receive(ANN, &packet), Ok(()));
    state
}

fn red_draw_two() -> Card {
    Card::new(CardColor::Red, CardValue::DrawTwo, 1)
}

#[test]
fn start_deals_by_seat_and_turns_up_a_discard() {
    let codes = ordered_codes();
    let ann = started(ANN, &[ANN, BOB], &codes);
    let bob = started(BOB, &[ANN, BOB], &codes);
    let decoded: Vec<Card> = codes.iter().map(|b| Card::decode(*b)).collect();
    assert_eq!(ann.main_player.cards, decoded[0..5].to_vec());
    assert_eq!(bob.main_player.cards, decoded[5..10].to_vec());
    assert_eq!(ann.discard_pile.cards, vec![decoded[10]]);
    assert_eq!(ann.deck.cards, decoded[11..].to_vec());
    assert_eq!(bob.deck.cards, ann.deck.cards);
    assert_eq!(ann.game_info.current_player, Some(ANN));
    assert_eq!(ann.phase, Phase::Playing);
    assert_eq!(ann.opponents.0.len(), 1);
    assert_eq!(ann.opponents.0[0].id, BOB);
    assert_eq!(ann.opponents.0[0].card_count, 5);
    assert_eq!(ann.opponents.0[0].name, "Unknown");
}

#[test]
fn wild_turned_up_is_covered_by_the_next_card() {
    let mut codes = ordered_codes();
    codes.swap(10, 104);
    let s = started(ANN, &[ANN, BOB], &codes);
    let wild = Card::decode(104);
    assert_eq!(s.discard_pile.cards, vec![wild, Card::decode(11)]);
    assert_eq!(s.deck.cards.len(), 108 - 12);
}

#[test]
fn draw_two_as_seen_by_its_victim() {
    let mut bob = started(BOB, &[ANN, BOB], &ordered_codes());
    let deck_before = bob.deck.cards.len();
    let top_two = bob.deck.cards[0..2].to_vec();
    assert_eq!(bob.receive(ANN, &encode_play(&red_draw_two())), Ok(()));
    assert_eq!(bob.opponents.0[0].card_count, 4);
    assert_eq!(bob.main_player.cards.len(), 7);
    assert_eq!(bob.main_player.cards[5..].to_vec(), top_two);
    assert_eq!(bob.deck.cards.len(), deck_before - 2);
    assert_eq!(bob.game_info.current_player, Some(ANN));
    assert_eq!(bob.discard_pile.cards.last(), Some(&red_draw_two()));
}

#[test]
fn draw_two_credits_the_victim_for_every_other_peer() {
    let order = [ANN, BOB, CID];
    let mut cid = started(CID, &order, &ordered_codes());
    let deck_before = cid.deck.cards.len();
    assert_eq!(cid.receive(ANN, &encode_play(&red_draw_two())), Ok(()));
    assert_eq!(cid.opponents.0[1].id, BOB);
    assert_eq!(cid.opponents.0[1].card_count, 7);
    assert_eq!(cid.opponents.0[0].card_count, 4);
    assert_eq!(cid.deck.cards.len(), deck_before - 2);
    assert_eq!(cid.main_player.cards.len(), 5);
    assert_eq!(cid.game_info.current_player, Some(CID));
}

#[test]
fn draw_two_played_locally() {
    let mut codes = ordered_codes();
    codes.swap(0, 12);
    let mut ann = started(ANN, &[ANN, BOB], &codes);
    let deck_before = ann.deck.cards.len();
    let packet = ann.play_card(red_draw_two()).expect("playable");
    assert_eq!(packet, vec![2, 12]);
    assert_eq!(ann.opponents.0[0].card_count, 7);
    assert_eq!(ann.deck.cards.len(), deck_before - 2);
    assert_eq!(ann.main_player.cards.len(), 4);
    assert_eq!(ann.game_info.current_player, Some(ANN));
}

#[test]
fn skip_and_reverse_received() {
    let order = [ANN, BOB, CID];
    let mut s = started(CID, &order, &ordered_codes());
    let skip = Card::new(CardColor::Red, CardValue::Skip, 1);
    assert_eq!(s.receive(ANN, &encode_play(&skip)), Ok(()));
    assert_eq!(s.game_info.current_player, Some(CID));
    let reverse = Card::new(CardColor::Red, CardValue::Reverse, 2);
    let mut s = started(CID, &order, &ordered_codes());
    assert_eq!(s.receive(ANN, &encode_play(&reverse)), Ok(()));
    assert_eq!(s.game_info.direction, Direction::CounterClockwise);
    assert_eq!(s.game_info.current_player, Some(CID));
}

#[test]
fn draw_event_moves_card_count_and_turn() {
    let mut s = started(BOB, &[ANN, BOB], &ordered_codes());
    let before = s.deck.cards.len();
    assert_eq!(s.receive(ANN, &[1]), Ok(()));
    assert_eq!(s.deck.cards.len(), before - 1);
    assert_eq!(s.opponents.0[0].card_count, 6);
    assert_eq!(s.game_info.current_player, Some(BOB));
}

#[test]
fn local_draw_only_on_own_turn() {
    let mut bob = started(BOB, &[ANN, BOB], &ordered_codes());
    assert_eq!(bob.draw_card(), None);
    let mut ann = started(ANN, &[ANN, BOB], &ordered_codes());
    let top = ann.deck.cards[0];
    assert_eq!(ann.draw_card(), Some(vec![1]));
    assert_eq!(ann.main_player.cards.len(), 6);
    assert_eq!(ann.main_player.cards[5], top);
    assert_eq!(ann.game_info.current_player, Some(BOB));
}

#[test]
fn wild_play_waits_for_color_and_blocks_drawing() {
    let mut codes = ordered_codes();
    codes.swap(0, 104);
    let mut ann = started(ANN, &[ANN, BOB], &codes);
    let wild = Card::decode(104);
    assert!(ann.play_card(wild).is_some());
    assert_eq!(ann.phase, Phase::AwaitingWildColor);
    assert_eq!(ann.draw_card(), None);
    assert_eq!(ann.choose_wild_color(CardColor::Wild), None);
    assert_eq!(ann.choose_wild_color(CardColor::Green), Some(vec![5, 2]));
    assert_eq!(ann.phase, Phase::Playing);
    let top = *ann.discard_pile.cards.last().unwrap();
    assert_eq!(top.color, CardColor::Green);
    assert_eq!(top.iteration, 0);
}

#[test]
fn uncolored_wild_on_top_blocks_play_until_color_arrives() {
    let mut bob = started(BOB, &[ANN, BOB], &ordered_codes());
    let wild = Card::decode(105);
    assert_eq!(bob.receive(ANN, &encode_play(&wild)), Ok(()));
    let card = bob.main_player.cards[0];
    assert_eq!(bob.play_card(card), None);
    assert_eq!(bob.draw_card(), None);
    assert_eq!(bob.receive(ANN, &encode_wild(CardColor::Red)), Ok(()));
    assert!(bob.play_card(card).is_some());
}

#[test]
fn illegal_card_or_missing_card_is_ignored() {
    let mut ann = started(ANN, &[ANN, BOB], &ordered_codes());
    let blue = Card::new(CardColor::Blue, CardValue::One, 1);
    assert_eq!(ann.play_card(blue), None);
    let yellow_one = ann.main_player.cards[1];
    assert_eq!(yellow_one, Card::new(CardColor::Red, CardValue::One, 1));
    ann.discard_pile.cards.push(Card::new(CardColor::Blue, CardValue::Nine, 1));
    assert_eq!(ann.play_card(yellow_one), None);
}

#[test]
fn last_card_wins() {
    let mut bob = started(BOB, &[ANN, BOB], &ordered_codes());
    bob.opponents.0[0].card_count = 1;
    let card = Card::new(CardColor::Red, CardValue::Three, 2);
    assert_eq!(bob.receive(ANN, &encode_play(&card)), Ok(()));
    assert_eq!(bob.phase, Phase::Won);
    assert_eq!(bob.winner, Some(ANN));
}

#[test]
fn receive_errors_leave_state_alone() {
    let mut s = GameState::new(BOB, false, "me".to_string());
    assert_eq!(s.receive(ANN, &[7]), Err(ReceiveError::Decode(ProtocolError::InvalidEventKind(7))));
    assert_eq!(s.receive(ANN, &[5, 1]), Err(ReceiveError::NothingToColor));
    let codes = ordered_codes();
    let not_seated = encode_start(false, &vec![ANN, CID], &codes);
    assert_eq!(s.receive(ANN, &not_seated), Err(ReceiveError::Start(StartError::NotSeated)));
    let twice = encode_start(false, &vec![ANN, BOB, ANN], &codes);
    assert_eq!(s.receive(ANN, &twice), Err(ReceiveError::Start(StartError::DuplicateSeat)));
    let short = encode_start(false, &vec![ANN, BOB], &codes[0..10].to_vec());
    assert_eq!(s.receive(ANN, &short), Err(ReceiveError::Start(StartError::DeckTooSmall)));
    assert_eq!(s.phase, Phase::Idle);
    assert_eq!(s.deck.cards.len(), 100);
}

#[test]
fn names_are_recorded_and_used_for_opponents() {
    let mut s = GameState::new(BOB, false, "me".to_string());
    assert_eq!(s.receive(ANN, &[4, b'B', b'o', b'b']), Ok(()));
    assert_eq!(s.peer_names.get(ANN).map(|n| n.as_str()), Some("Bob"));
    assert_eq!(s.receive(CID, &[4, 0xff, b'x']), Ok(()));
    assert_eq!(s.peer_names.get(CID).map(|n| n.as_str()), Some("\u{FFFD}x"));
    let packet = encode_start(false, &vec![ANN, BOB], &ordered_codes());
    assert_eq!(s.receive(ANN, &packet), Ok(()));
    assert_eq!(s.opponents.0[0].name, "Bob");
    s.peer_left(ANN);
    assert_eq!(s.peer_names.get(ANN), None);
    assert_eq!(s.peer_joined()[1..].to_vec(), b"me".to_vec());
}

#[test]
fn host_deals_the_same_game_to_every_peer() {
    let mut host = GameState::new(ANN, true, "host".to_string());
    let packet = host.host_start(vec![BOB, CID]).expect("dealt");
    assert_eq!(packet[0], 0);
    assert_eq!(packet[1], 3);
    assert_eq!(packet.len(), 2 + 48 + 100);
    assert_eq!(host.opponents.0.len(), 2);
    let mut guest = GameState::new(BOB, false, "guest".to_string());
    assert_eq!(guest.receive(ANN, &packet), Ok(()));
    assert_eq!(guest.deck.cards, host.deck.cards);
    assert_eq!(guest.discard_pile.cards, host.discard_pile.cards);
    assert_eq!(guest.game_info.order, host.game_info.order);
    assert_eq!(guest.game_info.current_player, host.game_info.current_player);
    assert_eq!(host.main_player.cards.len(), 5);
}

#[test]
fn only_the_host_deals() {
    let mut guest = GameState::new(BOB, false, "guest".to_string());
    assert_eq!(guest.host_start(vec![ANN]), Err(StartError::NotHost));
    assert_eq!(guest.restart_game(), Err(StartError::NotHost));
    let mut host = GameState::new(ANN, true, "host".to_string());
    assert_eq!(host.host_start(vec![ANN]), Err(StartError::DuplicateSeat));
    let many: Vec<PeerId> = (100u128..119).map(PeerId).collect();
    assert_eq!(host.host_start(many), Err(StartError::DeckTooSmall));
    assert_eq!(host.start_game(vec![BOB], false), Err(StartError::NotSeated));
    assert_eq!(guest.start_game(vec![ANN, BOB], false), Err(StartError::NotHost));
}

#[test]
fn a_new_start_goes_clockwise() {
    let order = [ANN, BOB, CID];
    let mut cid = started(CID, &order, &ordered_codes());
    let reverse = Card::new(CardColor::Red, CardValue::Reverse, 2);
    assert_eq!(cid.receive(ANN, &encode_play(&reverse)), Ok(()));
    assert_eq!(cid.game_info.direction, Direction::CounterClockwise);
    let packet = encode_start(false, &order.to_vec(), &ordered_codes());
    assert_eq!(cid.receive(ANN, &packet), Ok(()));
    assert_eq!(cid.game_info.direction, Direction::Clockwise);
}

#[test]
fn last_card_wild_wins_without_color_choice() {
    let mut codes = ordered_codes();
    codes.swap(0, 104);
    let mut ann = started(ANN, &[ANN, BOB], &codes);
    ann.main_player.cards.truncate(1);
    assert!(ann.play_card(Card::decode(104)).is_some());
    assert_eq!(ann.phase, Phase::Won);
    assert_eq!(ann.winner, Some(ANN));
    assert_eq!(ann.choose_wild_color(CardColor::Red), None);
}

#[test]
fn restart_rotates_the_order() {
    let mut host = GameState::new(ANN, true, "host".to_string());
    assert!(host.start_game(vec![ANN, BOB, CID], false).is_ok());
    let packet = host.restart_game().expect("dealt");
    assert_eq!(packet[0], 3);
    assert_eq!(host.game_info.order, vec![BOB, CID, ANN]);
    assert_eq!(host.game_info.current_player, Some(BOB));
    assert_eq!(host.deck.cards.len(), 100 - 15 - host.discard_pile.cards.len());
    let mut guest = started(CID, &[ANN, BOB, CID], &ordered_codes());
    guest.opponents.0[0].card_count = 9;
    assert_eq!(guest.receive(ANN, &packet), Ok(()));
    assert_eq!(guest.game_info.order, vec![BOB, CID, ANN]);
    assert_eq!(guest.opponents.0[0].card_count, 5);
    assert_eq!(guest.deck.cards, host.deck.cards);
}

#[test]
fn reclaim_when_deck_runs_out() {
    let mut codes: Vec<u8> = (0u8..11).collect();
    codes.push(104);
    codes.push(20);
    let mut ann = started(ANN, &[ANN, BOB], &codes);
    assert_eq!(ann.deck.cards.len(), 2);
    ann.deck.draw(2);
    ann.discard_pile.cards.push(Card::new(CardColor::Blue, CardValue::Seven, 0));
    ann.discard_pile.cards.push(Card::new(CardColor::Red, CardValue::Two, 2));
    ann.reclaim_discard_pile();
    assert_eq!(ann.discard_pile.cards, vec![Card::new(CardColor::Red, CardValue::Two, 2)]);
    assert_eq!(ann.deck.cards.len(), 2);
    assert!(ann.deck.cards.contains(&Card::decode(104)));
}
