use crazy7s::info::{position, Direction, GameInfo, Opponent, Opponents, PeerId, PeerNames};

const A: PeerId = PeerId(1);
const B: PeerId = PeerId(2);
const C: PeerId = PeerId(3);

fn three() -> GameInfo {
    let mut info = GameInfo::new();
    info.order = vec![A, B, C];
    info.current_player = Some(A);
    info
}

#[test]
fn advance_then_reverse() {
    let mut info = three();
    assert_eq!(info.advance_turn(), Some(B));
    info.swap_direction();
    assert_eq!(info.direction, Direction::CounterClockwise);
    assert_eq!(info.advance_turn(), Some(A));
    assert_eq!(info.advance_turn(), Some(C));
}

#[test]
fn skip_passes_over_next_player() {
    let mut info = three();
    assert_eq!(info.advance_turn(), Some(B));
    assert_eq!(info.advance_turn(), Some(C));
    assert_eq!(info.advance_turn(), Some(A));
}

#[test]
fn advance_without_current_player_stays_unset() {
    let mut info = GameInfo::new();
    info.order = vec![A, B];
    assert_eq!(info.advance_turn(), None);
    assert_eq!(info.current_player, None);
}

#[test]
fn counter_clockwise_wraps_round() {
    let mut info = three();
    info.swap_direction();
    assert_eq!(info.advance_turn(), Some(C));
    assert_eq!(info.advance_turn(), Some(B));
}

#[test]
fn reset_clears_turn_state() {
    let mut info = three();
    info.swap_direction();
    info.reset();
    assert_eq!(info.current_player, None);
    assert!(info.order.is_empty());
    assert_eq!(info.direction, Direction::Clockwise);
}

#[test]
fn position_finds_seat() {
    assert_eq!(position(&vec![A, B, C], C), Some(2));
    assert_eq!(position(&vec![A, B], C), None);
}

#[test]
fn opponents_counts() {
    let mut opps = Opponents(vec![
        Opponent::new(A, "a".to_string(), 1),
        Opponent::new(B, "b".to_string(), 5),
    ]);
    opps.add_cards(B, 2);
    assert_eq!(opps.0[1].card_count, 7);
    assert!(opps.remove_card(A));
    assert_eq!(opps.0[0].card_count, 0);
    assert!(!opps.remove_card(A));
    assert_eq!(opps.0[0].card_count, 0);
    opps.add_cards(C, 2);
    assert_eq!(opps.find(C), None);
    assert_eq!(opps.find(B), Some(1));
    opps.reset_counts(5);
    assert_eq!(opps.0[0].card_count, 5);
    assert_eq!(opps.0[1].card_count, 5);
    assert_eq!(opps.0[1].name, "b");
}

#[test]
fn peer_names_table() {
    let mut names = PeerNames::new();
    names.insert(A, "Ann".to_string());
    names.insert(A, "Anna".to_string());
    assert_eq!(names.get(A).map(|s| s.as_str()), Some("Anna"));
    names.remove(A);
    assert_eq!(names.get(A), None);
}
