//! The binary event protocol: one leading byte for the kind of event,
//! then a payload that depends on the kind.

use vstd::prelude::*;
use vstd::arithmetic::div_mod::lemma_mod_breakdown;
use vstd::slice::slice_to_vec;
use vstd::string::StringSliceAdditionalSpecFns;
use crate::card::{
    card_code, card_of_code, color_at, color_index, encodable, legal, lemma_card_of_code_of_card, Card,
    CardColor,
};
use crate::deck::all_codes;
use crate::info::PeerId;

verus! {

/// Kind of a protocol event, which is its leading byte.
#[derive(Debug, Clone, Copy, PartialEq, Eq, Structural)]
pub enum SocketEvent {
    Start,
    Draw,
    Play,
    Restart,
    Name,
    Wild,
}

/// A leading byte that names no kind of event.
#[derive(Debug, Clone, Copy, PartialEq, Eq, Structural)]
pub enum SocketEventInitError {
    InvalidByte,
}

/// The leading byte of each kind of event.
pub open spec fn event_code(e: SocketEvent) -> int {
    match e {
        SocketEvent::Start => 0,
        SocketEvent::Draw => 1,
        SocketEvent::Play => 2,
        SocketEvent::Restart => 3,
        SocketEvent::Name => 4,
        SocketEvent::Wild => 5,
    }
}

impl SocketEvent {
    /// The leading byte of this kind of event.
    pub fn to_byte(self) -> (r: u8)
        ensures
            r == event_code(self),
    {
        match self {
            SocketEvent::Start => 0,
            SocketEvent::Draw => 1,
            SocketEvent::Play => 2,
            SocketEvent::Restart => 3,
            SocketEvent::Name => 4,
            SocketEvent::Wild => 5,
        }
    }

    /// The kind of event that leading byte `b` names.
    pub fn try_from_byte(b: u8) -> (r: Result<SocketEvent, SocketEventInitError>)
        ensures
            match r {
                Ok(e) => b <= 5 && event_code(e) == b,
                Err(_) => b > 5,
            },
    {
        match b {
            0 => Ok(SocketEvent::Start),
            1 => Ok(SocketEvent::Draw),
            2 => Ok(SocketEvent::Play),
            3 => Ok(SocketEvent::Restart),
            4 => Ok(SocketEvent::Name),
            5 => Ok(SocketEvent::Wild),
            _ => Err(SocketEventInitError::InvalidByte),
        }
    }
}

/// Why a packet was dropped.
#[derive(Debug, Clone, Copy, PartialEq, Eq, Structural)]
pub enum ProtocolError {
    /// The packet has no bytes at all.
    Empty,
    /// The leading byte names no kind of event.
    InvalidEventKind(u8),
    /// The payload ends before what its kind requires.
    Truncated,
    /// A byte that should be a card code is 108 or more.
    InvalidCard,
    /// A chosen color byte is not one of Red, Yellow, Green, Blue (0 to 3).
    InvalidColor,
}

/// A decoded event.
#[derive(Debug)]
pub enum Message {
    /// A game starts (or starts again): the seating order and the byte
    /// codes of the whole deck, top first.
    Start { restart: bool, order: Vec<PeerId>, deck: Vec<u8> },
    /// The sender drew a card.
    Draw,
    /// The sender played a card.
    Play(Card),
    /// The sender's display name, as UTF-8 bytes.
    Name(Vec<u8>),
    /// The color chosen for the wild card on top of the discard pile.
    Wild(CardColor),
}

/// What a decoded event holds, as mathematical values.
pub enum MessageView {
    Start { restart: bool, order: Seq<PeerId>, deck: Seq<u8> },
    Draw,
    Play(Card),
    Name(Seq<u8>),
    Wild(CardColor),
}

impl Message {
    pub open spec fn view(&self) -> MessageView {
        match self {
            Message::Start { restart, order, deck } => MessageView::Start {
                restart: *restart,
                order: order@,
                deck: deck@,
            },
            Message::Draw => MessageView::Draw,
            Message::Play(c) => MessageView::Play(*c),
            Message::Name(b) => MessageView::Name(b@),
            Message::Wild(c) => MessageView::Wild(*c),
        }
    }
}

/// `256` to the power `n`.
pub open spec fn pow256(n: nat) -> nat
    decreases n,
{
    if n == 0 {
        1
    } else {
        256 * pow256((n - 1) as nat)
    }
}

/// The number that bytes `s` stand for, most significant first.
pub open spec fn be_value(s: Seq<u8>) -> nat
    decreases s.len(),
{
    if s.len() == 0 {
        0
    } else {
        be_value(s.drop_last()) * 256 + s.last() as nat
    }
}

/// The last `n` bytes of `v`, most significant first.
pub open spec fn be_bytes(v: nat, n: nat) -> Seq<u8>
    decreases n,
{
    if n == 0 {
        Seq::empty()
    } else {
        be_bytes(v / 256, (n - 1) as nat).push((v % 256) as u8)
    }
}

/// The 16 bytes of each identifier of `order`, one after the other.
pub open spec fn ids_bytes(order: Seq<PeerId>) -> Seq<u8> {
    Seq::new(16 * order.len(), |k: int| be_bytes(order[k / 16].0 as nat, 16)[k % 16])
}

/// The `count` identifiers that follow the two leading bytes of `p`.
pub open spec fn ids_in(p: Seq<u8>, count: nat) -> Seq<PeerId> {
    Seq::new(count, |i: int| PeerId(be_value(p.subrange(2 + 16 * i, 18 + 16 * i)) as u128))
}

/// What a packet decodes to. Start and Restart hold a player count, that
/// many 16-byte identifiers and then the deck; Play one card code; Name the
/// rest of the packet; Wild one color byte; Draw nothing. Bytes after a
/// fixed-size payload are ignored.
pub open spec fn parse_message(p: Seq<u8>) -> Result<MessageView, ProtocolError> {
    if p.len() == 0 {
        Err(ProtocolError::Empty)
    } else if p[0] > 5 {
        Err(ProtocolError::InvalidEventKind(p[0]))
    } else if p[0] == 1 {
        Ok(MessageView::Draw)
    } else if p[0] == 4 {
        Ok(MessageView::Name(p.skip(1)))
    } else if p.len() < 2 {
        Err(ProtocolError::Truncated)
    } else if p[0] == 2 {
        if p[1] >= 108 {
            Err(ProtocolError::InvalidCard)
        } else {
            Ok(MessageView::Play(card_of_code(p[1] as int)))
        }
    } else if p[0] == 5 {
        if p[1] > 3 {
            Err(ProtocolError::InvalidColor)
        } else {
            Ok(MessageView::Wild(color_at(p[1] as int)))
        }
    } else if p.len() < 2 + 16 * p[1] {
        Err(ProtocolError::Truncated)
    } else if !all_codes(p.skip(2 + 16 * p[1])) {
        Err(ProtocolError::InvalidCard)
    } else {
        Ok(
            MessageView::Start {
                restart: p[0] == 3,
                order: ids_in(p, p[1] as nat),
                deck: p.skip(2 + 16 * p[1]),
            },
        )
    }
}

/// The bytes of a Start (or, with `restart`, Restart) packet.
pub open spec fn start_packet(restart: bool, order: Seq<PeerId>, deck: Seq<u8>) -> Seq<u8> {
    seq![if restart { 3u8 } else { 0u8 }, order.len() as u8] + ids_bytes(order) + deck
}

/// The bytes of a Name packet.
pub open spec fn name_packet(name: Seq<u8>) -> Seq<u8> {
    seq![4u8] + name
}

/// The number that `n` bytes of `p` from `start` stand for.
fn read_be(p: &[u8], start: usize, n: usize) -> (r: u128)
    requires
        n <= 16,
        start + n <= p@.len(),
    ensures
        r == be_value(p@.subrange(start as int, start + n)),
        r < pow256(n as nat),
    decreases n,
{
    if n == 0 {
        return 0;
    }
    let total = p.len();
    let high = read_be(p, start, n - 1);
    let low = p[start + n - 1];
    proof {
        assert(p@.subrange(start as int, start + n).drop_last() =~= p@.subrange(
            start as int,
            start + n - 1,
        ));
        let h = pow256((n - 1) as nat);
        lemma_pow256_monotone((n - 1) as nat, 15);
        lemma_pow256_16();
        assert(high * 256 + low < h * 256) by (nonlinear_arith)
            requires high < h, low < 256;
        assert(h * 256 <= pow256(16));
        assert(pow256(n as nat) == h * 256);
    }
    high * 256 + low as u128
}

/// Powers of 256 are positive and grow with the exponent.
proof fn lemma_pow256_monotone(a: nat, b: nat)
    requires
        a <= b,
    ensures
        0 < pow256(a) <= pow256(b),
    decreases b - a,
{
    if a < b {
        lemma_pow256_monotone(a, (b - 1) as nat);
    } else {
        lemma_pow256_pos(a);
    }
}

/// Powers of 256 are positive.
proof fn lemma_pow256_pos(n: nat)
    ensures
        pow256(n) > 0,
    decreases n,
{
    if n > 0 {
        lemma_pow256_pos((n - 1) as nat);
    }
}

/// `256` to the power 16 is `2^128`.
proof fn lemma_pow256_16()
    ensures
        pow256(16) == 0x1_0000_0000_0000_0000_0000_0000_0000_0000,
        pow256(15) * 256 == pow256(16),
{
    reveal_with_fuel(pow256, 17);
}

/// Appends the last `n` bytes of `v`, most significant first.
fn push_be(out: &mut Vec<u8>, v: u128, n: usize)
    requires
        n <= 16,
    ensures
        final(out)@ == old(out)@ + be_bytes(v as nat, n as nat),
    decreases n,
{
    if n == 0 {
        assert(old(out)@ + be_bytes(v as nat, 0) =~= old(out)@);
        return;
    }
    push_be(out, v / 256, n - 1);
    out.push((v % 256) as u8);
    assert(final(out)@ =~= old(out)@ + be_bytes(v as nat, n as nat));
}

/// `be_bytes` gives `n` bytes.
proof fn lemma_be_bytes_len(v: nat, n: nat)
    ensures
        be_bytes(v, n).len() == n,
    decreases n,
{
    if n > 0 {
        lemma_be_bytes_len(v / 256, (n - 1) as nat);
    }
}

/// Reading back the last `n` bytes of `v` gives `v` modulo `256^n`.
pub proof fn lemma_be_round_trip(v: nat, n: nat)
    ensures
        be_value(be_bytes(v, n)) == v % pow256(n),
    decreases n,
{
    if n == 0 {
    } else {
        lemma_be_round_trip(v / 256, (n - 1) as nat);
        assert(be_bytes(v, n).drop_last() =~= be_bytes(v / 256, (n - 1) as nat));
        lemma_pow256_monotone(0, (n - 1) as nat);
        lemma_mod_breakdown(v as int, 256, pow256((n - 1) as nat) as int);
    }
}

/// Encodes a Start (or, with `restart`, Restart) packet: the seating
/// order, then the deck's byte codes.
pub fn encode_start(restart: bool, order: &Vec<PeerId>, deck: &Vec<u8>) -> (r: Vec<u8>)
    requires
        order@.len() <= 255,
    ensures
        r@ == start_packet(restart, order@, deck@),
{
    let mut packet: Vec<u8> = Vec::new();
    packet.push(if restart { SocketEvent::Restart } else { SocketEvent::Start }.to_byte());
    packet.push(order.len() as u8);
    let ghost head = packet@;
    let mut i: usize = 0;
    while i < order.len()
        invariant
            i <= order@.len(),
            packet@ == head + ids_bytes(order@.take(i as int)),
        decreases order@.len() - i,
    {
        let ghost before = packet@;
        push_be(&mut packet, order[i].0, 16);
        proof {
            lemma_be_bytes_len(order@[i as int].0 as nat, 16);
            let t = order@.take(i + 1);
            assert(ids_bytes(t) =~= ids_bytes(order@.take(i as int)) + be_bytes(
                order@[i as int].0 as nat,
                16,
            )) by {
                assert forall|k: int| 16 * i <= k < 16 * (i + 1) implies #[trigger] ids_bytes(t)[k]
                    == be_bytes(order@[i as int].0 as nat, 16)[k - 16 * i] by {
                    assert(k / 16 == i);
                }
            }
        }
        i = i + 1;
    }
    assert(order@.take(order@.len() as int) =~= order@);
    let ghost mid = packet@;
    let mut j: usize = 0;
    while j < deck.len()
        invariant
            j <= deck@.len(),
            packet@ == mid + deck@.take(j as int),
        decreases deck@.len() - j,
    {
        packet.push(deck[j]);
        j = j + 1;
        assert(packet@ =~= mid + deck@.take(j as int));
    }
    assert(deck@.take(deck@.len() as int) =~= deck@);
    assert(packet@ =~= start_packet(restart, order@, deck@));
    packet
}

/// Encodes a Draw packet.
pub fn encode_draw() -> (r: Vec<u8>)
    ensures
        r@ == seq![1u8],
{
    let mut packet: Vec<u8> = Vec::new();
    packet.push(SocketEvent::Draw.to_byte());
    assert(packet@ =~= seq![1u8]);
    packet
}

/// Encodes a Play packet for `card`.
pub fn encode_play(card: &Card) -> (r: Vec<u8>)
    requires
        encodable(*card),
    ensures
        r@ == seq![2u8, card_code(*card) as u8],
{
    let mut packet: Vec<u8> = Vec::new();
    packet.push(SocketEvent::Play.to_byte());
    packet.push(card.encode());
    assert(packet@ =~= seq![2u8, card_code(*card) as u8]);
    packet
}

/// Encodes a Name packet: the name's UTF-8 bytes after the leading byte.
pub fn encode_name(name: &str) -> (r: Vec<u8>)
    ensures
        r@ == name_packet(name.spec_bytes()),
{
    let mut packet: Vec<u8> = Vec::new();
    packet.push(SocketEvent::Name.to_byte());
    let mut bytes = slice_to_vec(name.as_bytes());
    packet.append(&mut bytes);
    assert(packet@ =~= name_packet(name.spec_bytes()));
    packet
}

/// Encodes a Wild packet for the chosen color.
pub fn encode_wild(color: CardColor) -> (r: Vec<u8>)
    ensures
        r@ == seq![5u8, color_index(color) as u8],
{
    let mut packet: Vec<u8> = Vec::new();
    packet.push(SocketEvent::Wild.to_byte());
    packet.push(color.to_byte());
    assert(packet@ =~= seq![5u8, color_index(color) as u8]);
    packet
}

/// Decodes a packet.
pub fn decode_message(p: &[u8]) -> (r: Result<Message, ProtocolError>)
    ensures
        match r {
            Ok(m) => parse_message(p@) == Ok::<MessageView, ProtocolError>(m@),
            Err(e) => parse_message(p@) == Err::<MessageView, ProtocolError>(e),
        },
{
    if p.len() == 0 {
        return Err(ProtocolError::Empty);
    }
    let kind = match SocketEvent::try_from_byte(p[0]) {
        Ok(kind) => kind,
        Err(_) => return Err(ProtocolError::InvalidEventKind(p[0])),
    };
    match kind {
        SocketEvent::Draw => Ok(Message::Draw),
        SocketEvent::Name => {
            let mut name: Vec<u8> = Vec::new();
            let mut i: usize = 1;
            while i < p.len()
                invariant
                    1 <= i <= p@.len(),
                    name@ == p@.subrange(1, i as int),
                decreases p@.len() - i,
            {
                name.push(p[i]);
                i = i + 1;
                assert(name@ =~= p@.subrange(1, i as int));
            }
            assert(name@ =~= p@.skip(1));
            Ok(Message::Name(name))
        },
        SocketEvent::Play => {
            if p.len() < 2 {
                Err(ProtocolError::Truncated)
            } else if p[1] >= 108 {
                Err(ProtocolError::InvalidCard)
            } else {
                Ok(Message::Play(Card::decode(p[1])))
            }
        },
        SocketEvent::Wild => {
            if p.len() < 2 {
                Err(ProtocolError::Truncated)
            } else if p[1] > 3 {
                Err(ProtocolError::InvalidColor)
            } else {
                Ok(Message::Wild(CardColor::from_byte(p[1])))
            }
        },
        SocketEvent::Start | SocketEvent::Restart => {
            if p.len() < 2 {
                return Err(ProtocolError::Truncated);
            }
            let count = p[1] as usize;
            if p.len() < 2 + 16 * count {
                return Err(ProtocolError::Truncated);
            }
            let mut order: Vec<PeerId> = Vec::new();
            let mut i: usize = 0;
            while i < count
                invariant
                    i <= count,
                    p@.len() >= 2,
                    count == p@[1],
                    event_code(kind) == p@[0],
                    kind is Start || kind is Restart,
                    2 + 16 * count <= p@.len(),
                    order@ == ids_in(p@, count as nat).take(i as int),
                decreases count - i,
            {
                let id = read_be(p, 2 + 16 * i, 16);
                order.push(PeerId(id));
                i = i + 1;
                assert(order@ =~= ids_in(p@, count as nat).take(i as int));
            }
            assert(order@ =~= ids_in(p@, count as nat));
            let start = 2 + 16 * count;
            let mut deck: Vec<u8> = Vec::new();
            let mut j: usize = start;
            while j < p.len()
                invariant
                    start <= j <= p@.len(),
                    p@.len() >= 2,
                    start == 2 + 16 * p@[1],
                    event_code(kind) == p@[0],
                    kind is Start || kind is Restart,
                    deck@ == p@.subrange(start as int, j as int),
                    all_codes(deck@),
                decreases p@.len() - j,
            {
                if p[j] >= 108 {
                    proof {
                        assert(p@.skip(2 + 16 * p@[1]) == p@.skip(start as int));
                        assert(p@.skip(start as int)[j - start] == p@[j as int]);
                        assert(!all_codes(p@.skip(start as int)));
                    }
                    return Err(ProtocolError::InvalidCard);
                }
                deck.push(p[j]);
                j = j + 1;
                assert(deck@ =~= p@.subrange(start as int, j as int));
            }
            assert(deck@ =~= p@.skip(start as int));
            Ok(Message::Start { restart: kind == SocketEvent::Restart, order, deck })
        },
    }
}

/// Decoding an encoded Start packet gives back its seating order and deck.
pub proof fn lemma_start_round_trip(restart: bool, order: Seq<PeerId>, deck: Seq<u8>)
    requires
        order.len() <= 255,
        all_codes(deck),
    ensures
        parse_message(start_packet(restart, order, deck)) == Ok::<MessageView, ProtocolError>(
            MessageView::Start { restart, order, deck },
        ),
{
    let p = start_packet(restart, order, deck);
    let n = order.len();
    assert(p[1] == n);
    assert(p.skip(2 + 16 * n as int) =~= deck);
    assert forall|i: int| 0 <= i < n implies #[trigger] ids_in(p, n)[i] == order[i] by {
        let v = order[i].0 as nat;
        lemma_be_bytes_len(v, 16);
        assert(p.subrange(2 + 16 * i, 18 + 16 * i) =~= be_bytes(v, 16)) by {
            assert forall|j: int| 0 <= j < 16 implies p.subrange(2 + 16 * i, 18 + 16 * i)[j]
                == be_bytes(v, 16)[j] by {
                assert((16 * i + j) / 16 == i);
                assert((16 * i + j) % 16 == j);
            }
        }
        lemma_be_round_trip(v, 16);
        lemma_pow256_16();
        assert(v % pow256(16) == v);
    }
    assert(ids_in(p, n) =~= order);
}

/// Decoding an encoded Play packet gives back the card.
pub proof fn lemma_play_round_trip(card: Card)
    requires
        legal(card),
    ensures
        parse_message(seq![2u8, card_code(card) as u8]) == Ok::<MessageView, ProtocolError>(
            MessageView::Play(card),
        ),
{
    lemma_card_of_code_of_card(card);
}

/// Decoding an encoded Wild packet gives back the chosen color.
pub proof fn lemma_wild_round_trip(color: CardColor)
    requires
        !(color is Wild),
    ensures
        parse_message(seq![5u8, color_index(color) as u8]) == Ok::<MessageView, ProtocolError>(
            MessageView::Wild(color),
        ),
{
}

/// Decoding an encoded Name packet gives back the name's bytes.
pub proof fn lemma_name_round_trip(name: Seq<u8>)
    ensures
        parse_message(name_packet(name)) == Ok::<MessageView, ProtocolError>(
            MessageView::Name(name),
        ),
{
    assert(name_packet(name).skip(1) =~= name);
}

} // verus!
