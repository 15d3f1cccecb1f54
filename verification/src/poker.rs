//! Five-card poker: a deck, a hand, and the rank of a hand.

use crate::chars::digit_of;
use crate::chars::is_digit;
use crate::chars::is_digit_char;
use crate::chars::is_space;
use crate::chars::is_space_char;
use crate::lexer::decimal_value;
use crate::lexer::lemma_skip_spaces_bounds;
use crate::lexer::skip_spaces;
use crate::text::chars_of;
use crate::text::decimal;
use crate::text::push_decimal;
use crate::text::push_text;
use vstd::prelude::*;
use rand::seq::SliceRandom;

verus! {

/// The four suits.
#[derive(Debug, PartialEq, Eq, Clone, Copy, Structural)]
pub enum Suit {
    Clover,
    Diamond,
    Heart,
    Spade,
}

/// A playing card. Its number runs from 1, the ace, to 13, the king.
#[derive(Debug, PartialEq, Eq, Clone, Copy, Structural)]
pub struct Card {
    pub suit: Suit,
    pub number: u8,
}

impl Card {
    /// The number is one of 1 to 13.
    pub open spec fn wf(&self) -> bool {
        1 <= self.number <= 13
    }

    /// The card of the given suit and number.
    pub fn new(suit: Suit, number: u8) -> (c: Card)
        requires
            1 <= number <= 13,
        ensures
            c == (Card { suit, number }),
            c.wf(),
    {
        Card { number, suit }
    }
}

/// How a suit is shown.
pub open spec fn suit_text(suit: Suit) -> Seq<char> {
    match suit {
        Suit::Clover => "♣️"@,
        Suit::Diamond => "♦️"@,
        Suit::Heart => "❤️"@,
        Suit::Spade => "♠️"@,
    }
}

/// How a card's number is shown: `A`, `J`, `Q`, `K` for 1, 11, 12, 13, and
/// else the number.
pub open spec fn number_text(number: u8) -> Seq<char> {
    if number == 1 {
        "A"@
    } else if number == 11 {
        "J"@
    } else if number == 12 {
        "Q"@
    } else if number == 13 {
        "K"@
    } else {
        decimal(number as nat)
    }
}

/// How a card is shown: its suit, then its number.
pub open spec fn card_text(c: Card) -> Seq<char> {
    suit_text(c.suit) + number_text(c.number)
}

/// Appends how a card is shown.
pub fn push_card(s: &mut String, c: Card)
    ensures
        final(s)@ == old(s)@ + card_text(c),
{
    match c.suit {
        Suit::Clover => push_text(s, "♣️"),
        Suit::Diamond => push_text(s, "♦️"),
        Suit::Heart => push_text(s, "❤️"),
        Suit::Spade => push_text(s, "♠️"),
    }
    if c.number == 1 {
        push_text(s, "A");
    } else if c.number == 11 {
        push_text(s, "J");
    } else if c.number == 12 {
        push_text(s, "Q");
    } else if c.number == 13 {
        push_text(s, "K");
    } else {
        push_decimal(s, c.number as u64);
    }
    assert(s@ == old(s)@ + (suit_text(c.suit) + number_text(c.number)));
}

impl Card {
    /// How the card is shown.
    pub fn text(&self) -> (s: String)
        ensures
            s@ == card_text(*self),
    {
        let mut s = String::new();
        push_card(&mut s, *self);
        s
    }
}

/// The card of the given suit and number.
pub fn card(suit: Suit, number: u8) -> (c: Card)
    requires
        1 <= number <= 13,
    ensures
        c == (Card { suit, number }),
        c.wf(),
{
    Card::new(suit, number)
}

/// The suit with the given place in the order clover, diamond, heart, spade.
pub open spec fn suit_at(i: int) -> Suit {
    if i == 0 {
        Suit::Clover
    } else if i == 1 {
        Suit::Diamond
    } else if i == 2 {
        Suit::Heart
    } else {
        Suit::Spade
    }
}

/// All 52 cards: the four aces by suit, then the four twos, and so on.
pub open spec fn full_deck() -> Seq<Card> {
    Seq::new(52, |i: int| Card { suit: suit_at(i % 4), number: (i / 4 + 1) as u8 })
}

/// `SliceRandom::shuffle` with the thread's generator from `rand::rng`: the
/// cards are swapped about in place. Which order comes out is left open;
/// the cards are the same ones, each as often as before.
#[verifier::external_body]
fn shuffle(cards: &mut Vec<Card>)
    ensures
        final(cards)@.to_multiset() == old(cards)@.to_multiset(),
{
    let mut rng = rand::rng();
    cards.shuffle(&mut rng);
}

/// The cards that are left to draw.
pub struct Deck {
    cards: Vec<Card>,
}

impl View for Deck {
    type V = Seq<Card>;

    closed spec fn view(&self) -> Seq<Card> {
        self.cards@
    }
}

/// Whether every card of the run has a number from 1 to 13.
pub open spec fn all_wf(cards: Seq<Card>) -> bool {
    forall|i: int| 0 <= i < cards.len() ==> (#[trigger] cards[i]).wf()
}

impl Deck {
    /// A full deck in some order.
    pub fn new() -> (deck: Deck)
        ensures
            deck@.len() == 52,
            deck@.to_multiset() == full_deck().to_multiset(),
            all_wf(deck@),
    {
        let mut cards: Vec<Card> = Vec::new();
        let mut i: u8 = 1;
        while i <= 13
            invariant
                1 <= i <= 14,
                cards@ == full_deck().take(4 * (i - 1)),
            decreases 14 - i,
        {
            let ghost before = cards@;
            cards.push(Card::new(Suit::Clover, i));
            cards.push(Card::new(Suit::Diamond, i));
            cards.push(Card::new(Suit::Heart, i));
            cards.push(Card::new(Suit::Spade, i));
            assert(cards@ == full_deck().take(4 * i)) by {
                let k = 4 * (i - 1);
                assert(full_deck()[k] == Card { suit: Suit::Clover, number: i });
                assert(full_deck()[k + 1] == Card { suit: Suit::Diamond, number: i });
                assert(full_deck()[k + 2] == Card { suit: Suit::Heart, number: i });
                assert(full_deck()[k + 3] == Card { suit: Suit::Spade, number: i });
                assert(cards@ =~= full_deck().take(4 * i));
            }
            i += 1;
        }
        assert(cards@ == full_deck()) by {
            assert(full_deck().take(52) =~= full_deck());
        }
        shuffle(&mut cards);
        proof {
            broadcast use vstd::seq_lib::group_to_multiset_ensures;

            let shuffled = cards@;
            assert(shuffled.len() == shuffled.to_multiset().len());
            assert(full_deck().len() == full_deck().to_multiset().len());
            assert forall|j: int| 0 <= j < shuffled.len() implies (#[trigger] shuffled[j]).wf() by {
                let c = shuffled[j];
                assert(shuffled.contains(c));
                assert(full_deck().to_multiset().count(c) > 0);
                assert(full_deck().contains(c));
                let k = choose|k: int| 0 <= k < full_deck().len() && full_deck()[k] == c;
                assert(full_deck()[k].wf());
            }
        }
        Deck { cards }
    }

    /// How many cards are left.
    pub fn len(&self) -> (n: usize)
        ensures
            n == self@.len(),
    {
        self.cards.len()
    }

    /// Takes the last card off the deck.
    pub fn draw(&mut self) -> (c: Card)
        requires
            old(self)@.len() > 0,
        ensures
            c == old(self)@.last(),
            final(self)@ == old(self)@.drop_last(),
            all_wf(old(self)@) ==> c.wf() && all_wf(final(self)@),
    {
        match self.cards.pop() {
            Some(c) => c,
            None => Card { suit: Suit::Clover, number: 1 },
        }
    }
}

/// How many of the first `upto` cards have the number `n`.
pub open spec fn count_in(hand: Seq<Card>, n: int, upto: int) -> nat
    decreases upto,
{
    if upto <= 0 {
        0
    } else {
        count_in(hand, n, upto - 1) + if hand[upto - 1].number == n {
            1nat
        } else {
            0nat
        }
    }
}

/// How many cards of the hand have the number `n`.
pub open spec fn count(hand: Seq<Card>, n: int) -> nat {
    count_in(hand, n, hand.len() as int)
}

/// How many of the numbers 1 to `upto` occur exactly `size` times in the hand.
pub open spec fn groups_in(hand: Seq<Card>, size: nat, upto: int) -> nat
    decreases upto,
{
    if upto <= 0 {
        0
    } else {
        groups_in(hand, size, upto - 1) + if count(hand, upto) == size {
            1nat
        } else {
            0nat
        }
    }
}

/// How many numbers occur exactly `size` times in the hand.
pub open spec fn groups(hand: Seq<Card>, size: nat) -> nat {
    groups_in(hand, size, 13)
}

/// The greatest number among the first `upto` cards, 0 where there is none.
pub open spec fn highest_in(hand: Seq<Card>, upto: int) -> int
    decreases upto,
{
    if upto <= 0 {
        0
    } else if hand[upto - 1].number > highest_in(hand, upto - 1) {
        hand[upto - 1].number as int
    } else {
        highest_in(hand, upto - 1)
    }
}

/// The greatest number in the hand.
pub open spec fn highest(hand: Seq<Card>) -> int {
    highest_in(hand, hand.len() as int)
}

/// All cards are of one suit.
pub open spec fn same_suit(hand: Seq<Card>) -> bool {
    forall|i: int| 0 <= i < hand.len() ==> (#[trigger] hand[i]).suit == hand[0].suit
}

/// The five numbers from `start` on occur once each.
pub open spec fn run_from(hand: Seq<Card>, start: int) -> bool {
    forall|k: int| 0 <= k < 5 ==> count(hand, #[trigger] (start + k)) == 1
}

/// Ten, jack, queen, king and ace occur once each.
pub open spec fn broadway(hand: Seq<Card>) -> bool {
    &&& count(hand, 1) == 1
    &&& count(hand, 10) == 1
    &&& count(hand, 11) == 1
    &&& count(hand, 12) == 1
    &&& count(hand, 13) == 1
}

/// The numbers are five in a row, the ace counting as 1, or they are ten to ace.
pub open spec fn in_a_row(hand: Seq<Card>) -> bool {
    (exists|start: int| 1 <= start <= 9 && #[trigger] run_from(hand, start)) || broadway(hand)
}

/// The ranks of a hand, from the least to the best.
#[derive(Debug, PartialEq, Eq, Clone, Copy, Structural)]
pub enum Rank {
    HighCard(u8),
    OnePair,
    TwoPair,
    ThreeCard,
    Straight,
    Flush,
    FullHouse,
    FourCard,
    StraightFlush,
    RoyalStraightFlush,
}

/// The rank of a hand: the first of these that fits, from the best down.
pub open spec fn rank_of(hand: Seq<Card>) -> Rank {
    if same_suit(hand) && in_a_row(hand) && broadway(hand) {
        Rank::RoyalStraightFlush
    } else if same_suit(hand) && in_a_row(hand) {
        Rank::StraightFlush
    } else if groups(hand, 4) == 1 {
        Rank::FourCard
    } else if groups(hand, 3) == 1 && groups(hand, 2) == 1 {
        Rank::FullHouse
    } else if same_suit(hand) {
        Rank::Flush
    } else if in_a_row(hand) {
        Rank::Straight
    } else if groups(hand, 3) == 1 {
        Rank::ThreeCard
    } else if groups(hand, 2) == 2 {
        Rank::TwoPair
    } else if groups(hand, 2) == 1 {
        Rank::OnePair
    } else {
        Rank::HighCard(highest(hand) as u8)
    }
}

impl Rank {
    /// The rank of a hand.
    pub fn evaluate(hands: &Hands) -> (rank: Rank)
        requires
            hands.wf(),
        ensures
            rank == rank_of(hands@),
    {
        let stats = HandStats::from(hands);
        if stats.is_royal_straight_flush() {
            return Rank::RoyalStraightFlush;
        }
        if stats.is_straight_flush() {
            return Rank::StraightFlush;
        }
        if stats.is_four_card() {
            return Rank::FourCard;
        }
        if stats.is_full_house() {
            return Rank::FullHouse;
        }
        if stats.is_flush() {
            return Rank::Flush;
        }
        if stats.is_straight() {
            return Rank::Straight;
        }
        if stats.is_three_card() {
            return Rank::ThreeCard;
        }
        if stats.is_two_pair() {
            return Rank::TwoPair;
        }
        if stats.is_one_pair() {
            return Rank::OnePair;
        }
        Rank::HighCard(stats.highest)
    }
}

/// What the rank of a hand is read from.
pub struct HandStats {
    counts: [u8; 14],
    highest: u8,
    flush: bool,
    straight: bool,
    pairs: u8,
    triples: u8,
    quads: u8,
}

impl HandStats {
    /// The figures are those of the given hand.
    pub closed spec fn describes(&self, hand: Seq<Card>) -> bool {
        &&& forall|n: int| 0 <= n < 14 ==> #[trigger] self.counts@[n] == count(hand, n)
        &&& self.highest == highest(hand)
        &&& self.flush == same_suit(hand)
        &&& self.straight == in_a_row(hand)
        &&& self.pairs == groups(hand, 2)
        &&& self.triples == groups(hand, 3)
        &&& self.quads == groups(hand, 4)
    }

    fn from(hands: &Hands) -> (stats: HandStats)
        requires
            hands.wf(),
        ensures
            stats.describes(hands@),
    {
        let ghost hand = hands@;
        let mut counts: [u8; 14] = [0;14];
        let mut highest: u8 = 0;
        let mut flush = true;
        let mut idx: usize = 0;
        while idx < 5
            invariant
                idx <= 5,
                hand == hands@,
                hand.len() == 5,
                all_wf(hand),
                forall|n: int| 0 <= n < 14 ==> #[trigger] counts@[n] == count_in(hand, n, idx as int),
                highest == highest_in(hand, idx as int),
                flush == (forall|i: int| 0 <= i < idx ==> (#[trigger] hand[i]).suit == hand[0].suit),
            decreases 5 - idx,
        {
            let c = hands.0[idx];
            assert(c == hand[idx as int]);
            assert(hand[idx as int].wf());
            let seen = counts[c.number as usize];
            assert(seen == count_in(hand, c.number as int, idx as int));
            assert(seen <= idx) by {
                lemma_count_bound(hand, c.number as int, idx as int);
            }
            counts[c.number as usize] = seen + 1;
            if c.number > highest {
                highest = c.number;
            }
            if c.suit != hands.0[0].suit {
                flush = false;
            }
            idx += 1;
        }
        let mut pairs: u8 = 0;
        let mut triples: u8 = 0;
        let mut quads: u8 = 0;
        let mut n: usize = 1;
        while n <= 13
            invariant
                1 <= n <= 14,
                hand.len() == 5,
                forall|m: int| 0 <= m < 14 ==> #[trigger] counts@[m] == count(hand, m),
                pairs == groups_in(hand, 2, n - 1),
                triples == groups_in(hand, 3, n - 1),
                quads == groups_in(hand, 4, n - 1),
                pairs <= n,
                triples <= n,
                quads <= n,
            decreases 14 - n,
        {
            let c = counts[n];
            assert(c == count(hand, n as int));
            if c == 2 {
                pairs += 1;
            } else if c == 3 {
                triples += 1;
            } else if c == 4 {
                quads += 1;
            }
            n += 1;
        }
        let straight = Self::calc_straight(&counts, Ghost(hand));
        HandStats { counts, highest, flush, straight, pairs, triples, quads }
    }

    fn is_one_pair(&self) -> (b: bool)
        ensures
            b == (self.pairs == 1),
    {
        self.pairs == 1
    }

    fn is_two_pair(&self) -> (b: bool)
        ensures
            b == (self.pairs == 2),
    {
        self.pairs == 2
    }

    fn is_three_card(&self) -> (b: bool)
        ensures
            b == (self.triples == 1),
    {
        self.triples == 1
    }

    fn is_four_card(&self) -> (b: bool)
        ensures
            b == (self.quads == 1),
    {
        self.quads == 1
    }

    fn is_full_house(&self) -> (b: bool)
        ensures
            b == (self.triples == 1 && self.pairs == 1),
    {
        self.triples == 1 && self.pairs == 1
    }

    fn is_flush(&self) -> (b: bool)
        ensures
            b == self.flush,
    {
        self.flush
    }

    fn is_straight(&self) -> (b: bool)
        ensures
            b == self.straight,
    {
        self.straight
    }

    fn is_straight_flush(&self) -> (b: bool)
        ensures
            b == (self.flush && self.straight),
    {
        self.is_flush() && self.is_straight()
    }

    fn is_royal_straight_flush(&self) -> (b: bool)
        ensures
            b == (self.flush && self.straight && self.counts@[1] == 1 && self.counts@[10] == 1
                && self.counts@[11] == 1 && self.counts@[12] == 1 && self.counts@[13] == 1),
    {
        self.is_straight_flush() && self.counts[1] == 1 && self.counts[10] == 1 && self.counts[11]
            == 1 && self.counts[12] == 1 && self.counts[13] == 1
    }

    /// Whether the numbers counted in `counts` are five in a row.
    fn calc_straight(counts: &[u8; 14], Ghost(hand): Ghost<Seq<Card>>) -> (b: bool)
        requires
            forall|m: int| 0 <= m < 14 ==> #[trigger] counts@[m] == count(hand, m),
        ensures
            b == in_a_row(hand),
    {
        let mut start: usize = 1;
        while start <= 9
            invariant
                1 <= start <= 10,
                forall|m: int| 0 <= m < 14 ==> #[trigger] counts@[m] == count(hand, m),
                forall|s: int| 1 <= s < start ==> !#[trigger] run_from(hand, s),
            decreases 10 - start,
        {
            if counts[start] == 1 && counts[start + 1] == 1 && counts[start + 2] == 1 && counts[start
                + 3] == 1 && counts[start + 4] == 1 {
                assert(run_from(hand, start as int)) by {
                    assert forall|k: int| 0 <= k < 5 implies count(hand, #[trigger] (start + k))
                        == 1 by {
                        assert(counts@[start + k] == count(hand, start + k));
                    }
                }
                return true;
            }
            assert(!run_from(hand, start as int)) by {
                if run_from(hand, start as int) {
                    assert(count(hand, start + 0) == 1);
                    assert(count(hand, start + 1) == 1);
                    assert(count(hand, start + 2) == 1);
                    assert(count(hand, start + 3) == 1);
                    assert(count(hand, start + 4) == 1);
                }
            }
            start += 1;
        }
        counts[1] == 1 && counts[10] == 1 && counts[11] == 1 && counts[12] == 1 && counts[13] == 1
    }
}

proof fn lemma_count_bound(hand: Seq<Card>, n: int, upto: int)
    requires
        0 <= upto,
    ensures
        count_in(hand, n, upto) <= upto,
    decreases upto,
{
    if upto > 0 {
        lemma_count_bound(hand, n, upto - 1);
    }
}

/// A hand of five cards.
#[derive(Debug)]
pub struct Hands(pub [Card; 5]);

impl View for Hands {
    type V = Seq<Card>;

    open spec fn view(&self) -> Seq<Card> {
        self.0@
    }
}

/// The number that `n` stands for when the numbers go round after the king:
/// 14 is the ace again.
pub open spec fn wrap(n: int) -> int {
    (n - 1) % 13 + 1
}

/// The lines that show the first `upto` cards of a hand: the place,
/// counted from 1, a dot, the card.
pub open spec fn hand_text(hand: Seq<Card>, upto: int) -> Seq<char>
    decreases upto,
{
    if upto <= 0 {
        Seq::empty()
    } else {
        hand_text(hand, upto - 1) + decimal(upto as nat) + ". "@ + card_text(hand[upto - 1])
            + seq!['\n']
    }
}

impl Hands {
    /// How the hand is shown: one line for each card.
    pub fn text(&self) -> (s: String)
        ensures
            s@ == hand_text(self@, 5),
    {
        let mut s = String::new();
        let mut i: usize = 0;
        while i < 5
            invariant
                i <= 5,
                self@.len() == 5,
                s@ == hand_text(self@, i as int),
            decreases 5 - i,
        {
            let ghost before = s@;
            push_decimal(&mut s, (i + 1) as u64);
            push_text(&mut s, ". ");
            push_card(&mut s, self.0[i]);
            s.push('\n');
            assert(s@ == before + decimal((i + 1) as nat) + ". "@ + card_text(self@[i as int])
                + seq!['\n']);
            i += 1;
        }
        s
    }

    /// Every card has a number from 1 to 13.
    pub open spec fn wf(&self) -> bool {
        all_wf(self@)
    }

    /// Draws five cards.
    pub fn new_from_deck(deck: &mut Deck) -> (hands: Hands)
        requires
            old(deck)@.len() >= 5,
        ensures
            final(deck)@ == old(deck)@.take(old(deck)@.len() - 5),
            forall|i: int| 0 <= i < 5 ==> hands@[i] == old(deck)@[old(deck)@.len() - 1 - i],
            all_wf(old(deck)@) ==> hands.wf() && all_wf(final(deck)@),
    {
        let a = deck.draw();
        let b = deck.draw();
        let c = deck.draw();
        let d = deck.draw();
        let e = deck.draw();
        Hands([a, b, c, d, e])
    }

    /// Puts a new card from the deck in the place of `card`, at the first
    /// place where the hand holds it.
    pub fn exchange(&mut self, deck: &mut Deck, card: Card)
        requires
            old(self)@.contains(card),
            old(deck)@.len() > 0,
        ensures
            final(deck)@ == old(deck)@.drop_last(),
            final(self)@ == old(self)@.update(
                old(self)@.index_of_first(card).unwrap(),
                old(deck)@.last(),
            ),
            old(self).wf() && all_wf(old(deck)@) ==> final(self).wf() && all_wf(final(deck)@),
    {
        let mut i: usize = 0;
        while i < 5 && self.0[i] != card
            invariant
                i <= 5,
                *self == *old(self),
                forall|j: int| 0 <= j < i ==> self@[j] != card,
            decreases 5 - i,
        {
            i += 1;
        }
        proof {
            old(self)@.index_of_first_ensures(card);
            let at = old(self)@.index_of_first(card).unwrap();
            assert(old(self)@.len() == 5);
            assert(self@[at] == card);
            if i < 5 {
                assert(self@[i as int] == card);
            }
            assert(i == at);
        }
        let drawn = deck.draw();
        self.0[i] = drawn;
    }

    /// The rank of the hand.
    pub fn rank(&self) -> (rank: Rank)
        requires
            self.wf(),
        ensures
            rank == rank_of(self@),
    {
        Rank::evaluate(self)
    }

    /// Five cards of one suit in a row from `start` on, going round after
    /// the king.
    pub fn straight(suit: Suit, start: u8) -> (hands: Hands)
        requires
            1 <= start <= 251,
        ensures
            hands.wf(),
            forall|i: int|
                0 <= i < 5 ==> #[trigger] hands@[i] == (Card {
                    suit,
                    number: wrap(start + i) as u8,
                }),
    {
        Hands(
            [
                card(suit, (start - 1) % 13 + 1),
                card(suit, start % 13 + 1),
                card(suit, (start + 1) % 13 + 1),
                card(suit, (start + 2) % 13 + 1),
                card(suit, (start + 3) % 13 + 1),
            ],
        )
    }

    /// Ace, two, three, four, five of one suit.
    pub fn wheel(suit: Suit) -> (hands: Hands)
        ensures
            hands.wf(),
            forall|i: int|
                0 <= i < 5 ==> #[trigger] hands@[i] == (Card { suit, number: (1 + i) as u8 }),
    {
        Hands::straight(suit, 1)
    }

    /// Ten, jack, queen, king, ace of one suit.
    pub fn royal(suit: Suit) -> (hands: Hands)
        ensures
            hands.wf(),
            forall|i: int|
                0 <= i < 5 ==> #[trigger] hands@[i] == (Card { suit, number: wrap(10 + i) as u8 }),
    {
        Hands::straight(suit, 10)
    }
}


/// What the player does with the hand before the showdown.
#[derive(Debug, PartialEq)]
pub enum DiscardAction {
    /// Keeps all cards.
    Stand,
    /// Gives up the cards at these places, counted from 0.
    Discard(Vec<usize>),
}

/// Mathematical value of a [`DiscardAction`].
pub enum DiscardView {
    Stand,
    Discard(Seq<usize>),
}

impl View for DiscardAction {
    type V = DiscardView;

    open spec fn view(&self) -> DiscardView {
        match self {
            DiscardAction::Stand => DiscardView::Stand,
            DiscardAction::Discard(places) => DiscardView::Discard(places@),
        }
    }
}

/// Index of the first character at or after `i` that is white space.
pub open spec fn item_end(line: Seq<char>, i: int) -> int
    decreases line.len() - i,
{
    if 0 <= i < line.len() && !is_space(line[i]) {
        item_end(line, i + 1)
    } else {
        i
    }
}

/// Whether all of `line[from..to]` are decimal digits.
pub open spec fn all_digits(line: Seq<char>, from: int, to: int) -> bool {
    forall|k: int| from <= k < to ==> is_digit(#[trigger] line[k])
}

/// The place that the item `line[from..to]` names: the item is a decimal
/// number from 1 to 12, with or without a `+` before it, and the place is
/// one less.
pub open spec fn place_of(line: Seq<char>, from: int, to: int) -> Option<usize> {
    let digits = if from < to && line[from] == '+' {
        from + 1
    } else {
        from
    };
    if digits < to && all_digits(line, digits, to) && 1 <= decimal_value(line, digits, to) < 13 {
        Some((decimal_value(line, digits, to) - 1) as usize)
    } else {
        None
    }
}

/// The places that the items of `line[i..]` name, in order. Items are
/// separated by white space; an item that names no place is passed over.
pub open spec fn places_from(line: Seq<char>, i: int) -> Seq<usize>
    decreases line.len() - i,
{
    let start = skip_spaces(line, i);
    if !(0 <= i <= start < line.len()) {
        Seq::empty()
    } else {
        let end = item_end(line, start + 1);
        if start < end <= line.len() {
            match place_of(line, start, end) {
                Some(place) => seq![place] + places_from(line, end),
                None => places_from(line, end),
            }
        } else {
            Seq::empty()
        }
    }
}

/// What a line of input asks for: an empty line is to stand, any other
/// line names the places to give up.
pub open spec fn discard_of(line: Seq<char>) -> DiscardView {
    if line == seq!['\n'] {
        DiscardView::Stand
    } else {
        DiscardView::Discard(places_from(line, 0))
    }
}

proof fn lemma_item_end_bounds(line: Seq<char>, i: int)
    requires
        0 <= i <= line.len(),
    ensures
        i <= item_end(line, i) <= line.len(),
    decreases line.len() - i,
{
    if i < line.len() && !is_space(line[i]) {
        lemma_item_end_bounds(line, i + 1);
    }
}

/// Reads the place that the item `line[from..to]` names.
fn read_place(line: &Vec<char>, from: usize, to: usize) -> (place: Option<usize>)
    requires
        from < to <= line.len(),
    ensures
        place == place_of(line@, from as int, to as int),
{
    let digits = if line[from] == '+' {
        from + 1
    } else {
        from
    };
    if digits >= to {
        return None;
    }
    let mut value: usize = 0;
    let mut small = true;
    let mut k = digits;
    assert(decimal_value(line@, digits as int, digits as int) == 0);
    while k < to
        invariant
            from < to,
            digits <= k <= to <= line.len(),
            digits == (if line@[from as int] == '+' {
                from + 1
            } else {
                from as int
            }),
            all_digits(line@, digits as int, k as int),
            small ==> value == decimal_value(line@, digits as int, k as int) && value < 13,
            !small ==> decimal_value(line@, digits as int, k as int) >= 13,
        decreases to - k,
    {
        let c = line[k];
        if !is_digit_char(c) {
            assert(!all_digits(line@, digits as int, to as int));
            return None;
        }
        let d = digit_of(c) as usize;
        if small && value * 10 + d < 13 {
            value = value * 10 + d;
        } else {
            small = false;
        }
        k += 1;
    }
    if small && value >= 1 {
        Some(value - 1)
    } else {
        None
    }
}

/// Reads what a line of input asks for.
pub fn parse_discard(input: &str) -> (action: DiscardAction)
    ensures
        action@ == discard_of(input@),
{
    let line = chars_of(input);
    if line.len() == 1 && line[0] == '\n' {
        assert(line@ == seq!['\n']);
        return DiscardAction::Stand;
    }
    let mut places: Vec<usize> = Vec::new();
    let mut i: usize = 0;
    assert(Seq::<usize>::empty() + places_from(line@, 0) == places_from(line@, 0));
    loop
        invariant
            0 <= i <= line.len(),
            line@ == input@,
            places_from(line@, 0) == places@ + places_from(line@, i as int),
        ensures
            places@ == places_from(line@, 0),
        decreases line.len() - i,
    {
        proof {
            lemma_skip_spaces_bounds(line@, i as int);
        }
        let ghost at = i as int;
        while i < line.len() && is_space_char(line[i])
            invariant
                at <= i <= line.len(),
                skip_spaces(line@, at) == skip_spaces(line@, i as int),
            decreases line.len() - i,
        {
            i += 1;
        }
        if i >= line.len() {
            assert(places@ + Seq::<usize>::empty() == places@);
            break ;
        }
        let start = i;
        i += 1;
        proof {
            lemma_item_end_bounds(line@, start + 1);
        }
        while i < line.len() && !is_space_char(line[i])
            invariant
                start < i <= line.len(),
                item_end(line@, start + 1) == item_end(line@, i as int),
            decreases line.len() - i,
        {
            i += 1;
        }
        let ghost before = places@;
        let ghost rest = places_from(line@, i as int);
        match read_place(&line, start, i) {
            Some(place) => {
                places.push(place);
                assert(before + (seq![place] + rest) == before.push(place) + rest);
            },
            None => {},
        }
    }
    DiscardAction::Discard(places)
}

} // verus!
