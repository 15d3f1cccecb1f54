use parser::poker::card;
use parser::poker::parse_discard;
use parser::poker::DiscardAction;
use parser::poker::Card;
use parser::poker::Deck;
use parser::poker::Hands;
use parser::poker::Rank;
use parser::poker::Suit;
use parser::poker::Suit::{Clover, Diamond, Heart, Spade};

#[test]
fn straight() {
    let hands = Hands([card(Heart, 1), card(Spade, 2), card(Clover, 3), card(Diamond, 4), card(Heart, 5)]);
    assert_eq!(hands.rank(), Rank::Straight);
}

#[test]
fn straight_flush() {
    let hands = Hands::straight(Suit::Spade, 5);
    assert_eq!(hands.rank(), Rank::StraightFlush);
}

#[test]
fn royal_straight_flush() {
    let hands = Hands::royal(Suit::Diamond);
    assert_eq!(hands.rank(), Rank::RoyalStraightFlush);
}

#[test]
fn four_card() {
    let hands = Hands([card(Heart, 9), card(Spade, 9), card(Clover, 9), card(Diamond, 9), card(Heart, 2)]);
    assert_eq!(hands.rank(), Rank::FourCard);
}

#[test]
fn full_house() {
    let hands = Hands([card(Heart, 3), card(Spade, 3), card(Clover, 3), card(Diamond, 8), card(Heart, 8)]);
    assert_eq!(hands.rank(), Rank::FullHouse);
}

#[test]
fn flush() {
    let hands = Hands([card(Spade, 2), card(Spade, 6), card(Spade, 9), card(Spade, 11), card(Spade, 13)]);
    assert_eq!(hands.rank(), Rank::Flush);
}

#[test]
fn not_straight() {
    let hands = Hands([card(Heart, 1), card(Heart, 2), card(Heart, 3), card(Heart, 4), card(Heart, 6)]);
    let rank = hands.rank();

    assert_ne!(rank, Rank::Straight);
}

#[test]
fn straght_with_upper_a() {
    let hands = Hands::royal(Suit::Heart);
    let rank = hands.rank();

    assert_eq!(rank, Rank::RoyalStraightFlush);
}

#[test]
fn three_card() {
    let hands = Hands([card(Heart, 4), card(Spade, 4), card(Diamond, 4), card(Clover, 7), card(Heart, 9)]);
    assert_eq!(hands.rank(), Rank::ThreeCard);
}

#[test]
fn two_pair() {
    let hands = Hands([card(Heart, 5), card(Spade, 5), card(Diamond, 12), card(Clover, 12), card(Heart, 3)]);
    assert_eq!(hands.rank(), Rank::TwoPair);
}

#[test]
fn one_pair() {
    let hands = Hands([card(Heart, 5), card(Spade, 5), card(Diamond, 7), card(Clover, 9), card(Heart, 11)]);
    assert_eq!(hands.rank(), Rank::OnePair);
}

#[test]
fn high_card() {
    let hands = Hands([card(Heart, 2), card(Spade, 5), card(Diamond, 7), card(Clover, 9), card(Heart, 12)]);
    assert_eq!(hands.rank(), Rank::HighCard(12));
}

#[test]
fn wheel_is_ace_to_five() {
    let hands = Hands::wheel(Suit::Clover);
    assert_eq!(hands.0, [card(Clover, 1), card(Clover, 2), card(Clover, 3), card(Clover, 4), card(Clover, 5)]);
    assert_eq!(hands.rank(), Rank::StraightFlush);
}

#[test]
fn straight_goes_round_after_the_king() {
    let hands = Hands::straight(Suit::Heart, 11);
    assert_eq!(hands.0, [card(Heart, 11), card(Heart, 12), card(Heart, 13), card(Heart, 1), card(Heart, 2)]);
    assert_eq!(hands.rank(), Rank::Flush);
}

#[test]
fn not_straight_mixed_suits_is_high_card() {
    let hands = Hands([card(Heart, 1), card(Spade, 2), card(Heart, 3), card(Heart, 4), card(Heart, 6)]);
    assert_eq!(hands.rank(), Rank::HighCard(6));
}

#[test]
fn new_deck_holds_every_card_once() {
    let mut deck = Deck::new();
    let mut seen: Vec<Card> = Vec::new();
    for _ in 0..52 {
        let c = deck.draw();
        assert!(1 <= c.number && c.number <= 13);
        assert!(!seen.contains(&c));
        seen.push(c);
    }
    for suit in [Clover, Diamond, Heart, Spade] {
        for number in 1..=13u8 {
            assert!(seen.contains(&card(suit, number)));
        }
    }
}

#[test]
fn hand_is_drawn_from_the_end_of_the_deck() {
    let mut deck = Deck::new();
    let hands = Hands::new_from_deck(&mut deck);
    let mut rest: Vec<Card> = Vec::new();
    for _ in 0..47 {
        rest.push(deck.draw());
    }
    for c in hands.0.iter() {
        assert!(!rest.contains(c));
    }
}

#[test]
fn exchange_replaces_the_named_card() {
    let mut deck = Deck::new();
    let mut hands = Hands::new_from_deck(&mut deck);
    let before = hands.0;
    let out = before[2];
    hands.exchange(&mut deck, out);
    assert_eq!(hands.0[0], before[0]);
    assert_eq!(hands.0[1], before[1]);
    assert_ne!(hands.0[2], before[2]);
    assert_eq!(hands.0[3], before[3]);
    assert_eq!(hands.0[4], before[4]);
}

#[test]
fn a_new_deck_is_shuffled() {
    let mut sorted = true;
    for _ in 0..4 {
        let mut deck = Deck::new();
        assert_eq!(deck.len(), 52);
        let mut drawn: Vec<Card> = Vec::new();
        for _ in 0..52 {
            drawn.push(deck.draw());
        }
        assert_eq!(deck.len(), 0);
        drawn.reverse();
        let mut in_order: Vec<Card> = Vec::new();
        for number in 1..=13u8 {
            for suit in [Clover, Diamond, Heart, Spade] {
                in_order.push(card(suit, number));
            }
        }
        if drawn != in_order {
            sorted = false;
        }
    }
    assert!(!sorted);
}

#[test]
fn cards_are_shown_by_suit_and_number() {
    assert_eq!(card(Clover, 1).text(), "♣️A");
    assert_eq!(card(Diamond, 11).text(), "♦️J");
    assert_eq!(card(Heart, 12).text(), "❤️Q");
    assert_eq!(card(Spade, 13).text(), "♠️K");
    assert_eq!(card(Spade, 10).text(), "♠️10");
    assert_eq!(card(Heart, 2).text(), "❤️2");
    assert_eq!(
        Hands::wheel(Suit::Spade).text(),
        "1. ♠️A\n2. ♠️2\n3. ♠️3\n4. ♠️4\n5. ♠️5\n"
    );
}

#[test]
fn discard_reads_the_places_from_a_line() {
    assert_eq!(parse_discard("\n"), DiscardAction::Stand);
    assert_eq!(parse_discard(""), DiscardAction::Discard(vec![]));
    assert_eq!(parse_discard(" \n"), DiscardAction::Discard(vec![]));
    assert_eq!(parse_discard("1 3 5\n"), DiscardAction::Discard(vec![0, 2, 4]));
    assert_eq!(parse_discard("  2\t4  "), DiscardAction::Discard(vec![1, 3]));
    assert_eq!(parse_discard("0 13 12 x 1y -1 +2 007 99999999999999999999999 +\n"),
        DiscardAction::Discard(vec![11, 1, 6]));
    assert_eq!(parse_discard("3\u{3000}4"), DiscardAction::Discard(vec![2, 3]));
}
