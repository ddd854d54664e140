use rand::seq::SliceRandom;
use rand::SeedableRng;
use solitaire::card::{Card, CardType, CardValue};
use solitaire::deck::{largest_tableau, load_suit, new_deck, set_up, shuffle_deck};
use solitaire::game::user_move;
use solitaire::moves::get_hand;

fn kind(c: &Card) -> usize {
    let suit = match c.get_card_suit() {
        CardType::Corazones => 0,
        CardType::Espadas => 1,
        CardType::Diamantes => 2,
        CardType::Treboles => 3,
    };
    suit * 13 + c.get_value() as usize - 1
}

fn shuffled_by_rand(seed: u64) -> Vec<Card> {
    let mut deck = new_deck();
    let mut rng = rand::rngs::StdRng::seed_from_u64(seed);
    deck.shuffle(&mut rng);
    deck
}

#[test]
fn new_deck_is_grouped_by_suit_ace_to_king() {
    let deck = new_deck();
    assert_eq!(deck.len(), 52);
    for (i, c) in deck.iter().enumerate() {
        assert_eq!(kind(c), i);
        assert!(!c.is_faceup());
    }
    assert_eq!(deck[0].get_card_value(), CardValue::A);
    assert_eq!(deck[12].get_card_value(), CardValue::K);
    assert_eq!(deck[13].get_card_suit(), CardType::Espadas);
    assert_eq!(deck[26].get_card_suit(), CardType::Diamantes);
    assert_eq!(deck[39].get_card_suit(), CardType::Treboles);
}

#[test]
fn load_suit_appends_thirteen_cards() {
    let mut deck = Vec::new();
    load_suit(&mut deck, CardType::Diamantes);
    assert_eq!(deck.len(), 13);
    assert_eq!(deck[1].get_card_value(), CardValue::N(2));
    assert_eq!(deck[9].get_card_value(), CardValue::Z);
}

#[test]
fn shuffle_deck_matches_rand_and_is_a_permutation() {
    let mut deck = new_deck();
    shuffle_deck(&mut deck, 7);
    assert_eq!(deck, shuffled_by_rand(7));
    assert_ne!(deck, new_deck());
    let mut kinds: Vec<usize> = deck.iter().map(kind).collect();
    kinds.sort();
    assert_eq!(kinds, (0..52).collect::<Vec<usize>>());
}

#[test]
fn deal_lays_out_stock_and_tableaus() {
    let piles = set_up(42);
    assert_eq!(piles.len(), 13);
    let sizes: Vec<usize> = piles.iter().map(|p| p.len()).collect();
    assert_eq!(sizes, vec![24, 0, 1, 2, 3, 4, 5, 6, 7, 0, 0, 0, 0]);
    let d = shuffled_by_rand(42);
    assert_eq!(piles[0], d[0..24].to_vec());
    let mut next = 52;
    for k in 1..8 {
        let pile = &piles[k + 1];
        for j in 0..k {
            next -= 1;
            let mut expected = d[next];
            if j == k - 1 {
                expected.show();
            }
            assert_eq!(pile[j], expected);
        }
    }
    assert_eq!(next, 24);
}

#[test]
fn deal_holds_each_card_once() {
    for seed in [1u64, 42, 999_999] {
        let piles = set_up(seed);
        let mut kinds: Vec<usize> = piles.iter().flatten().map(kind).collect();
        assert_eq!(kinds.len(), 52);
        kinds.sort();
        assert_eq!(kinds, (0..52).collect::<Vec<usize>>());
        for pile in &piles[2..9] {
            let (top, rest) = pile.split_last().unwrap();
            assert!(top.is_faceup());
            assert!(rest.iter().all(|c| !c.is_faceup()));
        }
        assert!(piles[0].iter().all(|c| !c.is_faceup()));
    }
}

#[test]
fn deal_is_deterministic() {
    assert_eq!(set_up(42), set_up(42));
    assert_eq!(set_up(123456), set_up(123456));
    assert_ne!(set_up(42)[2..9], set_up(43)[2..9]);
}

#[test]
fn largest_tableau_after_deal_is_seven() {
    let piles = set_up(5);
    assert_eq!(largest_tableau(&piles), 7);
}

#[test]
fn seed_42_draw_then_move_waste() {
    let mut piles = set_up(42);
    let d = shuffled_by_rand(42);
    get_hand(&mut piles);
    assert_eq!(piles[0], d[0..23].to_vec());
    let mut drawn = d[23];
    drawn.show();
    assert_eq!(piles[1], vec![drawn]);

    let before = piles.clone();
    let moved = user_move(&mut piles, 1);
    // Where the waste card belongs: an empty foundation for an Ace, else the
    // first tableau whose top is one rank higher and of the other color.
    let target = if drawn.get_card_value() == CardValue::A {
        Some(9)
    } else {
        (2..9).find(|&i| {
            let top = before[i].last().unwrap();
            top.get_value() == drawn.get_value() + 1
                && top.get_card_color() != drawn.get_card_color()
        })
    };
    match target {
        Some(t) => {
            assert!(moved);
            let mut expected = before.clone();
            expected[1].clear();
            expected[t].push(drawn);
            assert_eq!(piles, expected);
        }
        None => {
            assert!(!moved);
            assert_eq!(piles, before);
        }
    }
}
