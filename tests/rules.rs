use solitaire::card::{Card, CardType, CardValue};
use solitaire::game::{game_over, piles_index_to_str, user_move};
use solitaire::moves::{
    get_hand, get_user_card, hide_pile, move_card, valid_move_foundations, valid_move_tableau,
    valid_moves,
};

const SUITS: [CardType; 4] =
    [CardType::Corazones, CardType::Espadas, CardType::Treboles, CardType::Diamantes];

fn up(suit: CardType, number: CardValue) -> Card {
    let mut c = Card::new(suit, number);
    c.show();
    c
}

fn empty_table() -> Vec<Vec<Card>> {
    vec![Vec::new(); 13]
}

fn is_red(s: CardType) -> bool {
    matches!(s, CardType::Corazones | CardType::Diamantes)
}

#[test]
fn tableau_accepts_king_only_when_empty() {
    for s in SUITS {
        assert!(valid_move_tableau(&up(s, CardValue::K), &Vec::new()));
        assert!(!valid_move_tableau(&up(s, CardValue::Q), &Vec::new()));
        assert!(!valid_move_tableau(&up(s, CardValue::A), &Vec::new()));
    }
}

#[test]
fn tableau_wants_one_rank_lower_and_other_color() {
    for top_suit in SUITS {
        for card_suit in SUITS {
            let pile = vec![up(top_suit, CardValue::N(8))];
            let ok = is_red(top_suit) != is_red(card_suit);
            assert_eq!(valid_move_tableau(&up(card_suit, CardValue::N(7)), &pile), ok);
            assert!(!valid_move_tableau(&up(card_suit, CardValue::N(6)), &pile));
            assert!(!valid_move_tableau(&up(card_suit, CardValue::N(9)), &pile));
        }
    }
    let king = vec![up(CardType::Espadas, CardValue::K)];
    assert!(valid_move_tableau(&up(CardType::Corazones, CardValue::Q), &king));
    let two = vec![up(CardType::Espadas, CardValue::N(2))];
    assert!(valid_move_tableau(&up(CardType::Diamantes, CardValue::A), &two));
    let ace = vec![up(CardType::Espadas, CardValue::A)];
    assert!(!valid_move_tableau(&up(CardType::Diamantes, CardValue::K), &ace));
}

#[test]
fn foundation_accepts_ace_only_when_empty() {
    for s in SUITS {
        assert!(valid_move_foundations(&up(s, CardValue::A), &Vec::new()));
        assert!(!valid_move_foundations(&up(s, CardValue::N(2)), &Vec::new()));
        assert!(!valid_move_foundations(&up(s, CardValue::K), &Vec::new()));
    }
}

#[test]
fn foundation_wants_next_rank_of_same_suit() {
    let two_hearts = up(CardType::Corazones, CardValue::N(2));
    for s in SUITS {
        let pile = vec![up(s, CardValue::A)];
        assert_eq!(valid_move_foundations(&two_hearts, &pile), s == CardType::Corazones);
    }
    let queen = vec![up(CardType::Treboles, CardValue::Q)];
    assert!(valid_move_foundations(&up(CardType::Treboles, CardValue::K), &queen));
    assert!(!valid_move_foundations(&up(CardType::Treboles, CardValue::J), &queen));
    assert!(!valid_move_foundations(&up(CardType::Espadas, CardValue::K), &queen));
}

#[test]
fn draw_moves_top_stock_card_face_up() {
    let mut piles = empty_table();
    piles[0] = vec![Card::new(CardType::Espadas, CardValue::N(3)), Card::new(CardType::Corazones, CardValue::J)];
    get_hand(&mut piles);
    assert_eq!(piles[0], vec![Card::new(CardType::Espadas, CardValue::N(3))]);
    assert_eq!(piles[1], vec![up(CardType::Corazones, CardValue::J)]);
}

#[test]
fn recycle_reverses_waste_face_down_then_draws_one() {
    let mut piles = empty_table();
    let a = up(CardType::Corazones, CardValue::A);
    let b = up(CardType::Espadas, CardValue::N(5));
    let c = up(CardType::Diamantes, CardValue::K);
    piles[1] = vec![a, b, c];
    piles[4] = vec![up(CardType::Treboles, CardValue::N(4))];
    let tableau = piles[4].clone();
    get_hand(&mut piles);
    let mut expected: Vec<Card> = vec![c, b, a];
    for card in expected.iter_mut() {
        card.face_down();
    }
    assert_eq!(piles[0], expected);
    assert!(piles[1].is_empty());
    get_hand(&mut piles);
    assert_eq!(piles[0].len(), 2);
    assert_eq!(piles[1], vec![a]);
    assert_eq!(piles[4], tableau);
}

#[test]
fn recycle_of_empty_waste_leaves_both_empty() {
    let mut piles = empty_table();
    get_hand(&mut piles);
    assert!(piles[0].is_empty());
    assert!(piles[1].is_empty());
}

#[test]
fn hide_pile_turns_every_card_down() {
    let mut pile = vec![up(CardType::Corazones, CardValue::A), up(CardType::Espadas, CardValue::N(2))];
    hide_pile(&mut pile);
    assert!(pile.iter().all(|c| !c.is_faceup()));
    assert_eq!(pile[1].get_value(), 2);
}

#[test]
fn user_card_is_face_up_card_at_depth() {
    let mut piles = empty_table();
    piles[3] = vec![Card::new(CardType::Espadas, CardValue::N(9)), up(CardType::Corazones, CardValue::N(8)), up(CardType::Espadas, CardValue::N(7))];
    assert_eq!(get_user_card(&piles, 3, 1), Some(up(CardType::Espadas, CardValue::N(7))));
    assert_eq!(get_user_card(&piles, 3, 2), Some(up(CardType::Corazones, CardValue::N(8))));
    assert_eq!(get_user_card(&piles, 3, 3), None);
    assert_eq!(get_user_card(&piles, 3, 4), None);
    assert_eq!(get_user_card(&piles, 3, 0), None);
    assert_eq!(get_user_card(&piles, 5, 1), None);
}

#[test]
fn move_card_keeps_order_and_reveals_source() {
    let mut piles = empty_table();
    let hidden = Card::new(CardType::Treboles, CardValue::N(5));
    let eight = up(CardType::Corazones, CardValue::N(8));
    let seven = up(CardType::Espadas, CardValue::N(7));
    piles[2] = vec![hidden, eight, seven];
    piles[5] = vec![up(CardType::Treboles, CardValue::N(9))];
    assert!(move_card(&mut piles, 2, 5, 2));
    let mut revealed = hidden;
    revealed.show();
    assert_eq!(piles[2], vec![revealed]);
    assert_eq!(piles[5], vec![up(CardType::Treboles, CardValue::N(9)), eight, seven]);
}

#[test]
fn move_card_refuses_runs_onto_a_foundation() {
    let mut piles = empty_table();
    piles[2] = vec![up(CardType::Corazones, CardValue::N(2)), up(CardType::Corazones, CardValue::A)];
    let before = piles.clone();
    assert!(!move_card(&mut piles, 2, 9, 2));
    assert_eq!(piles, before);
    assert!(move_card(&mut piles, 2, 9, 1));
    assert_eq!(piles[9], vec![up(CardType::Corazones, CardValue::A)]);
}

#[test]
fn valid_moves_prefers_foundations_then_first_tableau() {
    let mut piles = empty_table();
    let ace = up(CardType::Espadas, CardValue::A);
    assert_eq!(valid_moves(&piles, &ace, 2), 9);
    assert_eq!(valid_moves(&piles, &ace, 9), 0);
    let king = up(CardType::Espadas, CardValue::K);
    assert_eq!(valid_moves(&piles, &king, 2), 3);
    piles[3] = vec![up(CardType::Diamantes, CardValue::N(4))];
    piles[6] = vec![up(CardType::Corazones, CardValue::N(4))];
    let three = up(CardType::Treboles, CardValue::N(3));
    assert_eq!(valid_moves(&piles, &three, 3), 6);
    for i in 2..9 {
        if piles[i].is_empty() {
            piles[i] = vec![up(CardType::Corazones, CardValue::A)];
        }
    }
    let lone = up(CardType::Treboles, CardValue::N(9));
    assert_eq!(valid_moves(&piles, &lone, 1), 0);
}

#[test]
fn user_move_tries_deeper_runs_on_tableaus() {
    let mut piles = empty_table();
    for i in 2..9 {
        piles[i] = vec![up(CardType::Corazones, CardValue::A)];
    }
    for f in 9..13 {
        piles[f] = vec![up(CardType::Treboles, CardValue::K)];
    }
    piles[2] = vec![Card::new(CardType::Treboles, CardValue::N(2)), up(CardType::Diamantes, CardValue::N(6)), up(CardType::Espadas, CardValue::N(5))];
    piles[7] = vec![up(CardType::Treboles, CardValue::N(7))];
    assert!(user_move(&mut piles, 2));
    let mut revealed = Card::new(CardType::Treboles, CardValue::N(2));
    revealed.show();
    assert_eq!(piles[2], vec![revealed]);
    assert_eq!(piles[7], vec![up(CardType::Treboles, CardValue::N(7)), up(CardType::Diamantes, CardValue::N(6)), up(CardType::Espadas, CardValue::N(5))]);
}

#[test]
fn user_move_without_target_changes_nothing() {
    let mut piles = empty_table();
    for i in 2..13 {
        piles[i] = vec![up(CardType::Corazones, CardValue::K)];
    }
    piles[1] = vec![up(CardType::Espadas, CardValue::N(5))];
    let before = piles.clone();
    assert!(!user_move(&mut piles, 1));
    assert_eq!(piles, before);
    assert!(!user_move(&mut piles, 0));
    assert_eq!(piles, before);
}

#[test]
fn user_move_puts_waste_ace_on_foundation() {
    let mut piles = empty_table();
    piles[1] = vec![up(CardType::Diamantes, CardValue::A)];
    assert!(user_move(&mut piles, 1));
    assert!(piles[1].is_empty());
    assert_eq!(piles[9], vec![up(CardType::Diamantes, CardValue::A)]);
}

#[test]
fn game_over_needs_four_full_foundations() {
    let mut piles = empty_table();
    let suits = [CardType::Espadas, CardType::Corazones, CardType::Diamantes, CardType::Treboles];
    for (f, s) in suits.iter().enumerate() {
        piles[9 + f] = solitaire::deck::new_deck()[0..13].iter().map(|c| {
            let mut c = Card::new(*s, c.get_card_value());
            c.show();
            c
        }).collect();
    }
    assert!(game_over(&piles));
    let last = piles[12].pop().unwrap();
    assert!(!game_over(&piles));
    piles[12].push(last);
    piles[10].pop();
    assert!(!game_over(&piles));
    assert!(!game_over(&empty_table()));
}

#[test]
fn pile_names() {
    let names: Vec<String> = (0..13).map(piles_index_to_str).collect();
    assert_eq!(names, vec!["Hand", "Waste", "1", "2", "3", "4", "5", "6", "7", "q", "w", "e", "r"]);
}
