use solitaire::card::{Card, CardColor, CardType, CardValue};

#[test]
fn new_card_derives_value_and_color() {
    let c = Card::new(CardType::Corazones, CardValue::A);
    assert_eq!(c.get_value(), 1);
    assert_eq!(c.get_card_color(), CardColor::Red);
    assert_eq!(c.get_card_suit(), CardType::Corazones);
    assert_eq!(c.get_card_value(), CardValue::A);
    assert!(!c.is_faceup());
    let k = Card::new(CardType::Espadas, CardValue::K);
    assert_eq!(k.get_value(), 13);
    assert_eq!(k.get_card_color(), CardColor::Black);
    let n = Card::new(CardType::Treboles, CardValue::N(7));
    assert_eq!(n.get_value(), 7);
    assert_eq!(n.get_card_color(), CardColor::Black);
    let z = Card::new(CardType::Diamantes, CardValue::Z);
    assert_eq!(z.get_value(), 10);
    assert_eq!(z.get_card_color(), CardColor::Red);
    assert_eq!(Card::new(CardType::Diamantes, CardValue::J).get_value(), 11);
    assert_eq!(Card::new(CardType::Diamantes, CardValue::Q).get_value(), 12);
}

#[test]
fn show_and_face_down_flip_only_the_face() {
    let mut c = Card::new(CardType::Espadas, CardValue::Q);
    c.show();
    assert!(c.is_faceup());
    assert_eq!(c.get_value(), 12);
    c.face_down();
    assert!(!c.is_faceup());
    assert_eq!(c.get_card_suit(), CardType::Espadas);
}

#[test]
fn labels_show_rank_suit_and_color() {
    let mut c = Card::new(CardType::Corazones, CardValue::Z);
    assert_eq!(c.label(), "XXX");
    c.show();
    assert_eq!(c.label(), "Z\u{2665}r");
    let mut s = Card::new(CardType::Espadas, CardValue::N(9));
    s.show();
    assert_eq!(s.label(), "9\u{2660}n");
    assert_eq!(CardValue::A.label(), "A");
    assert_eq!(CardValue::N(2).label(), "2");
    assert_eq!(CardType::Treboles.label(), "\u{2663}");
    assert_eq!(CardType::Diamantes.label(), "\u{2666}");
    assert_eq!(CardColor::Red.label(), "r");
    assert_eq!(CardColor::Black.label(), "n");
}

#[test]
fn log_appends_label_whatever_the_face() {
    let c = Card::new(CardType::Treboles, CardValue::J);
    let mut text = String::from(">");
    c.log(&mut text);
    assert_eq!(text, ">J\u{2663}n ");
}
