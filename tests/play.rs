use solitaire::card::{Card, CardType, CardValue};
use solitaire::deck::set_up;
use solitaire::game::{add_record, command_for_key, Command, Game, Outcome};
use solitaire::history::{History, HistoryError};
use solitaire::logger::{piles_to_log, piles_to_text};

#[test]
fn history_round_trip_restores_deal() {
    let mut game = Game::new(42);
    let dealt = game.piles.clone();
    for _ in 0..3 {
        assert_eq!(game.step(Command::Draw), Outcome::Drew);
    }
    let after = game.piles.clone();
    for _ in 0..3 {
        assert_eq!(game.step(Command::Undo), Outcome::Undone);
    }
    assert_eq!(game.piles, dealt);
    assert_eq!(game.step(Command::Undo), Outcome::NothingToUndo);
    for _ in 0..3 {
        assert_eq!(game.step(Command::Redo), Outcome::Redone);
    }
    assert_eq!(game.piles, after);
    assert_eq!(game.step(Command::Redo), Outcome::NothingToRedo);
}

#[test]
fn new_record_discards_redo() {
    let mut game = Game::new(7);
    for _ in 0..3 {
        game.step(Command::Draw);
    }
    game.step(Command::Undo);
    game.step(Command::Undo);
    assert_eq!(game.step(Command::Draw), Outcome::Drew);
    assert_eq!(game.step(Command::Redo), Outcome::NothingToRedo);
    assert_eq!(game.history.redo(), Err(HistoryError::AtNewestSnapshot));
    assert_eq!(game.history.len(), 3);
    assert_eq!(game.history.cursor(), 2);
}

#[test]
fn history_errors_at_both_ends() {
    let piles = set_up(3);
    let mut h = History::new(&piles);
    assert_eq!(h.undo(), Err(HistoryError::AtOldestSnapshot));
    assert_eq!(h.redo(), Err(HistoryError::AtNewestSnapshot));
    assert_eq!(h.current_state(), piles);
}

#[test]
fn snapshots_are_independent_copies() {
    let mut piles = set_up(3);
    let mut h = History::new(&piles);
    piles[0].clear();
    h.record(&piles);
    let mut back = h.undo().unwrap();
    assert_eq!(back, set_up(3));
    back[2].clear();
    assert_eq!(h.current_state(), set_up(3));
    assert_eq!(h.redo().unwrap(), piles);
}

#[test]
fn add_record_records_only_moves() {
    let mut piles = vec![Vec::new(); 13];
    let mut ace = Card::new(CardType::Espadas, CardValue::A);
    ace.show();
    piles[1] = vec![ace];
    let mut h = History::new(&piles);
    assert!(!add_record(&mut piles, 4, &mut h));
    assert_eq!(h.len(), 1);
    assert!(add_record(&mut piles, 1, &mut h));
    assert_eq!(h.len(), 2);
    assert_eq!(piles[9], vec![ace]);
}

#[test]
fn keys_map_to_commands() {
    assert_eq!(command_for_key('h'), Command::Select(1));
    assert_eq!(command_for_key('1'), Command::Select(2));
    assert_eq!(command_for_key('7'), Command::Select(8));
    assert_eq!(command_for_key('q'), Command::Select(9));
    assert_eq!(command_for_key('r'), Command::Select(12));
    assert_eq!(command_for_key('\n'), Command::Draw);
    assert_eq!(command_for_key('U'), Command::Undo);
    assert_eq!(command_for_key('i'), Command::Redo);
    assert_eq!(command_for_key('N'), Command::NewGame);
    assert_eq!(command_for_key('\u{1b}'), Command::Quit);
    assert_eq!(command_for_key('8'), Command::Unknown);
}

#[test]
fn select_out_of_range_is_unknown() {
    let mut game = Game::new(11);
    let before = game.piles.clone();
    assert_eq!(game.step(Command::Select(13)), Outcome::Unknown);
    assert_eq!(game.step(Command::Quit), Outcome::Quit);
    assert_eq!(game.piles, before);
    assert_eq!(game.history.len(), 1);
    assert!(!game.is_over());
}

#[test]
fn table_text_for_log_and_display() {
    let mut piles: Vec<Vec<Card>> = vec![Vec::new(); 13];
    let mut king = Card::new(CardType::Corazones, CardValue::K);
    king.show();
    piles[0] = vec![Card::new(CardType::Espadas, CardValue::N(4))];
    piles[2] = vec![Card::new(CardType::Treboles, CardValue::Z), king];
    piles[4] = vec![Card::new(CardType::Diamantes, CardValue::A)];
    assert_eq!(
        piles_to_log(&piles),
        "4\u{2660}n ___     ___ ___ ___ ___ \nZ\u{2663}n     A\u{2666}r                 \nK\u{2665}r                         "
    );
    assert_eq!(
        piles_to_text(&piles),
        "XXX ___     ___ ___ ___ ___ \nXXX     XXX                 \nK\u{2665}r                         "
    );
}

#[test]
fn game_text_hides_face_down_cards() {
    let game = Game::new(42);
    let text = game.to_text();
    let log = game.to_log();
    assert_eq!(text, piles_to_text(&game.piles));
    assert_eq!(log, piles_to_log(&game.piles));
    assert!(text.starts_with("XXX ___     ___ ___ ___ ___ \n"));
    assert!(!log.contains("XXX"));
    assert_eq!(text.matches('\n').count(), 7);
}
