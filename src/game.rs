use vstd::prelude::*;
use crate::card::Card;
use crate::deck::{dealt, is_full_deck, piles_view, set_up, PILE_COUNT};
use crate::history::{History, HistoryView};
use crate::logger::{piles_to_log, piles_to_text, ranks_valid, table_text};
use crate::moves::{
    card_at_depth, drawn, get_hand, get_user_card, lemma_drawn_full_deck,
    lemma_first_accepting_range, lemma_moved_full_deck, move_card, moved, target_for, valid_moves,
};

verus! {

/// Every foundation holds a whole suit.
pub open spec fn all_foundations_full(p: Seq<Seq<Card>>) -> bool {
    forall|f: int| 9 <= f < 13 ==> #[trigger] p[f].len() == 13
}

/// The move that a selection of pile `s` makes, trying runs of depth `d`,
/// `d + 1`, ... from the top: the target pile and the number of cards moved,
/// or `None` when there is no move. Waste and foundation piles only ever offer
/// their top card; a foundation takes a single card only.
pub open spec fn search(p: Seq<Seq<Card>>, s: int, d: int) -> Option<(int, int)>
    decreases p[s].len() + 1 - d,
{
    if d < 1 || d > p[s].len() {
        None
    } else {
        match card_at_depth(p[s], d) {
            None => None,
            Some(c) => {
                let t = target_for(p, c, s);
                if t == 0 {
                    if s == 1 || s > 8 {
                        None
                    } else {
                        search(p, s, d + 1)
                    }
                } else if t > 8 && d > 1 {
                    search(p, s, d + 1)
                } else {
                    Some((t, d))
                }
            },
        }
    }
}

/// A move that the search finds takes a run that the source pile holds onto
/// another pile.
pub proof fn lemma_search_finds_real_move(p: Seq<Seq<Card>>, s: int, d: int)
    requires
        p.len() == PILE_COUNT,
        0 <= s < PILE_COUNT,
    ensures
        search(p, s, d) matches Some((t, depth)) ==> 1 <= depth <= p[s].len() && 0 <= t
            < PILE_COUNT && t != s,
    decreases p[s].len() + 1 - d,
{
    if 1 <= d <= p[s].len() {
        if let Some(c) = card_at_depth(p[s], d) {
            lemma_first_accepting_range(p, c, s, 9, 13, true);
            lemma_first_accepting_range(p, c, s, 2, 9, false);
            lemma_search_finds_real_move(p, s, d + 1);
        }
    }
}

/// The table after the player selects pile `s`, and whether anything moved.
pub open spec fn after_selection(p: Seq<Seq<Card>>, s: int) -> (Seq<Seq<Card>>, bool) {
    match search(p, s, 1) {
        None => (p, false),
        Some((t, d)) => (moved(p, s, t, d), true),
    }
}

/// Whether all four foundations hold thirteen cards each.
pub fn game_over(piles: &Vec<Vec<Card>>) -> (r: bool)
    requires
        piles@.len() == PILE_COUNT,
    ensures
        r == all_foundations_full(piles_view(piles@)),
{
    let ghost p = piles_view(piles@);
    let mut i: usize = 9;
    while i < 13
        invariant
            9 <= i <= 13,
            piles@.len() == PILE_COUNT,
            p == piles_view(piles@),
            forall|f: int| 9 <= f < i ==> #[trigger] p[f].len() == 13,
        decreases 13 - i,
    {
        assert(p[i as int] == piles@[i as int]@);
        if piles[i].len() != 13 {
            return false;
        }
        i = i + 1;
    }
    true
}

/// Moves cards from pile `piles_index` to where they fit, trying the top card
/// first and then ever deeper runs of face-up cards. Returns whether a move
/// was made; when none was, the table is unchanged.
pub fn user_move(piles: &mut Vec<Vec<Card>>, piles_index: usize) -> (r: bool)
    requires
        old(piles)@.len() == PILE_COUNT,
        piles_index < PILE_COUNT,
    ensures
        final(piles)@.len() == PILE_COUNT,
        (piles_view(final(piles)@), r) == after_selection(piles_view(old(piles)@), piles_index as int),
{
    let ghost p = piles_view(piles@);
    let mut pile_index: usize = 1;
    loop
        invariant
            1 <= pile_index,
            piles@.len() == PILE_COUNT,
            piles_index < PILE_COUNT,
            p == piles_view(piles@),
            p == piles_view(old(piles)@),
            search(p, piles_index as int, 1) == search(p, piles_index as int, pile_index as int),
        decreases p[piles_index as int].len() + 1 - pile_index,
    {
        assert(p[piles_index as int] == piles@[piles_index as int]@);
        let height = piles[piles_index].len();
        match get_user_card(piles, piles_index, pile_index) {
            Some(c) => {
                assert(pile_index <= height);
                let target_pile = valid_moves(piles, &c, piles_index);
                if target_pile == 0 {
                    if piles_index == 1 || piles_index > 8 {
                        assert(search(p, piles_index as int, pile_index as int) is None);
                        assert(after_selection(p, piles_index as int) == (p, false));
                                return false;
                    }
                    if pile_index == height {
                        assert(search(p, piles_index as int, pile_index + 1) is None);
                        return false;
                    }
                    pile_index = pile_index + 1;
                    continue ;
                }
                if move_card(piles, piles_index, target_pile, pile_index) {
                    return true;
                }
                if pile_index == height {
                    assert(search(p, piles_index as int, pile_index + 1) is None);
                    return false;
                }
                pile_index = pile_index + 1;
            },
            None => {
                assert(search(p, piles_index as int, pile_index as int) is None);
                assert(after_selection(p, piles_index as int) == (p, false));
                return false;
            },
        }
    }
}

/// Makes the selection of pile `piles_index` and, when it moved cards,
/// records the new table in the history.
pub fn add_record(piles: &mut Vec<Vec<Card>>, piles_index: usize, record: &mut History) -> (r: bool)
    requires
        old(piles)@.len() == PILE_COUNT,
        piles_index < PILE_COUNT,
        old(record).inv(),
    ensures
        final(piles)@.len() == PILE_COUNT,
        final(record).inv(),
        (piles_view(final(piles)@), r) == after_selection(piles_view(old(piles)@), piles_index as int),
        r ==> final(record)@ == old(record)@.recorded(piles_view(final(piles)@)),
        !r ==> final(record)@ == old(record)@,
{
    let moved = user_move(piles, piles_index);
    if moved {
        record.record(piles);
    }
    moved
}

/// The name a player uses for each pile.
pub open spec fn pile_name(index: int) -> Seq<char> {
    if index == 0 {
        seq!['H', 'a', 'n', 'd']
    } else if index == 1 {
        seq!['W', 'a', 's', 't', 'e']
    } else if index == 2 {
        seq!['1']
    } else if index == 3 {
        seq!['2']
    } else if index == 4 {
        seq!['3']
    } else if index == 5 {
        seq!['4']
    } else if index == 6 {
        seq!['5']
    } else if index == 7 {
        seq!['6']
    } else if index == 8 {
        seq!['7']
    } else if index == 9 {
        seq!['q']
    } else if index == 10 {
        seq!['w']
    } else if index == 11 {
        seq!['e']
    } else {
        seq!['r']
    }
}

/// The name a player uses for pile `index`.
pub fn piles_index_to_str(index: usize) -> (r: String)
    requires
        index < PILE_COUNT,
    ensures
        r@ == pile_name(index as int),
{
    let name: &str = if index == 0 {
        "Hand"
    } else if index == 1 {
        "Waste"
    } else if index == 2 {
        "1"
    } else if index == 3 {
        "2"
    } else if index == 4 {
        "3"
    } else if index == 5 {
        "4"
    } else if index == 6 {
        "5"
    } else if index == 7 {
        "6"
    } else if index == 8 {
        "7"
    } else if index == 9 {
        "q"
    } else if index == 10 {
        "w"
    } else if index == 11 {
        "e"
    } else {
        "r"
    };
    proof {
        reveal_strlit("Hand");
        reveal_strlit("Waste");
        reveal_strlit("1");
        reveal_strlit("2");
        reveal_strlit("3");
        reveal_strlit("4");
        reveal_strlit("5");
        reveal_strlit("6");
        reveal_strlit("7");
        reveal_strlit("q");
        reveal_strlit("w");
        reveal_strlit("e");
        reveal_strlit("r");
    }
    let r = name.to_owned();
    proof {
        assert(r@ =~= pile_name(index as int));
    }
    r
}

/// What the player asks for.
#[derive(Debug, Copy, Clone, PartialEq, Eq, Structural)]
pub enum Command {
    /// Move cards from the pile with this index to wherever they fit.
    Select(usize),
    /// Draw from the stock, or turn the waste back over.
    Draw,
    Undo,
    Redo,
    NewGame,
    Quit,
    /// A key that means nothing.
    Unknown,
}

/// What came of a command.
#[derive(Debug, Copy, Clone, PartialEq, Eq, Structural)]
pub enum Outcome {
    Moved,
    NoMove,
    Drew,
    Undone,
    NothingToUndo,
    Redone,
    NothingToRedo,
    NewGame,
    Quit,
    Unknown,
}

/// The command bound to a key: `h` for the waste, `1` to `7` for the tableau
/// piles, `q`, `w`, `e`, `r` for the foundations, Enter (`\n` or `\r`) to draw,
/// `u`/`U` to undo, `i`/`I` to redo, `n`/`N` for a new game, Escape to quit.
pub open spec fn command_of(key: char) -> Command {
    if key == 'h' {
        Command::Select(1)
    } else if '1' <= key <= '7' {
        Command::Select((key as u32 - '1' as u32 + 2) as usize)
    } else if key == 'q' {
        Command::Select(9)
    } else if key == 'w' {
        Command::Select(10)
    } else if key == 'e' {
        Command::Select(11)
    } else if key == 'r' {
        Command::Select(12)
    } else if key == '\n' || key == '\r' {
        Command::Draw
    } else if key == 'u' || key == 'U' {
        Command::Undo
    } else if key == 'i' || key == 'I' {
        Command::Redo
    } else if key == 'n' || key == 'N' {
        Command::NewGame
    } else if key == '\u{1b}' {
        Command::Quit
    } else {
        Command::Unknown
    }
}

/// The command bound to a key.
pub fn command_for_key(key: char) -> (r: Command)
    ensures
        r == command_of(key),
{
    if key == 'h' {
        Command::Select(1)
    } else if '1' <= key && key <= '7' {
        Command::Select((key as u32 - '1' as u32 + 2) as usize)
    } else if key == 'q' {
        Command::Select(9)
    } else if key == 'w' {
        Command::Select(10)
    } else if key == 'e' {
        Command::Select(11)
    } else if key == 'r' {
        Command::Select(12)
    } else if key == '\n' || key == '\r' {
        Command::Draw
    } else if key == 'u' || key == 'U' {
        Command::Undo
    } else if key == 'i' || key == 'I' {
        Command::Redo
    } else if key == 'n' || key == 'N' {
        Command::NewGame
    } else if key == '\u{1b}' {
        Command::Quit
    } else {
        Command::Unknown
    }
}

/// One game: the table and its history.
pub struct Game {
    pub piles: Vec<Vec<Card>>,
    pub history: History,
}

impl Game {
    /// The table and every snapshot have their thirteen piles and hold a whole
    /// deck, each card exactly once, and the history's cursor is on a snapshot.
    pub open spec fn wf(&self) -> bool {
        &&& self.piles@.len() == PILE_COUNT
        &&& is_full_deck(piles_view(self.piles@))
        &&& self.history.inv()
        &&& forall|i: int|
            0 <= i < self.history@.snapshots.len() ==> (#[trigger] self.history@.snapshots[i]).len()
                == PILE_COUNT && is_full_deck(self.history@.snapshots[i])
    }

    /// Deals game number `seed` and records the opening table.
    pub fn new(seed: u64) -> (r: Game)
        ensures
            r.wf(),
            piles_view(r.piles@) == dealt(seed),
            is_full_deck(piles_view(r.piles@)),
            r.history@ == (HistoryView { snapshots: seq![dealt(seed)], cursor: 0 }),
    {
        let piles = set_up(seed);
        let history = History::new(&piles);
        let r = Game { piles, history };
        assert(piles_view(r.piles@).len() == r.piles@.len());
        r
    }

    /// The table as a player sees it, face-down cards as `XXX`.
    pub fn to_text(&self) -> (r: String)
        requires
            self.wf(),
        ensures
            r@ == table_text(piles_view(self.piles@), true),
    {
        proof {
            assert(ranks_valid(piles_view(self.piles@)));
        }
        piles_to_text(&self.piles)
    }

    /// The table as the game log records it, every card written out.
    pub fn to_log(&self) -> (r: String)
        requires
            self.wf(),
        ensures
            r@ == table_text(piles_view(self.piles@), false),
    {
        proof {
            assert(ranks_valid(piles_view(self.piles@)));
        }
        piles_to_log(&self.piles)
    }

    /// Whether every foundation is complete.
    pub fn is_over(&self) -> (r: bool)
        requires
            self.wf(),
        ensures
            r == all_foundations_full(piles_view(self.piles@)),
    {
        game_over(&self.piles)
    }

    /// Carries out one command. A move that changes the table, and every
    /// draw, is recorded; undo and redo put back the table of the snapshot they reach;
    /// every other command changes nothing and is handed back for the caller
    /// to act on.
    pub fn step(&mut self, command: Command) -> (r: Outcome)
        requires
            old(self).wf(),
        ensures
            final(self).wf(),
            ({
                let p = piles_view(old(self).piles@);
                let h = old(self).history@;
                let q = piles_view(final(self).piles@);
                let g = final(self).history@;
                match command {
                    Command::Select(i) => if i < PILE_COUNT {
                        &&& (q, r == Outcome::Moved) == after_selection(p, i as int)
                        &&& (r == Outcome::Moved || r == Outcome::NoMove)
                        &&& r == Outcome::Moved ==> g == h.recorded(q)
                        &&& r == Outcome::NoMove ==> g == h
                    } else {
                        q == p && g == h && r == Outcome::Unknown
                    },
                    Command::Draw => q == drawn(p) && g == h.recorded(q) && r == Outcome::Drew,
                    Command::Undo => if h.can_undo() {
                        g == h.undone() && q == g.current() && r == Outcome::Undone
                    } else {
                        q == p && g == h && r == Outcome::NothingToUndo
                    },
                    Command::Redo => if h.can_redo() {
                        g == h.redone() && q == g.current() && r == Outcome::Redone
                    } else {
                        q == p && g == h && r == Outcome::NothingToRedo
                    },
                    Command::NewGame => q == p && g == h && r == Outcome::NewGame,
                    Command::Quit => q == p && g == h && r == Outcome::Quit,
                    Command::Unknown => q == p && g == h && r == Outcome::Unknown,
                }
            }),
    {
        let ghost h0 = self.history@;
        proof {
            self.history.lemma_inv_wf();
        }
        match command {
            Command::Select(i) => {
                if i >= PILE_COUNT {
                    return Outcome::Unknown;
                }
                let ghost p = piles_view(self.piles@);
                let moved = add_record(&mut self.piles, i, &mut self.history);
                proof {
                    lemma_search_finds_real_move(p, i as int, 1);
                    if let Some((t, d)) = search(p, i as int, 1) {
                        lemma_moved_full_deck(p, i as int, t, d);
                    }
                    assert(piles_view(self.piles@).len() == self.piles@.len());
                    if moved {
                        assert(forall|j: int|
                            0 <= j < self.history@.snapshots.len() - 1 ==> self.history@.snapshots[j]
                                == h0.snapshots[j]);
                    }
                }
                if moved {
                    Outcome::Moved
                } else {
                    Outcome::NoMove
                }
            },
            Command::Draw => {
                proof {
                    lemma_drawn_full_deck(piles_view(self.piles@));
                }
                get_hand(&mut self.piles);
                self.history.record(&self.piles);
                proof {
                    assert(piles_view(self.piles@).len() == self.piles@.len());
                    assert(forall|j: int|
                        0 <= j < self.history@.snapshots.len() - 1 ==> self.history@.snapshots[j]
                            == h0.snapshots[j]);
                }
                Outcome::Drew
            },
            Command::Undo => {
                match self.history.undo() {
                    Ok(snapshot) => {
                        proof {
                            self.history.lemma_inv_wf();
                            assert(piles_view(snapshot@).len() == snapshot@.len());
                        }
                        self.piles = snapshot;
                        Outcome::Undone
                    },
                    Err(_) => Outcome::NothingToUndo,
                }
            },
            Command::Redo => {
                match self.history.redo() {
                    Ok(snapshot) => {
                        proof {
                            self.history.lemma_inv_wf();
                            assert(piles_view(snapshot@).len() == snapshot@.len());
                        }
                        self.piles = snapshot;
                        Outcome::Redone
                    },
                    Err(_) => Outcome::NothingToRedo,
                }
            },
            Command::NewGame => Outcome::NewGame,
            Command::Quit => Outcome::Quit,
            Command::Unknown => Outcome::Unknown,
        }
    }
}

} // verus!
