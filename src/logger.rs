use vstd::prelude::*;
use crate::card::{Card, card_label, shown_label, valid_number};
use crate::deck::{largest_tableau, piles_view, tallest, PILE_COUNT};

verus! {

/// Every card on the table has a rank that a deck holds.
pub open spec fn ranks_valid(p: Seq<Seq<Card>>) -> bool {
    forall|i: int, j: int| 0 <= i < p.len() && 0 <= j < p[i].len() ==> valid_number(#[trigger] p[i][j].number)
}

/// A card and a space: the card as a player sees it when `shown` holds, else
/// its rank, suit and color whatever its face.
pub open spec fn cell_text(c: Card, shown: bool) -> Seq<char> {
    (if shown {
        shown_label(c)
    } else {
        card_label(c)
    }) + seq![' ']
}

/// The top card of a pile, or `___ ` for an empty one.
pub open spec fn last_text(pile: Seq<Card>, shown: bool) -> Seq<char> {
    if pile.len() == 0 {
        seq!['_', '_', '_', ' ']
    } else {
        cell_text(pile.last(), shown)
    }
}

/// The first line: stock and waste, a gap, then the four foundations.
pub open spec fn top_text(p: Seq<Seq<Card>>, shown: bool) -> Seq<char> {
    last_text(p[0], shown) + last_text(p[1], shown) + seq![' ', ' ', ' ', ' '] + last_text(p[9], shown)
        + last_text(p[10], shown) + last_text(p[11], shown) + last_text(p[12], shown)
}

/// Row `n` of the tableau piles before pile `i`: each one's card at height
/// `n`, or four spaces where the pile is lower.
pub open spec fn row_text(p: Seq<Seq<Card>>, n: int, i: int, shown: bool) -> Seq<char>
    decreases i,
{
    if i <= 2 {
        Seq::empty()
    } else {
        row_text(p, n, i - 1, shown) + if n < p[i - 1].len() {
            cell_text(p[i - 1][n], shown)
        } else {
            seq![' ', ' ', ' ', ' ']
        }
    }
}

/// The first `rows` rows of the tableau piles, each on a line of its own.
pub open spec fn rows_text(p: Seq<Seq<Card>>, rows: int, shown: bool) -> Seq<char>
    decreases rows,
{
    if rows <= 0 {
        Seq::empty()
    } else {
        rows_text(p, rows - 1, shown) + seq!['\n'] + row_text(p, rows - 1, 9, shown)
    }
}

/// The whole table as text.
pub open spec fn table_text(p: Seq<Seq<Card>>, shown: bool) -> Seq<char> {
    top_text(p, shown) + rows_text(p, tallest(p), shown)
}

/// Appends a card and a space, as `cell_text` writes them.
fn push_cell(c: &Card, text: &mut String, shown: bool)
    requires
        valid_number(c.number),
    ensures
        final(text)@ == old(text)@ + cell_text(*c, shown),
{
    if shown {
        text.append(c.label().as_str());
        proof {
            reveal_strlit(" ");
        }
        text.append(" ");
        assert(text@ =~= old(text)@ + cell_text(*c, shown));
    } else {
        c.log(text);
    }
}

/// The table as text, hiding face-down cards when `shown` holds.
fn table_to_text(piles: &Vec<Vec<Card>>, shown: bool) -> (r: String)
    requires
        piles@.len() == PILE_COUNT,
        ranks_valid(piles_view(piles@)),
    ensures
        r@ == table_text(piles_view(piles@), shown),
{
    let mut log_string = String::new();
    top_to_log(piles, &mut log_string, shown);
    let ghost p = piles_view(piles@);
    assert(p[0] == piles@[0]@ && p[1] == piles@[1]@ && p[9] == piles@[9]@ && p[10] == piles@[10]@
        && p[11] == piles@[11]@ && p[12] == piles@[12]@);
    assert(log_string@ =~= top_text(p, shown));
    let largest = largest_tableau(piles);
    tableaus_to_log(piles, largest, &mut log_string, shown);
    log_string
}

/// The table as it is written to the game log: every card's rank, suit and
/// color, whatever its face.
pub fn piles_to_log(piles: &Vec<Vec<Card>>) -> (r: String)
    requires
        piles@.len() == PILE_COUNT,
        ranks_valid(piles_view(piles@)),
    ensures
        r@ == table_text(piles_view(piles@), false),
{
    table_to_text(piles, false)
}

/// The table as a player sees it, face-down cards as `XXX`.
pub fn piles_to_text(piles: &Vec<Vec<Card>>) -> (r: String)
    requires
        piles@.len() == PILE_COUNT,
        ranks_valid(piles_view(piles@)),
    ensures
        r@ == table_text(piles_view(piles@), true),
{
    table_to_text(piles, true)
}

/// Appends the first line of the table.
fn top_to_log(piles: &Vec<Vec<Card>>, log_string: &mut String, shown: bool)
    requires
        piles@.len() == PILE_COUNT,
        ranks_valid(piles_view(piles@)),
    ensures
        final(log_string)@ == old(log_string)@ + last_text(piles@[0]@, shown) + last_text(
            piles@[1]@,
            shown,
        ) + seq![' ', ' ', ' ', ' '] + last_text(piles@[9]@, shown) + last_text(piles@[10]@, shown)
            + last_text(piles@[11]@, shown) + last_text(piles@[12]@, shown),
{
    last_to_log(piles, 0, log_string, shown);
    last_to_log(piles, 1, log_string, shown);
    proof {
        reveal_strlit("    ");
    }
    log_string.append("    ");
    last_to_log(piles, 9, log_string, shown);
    last_to_log(piles, 10, log_string, shown);
    last_to_log(piles, 11, log_string, shown);
    last_to_log(piles, 12, log_string, shown);
}

/// Appends the top card of pile `index`, or `___ ` when it is empty.
fn last_to_log(piles: &Vec<Vec<Card>>, index: usize, log_string: &mut String, shown: bool)
    requires
        index < piles@.len() == PILE_COUNT,
        ranks_valid(piles_view(piles@)),
    ensures
        final(log_string)@ == old(log_string)@ + last_text(piles@[index as int]@, shown),
{
    let pile = &piles[index];
    let size = pile.len();
    if size == 0 {
        proof {
            reveal_strlit("___ ");
        }
        log_string.append("___ ");
        assert(log_string@ =~= old(log_string)@ + last_text(piles@[index as int]@, shown));
        return ;
    }
    assert(piles_view(piles@)[index as int] == pile@);
    push_cell(&pile[size - 1], log_string, shown);
}

/// Appends the first `largest` rows of the tableau piles.
fn tableaus_to_log(piles: &Vec<Vec<Card>>, largest: usize, log_string: &mut String, shown: bool)
    requires
        piles@.len() == PILE_COUNT,
        ranks_valid(piles_view(piles@)),
    ensures
        final(log_string)@ == old(log_string)@ + rows_text(piles_view(piles@), largest as int, shown),
{
    let ghost p = piles_view(piles@);
    let ghost start = log_string@;
    let mut n: usize = 0;
    while n < largest
        invariant
            n <= largest,
            piles@.len() == PILE_COUNT,
            p == piles_view(piles@),
            ranks_valid(p),
            log_string@ == start + rows_text(p, n as int, shown),
        decreases largest - n,
    {
        proof {
            reveal_strlit("\n");
        }
        log_string.append("\n");
        let ghost line_start = log_string@;
        let mut i: usize = 2;
        while i < 9
            invariant
                2 <= i <= 9,
                n < largest,
                piles@.len() == PILE_COUNT,
                p == piles_view(piles@),
                ranks_valid(p),
                log_string@ == line_start + row_text(p, n as int, i as int, shown),
            decreases 9 - i,
        {
            let pile = &piles[i];
            assert(p[i as int] == pile@);
            if n < pile.len() {
                push_cell(&pile[n], log_string, shown);
            } else {
                proof {
                    reveal_strlit("    ");
                }
                log_string.append("    ");
            }
            assert(log_string@ =~= line_start + row_text(p, n as int, i + 1, shown));
            i = i + 1;
        }
        assert(log_string@ =~= start + rows_text(p, n + 1, shown));
        n = n + 1;
    }
}

} // verus!
