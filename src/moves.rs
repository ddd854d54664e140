use vstd::prelude::*;
use crate::card::{Card, CardValue};
use crate::deck::{
    is_full_deck, lemma_full_deck_rearranged, lemma_pile_total_update, on_table, piles_view,
    same_card, PILE_COUNT,
};

verus! {

/// The pile the player draws from.
pub const STOCK: usize = 0;

/// The pile drawn cards land on.
pub const WASTE: usize = 1;

/// The card `depth` places down from the top (the top card is at depth 1), if
/// the pile is that deep and the card is face up.
pub open spec fn card_at_depth(pile: Seq<Card>, depth: int) -> Option<Card> {
    if 1 <= depth <= pile.len() && pile[pile.len() - depth].faceup {
        Some(pile[pile.len() - depth])
    } else {
        None
    }
}

/// A tableau pile takes a King when empty, and otherwise a card one rank
/// below its top card and of the other color.
pub open spec fn accepts_on_tableau(pile: Seq<Card>, card: Card) -> bool {
    if pile.len() == 0 {
        card.number == CardValue::K
    } else {
        pile.last().value == card.value + 1 && pile.last().color != card.color
    }
}

/// A foundation pile takes an Ace when empty, and otherwise the card one rank
/// above its top card in the same suit.
pub open spec fn accepts_on_foundation(pile: Seq<Card>, card: Card) -> bool {
    if pile.len() == 0 {
        card.number == CardValue::A
    } else {
        pile.last().value + 1 == card.value && pile.last().suit == card.suit
    }
}

/// The first pile in `from..to`, other than `source`, that takes `card`
/// (by the foundation rule when `foundation` holds, else by the tableau rule),
/// or 0 when none does.
pub open spec fn first_accepting(
    p: Seq<Seq<Card>>,
    card: Card,
    source: int,
    from: int,
    to: int,
    foundation: bool,
) -> int
    decreases to - from,
{
    if from >= to {
        0
    } else if from != source && (if foundation {
        accepts_on_foundation(p[from], card)
    } else {
        accepts_on_tableau(p[from], card)
    }) {
        from
    } else {
        first_accepting(p, card, source, from + 1, to, foundation)
    }
}

/// The first accepting pile lies in the range searched.
pub proof fn lemma_first_accepting_range(
    p: Seq<Seq<Card>>,
    card: Card,
    source: int,
    from: int,
    to: int,
    foundation: bool,
)
    requires
        0 < from,
    ensures
        first_accepting(p, card, source, from, to, foundation) == 0 || from <= first_accepting(
            p,
            card,
            source,
            from,
            to,
            foundation,
        ) < to && first_accepting(p, card, source, from, to, foundation) != source,
    decreases to - from,
{
    if from < to {
        lemma_first_accepting_range(p, card, source, from + 1, to, foundation);
    }
}

/// Where `card`, taken from pile `source`, goes: the first foundation that
/// takes it (only when the source is not itself a foundation), else the
/// first tableau pile that takes it, else 0 for nowhere.
pub open spec fn target_for(p: Seq<Seq<Card>>, card: Card, source: int) -> int {
    let f = if source < 9 {
        first_accepting(p, card, source, 9, 13, true)
    } else {
        0
    };
    if f != 0 {
        f
    } else {
        first_accepting(p, card, source, 2, 9, false)
    }
}

/// Every card of the pile turned face down.
pub open spec fn faces_down(pile: Seq<Card>) -> Seq<Card> {
    pile.map_values(|c: Card| c.with_face(false))
}

/// The pile with its top card, if any, turned face up.
pub open spec fn reveal_top(pile: Seq<Card>) -> Seq<Card> {
    if pile.len() == 0 {
        pile
    } else {
        pile.update(pile.len() - 1, pile.last().with_face(true))
    }
}

/// The table after one draw: the top stock card goes face up onto the waste;
/// when the stock is empty, the waste, reversed and face down, becomes the
/// stock instead.
pub open spec fn drawn(p: Seq<Seq<Card>>) -> Seq<Seq<Card>> {
    if p[0].len() == 0 {
        p.update(0, faces_down(p[1].reverse())).update(1, Seq::empty())
    } else {
        p.update(0, p[0].drop_last()).update(1, p[1].push(p[0].last().with_face(true)))
    }
}

/// The table after the top `quantity` cards of `source` move, in order, onto
/// `target`, and the new top of `source` is turned face up.
pub open spec fn moved(p: Seq<Seq<Card>>, source: int, target: int, quantity: int) -> Seq<
    Seq<Card>,
> {
    let src = p[source];
    let n = src.len() as int;
    let taken = p.update(source, reveal_top(src.subrange(0, n - quantity)));
    taken.update(target, taken[target] + src.subrange(n - quantity, n))
}

/// Drawing from an empty stock turns the waste's `n` cards into a stock of `n`
/// face-down cards in reverse order and empties the waste; drawing once more
/// puts exactly one card, the one first drawn onto that waste, back on the
/// waste face up.
pub proof fn lemma_recycle_then_draw(p: Seq<Seq<Card>>)
    requires
        p.len() == PILE_COUNT,
        p[STOCK as int].len() == 0,
    ensures
        drawn(p)[STOCK as int].len() == p[WASTE as int].len(),
        forall|i: int|
            0 <= i < p[WASTE as int].len() ==> #[trigger] drawn(p)[STOCK as int][i] == p[WASTE as int][p[WASTE as int].len() - 1 - i].with_face(false),
        forall|i: int| 0 <= i < p[WASTE as int].len() ==> !(#[trigger] drawn(p)[STOCK as int][i]).faceup,
        drawn(p)[WASTE as int].len() == 0,
        p[WASTE as int].len() > 0 ==> drawn(drawn(p))[WASTE as int] == seq![p[WASTE as int][0].with_face(true)],
        p[WASTE as int].len() > 0 ==> drawn(drawn(p))[STOCK as int] == drawn(p)[STOCK as int].drop_last(),
        forall|i: int| 2 <= i < PILE_COUNT ==> #[trigger] drawn(drawn(p))[i] == p[i],
{
    let q = drawn(p);
    let w = p[WASTE as int];
    if w.len() > 0 {
        assert(q[STOCK as int].last() == w[0].with_face(false));
        assert(drawn(q)[WASTE as int] =~= seq![w[0].with_face(true)]);
    }
}

/// Moving cards between two different piles keeps a whole deck on the table.
pub proof fn lemma_moved_full_deck(p: Seq<Seq<Card>>, source: int, target: int, quantity: int)
    requires
        is_full_deck(p),
        p.len() == PILE_COUNT,
        0 <= source < PILE_COUNT,
        0 <= target < PILE_COUNT,
        source != target,
        0 <= quantity <= p[source].len(),
    ensures
        is_full_deck(moved(p, source, target, quantity)),
{
    let q = moved(p, source, target, quantity);
    let n = p[source].len() as int;
    let m = p[target].len() as int;
    let cut = n - quantity;
    let to_old = |i: int, j: int|
        if i == target && j >= m {
            (source, cut + j - m)
        } else {
            (i, j)
        };
    let to_new = |a: int, b: int|
        if a == source && b >= cut {
            (target, m + b - cut)
        } else {
            (a, b)
        };
    let taken = p.update(source, reveal_top(p[source].subrange(0, cut)));
    lemma_pile_total_update(p, source, reveal_top(p[source].subrange(0, cut)));
    lemma_pile_total_update(taken, target, taken[target] + p[source].subrange(cut, n));
    assert forall|i: int, j: int| on_table(q, i, j) implies {
        let (a, b) = #[trigger] to_old(i, j);
        &&& on_table(p, a, b)
        &&& same_card(q[i][j], p[a][b])
        &&& to_new(a, b) == (i, j)
    } by {
        if i == source && j == cut - 1 {
            assert(q[i][j] == p[i][j].with_face(true));
        }
    }
    lemma_full_deck_rearranged(p, q, to_old, to_new);
}

/// A draw, or turning the waste back over, keeps a whole deck on the table.
pub proof fn lemma_drawn_full_deck(p: Seq<Seq<Card>>)
    requires
        is_full_deck(p),
        p.len() == PILE_COUNT,
    ensures
        is_full_deck(drawn(p)),
{
    let q = drawn(p);
    let n = p[0].len() as int;
    let w = p[1].len() as int;
    if n == 0 {
        let to_old = |i: int, j: int|
            if i == 0 {
                (1int, w - 1 - j)
            } else {
                (i, j)
            };
        let to_new = |a: int, b: int|
            if a == 1 {
                (0int, w - 1 - b)
            } else {
                (a, b)
            };
        let flipped = p.update(0, faces_down(p[1].reverse()));
        lemma_pile_total_update(p, 0, faces_down(p[1].reverse()));
        lemma_pile_total_update(flipped, 1, Seq::empty());
        lemma_full_deck_rearranged(p, q, to_old, to_new);
    } else {
        let to_old = |i: int, j: int|
            if i == 1 && j == w {
                (0int, n - 1)
            } else {
                (i, j)
            };
        let to_new = |a: int, b: int|
            if a == 0 && b == n - 1 {
                (1int, w)
            } else {
                (a, b)
            };
        let popped = p.update(0, p[0].drop_last());
        lemma_pile_total_update(p, 0, p[0].drop_last());
        lemma_pile_total_update(popped, 1, p[1].push(p[0].last().with_face(true)));
        lemma_full_deck_rearranged(p, q, to_old, to_new);
    }
}

/// Draws one card from the stock onto the waste, or turns the waste back into
/// the stock when the stock is empty.
pub fn get_hand(piles: &mut Vec<Vec<Card>>)
    requires
        old(piles)@.len() == PILE_COUNT,
    ensures
        final(piles)@.len() == PILE_COUNT,
        piles_view(final(piles)@) == drawn(piles_view(old(piles)@)),
{
    let ghost p = piles_view(piles@);
    if piles[STOCK].len() == 0 {
        let mut waste: Vec<Card> = Vec::new();
        piles.set_and_swap(WASTE, &mut waste);
        let ghost w = waste@;
        let n = waste.len();
        let mut reversed: Vec<Card> = Vec::with_capacity(n);
        while waste.len() > 0
            invariant
                n == w.len(),
                waste@.len() <= n,
                waste@ == w.subrange(0, waste@.len() as int),
                reversed@ == w.reverse().subrange(0, n - waste@.len()),
            decreases waste@.len(),
        {
            let c = waste.pop().unwrap();
            assert(c == w.reverse()[n - waste@.len() - 1]);
            reversed.push(c);
            assert(reversed@ =~= w.reverse().subrange(0, n - waste@.len()));
        }
        assert(reversed@ =~= w.reverse());
        hide_pile(&mut reversed);
        piles.set(STOCK, reversed);
        proof {
            assert(p[0] =~= Seq::<Card>::empty());
            assert(piles_view(piles@) =~= drawn(p));
        }
    } else {
        let mut stock: Vec<Card> = Vec::new();
        piles.set_and_swap(STOCK, &mut stock);
        let mut card = stock.pop().unwrap();
        card.show();
        piles.set(STOCK, stock);
        let mut waste: Vec<Card> = Vec::new();
        piles.set_and_swap(WASTE, &mut waste);
        waste.push(card);
        piles.set(WASTE, waste);
        proof {
            assert(piles_view(piles@) =~= drawn(p));
        }
    }
}

/// Turns every card of the pile face down.
pub fn hide_pile(pile: &mut Vec<Card>)
    ensures
        final(pile)@ == faces_down(old(pile)@),
{
    let ghost start = pile@;
    let n = pile.len();
    let mut i: usize = 0;
    while i < n
        invariant
            i <= n == pile@.len() == start.len(),
            forall|j: int| 0 <= j < i ==> pile@[j] == start[j].with_face(false),
            forall|j: int| i <= j < n ==> pile@[j] == start[j],
        decreases n - i,
    {
        let mut c = pile[i];
        c.face_down();
        pile.set(i, c);
        i = i + 1;
    }
    assert(pile@ =~= faces_down(start));
}

/// Moves the top `quantity` cards of `source` onto `target`, keeping their
/// order, and turns the new top of `source` face up. A foundation takes one
/// card at a time: a larger move onto one is refused and changes nothing.
pub fn move_card(piles: &mut Vec<Vec<Card>>, source: usize, target: usize, quantity: usize) -> (r:
    bool)
    requires
        old(piles)@.len() == PILE_COUNT,
        source < PILE_COUNT,
        target < PILE_COUNT,
        quantity <= old(piles)@[source as int]@.len(),
    ensures
        final(piles)@.len() == PILE_COUNT,
        r == !(target > 8 && quantity > 1),
        r ==> piles_view(final(piles)@) == moved(
            piles_view(old(piles)@),
            source as int,
            target as int,
            quantity as int,
        ),
        !r ==> final(piles)@ == old(piles)@,
{
    if target > 8 && quantity > 1 {
        return false;
    }
    let ghost p = piles_view(piles@);
    let mut src: Vec<Card> = Vec::new();
    piles.set_and_swap(source, &mut src);
    let ghost s = src@;
    let n = src.len();
    let mut cards: Vec<Card> = Vec::with_capacity(quantity);
    while cards.len() < quantity
        invariant
            quantity <= n == s.len(),
            src@ == s.subrange(0, n - cards@.len()),
            cards@ == s.reverse().subrange(0, cards@.len() as int),
            cards@.len() <= quantity,
        decreases quantity - cards@.len(),
    {
        let c = src.pop().unwrap();
        cards.push(c);
        assert(cards@ =~= s.reverse().subrange(0, cards@.len() as int));
    }
    let remaining = src.len();
    if remaining > 0 {
        let mut top = src[remaining - 1];
        top.show();
        src.set(remaining - 1, top);
    }
    assert(src@ =~= reveal_top(s.subrange(0, n - quantity)));
    piles.set(source, src);
    let ghost taken = piles_view(piles@);
    assert(taken =~= p.update(source as int, reveal_top(s.subrange(0, n - quantity))));
    let mut dst: Vec<Card> = Vec::new();
    piles.set_and_swap(target, &mut dst);
    let ghost d = dst@;
    while cards.len() > 0
        invariant
            quantity <= n == s.len(),
            cards@.len() <= quantity,
            cards@ == s.reverse().subrange(0, cards@.len() as int),
            dst@ == d + s.subrange(n - quantity, n - cards@.len()),
        decreases cards@.len(),
    {
        let c = cards.pop().unwrap();
        assert(c == s[n - cards@.len() - 1]);
        dst.push(c);
        assert(dst@ =~= d + s.subrange(n - quantity, n - cards@.len()));
    }
    piles.set(target, dst);
    proof {
        assert(d == taken[target as int]);
        assert(piles_view(piles@) =~= moved(p, source as int, target as int, quantity as int));
    }
    true
}

/// The card `pile_index` places down from the top of pile `piles_index`, if
/// the pile is that deep and the card is face up.
pub fn get_user_card(piles: &Vec<Vec<Card>>, piles_index: usize, pile_index: usize) -> (r: Option<
    Card,
>)
    requires
        piles_index < piles@.len(),
    ensures
        r == card_at_depth(piles@[piles_index as int]@, pile_index as int),
{
    let pile = &piles[piles_index];
    let size = pile.len();
    if size < pile_index || pile_index == 0 {
        return None;
    }
    let c = pile[size - pile_index];
    if c.is_faceup() {
        Some(c)
    } else {
        None
    }
}

/// The pile that `user_card`, taken from pile `piles_index`, should go to, or
/// 0 when no pile takes it.
pub fn valid_moves(piles: &Vec<Vec<Card>>, user_card: &Card, piles_index: usize) -> (r: usize)
    requires
        piles@.len() == PILE_COUNT,
    ensures
        r as int == target_for(piles_view(piles@), *user_card, piles_index as int),
        r < PILE_COUNT,
{
    let ghost p = piles_view(piles@);
    proof {
        lemma_first_accepting_range(p, *user_card, piles_index as int, 9, 13, true);
        lemma_first_accepting_range(p, *user_card, piles_index as int, 2, 9, false);
    }
    if piles_index < 9 {
        let mut i: usize = 9;
        while i < 13
            invariant
                9 <= i <= 13,
                piles_index < 9,
                piles@.len() == PILE_COUNT,
                p == piles_view(piles@),
                first_accepting(p, *user_card, piles_index as int, 9, 13, true) == first_accepting(
                    p,
                    *user_card,
                    piles_index as int,
                    i as int,
                    13,
                    true,
                ),
            decreases 13 - i,
        {
            assert(p[i as int] == piles@[i as int]@);
            if i != piles_index && valid_move_foundations(user_card, &piles[i]) {
                assert(first_accepting(p, *user_card, piles_index as int, i as int, 13, true)
                    == i as int);
                return i;
            }
            i = i + 1;
        }
    }
    let mut i: usize = 2;
    while i < 9
        invariant
            2 <= i <= 9,
            piles@.len() == PILE_COUNT,
            p == piles_view(piles@),
            target_for(p, *user_card, piles_index as int) == first_accepting(
                p,
                *user_card,
                piles_index as int,
                i as int,
                9,
                false,
            ),
        decreases 9 - i,
    {
        assert(p[i as int] == piles@[i as int]@);
        if i != piles_index && valid_move_tableau(user_card, &piles[i]) {
            return i;
        }
        i = i + 1;
    }
    0
}

/// Whether the tableau pile takes `card`.
pub fn valid_move_tableau(card: &Card, pile: &Vec<Card>) -> (r: bool)
    ensures
        r == accepts_on_tableau(pile@, *card),
{
    let size = pile.len();
    if size == 0 {
        return match card.get_card_value() {
            CardValue::K => true,
            _ => false,
        };
    }
    let last_card = &pile[size - 1];
    last_card.get_value() as u16 == card.get_value() as u16 + 1 && last_card.get_card_color()
        != card.get_card_color()
}

/// Whether the foundation pile takes `card`.
pub fn valid_move_foundations(card: &Card, pile: &Vec<Card>) -> (r: bool)
    ensures
        r == accepts_on_foundation(pile@, *card),
{
    let size = pile.len();
    if size == 0 {
        return match card.get_card_value() {
            CardValue::A => true,
            _ => false,
        };
    }
    let last_card = &pile[size - 1];
    last_card.get_value() as u16 + 1 == card.get_value() as u16 && last_card.get_card_suit()
        == card.get_card_suit()
}

} // verus!
