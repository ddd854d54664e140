use vstd::prelude::*;
use crate::card::{Card, CardType, CardValue, color_of};

verus! {

/// The number of cards in a deck.
pub const DECK_SIZE: usize = 52;

/// The number of piles on the table: stock, waste, seven tableaus, four foundations.
pub const PILE_COUNT: usize = 13;

/// The contents of every pile, in table order.
pub open spec fn piles_view(piles: Seq<Vec<Card>>) -> Seq<Seq<Card>> {
    Seq::new(piles.len(), |i: int| piles[i]@)
}

/// The rank at position `r` (0 to 12) of a suit: Ace, two to nine, Ten, Jack, Queen, King.
pub open spec fn number_at(r: int) -> CardValue {
    if r == 0 {
        CardValue::A
    } else if r <= 8 {
        CardValue::N((r + 1) as u8)
    } else if r == 9 {
        CardValue::Z
    } else if r == 10 {
        CardValue::J
    } else if r == 11 {
        CardValue::Q
    } else {
        CardValue::K
    }
}

/// The face-down card of the given suit at position `r` of that suit.
pub open spec fn card_at(suit: CardType, r: int) -> Card {
    Card {
        suit,
        number: number_at(r),
        value: (r + 1) as u8,
        color: color_of(suit),
        faceup: false,
    }
}

/// One suit, Ace to King, face down.
pub open spec fn suit_cards(suit: CardType) -> Seq<Card> {
    Seq::new(13, |r: int| card_at(suit, r))
}

/// A fresh deck: hearts, spades, diamonds, clubs, each from Ace to King.
pub open spec fn fresh_deck() -> Seq<Card> {
    suit_cards(CardType::Corazones) + suit_cards(CardType::Espadas) + suit_cards(
        CardType::Diamantes,
    ) + suit_cards(CardType::Treboles)
}

/// What rand's `SliceRandom::shuffle`, driven by a `StdRng` seeded with `seed`,
/// leaves in a slice that held `order`.
pub uninterp spec fn shuffled(order: Seq<usize>, seed: u64) -> Seq<usize>;

/// The positions `0..n` in increasing order.
pub open spec fn identity_order(n: nat) -> Seq<usize> {
    Seq::new(n, |i: int| i as usize)
}

/// The order in which a deck of `n` cards is rearranged by a shuffle with `seed`:
/// position `i` of the shuffled deck holds the card that stood at `deal_order(n, seed)[i]`.
pub open spec fn deal_order(n: nat, seed: u64) -> Seq<usize> {
    shuffled(identity_order(n), seed)
}

/// `deck` rearranged by the shuffle with `seed`.
pub open spec fn permuted(deck: Seq<Card>, seed: u64) -> Seq<Card> {
    Seq::new(deck.len(), |i: int| deck[deal_order(deck.len(), seed)[i] as int])
}

/// `1 + 2 + ... + k`.
pub open spec fn tri(k: int) -> int
    decreases k,
{
    if k <= 0 {
        0
    } else {
        k + tri(k - 1)
    }
}

/// The values of `tri` that the deal uses.
pub proof fn lemma_tri_values()
    ensures
        tri(0) == 0,
        tri(1) == 1,
        tri(2) == 3,
        tri(3) == 6,
        tri(4) == 10,
        tri(5) == 15,
        tri(6) == 21,
        tri(7) == 28,
{
    reveal_with_fuel(tri, 8);
}

/// The tableau pile of `size` cards taken from the end of `d`: the last card of
/// `d` is at its bottom, and only the last card dealt is face up.
pub open spec fn dealt_run(d: Seq<Card>, size: int) -> Seq<Card> {
    Seq::new(
        size as nat,
        |j: int|
            if j == size - 1 {
                d[d.len() - 1 - j].with_face(true)
            } else {
                d[d.len() - 1 - j]
            },
    )
}

/// The `k`-th tableau pile (1 to 7) dealt from deck `d`, after the piles
/// before it have taken their cards.
pub open spec fn tableau_of(d: Seq<Card>, k: int) -> Seq<Card> {
    dealt_run(d.subrange(0, d.len() - tri(k - 1)), k)
}

/// The opening table dealt from the shuffled deck `d`: the 24 cards left over
/// form the stock, tableau piles of 1 to 7 cards, and an empty waste and
/// empty foundations.
pub open spec fn layout(d: Seq<Card>) -> Seq<Seq<Card>> {
    Seq::new(
        13,
        |i: int|
            if i == 0 {
                d.subrange(0, d.len() - 28)
            } else if 2 <= i <= 8 {
                tableau_of(d, i - 1)
            } else {
                Seq::empty()
            },
    )
}

/// The table dealt for game number `seed`.
pub open spec fn dealt(seed: u64) -> Seq<Seq<Card>> {
    layout(permuted(fresh_deck(), seed))
}

/// The number of cards on the table.
pub open spec fn pile_total(p: Seq<Seq<Card>>) -> int
    decreases p.len(),
{
    if p.len() == 0 {
        0
    } else {
        pile_total(p.drop_last()) + p.last().len()
    }
}

/// The table holds a whole deck: 52 well-formed cards, and each of the 52
/// (suit, rank) pairs exactly once.
pub open spec fn is_full_deck(p: Seq<Seq<Card>>) -> bool {
    &&& pile_total(p) == DECK_SIZE
    &&& forall|i: int, j: int|
        0 <= i < p.len() && 0 <= j < p[i].len() ==> (#[trigger] p[i][j]).wf() && 0 <= p[i][j].kind()
            < DECK_SIZE
    &&& forall|i1: int, j1: int, i2: int, j2: int|
        0 <= i1 < p.len() && 0 <= j1 < p[i1].len() && 0 <= i2 < p.len() && 0 <= j2 < p[i2].len()
            && (#[trigger] p[i1][j1]).kind() == (#[trigger] p[i2][j2]).kind() ==> i1 == i2 && j1
            == j2
    &&& forall|k: int| 0 <= k < DECK_SIZE ==> #[trigger] kind_present(p, k)
}

/// Some card on the table is of kind `k`.
pub open spec fn kind_present(p: Seq<Seq<Card>>, k: int) -> bool {
    exists|i: int, j: int| 0 <= i < p.len() && 0 <= j < p[i].len() && (#[trigger] p[i][j]).kind() == k
}

/// Replacing one pile changes the card count by the difference in height.
pub proof fn lemma_pile_total_update(p: Seq<Seq<Card>>, i: int, pile: Seq<Card>)
    requires
        0 <= i < p.len(),
    ensures
        pile_total(p.update(i, pile)) == pile_total(p) - p[i].len() + pile.len(),
    decreases p.len(),
{
    if i == p.len() - 1 {
        assert(p.update(i, pile).drop_last() =~= p.drop_last());
    } else {
        lemma_pile_total_update(p.drop_last(), i, pile);
        assert(p.update(i, pile).drop_last() =~= p.drop_last().update(i, pile));
    }
}

/// Position `(i, j)` names a card of table `p`.
pub open spec fn on_table(p: Seq<Seq<Card>>, i: int, j: int) -> bool {
    0 <= i < p.len() && 0 <= j < p[i].len()
}

/// The two cards differ at most in which way up they lie.
pub open spec fn same_card(a: Card, b: Card) -> bool {
    a.with_face(false) == b.with_face(false)
}

/// A table whose cards are those of a whole deck, moved about and turned
/// over, is a whole deck: `to_old` and `to_new` pair each position of the new
/// table with the position of the same card on the old one.
pub proof fn lemma_full_deck_rearranged(
    p: Seq<Seq<Card>>,
    q: Seq<Seq<Card>>,
    to_old: spec_fn(int, int) -> (int, int),
    to_new: spec_fn(int, int) -> (int, int),
)
    requires
        is_full_deck(p),
        pile_total(q) == pile_total(p),
        forall|i: int, j: int|
            on_table(q, i, j) ==> {
                let (a, b) = #[trigger] to_old(i, j);
                &&& on_table(p, a, b)
                &&& same_card(q[i][j], p[a][b])
                &&& to_new(a, b) == (i, j)
            },
        forall|a: int, b: int|
            on_table(p, a, b) ==> {
                let (i, j) = #[trigger] to_new(a, b);
                &&& on_table(q, i, j)
                &&& to_old(i, j) == (a, b)
            },
    ensures
        is_full_deck(q),
{
    assert forall|i: int, j: int| on_table(q, i, j) implies (#[trigger] q[i][j]).wf() && 0
        <= q[i][j].kind() < DECK_SIZE && q[i][j].kind() == p[to_old(i, j).0][to_old(i, j).1].kind() by {
        let (a, b) = to_old(i, j);
        assert(same_card(q[i][j], p[a][b]));
        assert(p[a][b].wf());
    }
    assert forall|i1: int, j1: int, i2: int, j2: int|
        on_table(q, i1, j1) && on_table(q, i2, j2) && (#[trigger] q[i1][j1]).kind()
            == (#[trigger] q[i2][j2]).kind() implies i1 == i2 && j1 == j2 by {
        let (a1, b1) = to_old(i1, j1);
        let (a2, b2) = to_old(i2, j2);
        assert(p[a1][b1].kind() == p[a2][b2].kind());
        assert(a1 == a2 && b1 == b2);
        assert(to_new(a1, b1) == (i1, j1));
        assert(to_new(a2, b2) == (i2, j2));
    }
    assert forall|k: int| 0 <= k < DECK_SIZE implies #[trigger] kind_present(q, k) by {
        assert(kind_present(p, k));
        let (a, b) = choose|a: int, b: int|
            0 <= a < p.len() && 0 <= b < p[a].len() && (#[trigger] p[a][b]).kind() == k;
        let (i, j) = to_new(a, b);
        assert(on_table(q, i, j));
        assert(to_old(i, j) == (a, b));
        assert(q[i][j].kind() == k);
    }
}

/// Card `m` of a fresh deck is well formed, face down, and of kind `m`.
proof fn lemma_fresh_deck()
    ensures
        fresh_deck().len() == DECK_SIZE,
        forall|m: int|
            0 <= m < DECK_SIZE ==> (#[trigger] fresh_deck()[m]).wf() && fresh_deck()[m].kind() == m
                && !fresh_deck()[m].faceup,
{
    assert forall|m: int| 0 <= m < DECK_SIZE implies (#[trigger] fresh_deck()[m]).wf()
        && fresh_deck()[m].kind() == m && !fresh_deck()[m].faceup by {
        let (suit, r) = if m < 13 {
            (CardType::Corazones, m)
        } else if m < 26 {
            (CardType::Espadas, m - 13)
        } else if m < 39 {
            (CardType::Diamantes, m - 26)
        } else {
            (CardType::Treboles, m - 39)
        };
        assert(fresh_deck()[m] == card_at(suit, r));
    }
}

/// Where the card at position `j` of pile `i` of the opening table stood in
/// the shuffled deck.
pub open spec fn deck_position(i: int, j: int) -> int {
    if i == 0 {
        j
    } else {
        DECK_SIZE - 1 - tri(i - 2) - j
    }
}

/// The opening table holds a whole deck whenever the shuffle rearranged the
/// positions `0..52` without losing or repeating one.
proof fn lemma_dealt_full_deck(seed: u64)
    requires
        deal_order(DECK_SIZE as nat, seed).to_multiset() == identity_order(
            DECK_SIZE as nat,
        ).to_multiset(),
    ensures
        is_full_deck(dealt(seed)),
{
    broadcast use vstd::seq_lib::group_to_multiset_ensures;

    let o = deal_order(DECK_SIZE as nat, seed);
    let ident = identity_order(DECK_SIZE as nat);
    let d = permuted(fresh_deck(), seed);
    let p = dealt(seed);
    lemma_fresh_deck();
    lemma_tri_values();
    assert(o.len() == o.to_multiset().len());
    assert(ident.len() == ident.to_multiset().len());
    assert(o.len() == DECK_SIZE);
    assert(forall|k: int| 0 <= k < DECK_SIZE ==> #[trigger] ident[k] == k);
    assert(ident.no_duplicates());
    ident.lemma_multiset_has_no_duplicates();
    o.lemma_multiset_has_no_duplicates_conv();
    assert forall|k: int| 0 <= k < DECK_SIZE implies #[trigger] o[k] < DECK_SIZE by {
        assert(o.to_multiset().count(o[k]) > 0);
        assert(ident.contains(o[k]));
    }
    assert(d.len() == DECK_SIZE);
    // Each card on the table is the shuffled deck's card at its deck position.
    assert forall|i: int, j: int| 0 <= i < p.len() && 0 <= j < p[i].len() implies (#[trigger] p[i][j]).wf()
        && p[i][j].kind() == o[deck_position(i, j)] && 0 <= deck_position(i, j) < DECK_SIZE by {
        let pos = deck_position(i, j);
        if i == 0 {
            assert(p[i][j] == d[j]);
        } else {
            assert(2 <= i <= 8);
            assert(p[i][j].kind() == d[pos].kind());
            assert(p[i][j].wf() == d[pos].wf());
        }
        assert(d[pos] == fresh_deck()[o[pos] as int]);
    }
    assert(pile_total(p) == DECK_SIZE) by {
        reveal_with_fuel(pile_total, 14);
        assert(p.len() == 13);
        assert(p[0].len() == 24);
        assert(p.drop_last().drop_last().drop_last().drop_last().last().len() == 7);
    }
    assert forall|i1: int, j1: int, i2: int, j2: int|
        0 <= i1 < p.len() && 0 <= j1 < p[i1].len() && 0 <= i2 < p.len() && 0 <= j2 < p[i2].len()
            && (#[trigger] p[i1][j1]).kind() == (#[trigger] p[i2][j2]).kind() implies i1 == i2 && j1
        == j2 by {
        assert(o[deck_position(i1, j1)] == o[deck_position(i2, j2)]);
        assert(deck_position(i1, j1) == deck_position(i2, j2));
    }
    assert forall|k: int| 0 <= k < DECK_SIZE implies #[trigger] kind_present(p, k) by {
        assert(ident[k] == k as usize);
        assert(ident.to_multiset().count(k as usize) > 0);
        assert(o.contains(k as usize));
        let n = choose|n: int| 0 <= n < o.len() && o[n] == k as usize;
        let (i, j) = if n < 24 {
            (0int, n)
        } else if n < 31 {
            (8int, 30 - n)
        } else if n < 37 {
            (7int, 36 - n)
        } else if n < 42 {
            (6int, 41 - n)
        } else if n < 46 {
            (5int, 45 - n)
        } else if n < 49 {
            (4int, 48 - n)
        } else if n < 51 {
            (3int, 50 - n)
        } else {
            (2int, 51 - n)
        };
        assert(deck_position(i, j) == n);
        assert(p[i][j].kind() == k);
    }
}

/// Dealing is deterministic: two tables dealt for the same game number hold
/// the same cards, in the same places, with the same faces up.
pub proof fn lemma_deal_deterministic(a: Seq<Seq<Card>>, b: Seq<Seq<Card>>, game: u64)
    requires
        a == dealt(game),
        b == dealt(game),
    ensures
        a == b,
        forall|i: int, j: int|
            0 <= i < a.len() && 0 <= j < a[i].len() ==> (#[trigger] a[i][j]).faceup == b[i][j].faceup,
{
}

/// Relies on rand's `StdRng::seed_from_u64` and `SliceRandom::shuffle`: the
/// shuffle only swaps elements, and which swaps it makes depends on the seed and
/// the slice's length alone.
#[verifier::external_body]
fn shuffle_with_seed(order: &mut Vec<usize>, seed: u64)
    ensures
        final(order)@ == shuffled(old(order)@, seed),
        final(order)@.to_multiset() == old(order)@.to_multiset(),
{
    let mut rng = <rand::rngs::StdRng as rand::SeedableRng>::seed_from_u64(seed);
    rand::seq::SliceRandom::shuffle(order.as_mut_slice(), &mut rng);
}

pub fn new_deck() -> (r: Vec<Card>)
    ensures
        r@ == fresh_deck(),
{
    let mut deck: Vec<Card> = Vec::with_capacity(DECK_SIZE);
    load_suit(&mut deck, CardType::Corazones);
    load_suit(&mut deck, CardType::Espadas);
    load_suit(&mut deck, CardType::Diamantes);
    load_suit(&mut deck, CardType::Treboles);
    deck
}

/// Appends one whole suit, Ace to King, face down.
pub fn load_suit(deck: &mut Vec<Card>, suit: CardType)
    ensures
        final(deck)@ == old(deck)@ + suit_cards(suit),
{
    let ghost start = deck@;
    let a_card = Card::new(suit, CardValue::A);
    deck.push(a_card);
    let mut number: u8 = 2;
    while number < 10
        invariant
            2 <= number <= 10,
            deck@ == start + suit_cards(suit).subrange(0, number - 1),
        decreases 10 - number,
    {
        let number_card = Card::new(suit, CardValue::N(number));
        proof {
            assert(number_card == card_at(suit, number - 1));
        }
        deck.push(number_card);
        assert(deck@ =~= start + suit_cards(suit).subrange(0, number as int));
        number = number + 1;
    }
    deck.push(Card::new(suit, CardValue::Z));
    deck.push(Card::new(suit, CardValue::J));
    deck.push(Card::new(suit, CardValue::Q));
    deck.push(Card::new(suit, CardValue::K));
    assert(deck@ =~= start + suit_cards(suit));
}

/// Rearranges the deck by the shuffle that `game` seeds; the same game number
/// always gives the same order.
pub fn shuffle_deck(deck: &mut Vec<Card>, game: u64)
    ensures
        final(deck)@ == permuted(old(deck)@, game),
        deal_order(old(deck)@.len(), game).to_multiset() == identity_order(
            old(deck)@.len(),
        ).to_multiset(),
{
    let n = deck.len();
    let mut order: Vec<usize> = Vec::with_capacity(n);
    let mut i: usize = 0;
    while i < n
        invariant
            i <= n,
            order@ == identity_order(i as nat),
        decreases n - i,
    {
        order.push(i);
        assert(order@ =~= identity_order((i + 1) as nat));
        i = i + 1;
    }
    let ghost ident = order@;
    shuffle_with_seed(&mut order, game);
    proof {
        broadcast use vstd::seq_lib::group_to_multiset_ensures;

        assert(order@.len() == order@.to_multiset().len());
        assert(ident.len() == ident.to_multiset().len());
        assert forall|k: int| 0 <= k < order@.len() implies order@[k] < n by {
            assert(order@.to_multiset().count(order@[k]) > 0);
            assert(ident.contains(order@[k]));
        }
    }
    let mut out: Vec<Card> = Vec::with_capacity(n);
    let mut k: usize = 0;
    while k < n
        invariant
            k <= n,
            n == deck@.len(),
            order@ == deal_order(n as nat, game),
            order@.len() == n,
            forall|j: int| 0 <= j < n ==> order@[j] < n,
            out@ == Seq::new(k as nat, |j: int| deck@[order@[j] as int]),
        decreases n - k,
    {
        out.push(deck[order[k]]);
        assert(out@ =~= Seq::new((k + 1) as nat, |j: int| deck@[order@[j] as int]));
        k = k + 1;
    }
    assert(out@ =~= permuted(deck@, game));
    *deck = out;
}

/// Deals the opening table of game number `game`.
pub fn set_up(game: u64) -> (r: Vec<Vec<Card>>)
    ensures
        piles_view(r@) == dealt(game),
        is_full_deck(piles_view(r@)),
{
    let mut piles: Vec<Vec<Card>> = Vec::with_capacity(PILE_COUNT);
    let mut initial_deck = new_deck();
    shuffle_deck(&mut initial_deck, game);
    proof {
        lemma_fresh_deck();
        lemma_dealt_full_deck(game);
    }
    let ghost d = initial_deck@;
    create_tableaus(&mut piles, &mut initial_deck);
    let ghost before = piles@;
    let ghost tableaus = piles_view(piles@);
    assert(tableaus.len() == before.len());
    assert(before.len() == 7);
    piles.insert(0, initial_deck);
    piles.insert(1, Vec::new());
    proof {
        lemma_tri_values();
        assert forall|i: int| 0 <= i < 9 implies #[trigger] piles_view(piles@)[i] == layout(d)[i] by {
            assert(piles@.len() == 9);
            if i >= 2 {
                assert(piles@[i] == before[i - 2]);
                assert(tableaus[i - 2] == before[i - 2]@);
            }
        }
    }
    let mut f: usize = 0;
    while f < 4
        invariant
            f <= 4,
            d.len() == DECK_SIZE,
            piles@.len() == 9 + f,
            piles_view(piles@) == layout(d).subrange(0, 9 + f),
        decreases 4 - f,
    {
        let ghost prev = piles@;
        piles.push(Vec::with_capacity(13));
        assert(piles@[9 + f as int]@ == Seq::<Card>::empty());
        assert forall|i: int| 0 <= i < 9 + f implies piles@[i] == prev[i] by {}
        assert(piles_view(piles@) =~= layout(d).subrange(0, 9 + f + 1));
        f = f + 1;
    }
    assert(piles_view(piles@) =~= layout(d));
    piles
}

/// Pushes the seven tableau piles, of 1 to 7 cards, dealt from the end of the deck.
pub fn create_tableaus(piles: &mut Vec<Vec<Card>>, deck: &mut Vec<Card>)
    requires
        old(piles)@.len() == 0,
        old(deck)@.len() == DECK_SIZE,
    ensures
        final(deck)@ == old(deck)@.subrange(0, DECK_SIZE - 28),
        piles_view(final(piles)@) == Seq::new(7, |k: int| tableau_of(old(deck)@, k + 1)),
{
    let ghost d = deck@;
    let mut i: u8 = 1;
    proof {
        lemma_tri_values();
    }
    while i < 8
        invariant
            1 <= i <= 8,
            d.len() == DECK_SIZE,
            deck@ == d.subrange(0, DECK_SIZE - tri(i - 1)),
            piles@.len() == i - 1,
            0 <= tri(i - 1) <= 28,
            piles_view(piles@) == Seq::new((i - 1) as nat, |k: int| tableau_of(d, k + 1)),
        decreases 8 - i,
    {
        proof {
            lemma_tri_values();
        }
        let tableau = create_tableau(i, deck);
        let ghost prev = piles@;
        piles.push(tableau);
        assert forall|k: int| 0 <= k < i - 1 implies piles_view(piles@)[k] == tableau_of(d, k + 1) by {
            assert(piles@[k] == prev[k]);
            assert(piles_view(prev)[k] == prev[k]@);
        }
        assert(piles@[i - 1]@ == tableau_of(d, i as int));
        assert(deck@ =~= d.subrange(0, DECK_SIZE - tri(i as int)));
        assert(piles_view(piles@) =~= Seq::new(i as nat, |k: int| tableau_of(d, k + 1)));
        i = i + 1;
    }
}

/// Takes `size` cards from the end of the deck into a new pile, turning the
/// last one dealt face up.
pub fn create_tableau(size: u8, deck: &mut Vec<Card>) -> (r: Vec<Card>)
    requires
        size <= old(deck)@.len(),
    ensures
        r@ == dealt_run(old(deck)@, size as int),
        final(deck)@ == old(deck)@.subrange(0, old(deck)@.len() - size),
{
    let ghost d = deck@;
    let mut tableau: Vec<Card> = Vec::with_capacity(13);
    let mut i: u8 = 0;
    while i < size
        invariant
            i <= size <= d.len(),
            deck@ == d.subrange(0, d.len() - i),
            tableau@ == dealt_run(d, size as int).subrange(0, i as int),
        decreases size - i,
    {
        let mut x = deck.pop().unwrap();
        if i == size - 1 {
            x.show();
        }
        tableau.push(x);
        assert(tableau@ =~= dealt_run(d, size as int).subrange(0, i + 1));
        i = i + 1;
    }
    assert(tableau@ =~= dealt_run(d, size as int));
    tableau
}

/// The height of the tallest of the tableau piles before pile `i`.
pub open spec fn max_height(p: Seq<Seq<Card>>, i: int) -> int
    decreases i,
{
    if i <= 2 {
        0
    } else if max_height(p, i - 1) < p[i - 1].len() {
        p[i - 1].len() as int
    } else {
        max_height(p, i - 1)
    }
}

/// The height of the tallest tableau pile.
pub open spec fn tallest(p: Seq<Seq<Card>>) -> int {
    max_height(p, 9)
}

/// The height of the tallest tableau pile.
pub fn largest_tableau(piles: &Vec<Vec<Card>>) -> (r: usize)
    requires
        piles@.len() == PILE_COUNT,
    ensures
        r == tallest(piles_view(piles@)),
        forall|i: int| 2 <= i <= 8 ==> piles@[i]@.len() <= r,
{
    let ghost p = piles_view(piles@);
    let mut max: usize = 0;
    let mut i: usize = 2;
    while i < 9
        invariant
            2 <= i <= 9,
            piles@.len() == PILE_COUNT,
            p == piles_view(piles@),
            max == max_height(p, i as int),
            forall|j: int| 2 <= j < i ==> piles@[j]@.len() <= max,
        decreases 9 - i,
    {
        assert(p[i as int] == piles@[i as int]@);
        let temp = piles[i].len();
        if max < temp {
            max = temp;
        }
        i = i + 1;
    }
    max
}

} // verus!
