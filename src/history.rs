use vstd::prelude::*;
use crate::card::Card;
use crate::deck::piles_view;

verus! {

/// Why an undo or a redo did nothing.
#[derive(Debug, Copy, Clone, PartialEq, Eq, Structural)]
pub enum HistoryError {
    /// There is no earlier snapshot to go back to.
    AtOldestSnapshot,
    /// There is no later snapshot to go forward to.
    AtNewestSnapshot,
}

/// A log of table snapshots with a cursor on the current one.
pub struct HistoryView {
    pub snapshots: Seq<Seq<Seq<Card>>>,
    pub cursor: int,
}

impl HistoryView {
    /// The cursor points at a snapshot.
    pub open spec fn wf(self) -> bool {
        0 <= self.cursor < self.snapshots.len()
    }

    /// The snapshot under the cursor.
    pub open spec fn current(self) -> Seq<Seq<Card>> {
        self.snapshots[self.cursor]
    }

    /// Every snapshot after the cursor is dropped, then `s` is appended and
    /// becomes current.
    pub open spec fn recorded(self, s: Seq<Seq<Card>>) -> HistoryView {
        HistoryView { snapshots: self.snapshots.subrange(0, self.cursor + 1).push(s), cursor: self.cursor + 1 }
    }

    pub open spec fn can_undo(self) -> bool {
        self.cursor > 0
    }

    pub open spec fn undone(self) -> HistoryView {
        HistoryView { cursor: self.cursor - 1, ..self }
    }

    pub open spec fn can_redo(self) -> bool {
        self.cursor + 1 < self.snapshots.len()
    }

    pub open spec fn redone(self) -> HistoryView {
        HistoryView { cursor: self.cursor + 1, ..self }
    }
}

/// The log after recording each table of `tables` in turn.
pub open spec fn recorded_all(h: HistoryView, tables: Seq<Seq<Seq<Card>>>) -> HistoryView
    decreases tables.len(),
{
    if tables.len() == 0 {
        h
    } else {
        recorded_all(h, tables.drop_last()).recorded(tables.last())
    }
}

/// The log after `k` undos, each of which is allowed.
pub open spec fn undone_times(h: HistoryView, k: nat) -> HistoryView
    decreases k,
{
    if k == 0 {
        h
    } else {
        undone_times(h, (k - 1) as nat).undone()
    }
}

/// The log after `k` redos, each of which is allowed.
pub open spec fn redone_times(h: HistoryView, k: nat) -> HistoryView
    decreases k,
{
    if k == 0 {
        h
    } else {
        redone_times(h, (k - 1) as nat).redone()
    }
}

/// Recording tables drops the snapshots after the cursor and appends them.
proof fn lemma_recorded_all_shape(h: HistoryView, tables: Seq<Seq<Seq<Card>>>)
    requires
        h.wf(),
    ensures
        recorded_all(h, tables).wf(),
        tables.len() == 0 ==> recorded_all(h, tables) == h,
        tables.len() > 0 ==> recorded_all(h, tables).snapshots == h.snapshots.subrange(0, h.cursor + 1) + tables,
        recorded_all(h, tables).cursor == h.cursor + tables.len(),
    decreases tables.len(),
{
    if tables.len() > 0 {
        lemma_recorded_all_shape(h, tables.drop_last());
        let prev = recorded_all(h, tables.drop_last());
        if tables.len() == 1 {
            assert(h.snapshots.subrange(0, h.cursor + 1).push(tables.last())
                =~= h.snapshots.subrange(0, h.cursor + 1) + tables);
        } else {
            assert(prev.snapshots.subrange(0, prev.cursor + 1) =~= prev.snapshots);
            assert((h.snapshots.subrange(0, h.cursor + 1) + tables.drop_last()).push(tables.last())
                =~= h.snapshots.subrange(0, h.cursor + 1) + tables);
        }
    }
}

/// `k` undos move the cursor back `k` places and keep every snapshot.
proof fn lemma_undone_times(h: HistoryView, k: nat)
    ensures
        undone_times(h, k) == (HistoryView { cursor: h.cursor - k, ..h }),
    decreases k,
{
    if k > 0 {
        lemma_undone_times(h, (k - 1) as nat);
    }
}

/// `k` redos move the cursor forward `k` places and keep every snapshot.
proof fn lemma_redone_times(h: HistoryView, k: nat)
    ensures
        redone_times(h, k) == (HistoryView { cursor: h.cursor + k, ..h }),
    decreases k,
{
    if k > 0 {
        lemma_redone_times(h, (k - 1) as nat);
    }
}

/// Recording tables `M1..Mk` and then undoing `k` times brings back the table
/// that was current before them, each undo being allowed; redoing `k` times
/// after that brings back `Mk`, each redo being allowed.
pub proof fn lemma_history_round_trip(h: HistoryView, tables: Seq<Seq<Seq<Card>>>)
    requires
        h.wf(),
    ensures
        ({
            let after = recorded_all(h, tables);
            let back = undone_times(after, tables.len());
            &&& forall|j: nat| j < tables.len() ==> (#[trigger] undone_times(after, j)).can_undo()
            &&& back.wf()
            &&& back.current() == h.current()
            &&& forall|j: nat| j < tables.len() ==> (#[trigger] redone_times(back, j)).can_redo()
            &&& tables.len() > 0 ==> redone_times(back, tables.len()).current() == tables.last()
        }),
{
    let after = recorded_all(h, tables);
    let k = tables.len();
    lemma_recorded_all_shape(h, tables);
    lemma_undone_times(after, k);
    let back = undone_times(after, k);
    assert forall|j: nat| j < k implies (#[trigger] undone_times(after, j)).can_undo() by {
        lemma_undone_times(after, j);
    }
    assert(back.snapshots[h.cursor] == h.snapshots[h.cursor]);
    assert forall|j: nat| j < k implies (#[trigger] redone_times(back, j)).can_redo() by {
        lemma_redone_times(back, j);
    }
    lemma_redone_times(back, k);
    if k > 0 {
        assert(after.snapshots[h.cursor + k] == tables[k - 1]);
    }
}

/// A new record discards the undone future: right after recording, there is
/// nothing to redo, however many undos came before.
pub proof fn lemma_record_discards_redo(h: HistoryView, undos: nat, s: Seq<Seq<Card>>)
    requires
        h.wf(),
        undos <= h.cursor,
    ensures
        undone_times(h, undos).wf(),
        !undone_times(h, undos).recorded(s).can_redo(),
{
    lemma_undone_times(h, undos);
}

/// Full copies of every table that was reached, and the position of the
/// current one. Each snapshot is a copy of its own: changing a table handed
/// out by `undo` or `redo` never changes what is stored.
pub struct History {
    snapshots: Vec<Vec<Vec<Card>>>,
    current: usize,
}

impl View for History {
    type V = HistoryView;

    closed spec fn view(&self) -> HistoryView {
        HistoryView {
            snapshots: Seq::new(self.snapshots@.len(), |i: int| piles_view(self.snapshots@[i]@)),
            cursor: self.current as int,
        }
    }
}

/// An independent copy of a table.
pub fn copy_piles(piles: &Vec<Vec<Card>>) -> (r: Vec<Vec<Card>>)
    ensures
        piles_view(r@) == piles_view(piles@),
{
    let mut out: Vec<Vec<Card>> = Vec::with_capacity(piles.len());
    let mut i: usize = 0;
    while i < piles.len()
        invariant
            i <= piles@.len(),
            out@.len() == i,
            forall|j: int| 0 <= j < i ==> #[trigger] out@[j]@ == piles@[j]@,
        decreases piles@.len() - i,
    {
        let pile = &piles[i];
        let mut copy: Vec<Card> = Vec::with_capacity(pile.len());
        let mut k: usize = 0;
        while k < pile.len()
            invariant
                k <= pile@.len(),
                copy@ == pile@.subrange(0, k as int),
            decreases pile@.len() - k,
        {
            copy.push(pile[k]);
            assert(copy@ =~= pile@.subrange(0, k + 1));
            k = k + 1;
        }
        assert(copy@ =~= pile@);
        out.push(copy);
        i = i + 1;
    }
    assert(piles_view(out@) =~= piles_view(piles@));
    out
}

impl History {
    pub closed spec fn inv(&self) -> bool {
        self.current < self.snapshots@.len()
    }

    /// The cursor of a log points at one of its snapshots.
    pub proof fn lemma_inv_wf(&self)
        requires
            self.inv(),
        ensures
            self@.wf(),
    {
    }

    /// A log holding only the opening table.
    pub fn new(initial: &Vec<Vec<Card>>) -> (r: History)
        ensures
            r.inv(),
            r@ == (HistoryView { snapshots: seq![piles_view(initial@)], cursor: 0 }),
    {
        let mut snapshots: Vec<Vec<Vec<Card>>> = Vec::new();
        snapshots.push(copy_piles(initial));
        let r = History { snapshots, current: 0 };
        assert(r@.snapshots =~= seq![piles_view(initial@)]);
        r
    }

    /// Makes a copy of `state` the newest snapshot, dropping every snapshot
    /// after the current one first.
    pub fn record(&mut self, state: &Vec<Vec<Card>>)
        requires
            old(self).inv(),
        ensures
            final(self).inv(),
            final(self)@ == old(self)@.recorded(piles_view(state@)),
    {
        let ghost h = self@;
        let _held = self.snapshots.len();
        self.snapshots.truncate(self.current + 1);
        self.snapshots.push(copy_piles(state));
        self.current = self.current + 1;
        assert(self@.snapshots =~= h.recorded(piles_view(state@)).snapshots);
    }

    /// Steps back one snapshot and hands out a copy of it.
    pub fn undo(&mut self) -> (r: Result<Vec<Vec<Card>>, HistoryError>)
        requires
            old(self).inv(),
        ensures
            final(self).inv(),
            old(self)@.can_undo() ==> final(self)@ == old(self)@.undone() && r is Ok
                && piles_view(r->Ok_0@) == final(self)@.current(),
            !old(self)@.can_undo() ==> final(self)@ == old(self)@ && r == Err::<
                Vec<Vec<Card>>,
                HistoryError,
            >(HistoryError::AtOldestSnapshot),
    {
        if self.current == 0 {
            return Err(HistoryError::AtOldestSnapshot);
        }
        self.current = self.current - 1;
        let snapshot = copy_piles(&self.snapshots[self.current]);
        Ok(snapshot)
    }

    /// Steps forward one snapshot and hands out a copy of it.
    pub fn redo(&mut self) -> (r: Result<Vec<Vec<Card>>, HistoryError>)
        requires
            old(self).inv(),
        ensures
            final(self).inv(),
            old(self)@.can_redo() ==> final(self)@ == old(self)@.redone() && r is Ok
                && piles_view(r->Ok_0@) == final(self)@.current(),
            !old(self)@.can_redo() ==> final(self)@ == old(self)@ && r == Err::<
                Vec<Vec<Card>>,
                HistoryError,
            >(HistoryError::AtNewestSnapshot),
    {
        if self.current >= self.snapshots.len() - 1 {
            return Err(HistoryError::AtNewestSnapshot);
        }
        self.current = self.current + 1;
        let snapshot = copy_piles(&self.snapshots[self.current]);
        Ok(snapshot)
    }

    /// A copy of the current snapshot.
    pub fn current_state(&self) -> (r: Vec<Vec<Card>>)
        requires
            self.inv(),
        ensures
            piles_view(r@) == self@.current(),
    {
        copy_piles(&self.snapshots[self.current])
    }

    /// The number of snapshots held.
    pub fn len(&self) -> (r: usize)
        ensures
            r == self@.snapshots.len(),
    {
        self.snapshots.len()
    }

    /// The position of the current snapshot.
    pub fn cursor(&self) -> (r: usize)
        ensures
            r == self@.cursor,
    {
        self.current
    }
}

} // verus!
