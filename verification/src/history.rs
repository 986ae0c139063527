//! Bounded recent-trade history per symbol.
//!
//! The history is a finite map from a symbol's text to the trades recorded
//! for it, most recently recorded first. No symbol keeps more than
//! [`MAX_HISTORY`] trades: recording into a full run drops its oldest trade.
//!
//! The runs stand on shelves, one shelf per symbol, and a hash index says
//! where the shelf of a symbol stands, so that looking up, recording and
//! forgetting take constant time on average and the symbols can still be
//! listed.

use crate::types::{symbol_texts, tick_views, Symbol, TickerInfo, TickerInfoView};
use std::collections::VecDeque;
use vstd::hash_map::StringHashMap;
use vstd::prelude::*;

verus! {

/// Most trades that are kept for one symbol.
pub const MAX_HISTORY: usize = 25;

/// The mathematical content of a history.
pub type Ledger = Map<Seq<char>, Seq<TickerInfoView>>;

/// The trades on record for `symbol`, none if the symbol is unknown.
pub open spec fn run_of(ledger: Ledger, symbol: Seq<char>) -> Seq<TickerInfoView> {
    if ledger.contains_key(symbol) {
        ledger[symbol]
    } else {
        Seq::empty()
    }
}

/// A run with `tick` put in front, and with its last trade dropped if that
/// made it longer than the limit.
pub open spec fn pushed(run: Seq<TickerInfoView>, tick: TickerInfoView) -> Seq<TickerInfoView> {
    let longer = seq![tick] + run;
    if longer.len() > MAX_HISTORY {
        longer.drop_last()
    } else {
        longer
    }
}

/// The ledger after `tick` was recorded under its own symbol.
pub open spec fn recorded(ledger: Ledger, tick: TickerInfoView) -> Ledger {
    ledger.insert(tick.symbol, pushed(run_of(ledger, tick.symbol), tick))
}

/// The ledger after all of `ticks` were recorded, the first of them first.
pub open spec fn recorded_all(ledger: Ledger, ticks: Seq<TickerInfoView>) -> Ledger
    decreases ticks.len(),
{
    if ticks.len() == 0 {
        ledger
    } else {
        recorded(recorded_all(ledger, ticks.drop_last()), ticks.last())
    }
}

/// What holds of every ledger that a history can have: finitely many
/// symbols, each with at least one trade and at most [`MAX_HISTORY`], and
/// every trade filed under the symbol it names.
pub open spec fn well_kept(ledger: Ledger) -> bool {
    &&& ledger.dom().finite()
    &&& forall|symbol: Seq<char>| #[trigger]
        ledger.contains_key(symbol) ==> well_kept_run(symbol, ledger[symbol])
}

/// What holds of the run that is filed under `symbol`.
pub open spec fn well_kept_run(symbol: Seq<char>, run: Seq<TickerInfoView>) -> bool {
    &&& 1 <= run.len() <= MAX_HISTORY
    &&& forall|i: int| 0 <= i < run.len() ==> (#[trigger] run[i]).symbol == symbol
}

/// Recording a trade keeps a ledger well kept: no run ever grows beyond
/// [`MAX_HISTORY`].
pub proof fn lemma_recorded_well_kept(ledger: Ledger, tick: TickerInfoView)
    requires
        well_kept(ledger),
    ensures
        well_kept(recorded(ledger, tick)),
{
    let after = recorded(ledger, tick);
    assert forall|symbol: Seq<char>| #[trigger] after.contains_key(symbol) implies well_kept_run(
        symbol,
        after[symbol],
    ) by {
        if symbol != tick.symbol {
            assert(ledger.contains_key(symbol));
        } else if ledger.contains_key(symbol) {
            assert(well_kept_run(symbol, ledger[symbol]));
        }
    }
}

/// Recording a run of trades keeps a ledger well kept.
pub proof fn lemma_recorded_all_well_kept(ledger: Ledger, ticks: Seq<TickerInfoView>)
    requires
        well_kept(ledger),
    ensures
        well_kept(recorded_all(ledger, ticks)),
    decreases ticks.len(),
{
    if ticks.len() > 0 {
        lemma_recorded_all_well_kept(ledger, ticks.drop_last());
        lemma_recorded_well_kept(recorded_all(ledger, ticks.drop_last()), ticks.last());
    }
}

/// After any number of trades of one symbol were recorded, that symbol's run
/// holds the trades in the reverse of the order in which they came, followed
/// by what was on record before, cut off at [`MAX_HISTORY`]. So its length is
/// the smaller of [`MAX_HISTORY`] and the number of trades that were on
/// record plus those that came, the newest trade is in front, and no other
/// symbol is touched.
pub proof fn lemma_recorded_for_one_symbol(
    ledger: Ledger,
    ticks: Seq<TickerInfoView>,
    symbol: Seq<char>,
)
    requires
        well_kept(ledger),
        forall|i: int| 0 <= i < ticks.len() ==> (#[trigger] ticks[i]).symbol == symbol,
    ensures
        ({
            let after = recorded_all(ledger, ticks);
            let prior = run_of(ledger, symbol);
            let run = run_of(after, symbol);
            &&& run.len() <= MAX_HISTORY
            &&& run.len() == if prior.len() + ticks.len() < MAX_HISTORY {
                prior.len() + ticks.len()
            } else {
                MAX_HISTORY as nat
            }
            &&& forall|i: int|
                0 <= i < run.len() ==> #[trigger] run[i] == if i < ticks.len() {
                    ticks[ticks.len() - 1 - i]
                } else {
                    prior[i - ticks.len()]
                }
            &&& ticks.len() > 0 ==> after.contains_key(symbol) && run[0] == ticks.last()
            &&& after.remove(symbol) == ledger.remove(symbol)
        }),
    decreases ticks.len(),
{
    let after = recorded_all(ledger, ticks);
    let prior = run_of(ledger, symbol);
    if ticks.len() == 0 {
        if ledger.contains_key(symbol) {
            assert(well_kept_run(symbol, ledger[symbol]));
        }
    } else {
        let earlier = ticks.drop_last();
        let middle = recorded_all(ledger, earlier);
        lemma_recorded_for_one_symbol(ledger, earlier, symbol);
        lemma_recorded_all_well_kept(ledger, earlier);
        let run_before = run_of(middle, symbol);
        let run = run_of(after, symbol);
        assert(run == pushed(run_before, ticks.last()));
        assert forall|i: int| 0 <= i < run.len() implies #[trigger] run[i] == if i < ticks.len() {
            ticks[ticks.len() - 1 - i]
        } else {
            prior[i - ticks.len()]
        } by {
            if i > 0 {
                assert(run[i] == run_before[i - 1]);
                if i - 1 < earlier.len() {
                    assert(earlier[earlier.len() - 1 - (i - 1)] == ticks[ticks.len() - 1 - i]);
                }
            }
        }
        assert(after.remove(symbol) =~= middle.remove(symbol));
    }
}

/// The trades of one symbol, newest first.
struct Shelf {
    symbol: Symbol,
    ticks: VecDeque<TickerInfo>,
}

/// Recent trades by symbol.
pub struct TickerHistory {
    shelves: Vec<Shelf>,
    places: StringHashMap<usize>,
}

/// The places of an index.
type Places = Map<Seq<char>, usize>;

/// Whether some shelf in `shelves` belongs to `symbol`.
spec fn shelved(shelves: Seq<Shelf>, symbol: Seq<char>) -> bool {
    exists|i: int| 0 <= i < shelves.len() && #[trigger] shelves[i].symbol@ == symbol
}

/// A place in `shelves` that belongs to `symbol`, if there is one.
spec fn shelf_of(shelves: Seq<Shelf>, symbol: Seq<char>) -> int {
    choose|i: int| 0 <= i < shelves.len() && #[trigger] shelves[i].symbol@ == symbol
}

/// The ledger that a list of shelves stands for.
spec fn ledger_of(shelves: Seq<Shelf>) -> Ledger {
    Map::new(
        |symbol: Seq<char>| shelved(shelves, symbol),
        |symbol: Seq<char>| tick_views(shelves[shelf_of(shelves, symbol)].ticks@),
    )
}

/// No symbol has two shelves, and each shelf holds a well-kept run.
spec fn orderly(shelves: Seq<Shelf>) -> bool {
    &&& forall|i: int, j: int|
        0 <= i < j < shelves.len() ==> #[trigger] shelves[i].symbol@
            != #[trigger] shelves[j].symbol@
    &&& forall|i: int|
        0 <= i < shelves.len() ==> well_kept_run(
            (#[trigger] shelves[i]).symbol@,
            tick_views(shelves[i].ticks@),
        )
}

/// In an orderly list, the shelf of a symbol is the one that carries it.
proof fn lemma_shelf_found(shelves: Seq<Shelf>, i: int)
    requires
        orderly(shelves),
        0 <= i < shelves.len(),
    ensures
        shelved(shelves, shelves[i].symbol@),
        shelf_of(shelves, shelves[i].symbol@) == i,
        ledger_of(shelves).contains_key(shelves[i].symbol@),
        ledger_of(shelves)[shelves[i].symbol@] == tick_views(shelves[i].ticks@),
{
    let symbol = shelves[i].symbol@;
    let j = shelf_of(shelves, symbol);
    assert(0 <= j < shelves.len() && shelves[j].symbol@ == symbol);
    if j < i {
        assert(shelves[j].symbol@ != shelves[i].symbol@);
    } else if i < j {
        assert(shelves[i].symbol@ != shelves[j].symbol@);
    }
}

/// The ledger of an orderly list is well kept.
proof fn lemma_orderly_well_kept(shelves: Seq<Shelf>)
    requires
        orderly(shelves),
    ensures
        well_kept(ledger_of(shelves)),
{
    let ledger = ledger_of(shelves);
    assert forall|symbol: Seq<char>| #[trigger] ledger.contains_key(symbol) implies well_kept_run(
        symbol,
        ledger[symbol],
    ) by {
        let i = shelf_of(shelves, symbol);
        assert(0 <= i < shelves.len() && shelves[i].symbol@ == symbol);
        lemma_shelf_found(shelves, i);
    }
    lemma_shelved_finite(shelves);
}

/// Only finitely many symbols have a shelf.
proof fn lemma_shelved_finite(shelves: Seq<Shelf>)
    ensures
        ledger_of(shelves).dom().finite(),
    decreases shelves.len(),
{
    let dom = ledger_of(shelves).dom();
    if shelves.len() == 0 {
        assert(dom =~= Set::empty());
    } else {
        let front = shelves.drop_last();
        lemma_shelved_finite(front);
        let smaller = ledger_of(front).dom();
        let last = shelves.last().symbol@;
        assert forall|symbol: Seq<char>| dom.contains(symbol) <==> smaller.insert(last).contains(
            symbol,
        ) by {
            if shelved(shelves, symbol) {
                let i = shelf_of(shelves, symbol);
                if i < shelves.len() - 1 {
                    assert(front[i].symbol@ == symbol);
                }
            }
            if shelved(front, symbol) {
                let i = shelf_of(front, symbol);
                assert(shelves[i].symbol@ == symbol);
            }
            if symbol == last {
                assert(shelves[shelves.len() - 1].symbol@ == symbol);
            }
        }
        assert(dom =~= smaller.insert(last));
    }
}

/// The shelf at `place` exists and belongs to `symbol`.
spec fn stands_at(shelves: Seq<Shelf>, symbol: Seq<char>, place: usize) -> bool {
    place < shelves.len() && shelves[place as int].symbol@ == symbol
}

/// The index knows exactly the symbols that have a shelf, and points each
/// to its shelf.
spec fn indexed(shelves: Seq<Shelf>, places: Places) -> bool {
    &&& forall|symbol: Seq<char>| #[trigger]
        places.contains_key(symbol) ==> stands_at(shelves, symbol, places[symbol])
    &&& forall|i: int|
        0 <= i < shelves.len() ==> places.contains_key((#[trigger] shelves[i]).symbol@)
}

/// The place of the shelf that belongs to `symbol`.
fn find(shelves: &Vec<Shelf>, places: &StringHashMap<usize>, symbol: &Symbol) -> (place: Option<
    usize,
>)
    requires
        indexed(shelves@, places@),
    ensures
        match place {
            Some(i) => i < shelves.len() && shelves[i as int].symbol@ == symbol@,
            None => !shelved(shelves@, symbol@),
        },
{
    match places.get(symbol.0.as_str()) {
        Some(i) => Some(*i),
        None => {
            assert forall|i: int| 0 <= i < shelves.len() implies shelves[i].symbol@
                != symbol@ by {
                assert(places@.contains_key(shelves[i].symbol@));
            }
            None
        },
    }
}

impl View for TickerHistory {
    type V = Ledger;

    closed spec fn view(&self) -> Ledger {
        ledger_of(self.shelves@)
    }
}

impl TickerHistory {
    #[verifier::type_invariant]
    spec fn inv(self) -> bool {
        orderly(self.shelves@) && indexed(self.shelves@, self.places@)
    }

    /// Hands out the shelves with their index and leaves none behind, so
    /// that they can be rearranged before they are put back.
    fn take(&mut self) -> (parts: (Vec<Shelf>, StringHashMap<usize>))
        ensures
            parts.0@ == old(self).shelves@,
            parts.1@ == old(self).places@,
            orderly(parts.0@),
            indexed(parts.0@, parts.1@),
            final(self)@ == Ledger::empty(),
    {
        let mut taken = TickerHistory::new();
        core::mem::swap(self, &mut taken);
        proof {
            use_type_invariant(&taken);
        }
        let TickerHistory { shelves, places } = taken;
        (shelves, places)
    }

    /// A history without any trade.
    pub fn new() -> (history: TickerHistory)
        ensures
            history@ == Ledger::empty(),
    {
        let history = TickerHistory { shelves: Vec::new(), places: StringHashMap::new() };
        assert(history@ =~= Ledger::empty());
        history
    }

    /// The trades on record for `symbol`, newest first; `None` if there are
    /// none. A run that is handed out is never empty and never longer than
    /// [`MAX_HISTORY`].
    pub fn get(&self, symbol: &Symbol) -> (run: Option<&VecDeque<TickerInfo>>)
        ensures
            well_kept(self@),
            match run {
                Some(ticks) => self@.contains_key(symbol@) && tick_views(ticks@) == self@[symbol@]
                    && 1 <= ticks.len() <= MAX_HISTORY,
                None => !self@.contains_key(symbol@),
            },
    {
        proof {
            use_type_invariant(self);
            lemma_orderly_well_kept(self.shelves@);
        }
        match find(&self.shelves, &self.places, symbol) {
            Some(i) => {
                proof {
                    lemma_shelf_found(self.shelves@, i as int);
                    assert(tick_views(self.shelves[i as int].ticks@).len()
                        == self.shelves[i as int].ticks@.len());
                }
                Some(&self.shelves[i].ticks)
            },
            None => None,
        }
    }

    /// Records a trade under its own symbol: it becomes the newest trade of
    /// that symbol, and the oldest one leaves if the symbol already had
    /// [`MAX_HISTORY`] trades.
    pub fn insert(&mut self, ticker_info: TickerInfo)
        ensures
            final(self)@ == recorded(old(self)@, ticker_info@),
            well_kept(final(self)@),
    {
        let ghost tick = ticker_info@;
        let (mut shelves, mut places) = self.take();
        let ghost before = shelves@;
        match find(&shelves, &places, &ticker_info.symbol) {
            Some(i) => {
                proof {
                    lemma_shelf_found(before, i as int);
                }
                if shelves[i].ticks.len() >= MAX_HISTORY {
                    shelves[i].ticks.pop_back();
                }
                shelves[i].ticks.push_front(ticker_info);
                proof {
                    assert(tick_views(shelves@[i as int].ticks@) =~= pushed(
                        tick_views(before[i as int].ticks@),
                        tick,
                    ));
                    lemma_shelf_replaced(before, shelves@, i as int);
                    assert forall|j: int| 0 <= j < shelves.len() implies places@.contains_key(
                        (#[trigger] shelves@[j]).symbol@,
                    ) by {
                        assert(places@.contains_key(before[j].symbol@));
                    }
                }
            },
            None => {
                let symbol = ticker_info.symbol.clone();
                let key = ticker_info.symbol.0.clone();
                let place = shelves.len();
                let mut ticks = VecDeque::new();
                ticks.push_front(ticker_info);
                shelves.push(Shelf { symbol, ticks });
                places.insert(key, place);
                proof {
                    assert(tick_views(shelves@.last().ticks@) =~= pushed(Seq::empty(), tick));
                    lemma_shelf_added(before, shelves@);
                    lemma_index_extended(before, shelves@, old(self).places@, places@);
                }
            },
        }
        proof {
            lemma_orderly_well_kept(shelves@);
        }
        *self = TickerHistory { shelves, places };
    }

    /// Forgets every trade of `symbol`.
    pub fn remove(&mut self, symbol: &Symbol)
        ensures
            final(self)@ == old(self)@.remove(symbol@),
            well_kept(final(self)@),
    {
        let (mut shelves, mut places) = self.take();
        let ghost before = shelves@;
        let ghost index_before = places@;
        match find(&shelves, &places, symbol) {
            Some(i) => {
                shelves.swap_remove(i);
                places.remove(symbol.0.as_str());
                if i < shelves.len() {
                    places.insert(shelves[i].symbol.0.clone(), i);
                }
                proof {
                    lemma_shelf_taken(before, shelves@, i as int);
                    lemma_index_shrunk(before, shelves@, index_before, places@, i as int);
                }
            },
            None => {
                assert(ledger_of(before) =~= ledger_of(before).remove(symbol@));
            },
        }
        proof {
            lemma_orderly_well_kept(shelves@);
        }
        *self = TickerHistory { shelves, places };
    }

    /// The symbols that have trades on record, each once.
    pub fn symbols(&self) -> (listed: Vec<Symbol>)
        ensures
            forall|symbol: Seq<char>|
                self@.contains_key(symbol) <==> symbol_texts(listed@).contains(symbol),
            symbol_texts(listed@).no_duplicates(),
    {
        proof {
            use_type_invariant(self);
        }
        let mut listed: Vec<Symbol> = Vec::new();
        let mut i: usize = 0;
        while i < self.shelves.len()
            invariant
                i <= self.shelves.len(),
                listed.len() == i,
                forall|j: int| 0 <= j < i ==> (#[trigger] listed[j])@ == self.shelves[j].symbol@,
            decreases self.shelves.len() - i,
        {
            listed.push(self.shelves[i].symbol.clone());
            i += 1;
        }
        proof {
            let texts = symbol_texts(listed@);
            assert forall|symbol: Seq<char>| self@.contains_key(symbol) <==> texts.contains(
                symbol,
            ) by {
                if self@.contains_key(symbol) {
                    let j = shelf_of(self.shelves@, symbol);
                    assert(texts[j] == symbol);
                }
                if texts.contains(symbol) {
                    let j = choose|j: int| 0 <= j < texts.len() && texts[j] == symbol;
                    assert(self.shelves@[j].symbol@ == symbol);
                }
            }
            assert forall|a: int, b: int| 0 <= a < texts.len() && 0 <= b < texts.len() && a != b
                implies texts[a] != texts[b] by {
                if a < b {
                    assert(self.shelves@[a].symbol@ != self.shelves@[b].symbol@);
                } else {
                    assert(self.shelves@[b].symbol@ != self.shelves@[a].symbol@);
                }
            }
        }
        listed
    }

    /// Puts back a stored run of trades, newest first, for a symbol that has
    /// none on record. The run is taken only if it could have been recorded:
    /// it holds at least one trade and at most [`MAX_HISTORY`], and every
    /// trade names `symbol`. Otherwise nothing changes.
    pub fn restore(&mut self, symbol: Symbol, ticks: VecDeque<TickerInfo>) -> (taken: bool)
        ensures
            taken == (!old(self)@.contains_key(symbol@) && well_kept_run(
                symbol@,
                tick_views(ticks@),
            )),
            final(self)@ == if taken {
                old(self)@.insert(symbol@, tick_views(ticks@))
            } else {
                old(self)@
            },
            well_kept(final(self)@),
    {
        proof {
            use_type_invariant(&*self);
            lemma_orderly_well_kept(self.shelves@);
        }
        let ghost run = tick_views(ticks@);
        if ticks.len() < 1 || ticks.len() > MAX_HISTORY {
            return false;
        }
        if find(&self.shelves, &self.places, &symbol).is_some() {
            return false;
        }
        let mut i: usize = 0;
        while i < ticks.len()
            invariant
                i <= ticks.len(),
                run == tick_views(ticks@),
                self@ == old(self)@,
                well_kept(self@),
                forall|j: int| 0 <= j < i ==> (#[trigger] run[j]).symbol == symbol@,
            decreases ticks.len() - i,
        {
            if !(ticks[i].symbol == symbol) {
                assert(run[i as int].symbol != symbol@);
                return false;
            }
            i += 1;
        }
        let (mut shelves, mut places) = self.take();
        let ghost before = shelves@;
        let ghost index_before = places@;
        let key = symbol.0.clone();
        let place = shelves.len();
        shelves.push(Shelf { symbol, ticks });
        places.insert(key, place);
        proof {
            lemma_shelf_added(before, shelves@);
            lemma_index_extended(before, shelves@, index_before, places@);
            lemma_orderly_well_kept(shelves@);
        }
        *self = TickerHistory { shelves, places };
        true
    }
}

/// Replacing the run on one shelf replaces the run of its symbol and nothing
/// else.
proof fn lemma_shelf_replaced(before: Seq<Shelf>, after: Seq<Shelf>, i: int)
    requires
        orderly(before),
        0 <= i < before.len(),
        after.len() == before.len(),
        after[i].symbol@ == before[i].symbol@,
        forall|j: int| 0 <= j < before.len() && j != i ==> after[j] == before[j],
        well_kept_run(after[i].symbol@, tick_views(after[i].ticks@)),
    ensures
        orderly(after),
        ledger_of(after) == ledger_of(before).insert(
            before[i].symbol@,
            tick_views(after[i].ticks@),
        ),
{
    assert forall|a: int, b: int| 0 <= a < b < after.len() implies #[trigger] after[a].symbol@
        != #[trigger] after[b].symbol@ by {
        assert(before[a].symbol@ != before[b].symbol@);
    }
    assert forall|j: int| 0 <= j < after.len() implies well_kept_run(
        (#[trigger] after[j]).symbol@,
        tick_views(after[j].ticks@),
    ) by {
        if j != i {
            assert(after[j] == before[j]);
        }
    }
    let wanted = ledger_of(before).insert(before[i].symbol@, tick_views(after[i].ticks@));
    assert forall|symbol: Seq<char>| ledger_of(after).contains_key(symbol) == wanted.contains_key(
        symbol,
    ) by {
        if shelved(after, symbol) {
            let j = shelf_of(after, symbol);
            assert(before[j].symbol@ == symbol);
        }
        if shelved(before, symbol) {
            let j = shelf_of(before, symbol);
            assert(after[j].symbol@ == symbol);
        }
        lemma_shelf_found(after, i);
    }
    assert forall|symbol: Seq<char>| ledger_of(after).contains_key(symbol) implies ledger_of(
        after,
    )[symbol] == wanted[symbol] by {
        let j = shelf_of(after, symbol);
        lemma_shelf_found(after, j);
        if j != i {
            lemma_shelf_found(before, j);
        }
    }
    assert(ledger_of(after) =~= wanted);
}

/// A new shelf for a symbol that had none adds the run of that symbol and
/// nothing else.
proof fn lemma_shelf_added(before: Seq<Shelf>, after: Seq<Shelf>)
    requires
        orderly(before),
        after.len() == before.len() + 1,
        forall|j: int| 0 <= j < before.len() ==> after[j] == before[j],
        !shelved(before, after.last().symbol@),
        well_kept_run(after.last().symbol@, tick_views(after.last().ticks@)),
    ensures
        orderly(after),
        ledger_of(after) == ledger_of(before).insert(
            after.last().symbol@,
            tick_views(after.last().ticks@),
        ),
{
    let n = before.len() as int;
    assert forall|a: int, b: int| 0 <= a < b < after.len() implies #[trigger] after[a].symbol@
        != #[trigger] after[b].symbol@ by {
        if b < n {
            assert(before[a].symbol@ != before[b].symbol@);
        } else {
            assert(before[a].symbol@ == after[a].symbol@);
        }
    }
    assert forall|j: int| 0 <= j < after.len() implies well_kept_run(
        (#[trigger] after[j]).symbol@,
        tick_views(after[j].ticks@),
    ) by {
        if j < n {
            assert(after[j] == before[j]);
        }
    }
    let wanted = ledger_of(before).insert(after.last().symbol@, tick_views(after.last().ticks@));
    assert forall|symbol: Seq<char>| ledger_of(after).contains_key(symbol) == wanted.contains_key(
        symbol,
    ) by {
        if shelved(after, symbol) {
            let j = shelf_of(after, symbol);
            if j < n {
                assert(before[j].symbol@ == symbol);
            }
        }
        if shelved(before, symbol) {
            let j = shelf_of(before, symbol);
            assert(after[j].symbol@ == symbol);
        }
        lemma_shelf_found(after, n);
    }
    assert forall|symbol: Seq<char>| ledger_of(after).contains_key(symbol) implies ledger_of(
        after,
    )[symbol] == wanted[symbol] by {
        let j = shelf_of(after, symbol);
        lemma_shelf_found(after, j);
        if j < n {
            lemma_shelf_found(before, j);
        }
    }
    assert(ledger_of(after) =~= wanted);
}

/// Moving the last shelf into the place of another one removes the run of
/// the symbol that stood there and nothing else.
proof fn lemma_shelf_taken(before: Seq<Shelf>, after: Seq<Shelf>, i: int)
    requires
        orderly(before),
        0 <= i < before.len(),
        after == before.update(i, before.last()).drop_last(),
    ensures
        orderly(after),
        ledger_of(after) == ledger_of(before).remove(before[i].symbol@),
{
    let end = before.len() - 1;
    let back = |j: int|
        if j == i {
            end
        } else {
            j
        };
    assert forall|j: int| 0 <= j < after.len() implies #[trigger] after[j] == before[back(j)] by {}
    assert forall|a: int, b: int| 0 <= a < b < after.len() implies #[trigger] after[a].symbol@
        != #[trigger] after[b].symbol@ by {
        assert(after[a] == before[back(a)]);
        assert(after[b] == before[back(b)]);
        if back(a) < back(b) {
            assert(before[back(a)].symbol@ != before[back(b)].symbol@);
        } else {
            assert(before[back(b)].symbol@ != before[back(a)].symbol@);
        }
    }
    assert forall|j: int| 0 <= j < after.len() implies well_kept_run(
        (#[trigger] after[j]).symbol@,
        tick_views(after[j].ticks@),
    ) by {
        assert(after[j] == before[back(j)]);
    }
    let wanted = ledger_of(before).remove(before[i].symbol@);
    assert forall|symbol: Seq<char>| ledger_of(after).contains_key(symbol) == wanted.contains_key(
        symbol,
    ) by {
        if shelved(after, symbol) {
            let j = shelf_of(after, symbol);
            assert(after[j] == before[back(j)]);
            assert(before[back(j)].symbol@ == symbol);
            lemma_shelf_found(before, back(j));
            lemma_shelf_found(before, i);
        }
        if shelved(before, symbol) && symbol != before[i].symbol@ {
            let j = shelf_of(before, symbol);
            let k = if j == end {
                i
            } else {
                j
            };
            assert(after[k] == before[back(k)]);
            assert(after[k].symbol@ == symbol);
        }
    }
    assert forall|symbol: Seq<char>| ledger_of(after).contains_key(symbol) implies ledger_of(
        after,
    )[symbol] == wanted[symbol] by {
        let j = shelf_of(after, symbol);
        lemma_shelf_found(after, j);
        assert(after[j] == before[back(j)]);
        lemma_shelf_found(before, back(j));
    }
    assert(ledger_of(after) =~= wanted);
}

/// An index that is told of a new last shelf knows the longer list.
proof fn lemma_index_extended(
    before: Seq<Shelf>,
    after: Seq<Shelf>,
    index_before: Places,
    index_after: Places,
)
    requires
        indexed(before, index_before),
        after.len() == before.len() + 1,
        forall|j: int| 0 <= j < before.len() ==> after[j] == before[j],
        !shelved(before, after.last().symbol@),
        before.len() <= usize::MAX,
        index_after == index_before.insert(after.last().symbol@, before.len() as usize),
    ensures
        indexed(after, index_after),
{
    let added = after.last().symbol@;
    assert forall|symbol: Seq<char>| #[trigger]
        index_after.contains_key(symbol) implies stands_at(after, symbol, index_after[symbol]) by {
        if symbol != added {
            assert(index_before.contains_key(symbol));
            assert(after[index_before[symbol] as int] == before[index_before[symbol] as int]);
        }
    }
    assert forall|i: int| 0 <= i < after.len() implies index_after.contains_key(
        (#[trigger] after[i]).symbol@,
    ) by {
        if i < before.len() {
            assert(after[i] == before[i]);
            assert(index_before.contains_key(before[i].symbol@));
        }
    }
}

/// An index that forgets the symbol of a removed shelf, and is told where
/// the shelf stands now that moved into its place, knows the shorter list.
proof fn lemma_index_shrunk(
    before: Seq<Shelf>,
    after: Seq<Shelf>,
    index_before: Places,
    index_after: Places,
    i: int,
)
    requires
        orderly(before),
        indexed(before, index_before),
        0 <= i < before.len(),
        after == before.update(i, before.last()).drop_last(),
        index_after == if i < after.len() {
            index_before.remove(before[i].symbol@).insert(after[i].symbol@, i as usize)
        } else {
            index_before.remove(before[i].symbol@)
        },
    ensures
        indexed(after, index_after),
{
    let end = before.len() - 1;
    let gone = before[i].symbol@;
    assert forall|symbol: Seq<char>| #[trigger]
        index_after.contains_key(symbol) implies stands_at(after, symbol, index_after[symbol]) by {
        if i < after.len() && symbol == after[i].symbol@ {
        } else {
            assert(index_before.contains_key(symbol));
            let j = index_before[symbol] as int;
            assert(before[j].symbol@ == symbol);
            if j == end {
                if i < after.len() {
                    assert(after[i] == before[end]);
                } else {
                    assert(i == end);
                }
            } else if j == i {
            } else {
                assert(after[j] == before[j]);
            }
        }
    }
    assert forall|j: int| 0 <= j < after.len() implies index_after.contains_key(
        (#[trigger] after[j]).symbol@,
    ) by {
        if j != i {
            assert(after[j] == before[j]);
            assert(index_before.contains_key(before[j].symbol@));
            assert(before[j].symbol@ != before[i].symbol@) by {
                if j < i {
                    assert(before[j].symbol@ != before[i].symbol@);
                } else {
                    assert(before[i].symbol@ != before[j].symbol@);
                }
            }
        }
    }
}

} // verus!
