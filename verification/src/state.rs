//! The session state that is stored between runs: the credential, the
//! symbols that the user tracks, and the recent trades.
//!
//! The tracked symbols form a list in the order in which they were added. A
//! symbol may be tracked more than once; entries are removed by position.

use crate::history::{recorded, Ledger, TickerHistory};
use crate::types::{symbol_texts, ApiKey, Symbol, TickerInfo, TickerInfoView};
use vstd::prelude::*;

verus! {

/// Everything that is stored between runs.
pub struct State {
    pub api_key: ApiKey,
    pub watched: Vec<Symbol>,
    pub history: TickerHistory,
}

/// The mathematical content of a [`State`].
pub struct StateView {
    pub api_key: Seq<char>,
    pub watched: Seq<Seq<char>>,
    pub history: Ledger,
}

impl View for State {
    type V = StateView;

    open spec fn view(&self) -> StateView {
        StateView {
            api_key: self.api_key@,
            watched: symbol_texts(self.watched@),
            history: self.history@,
        }
    }
}

/// What removing one tracked entry gave.
#[derive(Debug)]
pub struct UntrackResult {
    /// Whether no entry for the removed symbol is left.
    pub is_last: bool,
    /// The symbol of the removed entry.
    pub symbol: Symbol,
}

impl StateView {
    /// The state with `symbol` tracked once more, as the last entry.
    pub open spec fn with_symbol(self, symbol: Seq<char>) -> StateView {
        StateView { watched: self.watched.push(symbol), ..self }
    }

    /// The state without its most recently added entry, if it has any.
    pub open spec fn without_last_added(self) -> StateView {
        if self.watched.len() > 0 {
            StateView { watched: self.watched.drop_last(), ..self }
        } else {
            self
        }
    }

    /// Whether removing the entry at `idx` leaves no entry for its symbol.
    pub open spec fn is_last_occurrence(self, idx: int) -> bool {
        !self.watched.remove(idx).contains(self.watched[idx])
    }

    /// The state without the entry at `idx`. The trades of its symbol go
    /// with it if that was the symbol's last entry.
    pub open spec fn without_entry(self, idx: int) -> StateView {
        StateView {
            watched: self.watched.remove(idx),
            history: if self.is_last_occurrence(idx) {
                self.history.remove(self.watched[idx])
            } else {
                self.history
            },
            ..self
        }
    }

    /// The state with one more trade on record.
    pub open spec fn with_trade(self, tick: TickerInfoView) -> StateView {
        StateView { history: recorded(self.history, tick), ..self }
    }
}

impl State {
    /// The state of a first run: no credential, nothing tracked, no trades.
    pub fn new() -> (state: State)
        ensures
            state@ == (StateView {
                api_key: Seq::empty(),
                watched: Seq::empty(),
                history: Ledger::empty(),
            }),
    {
        let state = State {
            api_key: ApiKey(String::new()),
            watched: Vec::new(),
            history: TickerHistory::new(),
        };
        assert(symbol_texts(state.watched@) =~= Seq::empty());
        state
    }

    /// Tracks `symbol` as the newest entry, whether or not it is tracked
    /// already.
    pub fn add_symbol(&mut self, symbol: Symbol)
        ensures
            final(self)@ == old(self)@.with_symbol(symbol@),
    {
        self.watched.push(symbol);
        assert(symbol_texts(self.watched@) =~= symbol_texts(old(self).watched@).push(symbol@));
    }

    /// The most recently added entry, if anything is tracked.
    pub fn last_added(&self) -> (last: Option<&Symbol>)
        ensures
            match last {
                Some(symbol) => self@.watched.len() > 0 && symbol@ == self@.watched.last(),
                None => self@.watched.len() == 0,
            },
    {
        let n = self.watched.len();
        if n == 0 {
            None
        } else {
            Some(&self.watched[n - 1])
        }
    }

    /// Drops the most recently added entry; nothing happens if nothing is
    /// tracked. The trades on record stay.
    pub fn remove_last_added(&mut self)
        ensures
            final(self)@ == old(self)@.without_last_added(),
    {
        self.watched.pop();
        proof {
            if old(self).watched.len() > 0 {
                assert(symbol_texts(self.watched@) =~= symbol_texts(
                    old(self).watched@,
                ).drop_last());
            }
        }
    }

    /// Removes the tracked entry at position `idx` and reports its symbol.
    /// If no other entry tracks that symbol any more, the symbol's trades
    /// are forgotten too, and the result says so.
    pub fn untrack_symbol(&mut self, idx: usize) -> (result: UntrackResult)
        requires
            idx < old(self).watched.len(),
        ensures
            result.symbol@ == old(self)@.watched[idx as int],
            result.is_last == old(self)@.is_last_occurrence(idx as int),
            result.is_last == !final(self)@.watched.contains(result.symbol@),
            result.is_last ==> !final(self)@.history.contains_key(result.symbol@),
            final(self)@ == old(self)@.without_entry(idx as int),
    {
        let removed_symbol = self.watched.remove(idx);
        assert(symbol_texts(self.watched@) =~= symbol_texts(old(self).watched@).remove(idx as int));
        let ghost rest = symbol_texts(self.watched@);
        let mut last_for_symbol = true;
        let mut i: usize = 0;
        while i < self.watched.len()
            invariant
                i <= self.watched.len(),
                rest == symbol_texts(self.watched@),
                last_for_symbol == (forall|j: int| 0 <= j < i ==> rest[j] != removed_symbol@),
            decreases self.watched.len() - i,
        {
            assert(rest[i as int] == self.watched[i as int]@);
            if self.watched[i] == removed_symbol {
                last_for_symbol = false;
            }
            i += 1;
        }
        if last_for_symbol {
            self.history.remove(&removed_symbol);
        }
        UntrackResult { is_last: last_for_symbol, symbol: removed_symbol }
    }

    /// Records one trade.
    pub fn add_history(&mut self, ticker_info: TickerInfo)
        ensures
            final(self)@ == old(self)@.with_trade(ticker_info@),
    {
        self.history.insert(ticker_info);
    }
}

/// Removing the entry at `idx` was the last occurrence of its symbol exactly
/// when no entry at another position carries that symbol. Then the symbol is
/// neither tracked nor has trades on record afterwards; otherwise it is still
/// tracked and the trades on record are untouched.
pub proof fn lemma_last_occurrence(state: StateView, idx: int)
    requires
        0 <= idx < state.watched.len(),
    ensures
        state.is_last_occurrence(idx) <==> (forall|j: int|
            0 <= j < state.watched.len() && j != idx ==> state.watched[j] != state.watched[idx]),
        state.is_last_occurrence(idx) ==> !state.without_entry(idx).watched.contains(
            state.watched[idx],
        ) && !state.without_entry(idx).history.contains_key(state.watched[idx]),
        !state.is_last_occurrence(idx) ==> state.without_entry(idx).watched.contains(
            state.watched[idx],
        ) && state.without_entry(idx).history == state.history,
{
    let symbol = state.watched[idx];
    let rest = state.watched.remove(idx);
    if rest.contains(symbol) {
        let k = choose|k: int| 0 <= k < rest.len() && rest[k] == symbol;
        let j = if k < idx {
            k
        } else {
            k + 1
        };
        assert(state.watched[j] == symbol && j != idx);
    } else {
        assert forall|j: int| 0 <= j < state.watched.len() && j != idx implies state.watched[j]
            != symbol by {
            let k = if j < idx {
                j
            } else {
                j - 1
            };
            assert(rest[k] == state.watched[j]);
        }
    }
}

} // verus!
