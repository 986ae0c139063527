//! Value types of one trade tick.
//!
//! Texts are modelled by their character sequences. A price or a volume is a
//! 32-bit binary floating point number, held here as its bit pattern, so that
//! it can be stored, compared and handed on without loss.

use std::collections::VecDeque;
use vstd::prelude::*;

verus! {

/// Identifier of a traded instrument. Case-sensitive, compared by its text.
#[derive(Debug, Eq, Hash)]
pub struct Symbol(pub String);

impl View for Symbol {
    type V = Seq<char>;

    open spec fn view(&self) -> Seq<char> {
        self.0@
    }
}

impl Clone for Symbol {
    fn clone(&self) -> (copy: Self)
        ensures
            copy@ == self@,
    {
        Symbol(self.0.clone())
    }
}

impl PartialEq for Symbol {
    fn eq(&self, other: &Self) -> (equal: bool) {
        self.0 == other.0
    }
}

impl vstd::std_specs::cmp::PartialEqSpecImpl for Symbol {
    open spec fn obeys_eq_spec() -> bool {
        true
    }

    open spec fn eq_spec(&self, other: &Self) -> bool {
        self@ == other@
    }
}

impl Symbol {
    /// The symbol with no characters, which stands for "nothing typed yet".
    pub fn empty() -> (symbol: Symbol)
        ensures
            symbol@ == Seq::<char>::empty(),
    {
        Symbol(String::new())
    }

    /// Whether the symbol has no characters.
    pub fn is_empty(&self) -> (none: bool)
        ensures
            none == (self@.len() == 0),
    {
        self.0.as_str().is_empty()
    }
}

/// The texts of a list of symbols, in order.
pub open spec fn symbol_texts(symbols: Seq<Symbol>) -> Seq<Seq<char>> {
    Seq::new(symbols.len(), |i: int| symbols[i]@)
}

/// Opaque credential that is embedded in the feed's address.
#[derive(Debug, Eq, Hash)]
pub struct ApiKey(pub String);

impl View for ApiKey {
    type V = Seq<char>;

    open spec fn view(&self) -> Seq<char> {
        self.0@
    }
}

impl Clone for ApiKey {
    fn clone(&self) -> (copy: Self)
        ensures
            copy@ == self@,
    {
        ApiKey(self.0.clone())
    }
}

impl PartialEq for ApiKey {
    fn eq(&self, other: &Self) -> (equal: bool) {
        self.0 == other.0
    }
}

impl vstd::std_specs::cmp::PartialEqSpecImpl for ApiKey {
    open spec fn obeys_eq_spec() -> bool {
        true
    }

    open spec fn eq_spec(&self, other: &Self) -> bool {
        self@ == other@
    }
}

/// Bit that carries the sign in a binary32 pattern; the bits below it are the
/// magnitude.
pub const SIGN_BIT: u32 = 0x8000_0000;

/// Magnitude of the infinities; a larger magnitude is not a number.
pub const INFINITY_MAGNITUDE: u32 = 0x7f80_0000;

/// The pattern without its sign.
pub open spec fn magnitude(bits: u32) -> int {
    if bits >= SIGN_BIT {
        bits - SIGN_BIT
    } else {
        bits as int
    }
}

/// Whether the pattern denotes no number at all.
pub open spec fn not_a_number(bits: u32) -> bool {
    magnitude(bits) > INFINITY_MAGNITUDE
}

/// Position of a number among all numbers: the magnitude, counted downwards
/// for negative patterns. Both zeros share position 0, and of two numbers the
/// larger one has the larger position.
pub open spec fn position(bits: u32) -> int {
    if bits >= SIGN_BIT {
        -magnitude(bits)
    } else {
        magnitude(bits)
    }
}

/// Whether `a` denotes a number strictly greater than the one `b` denotes.
/// Nothing is greater or smaller than a pattern that is not a number.
pub open spec fn exceeds(a: u32, b: u32) -> bool {
    !not_a_number(a) && !not_a_number(b) && position(a) > position(b)
}

/// Being greater is a strict order on patterns: nothing exceeds itself, no
/// two patterns exceed each other, and what exceeds a pattern exceeds all
/// that the pattern exceeds. The two zeros exceed each other in neither
/// direction.
pub proof fn lemma_exceeds_is_strict(a: u32, b: u32, c: u32)
    ensures
        !exceeds(a, a),
        exceeds(a, b) ==> !exceeds(b, a),
        exceeds(a, b) && exceeds(b, c) ==> exceeds(a, c),
        !exceeds(0, SIGN_BIT) && !exceeds(SIGN_BIT, 0),
{
}

/// Price of one trade, as the bit pattern of a binary32 number.
#[derive(Clone, Copy, Debug)]
pub struct Price(pub u32);

impl Price {
    /// Whether this price is strictly higher than `other`.
    pub fn above(self, other: Price) -> (higher: bool)
        ensures
            higher == exceeds(self.0, other.0),
    {
        let (mine, my_sign) = split(self.0);
        let (theirs, their_sign) = split(other.0);
        if mine > INFINITY_MAGNITUDE || theirs > INFINITY_MAGNITUDE {
            false
        } else if my_sign && their_sign {
            mine < theirs
        } else if my_sign {
            false
        } else if their_sign {
            mine > 0 || theirs > 0
        } else {
            mine > theirs
        }
    }

    /// Whether this price is strictly lower than `other`.
    pub fn below(self, other: Price) -> (lower: bool)
        ensures
            lower == exceeds(other.0, self.0),
    {
        other.above(self)
    }
}

/// Magnitude and sign of a pattern.
fn split(bits: u32) -> (parts: (u32, bool))
    ensures
        parts.0 == magnitude(bits),
        parts.1 == (bits >= SIGN_BIT),
{
    if bits >= SIGN_BIT {
        (bits - SIGN_BIT, true)
    } else {
        (bits, false)
    }
}

/// Traded volume of one trade, as the bit pattern of a binary32 number.
#[derive(Clone, Copy, Debug)]
pub struct Volume(pub u32);

/// One reported trade. The time is in milliseconds since the epoch, as the
/// feed supplied it.
#[derive(Debug)]
pub struct TickerInfo {
    pub symbol: Symbol,
    pub price: Price,
    pub volume: Volume,
    pub time: i64,
}

/// What a trade record says, with its symbol as plain text.
pub struct TickerInfoView {
    pub symbol: Seq<char>,
    pub price: u32,
    pub volume: u32,
    pub time: i64,
}

impl View for TickerInfo {
    type V = TickerInfoView;

    open spec fn view(&self) -> TickerInfoView {
        TickerInfoView {
            symbol: self.symbol@,
            price: self.price.0,
            volume: self.volume.0,
            time: self.time,
        }
    }
}

impl Clone for TickerInfo {
    fn clone(&self) -> (copy: Self)
        ensures
            copy@ == self@,
    {
        TickerInfo {
            symbol: self.symbol.clone(),
            price: self.price,
            volume: self.volume,
            time: self.time,
        }
    }
}

/// What a run of trade records says, in order.
pub open spec fn tick_views(ticks: Seq<TickerInfo>) -> Seq<TickerInfoView> {
    Seq::new(ticks.len(), |i: int| ticks[i]@)
}

/// Direction of the latest price against the one before it.
#[derive(Clone, Copy, Debug, PartialEq, Eq, Structural)]
pub enum TickerHealth {
    Good,
    Normal,
    Bad,
}

/// The direction that a most-recent-first run of trades shows: up when the
/// newest price is above the one before it, down when it is below, level
/// otherwise, and level with fewer than two trades.
pub open spec fn health_of(ticks: Seq<TickerInfoView>) -> TickerHealth {
    if ticks.len() < 2 {
        TickerHealth::Normal
    } else if exceeds(ticks[0].price, ticks[1].price) {
        TickerHealth::Good
    } else if exceeds(ticks[1].price, ticks[0].price) {
        TickerHealth::Bad
    } else {
        TickerHealth::Normal
    }
}

/// Classifies the trend of a symbol's recent trades, newest first; a symbol
/// without trades is level.
pub fn ticker_health(history: Option<&VecDeque<TickerInfo>>) -> (health: TickerHealth)
    ensures
        health == match history {
            Some(ticks) => health_of(tick_views(ticks@)),
            None => TickerHealth::Normal,
        },
{
    match history {
        Some(ticks) => {
            if ticks.len() < 2 {
                TickerHealth::Normal
            } else {
                let last_trade = &ticks[0];
                let second_last = &ticks[1];
                if last_trade.price.above(second_last.price) {
                    TickerHealth::Good
                } else if last_trade.price.below(second_last.price) {
                    TickerHealth::Bad
                } else {
                    TickerHealth::Normal
                }
            }
        },
        None => TickerHealth::Normal,
    }
}

} // verus!
