//! Decisions of the single-instrument snapshot: which instruments there are,
//! which one is shown now, how long a cached reading stays valid, and which
//! past candle a crypto change is measured against.

use vstd::prelude::*;

verus! {

/// Seconds in a day.
pub const SECONDS_PER_DAY: u64 = 86400;

/// Where an instrument's data comes from.
#[derive(Clone, Copy, Debug, PartialEq, Eq, Structural)]
pub enum InstrumentKind {
    Stock,
    Crypto,
}

/// A tracked instrument: a stock ticker, or a crypto pair with its display sign.
#[derive(Debug)]
pub struct Instrument {
    pub kind: InstrumentKind,
    pub symbol: String,
    pub sign: String,
}

impl View for Instrument {
    type V = (InstrumentKind, Seq<char>, Seq<char>);

    open spec fn view(&self) -> (InstrumentKind, Seq<char>, Seq<char>) {
        (self.kind, self.symbol@, self.sign@)
    }
}

/// The sign configured for the `i`-th pair, or the empty text.
pub open spec fn sign_at(signs: Seq<String>, i: int) -> Seq<char> {
    if 0 <= i < signs.len() {
        signs[i]@
    } else {
        seq![]
    }
}

/// The stocks in order, then the crypto pairs in order.
pub open spec fn instrument_list(tickers: Seq<String>, pairs: Seq<String>, signs: Seq<String>) -> Seq<
    (InstrumentKind, Seq<char>, Seq<char>),
> {
    Seq::new(
        tickers.len() + pairs.len(),
        |i: int|
            if i < tickers.len() {
                (InstrumentKind::Stock, tickers[i]@, seq![])
            } else {
                (
                    InstrumentKind::Crypto,
                    pairs[i - tickers.len()]@,
                    sign_at(signs, i - tickers.len()),
                )
            },
    )
}

/// Lists the configured instruments: every stock ticker, then every crypto
/// pair with the sign at the same place in `signs` (empty where there is none).
pub fn collect_instruments(tickers: &Vec<String>, pairs: &Vec<String>, signs: &Vec<String>) -> (r:
    Vec<Instrument>)
    requires
        tickers@.len() + pairs@.len() <= usize::MAX,
    ensures
        r@.map_values(|x: Instrument| x@) == instrument_list(tickers@, pairs@, signs@),
{
    let mut r: Vec<Instrument> = Vec::new();
    let mut i: usize = 0;
    while i < tickers.len()
        invariant
            i <= tickers@.len(),
            r@.len() == i,
            forall|k: int| 0 <= k < i ==> (#[trigger] r@[k])@ == instrument_list(tickers@, pairs@, signs@)[k],
        decreases tickers@.len() - i,
    {
        r.push(Instrument { kind: InstrumentKind::Stock, symbol: tickers[i].clone(), sign: String::new() });
        proof {
            assert(r@[i as int]@ =~= instrument_list(tickers@, pairs@, signs@)[i as int]);
        }
        i = i + 1;
    }
    let n = tickers.len();
    let mut j: usize = 0;
    while j < pairs.len()
        invariant
            n == tickers@.len(),
            n + pairs@.len() <= usize::MAX,
            j <= pairs@.len(),
            r@.len() == n + j,
            forall|k: int| 0 <= k < n + j ==> (#[trigger] r@[k])@ == instrument_list(tickers@, pairs@, signs@)[k],
        decreases pairs@.len() - j,
    {
        let sign = if j < signs.len() {
            signs[j].clone()
        } else {
            String::new()
        };
        r.push(Instrument { kind: InstrumentKind::Crypto, symbol: pairs[j].clone(), sign });
        proof {
            assert(r@[n + j]@ =~= instrument_list(tickers@, pairs@, signs@)[n + j]);
        }
        j = j + 1;
    }
    assert(r@.map_values(|x: Instrument| x@) =~= instrument_list(tickers@, pairs@, signs@));
    r
}

/// Which of `count` instruments is shown at `now_secs` when each is shown
/// for `rotation_seconds` in turn.
pub fn rotation_index(now_secs: u64, rotation_seconds: u64, count: usize) -> (r: usize)
    requires
        rotation_seconds > 0,
        count > 0,
    ensures
        r as int == (now_secs / rotation_seconds) as int % (count as int),
        r < count,
{
    let slot = now_secs / rotation_seconds;
    let r = (slot % (count as u64)) as usize;
    r
}

/// How old a stock reading may be: the weekend allowance on Saturday and
/// Sunday (days 5 and 6 counted from Monday as 0), the weekday one otherwise.
pub fn effective_cache_max_age(days_from_monday: u32, weekday_max_age: u64, weekend_max_age: u64) -> (r:
    u64)
    ensures
        r == if days_from_monday == 5 || days_from_monday == 6 {
            weekend_max_age
        } else {
            weekday_max_age
        },
{
    if days_from_monday == 5 || days_from_monday == 6 {
        weekend_max_age
    } else {
        weekday_max_age
    }
}

/// A cached reading is fresh when its age is known and under the allowance.
pub fn cache_is_fresh(age_secs: Option<u64>, max_age_secs: u64) -> (r: bool)
    ensures
        r == (age_secs matches Some(a) && a < max_age_secs),
{
    match age_secs {
        Some(a) => a < max_age_secs,
        None => false,
    }
}

/// The time one day before `now_secs`, if there is one.
pub fn day_before(now_secs: u64) -> (r: Option<u64>)
    ensures
        r == if now_secs >= SECONDS_PER_DAY {
            Some((now_secs - SECONDS_PER_DAY) as u64)
        } else {
            None::<u64>
        },
{
    if now_secs >= SECONDS_PER_DAY {
        Some(now_secs - SECONDS_PER_DAY)
    } else {
        None
    }
}

/// A candle counts when its time is known, lies at or before the cutoff, and
/// its close price could be read.
pub open spec fn candle_counts(stamps: Seq<Option<i64>>, has_close: Seq<bool>, cutoff: i64, i: int) -> bool {
    &&& stamps[i] matches Some(ts)
    &&& ts <= cutoff
    &&& has_close[i]
}

/// The last candle that counts, if any: the one a price change is measured from.
pub fn last_candle_at_or_before(stamps: &Vec<Option<i64>>, has_close: &Vec<bool>, cutoff: i64) -> (r:
    Option<usize>)
    requires
        stamps@.len() == has_close@.len(),
    ensures
        match r {
            Some(i) => {
                &&& i < stamps@.len()
                &&& candle_counts(stamps@, has_close@, cutoff, i as int)
                &&& forall|j: int| i < j < stamps@.len() ==> !candle_counts(stamps@, has_close@, cutoff, j)
            },
            None => forall|j: int| 0 <= j < stamps@.len() ==> !candle_counts(stamps@, has_close@, cutoff, j),
        },
{
    let mut found: Option<usize> = None;
    let mut i: usize = 0;
    while i < stamps.len()
        invariant
            i <= stamps@.len(),
            stamps@.len() == has_close@.len(),
            match found {
                Some(k) => {
                    &&& k < i
                    &&& candle_counts(stamps@, has_close@, cutoff, k as int)
                    &&& forall|j: int| k < j < i ==> !candle_counts(stamps@, has_close@, cutoff, j)
                },
                None => forall|j: int| 0 <= j < i ==> !candle_counts(stamps@, has_close@, cutoff, j),
            },
        decreases stamps@.len() - i,
    {
        let counts = match stamps[i] {
            Some(ts) => ts <= cutoff && has_close[i],
            None => false,
        };
        if counts {
            found = Some(i);
        }
        i = i + 1;
    }
    found
}

} // verus!
