//! Snapshot data and error kinds for one symbol, in plain integer units.

use vstd::prelude::*;

use crate::decimal::{append_u64, dec_str};

verus! {

use vstd::string::{StrSliceExecFns, StringExecFns};

/// Largest representable price, in cents; keeps bounds arithmetic in i64.
pub const MAX_PRICE_CENTS: u64 = 1_000_000_000_000_000;

/// Largest magnitude of a 24h percent change, in hundredths of a percent.
pub const MAX_CHANGE_HUNDREDTHS: i64 = 1_000_000;

/// Largest accepted timestamp, in milliseconds since the Unix epoch; keeps
/// midpoint arithmetic inside i64.
pub const MAX_TIMESTAMP_MS: i64 = 4_000_000_000_000_000;

/// One symbol's current 24h statistics: prices in cents, the percent change
/// in hundredths of a percent, volume in whole units.
#[derive(Clone, Debug)]
pub struct TickerData {
    pub symbol: String,
    pub last_price: u64,
    pub price_change_percent: i64,
    pub high_price: u64,
    pub low_price: u64,
    pub volume: u64,
}

/// The mathematical content of a ticker snapshot.
pub ghost struct TickerView {
    pub symbol: Seq<char>,
    pub last_price: u64,
    pub price_change_percent: i64,
    pub high_price: u64,
    pub low_price: u64,
    pub volume: u64,
}

impl View for TickerData {
    type V = TickerView;

    open spec fn view(&self) -> TickerView {
        TickerView {
            symbol: self.symbol@,
            last_price: self.last_price,
            price_change_percent: self.price_change_percent,
            high_price: self.high_price,
            low_price: self.low_price,
            volume: self.volume,
        }
    }
}

impl TickerData {
    /// All numeric fields within the representable ranges.
    pub open spec fn wf(self) -> bool {
        &&& self.last_price <= MAX_PRICE_CENTS
        &&& self.high_price <= MAX_PRICE_CENTS
        &&& self.low_price <= MAX_PRICE_CENTS
        &&& -MAX_CHANGE_HUNDREDTHS <= self.price_change_percent <= MAX_CHANGE_HUNDREDTHS
    }
}

/// Why one symbol's fetch failed. Failures are per symbol and per round;
/// none is fatal, the next round simply tries again.
#[derive(Clone, Copy, PartialEq, Eq, Structural, Debug)]
pub enum FetchError {
    /// Transport failure or timeout.
    Network,
    /// Non-success status from the API, with the status code.
    Api(u16),
    /// Malformed or unexpected payload.
    Decode,
    /// The history response held no usable points.
    NoData,
}

pub open spec fn spec_error_label(e: FetchError) -> Seq<char> {
    match e {
        FetchError::Network => "network error"@,
        FetchError::Api(code) => "API error "@ + dec_str(code as nat),
        FetchError::Decode => "malformed response"@,
        FetchError::NoData => "no data"@,
    }
}

impl FetchError {
    /// Short human-readable cause for status messages.
    pub fn label(&self) -> (s: String)
        ensures
            s@ == spec_error_label(*self),
    {
        match self {
            FetchError::Network => String::from_str("network error"),
            FetchError::Api(code) => {
                let s = String::from_str("API error ");
                append_u64(s, *code as u64)
            },
            FetchError::Decode => String::from_str("malformed response"),
            FetchError::NoData => String::from_str("no data"),
        }
    }
}

/// "Error fetching BTCUSDT: network error" — one failed snapshot.
pub open spec fn spec_fetch_error_status(sym: Seq<char>, e: FetchError) -> Seq<char> {
    "Error fetching "@ + sym + ": "@ + spec_error_label(e)
}

/// "Error loading history for BTCUSDT: no data" — one failed backfill.
pub open spec fn spec_history_error_status(sym: Seq<char>, e: FetchError) -> Seq<char> {
    "Error loading history for "@ + sym + ": "@ + spec_error_label(e)
}

/// Builds the status line for one failed snapshot fetch.
pub fn fetch_error_status(sym: &str, e: &FetchError) -> (s: String)
    ensures
        s@ == spec_fetch_error_status(sym@, *e),
{
    let mut s = String::from_str("Error fetching ");
    s.append(sym);
    s.append(": ");
    let label = e.label();
    s.append(label.as_str());
    proof {
        assert(s@ =~= spec_fetch_error_status(sym@, *e));
    }
    s
}

/// Parses a decimal price string to cents, rounding half-up; None for a
/// malformed string or a price beyond the representable maximum.
pub fn parse_price_cents(s: &str) -> (r: Option<u64>)
    ensures
        match r {
            Some(v) => crate::decimal::valid_decimal(s@) && crate::decimal::scaled_value(s@, 2)
                <= MAX_PRICE_CENTS && v == crate::decimal::scaled_value(s@, 2),
            None => !(crate::decimal::valid_decimal(s@) && crate::decimal::scaled_value(s@, 2)
                <= MAX_PRICE_CENTS),
        },
{
    crate::decimal::parse_scaled(s, 2, MAX_PRICE_CENTS)
}

/// Parses a decimal volume string to whole units, rounding half-up.
pub fn parse_volume(s: &str) -> (r: Option<u64>)
    ensures
        match r {
            Some(v) => crate::decimal::valid_decimal(s@) && crate::decimal::scaled_value(s@, 0)
                <= u64::MAX && v == crate::decimal::scaled_value(s@, 0),
            None => !(crate::decimal::valid_decimal(s@) && crate::decimal::scaled_value(s@, 0)
                <= u64::MAX),
        },
{
    crate::decimal::parse_scaled(s, 0, u64::MAX)
}

/// Parses a signed decimal percent string ("-1.25") to hundredths of a
/// percent; None for a malformed string or a magnitude beyond the cap.
pub fn parse_change_hundredths(s: &str) -> (r: Option<i64>)
    ensures
        match r {
            Some(v) => {
                let body = if s@.len() > 0 && s@[0] == '-' {
                    s@.skip(1)
                } else {
                    s@
                };
                &&& crate::decimal::valid_decimal(body)
                &&& crate::decimal::scaled_value(body, 2) <= MAX_CHANGE_HUNDREDTHS
                &&& v == if s@.len() > 0 && s@[0] == '-' {
                    -(crate::decimal::scaled_value(body, 2) as int)
                } else {
                    crate::decimal::scaled_value(body, 2) as int
                }
                &&& -MAX_CHANGE_HUNDREDTHS <= v <= MAX_CHANGE_HUNDREDTHS
            },
            None => {
                let body = if s@.len() > 0 && s@[0] == '-' {
                    s@.skip(1)
                } else {
                    s@
                };
                !(crate::decimal::valid_decimal(body) && crate::decimal::scaled_value(body, 2)
                    <= MAX_CHANGE_HUNDREDTHS)
            },
        },
{
    let n = s.unicode_len();
    let negative = n > 0 && s.get_char(0) == '-';
    let body = if negative {
        s.substring_char(1, n)
    } else {
        s
    };
    proof {
        if negative {
            assert(body@ =~= s@.skip(1));
        }
    }
    match crate::decimal::parse_scaled(body, 2, MAX_CHANGE_HUNDREDTHS as u64) {
        Some(v) => {
            if negative {
                Some(-(v as i64))
            } else {
                Some(v as i64)
            }
        },
        None => None,
    }
}

/// Builds the status line for one failed history backfill.
pub fn history_error_status(sym: &str, e: &FetchError) -> (s: String)
    ensures
        s@ == spec_history_error_status(sym@, *e),
{
    let mut s = String::from_str("Error loading history for ");
    s.append(sym);
    s.append(": ");
    let label = e.label();
    s.append(label.as_str());
    proof {
        assert(s@ =~= spec_history_error_status(sym@, *e));
    }
    s
}

} // verus!
