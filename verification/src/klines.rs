//! Extraction of historical candles from the exchange's kline rows. Each
//! row arrives as a JSON array whose first element is the open time in
//! epoch milliseconds and whose fifth is the closing price as a decimal
//! string. What a JSON value holds is opaque outside data, so the
//! accessors' results carry names; every decision about them, and the
//! parsing of the price strings, is verified against those names.

use vstd::prelude::*;

use crate::coin::valid_entry;
use crate::decimal::{scaled_value, valid_decimal};
use crate::market::{parse_price_cents, FetchError, MAX_PRICE_CENTS, MAX_TIMESTAMP_MS};

verus! {

#[verifier::external_type_specification]
#[verifier::external_body]
pub struct ExValue(serde_json::Value);

/// What Value::as_i64 returns for a value; a pure function of it.
pub uninterp spec fn json_i64_of(v: serde_json::Value) -> Option<i64>;

/// What Value::as_str returns for a value, as characters; a pure function
/// of it.
pub uninterp spec fn json_str_of(v: serde_json::Value) -> Option<Seq<char>>;

/// Relies on serde_json::Value::as_i64: a pure match on the value, Some
/// exactly when it is an integer representable in i64.
pub assume_specification[ serde_json::Value::as_i64 ](v: &serde_json::Value) -> (r: Option<i64>)
    ensures
        r == json_i64_of(*v),
;

/// Relies on serde_json::Value::as_str: a pure match on the value, Some
/// exactly when it is a JSON string.
pub assume_specification<'a>[ serde_json::Value::as_str ](v: &'a serde_json::Value) -> (r: Option<
    &'a str,
>)
    ensures
        (r matches Some(s) ==> json_str_of(*v) == Some(s@)),
        (r is None ==> json_str_of(*v) is None),
;

/// The point one kline row yields: its open time paired with its close
/// price in cents, provided the row has at least five fields, an integer
/// open time within the representable window, and a close-price string
/// that parses into range. Anything else yields nothing.
pub open spec fn spec_row_point(row: Vec<serde_json::Value>) -> Option<(i64, u64)> {
    if row@.len() >= 5 {
        match json_i64_of(row@[0]) {
            Some(ts) => if 0 <= ts <= MAX_TIMESTAMP_MS {
                match json_str_of(row@[4]) {
                    Some(s) => if valid_decimal(s) && scaled_value(s, 2) <= MAX_PRICE_CENTS {
                        Some((ts, scaled_value(s, 2) as u64))
                    } else {
                        None
                    },
                    None => None,
                }
            } else {
                None
            },
            None => None,
        }
    } else {
        None
    }
}

/// The points a run of kline rows yields, in row order: one per usable row,
/// dropped rows leaving no trace.
pub open spec fn spec_kline_points(rows: Seq<Vec<serde_json::Value>>) -> Seq<(i64, u64)>
    decreases rows.len(),
{
    if rows.len() == 0 {
        Seq::empty()
    } else {
        match spec_row_point(rows[0]) {
            Some(p) => seq![p] + spec_kline_points(rows.skip(1)),
            None => spec_kline_points(rows.skip(1)),
        }
    }
}

fn extract_row_point(row: &Vec<serde_json::Value>) -> (r: Option<(i64, u64)>)
    ensures
        r == spec_row_point(*row),
        (r matches Some(p) ==> valid_entry(p)),
{
    if row.len() >= 5 {
        match row[0].as_i64() {
            Some(ts) => {
                if 0 <= ts && ts <= MAX_TIMESTAMP_MS {
                    match row[4].as_str() {
                        Some(ps) => match parse_price_cents(ps) {
                            Some(cents) => Some((ts, cents)),
                            None => None,
                        },
                        None => None,
                    }
                } else {
                    None
                }
            },
            None => None,
        }
    } else {
        None
    }
}

/// Pulls (open time, close price in cents) out of the kline rows, oldest
/// first as supplied: exactly the points of `spec_kline_points`, one per
/// usable row in row order. A row that is too short, carries a non-integer
/// or out-of-window time, or an unparseable price is dropped: the display
/// can do nothing with it. A round that yields no point at all is the
/// no-data error.
pub fn extract_klines(data: &Vec<Vec<serde_json::Value>>) -> (r: Result<
    Vec<(i64, u64)>,
    FetchError,
>)
    ensures
        match r {
            Ok(points) => points@ == spec_kline_points(data@) && points@.len() >= 1 && forall|
                i: int,
            | 0 <= i < points@.len() ==> valid_entry(#[trigger] points@[i]),
            Err(e) => e == FetchError::NoData && spec_kline_points(data@).len() == 0,
        },
{
    let mut out: Vec<(i64, u64)> = Vec::new();
    let n = data.len();
    let mut i: usize = 0;
    proof {
        assert(data@.skip(0) =~= data@);
        assert(out@ + spec_kline_points(data@) =~= spec_kline_points(data@));
    }
    while i < n
        invariant
            0 <= i <= n,
            n == data@.len(),
            spec_kline_points(data@) == out@ + spec_kline_points(data@.skip(i as int)),
            forall|j: int| 0 <= j < out@.len() ==> valid_entry(#[trigger] out@[j]),
        decreases n - i,
    {
        let ghost rest = data@.skip(i as int);
        match extract_row_point(&data[i]) {
            Some(p) => {
                out.push(p);
            },
            None => {},
        }
        proof {
            assert(rest[0] == data@[i as int]);
            assert(rest.skip(1) =~= data@.skip(i as int + 1));
            assert(spec_kline_points(data@) =~= out@ + spec_kline_points(
                data@.skip(i as int + 1),
            ));
        }
        i = i + 1;
    }
    proof {
        assert(data@.skip(n as int) =~= Seq::<Vec<serde_json::Value>>::empty());
        assert(out@ =~= spec_kline_points(data@));
    }
    if out.len() == 0 {
        Err(FetchError::NoData)
    } else {
        Ok(out)
    }
}

} // verus!
