//! Per-symbol display state: the latest snapshot fields plus the bounded
//! rolling price history, oldest first, and its chart-ready projections.

use vstd::prelude::*;

use crate::clock;
use crate::decimal::string_push_char;
use crate::market::{TickerData, TickerView, MAX_CHANGE_HUNDREDTHS, MAX_PRICE_CENTS,
    MAX_TIMESTAMP_MS};

verus! {

use vstd::string::{StrSliceExecFns, StringExecFns};

/// How many price points each symbol keeps.
pub const MAX_HISTORY: usize = 60;

pub open spec fn usdt() -> Seq<char> {
    seq!['U', 'S', 'D', 'T']
}

pub open spec fn slash_usdt() -> Seq<char> {
    seq!['/', 'U', 'S', 'D', 'T']
}

/// Every "USDT" in `s` replaced by "/USDT", scanning left to right.
pub open spec fn replace_usdt(s: Seq<char>) -> Seq<char>
    decreases s.len(),
{
    if s.len() >= 4 && s.take(4) == usdt() {
        slash_usdt() + replace_usdt(s.skip(4))
    } else if s.len() == 0 {
        Seq::empty()
    } else {
        seq![s[0]] + replace_usdt(s.skip(1))
    }
}

/// The display label: the symbol with "USDT" marked off by a slash,
/// computed once at creation.
fn derive_display_name(symbol: &str) -> (r: String)
    ensures
        r@ == replace_usdt(symbol@),
{
    let n = symbol.unicode_len();
    let mut out = String::new();
    let mut i: usize = 0;
    proof {
        assert(symbol@.skip(0) =~= symbol@);
        assert(out@ + replace_usdt(symbol@) =~= replace_usdt(symbol@));
    }
    while i < n
        invariant
            0 <= i <= n,
            n == symbol@.len(),
            replace_usdt(symbol@) == out@ + replace_usdt(symbol@.skip(i as int)),
        decreases n - i,
    {
        let ghost rest = symbol@.skip(i as int);
        if n - i >= 4 && symbol.get_char(i) == 'U' && symbol.get_char(i + 1) == 'S'
            && symbol.get_char(i + 2) == 'D' && symbol.get_char(i + 3) == 'T' {
            out.append("/USDT");
            proof {
                reveal_strlit("/USDT");
                assert("/USDT"@ =~= slash_usdt());
                assert(rest.take(4) =~= usdt());
                assert(rest.skip(4) =~= symbol@.skip(i as int + 4));
                assert(replace_usdt(symbol@) =~= out@ + replace_usdt(
                    symbol@.skip(i as int + 4),
                ));
            }
            i = i + 4;
        } else {
            let piece = symbol.substring_char(i, i + 1);
            out.append(piece);
            proof {
                assert(piece@ =~= seq![rest[0]]);
                if rest.len() >= 4 {
                    assert(rest.take(4) != usdt()) by {
                        if rest.take(4) == usdt() {
                            assert(rest.take(4)[0] == rest[0] && rest.take(4)[1] == rest[1]
                                && rest.take(4)[2] == rest[2] && rest.take(4)[3] == rest[3]);
                            assert(usdt()[0] == 'U' && usdt()[1] == 'S' && usdt()[2] == 'D'
                                && usdt()[3] == 'T');
                        }
                    }
                }
                assert(rest.skip(1) =~= symbol@.skip(i as int + 1));
                assert(replace_usdt(symbol@) =~= out@ + replace_usdt(
                    symbol@.skip(i as int + 1),
                ));
            }
            i = i + 1;
        }
    }
    proof {
        assert(symbol@.skip(n as int) =~= Seq::<char>::empty());
        assert(replace_usdt(symbol@) =~= out@);
    }
    out
}

/// One history entry stays inside the representable ranges.
pub open spec fn valid_entry(e: (i64, u64)) -> bool {
    &&& 0 <= e.0 <= MAX_TIMESTAMP_MS
    &&& e.1 <= MAX_PRICE_CENTS
}

/// Everything the display needs for one symbol.
#[derive(Clone, Debug)]
pub struct CoinData {
    pub symbol: String,
    pub display_name: String,
    /// Last traded price, in cents.
    pub price: u64,
    /// 24h change, in hundredths of a percent; negative for a fall.
    pub change_24h: i64,
    pub high_24h: u64,
    pub low_24h: u64,
    /// 24h traded volume, in whole units.
    pub volume_24h: u64,
    /// (timestamp ms, price cents) pairs, oldest first, at most MAX_HISTORY.
    pub price_history: Vec<(i64, u64)>,
}

/// The mathematical content of a coin's state.
pub ghost struct CoinView {
    pub symbol: Seq<char>,
    pub display_name: Seq<char>,
    pub price: u64,
    pub change_24h: i64,
    pub high_24h: u64,
    pub low_24h: u64,
    pub volume_24h: u64,
    pub history: Seq<(i64, u64)>,
}

impl View for CoinData {
    type V = CoinView;

    open spec fn view(&self) -> CoinView {
        CoinView {
            symbol: self.symbol@,
            display_name: self.display_name@,
            price: self.price,
            change_24h: self.change_24h,
            high_24h: self.high_24h,
            low_24h: self.low_24h,
            volume_24h: self.volume_24h,
            history: self.price_history@,
        }
    }
}

impl CoinView {
    /// The label is the pure function of the symbol, the history is bounded
    /// and its entries representable, and the headline numbers stay in
    /// range.
    pub open spec fn wf(self) -> bool {
        &&& self.display_name == replace_usdt(self.symbol)
        &&& self.history.len() <= MAX_HISTORY
        &&& (forall|i: int| 0 <= i < self.history.len() ==> valid_entry(#[trigger] self.history[i]))
        &&& self.price <= MAX_PRICE_CENTS
        &&& -MAX_CHANGE_HUNDREDTHS <= self.change_24h <= MAX_CHANGE_HUNDREDTHS
    }
}

impl CoinData {
    pub open spec fn wf(self) -> bool {
        self@.wf()
    }

    /// Fresh state for one symbol: zeroed statistics, empty history, the
    /// display label derived once.
    pub fn new(symbol: &str) -> (c: CoinData)
        ensures
            c@ == (CoinView {
                symbol: symbol@,
                display_name: replace_usdt(symbol@),
                price: 0,
                change_24h: 0,
                high_24h: 0,
                low_24h: 0,
                volume_24h: 0,
                history: Seq::empty(),
            }),
            c.wf(),
    {
        let display_name = derive_display_name(symbol);
        let c = CoinData {
            symbol: symbol.to_owned(),
            display_name,
            price: 0,
            change_24h: 0,
            high_24h: 0,
            low_24h: 0,
            volume_24h: 0,
            price_history: Vec::new(),
        };
        proof {
            assert(c@.history =~= Seq::<(i64, u64)>::empty());
        }
        c
    }
}

/// One new point at the newest end; at capacity the oldest entry is
/// evicted first, so the buffer never outgrows MAX_HISTORY.
pub open spec fn push_evict(h: Seq<(i64, u64)>, e: (i64, u64)) -> Seq<(i64, u64)> {
    if h.len() >= MAX_HISTORY {
        h.skip(1).push(e)
    } else {
        h.push(e)
    }
}

/// A snapshot applied at time `ts`: the five headline fields replaced and
/// the new price appended to the history.
pub open spec fn spec_update(c: CoinView, t: TickerView, ts: i64) -> CoinView {
    CoinView {
        price: t.last_price,
        change_24h: t.price_change_percent,
        high_24h: t.high_price,
        low_24h: t.low_price,
        volume_24h: t.volume,
        history: push_evict(c.history, (ts, t.last_price)),
        ..c
    }
}

/// What a bulk load stores: the supplied points, truncated at the oldest
/// end to the newest MAX_HISTORY when more are supplied.
pub open spec fn spec_loaded(d: Seq<(i64, u64)>) -> Seq<(i64, u64)> {
    if d.len() <= MAX_HISTORY {
        d
    } else {
        d.skip(d.len() - MAX_HISTORY)
    }
}

/// The chart projection: each stored price under its 0-based rank.
pub open spec fn spec_indexed(h: Seq<(i64, u64)>) -> Seq<(usize, u64)> {
    Seq::new(h.len(), |i: int| (i as usize, h[i].1))
}

/// Smallest stored price (0 on an empty history).
pub open spec fn min_price(h: Seq<(i64, u64)>) -> u64
    decreases h.len(),
{
    if h.len() == 0 {
        0
    } else if h.len() == 1 {
        h[0].1
    } else if h.last().1 < min_price(h.drop_last()) {
        h.last().1
    } else {
        min_price(h.drop_last())
    }
}

/// Largest stored price (0 on an empty history).
pub open spec fn max_price(h: Seq<(i64, u64)>) -> u64
    decreases h.len(),
{
    if h.len() == 0 {
        0
    } else if h.len() == 1 {
        h[0].1
    } else if h.last().1 > max_price(h.drop_last()) {
        h.last().1
    } else {
        max_price(h.drop_last())
    }
}

/// The chart's vertical bounds: the stored extremes padded by a tenth of
/// their range on each side (rounded up, so any spread at all gets strict
/// padding); the fixed default range on an empty history.
pub open spec fn spec_price_bounds(h: Seq<(i64, u64)>) -> (i64, i64) {
    if h.len() == 0 {
        (0i64, 10000i64)
    } else {
        let mn = min_price(h) as int;
        let mx = max_price(h) as int;
        let pad = (mx - mn + 9) / 10;
        ((mn - pad) as i64, (mx + pad) as i64)
    }
}

pub proof fn lemma_min_max(h: Seq<(i64, u64)>)
    requires
        h.len() > 0,
    ensures
        min_price(h) <= max_price(h),
        forall|i: int| 0 <= i < h.len() ==> min_price(h) <= (#[trigger] h[i]).1 <= max_price(h),
        exists|i: int| 0 <= i < h.len() && (#[trigger] h[i]).1 == min_price(h),
        exists|i: int| 0 <= i < h.len() && (#[trigger] h[i]).1 == max_price(h),
    decreases h.len(),
{
    if h.len() == 1 {
        assert(h[0].1 == min_price(h));
    } else {
        lemma_min_max(h.drop_last());
        assert(forall|i: int| 0 <= i < h.len() - 1 ==> h.drop_last()[i] == #[trigger] h[i]);
        assert(h[h.len() - 1] == h.last());
        if min_price(h) == min_price(h.drop_last()) {
            let i = choose|i: int| 0 <= i < h.drop_last().len() && (#[trigger] h.drop_last()[i]).1
                == min_price(h.drop_last());
            assert(h[i].1 == min_price(h));
        }
        if max_price(h) == max_price(h.drop_last()) {
            let i = choose|i: int| 0 <= i < h.drop_last().len() && (#[trigger] h.drop_last()[i]).1
                == max_price(h.drop_last());
            assert(h[i].1 == max_price(h));
        }
    }
}

impl CoinData {
    /// Appends one price point, evicting the oldest at capacity.
    pub fn append_price(&mut self, ts: i64, price: u64)
        requires
            old(self).wf(),
            0 <= ts <= MAX_TIMESTAMP_MS,
            price <= MAX_PRICE_CENTS,
        ensures
            final(self)@ == (CoinView {
                history: push_evict(old(self)@.history, (ts, price)),
                ..old(self)@
            }),
            final(self).wf(),
    {
        let ghost h0 = self@.history;
        if self.price_history.len() >= MAX_HISTORY {
            self.price_history.remove(0);
            proof {
                assert(self.price_history@ =~= h0.skip(1));
            }
        }
        self.price_history.push((ts, price));
        proof {
            let hn = self@.history;
            assert(hn == push_evict(h0, (ts, price)));
            assert forall|i: int| 0 <= i < hn.len() implies valid_entry(#[trigger] hn[i]) by {
                if i < hn.len() - 1 {
                    if h0.len() >= MAX_HISTORY {
                        assert(hn[i] == h0[i + 1]);
                    } else {
                        assert(hn[i] == h0[i]);
                    }
                }
            }
        }
    }

    /// Applies a snapshot at an explicit timestamp.
    pub fn update_at(&mut self, ticker: &TickerData, now_ms: i64)
        requires
            old(self).wf(),
            ticker.wf(),
            0 <= now_ms <= MAX_TIMESTAMP_MS,
        ensures
            final(self)@ == spec_update(old(self)@, ticker@, now_ms),
            final(self).wf(),
    {
        self.price = ticker.last_price;
        self.change_24h = ticker.price_change_percent;
        self.high_24h = ticker.high_price;
        self.low_24h = ticker.low_price;
        self.volume_24h = ticker.volume;
        let price = self.price;
        self.append_price(now_ms, price);
    }

    /// Applies a snapshot stamped with the current wall clock, clamped into
    /// the representable window.
    pub fn update(&mut self, ticker: &TickerData)
        requires
            old(self).wf(),
            ticker.wf(),
        ensures
            exists|t: i64| 0 <= t <= MAX_TIMESTAMP_MS && final(self)@ == spec_update(
                old(self)@,
                ticker@,
                t,
            ),
            final(self).wf(),
    {
        let now = clock::now_millis();
        let t: i64 = if now < 0 {
            0
        } else if now > MAX_TIMESTAMP_MS {
            MAX_TIMESTAMP_MS
        } else {
            now
        };
        self.update_at(ticker, t);
        proof {
            assert(0 <= t <= MAX_TIMESTAMP_MS && self@ == spec_update(old(self)@, ticker@, t));
        }
    }

    /// Replaces the whole history with an externally supplied run of
    /// points, oldest first; the current price becomes the newest point's
    /// price when any point arrives.
    pub fn load_history(&mut self, data: Vec<(i64, u64)>)
        requires
            old(self).wf(),
            forall|i: int| 0 <= i < data@.len() ==> valid_entry(#[trigger] data@[i]),
        ensures
            final(self)@ == (CoinView {
                history: spec_loaded(data@),
                price: if data@.len() > 0 {
                    data@.last().1
                } else {
                    old(self)@.price
                },
                ..old(self)@
            }),
            final(self).wf(),
    {
        let start: usize = if data.len() > MAX_HISTORY {
            data.len() - MAX_HISTORY
        } else {
            0
        };
        let mut v: Vec<(i64, u64)> = Vec::new();
        let mut i = start;
        while i < data.len()
            invariant
                start <= i <= data@.len(),
                start == if data@.len() > MAX_HISTORY {
                    data@.len() - MAX_HISTORY
                } else {
                    0
                },
                v@ == data@.subrange(start as int, i as int),
            decreases data@.len() - i,
        {
            let e = data[i];
            v.push(e);
            proof {
                assert(v@ =~= data@.subrange(start as int, i as int + 1));
            }
            i = i + 1;
        }
        proof {
            assert(data@.subrange(start as int, data@.len() as int) =~= spec_loaded(data@));
        }
        self.price_history = v;
        if data.len() > 0 {
            self.price = data[data.len() - 1].1;
        }
    }

    /// Chart points: each stored price under its 0-based rank, the X axis
    /// decoupled from wall-clock spacing.
    pub fn history_data(&self) -> (r: Vec<(usize, u64)>)
        ensures
            r@ == spec_indexed(self@.history),
    {
        let mut r: Vec<(usize, u64)> = Vec::new();
        let n = self.price_history.len();
        let mut i: usize = 0;
        while i < n
            invariant
                0 <= i <= n,
                n == self@.history.len(),
                r@.len() == i,
                forall|j: int| 0 <= j < i ==> #[trigger] r@[j] == (j as usize, self@.history[j].1),
            decreases n - i,
        {
            r.push((i, self.price_history[i].1));
            i = i + 1;
        }
        proof {
            assert(r@ =~= spec_indexed(self@.history));
        }
        r
    }

    /// The chart's vertical bounds, padded a tenth of the range outward on
    /// each side; the fixed default range when the history is empty.
    pub fn price_bounds(&self) -> (r: (i64, i64))
        requires
            self.wf(),
        ensures
            r == spec_price_bounds(self@.history),
    {
        let ghost h = self@.history;
        let n = self.price_history.len();
        if n == 0 {
            return (0, 10000);
        }
        let mut mn = self.price_history[0].1;
        let mut mx = self.price_history[0].1;
        let mut i: usize = 1;
        proof {
            assert(h.take(1).len() == 1 && h.take(1)[0] == h[0]);
        }
        while i < n
            invariant
                1 <= i <= n,
                n == h.len(),
                h == self@.history,
                self.wf(),
                mn == min_price(h.take(i as int)),
                mx == max_price(h.take(i as int)),
            decreases n - i,
        {
            let p = self.price_history[i].1;
            proof {
                assert(h.take(i as int + 1).drop_last() =~= h.take(i as int));
                assert(h.take(i as int + 1).last() == h[i as int]);
            }
            if p < mn {
                mn = p;
            }
            if p > mx {
                mx = p;
            }
            i = i + 1;
        }
        proof {
            assert(h.take(n as int) =~= h);
            lemma_min_max(h);
            let ghost wit = choose|j: int| 0 <= j < h.len() && (#[trigger] h[j]).1 == max_price(h);
            assert(valid_entry(h[wit]));
            assert(mx <= MAX_PRICE_CENTS);
        }
        let pad = (mx - mn + 9) / 10;
        ((mn as i64) - (pad as i64), (mx as i64) + (pad as i64))
    }

    /// The three axis timestamps: oldest point, the arithmetic midpoint of
    /// oldest and newest, and the newest point; None on an empty history.
    pub fn label_timestamps(&self) -> (r: Option<(i64, i64, i64)>)
        requires
            self.wf(),
        ensures
            match r {
                Some(t) => self@.history.len() > 0 && t.0 == self@.history[0].0 && t.2
                    == self@.history.last().0 && t.1 == (t.0 + t.2) / 2,
                None => self@.history.len() == 0,
            },
    {
        let n = self.price_history.len();
        if n == 0 {
            return None;
        }
        let first = self.price_history[0].0;
        let last = self.price_history[n - 1].0;
        proof {
            assert(valid_entry(self@.history[0]));
            assert(valid_entry(self@.history[n - 1]));
        }
        let mid = (((first as u64) + (last as u64)) / 2) as i64;
        Some((first, mid, last))
    }

    /// Three axis labels, "HH:MM" in local time, for the oldest point, the
    /// midpoint timestamp and the newest point; placeholders when the
    /// history is empty or a timestamp has no local representation.
    pub fn time_labels(&self) -> (r: Vec<String>)
        requires
            self.wf(),
        ensures
            r@.len() == 3,
            self@.history.len() == 0 ==> forall|i: int| 0 <= i < 3 ==> #[trigger] r@[i]@
                == placeholder_label(),
            forall|i: int| 0 <= i < 3 ==> is_time_label(#[trigger] r@[i]@),
    {
        let mut r: Vec<String> = Vec::new();
        match self.label_timestamps() {
            None => {
                r.push(placeholder_string());
                r.push(placeholder_string());
                r.push(placeholder_string());
            },
            Some((first, mid, last)) => {
                r.push(time_label_for(first));
                r.push(time_label_for(mid));
                r.push(time_label_for(last));
            },
        }
        r
    }
}

/// The stand-in label shown when no time can be rendered.
pub open spec fn placeholder_label() -> Seq<char> {
    seq!['-', '-', ':', '-', '-']
}

/// An "HH:MM" label, both parts zero-padded.
pub open spec fn hm_label(h: u32, m: u32) -> Seq<char> {
    crate::decimal::two_digits(h as nat) + seq![':'] + crate::decimal::two_digits(m as nat)
}

/// A well-formed axis label: either the placeholder or some wall-clock
/// hour and minute.
pub open spec fn is_time_label(s: Seq<char>) -> bool {
    s == placeholder_label() || exists|h: u32, m: u32| h < 24 && m < 60 && s == hm_label(h, m)
}

/// What one drawn clock value renders as: "HH:MM" when the clock had an
/// hour and minute, the placeholder when it had none.
pub open spec fn spec_clock_label(hm: Option<(u32, u32)>) -> Seq<char> {
    match hm {
        Some(p) => hm_label(p.0, p.1),
        None => placeholder_label(),
    }
}

/// Renders one drawn clock value; this is the whole label logic, exact for
/// every value the clock can hand back.
pub fn hm_to_label(hm: Option<(u32, u32)>) -> (s: String)
    requires
        (hm matches Some(p) ==> p.0 < 100 && p.1 < 100),
    ensures
        s@ == spec_clock_label(hm),
{
    match hm {
        Some((h, m)) => {
            let s = crate::decimal::append_two_digits(String::new(), h as u64);
            let mut s = s;
            string_push_char(&mut s, ':');
            let s = crate::decimal::append_two_digits(s, m as u64);
            proof {
                assert(s@ =~= hm_label(h, m));
            }
            s
        },
        None => placeholder_string(),
    }
}

fn placeholder_string() -> (s: String)
    ensures
        s@ == placeholder_label(),
{
    let mut s = String::new();
    string_push_char(&mut s, '-');
    string_push_char(&mut s, '-');
    string_push_char(&mut s, ':');
    string_push_char(&mut s, '-');
    string_push_char(&mut s, '-');
    proof {
        assert(s@ =~= placeholder_label());
    }
    s
}

/// Draws the local clock for one timestamp and renders it through
/// `hm_to_label`; whatever the clock hands back, the label is exactly that
/// value's rendering.
fn time_label_for(ts_ms: i64) -> (s: String)
    ensures
        exists|hm: Option<(u32, u32)>| s@ == spec_clock_label(hm) && (hm matches Some(p) ==> p.0
            < 24 && p.1 < 60),
        is_time_label(s@),
{
    let hm = clock::local_hour_minute(ts_ms);
    let s = hm_to_label(hm);
    proof {
        assert(s@ == spec_clock_label(hm) && (hm matches Some(p) ==> p.0 < 24 && p.1 < 60));
    }
    s
}

// ---------------------------------------------------------------------------
// Laws of the rolling history
// ---------------------------------------------------------------------------

/// All of `entries` appended in order, each through the evicting append.
pub open spec fn append_all(h: Seq<(i64, u64)>, entries: Seq<(i64, u64)>) -> Seq<(i64, u64)>
    decreases entries.len(),
{
    if entries.len() == 0 {
        h
    } else {
        append_all(push_evict(h, entries[0]), entries.skip(1))
    }
}

/// Law of the bounded buffer: however many points are appended, the buffer
/// holds exactly min(total, MAX_HISTORY) entries, and they are exactly the
/// most recent points in arrival order.
pub proof fn lemma_append_all_bounded(h: Seq<(i64, u64)>, entries: Seq<(i64, u64)>)
    requires
        h.len() <= MAX_HISTORY,
    ensures
        append_all(h, entries).len() == if h.len() + entries.len() <= MAX_HISTORY {
            (h.len() + entries.len()) as int
        } else {
            MAX_HISTORY as int
        },
        append_all(h, entries) == (h + entries).skip(
            h.len() + entries.len() - append_all(h, entries).len(),
        ),
    decreases entries.len(),
{
    if entries.len() == 0 {
        assert(h + entries =~= h);
        assert((h + entries).skip(0) =~= h + entries);
    } else {
        let e0 = entries[0];
        let rest = entries.skip(1);
        let h1 = push_evict(h, e0);
        lemma_append_all_bounded(h1, rest);
        if h.len() < MAX_HISTORY {
            assert(h1 + rest =~= h + entries);
        } else {
            assert(h1 =~= h.skip(1).push(e0));
            assert(h1 + rest =~= (h + entries).skip(1));
            let l = append_all(h1, rest).len();
            assert((h + entries).skip(1).skip(h1.len() + rest.len() - l) =~= (h + entries).skip(
                h.len() + entries.len() - l,
            ));
        }
    }
}

/// Law of the indexed projection after a bulk load: indices run 0..n-1 in
/// input order and the prices are preserved exactly.
pub proof fn lemma_bulk_load_indexed(data: Seq<(i64, u64)>)
    requires
        data.len() <= MAX_HISTORY,
    ensures
        spec_loaded(data) == data,
        spec_indexed(spec_loaded(data)).len() == data.len(),
        forall|i: int| 0 <= i < data.len() ==> spec_indexed(spec_loaded(data))[i] == (
            i as usize,
            (#[trigger] data[i]).1,
        ),
{
}

/// Law of the padded bounds: an empty history gets the fixed default
/// range; otherwise the bounds stand strictly outside the stored extremes
/// whenever any two prices differ, and equal the constant price when all
/// prices are equal.
pub proof fn lemma_value_bounds(h: Seq<(i64, u64)>)
    requires
        forall|i: int| 0 <= i < h.len() ==> valid_entry(#[trigger] h[i]),
    ensures
        h.len() == 0 ==> spec_price_bounds(h) == (0i64, 10000i64),
        h.len() > 0 ==> spec_price_bounds(h).0 <= min_price(h) && spec_price_bounds(h).1
            >= max_price(h),
        h.len() > 0 && min_price(h) < max_price(h) ==> spec_price_bounds(h).0 < min_price(h)
            && spec_price_bounds(h).1 > max_price(h),
        h.len() > 0 && min_price(h) == max_price(h) ==> spec_price_bounds(h).0 == min_price(h)
            && spec_price_bounds(h).1 == max_price(h),
        h.len() > 0 ==> forall|i: int| 0 <= i < h.len() ==> min_price(h) <= (#[trigger] h[i]).1
            <= max_price(h),
        h.len() > 0 ==> exists|i: int| 0 <= i < h.len() && (#[trigger] h[i]).1 == min_price(h),
        h.len() > 0 ==> exists|i: int| 0 <= i < h.len() && (#[trigger] h[i]).1 == max_price(h),
{
    if h.len() > 0 {
        lemma_min_max(h);
        let wit_min = choose|i: int| 0 <= i < h.len() && (#[trigger] h[i]).1 == min_price(h);
        let wit_max = choose|i: int| 0 <= i < h.len() && (#[trigger] h[i]).1 == max_price(h);
        assert(valid_entry(h[wit_min]));
        assert(valid_entry(h[wit_max]));
    }
}

} // verus!
