//! Whole-application state: the ordered coin list, scrolling, the status
//! line, and the serial merge of one concurrent fetch round's results.
//!
//! The event loop and all network traffic live outside the library; they
//! hand completed round results in here, where the merge is keyed by symbol
//! and one symbol's failure never disturbs another's state.

use vstd::prelude::*;

use crate::clock;
use crate::coin::{replace_usdt, spec_loaded, spec_update, valid_entry, CoinData, CoinView};
use crate::market::{
    fetch_error_status, history_error_status, spec_fetch_error_status, spec_history_error_status,
    FetchError, TickerData, TickerView, MAX_TIMESTAMP_MS,
};
use crate::money::{ago_label, spec_ago};

verus! {

use vstd::string::StringExecFns;

/// How many chart panes one page of the grid shows.
pub const VISIBLE_PER_PAGE: usize = 4;

/// The one mutable application state, owned by the control thread.
pub struct App {
    /// One entry per configured symbol, in the user's order.
    pub coins: Vec<CoinData>,
    /// When the last snapshot round completed, in epoch milliseconds.
    pub last_update: Option<i64>,
    pub running: bool,
    /// The first visible coin's index; moves one row at a time.
    pub scroll_offset: usize,
    /// The single-line status readout.
    pub status_message: String,
}

/// The mathematical content of the application state.
pub ghost struct AppView {
    pub coins: Seq<CoinView>,
    pub last_update: Option<i64>,
    pub running: bool,
    pub scroll_offset: usize,
    pub status: Seq<char>,
}

pub open spec fn coins_view(coins: Seq<CoinData>) -> Seq<CoinView> {
    Seq::new(coins.len(), |i: int| coins[i]@)
}

impl View for App {
    type V = AppView;

    open spec fn view(&self) -> AppView {
        AppView {
            coins: coins_view(self.coins@),
            last_update: self.last_update,
            running: self.running,
            scroll_offset: self.scroll_offset,
            status: self.status_message@,
        }
    }
}

/// The scroll offset stays in `[0, max(0, n - 2)]`: with more than two
/// coins at least two remain visible, and with fewer there is no scrolling.
/// The window shows up to VISIBLE_PER_PAGE coins, so the last window can
/// hold between two and a full page of them.
pub open spec fn scroll_ok(o: usize, n: nat) -> bool {
    o == 0 || (n >= 2 && o + 2 <= n)
}

pub open spec fn spec_scroll_up(o: usize) -> usize {
    if o > 0 {
        (o - 1) as usize
    } else {
        0usize
    }
}

pub open spec fn spec_scroll_down(o: usize, n: nat) -> usize {
    if o + 2 < n {
        (o + 1) as usize
    } else {
        o
    }
}

impl AppView {
    pub open spec fn wf(self) -> bool {
        &&& (forall|i: int| 0 <= i < self.coins.len() ==> (#[trigger] self.coins[i]).wf())
        &&& scroll_ok(self.scroll_offset, self.coins.len())
        &&& (self.last_update matches Some(t) ==> 0 <= t <= MAX_TIMESTAMP_MS)
    }
}

impl App {
    pub open spec fn wf(self) -> bool {
        self@.wf()
    }

    /// Fresh state over the configured symbols, in their given order.
    pub fn new(symbols: Vec<String>) -> (a: App)
        ensures
            a@.coins.len() == symbols@.len(),
            forall|i: int| 0 <= i < symbols@.len() ==> (#[trigger] a@.coins[i]) == (CoinView {
                symbol: symbols@[i]@,
                display_name: replace_usdt(symbols@[i]@),
                price: 0,
                change_24h: 0,
                high_24h: 0,
                low_24h: 0,
                volume_24h: 0,
                history: Seq::empty(),
            }),
            a@.last_update is None,
            a@.running == true,
            a@.scroll_offset == 0,
            a@.status == "Starting..."@,
            a.wf(),
    {
        let mut coins: Vec<CoinData> = Vec::new();
        let n = symbols.len();
        let mut i: usize = 0;
        while i < n
            invariant
                0 <= i <= n,
                n == symbols@.len(),
                coins@.len() == i,
                forall|j: int| 0 <= j < i ==> (#[trigger] coins@[j])@ == (CoinView {
                    symbol: symbols@[j]@,
                    display_name: replace_usdt(symbols@[j]@),
                    price: 0,
                    change_24h: 0,
                    high_24h: 0,
                    low_24h: 0,
                    volume_24h: 0,
                    history: Seq::empty(),
                }),
                forall|j: int| 0 <= j < i ==> (#[trigger] coins@[j]).wf(),
            decreases n - i,
        {
            let c = CoinData::new(symbols[i].as_str());
            coins.push(c);
            i = i + 1;
        }
        App {
            coins,
            last_update: None,
            running: true,
            scroll_offset: 0,
            status_message: String::from_str("Starting..."),
        }
    }

    /// Moves the window up one row; a no-op at the top.
    pub fn scroll_up(&mut self)
        requires
            old(self).wf(),
        ensures
            final(self)@ == (AppView {
                scroll_offset: spec_scroll_up(old(self)@.scroll_offset),
                ..old(self)@
            }),
            final(self).wf(),
    {
        if self.scroll_offset > 0 {
            self.scroll_offset = self.scroll_offset - 1;
        }
    }

    /// Moves the window down one row; a no-op once only two rows remain
    /// below the top of the window.
    pub fn scroll_down(&mut self)
        requires
            old(self).wf(),
        ensures
            final(self)@ == (AppView {
                scroll_offset: spec_scroll_down(
                    old(self)@.scroll_offset,
                    old(self)@.coins.len(),
                ),
                ..old(self)@
            }),
            final(self).wf(),
    {
        let n = self.coins.len();
        if n >= 2 && self.scroll_offset < n - 2 {
            self.scroll_offset = self.scroll_offset + 1;
        }
    }

    /// Asks the event loop to stop.
    pub fn quit(&mut self)
        requires
            old(self).wf(),
        ensures
            final(self)@ == (AppView { running: false, ..old(self)@ }),
            final(self).wf(),
    {
        self.running = false;
    }

    /// The window of coins on screen: up to one page starting at the
    /// scroll offset.
    pub fn visible_range(&self) -> (r: (usize, usize))
        requires
            self.wf(),
        ensures
            r.0 <= r.1 <= self@.coins.len(),
            r.0 == if self@.scroll_offset <= self@.coins.len() {
                self@.scroll_offset as int
            } else {
                self@.coins.len() as int
            },
            r.1 == if self@.scroll_offset + VISIBLE_PER_PAGE <= self@.coins.len() {
                self@.scroll_offset + VISIBLE_PER_PAGE
            } else {
                self@.coins.len() as int
            },
    {
        let n = self.coins.len();
        let start = if self.scroll_offset <= n {
            self.scroll_offset
        } else {
            n
        };
        let end = if n >= VISIBLE_PER_PAGE && start <= n - VISIBLE_PER_PAGE {
            start + VISIBLE_PER_PAGE
        } else {
            n
        };
        (start, end)
    }

    /// "Never" before the first completed round, then the elapsed label
    /// for the stamp against some reading of the wall clock.
    pub fn last_update_str(&self) -> (r: String)
        requires
            self.wf(),
        ensures
            self@.last_update is None ==> r@ == "Never"@,
            self@.last_update matches Some(t) ==> exists|now: i64| r@ == spec_ago(
                spec_elapsed_secs(t, now),
            ),
    {
        match self.last_update {
            None => String::from_str("Never"),
            Some(t) => {
                let now = clock::now_millis();
                let r = elapsed_label(t, now);
                proof {
                    assert(r@ == spec_ago(spec_elapsed_secs(t, now)));
                }
                r
            },
        }
    }
}

// ---------------------------------------------------------------------------
// Merging one round's results
// ---------------------------------------------------------------------------

/// Index of the first coin with the given symbol, or -1 when none match.
pub open spec fn first_match(coins: Seq<CoinView>, sym: Seq<char>) -> int
    decreases coins.len(),
{
    if coins.len() == 0 {
        -1
    } else if coins[0].symbol == sym {
        0
    } else if first_match(coins.skip(1), sym) < 0 {
        -1
    } else {
        1 + first_match(coins.skip(1), sym)
    }
}

proof fn lemma_first_match_at(coins: Seq<CoinView>, sym: Seq<char>, k: int)
    requires
        0 <= k <= coins.len(),
        forall|j: int| 0 <= j < k ==> (#[trigger] coins[j]).symbol != sym,
        k < coins.len() ==> coins[k].symbol == sym,
    ensures
        first_match(coins, sym) == if k < coins.len() {
            k
        } else {
            -1int
        },
    decreases coins.len(),
{
    if coins.len() == 0 {
    } else if coins[0].symbol == sym {
        assert(k == 0);
    } else {
        assert(k >= 1);
        assert(forall|j: int| 0 <= j < k - 1 ==> (#[trigger] coins.skip(1)[j]) == coins[j + 1]);
        lemma_first_match_at(coins.skip(1), sym, k - 1);
    }
}

pub proof fn lemma_first_match_props(coins: Seq<CoinView>, sym: Seq<char>)
    ensures
        -1 <= first_match(coins, sym) < coins.len(),
        first_match(coins, sym) >= 0 ==> coins[first_match(coins, sym)].symbol == sym,
        first_match(coins, sym) == -1 ==> forall|j: int| 0 <= j < coins.len() ==> (
        #[trigger] coins[j]).symbol != sym,
        forall|j: int| 0 <= j < first_match(coins, sym) ==> (#[trigger] coins[j]).symbol != sym,
    decreases coins.len(),
{
    if coins.len() == 0 {
    } else if coins[0].symbol == sym {
    } else {
        lemma_first_match_props(coins.skip(1), sym);
        assert(forall|j: int| 0 <= j < coins.skip(1).len() ==> (#[trigger] coins.skip(1)[j])
            == coins[j + 1]);
        if first_match(coins, sym) == -1 {
            assert forall|j: int| 0 <= j < coins.len() implies (#[trigger] coins[j]).symbol
                != sym by {
                if j >= 1 {
                    assert(coins.skip(1)[j - 1] == coins[j]);
                }
            }
        }
        assert forall|j: int| 0 <= j < first_match(coins, sym) implies (#[trigger] coins[j]).symbol
            != sym by {
            if j >= 1 {
                assert(coins.skip(1)[j - 1] == coins[j]);
            }
        }
    }
}

/// An Ok snapshot merged in: the first coin carrying the ticker's symbol
/// takes the update; when none does, nothing changes.
pub open spec fn spec_apply_ok(coins: Seq<CoinView>, t: TickerView, ts: i64) -> Seq<CoinView> {
    let k = first_match(coins, t.symbol);
    if k < 0 {
        coins
    } else {
        coins.update(k, spec_update(coins[k], t, ts))
    }
}

/// Frame of one merged snapshot: length and symbols are kept, coins with
/// other symbols are untouched, and the first match takes exactly the
/// update.
pub proof fn lemma_apply_ok_frame(coins: Seq<CoinView>, t: TickerView, ts: i64)
    ensures
        spec_apply_ok(coins, t, ts).len() == coins.len(),
        forall|l: int| 0 <= l < coins.len() ==> (#[trigger] spec_apply_ok(coins, t, ts)[l]).symbol
            == coins[l].symbol,
        forall|l: int| 0 <= l < coins.len() && (#[trigger] coins[l]).symbol != t.symbol
            ==> spec_apply_ok(coins, t, ts)[l] == coins[l],
        first_match(coins, t.symbol) >= 0 ==> spec_apply_ok(coins, t, ts)[first_match(
            coins,
            t.symbol,
        )] == spec_update(coins[first_match(coins, t.symbol)], t, ts),
{
    lemma_first_match_props(coins, t.symbol);
}

/// One symbol's backfill merged in: the first matching coin takes the
/// loaded history, and its price becomes the newest point's price.
pub open spec fn spec_apply_history(
    coins: Seq<CoinView>,
    sym: Seq<char>,
    data: Seq<(i64, u64)>,
) -> Seq<CoinView> {
    let k = first_match(coins, sym);
    if k < 0 {
        coins
    } else {
        coins.update(
            k,
            CoinView {
                history: spec_loaded(data),
                price: if data.len() > 0 {
                    data.last().1
                } else {
                    coins[k].price
                },
                ..coins[k]
            },
        )
    }
}

/// One snapshot round as the ghost sees it: symbols paired with outcomes.
pub open spec fn snapshot_round_view(results: Seq<(String, Result<TickerData, FetchError>)>) -> Seq<
    (Seq<char>, Result<TickerView, FetchError>),
> {
    Seq::new(
        results.len(),
        |i: int|
            (
                results[i].0@,
                match results[i].1 {
                    Result::Ok(t) => Result::<TickerView, FetchError>::Ok(t@),
                    Result::Err(e) => Result::<TickerView, FetchError>::Err(e),
                },
            ),
    )
}

/// One history round as the ghost sees it.
pub open spec fn history_round_view(
    results: Seq<(String, Result<Vec<(i64, u64)>, FetchError>)>,
) -> Seq<(Seq<char>, Result<Seq<(i64, u64)>, FetchError>)> {
    Seq::new(
        results.len(),
        |i: int|
            (
                results[i].0@,
                match results[i].1 {
                    Result::Ok(d) => Result::<Seq<(i64, u64)>, FetchError>::Ok(d@),
                    Result::Err(e) => Result::<Seq<(i64, u64)>, FetchError>::Err(e),
                },
            ),
    )
}

/// A whole snapshot round merged serially, first result first.
pub open spec fn spec_apply_snapshot_round(
    coins: Seq<CoinView>,
    round: Seq<(Seq<char>, Result<TickerView, FetchError>)>,
    ts: i64,
) -> Seq<CoinView>
    decreases round.len(),
{
    if round.len() == 0 {
        coins
    } else {
        let coins1 = match round[0].1 {
            Result::Ok(t) => spec_apply_ok(coins, t, ts),
            Result::Err(_) => coins,
        };
        spec_apply_snapshot_round(coins1, round.skip(1), ts)
    }
}

/// A whole history round merged serially, keyed by the paired symbol.
pub open spec fn spec_apply_history_round(
    coins: Seq<CoinView>,
    round: Seq<(Seq<char>, Result<Seq<(i64, u64)>, FetchError>)>,
) -> Seq<CoinView>
    decreases round.len(),
{
    if round.len() == 0 {
        coins
    } else {
        let coins1 = match round[0].1 {
            Result::Ok(d) => spec_apply_history(coins, round[0].0, d),
            Result::Err(_) => coins,
        };
        spec_apply_history_round(coins1, round.skip(1))
    }
}

/// The status lines of a snapshot round's failures, in round order.
pub open spec fn spec_round_errors(round: Seq<(Seq<char>, Result<TickerView, FetchError>)>) -> Seq<
    Seq<char>,
>
    decreases round.len(),
{
    if round.len() == 0 {
        Seq::empty()
    } else {
        let rest = spec_round_errors(round.skip(1));
        match round[0].1 {
            Result::Ok(_) => rest,
            Result::Err(e) => seq![spec_fetch_error_status(round[0].0, e)] + rest,
        }
    }
}

/// The status lines of a history round's failures, in round order.
pub open spec fn spec_history_round_errors(
    round: Seq<(Seq<char>, Result<Seq<(i64, u64)>, FetchError>)>,
) -> Seq<Seq<char>>
    decreases round.len(),
{
    if round.len() == 0 {
        Seq::empty()
    } else {
        let rest = spec_history_round_errors(round.skip(1));
        match round[0].1 {
            Result::Ok(_) => rest,
            Result::Err(e) => seq![spec_history_error_status(round[0].0, e)] + rest,
        }
    }
}

/// Finds the first coin whose symbol equals `sym`.
fn find_coin(coins: &Vec<CoinData>, sym: &String) -> (r: Option<usize>)
    ensures
        match r {
            Some(k) => k < coins@.len() && first_match(coins_view(coins@), sym@) == k as int,
            None => first_match(coins_view(coins@), sym@) == -1,
        },
{
    let n = coins.len();
    let mut i: usize = 0;
    while i < n
        invariant
            0 <= i <= n,
            n == coins@.len(),
            forall|j: int| 0 <= j < i ==> (#[trigger] coins_view(coins@)[j]).symbol != sym@,
        decreases n - i,
    {
        if coins[i].symbol == *sym {
            proof {
                lemma_first_match_at(coins_view(coins@), sym@, i as int);
            }
            return Some(i);
        }
        i = i + 1;
    }
    proof {
        lemma_first_match_at(coins_view(coins@), sym@, n as int);
    }
    None
}

impl App {
    /// Merges one successful snapshot, keyed by the ticker's symbol.
    pub fn apply_snapshot(&mut self, ticker: &TickerData, now_ms: i64)
        requires
            old(self).wf(),
            ticker.wf(),
            0 <= now_ms <= MAX_TIMESTAMP_MS,
        ensures
            final(self)@ == (AppView {
                coins: spec_apply_ok(old(self)@.coins, ticker@, now_ms),
                ..old(self)@
            }),
            final(self).wf(),
    {
        let ghost coins0 = self@.coins;
        match find_coin(&self.coins, &ticker.symbol) {
            None => {
                proof {
                    assert(self@ =~= (AppView {
                        coins: spec_apply_ok(coins0, ticker@, now_ms),
                        ..old(self)@
                    }));
                }
            },
            Some(k) => {
                let mut c = self.coins.remove(k);
                c.update_at(ticker, now_ms);
                self.coins.insert(k, c);
                proof {
                    let coins1 = spec_apply_ok(coins0, ticker@, now_ms);
                    assert(coins1 == coins0.update(k as int, spec_update(
                        coins0[k as int],
                        ticker@,
                        now_ms,
                    )));
                    assert(coins_view(self.coins@) =~= coins1);
                    assert(self@ =~= (AppView { coins: coins1, ..old(self)@ }));
                }
            },
        }
    }

    /// Merges one symbol's successful backfill.
    pub fn apply_backfill(&mut self, sym: &String, data: Vec<(i64, u64)>)
        requires
            old(self).wf(),
            forall|i: int| 0 <= i < data@.len() ==> valid_entry(#[trigger] data@[i]),
        ensures
            final(self)@ == (AppView {
                coins: spec_apply_history(old(self)@.coins, sym@, data@),
                ..old(self)@
            }),
            final(self).wf(),
    {
        let ghost coins0 = self@.coins;
        let ghost data0 = data@;
        match find_coin(&self.coins, sym) {
            None => {
                proof {
                    assert(self@ =~= (AppView {
                        coins: spec_apply_history(coins0, sym@, data0),
                        ..old(self)@
                    }));
                }
            },
            Some(k) => {
                let mut c = self.coins.remove(k);
                c.load_history(data);
                self.coins.insert(k, c);
                proof {
                    let coins1 = spec_apply_history(coins0, sym@, data0);
                    assert(coins_view(self.coins@) =~= coins1);
                    assert(self@ =~= (AppView { coins: coins1, ..old(self)@ }));
                }
            },
        }
    }

    /// Merges a whole snapshot round: every Ok result lands on its coin,
    /// every failure becomes one status line in the returned list, and the
    /// round's completion stamps the clock and the generic status.
    pub fn apply_snapshot_round(
        &mut self,
        results: Vec<(String, Result<TickerData, FetchError>)>,
        now_ms: i64,
    ) -> (errors: Vec<String>)
        requires
            old(self).wf(),
            0 <= now_ms <= MAX_TIMESTAMP_MS,
            forall|i: int| 0 <= i < results@.len() ==> ((#[trigger] results@[i]).1 matches Ok(t)
                ==> t.wf()),
        ensures
            final(self)@ == (AppView {
                coins: spec_apply_snapshot_round(
                    old(self)@.coins,
                    snapshot_round_view(results@),
                    now_ms,
                ),
                last_update: Some(now_ms),
                status: "Updated"@,
                ..old(self)@
            }),
            errors.deep_view() == spec_round_errors(snapshot_round_view(results@)),
            final(self).wf(),
    {
        let ghost round = snapshot_round_view(results@);
        let ghost coins0 = self@.coins;
        let ghost pre = self@;
        let mut errors: Vec<String> = Vec::new();
        let mut rem = results;
        proof {
            assert(snapshot_round_view(rem@) =~= round);
            assert(errors.deep_view() + spec_round_errors(round) =~= spec_round_errors(round));
        }
        while rem.len() > 0
            invariant
                0 <= now_ms <= MAX_TIMESTAMP_MS,
                self.wf(),
                forall|i: int| 0 <= i < rem@.len() ==> ((#[trigger] rem@[i]).1 matches Ok(t)
                    ==> t.wf()),
                spec_apply_snapshot_round(coins0, round, now_ms) == spec_apply_snapshot_round(
                    self@.coins,
                    snapshot_round_view(rem@),
                    now_ms,
                ),
                errors.deep_view() + spec_round_errors(snapshot_round_view(rem@))
                    == spec_round_errors(round),
                self@.last_update == pre.last_update,
                self@.running == pre.running,
                self@.scroll_offset == pre.scroll_offset,
                self@.status == pre.status,
            decreases rem.len(),
        {
            let ghost rem0 = snapshot_round_view(rem@);
            let ghost errs0 = errors.deep_view();
            let (sym, res) = rem.remove(0);
            proof {
                assert(snapshot_round_view(rem@) =~= rem0.skip(1));
            }
            match res {
                Result::Ok(t) => {
                    self.apply_snapshot(&t, now_ms);
                    proof {
                        assert(errors.deep_view() =~= errs0);
                    }
                },
                Result::Err(e) => {
                    let line = fetch_error_status(sym.as_str(), &e);
                    errors.push(line);
                    proof {
                        assert(errors.deep_view() =~= errs0 + seq![
                            spec_fetch_error_status(rem0[0].0, e),
                        ]);
                        assert(errs0 + (seq![spec_fetch_error_status(rem0[0].0, e)]
                            + spec_round_errors(rem0.skip(1))) =~= (errs0 + seq![
                            spec_fetch_error_status(rem0[0].0, e),
                        ]) + spec_round_errors(rem0.skip(1)));
                    }
                },
            }
        }
        proof {
            assert(snapshot_round_view(rem@).len() == 0);
            assert(errors.deep_view() + Seq::<Seq<char>>::empty() =~= errors.deep_view());
        }
        self.last_update = Some(now_ms);
        self.status_message = String::from_str("Updated");
        proof {
            assert(self@ =~= (AppView {
                coins: spec_apply_snapshot_round(coins0, round, now_ms),
                last_update: Some(now_ms),
                status: "Updated"@,
                ..pre
            }));
        }
        errors
    }

    /// Merges a whole backfill round: every Ok result replaces its coin's
    /// history, every failure becomes one status line in the returned list.
    /// The status and clock fields are left alone; the caller presents the
    /// failures as it sees fit.
    pub fn apply_history_round(
        &mut self,
        results: Vec<(String, Result<Vec<(i64, u64)>, FetchError>)>,
    ) -> (errors: Vec<String>)
        requires
            old(self).wf(),
            forall|i: int|
                0 <= i < results@.len() ==> ((#[trigger] results@[i]).1 matches Ok(d)
                    ==> forall|j: int| 0 <= j < d@.len() ==> valid_entry(#[trigger] d@[j])),
        ensures
            final(self)@ == (AppView {
                coins: spec_apply_history_round(old(self)@.coins, history_round_view(results@)),
                ..old(self)@
            }),
            errors.deep_view() == spec_history_round_errors(history_round_view(results@)),
            final(self).wf(),
    {
        let ghost round = history_round_view(results@);
        let ghost coins0 = self@.coins;
        let ghost pre = self@;
        let mut errors: Vec<String> = Vec::new();
        let mut rem = results;
        proof {
            assert(history_round_view(rem@) =~= round);
            assert(errors.deep_view() + spec_history_round_errors(round) =~= spec_history_round_errors(round));
        }
        while rem.len() > 0
            invariant
                self.wf(),
                forall|i: int|
                    0 <= i < rem@.len() ==> ((#[trigger] rem@[i]).1 matches Ok(d)
                        ==> forall|j: int| 0 <= j < d@.len() ==> valid_entry(#[trigger] d@[j])),
                spec_apply_history_round(coins0, round) == spec_apply_history_round(
                    self@.coins,
                    history_round_view(rem@),
                ),
                errors.deep_view() + spec_history_round_errors(history_round_view(rem@))
                    == spec_history_round_errors(round),
                self@.last_update == pre.last_update,
                self@.running == pre.running,
                self@.scroll_offset == pre.scroll_offset,
                self@.status == pre.status,
            decreases rem.len(),
        {
            let ghost rem0 = history_round_view(rem@);
            let ghost errs0 = errors.deep_view();
            let (sym, res) = rem.remove(0);
            proof {
                assert(history_round_view(rem@) =~= rem0.skip(1));
            }
            match res {
                Result::Ok(data) => {
                    self.apply_backfill(&sym, data);
                    proof {
                        assert(errors.deep_view() =~= errs0);
                    }
                },
                Result::Err(e) => {
                    let line = history_error_status(sym.as_str(), &e);
                    errors.push(line);
                    proof {
                        assert(errors.deep_view() =~= errs0 + seq![
                            spec_history_error_status(rem0[0].0, e),
                        ]);
                        assert(errs0 + (seq![spec_history_error_status(rem0[0].0, e)]
                            + spec_history_round_errors(rem0.skip(1))) =~= (errs0 + seq![
                            spec_history_error_status(rem0[0].0, e),
                        ]) + spec_history_round_errors(rem0.skip(1)));
                    }
                },
            }
        }
        proof {
            assert(history_round_view(rem@).len() == 0);
            assert(errors.deep_view() + Seq::<Seq<char>>::empty() =~= errors.deep_view());
            assert(self@ =~= (AppView {
                coins: spec_apply_history_round(coins0, round),
                ..pre
            }));
        }
        errors
    }
}

/// Law of partial failure, stale side: a coin whose symbol no successful
/// result of the round names comes out of the merge untouched.
pub proof fn lemma_round_preserves_unmatched(
    coins: Seq<CoinView>,
    round: Seq<(Seq<char>, Result<TickerView, FetchError>)>,
    ts: i64,
    j: int,
)
    requires
        0 <= j < coins.len(),
        forall|i: int| 0 <= i < round.len() ==> ((#[trigger] round[i]).1 matches Ok(t)
            ==> t.symbol != coins[j].symbol),
    ensures
        spec_apply_snapshot_round(coins, round, ts).len() == coins.len(),
        spec_apply_snapshot_round(coins, round, ts)[j] == coins[j],
    decreases round.len(),
{
    if round.len() == 0 {
    } else {
        let coins1 = match round[0].1 {
            Result::Ok(t) => spec_apply_ok(coins, t, ts),
            Result::Err(_) => coins,
        };
        match round[0].1 {
            Result::Ok(t) => {
                lemma_apply_ok_frame(coins, t, ts);
                assert(coins1[j] == coins[j]);
            },
            Result::Err(_) => {},
        }
        assert(forall|i: int| 0 <= i < round.skip(1).len() ==> (#[trigger] round.skip(1)[i])
            == round[i + 1]);
        lemma_round_preserves_unmatched(coins1, round.skip(1), ts, j);
    }
}

/// Law of partial failure, fresh side: when exactly one successful result
/// of the round carries a coin's symbol, and that coin is the first in the
/// list with its symbol, the merge leaves it exactly the applied snapshot,
/// whatever happened to every other symbol.
pub proof fn lemma_round_applies_success(
    coins: Seq<CoinView>,
    round: Seq<(Seq<char>, Result<TickerView, FetchError>)>,
    ts: i64,
    j: int,
    i: int,
)
    requires
        0 <= j < coins.len(),
        0 <= i < round.len(),
        forall|l: int| 0 <= l < j ==> (#[trigger] coins[l]).symbol != coins[j].symbol,
        round[i].1 matches Ok(t) && t.symbol == coins[j].symbol,
        forall|l: int| 0 <= l < round.len() && l != i ==> ((#[trigger] round[l]).1 matches Ok(t)
            ==> t.symbol != coins[j].symbol),
    ensures
        spec_apply_snapshot_round(coins, round, ts).len() == coins.len(),
        spec_apply_snapshot_round(coins, round, ts)[j] == spec_update(
            coins[j],
            round[i].1->Ok_0,
            ts,
        ),
    decreases round.len(),
{
    let t0 = round[i].1->Ok_0;
    assert(forall|l: int| 0 <= l < round.skip(1).len() ==> (#[trigger] round.skip(1)[l])
        == round[l + 1]);
    if i == 0 {
        let t = round[0].1->Ok_0;
        lemma_first_match_at(coins, t.symbol, j);
        lemma_apply_ok_frame(coins, t, ts);
        let coins1 = spec_apply_ok(coins, t, ts);
        assert(coins1[j] == spec_update(coins[j], t, ts));
        assert(coins1[j].symbol == coins[j].symbol);
        lemma_round_preserves_unmatched(coins1, round.skip(1), ts, j);
    } else {
        let coins1 = match round[0].1 {
            Result::Ok(t) => spec_apply_ok(coins, t, ts),
            Result::Err(_) => coins,
        };
        match round[0].1 {
            Result::Ok(t) => {
                lemma_apply_ok_frame(coins, t, ts);
                assert(coins1[j] == coins[j]);
                assert(forall|l: int| 0 <= l < j ==> (#[trigger] coins1[l]).symbol
                    == coins[l].symbol);
            },
            Result::Err(_) => {},
        }
        lemma_round_applies_success(coins1, round.skip(1), ts, j, i - 1);
    }
}

/// Whole seconds between the round stamp and a clock reading; a clock at
/// or before the stamp counts as zero.
pub open spec fn spec_elapsed_secs(stamp: i64, now: i64) -> nat {
    if now <= stamp {
        0nat
    } else {
        (((now - stamp) as int) / 1000) as nat
    }
}

/// The elapsed-time label for a round stamped at `stamp` when the clock
/// reads `now`: exact for every reading the clock can hand back.
pub fn elapsed_label(stamp: i64, now: i64) -> (r: String)
    requires
        0 <= stamp,
    ensures
        r@ == spec_ago(spec_elapsed_secs(stamp, now)),
{
    let secs: u64 = if now <= stamp {
        0
    } else {
        ((now - stamp) as u64) / 1000
    };
    ago_label(secs)
}

/// Law of pagination: from any valid offset both scroll moves land on a
/// valid offset, the window never overruns the coin list, and scrolling is
/// a no-op at either end.
pub proof fn lemma_scroll_bounds(o: usize, n: nat)
    requires
        scroll_ok(o, n),
    ensures
        scroll_ok(spec_scroll_up(o), n),
        scroll_ok(spec_scroll_down(o, n), n),
        o == 0 ==> spec_scroll_up(o) == o,
        o + 2 >= n ==> spec_scroll_down(o, n) == o,
        spec_scroll_down(o, n) == 0 || spec_scroll_down(o, n) + 2 <= n,
{
}

} // verus!
