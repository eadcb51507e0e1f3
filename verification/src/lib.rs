//! Live-data state engine for a terminal market watcher.
//!
//! The crate holds the verified core: the bounded rolling price history per
//! symbol, the per-round merge of fetch results with partial-failure
//! tolerance, the chart-ready projections (bounds, axis labels, index
//! series), the multi-pane grid layout, and the numeric formatting routines.
//! Network and terminal I/O live outside the library and hand it plain
//! values: prices and 24h highs/lows travel as integer cents, percent
//! changes as hundredths of a percent, volumes as whole units.

pub mod clock;
pub mod coin;
pub mod decimal;
pub mod events;
pub mod klines;
pub mod layout;
pub mod market;
pub mod money;
pub mod state;
pub mod symbols;
