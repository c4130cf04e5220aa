//! Deterministic event-driven backtesting: order books, an exchange simulator,
//! an event engine and trading statistics.
pub mod account;
pub mod backtest;
pub mod callbacks;
pub mod collections;
pub mod columns;
pub mod cost_basis;
pub mod engine;
pub mod engine_invariants;
pub mod engine_laws;
pub mod event;
pub mod event_laws;
pub mod event_queue;
pub mod exchange_laws;
pub mod exchange_simulator;
pub mod feeds;
pub mod fees;
pub mod fixtures;
pub mod heap;
pub mod hints;
pub mod ingest;
pub mod io;
pub mod l3_source;
pub mod latency_model;
pub mod math;
pub mod orderbook_l2;
pub mod orderbook_l3;
pub mod queue_model;
pub mod reproducibility;
pub mod risk_guard;
pub mod rng;
pub mod run_order;
pub mod schedule;
pub mod sim_state;
pub mod sim_view;
pub mod stats;
pub mod stats_laws;
pub mod strategy;
pub mod streaming;
pub mod sweep;
pub mod text;
pub mod tick_source;
pub mod tuner;
pub mod types;

pub use account::{Account, Position};
pub use engine::{Context, Engine, EngineConfig, EngineError, EngineMode, MarketView, Strategy};
pub use event::{Event, EventId, EventKind};
pub use event_queue::EventQueue;
pub use l3_source::{ArrowL3Source, L3Source};
pub use latency_model::{ConstantLatency, LatencyModel, LogNormalJitter};
pub use orderbook_l2::{MarketDepth, OrderBookL2};
pub use orderbook_l3::OrderBookL3;
pub use rng::make_small_rng;
pub use stats::{
    calculate_stats, BacktestStats, IncrementalStats, TradeFill, TradeLog, TradeLogMode,
};
pub use sweep::{run_parameter_sweep, SweepResult};
pub use tick_source::{ArrowTickSource, TickSource, TickSourceError};
pub use types::{
    FixedPoint, FundingEvent, L2Update, L3Update, Order, OrderReport, OrderState, OrderType, Side,
    Tick, TsExchangeNs, TsLocalNs, TsSimNs,
};
