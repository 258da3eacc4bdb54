//! What the broker's payloads say, as typed values, and what follows from it.

pub mod account;
pub mod alert;
pub mod analytics;
pub mod average_error;
pub mod average_laws;
pub mod calendar;
pub mod chart;
pub mod chart_laws;
pub mod derivative;
pub mod holding;
pub mod news;
pub mod pending;
pub mod preview;
pub mod quote;
pub mod trail;

pub use account::Account;
pub use alert::PriceAlert;
pub use analytics::{AllocSlice, Analytics};
pub use calendar::{civil_from_days, days_from_civil, parse_iso8601};
pub use chart::{Candle, Chart, ChartPoint};
pub use derivative::{Derivative, DerivativesPage};
pub use holding::Holding;
pub use news::{NewsItem, SecurityNews};
pub use pending::{OrderType, PendingOrder, Side};
pub use preview::TradePreview;
pub use quote::{Performance, Quote, Window};
pub use trail::Trail;
