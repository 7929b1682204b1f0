//! Deterministic order-book state machine and read-only views.

mod book;
pub mod effects;
mod error;
pub mod laws;
pub mod model;
mod relation;
mod state;
mod view;

pub use book::{books_show_what_they_hold, BookConfig, OrderBook, UnknownTradePolicy};
pub use error::{
    book_key_name, book_key_text, market_name, market_text, order_key_name, order_key_text, side_name,
    side_text, BookError,
};
pub use model::{
    depth_is_unique, meta_model, revision_next, shown_quantity, shown_remaining, shown_weighted,
    BookModel, MetaModel, OrderModel, SideModel,
};
pub use state::{OrderLocation, MAX_STORED_ORDERS};
pub use view::{ApplyOutcome, BookSummary, DepthView, LevelView, OrderView, TradeStatisticsView};
