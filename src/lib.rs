pub mod decimal;
pub mod order_book;
pub mod book_laws;
pub mod order;
pub mod account;
pub mod strategy;
pub mod fok;
pub mod ioc;
pub mod stop;
pub mod chain;
pub mod vwap;
pub mod adapter;
pub mod message;
pub mod logger_config;
pub mod state;
pub mod engine;
pub mod dispatch;
pub mod engine_laws;
mod clock;
mod registry;
