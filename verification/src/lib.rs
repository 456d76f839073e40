pub mod account;
pub mod archive;
pub mod auth;
pub mod cache;
pub mod clock;
pub mod daemon;
pub mod digest;
pub mod driver;
pub mod error;
pub mod fetch;
pub mod hook;
pub mod html;
pub mod http;
pub mod json;
pub mod ledger;
pub mod paths;
pub mod reconcile;
pub mod release;
pub mod text;
pub mod web;
