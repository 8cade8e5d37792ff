//! The rules of a multiplayer bridge table service: auctions, cardplay,
//! event-sourced tables, rooms, sessions, bots and the frames they exchange.

pub mod actions;
pub mod auth;
pub mod boards;
pub mod bots;
pub mod cards;
mod chance;
pub mod config;
pub mod dealer;
pub mod deals;
pub mod directory;
pub mod engine;
pub mod events;
pub mod registry;
pub mod rooms;
pub mod routes;
pub mod seating;
pub mod sessions;
pub mod table;
pub mod text;
