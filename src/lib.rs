//! A shared pixel canvas: games own fixed-size grids of RGB cells, single-cell
//! writes are validated and applied, and every accepted write is fanned out to
//! the live subscribers of its game.
pub mod canvas;
pub mod database;
pub mod handlers;
pub mod models;
pub mod websocket;
