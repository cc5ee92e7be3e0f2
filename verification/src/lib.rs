//! Authoritative server core of Squirrel, a four-player trick-taking card game
//! of the Belote family: the card model, the game-state machine, sessions,
//! rooms, the matchmaker, the liveness sweep and the per-connection state
//! machine, each with a machine-checked contract.

pub mod cards;
pub mod chance;
pub mod connection;
pub mod deck;
pub mod duel;
pub mod engine;
pub mod game;
pub mod game_proofs;
pub mod manager;
pub mod manager_proofs;
pub mod messages;
pub mod monitor;
pub mod pool;
pub mod position;
pub mod room;
pub mod session;
pub mod telegram;
pub mod text;
pub mod token;
