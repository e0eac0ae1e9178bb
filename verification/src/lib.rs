//! Minerva server: a state cache fed by a simulation engine, and command
//! dispatch back to it. See [`StateCache`] and [`Dispatcher`].

pub mod commands;
pub mod events;
pub mod ids;
pub mod laws;
pub mod model;
pub mod proto;
pub mod sending;
pub mod server;
pub mod services;
pub mod state;
pub mod status;
pub mod table;
pub mod text;

pub use commands::{Command, CommandOutcome, CommandSink, Dispatcher};
pub use ids::{CommandId, GroupId, UnitId};
pub use state::StateCache;
pub use status::{Code, Status};
