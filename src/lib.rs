//! Task-graph engine with Kahn ordering and critical-path analysis, together
//! with the small stream-processing units, monad helpers and runtime report
//! that surround it.

pub mod adag;
pub mod counting;
pub mod cure_foundation;
pub mod elixir_check;
pub mod id_index;
pub mod menu;
pub mod monad_lambda;
pub mod order_laws;
pub mod signals;
pub mod storm;
pub mod str_map;
pub mod text;
pub mod trading;
pub mod trading_dag;
