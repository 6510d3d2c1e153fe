//! The team coordination core: the task board, delegated results, the activity
//! feed, the roster of members and the rules that start, clear, restart and
//! stop their runtimes.
pub mod activity;
pub mod addition;
pub mod board_laws;
pub mod board_spec;
pub mod config;
pub mod context_reset;
pub mod delegation;
pub mod engagements;
pub mod error;
pub mod graph;
pub mod idle;
pub mod input_context;
pub mod json;
pub mod membership;
pub mod models;
pub mod order;
pub mod paging;
pub mod reconcile;
pub mod removal;
pub mod restart;
pub mod result_delivery;
pub mod roster;
pub mod runtime;
pub mod scheduler;
pub mod search;
pub mod service;
pub mod session_start;
pub mod sessions;
pub mod task;
pub mod task_board;
pub mod task_laws;
pub mod team_removal;
pub mod teams;
pub mod text;
pub mod wake;
