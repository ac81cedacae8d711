//! newbbs: the logic of a bulletin board reached over ssh.
pub mod bus;
pub mod config;
pub mod db;
pub mod key;
pub mod model;
pub mod number;
pub mod order;
pub mod roles;
pub mod seqs;
pub mod ssh;
pub mod text;
pub mod ui;
