//! A falling-block puzzle engine together with the discrete half of a
//! temporal-difference learning controller that plays it.

pub mod action;
pub mod piece;
pub mod board;
pub mod features;
pub mod generator;
pub mod game;
pub mod agent;
