//! A local developer process runner: sessions that run a command, keep its
//! recent output in rolling buffers, restart it when watched files change, and
//! answer questions about it.
//!
//! This crate holds every decision the runner makes. It starts no process,
//! opens no socket and reads no file: the program around it does, and hands
//! the outcomes in.

#![allow(unused_imports)]

pub mod cli;
pub mod clock;
pub mod daemon;
pub mod ids;
pub mod text;
