//! Working with queues of dead letters: listing queues, receiving messages, and sending the items
//! of a job in batches.
//!
//! The library decides and computes; it does no input or output. A program around it talks to the
//! queue service, to the database and to the terminal. It hands over what came back as plain
//! values, and carries out what it is told.
//!
//! - What is sent: [`entry`], [`ids`], [`worker`] and [`failure`], with what holds of a batch and
//!   its reply in [`delivery`].
//! - How a job is sent: [`plan`], then the [`loader`], which stages items, and the [`writer`],
//!   which stores results as [`settle`] settles them. It begins with [`opening`]. What holds of a run
//!   is in [`run`], and what holds of a job and its rows in [`staging`].
//! - What is stored: [`database`] and [`statement`], what the statements mean for the rows in
//!   [`tables`], and how a job is filled in [`loading`].
//! - The queue service: [`sqs`], [`queues`] and [`settings`].
//! - The command line: [`cli`], [`report`] and [`reader`].
//! - Common ground: [`json`], [`text`], [`chunks`] and [`multi`].

pub mod chunks;
pub mod cli;
pub mod database;
pub mod delivery;
pub mod entry;
pub mod failure;
pub mod ids;
pub mod json;
pub mod loader;
pub mod loading;
pub mod multi;
pub mod opening;
pub mod plan;
pub mod queues;
pub mod reader;
pub mod report;
pub mod run;
pub mod settings;
pub mod settle;
pub mod sqs;
pub mod staging;
pub mod statement;
pub mod tables;
pub mod text;
pub mod worker;
pub mod writer;
