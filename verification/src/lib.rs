//! A website health checker with bounded parallelism: the endpoints are
//! split into chunks, each chunk is run by one worker, and each endpoint is
//! probed until it answers or its retry budget is spent.
//!
//! Beside it stand the smaller tools of the project: numbers and words,
//! book records, and the text side of the price files.

pub mod books;
pub mod clock;
pub mod config;
pub mod numbers;
pub mod outcome;
pub mod partition;
pub mod pool;
pub mod prices;
pub mod report;
pub mod retry;
pub mod text;
pub mod words;
