//! Host-side library for a cluster of FPGA-resident Mandelbrot iterator cores.
//!
//! The cluster is reached through a memory-mapped register block. This crate
//! holds the verified core of the host software: the command and status
//! encodings of the register protocol, the hex codec of the request boundary,
//! a model of the register facade with its write-settle discipline, a
//! scriptable model of the cluster hardware, and the scheduler that multiplexes
//! calculation requests onto the finite pool of cores.

pub mod codec;
pub mod facade;
pub mod hex;
pub mod mock;
pub mod scheduler;
