//! Routing of live audio between devices and machines.
//!
//! Samples are carried as the bit patterns of 32-bit IEEE-754 numbers, so
//! that every value in the library is an integer and every statement about a
//! sample is an exact one.  The modules, leaves first:
//!
//! * [`jitter`]: the bounded queue that smooths arrival times before playback;
//! * [`wire`]: the binary messages exchanged between capture and playback ends;
//! * [`ring`]: the fixed-capacity queue between two audio callbacks;
//! * [`device`]: devices known by name, and the registry that resolves names;
//! * [`switchboard`]: the producer-to-consumer topology and its bridges;
//! * [`coordinator`]: reconciliation of the topology with a desired one;
//! * [`client`]: the capture end of a remote stream;
//! * [`server`]: the playback end, one connection per alias or per socket;
//! * [`config`]: the endpoints of a deployment.

pub mod jitter;
pub mod wire;
pub mod ring;
pub mod device;
pub mod switchboard;
pub mod coordinator;
pub mod client;
pub mod server;
pub mod config;
