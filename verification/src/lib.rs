//! The logic of a set of JAM example services, verified: a Game of Life, two
//! Fibonacci computations, the storage keys and transfer bookkeeping shared by
//! the services, the invocation decisions of a WASM-running service, and the
//! host-independent decisions of the bootstrap service.

pub mod bootstrap;
pub mod codec;
pub mod fib;
pub mod game;
pub mod keys;
pub mod life_service;
pub mod wasm_service;
