// A fair lock for processes that share nothing but a coordination store.
//
// Whoever wants the lock takes a ticket from a counter in the store, writes a
// sentinel key for it and waits until the holder before it deletes that key.
// The library decides what to ask of the store and what each answer means; it
// never talks to a store itself.
//
//   error    the ways an acquisition or a release can fail
//   keys     the name of a lock and the keys and values derived from it
//   store    requests, answers, and what a store does with a request
//   acquire  the acquisition, phase by phase
//   release  the release
//   memory   a store in memory that serves requests as `store` says
//   model    all contenders and the store together, move by move
//   proofs   what every reachable world of the model satisfies
//   laws     mutual exclusion, order of service, reset, hand-off, wake-up

pub mod error;
pub mod keys;
pub mod store;
pub mod acquire;
pub mod release;
pub mod memory;
pub mod model;
pub mod proofs;
pub mod laws;
