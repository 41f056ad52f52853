//! # rar-chat: a streaming conduit for OpenAI-compatible chat endpoints
//!
//! The library decides; whoever uses it dials, reads, sleeps and writes. Every
//! decision is a function with a contract, from what happened to what is put
//! on record and what to do next.
//!
//! ```text
//!   network bytes
//!       |  sse            frames: bounded reassembly, strict decoding
//!       v
//!   installments --> attempt   one attempt on the wire: reads, ticks, cuts
//!       |                      (liveness: the starvation clock)
//!       |  event_handler  normalization, strategy, per-stream state
//!       v
//!   events, outcome
//!       |  machine        when a call is complete
//!       v
//!   turn            retries, failover, verdict
//!   conversation    history: committed from committed outcomes only
//!   emission        records of every observable fact  -->  ports
//!   env_file, openai, settings   where the configuration comes from
//!   driver          shared vocabulary: events, outcome, faults
//!   text            the texts that all of this reads and writes
//! ```
//!
//! What holds of the library as a whole stands in public proof functions: in
//! [`text_laws`] for texts and numbers, in [`sse_laws`] and [`wire_laws`] for
//! framing, in [`refinement_laws`] for what chunks say, in [`clock_laws`] and
//! [`installment_laws`] for what an attempt is held to and puts on record, in
//! [`attempt_laws`] and [`testimony`] for its steps, in [`turn_laws`] for what
//! a turn comes to, in [`runs`] for whole attempts and whole turns, in
//! [`endpoint_laws`] and [`env_laws`] for the configuration, in
//! [`display_laws`] for what observers see, in [`call_laws`] for calls and what
//! comes of them, and at the end of the other modules for what they alone are
//! about.

pub mod attempt;
pub mod attempt_laws;
pub mod call_laws;
pub mod clock_laws;
pub mod conversation;
pub mod display_laws;
pub mod driver;
pub mod emission;
pub mod endpoint_laws;
pub mod env_file;
pub mod env_laws;
pub mod event_handler;
pub mod installment_laws;
pub mod liveness;
pub mod machine;
pub mod openai;
pub mod ports;
pub mod refinement_laws;
pub mod runs;
pub mod settings;
pub mod sse;
pub mod sse_laws;
pub mod testimony;
pub mod text;
pub mod text_laws;
pub mod turn;
pub mod turn_laws;
pub mod wire_laws;
