//! A record and replay debugger for Linux x86-64 processes of one thread: the binary trace
//! format, the memory map model, and the decisions that recording and replay make at each stop
//! of a traced process.
//!
//! - [`maps`] and [`model`] hold memory regions and the normalized map; [`proc_maps`] reads map
//!   listings.
//! - [`trace`] holds events, [`wire`] says how they are laid out in bytes, [`writer`] and
//!   [`parser`] encode and decode them, and [`structure`] says which sequences are traces.
//! - [`history`] reconstructs the memory map at an event; [`dump`] renders events as text.
//! - [`tracer`] follows the launch of a process, [`recorder`] its recording, and [`replay`] its
//!   replay; [`status`] and [`signals`] say what stops and signals mean.
//! - The modules whose names end in `laws` state what holds across these.
pub mod account_laws;
pub mod bytes;
pub mod call_laws;
pub mod descriptor;
pub mod divergence_laws;
pub mod dump;
pub mod event_laws;
pub mod framing_laws;
pub mod giveback_laws;
pub mod history;
pub mod launch_laws;
pub mod layout_laws;
pub mod listing_laws;
pub mod maps;
pub mod misfit_laws;
pub mod model;
pub mod model_laws;
pub mod parser;
pub mod proc_maps;
pub mod reading_laws;
pub mod reason_laws;
pub mod record_replay_laws;
pub mod recorder;
pub mod recorder_laws;
pub mod refusal_laws;
pub mod region_laws;
pub mod relived_laws;
pub mod replay;
pub mod replay_laws;
pub mod run_laws;
pub mod saying_laws;
pub mod shape_laws;
pub mod signal_laws;
pub mod signals;
pub mod status;
pub mod structure;
pub mod structure_laws;
pub mod testimony_laws;
pub mod text;
pub mod trace;
pub mod trace_laws;
pub mod tracer;
pub mod wire;
pub mod writer;
pub mod writer_laws;
