//! Routing between small specialists and a large core model, continual learning over
//! ternary weight snapshots, and the evolution of specialist populations.

pub mod scalar;
pub mod rounding;
pub mod arith;
pub mod arith_laws;
pub mod counts;
pub mod ranking;
pub mod text;
pub mod text_laws;
pub mod consensus;
pub mod tci;
pub mod evolution;
pub mod pool;
pub mod daemon;
pub mod evolution_laws;
pub mod route_laws;
pub mod stats;
pub mod specialist;
pub mod core_llm;
pub mod hybrid;
pub mod answer_laws;
pub mod readout;
pub mod spiking;
pub mod readout_laws;
pub mod persistence;
pub mod daemon_state;
pub mod state_laws;
pub mod history;
pub mod replay;

pub use hybrid::{HybridConfig, HybridError, HybridOrganism, HybridResponse, Tier};
pub use specialist::{ClosureSpecialist, KeywordSpecialist, Specialist};
pub use stats::{HybridStats, StatsSnapshot};
