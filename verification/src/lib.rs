//! A deterministic raffle engine.
//!
//! Participants deposit a bounded amount of value and are tracked in an
//! ordered registry.  Once a minimum number of participants has joined, a
//! countdown is armed; after it elapses, winners are drawn pseudorandomly
//! without replacement until the configured winner count is reached, at
//! which point the collected value is owed to a fixed beneficiary.
//!
//! The engine is pure state-machine logic: the host environment (caller
//! identity, attached value, clock, entropy source, ledger, event sink)
//! hands every external fact in as a plain argument and carries the
//! returned notifications and payout instruction back out.

pub mod engine;
pub mod entropy;
pub mod laws;
pub mod model;
pub mod seq_facts;

pub use engine::CountDownStarted;
pub use engine::Draw;
pub use engine::DrawOutcome;
pub use engine::Payout;
pub use engine::Play;
pub use engine::PlayOutcome;
pub use engine::Raffle;
pub use model::AccountId;
pub use model::Config;
pub use model::Error;
