//! A reverse-mode automatic-differentiation engine over scalar values.
//!
//! The engine builds a directed acyclic graph of arithmetic operations as
//! they are executed, then computes gradients of an output node with respect
//! to every ancestor via a single backward traversal. Nodes live in an
//! append-only [`arena::Arena`] and are referenced everywhere by index
//! handles; each node carries its scalar value and accumulated gradient as
//! binary64 bit patterns (`u64`), together with an operation tag in place of
//! a captured backward closure.
//!
//! Floating-point arithmetic itself stays outside this crate: a constructor
//! such as [`engine::ValueFactory::add`] takes the computed forward value as
//! bits, and [`engine::ValueFactory::backward`] returns the reverse
//! topological order together with an exact gradient-update plan whose
//! binary64 steps the embedding applies. Everything around that arithmetic —
//! the arena, handle identity, graph well-formedness, reachability, the
//! topological order and the content of the plan — is specified and verified
//! here; the laws in [`laws`] state the ordering and accumulation guarantees
//! once and for all graphs.

pub mod arena;
pub mod backward;
pub mod engine;
pub mod laws;

pub use arena::Arena;
pub use arena::ArenaLifeTime;
pub use arena::ArenaRef;
pub use backward::Coeff;
pub use backward::GradStep;
pub use engine::Op;
pub use engine::Value;
pub use engine::ValueData;
pub use engine::ValueFactory;
