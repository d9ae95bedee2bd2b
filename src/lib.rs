//! A process-launching shim: it resolves and parses a sidecar configuration
//! file naming a target executable, composes the target's command line, and
//! decides the exit code that mirrors the target's outcome.

pub mod diagnostics;
pub mod launch;
pub mod shims;
pub mod text;
