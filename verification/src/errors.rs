//! Error kinds surfaced by the registry, the encoder and the decoder.
use vstd::prelude::*;

verus! {

/// A registry misconfiguration, always surfaced to the caller.
#[derive(Clone, Copy, Debug, PartialEq, Eq, Structural)]
pub enum ConfigError {
    /// The metric kind is already registered in this registry.
    DuplicateKind,
}

/// A serialization failure. The export that hit it still clears the
/// families, so stale data never leaks into the next cycle.
#[derive(Clone, Copy, Debug, PartialEq, Eq, Structural)]
pub enum EncodeError {
    /// A family name, help text, unit or label value holds a byte the
    /// text format cannot carry.
    InvalidText,
}

/// A malformed exposition payload, always surfaced to the caller.
#[derive(Clone, Copy, Debug, PartialEq, Eq, Structural)]
pub enum ParseError {
    /// The payload does not end with the end-of-payload marker line.
    MissingEndMarker,
    /// A family section's metadata lines are missing or out of order.
    BadMetadata,
    /// A sample line violates the label or value syntax.
    BadSampleLine,
    /// A sample of a counter metric carries a negative value.
    NegativeCounter,
    /// Bytes follow the end-of-payload marker.
    TrailingData,
}

} // verus!
