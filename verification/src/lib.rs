//! A verified metric-collection registry for kernel-resident BPF objects,
//! with an encoder to and a decoder from the plain-text metrics exposition
//! format.
//!
//! The registry ([`registry`]) holds one family per registered metric kind
//! ([`kinds`]), each family a last-write-wins mapping from label set
//! ([`labels`]) to counter or gauge value. A collection cycle ([`collect`])
//! translates data-source snapshots into updates, filtering partially
//! initialized entities; the encoder ([`encode`]) serializes the state
//! deterministically; the decoder ([`decode`]) reconstructs one record
//! ([`record`]) per entity ID from a payload, whatever order its sections
//! arrived in, and reports incomplete input distinct from malformed input.
//! The facade ([`facade`]) ties registration, collection and export into
//! one call sequence, and [`laws`] states and proves the properties that
//! hold across these pieces: the encode–decode round trip, order
//! independence of decoding, the no-op on unregistered kinds, the
//! empty-name filter, and that export consumes the samples.
use vstd::prelude::*;

pub mod bytes;
pub mod collect;
pub mod decode;
pub mod errors;
pub mod facade;
pub mod kinds;
pub mod labels;
pub mod laws;
pub mod encode;
pub mod record;
pub mod registry;
pub mod stats;
