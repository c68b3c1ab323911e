//! Offline port-scan detection over a captured packet trace.
//!
//! The library decodes raw link-layer frames far enough to extract the
//! IP-layer endpoints and the TCP reset flag, aggregates a packet count
//! per directed (source, destination) address pair, and reports every
//! pair whose count strictly exceeds a caller-chosen threshold.

pub mod aggregate;
pub mod analyze;
pub mod decode;
pub mod frame;
pub mod ip;
pub mod report;
pub mod table;
