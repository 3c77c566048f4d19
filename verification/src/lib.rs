/// Parsing command frames into typed commands, and executing them against
/// the storage engine.
pub mod command;
/// The RESP wire-protocol value model: encoding any value to bytes, and the
/// incremental, partial-read-safe decoding of command frames.
pub mod resp;
/// The shared, lock-protected key-value store with string and list values.
pub mod storage;
