//! Codecs for a real-time gateway wire protocol: a seeded decoder for
//! gateway event envelopes with two interchangeable JSON engines, and a
//! verified text codec for permission overwrites whose variant selector
//! and payload travel in separate wire keys.

pub mod decimal;
pub mod embed;
pub mod gateway;
pub mod overwrite_laws;
pub mod permission_overwrite;
pub mod presence;
pub mod text;
