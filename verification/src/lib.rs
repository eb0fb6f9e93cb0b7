//! Verified core of a maritime command-and-control platform: AIS payload
//! decoding and encoding, NMEA sentence parsing, the frame schema, dark-zone
//! detection, and the key and URL layouts used by storage and remote services.
pub mod ais;
pub mod bits;
pub mod clock;
pub mod detector;
pub mod encode;
pub mod frame;
pub mod gfw;
pub mod mesh;
pub mod normalize;
pub mod questdb;
pub mod routes;
pub mod store_keys;
pub mod text;
pub mod wire_laws;
