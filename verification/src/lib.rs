//! Job building and session logic of a solo mining pool for Meowcoin.

pub mod bytes;
pub mod hexcode;
pub mod text;
pub mod varint;
pub mod hash;
pub mod transaction;
pub mod target;
pub mod address;
pub mod pow;
pub mod verify;
pub mod ids;
pub mod node;
pub mod coinbase;
pub mod job;
pub mod json;
pub mod stratum;
pub mod active_jobs;
pub mod shares;
pub mod session;
pub mod dispatch;
pub mod config;
pub mod clock;
pub mod db;
pub mod encoding_laws;
pub mod chain_laws;
pub mod address_laws;
pub mod job_laws;
pub mod session_laws;
