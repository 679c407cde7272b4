pub mod fen;
pub mod notation;
pub mod oracle;
pub mod roundtrip;
pub mod strings;
