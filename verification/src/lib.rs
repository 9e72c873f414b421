pub mod curve;
pub mod errors;
pub mod goodbye;
pub mod header;
pub mod receiver_report;
pub mod reception_report;
pub mod wire;
