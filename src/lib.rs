//! Link-layer address handling, neighbor-table snapshots and wake-on-LAN
//! packet construction.

pub mod mac;
pub mod arp;
pub mod neighbor;
pub mod wol;
