//! The BLE panels: the packet list and the one packet picked from it.
pub mod ble_detail;
pub mod ble_packets;
