//! Verified core of a two-node head-tracking link: a goggle node that turns head movement into pan/tilt
//! commands and a truck node that executes them and reports its ground speed back over LoRa.

pub mod applog;
pub mod ascii;
pub mod board;
pub mod buffer;
pub mod calls;
pub mod display;
pub mod geo;
pub mod goggle;
pub mod gps;
pub mod imu;
pub mod link_id;
pub mod lora_link;
pub mod lora_ping;
pub mod nrf_spike;
pub mod ppm_decoder;
pub mod ppm_diag;
pub mod proto;
pub mod servo;
pub mod text;
pub mod truck;
pub mod truck_diag;
