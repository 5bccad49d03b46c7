//! Frame grabber configuration values.
//!
//! Loading and saving these from a configuration file happens outside the
//! library; only the values themselves and their defaults live here.

use vstd::prelude::*;
use vstd::string::*;

verus! {

/// Frame grabber specific configuration.
#[derive(Debug, Clone)]
pub struct FrameGrabberConfig {
    /// UDP bind address.
    pub udp_bind_addr: String,
    /// UDP port to listen on.
    pub udp_port: u16,
    /// Output directory for `.dsql` files.
    pub output_directory: String,
    /// Channel buffer size for UDP data.
    pub channel_buffer_size: usize,
    /// Enable file storage.
    pub enable_storage: bool,
    /// Enable real-time processing.
    pub enable_realtime_processing: bool,
    /// Drop packets with parity errors.
    pub drop_parity_errors: bool,
    /// Maximum frame size in HWORDs.
    pub max_frame_size_hwords: usize,
    /// Statistics reporting interval in seconds.
    pub stats_interval_seconds: u64,
}

impl Default for FrameGrabberConfig {
    /// The default configuration: listen on any address, port 12345, store
    /// frames under `./frames`.
    fn default() -> (r: Self)
        ensures
            r.udp_bind_addr@ == "0.0.0.0"@,
            r.udp_port == 12345,
            r.output_directory@ == "./frames"@,
            r.channel_buffer_size == 1000,
            r.enable_storage,
            !r.enable_realtime_processing,
            !r.drop_parity_errors,
            r.max_frame_size_hwords == 1000000,
            r.stats_interval_seconds == 10,
    {
        FrameGrabberConfig {
            udp_bind_addr: String::from_str("0.0.0.0"),
            udp_port: 12345,
            output_directory: String::from_str("./frames"),
            channel_buffer_size: 1000,
            enable_storage: true,
            enable_realtime_processing: false,
            drop_parity_errors: false,
            max_frame_size_hwords: 1000000,
            stats_interval_seconds: 10,
        }
    }
}

} // verus!
