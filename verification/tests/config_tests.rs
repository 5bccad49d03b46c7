use dsql_core::config::FrameGrabberConfig;

#[test]
fn test_frame_grabber_default_values() {
    let config = FrameGrabberConfig::default();
    assert_eq!(config.udp_bind_addr, "0.0.0.0");
    assert_eq!(config.udp_port, 12345);
    assert_eq!(config.output_directory, "./frames");
    assert_eq!(config.channel_buffer_size, 1000);
    assert!(config.enable_storage);
    assert!(!config.enable_realtime_processing);
    assert!(!config.drop_parity_errors);
    assert_eq!(config.max_frame_size_hwords, 1_000_000);
    assert_eq!(config.stats_interval_seconds, 10);
}
