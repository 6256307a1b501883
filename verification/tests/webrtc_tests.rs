use gun::webrtc::WebRTCOptions;

#[test]
fn test_webrtc_options_default() {
    let options = WebRTCOptions::default();
    assert_eq!(options.max_connections, 55);
    assert!(options.enabled);
    assert_eq!(options.ice_servers.len(), 2);
    assert!(options
        .ice_servers
        .iter()
        .any(|s| s.urls.contains(&"stun:stun.l.google.com:19302".to_string())));
    assert!(options
        .ice_servers
        .iter()
        .any(|s| s.urls.contains(&"stun:stun.cloudflare.com:3478".to_string())));
    assert_eq!(options.data_channel.ordered, Some(false));
    assert_eq!(options.data_channel.max_retransmits, Some(2));
}

#[test]
fn test_webrtc_options_clone() {
    let options1 = WebRTCOptions::default();
    let options2 = options1.clone();
    assert_eq!(options1.max_connections, options2.max_connections);
    assert_eq!(options1.enabled, options2.enabled);
    assert_eq!(options1.ice_servers.len(), options2.ice_servers.len());
}
