use gun::gun::{plan_instance, StoragePlan};
use gun::GunOptions;
use gun::dam::MeshOptions;

#[test]
fn default_options() {
    let o = GunOptions::default();
    assert!(o.peers.is_empty());
    assert!(o.storage_path.is_none());
    assert!(!o.radisk);
    assert!(!o.localStorage);
    assert!(!o.super_peer);
    assert!(o.port.is_none());
    assert!(o.webrtc.enabled);
}

#[test]
fn relay_and_peer_options() {
    let r = GunOptions::with_relay("ws://relay.example/gun");
    assert_eq!(r.peers, vec!["ws://relay.example/gun".to_string()]);
    let p = GunOptions::with_peers(vec!["ws://a".to_string(), "ws://b".to_string()]);
    assert_eq!(p.peers.len(), 2);
    let s = GunOptions::relay_server(8765);
    assert!(s.super_peer);
    assert_eq!(s.port, Some(8765));
    assert!(s.peers.is_empty());
}

#[test]
fn instance_plans() {
    let plain = plan_instance(&GunOptions::default());
    assert!(matches!(plain.storage, StoragePlan::Memory));
    assert!(!plain.mesh);
    assert!(plain.server_port.is_none());
    assert!(!plain.webrtc);

    let mut files = GunOptions::default();
    files.localStorage = true;
    assert!(matches!(plan_instance(&files).storage, StoragePlan::Files(ref p) if p == "./gun_data"));

    let mut sled = GunOptions::default();
    sled.radisk = true;
    sled.storage_path = Some("/tmp/db".to_string());
    assert!(matches!(plan_instance(&sled).storage, StoragePlan::Sled(ref p) if p == "/tmp/db"));
    sled.radisk = false;
    assert!(matches!(plan_instance(&sled).storage, StoragePlan::Files(ref p) if p == "/tmp/db"));

    let relay = plan_instance(&GunOptions::relay_server(9000));
    assert!(relay.mesh);
    assert_eq!(relay.server_port, Some(9000));
    assert!(relay.webrtc);

    let mut port_only = GunOptions::default();
    port_only.port = Some(1234);
    let p = plan_instance(&port_only);
    assert!(!p.mesh);
    assert!(p.server_port.is_none());
}

#[test]
fn mesh_option_defaults() {
    let o = MeshOptions::default();
    assert_eq!(o.max_message_size, 90_000_000);
    assert_eq!(o.pack_size, 9000);
    assert_eq!(o.gap, 0);
    assert_eq!(o.retry, 60);
    assert_eq!(o.lack, 9000);
}
