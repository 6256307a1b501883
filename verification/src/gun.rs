//! The options of a Gun instance, and what an instance is built from them.
use vstd::prelude::*;
use crate::webrtc::{WebRTCOptions, default_webrtc};

verus! {

/// Options of a Gun instance.
#[allow(non_snake_case)]
pub struct GunOptions {
    /// WebSocket URLs of the peers (relays) to connect to.
    pub peers: Vec<String>,
    /// Where persistent storage lives.
    pub storage_path: Option<String>,
    /// Store on disk in a sled database (rather than in files) when a storage path is given.
    pub radisk: bool,
    /// Keep a file store, in `./gun_data` when no storage path is given.
    pub localStorage: bool,
    /// Act as a relay for other peers.
    pub super_peer: bool,
    /// Port to listen on as a relay.
    pub port: Option<u16>,
    /// Options of direct WebRTC connections.
    pub webrtc: WebRTCOptions,
}

/// The options are the defaults but for the peers, the port and the relay flag: no storage
/// path, neither disk nor file storage, the default WebRTC options.
pub open spec fn defaults_but(o: GunOptions) -> bool {
    &&& o.storage_path is None
    &&& !o.radisk
    &&& !o.localStorage
    &&& default_webrtc(o.webrtc)
}

impl Default for GunOptions {
    /// No peers, no storage path, disk and file storage off, not a relay, no port,
    /// default WebRTC options.
    fn default() -> (o: GunOptions)
        ensures
            o.peers@.len() == 0,
            defaults_but(o),
            !o.super_peer,
            o.port is None,
    {
        GunOptions {
            peers: Vec::new(),
            storage_path: None,
            radisk: false,
            localStorage: false,
            super_peer: false,
            port: None,
            webrtc: WebRTCOptions::default(),
        }
    }
}

impl GunOptions {
    /// Options that connect to one relay.
    pub fn with_relay(relay_url: &str) -> (o: GunOptions)
        ensures
            o.peers@.len() == 1 && o.peers@[0]@ == relay_url@,
            defaults_but(o),
            !o.super_peer,
            o.port is None,
    {
        let mut o = GunOptions::default();
        let mut peers: Vec<String> = Vec::new();
        peers.push(relay_url.to_owned());
        o.peers = peers;
        o
    }

    /// Options that connect to the given peers.
    pub fn with_peers(peers: Vec<String>) -> (o: GunOptions)
        ensures
            o.peers@ == peers@,
            defaults_but(o),
            !o.super_peer,
            o.port is None,
    {
        let mut o = GunOptions::default();
        o.peers = peers;
        o
    }

    /// Options of a relay that listens on the given port.
    pub fn relay_server(port: u16) -> (o: GunOptions)
        ensures
            o.peers@.len() == 0,
            defaults_but(o),
            o.super_peer,
            o.port == Some(port),
    {
        let mut o = GunOptions::default();
        o.port = Some(port);
        o.super_peer = true;
        o
    }
}

/// The path of the file store when no storage path is given, `"./gun_data"`.
pub open spec fn default_storage_path() -> Seq<char> {
    seq!['.', '/', 'g', 'u', 'n', '_', 'd', 'a', 't', 'a']
}

/// Where an instance keeps its nodes.
pub enum StoragePlan {
    /// In memory only.
    Memory,
    /// In a sled database at this path.
    Sled(String),
    /// In files at this path.
    Files(String),
}

/// What an instance is built with.
pub struct InstancePlan {
    pub storage: StoragePlan,
    /// Whether it joins a mesh of peers.
    pub mesh: bool,
    /// The port its relay listens on, if it is one.
    pub server_port: Option<u16>,
    /// Whether it makes direct WebRTC connections.
    pub webrtc: bool,
}

/// What an instance is built with, from its options. Storage: with a storage path, a sled
/// database there when `radisk` is set and files there otherwise; without one, files at
/// `./gun_data` when `localStorage` is set, and memory only otherwise. A mesh when there
/// are peers or the instance is a relay; a listening port when it has a mesh and a port;
/// WebRTC when enabled and there is a mesh.
pub fn plan_instance(options: &GunOptions) -> (p: InstancePlan)
    ensures
        match p.storage {
            StoragePlan::Memory => !options.localStorage && options.storage_path is None,
            StoragePlan::Sled(path) => options.storage_path == Some(path) && options.radisk,
            StoragePlan::Files(path) => match options.storage_path {
                Some(sp) => path == sp && !options.radisk,
                None => options.localStorage && path@ == default_storage_path(),
            },
        },
        p.mesh == (options.peers@.len() > 0 || options.super_peer),
        p.server_port == (if p.mesh { options.port } else { None }),
        p.webrtc == (options.webrtc.enabled && p.mesh),
{
    let storage = match &options.storage_path {
        Some(path) => {
            if options.radisk {
                StoragePlan::Sled(path.clone())
            } else {
                StoragePlan::Files(path.clone())
            }
        },
        None => {
            if options.localStorage {
                proof { reveal_strlit("./gun_data"); assert("./gun_data"@ =~= default_storage_path()); }
                StoragePlan::Files("./gun_data".to_owned())
            } else {
                StoragePlan::Memory
            }
        },
    };
    let mesh = options.peers.len() > 0 || options.super_peer;
    let server_port = if mesh { options.port } else { None };
    InstancePlan { storage, mesh, server_port, webrtc: options.webrtc.enabled && mesh }
}

} // verus!
