//! The device: its key pair, its peer tables, its configuration, and the
//! per-packet decisions of the socket and tunnel-interface handlers. Event
//! polling, sockets and threads live outside; each handler's logic stands
//! here as a function from state and packet to state and verdict.

use vstd::prelude::*;
use crate::allowed_ips::AllowedIps;
use crate::errors::{Error, WireGuardError};
use crate::index_lfsr::IndexLfsr;
use crate::ip::{AllowedIP, SocketAddress};
use crate::packets::{Packet, parse_incoming_packet, dst_address, peer_of_idx};
use crate::peer::{ConnSocket, Peer};
use crate::rate_limiter::{RateLimiter, RateLimiterVerdict};
use crate::tunn::{Tunn, TunnWrite};
use crate::HANDSHAKE_RATE_LIMIT;

verus! {

broadcast use vstd::array::group_array_axioms;

/// The event-loop trait through which peer sockets are excluded from the
/// device's own routing. The device runtime supplies an implementation;
/// `MakeExternalNeptunNoop` does nothing.
pub trait MakeExternalNeptun {
    fn make_external(&self, socket: i32);
}

pub struct MakeExternalNeptunNoop;

impl MakeExternalNeptun for MakeExternalNeptunNoop {
    fn make_external(&self, _socket: i32) {
    }
}

/// Configuration the device is created with.
#[derive(Clone, Copy, Debug, PartialEq, Eq, Structural)]
pub struct DeviceConfig {
    pub n_threads: usize,
    pub use_connected_socket: bool,
    pub use_multi_queue: bool,
    pub open_uapi_socket: bool,
    pub skt_buffer_size: Option<usize>,
    pub inter_thread_channel_size: Option<usize>,
    pub max_inter_thread_batched_pkts: Option<usize>,
}

/// What the unconnected-socket handler must do with one datagram.
pub enum UdpVerdict {
    /// Answer the source with a cookie reply.
    SendCookieReply,
    /// Drop the datagram.
    Drop(WireGuardError),
    /// No peer owns this datagram; drop it.
    NoPeer,
    /// The peer at `peer_slot` handled it: perform `write`, flush the
    /// queued packets when asked, and connect the described socket.
    Handled { peer_slot: usize, write: TunnWrite, flush: bool, connect: Option<ConnSocket> },
}

/// Where an outbound encrypted packet goes.
#[derive(Clone, Copy, Debug, PartialEq, Eq, Structural)]
pub enum OutboundRoute {
    /// Prefer the peer's connected socket.
    ConnectedSocket(ConnSocket),
    /// Fall back to the listener of the endpoint's family.
    Listener(SocketAddress),
    /// The peer has no endpoint; the packet is lost.
    NoEndpoint,
}

/// The device state.
pub struct Device {
    /// Optional static key pair: private key and derived public key.
    pub key_pair: Option<([u8; 32], [u8; 32])>,
    pub listen_port: u16,
    pub fwmark: Option<u32>,
    /// Bumped when the tunnel device is replaced; worker threads with a
    /// stale copy must exit.
    pub update_seq: u32,
    pub closed: bool,
    /// The peer table; public keys and indices are unique across it.
    pub peers: Vec<Peer>,
    /// Longest-prefix routing from destination IP to the peer's index.
    pub peers_by_ip: AllowedIps,
    pub next_index: IndexLfsr,
    pub config: DeviceConfig,
    /// Paths to remove at shutdown.
    pub cleanup_paths: Vec<String>,
    pub mtu: usize,
    /// Present exactly while a key is set.
    pub rate_limiter: Option<RateLimiter>,
}

impl Device {
    pub open spec fn wf(self) -> bool {
        &&& self.next_index.wf()
        &&& forall|i: int| 0 <= i < self.peers@.len() ==> (#[trigger] self.peers@[i]).wf()
        &&& forall|i: int, j: int|
            0 <= i < self.peers@.len() && 0 <= j < self.peers@.len() && i != j ==> (
            #[trigger] self.peers@[i]).public_key != (#[trigger] self.peers@[j]).public_key
        &&& forall|i: int, j: int|
            0 <= i < self.peers@.len() && 0 <= j < self.peers@.len() && i != j ==> (
            #[trigger] self.peers@[i]).index != (#[trigger] self.peers@[j]).index
        &&& self.rate_limiter is Some <==> self.key_pair is Some
    }

    /// A device with no key, no peers and no open port.
    pub fn new(config: DeviceConfig, mtu: usize) -> (r: Device)
        ensures
            r.wf(),
            r.key_pair is None,
            r.listen_port == 0,
            r.fwmark is None,
            r.update_seq == 0,
            !r.closed,
            r.peers@.len() == 0,
            r.config == config,
            r.mtu == mtu,
            r.rate_limiter is None,
    {
        Device {
            key_pair: None,
            listen_port: 0,
            fwmark: None,
            update_seq: 0,
            closed: false,
            peers: Vec::new(),
            peers_by_ip: AllowedIps::new(),
            next_index: IndexLfsr::default(),
            config,
            cleanup_paths: Vec::new(),
            mtu,
            rate_limiter: None,
        }
    }

    /// The peer-table slot holding this public key.
    pub open spec fn spec_peer_by_key(self, key: [u8; 32]) -> Option<int> {
        if exists|i: int| 0 <= i < self.peers@.len() && (#[trigger] self.peers@[i]).public_key == key {
            Some(choose|i: int| 0 <= i < self.peers@.len() && (#[trigger] self.peers@[i]).public_key == key)
        } else {
            None
        }
    }

    /// The peer-table slot holding this 24-bit index.
    pub open spec fn spec_peer_by_index(self, index: u32) -> Option<int> {
        if exists|i: int| 0 <= i < self.peers@.len() && (#[trigger] self.peers@[i]).index == index {
            Some(choose|i: int| 0 <= i < self.peers@.len() && (#[trigger] self.peers@[i]).index == index)
        } else {
            None
        }
    }

    /// Find a peer by its public key.
    pub fn find_peer_by_key(&self, key: &[u8; 32]) -> (r: Option<usize>)
        ensures
            (match r {
                Some(i) => i < self.peers@.len() && self.peers@[i as int].public_key == *key,
                None => forall|i: int|
                    0 <= i < self.peers@.len() ==> (#[trigger] self.peers@[i]).public_key != *key,
            }),
    {
        let mut i: usize = 0;
        while i < self.peers.len()
            invariant
                i <= self.peers@.len(),
                forall|j: int| 0 <= j < i ==> (#[trigger] self.peers@[j]).public_key != *key,
            decreases self.peers@.len() - i,
        {
            if keys_equal(&self.peers[i].public_key, key) {
                return Some(i);
            }
            i = i + 1;
        }
        None
    }

    /// Find a peer by its 24-bit receiver-table index.
    pub fn find_peer_by_index(&self, index: u32) -> (r: Option<usize>)
        ensures
            (match r {
                Some(i) => i < self.peers@.len() && self.peers@[i as int].index == index,
                None => forall|i: int|
                    0 <= i < self.peers@.len() ==> (#[trigger] self.peers@[i]).index != index,
            }),
    {
        let mut i: usize = 0;
        while i < self.peers.len()
            invariant
                i <= self.peers@.len(),
                forall|j: int| 0 <= j < i ==> (#[trigger] self.peers@[j]).index != index,
            decreases self.peers@.len() - i,
        {
            if self.peers[i].index == index {
                return Some(i);
            }
            i = i + 1;
        }
        None
    }

    /// Remove the peer holding this key: its connected socket is shut, and
    /// it leaves the peer table and the routing trie.
    pub fn remove_peer(&mut self, pub_key: &[u8; 32])
        requires
            old(self).wf(),
        ensures
            final(self).wf(),
            forall|i: int|
                0 <= i < final(self).peers@.len() ==> (#[trigger] final(self).peers@[i]).public_key
                    != *pub_key,
            *final(self) == (Device {
                peers: final(self).peers,
                peers_by_ip: final(self).peers_by_ip,
                ..*old(self)
            }),
            (match old(self).spec_peer_by_key(*pub_key) {
                None => *final(self) == *old(self),
                Some(i) => {
                    &&& final(self).peers@ == old(self).peers@.remove(i)
                    &&& final(self).peers_by_ip.map4() == crate::allowed_ips::drop_value(
                        old(self).peers_by_ip.map4(),
                        old(self).peers@[i].index,
                    )
                    &&& final(self).peers_by_ip.map6() == crate::allowed_ips::drop_value(
                        old(self).peers_by_ip.map6(),
                        old(self).peers@[i].index,
                    )
                },
            }),
    {
        let found = self.find_peer_by_key(pub_key);
        match found {
            Some(i) => {
                proof {
                    lemma_peer_by_key_is(*self, *pub_key, i as int);
                }
                let ghost pre = self.peers@;
                let peer = self.peers.remove(i);
                self.peers_by_ip.remove(peer.index());
                proof {
                    assert forall|a: int| 0 <= a < self.peers@.len() implies (
                    #[trigger] self.peers@[a]).public_key != *pub_key by {
                        if a < i {
                            assert(self.peers@[a] == pre[a]);
                            assert(pre[a].public_key != pre[i as int].public_key);
                        } else {
                            assert(self.peers@[a] == pre[a + 1]);
                            assert(pre[a + 1].public_key != pre[i as int].public_key);
                        }
                    }
                }
            },
            None => {
                proof {
                    if old(self).spec_peer_by_key(*pub_key) is Some {
                        let w = choose|j: int|
                            0 <= j < old(self).peers@.len() && (#[trigger] old(
                                self,
                            ).peers@[j]).public_key == *pub_key;
                        assert(old(self).peers@[w].public_key != *pub_key);
                    }
                }
            },
        }
    }

    /// The state after every peer and route left.
    pub open spec fn spec_peers_cleared(pre: Device, post: Device) -> bool {
        &&& post.peers@.len() == 0
        &&& post.peers_by_ip.map4() == Map::<Seq<bool>, u32>::empty()
        &&& post.peers_by_ip.map6() == Map::<Seq<bool>, u32>::empty()
        &&& post == (Device { peers: post.peers, peers_by_ip: post.peers_by_ip, ..pre })
    }

    /// Remove every peer and every route.
    pub fn clear_peers(&mut self)
        requires
            old(self).wf(),
        ensures
            final(self).wf(),
            Self::spec_peers_cleared(*old(self), *final(self)),
    {
        self.peers.clear();
        self.peers_by_ip.clear();
    }

    /// The handed-in public key already is the device's.
    pub open spec fn spec_same_public(s: Device, public_key: [u8; 32]) -> bool {
        match s.key_pair {
            Some(kp) => kp.1 == public_key,
            None => false,
        }
    }

    /// A peer's tunnel after a key change.
    pub open spec fn spec_rekeyed_tunnel(t: Tunn, private_key: [u8; 32], public_key: [u8; 32]) -> Tunn {
        Tunn {
            static_private: private_key,
            static_public: public_key,
            handshake_state: (if t.handshake_state is Expired {
                crate::tunn::HandshakeState::Idle
            } else {
                t.handshake_state
            }),
            ..t
        }
    }

    /// The state after the key pair became `(private_key, public_key)`:
    /// the limiter rebuilt around the public key with the tolerated
    /// handshake rate, and every peer tunnel rekeyed — unless the public
    /// key already was the device's, which changes only the stored pair.
    pub open spec fn spec_key_set(pre: Device, post: Device, private_key: [u8; 32], public_key: [u8; 32]) -> bool {
        &&& post.key_pair == Some((private_key, public_key))
        &&& post == (Device {
            key_pair: post.key_pair,
            rate_limiter: post.rate_limiter,
            peers: post.peers,
            ..pre
        })
        &&& (Self::spec_same_public(pre, public_key) ==> post.peers@ == pre.peers@
            && post.rate_limiter == pre.rate_limiter)
        &&& (!Self::spec_same_public(pre, public_key) ==> post.rate_limiter == Some(
            RateLimiter { public_key, count: 0, limit: HANDSHAKE_RATE_LIMIT },
        ))
        &&& post.peers@.len() == pre.peers@.len()
        &&& (!Self::spec_same_public(pre, public_key) ==> (forall|i: int|
            0 <= i < post.peers@.len() ==> #[trigger] post.peers@[i] == (Peer {
                tunnel: Self::spec_rekeyed_tunnel(pre.peers@[i].tunnel, private_key, public_key),
                ..pre.peers@[i]
            })))
    }

    /// Replace the device key pair: every tunnel learns the new keys, and
    /// the rate limiter is rebuilt around the new public key with the
    /// tolerated handshake rate. A key equal to the present one changes
    /// nothing.
    pub fn set_key(&mut self, private_key: [u8; 32], public_key: [u8; 32])
        requires
            old(self).wf(),
        ensures
            final(self).wf(),
            Self::spec_key_set(*old(self), *final(self), private_key, public_key),
    {
        let same = match &self.key_pair {
            Some(kp) => keys_equal(&kp.1, &public_key),
            None => false,
        };
        if same {
            // x25519 (rightly) does not expose secret keys for comparison;
            // equal public keys mean equal private keys, so the limiter and
            // the tunnels already hold this key.
            self.key_pair = Some((private_key, public_key));
            return ;
        }
        let mut i: usize = 0;
        while i < self.peers.len()
            invariant
                i <= self.peers@.len(),
                self.peers@.len() == old(self).peers@.len(),
                forall|j: int| 0 <= j < self.peers@.len() ==> (#[trigger] self.peers@[j]).wf(),
                forall|j: int|
                    0 <= j < i ==> #[trigger] self.peers@[j] == (Peer {
                        tunnel: Self::spec_rekeyed_tunnel(
                            old(self).peers@[j].tunnel,
                            private_key,
                            public_key,
                        ),
                        ..old(self).peers@[j]
                    }),
                forall|j: int|
                    i <= j < self.peers@.len() ==> #[trigger] self.peers@[j] == old(self).peers@[j],
                *self == (Device { peers: self.peers, ..*old(self) }),
            decreases self.peers@.len() - i,
        {
            let ghost pre = self.peers@;
            let mut peer = self.peers.remove(i);
            peer.tunnel.set_static_private(private_key, public_key);
            self.peers.insert(i, peer);
            proof {
                assert forall|j: int|
                    0 <= j < self.peers@.len() && j != i implies #[trigger] self.peers@[j]
                    == pre[j] by {
                }
            }
            i = i + 1;
        }
        self.key_pair = Some((private_key, public_key));
        self.rate_limiter = Some(RateLimiter::new(&public_key, HANDSHAKE_RATE_LIMIT));
    }

    /// Record the firewall mark; the runtime applies it to each socket.
    pub fn set_fwmark(&mut self, mark: u32)
        requires
            old(self).wf(),
        ensures
            final(self).wf(),
            *final(self) == (Device { fwmark: Some(mark), ..*old(self) }),
    {
        self.fwmark = Some(mark);
    }

    /// The state after a listening port was adopted: the port stored and
    /// every peer's connected socket dropped, to be re-created against it.
    pub open spec fn spec_port_opened(pre: Device, post: Device, port: u16) -> bool {
        &&& post.listen_port == port
        &&& post.peers@.len() == pre.peers@.len()
        &&& (forall|i: int|
            0 <= i < post.peers@.len() ==> #[trigger] post.peers@[i] == (Peer {
                endpoint: crate::peer::Endpoint {
                    addr: pre.peers@[i].endpoint.addr,
                    conn: None::<ConnSocket>,
                },
                ..pre.peers@[i]
            }))
        &&& post == (Device { listen_port: port, peers: post.peers, ..pre })
    }

    /// Adopt a (possibly OS-assigned) listening port: all connected peer
    /// sockets are dropped, to be re-created against the new port.
    pub fn open_listen_socket(&mut self, port: u16)
        requires
            old(self).wf(),
        ensures
            final(self).wf(),
            Self::spec_port_opened(*old(self), *final(self), port),
    {
        let mut i: usize = 0;
        while i < self.peers.len()
            invariant
                i <= self.peers@.len(),
                self.peers@.len() == old(self).peers@.len(),
                forall|j: int|
                    0 <= j < i ==> #[trigger] self.peers@[j] == (Peer {
                        endpoint: crate::peer::Endpoint {
                            addr: old(self).peers@[j].endpoint.addr,
                            conn: None::<ConnSocket>,
                        },
                        ..old(self).peers@[j]
                    }),
                forall|j: int|
                    i <= j < self.peers@.len() ==> #[trigger] self.peers@[j] == old(self).peers@[j],
                *self == (Device { peers: self.peers, ..*old(self) }),
            decreases self.peers@.len() - i,
        {
            let ghost pre = self.peers@;
            let mut peer = self.peers.remove(i);
            peer.shutdown_endpoint();
            self.peers.insert(i, peer);
            i = i + 1;
        }
        self.listen_port = port;
    }

    /// Bump the update sequence: worker threads holding the old value must
    /// exit, as happens when the tunnel device is replaced.
    pub fn bump_update_seq(&mut self)
        ensures
            *final(self) == (Device {
                update_seq: old(self).update_seq.wrapping_add(1),
                ..*old(self)
            }),
    {
        self.update_seq = self.update_seq.wrapping_add(1);
    }

    /// Must a worker that saw `worker_seq` at start exit now?
    pub fn worker_must_exit(&self, worker_seq: u32) -> (r: bool)
        ensures
            r == (worker_seq != self.update_seq),
    {
        worker_seq != self.update_seq
    }

    /// Route one plaintext packet read from the tunnel device: its
    /// destination address selects the owning peer through the trie.
    pub fn route_outbound(&self, packet: &[u8]) -> (r: Option<usize>)
        ensures
            (match crate::packets::spec_dst_address(packet@) {
                Some(addr) => (match r {
                    Some(i) => {
                        &&& i < self.peers@.len()
                        &&& crate::allowed_ips::longest_match_is(
                            self.peers_by_ip.family_map(addr),
                            addr.spec_key_bits(),
                            0,
                            128,
                            Some(self.peers@[i as int].index),
                        )
                    },
                    None => (forall|v: u32|
                        !crate::allowed_ips::longest_match_is(
                            self.peers_by_ip.family_map(addr),
                            addr.spec_key_bits(),
                            0,
                            128,
                            Some(v),
                        )) || (exists|v: u32|
                        crate::allowed_ips::longest_match_is(
                            self.peers_by_ip.family_map(addr),
                            addr.spec_key_bits(),
                            0,
                            128,
                            Some(v),
                        ) && (forall|i: int|
                            0 <= i < self.peers@.len() ==> (#[trigger] self.peers@[i]).index != v)),
                }),
                None => r is None,
            }),
    {
        let dst = match dst_address(packet) {
            Some(a) => a,
            None => {
                return None;
            },
        };
        let value = match self.peers_by_ip.find(dst) {
            Some(v) => v,
            None => {
                return None;
            },
        };
        self.find_peer_by_index(value)
    }

    /// Pick the socket an encrypted packet for this peer leaves through:
    /// the connected socket when one exists, else the listener that
    /// matches the endpoint's family.
    pub fn outbound_route(endpoint: &crate::peer::Endpoint) -> (r: OutboundRoute)
        ensures
            (match endpoint.conn {
                Some(c) => r == OutboundRoute::ConnectedSocket(c),
                None => (match endpoint.addr {
                    Some(a) => r == OutboundRoute::Listener(a),
                    None => r == OutboundRoute::NoEndpoint,
                }),
            }),
    {
        match &endpoint.conn {
            Some(c) => OutboundRoute::ConnectedSocket(*c),
            None => {
                match &endpoint.addr {
                    Some(a) => OutboundRoute::Listener(*a),
                    None => OutboundRoute::NoEndpoint,
                }
            },
        }
    }
}

impl Device {
    /// The index the register would emit next.
    pub open spec fn spec_drawn_index(s: Device) -> u32 {
        crate::index_lfsr::lfsr_output(s.next_index.lfsr, s.next_index.mask)
    }

    /// The register can emit an index no live peer holds.
    pub open spec fn spec_fresh_index_free(s: Device) -> bool {
        &&& crate::index_lfsr::lfsr_step(s.next_index.lfsr) != s.next_index.initial
        &&& s.spec_peer_by_index(Self::spec_drawn_index(s)) is None
    }

    /// Draw the next free 24-bit peer index: the register's next output,
    /// refused only when the register is exhausted or — after a wrap — a
    /// removed peer's index comes round while still in use.
    fn next_index(&mut self) -> (r: Result<u32, Error>)
        requires
            old(self).wf(),
        ensures
            final(self).wf(),
            *final(self) == (Device { next_index: final(self).next_index, ..*old(self) }),
            r is Ok <==> Self::spec_fresh_index_free(*old(self)),
            (match r {
                Ok(idx) => idx == Self::spec_drawn_index(*old(self)) && idx <= 0xffffff && (
                forall|i: int|
                    0 <= i < final(self).peers@.len() ==> (#[trigger] final(self).peers@[i]).index
                        != idx),
                Err(_) => true,
            }),
    {
        let ghost pre = *self;
        let idx = match self.next_index.try_next() {
            Some(i) => i,
            None => {
                // The register ran through its whole period.
                return Err(Error::InternalError(String::new()));
            },
        };
        match self.find_peer_by_index(idx) {
            Some(w) => {
                proof {
                    assert(old(self).peers@[w as int].index == idx);
                    assert(old(self).spec_peer_by_index(idx) is Some);
                }
                Err(Error::InternalError(String::new()))
            },
            None => {
                proof {
                    if old(self).spec_peer_by_index(idx) is Some {
                        let w = choose|j: int|
                            0 <= j < old(self).peers@.len() && (#[trigger] old(
                                self,
                            ).peers@[j]).index == idx;
                        assert(old(self).peers@[w].index != idx);
                    }
                }
                Ok(idx)
            },
        }
    }

    /// The state change of adding one peer: it is appended with a fresh
    /// index and the handed-in fields, its tunnel carries the device keys,
    /// every other peer is untouched, and each allowed prefix routes to
    /// the new peer's index.
    pub open spec fn spec_peer_added(
        pre: Device,
        post: Device,
        pub_key: [u8; 32],
        endpoint: Option<SocketAddress>,
        allowed_ips: Seq<AllowedIP>,
        keepalive: Option<u16>,
        preshared_key: Option<[u8; 32]>,
    ) -> bool {
        let n = pre.peers@.len() as int;
        &&& post.peers@.len() == n + 1
        &&& (forall|i: int| 0 <= i < n ==> post.peers@[i] == pre.peers@[i])
        &&& post.peers@[n].public_key == pub_key
        &&& post.peers@[n].index == Self::spec_drawn_index(pre)
        &&& post.peers@[n].preshared_key == preshared_key
        &&& post.peers@[n].endpoint == (crate::peer::Endpoint {
            addr: endpoint,
            conn: None::<ConnSocket>,
        })
        &&& post.peers@[n].tunnel.peer_static_public_key == pub_key
        &&& (match pre.key_pair {
            Some(kp) => post.peers@[n].tunnel.static_private == kp.0
                && post.peers@[n].tunnel.static_public == kp.1,
            None => false,
        })
        &&& post.peers@[n].tunnel.timers.persistent_keepalive == (match keepalive {
            Some(k) => k as usize,
            None => 0usize,
        })
        &&& post.peers@[n].allowed_list@ == crate::peer::spec_add_distinct(
            Seq::empty(),
            allowed_ips,
        )
        &&& (forall|i: int|
            0 <= i < allowed_ips.len() ==> post.peers_by_ip.family_map(
                (#[trigger] allowed_ips[i]).addr,
            ).dom().contains(
                crate::allowed_ips::prefix_key(allowed_ips[i].addr, allowed_ips[i].cidr as nat),
            ) && post.peers_by_ip.family_map(allowed_ips[i].addr)[crate::allowed_ips::prefix_key(
                allowed_ips[i].addr,
                allowed_ips[i].cidr as nat,
            )] == Self::spec_drawn_index(pre))
    }

    /// Add a fresh peer keyed by its public key: it enters the peer table
    /// and its allowed prefixes enter the routing trie.
    pub fn new_peer(
        &mut self,
        pub_key: [u8; 32],
        endpoint: Option<SocketAddress>,
        allowed_ips: &Vec<AllowedIP>,
        keepalive: Option<u16>,
        preshared_key: Option<[u8; 32]>,
    ) -> (r: Result<(), Error>)
        requires
            old(self).wf(),
            forall|i: int| 0 <= i < allowed_ips@.len() ==> (#[trigger] allowed_ips@[i]).wf(),
            forall|i: int|
                0 <= i < old(self).peers@.len() ==> (#[trigger] old(self).peers@[i]).public_key
                    != pub_key,
        ensures
            final(self).wf(),
            *final(self) == (Device {
                peers: final(self).peers,
                peers_by_ip: final(self).peers_by_ip,
                next_index: final(self).next_index,
                ..*old(self)
            }),
            r is Ok <==> (old(self).key_pair is Some && Self::spec_fresh_index_free(*old(self))),
            r is Err ==> *final(self) == (Device {
                next_index: final(self).next_index,
                ..*old(self)
            }),
            r is Ok ==> Self::spec_peer_added(
                *old(self),
                *final(self),
                pub_key,
                endpoint,
                allowed_ips@,
                keepalive,
                preshared_key,
            ),
    {
        let device_key_pair = match &self.key_pair {
            Some(kp) => *kp,
            None => {
                // No device key pair was configured for this peer yet.
                return Err(Error::InternalError(String::new()));
            },
        };
        let next_index = match self.next_index() {
            Ok(i) => i,
            Err(e) => {
                return Err(e);
            },
        };
        let tunn = Tunn::new(
            device_key_pair.0,
            device_key_pair.1,
            pub_key,
            preshared_key,
            keepalive,
            next_index,
            false,
        );
        let peer = Peer::new(tunn, next_index, endpoint, allowed_ips, preshared_key);
        let ghost pre = self.peers@;
        self.peers.push(peer);
        proof {
            assert forall|i: int, j: int|
                0 <= i < self.peers@.len() && 0 <= j < self.peers@.len() && i != j implies (
            #[trigger] self.peers@[i]).public_key != (#[trigger] self.peers@[j]).public_key && (
            self.peers@[i]).index != (self.peers@[j]).index by {
                if i < pre.len() && j < pre.len() {
                    assert(self.peers@[i] == pre[i]);
                    assert(self.peers@[j] == pre[j]);
                }
            }
        }
        let mut i: usize = 0;
        while i < allowed_ips.len()
            invariant
                i <= allowed_ips@.len(),
                self.wf(),
                forall|j: int| 0 <= j < allowed_ips@.len() ==> (#[trigger] allowed_ips@[j]).wf(),
                self.peers@.len() == pre.len() + 1,
                forall|j: int| 0 <= j < pre.len() ==> self.peers@[j] == pre[j],
                self.peers@[pre.len() as int] == (Peer {
                    allowed_ips: self.peers@[pre.len() as int].allowed_ips,
                    ..peer
                }),
                *self == (Device {
                    peers: self.peers,
                    peers_by_ip: self.peers_by_ip,
                    next_index: self.next_index,
                    ..*old(self)
                }),
                forall|j: int|
                    0 <= j < i ==> self.peers_by_ip.family_map(
                        (#[trigger] allowed_ips@[j]).addr,
                    ).dom().contains(
                        crate::allowed_ips::prefix_key(
                            allowed_ips@[j].addr,
                            allowed_ips@[j].cidr as nat,
                        ),
                    ) && self.peers_by_ip.family_map(
                        allowed_ips@[j].addr,
                    )[crate::allowed_ips::prefix_key(
                        allowed_ips@[j].addr,
                        allowed_ips@[j].cidr as nat,
                    )] == next_index,
            decreases allowed_ips@.len() - i,
        {
            let entry = allowed_ips[i];
            self.peers_by_ip.insert(entry.addr, entry.cidr, next_index);
            proof {
                assert forall|j: int| 0 <= j < i + 1 implies self.peers_by_ip.family_map(
                    (#[trigger] allowed_ips@[j]).addr,
                ).dom().contains(
                    crate::allowed_ips::prefix_key(
                        allowed_ips@[j].addr,
                        allowed_ips@[j].cidr as nat,
                    ),
                ) && self.peers_by_ip.family_map(
                    allowed_ips@[j].addr,
                )[crate::allowed_ips::prefix_key(
                    allowed_ips@[j].addr,
                    allowed_ips@[j].cidr as nat,
                )] == next_index by {
                }
            }
            i = i + 1;
        }
        Ok(())
    }

    /// Whether one configuration block would commit: removal and changes
    /// of a known key always do, as does an update-only block for an
    /// unknown key; creating a peer needs the device key and a fresh index.
    pub open spec fn spec_update_succeeds(
        pre: Device,
        pub_key: [u8; 32],
        update_only: bool,
        remove: bool,
    ) -> bool {
        ||| remove
        ||| pre.spec_peer_by_key(pub_key) is Some
        ||| update_only
        ||| (pre.key_pair is Some && Self::spec_fresh_index_free(pre))
    }

    /// The state after one configuration block was applied to a peer:
    /// removal takes the peer and its routes out; a known peer takes the
    /// handed-in fields and routes; an unknown key creates the peer unless
    /// the block is update-only; `ok` says whether the block committed.
    pub open spec fn spec_peer_updated(
        pre: Device,
        post: Device,
        pub_key: [u8; 32],
        update_only: bool,
        remove: bool,
        replace_ips: bool,
        endpoint: Option<SocketAddress>,
        allowed_ips: Seq<AllowedIP>,
        keepalive: Option<u16>,
        preshared_key: Option<[u8; 32]>,
        ok: bool,
    ) -> bool {
        &&& (ok <==> Self::spec_update_succeeds(pre, pub_key, update_only, remove))
        &&& (remove ==> (forall|i: int|
            0 <= i < post.peers@.len() ==> (#[trigger] post.peers@[i]).public_key != pub_key)
            && (match pre.spec_peer_by_key(pub_key) {
            None => post == pre,
            Some(i) => {
                &&& post.peers@ == pre.peers@.remove(i)
                &&& post.peers_by_ip.map4() == crate::allowed_ips::drop_value(
                    pre.peers_by_ip.map4(),
                    pre.peers@[i].index,
                )
                &&& post.peers_by_ip.map6() == crate::allowed_ips::drop_value(
                    pre.peers_by_ip.map6(),
                    pre.peers@[i].index,
                )
                &&& post == (Device {
                    peers: post.peers,
                    peers_by_ip: post.peers_by_ip,
                    ..pre
                })
            },
        }))
        &&& (!remove && pre.spec_peer_by_key(pub_key) is None && update_only ==> post == pre)
        &&& (!remove && pre.spec_peer_by_key(pub_key) is None && !update_only ==> {
            &&& (!ok ==> post.peers@ == pre.peers@ && post.peers_by_ip == pre.peers_by_ip
                && post == (Device { next_index: post.next_index, ..pre }))
            &&& (ok ==> Self::spec_peer_added(
                pre,
                post,
                pub_key,
                endpoint,
                allowed_ips,
                keepalive,
                preshared_key,
            ))
        })
        &&& (!remove && pre.spec_peer_by_key(pub_key) is Some ==> {
            let i = pre.spec_peer_by_key(pub_key)->0;
            &&& post.peers@.len() == pre.peers@.len()
            &&& post.peers@[i].public_key == pub_key
            &&& (match endpoint {
                Some(a) => post.peers@[i].endpoint.addr == Some(a),
                None => post.peers@[i].endpoint.addr == pre.peers@[i].endpoint.addr,
            })
            &&& (match keepalive {
                Some(k) => post.peers@[i].tunnel.timers.persistent_keepalive == k as usize,
                None => post.peers@[i].tunnel.timers.persistent_keepalive == pre.peers@[
                    i
                ].tunnel.timers.persistent_keepalive,
            })
            &&& (match preshared_key {
                Some(k) => post.peers@[i].preshared_key == (if crate::peer::is_zero_key(k) {
                    None::<[u8; 32]>
                } else {
                    Some(k)
                }),
                None => post.peers@[i].preshared_key == pre.peers@[i].preshared_key,
            })
            &&& (forall|j: int|
                0 <= j < allowed_ips.len() ==> post.peers@[i].spec_is_allowed_prefix(
                    #[trigger] allowed_ips[j],
                ))
            &&& (forall|j: int|
                0 <= j < allowed_ips.len() ==> post.peers_by_ip.family_map(
                    (#[trigger] allowed_ips[j]).addr,
                ).dom().contains(
                    crate::allowed_ips::prefix_key(allowed_ips[j].addr, allowed_ips[j].cidr as nat),
                ) && post.peers_by_ip.family_map(allowed_ips[j].addr)[crate::allowed_ips::prefix_key(
                    allowed_ips[j].addr,
                    allowed_ips[j].cidr as nat,
                )] == pre.peers@[i].index)
            &&& post == (Device { peers: post.peers, peers_by_ip: post.peers_by_ip, ..pre })
        })
    }

    /// Apply one configuration block to a peer: removal wins; an existing
    /// peer's endpoint, allowed prefixes, keepalive and preshared key are
    /// updated (with the prefixes replaced or extended as asked); an
    /// unknown key creates the peer unless the update is marked
    /// update-only.
    pub fn update_peer(
        &mut self,
        pub_key: [u8; 32],
        update_only: bool,
        remove: bool,
        replace_ips: bool,
        endpoint: Option<SocketAddress>,
        allowed_ips: &Vec<AllowedIP>,
        keepalive: Option<u16>,
        preshared_key: Option<[u8; 32]>,
    ) -> (r: Result<(), Error>)
        requires
            old(self).wf(),
            forall|i: int| 0 <= i < allowed_ips@.len() ==> (#[trigger] allowed_ips@[i]).wf(),
        ensures
            final(self).wf(),
            r is Ok <==> Self::spec_update_succeeds(*old(self), pub_key, update_only, remove),
            Self::spec_peer_updated(
                *old(self),
                *final(self),
                pub_key,
                update_only,
                remove,
                replace_ips,
                endpoint,
                allowed_ips@,
                keepalive,
                preshared_key,
                r is Ok,
            ),
    {
        if remove {
            self.remove_peer(&pub_key);
            return Ok(());
        }

        let found = self.find_peer_by_key(&pub_key);
        match found {
            Some(i) => {
                proof {
                    lemma_peer_by_key_is(*self, pub_key, i as int);
                }
                let ghost pre = self.peers@;
                let mut peer = self.peers.remove(i);
                match endpoint {
                    Some(addr) => peer.set_endpoint(addr),
                    None => {},
                }
                if replace_ips {
                    self.peers_by_ip.remove(peer.index());
                    peer.set_allowed_ips(allowed_ips);
                } else {
                    peer.add_allowed_ips(allowed_ips);
                }
                match keepalive {
                    Some(k) => peer.tunnel.set_persistent_keepalive(k),
                    None => {},
                }
                match preshared_key {
                    Some(k) => peer.set_preshared_key(k),
                    None => {},
                }
                let index = peer.index();
                self.peers.insert(i, peer);
                proof {
                    assert(self.peers@ =~= pre.update(i as int, self.peers@[i as int]));
                    assert forall|a: int, b: int|
                        0 <= a < self.peers@.len() && 0 <= b < self.peers@.len() && a != b implies (
                    #[trigger] self.peers@[a]).public_key != (#[trigger] self.peers@[b]).public_key
                        && (self.peers@[a]).index != (self.peers@[b]).index by {
                        assert(pre[a].public_key != pre[b].public_key);
                        assert(pre[a].index != pre[b].index);
                    }
                }
                let mut j: usize = 0;
                while j < allowed_ips.len()
                    invariant
                        j <= allowed_ips@.len(),
                        self.wf(),
                        forall|k: int|
                            0 <= k < allowed_ips@.len() ==> (#[trigger] allowed_ips@[k]).wf(),
                        self.peers@.len() == pre.len(),
                        i < self.peers@.len(),
                        self.peers@[i as int].public_key == pub_key,
                        (match endpoint {
                            Some(a) => self.peers@[i as int].endpoint.addr == Some(a),
                            None => self.peers@[i as int].endpoint.addr == pre[i as int].endpoint.addr,
                        }),
                        (match keepalive {
                            Some(k) => self.peers@[i as int].tunnel.timers.persistent_keepalive
                                == k as usize,
                            None => self.peers@[i as int].tunnel.timers.persistent_keepalive
                                == pre[i as int].tunnel.timers.persistent_keepalive,
                        }),
                        (match preshared_key {
                            Some(k) => self.peers@[i as int].preshared_key == (
                            if crate::peer::is_zero_key(k) {
                                None::<[u8; 32]>
                            } else {
                                Some(k)
                            }),
                            None => self.peers@[i as int].preshared_key == pre[
                                i as int
                            ].preshared_key,
                        }),
                        forall|k: int|
                            0 <= k < allowed_ips@.len() ==> self.peers@[
                                i as int
                            ].spec_is_allowed_prefix(#[trigger] allowed_ips@[k]),
                        *self == (Device {
                            peers: self.peers,
                            peers_by_ip: self.peers_by_ip,
                            ..*old(self)
                        }),
                        index == pre[i as int].index,
                        forall|k: int|
                            0 <= k < j ==> self.peers_by_ip.family_map(
                                (#[trigger] allowed_ips@[k]).addr,
                            ).dom().contains(
                                crate::allowed_ips::prefix_key(
                                    allowed_ips@[k].addr,
                                    allowed_ips@[k].cidr as nat,
                                ),
                            ) && self.peers_by_ip.family_map(
                                allowed_ips@[k].addr,
                            )[crate::allowed_ips::prefix_key(
                                allowed_ips@[k].addr,
                                allowed_ips@[k].cidr as nat,
                            )] == index,
                    decreases allowed_ips@.len() - j,
                {
                    let entry = allowed_ips[j];
                    self.peers_by_ip.insert(entry.addr, entry.cidr, index);
                    j = j + 1;
                }
                proof {
                    lemma_peer_by_key_is(*old(self), pub_key, i as int);
                }
                Ok(())
            },
            None => {
                proof {
                    if old(self).spec_peer_by_key(pub_key) is Some {
                        let w = old(self).spec_peer_by_key(pub_key)->0;
                        assert(old(self).peers@[w].public_key == pub_key);
                    }
                }
                if update_only {
                    return Ok(());
                }
                self.new_peer(pub_key, endpoint, allowed_ips, keepalive, preshared_key)
            },
        }
    }
}

impl Device {
    /// Does this tunnel result carry bytes for the network (and so ask for
    /// a flush of the queued packets)?
    pub open spec fn spec_is_network_write(w: TunnWrite) -> bool {
        w is HandshakeInitiation || w is HandshakeResponse || w is Transport
    }

    /// The peer a classified datagram belongs to: an initiation through
    /// the key the anonymous parse recovered, everything else through the
    /// peer part of its receiver index.
    pub open spec fn spec_datagram_owner(
        s: Device,
        p: Packet,
        anon_peer_key: Option<[u8; 32]>,
    ) -> Option<int> {
        match p {
            Packet::HandshakeInit { .. } => match anon_peer_key {
                Some(k) => s.spec_peer_by_key(k),
                None => None,
            },
            Packet::HandshakeResponse { receiver_idx, .. } => s.spec_peer_by_index(
                crate::packets::spec_peer_of_idx(receiver_idx),
            ),
            Packet::PacketCookieReply { receiver_idx } => s.spec_peer_by_index(
                crate::packets::spec_peer_of_idx(receiver_idx),
            ),
            Packet::PacketData { receiver_idx, .. } => s.spec_peer_by_index(
                crate::packets::spec_peer_of_idx(receiver_idx),
            ),
        }
    }

    /// Handle one datagram of the unconnected listening socket: classify
    /// it, hold it to the rate limiter, locate the owning peer (an
    /// initiation through the anonymous-parse key handed in by the
    /// handshake cryptography, everything else through its receiver
    /// index), step that peer's tunnel, and commit the source as the
    /// peer's endpoint, connecting a per-peer socket when configured.
    #[verifier::rlimit(100)]
    #[verifier::spinoff_prover]
    pub fn handle_udp_datagram(
        &mut self,
        datagram: &[u8],
        src: SocketAddress,
        mac1_valid: bool,
        mac2_valid: bool,
        anon_peer_key: Option<[u8; 32]>,
    ) -> (r: UdpVerdict)
        requires
            old(self).wf(),
            old(self).key_pair is Some,
        ensures
            final(self).wf(),
            final(self).key_pair == old(self).key_pair,
            final(self).listen_port == old(self).listen_port,
            final(self).peers@.len() == old(self).peers@.len(),
            (match crate::packets::spec_parse_packet(datagram@) {
                Err(e) => r == UdpVerdict::Drop(e) && *final(self) == *old(self),
                Ok(p) => {
                    let verdict = old(self).rate_limiter->0.spec_verdict(
                        Some(src.ip),
                        p,
                        mac1_valid,
                        mac2_valid,
                    );
                    &&& (verdict is SendCookieReply ==> r is SendCookieReply)
                    &&& (verdict matches RateLimiterVerdict::Refused(e) ==> r == UdpVerdict::Drop(
                        e,
                    ))
                    &&& (match r {
                        UdpVerdict::Handled { peer_slot, write, flush, connect } => {
                            &&& verdict == RateLimiterVerdict::Allowed(p)
                            &&& peer_slot < old(self).peers@.len()
                            &&& Ok::<TunnWrite, WireGuardError>(write) == Tunn::spec_handle_result(
                                old(self).peers@[peer_slot as int].tunnel,
                                p,
                            )
                            &&& final(self).peers@[peer_slot as int].endpoint.addr == Some(src)
                            &&& (flush == Self::spec_is_network_write(write))
                            &&& (!old(self).config.use_connected_socket ==> connect is None)
                            &&& (connect matches Some(c) ==> c == (ConnSocket {
                                bind_port: old(self).listen_port,
                                remote: src,
                            }) && final(self).peers@[peer_slot as int].endpoint.conn == Some(c))
                        },
                        _ => true,
                    })
                    // An allowed datagram with an owner is never left
                    // unhandled: the verdict names the owner, carries its
                    // tunnel's exact result, and a tunnel error drops it.
                    &&& (verdict == RateLimiterVerdict::Allowed(p) ==> (
                    match Self::spec_datagram_owner(*old(self), p, anon_peer_key) {
                        None => r is NoPeer && *final(self) == (Device {
                            rate_limiter: final(self).rate_limiter,
                            ..*old(self)
                        }),
                        Some(i) => (match Tunn::spec_handle_result(old(self).peers@[i].tunnel, p) {
                            Err(e) => r == UdpVerdict::Drop(e),
                            Ok(w) => r matches UdpVerdict::Handled {
                                peer_slot,
                                write,
                                flush,
                                connect,
                            } && peer_slot == i && write == w,
                        }),
                    }))
                },
            }),
    {
        let packet = match parse_incoming_packet(datagram) {
            Ok(p) => p,
            Err(e) => {
                return UdpVerdict::Drop(e);
            },
        };

        // The rate limiter first checks the MACs, and under load asks to
        // answer with a cookie instead of doing handshake work.
        let mut limiter = self.rate_limiter.take();
        let verdict = match &mut limiter {
            Some(l) => l.verify_packet(Some(src.ip), packet, mac1_valid, mac2_valid),
            None => RateLimiterVerdict::Allowed(packet),
        };
        self.rate_limiter = limiter;
        match verdict {
            RateLimiterVerdict::Allowed(_) => {},
            RateLimiterVerdict::SendCookieReply => {
                return UdpVerdict::SendCookieReply;
            },
            RateLimiterVerdict::Refused(e) => {
                return UdpVerdict::Drop(e);
            },
        }

        // Locate the owning peer.
        let slot_opt: Option<usize> = match packet {
            Packet::HandshakeInit { .. } => {
                match anon_peer_key {
                    Some(k) => self.find_peer_by_key(&k),
                    None => None,
                }
            },
            Packet::HandshakeResponse { receiver_idx, .. } => self.find_peer_by_index(
                peer_of_idx(receiver_idx),
            ),
            Packet::PacketCookieReply { receiver_idx } => self.find_peer_by_index(
                peer_of_idx(receiver_idx),
            ),
            Packet::PacketData { receiver_idx, .. } => self.find_peer_by_index(
                peer_of_idx(receiver_idx),
            ),
        };
        let slot = match slot_opt {
            Some(s) => s,
            None => {
                proof {
                    match packet {
                        Packet::HandshakeInit { .. } => {
                            match anon_peer_key {
                                Some(k) => lemma_peer_by_key_none(*old(self), k),
                                None => {},
                            }
                        },
                        Packet::HandshakeResponse { receiver_idx, .. } => lemma_peer_by_index_none(
                            *old(self),
                            crate::packets::spec_peer_of_idx(receiver_idx),
                        ),
                        Packet::PacketCookieReply { receiver_idx } => lemma_peer_by_index_none(
                            *old(self),
                            crate::packets::spec_peer_of_idx(receiver_idx),
                        ),
                        Packet::PacketData { receiver_idx, .. } => lemma_peer_by_index_none(
                            *old(self),
                            crate::packets::spec_peer_of_idx(receiver_idx),
                        ),
                    }
                }
                return UdpVerdict::NoPeer;
            },
        };
        proof {
            match packet {
                Packet::HandshakeInit { .. } => {
                    match anon_peer_key {
                        Some(k) => lemma_peer_by_key_is(*old(self), k, slot as int),
                        None => {},
                    }
                },
                Packet::HandshakeResponse { receiver_idx, .. } => lemma_peer_by_index_is(
                    *old(self),
                    crate::packets::spec_peer_of_idx(receiver_idx),
                    slot as int,
                ),
                Packet::PacketCookieReply { receiver_idx } => lemma_peer_by_index_is(
                    *old(self),
                    crate::packets::spec_peer_of_idx(receiver_idx),
                    slot as int,
                ),
                Packet::PacketData { receiver_idx, .. } => lemma_peer_by_index_is(
                    *old(self),
                    crate::packets::spec_peer_of_idx(receiver_idx),
                    slot as int,
                ),
            }
            assert(Self::spec_datagram_owner(*old(self), packet, anon_peer_key) == Some(
                slot as int,
            ));
        }

        let ghost pre = self.peers@;
        let mut peer = self.peers.remove(slot);
        let write = match peer.tunnel.handle_verified_packet(packet) {
            Ok(w) => w,
            Err(e) => {
                self.peers.insert(slot, peer);
                proof {
                    assert(self.peers@ =~= pre.update(slot as int, self.peers@[slot as int]));
                    lemma_update_same_identity(pre, self.peers@, slot as int);
                }
                return UdpVerdict::Drop(e);
            },
        };
        let flush = match write {
            TunnWrite::HandshakeInitiation => true,
            TunnWrite::HandshakeResponse { .. } => true,
            TunnWrite::Transport { .. } => true,
            _ => false,
        };

        // This packet was accepted: commit the source as the endpoint and,
        // when configured, talk back over a connected per-peer socket.
        peer.set_endpoint(src);
        let connect: Option<ConnSocket> = if self.config.use_connected_socket {
            match peer.connect_endpoint(self.listen_port) {
                Ok(sock) => Some(sock),
                Err(_) => None,
            }
        } else {
            None
        };
        self.peers.insert(slot, peer);
        proof {
            assert(self.peers@ =~= pre.update(slot as int, self.peers@[slot as int]));
            lemma_update_same_identity(pre, self.peers@, slot as int);
        }
        UdpVerdict::Handled { peer_slot: slot, write, flush, connect }
    }
}

impl Device {
    /// Handle one datagram of a peer's connected socket: the owner is
    /// already known, so the payload is only classified and stepped
    /// through that peer's tunnel. A resulting network write (a handshake
    /// message or a transport packet) asks the caller to also flush the
    /// queued packets; plaintext goes to the tunnel device in batches.
    pub fn handle_connected_datagram(&mut self, peer_slot: usize, datagram: &[u8]) -> (r: Result<
        TunnWrite,
        WireGuardError,
    >)
        requires
            old(self).wf(),
            peer_slot < old(self).peers@.len(),
        ensures
            final(self).wf(),
            final(self).peers@.len() == old(self).peers@.len(),
            r == (match crate::packets::spec_parse_packet(datagram@) {
                Err(e) => Err::<TunnWrite, WireGuardError>(e),
                Ok(p) => Tunn::spec_handle_result(old(self).peers@[peer_slot as int].tunnel, p),
            }),
            forall|j: int|
                0 <= j < old(self).peers@.len() && j != peer_slot ==> final(self).peers@[j] == old(
                    self,
                ).peers@[j],
            // Only the stepped peer's tunnel moves; its other fields stay.
            final(self).peers@[peer_slot as int] == (Peer {
                tunnel: final(self).peers@[peer_slot as int].tunnel,
                ..old(self).peers@[peer_slot as int]
            }),
            // A decapsulated transport counter is recorded in the stepped
            // peer's session: the window refuses it from then on.
            (match crate::packets::spec_parse_packet(datagram@) {
                Ok(p) => (match p {
                    Packet::PacketData { receiver_idx, counter, encrypted_len } => (r is Ok ==> {
                        let t0 = old(self).peers@[peer_slot as int].tunnel;
                        let ft = final(self).peers@[peer_slot as int].tunnel;
                        let i = Tunn::spec_find_session(t0, receiver_idx)->0;
                        &&& ft.sessions@[i] is Some
                        &&& !ft.sessions@[i]->0.receiving_counter.accepts(counter)
                    }),
                    _ => true,
                }),
                Err(e) => true,
            }),
    {
        let packet = match parse_incoming_packet(datagram) {
            Ok(p) => p,
            Err(e) => {
                return Err(e);
            },
        };
        let ghost pre = self.peers@;
        let mut peer = self.peers.remove(peer_slot);
        let result = peer.tunnel.handle_verified_packet(packet);
        self.peers.insert(peer_slot, peer);
        proof {
            assert(self.peers@ =~= pre.update(peer_slot as int, self.peers@[peer_slot as int]));
            lemma_update_same_identity(pre, self.peers@, peer_slot as int);
        }
        result
    }
}

impl Device {
    /// One timer pass for the peer in `slot`: its tunnel is stepped at
    /// `now`, and a tunnel whose connection expired has its connected
    /// socket dropped (the runtime shuts the real socket down).
    pub fn tick_peer_timers(&mut self, peer_slot: usize, now: u64) -> (r: Result<
        TunnWrite,
        WireGuardError,
    >)
        requires
            old(self).wf(),
            peer_slot < old(self).peers@.len(),
            now >= old(self).peers@[peer_slot as int].tunnel.timers.current(),
        ensures
            final(self).wf(),
            final(self).peers@.len() == old(self).peers@.len(),
            *final(self) == (Device { peers: final(self).peers, ..*old(self) }),
            r == Tunn::spec_timer_result(old(self).peers@[peer_slot as int].tunnel, now),
            forall|j: int|
                0 <= j < old(self).peers@.len() && j != peer_slot ==> final(self).peers@[j] == old(
                    self,
                ).peers@[j],
            final(self).peers@[peer_slot as int] == (Peer {
                tunnel: final(self).peers@[peer_slot as int].tunnel,
                endpoint: final(self).peers@[peer_slot as int].endpoint,
                ..old(self).peers@[peer_slot as int]
            }),
            // An expired connection loses its connected socket; any other
            // outcome leaves the endpoint alone.
            r == Err::<TunnWrite, WireGuardError>(WireGuardError::ConnectionExpired)
                ==> final(self).peers@[peer_slot as int].endpoint == (crate::peer::Endpoint {
                addr: old(self).peers@[peer_slot as int].endpoint.addr,
                conn: None::<ConnSocket>,
            }),
            r != Err::<TunnWrite, WireGuardError>(WireGuardError::ConnectionExpired)
                ==> final(self).peers@[peer_slot as int].endpoint == old(self).peers@[
                peer_slot as int
            ].endpoint,
    {
        let ghost pre = self.peers@;
        let mut peer = self.peers.remove(peer_slot);
        let r = peer.tunnel.update_timers(now);
        let expired = match &r {
            Err(WireGuardError::ConnectionExpired) => true,
            _ => false,
        };
        if expired {
            peer.shutdown_endpoint();
        }
        self.peers.insert(peer_slot, peer);
        proof {
            assert(self.peers@ =~= pre.update(peer_slot as int, self.peers@[peer_slot as int]));
            lemma_update_same_identity(pre, self.peers@, peer_slot as int);
        }
        r
    }
}

/// Replacing one slot of the peer table with a peer of the same key and
/// index keeps the table's uniqueness.
proof fn lemma_update_same_identity(pre: Seq<Peer>, post: Seq<Peer>, i: int)
    requires
        0 <= i < pre.len(),
        post.len() == pre.len(),
        post[i].public_key == pre[i].public_key,
        post[i].index == pre[i].index,
        forall|j: int| 0 <= j < pre.len() && j != i ==> post[j] == pre[j],
        forall|a: int, b: int|
            0 <= a < pre.len() && 0 <= b < pre.len() && a != b ==> (#[trigger] pre[a]).public_key
                != (#[trigger] pre[b]).public_key,
        forall|a: int, b: int|
            0 <= a < pre.len() && 0 <= b < pre.len() && a != b ==> (#[trigger] pre[a]).index != (
            #[trigger] pre[b]).index,
    ensures
        forall|a: int, b: int|
            0 <= a < post.len() && 0 <= b < post.len() && a != b ==> (#[trigger] post[a]).public_key
                != (#[trigger] post[b]).public_key,
        forall|a: int, b: int|
            0 <= a < post.len() && 0 <= b < post.len() && a != b ==> (#[trigger] post[a]).index != (
            #[trigger] post[b]).index,
{
    assert forall|a: int, b: int|
        0 <= a < post.len() && 0 <= b < post.len() && a != b implies (
    #[trigger] post[a]).public_key != (#[trigger] post[b]).public_key && (post[a]).index != (
    post[b]).index by {
        assert(pre[a].public_key != pre[b].public_key);
        assert(pre[a].index != pre[b].index);
    }
}

/// A key found nowhere in the table has no lookup result.
proof fn lemma_peer_by_key_none(d: Device, key: [u8; 32])
    requires
        forall|i: int| 0 <= i < d.peers@.len() ==> (#[trigger] d.peers@[i]).public_key != key,
    ensures
        d.spec_peer_by_key(key) is None,
{
    if exists|i: int| 0 <= i < d.peers@.len() && (#[trigger] d.peers@[i]).public_key == key {
        let w = choose|i: int| 0 <= i < d.peers@.len() && (#[trigger] d.peers@[i]).public_key == key;
        assert(d.peers@[w].public_key != key);
    }
}

/// An index found nowhere in the table has no lookup result.
proof fn lemma_peer_by_index_none(d: Device, index: u32)
    requires
        forall|i: int| 0 <= i < d.peers@.len() ==> (#[trigger] d.peers@[i]).index != index,
    ensures
        d.spec_peer_by_index(index) is None,
{
    if exists|i: int| 0 <= i < d.peers@.len() && (#[trigger] d.peers@[i]).index == index {
        let w = choose|i: int| 0 <= i < d.peers@.len() && (#[trigger] d.peers@[i]).index == index;
        assert(d.peers@[w].index != index);
    }
}

/// When a table slot holds the index, the index lookup names exactly it
/// (the table never holds an index twice).
proof fn lemma_peer_by_index_is(d: Device, index: u32, i: int)
    requires
        d.wf(),
        0 <= i < d.peers@.len(),
        d.peers@[i].index == index,
    ensures
        d.spec_peer_by_index(index) == Some(i),
{
    assert(exists|j: int| 0 <= j < d.peers@.len() && (#[trigger] d.peers@[j]).index == index);
    let w = choose|j: int| 0 <= j < d.peers@.len() && (#[trigger] d.peers@[j]).index == index;
    if w != i {
        assert(d.peers@[w].index != d.peers@[i].index);
    }
}

/// When a table slot holds the key, the key lookup names exactly it (the
/// table never holds a key twice).
proof fn lemma_peer_by_key_is(d: Device, key: [u8; 32], i: int)
    requires
        d.wf(),
        0 <= i < d.peers@.len(),
        d.peers@[i].public_key == key,
    ensures
        d.spec_peer_by_key(key) == Some(i),
{
    assert(exists|j: int| 0 <= j < d.peers@.len() && (#[trigger] d.peers@[j]).public_key == key);
    let w = choose|j: int| 0 <= j < d.peers@.len() && (#[trigger] d.peers@[j]).public_key == key;
    if w != i {
        assert(d.peers@[w].public_key != d.peers@[i].public_key);
    }
}

/// Compare two keys byte for byte.
pub fn keys_equal(a: &[u8; 32], b: &[u8; 32]) -> (r: bool)
    ensures
        r <==> *a == *b,
{
    let mut i: usize = 0;
    while i < 32
        invariant
            i <= 32,
            forall|j: int| 0 <= j < i ==> a@[j] == b@[j],
        decreases 32 - i,
    {
        if a[i] != b[i] {
            return false;
        }
        i = i + 1;
    }
    proof {
        assert(*a =~= *b);
    }
    true
}

} // verus!
