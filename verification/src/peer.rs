//! One peer of the device: its tunnel, its endpoint record, its allowed
//! IPs and its preshared key. Socket system calls happen outside; the
//! endpoint record carries what they must be performed with.

use vstd::prelude::*;
use crate::allowed_ips::AllowedIps;
use crate::errors::Error;
use crate::ip::{AllowedIP, IpAddress, SocketAddress};
use crate::tunn::Tunn;

verus! {

/// A connected UDP socket as the library sees it: bound to the listener's
/// port and connected to the peer's address. The caller performs the
/// system calls this record describes.
#[derive(Clone, Copy, Debug, PartialEq, Eq, Structural)]
pub struct ConnSocket {
    pub bind_port: u16,
    pub remote: SocketAddress,
}

/// The peer's transport endpoint.
#[derive(Clone, Copy, Debug, PartialEq, Eq, Structural)]
pub struct Endpoint {
    pub addr: Option<SocketAddress>,
    pub conn: Option<ConnSocket>,
}

impl Endpoint {
    /// A connected socket exists only towards the recorded address.
    pub open spec fn wf(self) -> bool {
        match self.conn {
            Some(c) => self.addr == Some(c.remote),
            None => true,
        }
    }
}

/// The listing holds each prefix once.
pub open spec fn spec_distinct_entries(s: Seq<AllowedIP>) -> bool {
    forall|i: int, j: int| 0 <= i < j < s.len() ==> s[i] != s[j]
}

/// `base` extended by the entries of `more` in order, each entry kept
/// only on its first appearance (a stored prefix is never listed twice).
pub open spec fn spec_add_distinct(base: Seq<AllowedIP>, more: Seq<AllowedIP>) -> Seq<AllowedIP>
    decreases more.len(),
{
    if more.len() == 0 {
        base
    } else {
        let fore = spec_add_distinct(base, more.drop_last());
        if fore.contains(more.last()) {
            fore
        } else {
            fore.push(more.last())
        }
    }
}

/// Distinct listings stay distinct under distinct extension.
pub proof fn lemma_add_distinct_no_duplicates(base: Seq<AllowedIP>, more: Seq<AllowedIP>)
    requires
        spec_distinct_entries(base),
    ensures
        spec_distinct_entries(spec_add_distinct(base, more)),
    decreases more.len(),
{
    if more.len() > 0 {
        lemma_add_distinct_no_duplicates(base, more.drop_last());
        let fore = spec_add_distinct(base, more.drop_last());
        if !fore.contains(more.last()) {
            assert forall|i: int, j: int|
                0 <= i < j < fore.push(more.last()).len() implies fore.push(more.last())[i]
                != fore.push(more.last())[j] by {
                if j < fore.len() {
                } else {
                    assert(fore.push(more.last())[i] == fore[i]);
                    if fore[i] == more.last() {
                        assert(fore.contains(more.last()));
                    }
                }
            }
        }
    }
}

/// An entry is listed exactly when it came from the base or the extension.
pub proof fn lemma_add_distinct_contains(base: Seq<AllowedIP>, more: Seq<AllowedIP>, x: AllowedIP)
    ensures
        spec_add_distinct(base, more).contains(x) <==> (base.contains(x) || more.contains(x)),
    decreases more.len(),
{
    if more.len() == 0 {
        assert(!more.contains(x));
    } else {
        lemma_add_distinct_contains(base, more.drop_last(), x);
        let fore = spec_add_distinct(base, more.drop_last());
        if x == more.last() {
            assert(more.contains(x)) by {
                assert(more[more.len() - 1] == x);
            }
            if !fore.contains(x) {
                assert(fore.push(x)[fore.len() as int] == x);
                assert(fore.push(x).contains(x));
            }
        } else {
            // the last entry differs from x, so it changes nothing for x
            if more.contains(x) {
                let w = choose|i: int| 0 <= i < more.len() && more[i] == x;
                assert(w < more.len() - 1);
                assert(more.drop_last()[w] == x);
                assert(more.drop_last().contains(x));
            }
            if more.drop_last().contains(x) {
                let w = choose|i: int| 0 <= i < more.drop_last().len() && more.drop_last()[i] == x;
                assert(more[w] == x);
                assert(more.contains(x));
            }
            if !fore.contains(more.last()) {
                if fore.push(more.last()).contains(x) {
                    let w = choose|i: int|
                        0 <= i < fore.push(more.last()).len() && fore.push(more.last())[i] == x;
                    assert(w < fore.len());
                    assert(fore[w] == x);
                    assert(fore.contains(x));
                }
                if fore.contains(x) {
                    let w = choose|i: int| 0 <= i < fore.len() && fore[i] == x;
                    assert(fore.push(more.last())[w] == x);
                    assert(fore.push(more.last()).contains(x));
                }
            }
        }
    }
}

/// Append an entry unless the listing already holds it.
fn push_distinct(list: &mut Vec<AllowedIP>, entry: AllowedIP)
    ensures
        final(list)@ == (if old(list)@.contains(entry) {
            old(list)@
        } else {
            old(list)@.push(entry)
        }),
{
    let n = list.len();
    let mut i: usize = 0;
    while i < n
        invariant
            i <= n,
            n == list@.len(),
            *list == *old(list),
            forall|j: int| 0 <= j < i ==> list@[j] != entry,
        decreases n - i,
    {
        if list[i] == entry {
            proof {
                assert(list@.contains(entry)) by {
                    assert(list@[i as int] == entry);
                }
            }
            return ;
        }
        i = i + 1;
    }
    proof {
        if list@.contains(entry) {
            let w = choose|j: int| 0 <= j < list@.len() && list@[j] == entry;
            assert(list@[w] != entry);
        }
    }
    list.push(entry);
}

/// A peer: its tunnel state, table indices, endpoint and filters.
pub struct Peer {
    /// The associated tunnel state.
    pub tunnel: Tunn,
    /// Public key of this peer in raw bytes.
    pub public_key: [u8; 32],
    /// The 24-bit index the tunnel uses.
    pub index: u32,
    pub endpoint: Endpoint,
    /// The prefixes whose traffic is permitted through this peer; the
    /// stored value is unused.
    pub allowed_ips: AllowedIps,
    /// The same prefixes in insertion order, for listing.
    pub allowed_list: Vec<AllowedIP>,
    pub preshared_key: Option<[u8; 32]>,
}

impl Peer {
    pub open spec fn wf(self) -> bool {
        &&& self.tunnel.wf()
        &&& self.endpoint.wf()
        &&& self.index <= 0xffffff
        &&& spec_distinct_entries(self.allowed_list@)
    }

    pub fn new(
        tunnel: Tunn,
        index: u32,
        endpoint: Option<SocketAddress>,
        allowed_ips: &Vec<AllowedIP>,
        preshared_key: Option<[u8; 32]>,
    ) -> (r: Peer)
        requires
            tunnel.wf(),
            index <= 0xffffff,
            forall|i: int| 0 <= i < allowed_ips@.len() ==> (#[trigger] allowed_ips@[i]).wf(),
        ensures
            r.wf(),
            r.tunnel == tunnel,
            r.public_key == tunnel.peer_static_public_key,
            r.index == index,
            r.endpoint == (Endpoint { addr: endpoint, conn: None::<ConnSocket> }),
            r.preshared_key == preshared_key,
            r.allowed_list@ == spec_add_distinct(Seq::empty(), allowed_ips@),
            forall|i: int|
                0 <= i < allowed_ips@.len() ==> r.spec_is_allowed_prefix(#[trigger] allowed_ips@[i]),
    {
        let public_key = tunnel.peer_static_public();
        let mut ips = AllowedIps::new();
        let mut i: usize = 0;
        while i < allowed_ips.len()
            invariant
                i <= allowed_ips@.len(),
                forall|j: int| 0 <= j < allowed_ips@.len() ==> (#[trigger] allowed_ips@[j]).wf(),
                forall|j: int|
                    0 <= j < i ==> ips.family_map(#[trigger] allowed_ips@[j].addr).dom().contains(
                        crate::allowed_ips::prefix_key(
                            allowed_ips@[j].addr,
                            allowed_ips@[j].cidr as nat,
                        ),
                    ),
            decreases allowed_ips@.len() - i,
        {
            let entry = allowed_ips[i];
            ips.insert(entry.addr, entry.cidr, 0);
            i = i + 1;
        }
        let mut allowed_list: Vec<AllowedIP> = Vec::new();
        let mut k: usize = 0;
        while k < allowed_ips.len()
            invariant
                k <= allowed_ips@.len(),
                allowed_list@ == spec_add_distinct(Seq::empty(), allowed_ips@.take(k as int)),
            decreases allowed_ips@.len() - k,
        {
            push_distinct(&mut allowed_list, allowed_ips[k]);
            proof {
                assert(allowed_ips@.take(k + 1).drop_last() =~= allowed_ips@.take(k as int));
                assert(allowed_ips@.take(k + 1).last() == allowed_ips@[k as int]);
            }
            k = k + 1;
        }
        proof {
            assert(allowed_ips@.take(allowed_ips@.len() as int) =~= allowed_ips@);
            lemma_add_distinct_no_duplicates(Seq::empty(), allowed_ips@);
        }
        Peer {
            tunnel,
            public_key,
            index,
            endpoint: Endpoint { addr: endpoint, conn: None },
            allowed_ips: ips,
            allowed_list,
            preshared_key,
        }
    }

    /// The allowed prefixes, in the order they were added.
    pub fn allowed_ips(&self) -> (r: Vec<AllowedIP>)
        ensures
            r@ == self.allowed_list@,
    {
        let mut out: Vec<AllowedIP> = Vec::new();
        let mut i: usize = 0;
        let n = self.allowed_list.len();
        while i < n
            invariant
                i <= n,
                n == self.allowed_list@.len(),
                out@ == self.allowed_list@.take(i as int),
            decreases n - i,
        {
            let ghost pre = out@;
            out.push(self.allowed_list[i]);
            proof {
                assert(pre.push(self.allowed_list@[i as int]) =~= self.allowed_list@.take(i + 1));
            }
            i = i + 1;
        }
        proof {
            assert(self.allowed_list@.take(n as int) =~= self.allowed_list@);
        }
        out
    }

    /// This prefix is present in the peer's allowed set.
    pub open spec fn spec_is_allowed_prefix(self, entry: AllowedIP) -> bool {
        self.allowed_ips.family_map(entry.addr).dom().contains(
            crate::allowed_ips::prefix_key(entry.addr, entry.cidr as nat),
        )
    }

    pub fn endpoint(&self) -> (r: &Endpoint)
        ensures
            r == self.endpoint,
    {
        &self.endpoint
    }

    /// Drop the connected socket, if any; the caller shuts the real socket
    /// down in both directions.
    pub fn shutdown_endpoint(&mut self)
        ensures
            *final(self) == (Peer {
                endpoint: Endpoint { addr: old(self).endpoint.addr, conn: None::<ConnSocket> },
                ..*old(self)
            }),
    {
        self.endpoint.conn = None;
    }

    /// Record a fresh endpoint address: an unchanged address is kept as
    /// is; a new one drops any connected socket.
    pub fn set_endpoint(&mut self, addr: SocketAddress)
        ensures
            *final(self) == (Peer { endpoint: final(self).endpoint, ..*old(self) }),
            old(self).endpoint.addr == Some(addr) ==> final(self).endpoint == old(self).endpoint,
            old(self).endpoint.addr != Some(addr) ==> final(self).endpoint == (Endpoint {
                addr: Some(addr),
                conn: None::<ConnSocket>,
            }),
    {
        let same = match &self.endpoint.addr {
            Some(a) => *a == addr,
            None => false,
        };
        if same {
            return ;
        }
        self.endpoint.conn = None;
        self.endpoint.addr = Some(addr);
    }

    /// Decide the connected socket for this peer: one per endpoint, bound
    /// at the listen port towards the recorded address. Fails when no
    /// address is known or a connected socket already exists; the caller
    /// performs the system calls the returned record describes.
    pub fn connect_endpoint(&mut self, port: u16) -> (r: Result<ConnSocket, Error>)
        requires
            old(self).wf(),
        ensures
            final(self).wf(),
            *final(self) == (Peer { endpoint: final(self).endpoint, ..*old(self) }),
            old(self).endpoint.conn is Some ==> (r matches Err(Error::Connect(_)) && *final(self)
                == *old(self)),
            old(self).endpoint.conn is None && old(self).endpoint.addr is None ==> (r matches Err(
                Error::InternalError(_),
            ) && *final(self) == *old(self)),
            old(self).endpoint.conn is None && old(self).endpoint.addr is Some ==> {
                let sock = ConnSocket { bind_port: port, remote: old(self).endpoint.addr->0 };
                r == Ok::<ConnSocket, Error>(sock) && final(self).endpoint == (Endpoint {
                    addr: old(self).endpoint.addr,
                    conn: Some(sock),
                })
            },
    {
        if self.endpoint.conn.is_some() {
            return Err(Error::Connect(String::new()));
        }
        let addr = match &self.endpoint.addr {
            Some(a) => *a,
            None => {
                // No endpoint was ever learned for this peer.
                return Err(Error::InternalError(String::new()));
            },
        };
        let sock = ConnSocket { bind_port: port, remote: addr };
        self.endpoint.conn = Some(sock);
        Ok(sock)
    }

    /// Some allowed prefix of this peer covers the address.
    pub open spec fn spec_allows(self, addr: IpAddress) -> bool {
        exists|len: nat|
            len <= 128 && #[trigger] crate::allowed_ips::has_match(
                self.allowed_ips.family_map(addr),
                addr.spec_key_bits(),
                0,
                len,
            )
    }

    /// Does some allowed prefix of this peer cover the address?
    pub fn is_allowed_ip(&self, addr: IpAddress) -> (r: bool)
        ensures
            r <==> self.spec_allows(addr),
    {
        let found = self.allowed_ips.find(addr);
        proof {
            let m = self.allowed_ips.family_map(addr);
            let k = addr.spec_key_bits();
            match found {
                Some(v) => {
                    let len = choose|len: nat|
                        #![trigger crate::allowed_ips::has_match(m, k, 0, len)]
                        len <= 128 && crate::allowed_ips::has_match(m, k, 0, len) && m[
                            crate::allowed_ips::bits_slice(k, 0, len)
                        ] == v && (forall|l2: nat|
                            len < l2 <= 128 ==> !crate::allowed_ips::has_match(m, k, 0, l2));
                    assert(len <= 128 && crate::allowed_ips::has_match(m, k, 0, len));
                },
                None => {},
            }
        }
        found.is_some()
    }

    pub fn add_allowed_ips(&mut self, new_allowed_ips: &Vec<AllowedIP>)
        requires
            spec_distinct_entries(old(self).allowed_list@),
            forall|i: int| 0 <= i < new_allowed_ips@.len() ==> (#[trigger] new_allowed_ips@[i]).wf(),
        ensures
            *final(self) == (Peer {
                allowed_ips: final(self).allowed_ips,
                allowed_list: final(self).allowed_list,
                ..*old(self)
            }),
            final(self).allowed_list@ == spec_add_distinct(old(self).allowed_list@, new_allowed_ips@),
            spec_distinct_entries(final(self).allowed_list@),
            forall|i: int|
                0 <= i < new_allowed_ips@.len() ==> final(self).spec_is_allowed_prefix(
                    #[trigger] new_allowed_ips@[i],
                ),
    {
        let mut i: usize = 0;
        while i < new_allowed_ips.len()
            invariant
                i <= new_allowed_ips@.len(),
                forall|j: int|
                    0 <= j < new_allowed_ips@.len() ==> (#[trigger] new_allowed_ips@[j]).wf(),
                *self == (Peer {
                    allowed_ips: self.allowed_ips,
                    allowed_list: self.allowed_list,
                    ..*old(self)
                }),
                self.allowed_list@ == spec_add_distinct(
                    old(self).allowed_list@,
                    new_allowed_ips@.take(i as int),
                ),
                forall|j: int|
                    0 <= j < i ==> self.spec_is_allowed_prefix(#[trigger] new_allowed_ips@[j]),
            decreases new_allowed_ips@.len() - i,
        {
            let entry = new_allowed_ips[i];
            self.allowed_ips.insert(entry.addr, entry.cidr, 0);
            push_distinct(&mut self.allowed_list, entry);
            proof {
                assert(new_allowed_ips@.take(i + 1).drop_last() =~= new_allowed_ips@.take(i as int));
                assert(new_allowed_ips@.take(i + 1).last() == new_allowed_ips@[i as int]);
            }
            i = i + 1;
        }
        proof {
            assert(new_allowed_ips@.take(new_allowed_ips@.len() as int) =~= new_allowed_ips@);
            lemma_add_distinct_no_duplicates(old(self).allowed_list@, new_allowed_ips@);
        }
    }

    /// Replace the allowed set with exactly these prefixes.
    pub fn set_allowed_ips(&mut self, allowed_ips: &Vec<AllowedIP>)
        requires
            forall|i: int| 0 <= i < allowed_ips@.len() ==> (#[trigger] allowed_ips@[i]).wf(),
        ensures
            *final(self) == (Peer {
                allowed_ips: final(self).allowed_ips,
                allowed_list: final(self).allowed_list,
                ..*old(self)
            }),
            final(self).allowed_list@ == spec_add_distinct(Seq::empty(), allowed_ips@),
            spec_distinct_entries(final(self).allowed_list@),
            forall|i: int|
                0 <= i < allowed_ips@.len() ==> final(self).spec_is_allowed_prefix(
                    #[trigger] allowed_ips@[i],
                ),
    {
        self.allowed_ips.clear();
        self.allowed_list = Vec::new();
        self.add_allowed_ips(allowed_ips);
    }

    pub fn preshared_key(&self) -> (r: Option<[u8; 32]>)
        ensures
            r == self.preshared_key,
    {
        self.preshared_key
    }

    /// A zero key clears the preshared key, of the peer and of its tunnel.
    pub fn set_preshared_key(&mut self, key: [u8; 32])
        requires
            old(self).wf(),
        ensures
            final(self).wf(),
            final(self).preshared_key == (if is_zero_key(key) {
                None::<[u8; 32]>
            } else {
                Some(key)
            }),
            final(self).tunnel.preshared_key == final(self).preshared_key,
            *final(self) == (Peer {
                preshared_key: final(self).preshared_key,
                tunnel: final(self).tunnel,
                ..*old(self)
            }),
            final(self).tunnel == (Tunn {
                preshared_key: final(self).preshared_key,
                ..old(self).tunnel
            }),
    {
        let mut all_zero = true;
        let mut i: usize = 0;
        while i < 32
            invariant
                i <= 32,
                all_zero == (forall|j: int| 0 <= j < i ==> key@[j] == 0u8),
            decreases 32 - i,
        {
            if key[i] != 0 {
                all_zero = false;
                proof {
                    assert(key@[i as int] != 0);
                }
            }
            i = i + 1;
        }
        let stored = if all_zero {
            None
        } else {
            Some(key)
        };
        self.preshared_key = stored;
        self.tunnel.set_preshared_key(stored);
    }

    /// The stable 24-bit local receiver index of this peer.
    pub fn index(&self) -> (r: u32)
        ensures
            r == self.index,
    {
        self.index
    }
}

/// The all-zero key stands for "no preshared key".
pub open spec fn is_zero_key(key: [u8; 32]) -> bool {
    forall|j: int| 0 <= j < 32 ==> key@[j] == 0u8
}

} // verus!
