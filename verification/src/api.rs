//! The line-based configuration protocol: `get=1` reports the device
//! state as `key=value` lines, `set=1` applies them, and every command is
//! answered with an `errno=N` block. The stream socket carrying these
//! bytes lives outside; this module maps request bytes to response bytes
//! and state changes.

use vstd::prelude::*;
use vstd::string::StringSliceAdditionalSpecFns;
use crate::device::Device;
use crate::ip::{AllowedIP, split_bytes, parse_allowed_ip, parse_socket_addr, format_ip,
    format_socket_addr, append_bytes, SocketAddress};
use crate::keys::public_from_private;
use crate::textfmt::{decode_hex_key, encode_hex_bytes, parse_bool, parse_u16, parse_u32,
    u64_to_dec, bytes_eq};

verus! {

// The errno values the protocol reports.
pub const ENOENT: i32 = 2;
pub const EIO: i32 = 5;
pub const EINVAL: i32 = 22;
pub const EPROTO: i32 = 71;
pub const EADDRINUSE: i32 = 98;

/// Append a byte-string literal.
fn push_literal(out: &mut Vec<u8>, lit: &[u8])
    ensures
        final(out)@ == old(out)@ + lit@,
{
    let n = lit.len();
    let mut i: usize = 0;
    while i < n
        invariant
            i <= n,
            n == lit@.len(),
            out@ == old(out)@ + lit@.take(i as int),
        decreases n - i,
    {
        let ghost pre = out@;
        out.push(lit[i]);
        proof {
            assert(pre.push(lit@[i as int]) =~= old(out)@ + lit@.take(i + 1));
        }
        i = i + 1;
    }
    proof {
        assert(old(out)@ + lit@.take(n as int) =~= old(out)@ + lit@);
    }
}

/// The key part of a `key=value` line: everything before the first `=`.
pub open spec fn spec_line_key(line: Seq<u8>) -> Seq<u8> {
    line.subrange(0, crate::ip::spec_find_from(line, 61, 0))
}

/// The value part of a `key=value` line: everything after the first `=`.
pub open spec fn spec_line_val(line: Seq<u8>) -> Seq<u8> {
    line.subrange(crate::ip::spec_find_from(line, 61, 0) + 1, line.len() as int)
}

/// Does the line carry a `=` at all?
pub open spec fn spec_line_has_eq(line: Seq<u8>) -> bool {
    crate::ip::spec_find_from(line, 61, 0) < line.len()
}

/// Split at the first occurrence of a separator, if any.
fn split_once(b: &Vec<u8>, sep: u8) -> (r: Option<(Vec<u8>, Vec<u8>)>)
    ensures
        r is Some <==> crate::ip::spec_find_from(b@, sep, 0) < b@.len(),
        (match r {
            Some(pair) => {
                let k = crate::ip::spec_find_from(b@, sep, 0);
                &&& pair.0@ == b@.subrange(0, k)
                &&& pair.1@ == b@.subrange(k + 1, b@.len() as int)
            },
            None => true,
        }),
{
    let n = b.len();
    let mut i: usize = 0;
    while i < n
        invariant
            i <= n,
            n == b@.len(),
            forall|j: int| 0 <= j < i ==> b@[j] != sep,
        decreases n - i,
    {
        if b[i] == sep {
            proof {
                crate::ip::lemma_find_from_hit(b@, sep, 0, i as int);
            }
            let left = crate::ip::slice_range(b.as_slice(), 0, i);
            let right = crate::ip::slice_range(b.as_slice(), i + 1, n);
            return Some((left, right));
        }
        i = i + 1;
    }
    proof {
        crate::ip::lemma_find_from_miss(b@, sep, 0);
    }
    None
}

/// One report line: the "key=" text, the value, a newline.
pub open spec fn spec_field(label: Seq<u8>, value: Seq<u8>) -> Seq<u8> {
    label + value + seq![10u8]
}

/// The text of an address.
pub open spec fn spec_ip_text(addr: crate::ip::IpAddress) -> Seq<u8> {
    match addr {
        crate::ip::IpAddress::V4(a) => crate::ip::spec_ipv4_text(a),
        crate::ip::IpAddress::V6(a) => crate::ip::spec_ipv6_text(a),
    }
}

/// The text of a socket address.
pub open spec fn spec_sock_text(sa: SocketAddress) -> Seq<u8> {
    match sa.ip {
        crate::ip::IpAddress::V4(a) => crate::ip::spec_ipv4_text(a) + seq![58u8]
            + crate::textfmt::spec_dec_digits(sa.port as nat),
        crate::ip::IpAddress::V6(a) => seq![91u8] + crate::ip::spec_ipv6_text(a) + seq![
            93u8,
            58u8,
        ] + crate::textfmt::spec_dec_digits(sa.port as nat),
    }
}

/// The allowed_ip lines of one peer, from entry `i` on.
pub open spec fn spec_allowed_lines(entries: Seq<AllowedIP>, i: int) -> Seq<u8>
    decreases entries.len() - i,
{
    if i < 0 || i >= entries.len() {
        Seq::empty()
    } else {
        spec_field(
            "allowed_ip=".spec_bytes(),
            spec_ip_text(entries[i].addr) + seq![47u8] + crate::textfmt::spec_dec_digits(
                entries[i].cidr as nat,
            ),
        ) + spec_allowed_lines(entries, i + 1)
    }
}

/// The report block of one peer.
pub open spec fn spec_peer_block(p: crate::peer::Peer, now_ms: u64, unix_now_ms: u64) -> Seq<u8> {
    spec_field("public_key=".spec_bytes(), crate::textfmt::spec_hex_bytes(p.public_key@)) + (
    match p.preshared_key {
        Some(k) => spec_field("preshared_key=".spec_bytes(), crate::textfmt::spec_hex_bytes(k@)),
        None => Seq::empty(),
    }) + (if p.tunnel.timers.persistent_keepalive > 0 {
        spec_field(
            "persistent_keepalive_interval=".spec_bytes(),
            crate::textfmt::spec_dec_digits(p.tunnel.timers.persistent_keepalive as nat),
        )
    } else {
        Seq::empty()
    }) + (match p.endpoint.addr {
        Some(sa) => spec_field("endpoint=".spec_bytes(), spec_sock_text(sa)),
        None => Seq::empty(),
    }) + spec_allowed_lines(p.allowed_list@, 0) + (
    match p.tunnel.time_since_last_handshake_spec(now_ms) {
        Some(age) => {
            let at = crate::timers::spec_sat_sub(unix_now_ms, age);
            spec_field(
                "last_handshake_time_sec=".spec_bytes(),
                crate::textfmt::spec_dec_digits((at / 1000) as nat),
            ) + spec_field(
                "last_handshake_time_nsec=".spec_bytes(),
                crate::textfmt::spec_dec_digits(((at % 1000) * 1_000_000) as nat),
            )
        },
        None => Seq::empty(),
    }) + spec_field(
        "rx_bytes=".spec_bytes(),
        crate::textfmt::spec_dec_digits(p.tunnel.rx_bytes as nat),
    ) + spec_field("tx_bytes=".spec_bytes(), crate::textfmt::spec_dec_digits(p.tunnel.tx_bytes as nat))
}

/// The report blocks of the peers from slot `i` on.
pub open spec fn spec_peer_blocks(
    peers: Seq<crate::peer::Peer>,
    i: int,
    now_ms: u64,
    unix_now_ms: u64,
) -> Seq<u8>
    decreases peers.len() - i,
{
    if i < 0 || i >= peers.len() {
        Seq::empty()
    } else {
        spec_peer_block(peers[i], now_ms, unix_now_ms) + spec_peer_blocks(
            peers,
            i + 1,
            now_ms,
            unix_now_ms,
        )
    }
}

/// The whole report of `get=1`.
pub open spec fn spec_get_response(d: Device, now_ms: u64, unix_now_ms: u64) -> Seq<u8> {
    (match d.key_pair {
        Some(kp) => spec_field("private_key=".spec_bytes(), crate::textfmt::spec_hex_bytes(kp.0@)),
        None => Seq::empty(),
    }) + (if d.listen_port != 0 {
        spec_field(
            "listen_port=".spec_bytes(),
            crate::textfmt::spec_dec_digits(d.listen_port as nat),
        )
    } else {
        Seq::empty()
    }) + (match d.fwmark {
        Some(mark) => spec_field("fwmark=".spec_bytes(), crate::textfmt::spec_dec_digits(mark as nat)),
        None => Seq::empty(),
    }) + spec_peer_blocks(d.peers@, 0, now_ms, unix_now_ms)
}

/// Append the report block of one peer: its key material, endpoint,
/// allowed prefixes, handshake age and traffic counters.
#[verifier::rlimit(100)]
#[verifier::spinoff_prover]
fn emit_peer_block(peer: &crate::peer::Peer, out: &mut Vec<u8>, now_ms: u64, unix_now_ms: u64)
    requires
        peer.wf(),
    ensures
        final(out)@ == old(out)@ + spec_peer_block(*peer, now_ms, unix_now_ms),
{
    let ghost block_base = out@;
    let ghost p_spec = *peer;
    push_literal(out, "public_key=".as_bytes());
    let hexed = encode_hex_bytes(&peer.public_key);
    append_bytes(out, &hexed);
    out.push(10);
    let ghost acc = spec_field(
        "public_key=".spec_bytes(),
        crate::textfmt::spec_hex_bytes(p_spec.public_key@),
    );
    proof {
        assert(out@ =~= block_base + acc);
    }

    match &peer.preshared_key {
        Some(psk) => {
            push_literal(out, "preshared_key=".as_bytes());
            let hexed_psk = encode_hex_bytes(psk);
            append_bytes(out, &hexed_psk);
            out.push(10);
        },
        None => {},
    }
    let ghost piece = (match p_spec.preshared_key {
        Some(k) => spec_field("preshared_key=".spec_bytes(), crate::textfmt::spec_hex_bytes(k@)),
        None => Seq::<u8>::empty(),
    });
    proof {
        assert(out@ =~= (block_base + acc) + piece);
        vstd::seq_lib::lemma_concat_associative(block_base, acc, piece);
    }
    let ghost acc = acc + piece;

    match peer.tunnel.persistent_keepalive() {
        Some(keepalive) => {
            push_literal(out, "persistent_keepalive_interval=".as_bytes());
            let text = u64_to_dec(keepalive as u64);
            append_bytes(out, &text);
            out.push(10);
        },
        None => {},
    }
    let ghost piece = (if p_spec.tunnel.timers.persistent_keepalive > 0 {
        spec_field(
            "persistent_keepalive_interval=".spec_bytes(),
            crate::textfmt::spec_dec_digits(p_spec.tunnel.timers.persistent_keepalive as nat),
        )
    } else {
        Seq::<u8>::empty()
    });
    proof {
        assert(out@ =~= (block_base + acc) + piece);
        vstd::seq_lib::lemma_concat_associative(block_base, acc, piece);
    }
    let ghost acc = acc + piece;

    match &peer.endpoint.addr {
        Some(addr) => {
            push_literal(out, "endpoint=".as_bytes());
            let text = format_socket_addr(addr);
            append_bytes(out, &text);
            out.push(10);
        },
        None => {},
    }
    let ghost piece = (match p_spec.endpoint.addr {
        Some(sa) => spec_field("endpoint=".spec_bytes(), spec_sock_text(sa)),
        None => Seq::<u8>::empty(),
    });
    proof {
        assert(out@ =~= (block_base + acc) + piece);
        vstd::seq_lib::lemma_concat_associative(block_base, acc, piece);
    }
    let ghost acc = acc + piece;
    let ghost before_allowed = out@;

    let allowed = peer.allowed_ips();
    let m = allowed.len();
    let mut j: usize = 0;
    while j < m
        invariant
            j <= m,
            m == allowed@.len(),
            out@ + spec_allowed_lines(allowed@, j as int) =~= before_allowed + spec_allowed_lines(
                allowed@,
                0,
            ),
        decreases m - j,
    {
        let ghost line_base = out@;
        let entry = &allowed[j];
        push_literal(out, "allowed_ip=".as_bytes());
        let host = format_ip(&entry.addr);
        append_bytes(out, &host);
        out.push(47);
        let cidr = u64_to_dec(entry.cidr as u64);
        append_bytes(out, &cidr);
        out.push(10);
        proof {
            assert(out@ =~= line_base + spec_field(
                "allowed_ip=".spec_bytes(),
                spec_ip_text(allowed@[j as int].addr) + seq![47u8]
                    + crate::textfmt::spec_dec_digits(allowed@[j as int].cidr as nat),
            ));
            assert(out@ + spec_allowed_lines(allowed@, j + 1) =~= before_allowed
                + spec_allowed_lines(allowed@, 0));
        }
        j = j + 1;
    }
    let ghost piece = spec_allowed_lines(p_spec.allowed_list@, 0);
    proof {
        assert(spec_allowed_lines(allowed@, m as int) =~= Seq::<u8>::empty());
        assert(out@ =~= before_allowed + spec_allowed_lines(allowed@, 0));
        assert(out@ =~= (block_base + acc) + piece);
        vstd::seq_lib::lemma_concat_associative(block_base, acc, piece);
    }
    let ghost acc = acc + piece;

    match peer.tunnel.last_handshake_time(now_ms, unix_now_ms) {
        Some(at_ms) => {
            push_literal(out, "last_handshake_time_sec=".as_bytes());
            let secs = u64_to_dec(at_ms / 1000);
            append_bytes(out, &secs);
            out.push(10);
            push_literal(out, "last_handshake_time_nsec=".as_bytes());
            let nsec = u64_to_dec((at_ms % 1000) * 1_000_000);
            append_bytes(out, &nsec);
            out.push(10);
        },
        None => {},
    }
    let ghost piece = (match p_spec.tunnel.time_since_last_handshake_spec(now_ms) {
        Some(age) => {
            let at = crate::timers::spec_sat_sub(unix_now_ms, age);
            spec_field(
                "last_handshake_time_sec=".spec_bytes(),
                crate::textfmt::spec_dec_digits((at / 1000) as nat),
            ) + spec_field(
                "last_handshake_time_nsec=".spec_bytes(),
                crate::textfmt::spec_dec_digits(((at % 1000) * 1_000_000) as nat),
            )
        },
        None => Seq::<u8>::empty(),
    });
    proof {
        assert(out@ =~= (block_base + acc) + piece);
        vstd::seq_lib::lemma_concat_associative(block_base, acc, piece);
    }
    let ghost acc = acc + piece;

    let stats = peer.tunnel.stats();
    push_literal(out, "rx_bytes=".as_bytes());
    let rx = u64_to_dec(stats.1);
    append_bytes(out, &rx);
    out.push(10);
    let ghost piece = spec_field(
        "rx_bytes=".spec_bytes(),
        crate::textfmt::spec_dec_digits(p_spec.tunnel.rx_bytes as nat),
    );
    proof {
        assert(out@ =~= (block_base + acc) + piece);
        vstd::seq_lib::lemma_concat_associative(block_base, acc, piece);
    }
    let ghost acc = acc + piece;
    push_literal(out, "tx_bytes=".as_bytes());
    let tx = u64_to_dec(stats.0);
    append_bytes(out, &tx);
    out.push(10);
    let ghost piece = spec_field(
        "tx_bytes=".spec_bytes(),
        crate::textfmt::spec_dec_digits(p_spec.tunnel.tx_bytes as nat),
    );
    proof {
        assert(out@ =~= (block_base + acc) + piece);
        vstd::seq_lib::lemma_concat_associative(block_base, acc, piece);
    }
    let ghost acc = acc + piece;

    proof {
        assert(acc == spec_peer_block(p_spec, now_ms, unix_now_ms));
    }
}

/// Append the state report of `get=1`: the device key and port, then one
/// block per peer.
#[verifier::rlimit(100)]
#[verifier::spinoff_prover]
fn api_get(d: &Device, out: &mut Vec<u8>, now_ms: u64, unix_now_ms: u64)
    requires
        d.wf(),
    ensures
        final(out)@ == old(out)@ + spec_get_response(*d, now_ms, unix_now_ms),
{
    let ghost base = out@;
    let ghost resp = spec_get_response(*d, now_ms, unix_now_ms);
    let ghost hdr = (match d.key_pair {
        Some(kp) => spec_field("private_key=".spec_bytes(), crate::textfmt::spec_hex_bytes(kp.0@)),
        None => Seq::<u8>::empty(),
    }) + (if d.listen_port != 0 {
        spec_field(
            "listen_port=".spec_bytes(),
            crate::textfmt::spec_dec_digits(d.listen_port as nat),
        )
    } else {
        Seq::<u8>::empty()
    }) + (match d.fwmark {
        Some(mark) => spec_field("fwmark=".spec_bytes(), crate::textfmt::spec_dec_digits(mark as nat)),
        None => Seq::<u8>::empty(),
    });
    match &d.key_pair {
        Some(kp) => {
            push_literal(out, "private_key=".as_bytes());
            let hexed = encode_hex_bytes(&kp.0);
            append_bytes(out, &hexed);
            out.push(10);
        },
        None => {},
    }
    if d.listen_port != 0 {
        push_literal(out, "listen_port=".as_bytes());
        let port = u64_to_dec(d.listen_port as u64);
        append_bytes(out, &port);
        out.push(10);
    }
    match &d.fwmark {
        Some(mark) => {
            push_literal(out, "fwmark=".as_bytes());
            let text = u64_to_dec(*mark as u64);
            append_bytes(out, &text);
            out.push(10);
        },
        None => {},
    }
    proof {
        assert(out@ =~= base + hdr);
        assert(resp =~= hdr + spec_peer_blocks(d.peers@, 0, now_ms, unix_now_ms));
    }
    let n = d.peers.len();
    let mut i: usize = 0;
    while i < n
        invariant
            d.wf(),
            n == d.peers@.len(),
            i <= n,
            out@ + spec_peer_blocks(d.peers@, i as int, now_ms, unix_now_ms) =~= base + resp,
        decreases n - i,
    {
        let ghost pre = out@;
        emit_peer_block(&d.peers[i], out, now_ms, unix_now_ms);
        proof {
            assert(spec_peer_blocks(d.peers@, i as int, now_ms, unix_now_ms) =~= spec_peer_block(
                d.peers@[i as int],
                now_ms,
                unix_now_ms,
            ) + spec_peer_blocks(d.peers@, i + 1, now_ms, unix_now_ms));
            assert(out@ + spec_peer_blocks(d.peers@, i + 1, now_ms, unix_now_ms) =~= base + resp);
        }
        i = i + 1;
    }
    proof {
        assert(spec_peer_blocks(d.peers@, n as int, now_ms, unix_now_ms) =~= Seq::<u8>::empty());
        assert(out@ =~= base + resp);
    }
}

/// What one peer block does, read from `lines` at `i` with the fields
/// accumulated so far: recognized lines accumulate; a blank line commits
/// the block through one peer update and reports whether it took; another
/// `public_key=` line commits and opens the next block; the stream's end
/// commits nothing; a line without `=` is a protocol error and a bad
/// value refuses the block.
pub open spec fn spec_peer_block_runs(
    lines: Seq<Seq<u8>>,
    i: int,
    pre: Device,
    post: Device,
    status: int,
    end: int,
    pub_key: [u8; 32],
    update_only: bool,
    remove: bool,
    replace_ips: bool,
    endpoint: Option<SocketAddress>,
    keepalive: Option<u16>,
    preshared_key: Option<[u8; 32]>,
    allowed_ips: Seq<AllowedIP>,
) -> bool
    decreases lines.len() - i,
{
    if i < 0 || i >= lines.len() {
        post == pre && status == 0 && end == i
    } else if lines[i].len() == 0 {
        &&& Device::spec_peer_updated(
            pre,
            post,
            pub_key,
            update_only,
            remove,
            replace_ips,
            endpoint,
            allowed_ips,
            keepalive,
            preshared_key,
            Device::spec_update_succeeds(pre, pub_key, update_only, remove),
        )
        &&& status == (if Device::spec_update_succeeds(pre, pub_key, update_only, remove) {
            0int
        } else {
            EINVAL as int
        })
        &&& end == i + 1
    } else if !spec_line_has_eq(lines[i]) {
        post == pre && status == EPROTO as int && end == i + 1
    } else {
        let key = spec_line_key(lines[i]);
        let val = spec_line_val(lines[i]);
        if key == "update_only".spec_bytes() {
            match crate::textfmt::spec_parse_bool(val) {
                Some(b) => spec_peer_block_runs(
                    lines,
                    i + 1,
                    pre,
                    post,
                    status,
                    end,
                    pub_key,
                    b,
                    remove,
                    replace_ips,
                    endpoint,
                    keepalive,
                    preshared_key,
                    allowed_ips,
                ),
                None => post == pre && status == EINVAL as int && end == i + 1,
            }
        } else if key == "remove".spec_bytes() {
            match crate::textfmt::spec_parse_bool(val) {
                Some(b) => spec_peer_block_runs(
                    lines,
                    i + 1,
                    pre,
                    post,
                    status,
                    end,
                    pub_key,
                    update_only,
                    b,
                    replace_ips,
                    endpoint,
                    keepalive,
                    preshared_key,
                    allowed_ips,
                ),
                None => post == pre && status == EINVAL as int && end == i + 1,
            }
        } else if key == "preshared_key".spec_bytes() {
            if val.len() == 64 && crate::textfmt::spec_all_hex_digits(val) {
                exists|k: [u8; 32]|
                    #![trigger k@]
                    k@ == crate::textfmt::spec_decoded_key(val) && spec_peer_block_runs(
                        lines,
                        i + 1,
                        pre,
                        post,
                        status,
                        end,
                        pub_key,
                        update_only,
                        remove,
                        replace_ips,
                        endpoint,
                        keepalive,
                        Some(k),
                        allowed_ips,
                    )
            } else {
                post == pre && status == EINVAL as int && end == i + 1
            }
        } else if key == "endpoint".spec_bytes() {
            match crate::ip::spec_parse_socket_addr(val) {
                Some(a) => spec_peer_block_runs(
                    lines,
                    i + 1,
                    pre,
                    post,
                    status,
                    end,
                    pub_key,
                    update_only,
                    remove,
                    replace_ips,
                    Some(a),
                    keepalive,
                    preshared_key,
                    allowed_ips,
                ),
                None => post == pre && status == EINVAL as int && end == i + 1,
            }
        } else if key == "persistent_keepalive_interval".spec_bytes() {
            if crate::textfmt::spec_is_digits(val) && crate::textfmt::spec_dec_value(val)
                <= u16::MAX {
                spec_peer_block_runs(
                    lines,
                    i + 1,
                    pre,
                    post,
                    status,
                    end,
                    pub_key,
                    update_only,
                    remove,
                    replace_ips,
                    endpoint,
                    Some(crate::textfmt::spec_dec_value(val) as u16),
                    preshared_key,
                    allowed_ips,
                )
            } else {
                post == pre && status == EINVAL as int && end == i + 1
            }
        } else if key == "replace_allowed_ips".spec_bytes() {
            match crate::textfmt::spec_parse_bool(val) {
                Some(b) => spec_peer_block_runs(
                    lines,
                    i + 1,
                    pre,
                    post,
                    status,
                    end,
                    pub_key,
                    update_only,
                    remove,
                    b,
                    endpoint,
                    keepalive,
                    preshared_key,
                    allowed_ips,
                ),
                None => post == pre && status == EINVAL as int && end == i + 1,
            }
        } else if key == "allowed_ip".spec_bytes() {
            match crate::ip::spec_parse_allowed_ip(val) {
                Some(entry) => spec_peer_block_runs(
                    lines,
                    i + 1,
                    pre,
                    post,
                    status,
                    end,
                    pub_key,
                    update_only,
                    remove,
                    replace_ips,
                    endpoint,
                    keepalive,
                    preshared_key,
                    allowed_ips.push(entry),
                ),
                None => post == pre && status == EINVAL as int && end == i + 1,
            }
        } else if key == "public_key".spec_bytes() {
            let ok = Device::spec_update_succeeds(pre, pub_key, update_only, remove);
            exists|mid: Device|
                #![trigger mid.peers]
                Device::spec_peer_updated(
                    pre,
                    mid,
                    pub_key,
                    update_only,
                    remove,
                    replace_ips,
                    endpoint,
                    allowed_ips,
                    keepalive,
                    preshared_key,
                    ok,
                ) && (if !ok {
                    post == mid && status == EINVAL as int && end == i + 1
                } else if val.len() == 64 && crate::textfmt::spec_all_hex_digits(val) {
                    exists|k2: [u8; 32]|
                        #![trigger k2@]
                        k2@ == crate::textfmt::spec_decoded_key(val) && spec_peer_block_runs(
                            lines,
                            i + 1,
                            mid,
                            post,
                            status,
                            end,
                            k2,
                            false,
                            false,
                            false,
                            None,
                            None,
                            None,
                            Seq::empty(),
                        )
                } else {
                    post == mid && status == EINVAL as int && end == i + 1
                })
        } else if key == "protocol_version".spec_bytes() {
            if val == "1".spec_bytes() {
                spec_peer_block_runs(
                    lines,
                    i + 1,
                    pre,
                    post,
                    status,
                    end,
                    pub_key,
                    update_only,
                    remove,
                    replace_ips,
                    endpoint,
                    keepalive,
                    preshared_key,
                    allowed_ips,
                )
            } else {
                post == pre && status == EINVAL as int && end == i + 1
            }
        } else {
            post == pre && status == EINVAL as int && end == i + 1
        }
    }
}

/// Apply one peer block of `set=1`, starting after its `public_key=`
/// line: field lines accumulate until a blank line commits them; another
/// `public_key=` commits and opens the next peer's block. The status is
/// zero on success or at the stream's end, or the errno of the first bad
/// line.
#[verifier::rlimit(100)]
#[verifier::spinoff_prover]
fn api_set_peer(d: &mut Device, lines: &Vec<Vec<u8>>, cursor: &mut usize, pub_key: [u8; 32]) -> (
    status: i32)
    requires
        old(d).wf(),
        *old(cursor) <= lines@.len(),
    ensures
        final(d).wf(),
        *final(cursor) >= *old(cursor),
        *final(cursor) <= lines@.len(),
        status == 0 || status == EINVAL || status == EPROTO,
        spec_peer_block_runs(
            crate::ip::view_of_parts(lines@),
            *old(cursor) as int,
            *old(d),
            *final(d),
            status as int,
            *final(cursor) as int,
            pub_key,
            false,
            false,
            false,
            None,
            None,
            None,
            Seq::empty(),
        ),
{
    let ghost lv = crate::ip::view_of_parts(lines@);
    let mut update_only = false;
    let mut remove = false;
    let mut replace_ips = false;
    let mut endpoint: Option<SocketAddress> = None;
    let mut keepalive: Option<u16> = None;
    let mut preshared_key: Option<[u8; 32]> = None;
    let mut allowed_ips: Vec<AllowedIP> = Vec::new();
    let mut public_key = pub_key;
    while *cursor < lines.len()
        invariant
            d.wf(),
            lv == crate::ip::view_of_parts(lines@),
            *cursor <= lines@.len(),
            *cursor >= *old(cursor),
            forall|k: int| 0 <= k < allowed_ips@.len() ==> (#[trigger] allowed_ips@[k]).wf(),
            forall|p: Device, st: int, e: int|
                #![trigger spec_peer_block_runs(lv, *cursor as int, *d, p, st, e, public_key, update_only, remove, replace_ips, endpoint, keepalive, preshared_key, allowed_ips@)]
                spec_peer_block_runs(
                    lv,
                    *cursor as int,
                    *d,
                    p,
                    st,
                    e,
                    public_key,
                    update_only,
                    remove,
                    replace_ips,
                    endpoint,
                    keepalive,
                    preshared_key,
                    allowed_ips@,
                ) ==> spec_peer_block_runs(
                    lv,
                    *old(cursor) as int,
                    *old(d),
                    p,
                    st,
                    e,
                    pub_key,
                    false,
                    false,
                    false,
                    None,
                    None,
                    None,
                    Seq::empty(),
                ),
        decreases lines@.len() - *cursor,
    {
        let ghost c0 = *cursor as int;
        let ghost d0 = *d;
        let ghost uo0 = update_only;
        let ghost rm0 = remove;
        let ghost rp0 = replace_ips;
        let ghost ep0 = endpoint;
        let ghost ka0 = keepalive;
        let ghost psk0 = preshared_key;
        let ghost al0 = allowed_ips@;
        let ghost pk0 = public_key;
        let line = &lines[*cursor];
        proof {
            assert(line@ == lv[c0]);
        }
        *cursor = *cursor + 1;
        if line.len() == 0 {
            // A blank line ends the block: commit this peer.
            let res = d.update_peer(
                public_key,
                update_only,
                remove,
                replace_ips,
                endpoint,
                &allowed_ips,
                keepalive,
                preshared_key,
            );
            let status = if res.is_ok() {
                0
            } else {
                EINVAL
            };
            proof {
                assert(spec_peer_block_runs(
                    lv,
                    c0,
                    d0,
                    *d,
                    status as int,
                    c0 + 1,
                    pk0,
                    uo0,
                    rm0,
                    rp0,
                    ep0,
                    ka0,
                    psk0,
                    al0,
                ));
            }
            return status;
        }
        let (key, val) = match split_once(line, 61) {
            Some(pair) => pair,
            None => {
                proof {
                    assert(spec_peer_block_runs(lv, c0, d0, *d, EPROTO as int, c0 + 1, pk0, uo0,
                        rm0, rp0, ep0, ka0, psk0, al0));
                }
                return EPROTO;
            },
        };
        proof {
            assert(key@ == spec_line_key(lv[c0]));
            assert(val@ == spec_line_val(lv[c0]));
        }
        if bytes_eq(key.as_slice(), "update_only".as_bytes()) {
            match parse_bool(val.as_slice()) {
                Some(v) => {
                    update_only = v;
                    proof {
                        assert forall|p: Device, st: int, e: int|
                            spec_peer_block_runs(lv, c0 + 1, *d, p, st, e, public_key, update_only,
                                remove, replace_ips, endpoint, keepalive, preshared_key,
                                allowed_ips@) implies spec_peer_block_runs(lv, c0, d0, p, st, e,
                            pk0, uo0, rm0, rp0, ep0, ka0, psk0, al0) by {
                        }
                    }
                },
                None => {
                    proof {
                        assert(spec_peer_block_runs(lv, c0, d0, *d, EINVAL as int, c0 + 1, pk0,
                            uo0, rm0, rp0, ep0, ka0, psk0, al0));
                    }
                    return EINVAL;
                },
            }
        } else if bytes_eq(key.as_slice(), "remove".as_bytes()) {
            match parse_bool(val.as_slice()) {
                Some(v) => {
                    remove = v;
                    proof {
                        assert forall|p: Device, st: int, e: int|
                            spec_peer_block_runs(lv, c0 + 1, *d, p, st, e, public_key, update_only,
                                remove, replace_ips, endpoint, keepalive, preshared_key,
                                allowed_ips@) implies spec_peer_block_runs(lv, c0, d0, p, st, e,
                            pk0, uo0, rm0, rp0, ep0, ka0, psk0, al0) by {
                        }
                    }
                },
                None => {
                    proof {
                        assert(spec_peer_block_runs(lv, c0, d0, *d, EINVAL as int, c0 + 1, pk0,
                            uo0, rm0, rp0, ep0, ka0, psk0, al0));
                    }
                    return EINVAL;
                },
            }
        } else if bytes_eq(key.as_slice(), "preshared_key".as_bytes()) {
            match decode_hex_key(val.as_slice()) {
                Some(k) => {
                    preshared_key = Some(k);
                    proof {
                        assert forall|p: Device, st: int, e: int|
                            spec_peer_block_runs(lv, c0 + 1, *d, p, st, e, public_key, update_only,
                                remove, replace_ips, endpoint, keepalive, preshared_key,
                                allowed_ips@) implies spec_peer_block_runs(lv, c0, d0, p, st, e,
                            pk0, uo0, rm0, rp0, ep0, ka0, psk0, al0) by {
                        }
                    }
                },
                None => {
                    proof {
                        assert(spec_peer_block_runs(lv, c0, d0, *d, EINVAL as int, c0 + 1, pk0,
                            uo0, rm0, rp0, ep0, ka0, psk0, al0));
                    }
                    return EINVAL;
                },
            }
        } else if bytes_eq(key.as_slice(), "endpoint".as_bytes()) {
            match parse_socket_addr(val.as_slice()) {
                Some(a) => {
                    endpoint = Some(a);
                    proof {
                        assert forall|p: Device, st: int, e: int|
                            spec_peer_block_runs(lv, c0 + 1, *d, p, st, e, public_key, update_only,
                                remove, replace_ips, endpoint, keepalive, preshared_key,
                                allowed_ips@) implies spec_peer_block_runs(lv, c0, d0, p, st, e,
                            pk0, uo0, rm0, rp0, ep0, ka0, psk0, al0) by {
                        }
                    }
                },
                None => {
                    proof {
                        assert(spec_peer_block_runs(lv, c0, d0, *d, EINVAL as int, c0 + 1, pk0,
                            uo0, rm0, rp0, ep0, ka0, psk0, al0));
                    }
                    return EINVAL;
                },
            }
        } else if bytes_eq(key.as_slice(), "persistent_keepalive_interval".as_bytes()) {
            match parse_u16(val.as_slice()) {
                Some(v) => {
                    keepalive = Some(v);
                    proof {
                        assert forall|p: Device, st: int, e: int|
                            spec_peer_block_runs(lv, c0 + 1, *d, p, st, e, public_key, update_only,
                                remove, replace_ips, endpoint, keepalive, preshared_key,
                                allowed_ips@) implies spec_peer_block_runs(lv, c0, d0, p, st, e,
                            pk0, uo0, rm0, rp0, ep0, ka0, psk0, al0) by {
                        }
                    }
                },
                None => {
                    proof {
                        assert(spec_peer_block_runs(lv, c0, d0, *d, EINVAL as int, c0 + 1, pk0,
                            uo0, rm0, rp0, ep0, ka0, psk0, al0));
                    }
                    return EINVAL;
                },
            }
        } else if bytes_eq(key.as_slice(), "replace_allowed_ips".as_bytes()) {
            match parse_bool(val.as_slice()) {
                Some(v) => {
                    replace_ips = v;
                    proof {
                        assert forall|p: Device, st: int, e: int|
                            spec_peer_block_runs(lv, c0 + 1, *d, p, st, e, public_key, update_only,
                                remove, replace_ips, endpoint, keepalive, preshared_key,
                                allowed_ips@) implies spec_peer_block_runs(lv, c0, d0, p, st, e,
                            pk0, uo0, rm0, rp0, ep0, ka0, psk0, al0) by {
                        }
                    }
                },
                None => {
                    proof {
                        assert(spec_peer_block_runs(lv, c0, d0, *d, EINVAL as int, c0 + 1, pk0,
                            uo0, rm0, rp0, ep0, ka0, psk0, al0));
                    }
                    return EINVAL;
                },
            }
        } else if bytes_eq(key.as_slice(), "allowed_ip".as_bytes()) {
            match parse_allowed_ip(val.as_slice()) {
                Some(entry) => {
                    allowed_ips.push(entry);
                    proof {
                        assert forall|p: Device, st: int, e: int|
                            spec_peer_block_runs(lv, c0 + 1, *d, p, st, e, public_key, update_only,
                                remove, replace_ips, endpoint, keepalive, preshared_key,
                                allowed_ips@) implies spec_peer_block_runs(lv, c0, d0, p, st, e,
                            pk0, uo0, rm0, rp0, ep0, ka0, psk0, al0) by {
                        }
                    }
                },
                None => {
                    proof {
                        assert(spec_peer_block_runs(lv, c0, d0, *d, EINVAL as int, c0 + 1, pk0,
                            uo0, rm0, rp0, ep0, ka0, psk0, al0));
                    }
                    return EINVAL;
                },
            }
        } else if bytes_eq(key.as_slice(), "public_key".as_bytes()) {
            // A new peer block starts: commit the current one first.
            let res = d.update_peer(
                public_key,
                update_only,
                remove,
                replace_ips,
                endpoint,
                &allowed_ips,
                keepalive,
                preshared_key,
            );
            if res.is_err() {
                proof {
                    assert(spec_peer_block_runs(lv, c0, d0, *d, EINVAL as int, c0 + 1, pk0, uo0,
                        rm0, rp0, ep0, ka0, psk0, al0));
                }
                return EINVAL;
            }
            update_only = false;
            remove = false;
            replace_ips = false;
            endpoint = None;
            keepalive = None;
            preshared_key = None;
            allowed_ips = Vec::new();
            let ghost mid = *d;
            match decode_hex_key(val.as_slice()) {
                Some(k) => {
                    public_key = k;
                },
                None => {
                    proof {
                        assert(spec_peer_block_runs(lv, c0, d0, *d, EINVAL as int, c0 + 1, pk0,
                            uo0, rm0, rp0, ep0, ka0, psk0, al0));
                    }
                    return EINVAL;
                },
            }
            proof {
                assert forall|p: Device, st: int, e: int|
                    spec_peer_block_runs(lv, c0 + 1, mid, p, st, e, public_key, false, false,
                        false, None, None, None, Seq::empty()) implies spec_peer_block_runs(lv, c0,
                    d0, p, st, e, pk0, uo0, rm0, rp0, ep0, ka0, psk0, al0) by {
                }
            }
        } else if bytes_eq(key.as_slice(), "protocol_version".as_bytes()) {
            // Only version 1 is legal.
            if !bytes_eq(val.as_slice(), "1".as_bytes()) {
                proof {
                    assert(spec_peer_block_runs(lv, c0, d0, *d, EINVAL as int, c0 + 1, pk0, uo0,
                        rm0, rp0, ep0, ka0, psk0, al0));
                }
                return EINVAL;
            }
            proof {
                assert forall|p: Device, st: int, e: int|
                    spec_peer_block_runs(lv, c0 + 1, *d, p, st, e, public_key, update_only, remove,
                        replace_ips, endpoint, keepalive, preshared_key, allowed_ips@) implies
                    spec_peer_block_runs(lv, c0, d0, p, st, e, pk0, uo0, rm0, rp0, ep0, ka0, psk0,
                    al0) by {
                }
            }
        } else {
            proof {
                assert(spec_peer_block_runs(lv, c0, d0, *d, EINVAL as int, c0 + 1, pk0, uo0, rm0,
                    rp0, ep0, ka0, psk0, al0));
            }
            return EINVAL;
        }
        proof {
            assert forall|p: Device, st: int, e: int|
                spec_peer_block_runs(lv, *cursor as int, *d, p, st, e, public_key, update_only,
                    remove, replace_ips, endpoint, keepalive, preshared_key, allowed_ips@) implies
                spec_peer_block_runs(lv, *old(cursor) as int, *old(d), p, st, e, pub_key, false,
                false, false, None, None, None, Seq::empty()) by {
                assert(spec_peer_block_runs(lv, c0 + 1, *d, p, st, e, public_key, update_only,
                    remove, replace_ips, endpoint, keepalive, preshared_key, allowed_ips@));
                assert(spec_peer_block_runs(lv, c0, d0, p, st, e, pk0, uo0, rm0, rp0, ep0, ka0,
                    psk0, al0));
            }
        }
    }
    proof {
        assert(spec_peer_block_runs(lv, *cursor as int, *d, *d, 0, *cursor as int, public_key,
            update_only, remove, replace_ips, endpoint, keepalive, preshared_key, allowed_ips@));
    }
    0
}

/// What the `set=1` lines do, read from `lines` at `i`: a blank line or
/// the stream's end stops with success; a line without exactly one `=` is
/// a protocol error; device-level keys take effect in order; the first
/// `public_key=` line opens the peer blocks; a bad value or an unknown
/// key refuses the command.
pub open spec fn spec_set_runs(
    lines: Seq<Seq<u8>>,
    i: int,
    pre: Device,
    post: Device,
    status: int,
    end: int,
) -> bool
    decreases lines.len() - i,
{
    if i < 0 || i >= lines.len() {
        post == pre && status == 0 && end == i
    } else if lines[i].len() == 0 {
        post == pre && status == 0 && end == i + 1
    } else {
        let parts = crate::ip::spec_split_bytes(lines[i], 61);
        if parts.len() != 2 {
            post == pre && status == EPROTO as int && end == i + 1
        } else {
            let key = parts[0];
            let val = parts[1];
            if key == "private_key".spec_bytes() {
                if val.len() == 64 && crate::textfmt::spec_all_hex_digits(val) {
                    exists|sk: [u8; 32], pk: [u8; 32], mid: Device|
                        #![trigger Device::spec_key_set(pre, mid, sk, pk)]
                        sk@ == crate::textfmt::spec_decoded_key(val) && pk@
                            == crate::keys::spec_public_from_private(sk@) && Device::spec_key_set(
                            pre,
                            mid,
                            sk,
                            pk,
                        ) && spec_set_runs(lines, i + 1, mid, post, status, end)
                } else {
                    post == pre && status == EINVAL as int && end == i + 1
                }
            } else if key == "listen_port".spec_bytes() {
                if crate::textfmt::spec_is_digits(val) && crate::textfmt::spec_dec_value(val)
                    <= u16::MAX {
                    exists|mid: Device|
                        #![trigger mid.listen_port]
                        Device::spec_port_opened(
                            pre,
                            mid,
                            crate::textfmt::spec_dec_value(val) as u16,
                        ) && spec_set_runs(lines, i + 1, mid, post, status, end)
                } else {
                    post == pre && status == EINVAL as int && end == i + 1
                }
            } else if key == "fwmark".spec_bytes() {
                if crate::textfmt::spec_is_digits(val) && crate::textfmt::spec_dec_value(val)
                    <= u32::MAX {
                    spec_set_runs(
                        lines,
                        i + 1,
                        Device { fwmark: Some(crate::textfmt::spec_dec_value(val) as u32), ..pre },
                        post,
                        status,
                        end,
                    )
                } else {
                    post == pre && status == EINVAL as int && end == i + 1
                }
            } else if key == "replace_peers".spec_bytes() {
                match crate::textfmt::spec_parse_bool(val) {
                    Some(true) => exists|mid: Device|
                        #![trigger mid.peers]
                        Device::spec_peers_cleared(pre, mid) && spec_set_runs(
                            lines,
                            i + 1,
                            mid,
                            post,
                            status,
                            end,
                        ),
                    Some(false) => spec_set_runs(lines, i + 1, pre, post, status, end),
                    None => post == pre && status == EINVAL as int && end == i + 1,
                }
            } else if key == "public_key".spec_bytes() {
                if val.len() == 64 && crate::textfmt::spec_all_hex_digits(val) {
                    exists|k: [u8; 32]|
                        #![trigger k@]
                        k@ == crate::textfmt::spec_decoded_key(val) && spec_peer_block_runs(
                            lines,
                            i + 1,
                            pre,
                            post,
                            status,
                            end,
                            k,
                            false,
                            false,
                            false,
                            None,
                            None,
                            None,
                            Seq::empty(),
                        )
                } else {
                    post == pre && status == EINVAL as int && end == i + 1
                }
            } else {
                post == pre && status == EINVAL as int && end == i + 1
            }
        }
    }
}

/// Apply the `set=1` lines from the cursor on: device-level keys first,
/// and from the first `public_key=` line on, peer blocks.
#[verifier::rlimit(100)]
#[verifier::spinoff_prover]
fn api_set(d: &mut Device, lines: &Vec<Vec<u8>>, cursor: &mut usize) -> (status: i32)
    requires
        old(d).wf(),
        *old(cursor) <= lines@.len(),
    ensures
        final(d).wf(),
        *final(cursor) >= *old(cursor),
        *final(cursor) <= lines@.len(),
        status == 0 || status == EINVAL || status == EPROTO,
        spec_set_runs(
            crate::ip::view_of_parts(lines@),
            *old(cursor) as int,
            *old(d),
            *final(d),
            status as int,
            *final(cursor) as int,
        ),
{
    let ghost lv = crate::ip::view_of_parts(lines@);
    while *cursor < lines.len()
        invariant
            d.wf(),
            lv == crate::ip::view_of_parts(lines@),
            *cursor <= lines@.len(),
            *cursor >= *old(cursor),
            forall|p: Device, st: int, e: int|
                #![trigger spec_set_runs(lv, *cursor as int, *d, p, st, e)]
                spec_set_runs(lv, *cursor as int, *d, p, st, e) ==> spec_set_runs(
                    lv,
                    *old(cursor) as int,
                    *old(d),
                    p,
                    st,
                    e,
                ),
        decreases lines@.len() - *cursor,
    {
        let ghost c0 = *cursor as int;
        let ghost d0 = *d;
        let line = &lines[*cursor];
        proof {
            assert(line@ == lv[c0]);
        }
        *cursor = *cursor + 1;
        if line.len() == 0 {
            // An empty line ends the set command.
            proof {
                assert(spec_set_runs(lv, c0, d0, *d, 0, c0 + 1));
            }
            return 0;
        }
        let parts = split_bytes(line.as_slice(), 61);
        if parts.len() != 2 {
            proof {
                assert(spec_set_runs(lv, c0, d0, *d, EPROTO as int, c0 + 1));
            }
            return EPROTO;
        }
        let key = &parts[0];
        let val = &parts[1];
        proof {
            assert(key@ == crate::ip::spec_split_bytes(lv[c0], 61)[0]);
            assert(val@ == crate::ip::spec_split_bytes(lv[c0], 61)[1]);
        }
        if bytes_eq(key.as_slice(), "private_key".as_bytes()) {
            match decode_hex_key(val.as_slice()) {
                Some(sk) => {
                    let pk = public_from_private(&sk);
                    d.set_key(sk, pk);
                    proof {
                        assert forall|p: Device, st: int, e: int|
                            spec_set_runs(lv, c0 + 1, *d, p, st, e) implies spec_set_runs(
                            lv,
                            c0,
                            d0,
                            p,
                            st,
                            e,
                        ) by {
                            assert(Device::spec_key_set(d0, *d, sk, pk));
                        }
                    }
                },
                None => {
                    proof {
                        assert(spec_set_runs(lv, c0, d0, *d, EINVAL as int, c0 + 1));
                    }
                    return EINVAL;
                },
            }
        } else if bytes_eq(key.as_slice(), "listen_port".as_bytes()) {
            match parse_u16(val.as_slice()) {
                Some(port) => {
                    d.open_listen_socket(port);
                    proof {
                        assert forall|p: Device, st: int, e: int|
                            spec_set_runs(lv, c0 + 1, *d, p, st, e) implies spec_set_runs(
                            lv,
                            c0,
                            d0,
                            p,
                            st,
                            e,
                        ) by {
                            assert(Device::spec_port_opened(d0, *d, port));
                        }
                    }
                },
                None => {
                    proof {
                        assert(spec_set_runs(lv, c0, d0, *d, EINVAL as int, c0 + 1));
                    }
                    return EINVAL;
                },
            }
        } else if bytes_eq(key.as_slice(), "fwmark".as_bytes()) {
            match parse_u32(val.as_slice()) {
                Some(mark) => {
                    d.set_fwmark(mark);
                    proof {
                        assert forall|p: Device, st: int, e: int|
                            spec_set_runs(lv, c0 + 1, *d, p, st, e) implies spec_set_runs(
                            lv,
                            c0,
                            d0,
                            p,
                            st,
                            e,
                        ) by {
                            assert(*d == (Device { fwmark: Some(mark), ..d0 }));
                        }
                    }
                },
                None => {
                    proof {
                        assert(spec_set_runs(lv, c0, d0, *d, EINVAL as int, c0 + 1));
                    }
                    return EINVAL;
                },
            }
        } else if bytes_eq(key.as_slice(), "replace_peers".as_bytes()) {
            match parse_bool(val.as_slice()) {
                Some(true) => {
                    d.clear_peers();
                    proof {
                        assert forall|p: Device, st: int, e: int|
                            spec_set_runs(lv, c0 + 1, *d, p, st, e) implies spec_set_runs(
                            lv,
                            c0,
                            d0,
                            p,
                            st,
                            e,
                        ) by {
                            assert(Device::spec_peers_cleared(d0, *d));
                        }
                    }
                },
                Some(false) => {
                    proof {
                        assert forall|p: Device, st: int, e: int|
                            spec_set_runs(lv, c0 + 1, *d, p, st, e) implies spec_set_runs(
                            lv,
                            c0,
                            d0,
                            p,
                            st,
                            e,
                        ) by {
                        }
                    }
                },
                None => {
                    proof {
                        assert(spec_set_runs(lv, c0, d0, *d, EINVAL as int, c0 + 1));
                    }
                    return EINVAL;
                },
            }
        } else if bytes_eq(key.as_slice(), "public_key".as_bytes()) {
            // A peer section begins.
            match decode_hex_key(val.as_slice()) {
                Some(k) => {
                    let status = api_set_peer(d, lines, cursor, k);
                    proof {
                        assert(spec_set_runs(lv, c0, d0, *d, status as int, *cursor as int));
                    }
                    return status;
                },
                None => {
                    proof {
                        assert(spec_set_runs(lv, c0, d0, *d, EINVAL as int, c0 + 1));
                    }
                    return EINVAL;
                },
            }
        } else {
            proof {
                assert(spec_set_runs(lv, c0, d0, *d, EINVAL as int, c0 + 1));
            }
            return EINVAL;
        }
        proof {
            assert forall|p: Device, st: int, e: int|
                spec_set_runs(lv, *cursor as int, *d, p, st, e) implies spec_set_runs(
                lv,
                *old(cursor) as int,
                *old(d),
                p,
                st,
                e,
            ) by {
                assert(spec_set_runs(lv, c0 + 1, *d, p, st, e));
                assert(spec_set_runs(lv, c0, d0, p, st, e));
            }
        }
    }
    proof {
        assert(spec_set_runs(lv, *cursor as int, *d, *d, 0, *cursor as int));
    }
    0
}

/// Run the commands of one connection: each `get=1` or `set=1` line is
/// executed and answered with its `errno=N` block; an unknown command
/// reports an I/O error and a closed device reports that it is gone.
/// The `errno=N` block that answers every command.
pub open spec fn spec_errno_block(status: int) -> Seq<u8> {
    "errno=".spec_bytes() + crate::textfmt::spec_dec_digits(status as nat) + "\n\n".spec_bytes()
}

/// A lone report command: `get=1` followed only by its optional blank
/// line and the trailing artifact of the final newline.
pub open spec fn spec_lone_get(lv: Seq<Seq<u8>>) -> bool {
    &&& lv.len() >= 1
    &&& lv[0] == "get=1".spec_bytes()
    &&& (lv.len() == 1 || (lv.len() == 2 && lv[1].len() == 0) || (lv.len() == 3 && lv[1].len()
        == 0 && lv[2].len() == 0))
}

/// Did the `set=1` lines consume the whole stream (up to the trailing
/// artifact of the final newline)?
pub open spec fn spec_set_consumed(lv: Seq<Seq<u8>>, e: int) -> bool {
    e >= lv.len() || (e + 1 == lv.len() && lv[e].len() == 0)
}

/// Run one command line: dispatch it, and append its answer and the
/// `errno=N` block. A closed device reports that it is gone; an unknown
/// command reports an I/O error; `get=1` appends the state report and
/// consumes its optional blank line; `set=1` applies the following lines.
#[verifier::rlimit(100)]
#[verifier::spinoff_prover]
fn api_exec_step(
    d: &mut Device,
    lines: &Vec<Vec<u8>>,
    cursor: &mut usize,
    out: &mut Vec<u8>,
    now_ms: u64,
    unix_now_ms: u64,
) -> (status: i32)
    requires
        old(d).wf(),
        *old(cursor) < lines@.len(),
    ensures
        final(d).wf(),
        *final(cursor) > *old(cursor),
        *final(cursor) <= lines@.len(),
        status >= 0,
        old(d).closed ==> (*final(d) == *old(d) && status == ENOENT && final(out)@ == old(out)@
            + spec_errno_block(ENOENT as int)),
        ({
            let lv = crate::ip::view_of_parts(lines@);
            let c0 = *old(cursor) as int;
            &&& ((!old(d).closed && lv[c0] == "get=1".spec_bytes()) ==> (*final(d) == *old(d) && (
            if c0 + 1 < lv.len() && lv[c0 + 1].len() != 0 {
                &&& status == EINVAL
                &&& *final(cursor) == c0 + 1
                &&& final(out)@ == old(out)@ + spec_get_response(*old(d), now_ms, unix_now_ms)
                    + spec_errno_block(EINVAL as int)
            } else {
                &&& status == 0
                &&& final(out)@ == old(out)@ + spec_get_response(*old(d), now_ms, unix_now_ms)
                    + spec_errno_block(0)
                &&& (c0 + 1 < lv.len() ==> *final(cursor) == c0 + 2)
                &&& (c0 + 1 >= lv.len() ==> *final(cursor) == c0 + 1)
            })))
            &&& ((!old(d).closed && lv[c0] != "get=1".spec_bytes() && lv[c0]
                == "set=1".spec_bytes()) ==> (spec_set_runs(
                lv,
                c0 + 1,
                *old(d),
                *final(d),
                status as int,
                *final(cursor) as int,
            ) && final(out)@ == old(out)@ + spec_errno_block(status as int)))
            &&& ((!old(d).closed && lv[c0] != "get=1".spec_bytes() && lv[c0]
                != "set=1".spec_bytes()) ==> (*final(d) == *old(d) && status == EIO && final(out)@
                == old(out)@ + spec_errno_block(EIO as int)))
        }),
{
    let ghost lv = crate::ip::view_of_parts(lines@);
    let ghost c0 = *cursor as int;
    let n = lines.len();
    let line = &lines[*cursor];
    proof {
        assert(line@ == lv[c0]);
    }
    *cursor = *cursor + 1;
    let status: i32;
    if d.closed {
        status = ENOENT;
    } else if bytes_eq(line.as_slice(), "get=1".as_bytes()) {
        api_get(d, out, now_ms, unix_now_ms);
        // The get command wants an empty line, consumed when present; a
        // stream end serves as well, anything else is refused.
        if *cursor < n {
            if lines[*cursor].len() == 0 {
                *cursor = *cursor + 1;
                status = 0;
            } else {
                status = EINVAL;
            }
        } else {
            status = 0;
        }
    } else if bytes_eq(line.as_slice(), "set=1".as_bytes()) {
        status = api_set(d, lines, cursor);
    } else {
        status = EIO;
    }
    // The protocol requires an error code as the response to every
    // command, zero on success.
    let ghost out_pre = out@;
    push_literal(out, "errno=".as_bytes());
    let code = u64_to_dec(status as u64);
    append_bytes(out, &code);
    push_literal(out, "\n\n".as_bytes());
    proof {
        assert(out@ =~= out_pre + spec_errno_block(status as int));
    }
    status
}

/// Run the commands of one connection: each command line is executed by
/// one step, which answers it and advances past its lines.
#[verifier::rlimit(100)]
#[verifier::spinoff_prover]
pub fn api_exec(d: &mut Device, input: &[u8], now_ms: u64, unix_now_ms: u64) -> (r: Vec<u8>)
    requires
        old(d).wf(),
    ensures
        final(d).wf(),
        // A closed device answers but never changes.
        old(d).closed ==> *final(d) == *old(d),
        input@.len() == 0 ==> r@ == Seq::<u8>::empty() && *final(d) == *old(d),
        // A lone report command answers with exactly the report and its
        // zero status, changing nothing.
        (!old(d).closed && input@.len() > 0 && spec_lone_get(crate::ip::spec_split_bytes(input@, 10)))
            ==> (*final(d) == *old(d) && r@ == spec_get_response(*old(d), now_ms, unix_now_ms)
            + spec_errno_block(0)),
        // A stream opening with a configuration command applies its lines:
        // the answer is exactly the status block when the command fails or
        // consumes the whole stream.
        (!old(d).closed && input@.len() > 0 && crate::ip::spec_split_bytes(input@, 10)[0]
            == "set=1".spec_bytes()) ==> (exists|mid: Device, st: int, e: int|
            #![trigger spec_set_runs(crate::ip::spec_split_bytes(input@, 10), 1, *old(d), mid, st, e)]
            spec_set_runs(crate::ip::spec_split_bytes(input@, 10), 1, *old(d), mid, st, e) && (st
                != 0 ==> *final(d) == mid && r@ == spec_errno_block(st)) && ((st == 0
                && spec_set_consumed(crate::ip::spec_split_bytes(input@, 10), e)) ==> (*final(d)
                == mid && r@ == spec_errno_block(0)))),
{
    if input.len() == 0 {
        return Vec::new();
    }
    let lines = split_bytes(input, 10);
    let ghost lv = crate::ip::view_of_parts(lines@);
    proof {
        assert(lv == crate::ip::spec_split_bytes(input@, 10));
        reveal_strlit("get=1");
        reveal_strlit("set=1");
        assert(vstd::utf8::is_ascii_chars("get=1"@));
        assert(vstd::utf8::is_ascii_chars("set=1"@));
        vstd::utf8::is_ascii_chars_encode_utf8("get=1"@);
        vstd::utf8::is_ascii_chars_encode_utf8("set=1"@);
        assert("get=1".spec_bytes().len() == 5);
        assert("set=1".spec_bytes().len() == 5);
    }
    let ghost lone_get = !old(d).closed && spec_lone_get(lv);
    let ghost set_first = !old(d).closed && lv[0] == "set=1".spec_bytes();
    let ghost resp = spec_get_response(*old(d), now_ms, unix_now_ms);
    let n = lines.len();
    let mut out: Vec<u8> = Vec::new();
    let mut cursor: usize = 0;
    let mut status: i32 = 0;

    // The first command, handled ahead of the drain loop.
    if !(cursor + 1 == n && lines[cursor].len() == 0) {
        status = api_exec_step(d, &lines, &mut cursor, &mut out, now_ms, unix_now_ms);
        proof {
            if set_first {
                assert(spec_set_runs(lv, 1, *old(d), *d, status as int, cursor as int));
            }
        }
    }

    while status == 0 && cursor < n
        invariant
            d.wf(),
            n == lines@.len(),
            n >= 1,
            lv == crate::ip::view_of_parts(lines@),
            cursor <= n,
            status >= 0,
            old(d).closed ==> *d == *old(d),
            lone_get ==> (status == 0 && out@ == resp + spec_errno_block(0) && *d == *old(d) && (
            cursor >= n || (cursor + 1 == n && lv[cursor as int].len() == 0))),
            set_first ==> (exists|mid: Device, st: int, e: int|
                #![trigger spec_set_runs(lv, 1, *old(d), mid, st, e)]
                spec_set_runs(lv, 1, *old(d), mid, st, e) && (st != 0 ==> (status as int == st && *d
                    == mid && out@ == spec_errno_block(st))) && ((st == 0 && spec_set_consumed(
                    lv,
                    e,
                )) ==> (cursor as int == e && *d == mid && out@ == spec_errno_block(0)))),
        decreases n - cursor,
    {
        if cursor + 1 == n && lines[cursor].len() == 0 {
            // The artifact of a trailing newline: the stream ended.
            break ;
        }
        status = api_exec_step(d, &lines, &mut cursor, &mut out, now_ms, unix_now_ms);
    }
    out
}

} // verus!