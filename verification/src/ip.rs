//! Plain-value model of IP addresses and socket addresses. The device
//! routes on these; conversion from the operating system's address types
//! happens outside the library.

use vstd::prelude::*;
use crate::textfmt::{spec_dec_digits, spec_is_digits, spec_dec_value, u64_to_dec, parse_u64, parse_u16, spec_hex_bytes, spec_hex_val, encode_hex_bytes};

verus! {

/// An IP address, held as its numeric value: 32 bits for the v4 family,
/// 128 for v6.
#[derive(Clone, Copy, Debug, PartialEq, Eq, Hash, PartialOrd, Ord, Structural)]
pub enum IpAddress {
    V4(u32),
    V6(u128),
}

impl IpAddress {
    /// Bit length of the address family.
    pub open spec fn spec_family_bits(self) -> nat {
        match self {
            IpAddress::V4(_) => 32,
            IpAddress::V6(_) => 128,
        }
    }

    /// The address value widened to 128 bits, left-aligned, so one trie
    /// walk serves both families.
    pub open spec fn spec_key_bits(self) -> u128 {
        match self {
            IpAddress::V4(a) => (a as u128) << 96,
            IpAddress::V6(a) => a,
        }
    }

    pub open spec fn is_v4(self) -> bool {
        self is V4
    }

    pub fn family_bits(&self) -> (r: u8)
        ensures
            r == self.spec_family_bits(),
    {
        match self {
            IpAddress::V4(_) => 32,
            IpAddress::V6(_) => 128,
        }
    }

    pub fn key_bits(&self) -> (r: u128)
        ensures
            r == self.spec_key_bits(),
    {
        match self {
            IpAddress::V4(a) => (*a as u128) << 96,
            IpAddress::V6(a) => *a,
        }
    }
}

/// A socket address: an IP address and a port.
#[derive(Clone, Copy, Debug, PartialEq, Eq, Hash, Structural)]
pub struct SocketAddress {
    pub ip: IpAddress,
    pub port: u16,
}

impl SocketAddress {
    pub open spec fn is_v4(self) -> bool {
        self.ip.is_v4()
    }
}

/// One allowed-IP entry: a prefix of `cidr` bits of `addr`.
#[derive(Clone, Copy, Debug, PartialEq, Eq, Hash, PartialOrd, Ord, Structural)]
pub struct AllowedIP {
    pub addr: IpAddress,
    pub cidr: u8,
}

impl AllowedIP {
    /// A well-formed entry has a prefix length within its family.
    pub open spec fn wf(self) -> bool {
        self.cidr <= self.addr.spec_family_bits()
    }
}

/// The byte strings `parts` joined by the separator.
pub open spec fn spec_join(parts: Seq<Seq<u8>>, sep: u8) -> Seq<u8>
    decreases parts.len(),
{
    if parts.len() == 0 {
        Seq::empty()
    } else if parts.len() == 1 {
        parts[0]
    } else {
        spec_join(parts.drop_last(), sep).push(sep) + parts.last()
    }
}

/// The views of a sequence of byte vectors.
pub open spec fn view_of_parts(parts: Seq<Vec<u8>>) -> Seq<Seq<u8>> {
    parts.map_values(|p: Vec<u8>| p@)
}

/// The parts a split yields: the separator closes a part, any other byte
/// extends the last one; the empty string splits into one empty part.
pub open spec fn spec_split_bytes(s: Seq<u8>, sep: u8) -> Seq<Seq<u8>>
    decreases s.len(),
{
    if s.len() == 0 {
        seq![Seq::empty()]
    } else {
        let rest = spec_split_bytes(s.drop_last(), sep);
        if s.last() == sep {
            rest.push(Seq::empty())
        } else {
            rest.update(rest.len() - 1, rest.last().push(s.last()))
        }
    }
}

/// Split a byte string at a separator: exactly the parts of
/// `spec_split_bytes`; the parts hold no separator and joining them with
/// it restores the input.
pub fn split_bytes(b: &[u8], sep: u8) -> (r: Vec<Vec<u8>>)
    ensures
        r@.len() >= 1,
        view_of_parts(r@) == spec_split_bytes(b@, sep),
        spec_join(view_of_parts(r@), sep) == b@,
        forall|i: int, j: int|
            0 <= i < r@.len() && 0 <= j < r@[i]@.len() ==> r@[i]@[j] != sep,
{
    let mut parts: Vec<Vec<u8>> = Vec::new();
    let mut cur: Vec<u8> = Vec::new();
    let n = b.len();
    let mut i: usize = 0;
    while i < n
        invariant
            i <= n,
            n == b@.len(),
            spec_join(view_of_parts(parts@).push(cur@), sep) == b@.take(i as int),
            view_of_parts(parts@).push(cur@) == spec_split_bytes(b@.take(i as int), sep),
            forall|x: int, y: int|
                0 <= x < parts@.len() && 0 <= y < parts@[x]@.len() ==> parts@[x]@[y] != sep,
            forall|y: int| 0 <= y < cur@.len() ==> cur@[y] != sep,
        decreases n - i,
    {
        let ghost pre_parts = view_of_parts(parts@);
        let ghost pre_cur = cur@;
        proof {
            assert(b@.take(i + 1).drop_last() =~= b@.take(i as int));
            assert(b@.take(i + 1).last() == b@[i as int]);
        }
        let c = b[i];
        if c == sep {
            parts.push(cur);
            cur = Vec::new();
            proof {
                let now_parts = view_of_parts(parts@);
                assert(now_parts =~= pre_parts.push(pre_cur));
                assert(now_parts.push(cur@).drop_last() =~= now_parts);
                lemma_join_push_empty(pre_parts, pre_cur, sep);
                assert(spec_join(now_parts.push(cur@), sep) =~= b@.take(i + 1));
                assert(now_parts.push(cur@) =~= spec_split_bytes(b@.take(i as int), sep).push(
                    Seq::empty(),
                ));
                assert(now_parts.push(cur@) =~= spec_split_bytes(b@.take(i + 1), sep));
            }
        } else {
            cur.push(c);
            proof {
                let now = view_of_parts(parts@);
                assert(now =~= pre_parts);
                lemma_join_push_byte(pre_parts, pre_cur, c, sep);
                assert(now.push(cur@) =~= pre_parts.push(pre_cur.push(c)));
                assert(spec_join(now.push(cur@), sep) =~= b@.take(i + 1));
                let prev = spec_split_bytes(b@.take(i as int), sep);
                assert(prev == pre_parts.push(pre_cur));
                assert(prev.last() == pre_cur);
                assert(prev.update(prev.len() - 1, prev.last().push(c)) =~= pre_parts.push(
                    pre_cur.push(c),
                ));
                assert(now.push(cur@) =~= spec_split_bytes(b@.take(i + 1), sep));
            }
        }
        i = i + 1;
    }
    let ghost pre_final = view_of_parts(parts@);
    let ghost fin_cur = cur@;
    parts.push(cur);
    proof {
        assert(b@.take(n as int) =~= b@);
        assert(view_of_parts(parts@) =~= pre_final.push(fin_cur));
    }
    parts
}

/// Appending one byte to the last part appends it to the join.
proof fn lemma_join_push_byte(parts: Seq<Seq<u8>>, cur: Seq<u8>, c: u8, sep: u8)
    ensures
        spec_join(parts.push(cur.push(c)), sep) =~= spec_join(parts.push(cur), sep).push(c),
{
    if parts.len() == 0 {
        assert(parts.push(cur.push(c))[0] =~= cur.push(c));
    } else {
        assert(parts.push(cur.push(c)).drop_last() =~= parts);
        assert(parts.push(cur).drop_last() =~= parts);
        assert(spec_join(parts.push(cur.push(c)), sep) =~= spec_join(parts, sep).push(sep)
            + cur.push(c));
        assert(spec_join(parts.push(cur), sep).push(c) =~= (spec_join(parts, sep).push(sep)
            + cur).push(c));
        assert((spec_join(parts, sep).push(sep) + cur).push(c) =~= spec_join(parts, sep).push(sep)
            + cur.push(c));
    }
}

/// Closing the current part and opening an empty one appends the
/// separator to the join.
proof fn lemma_join_push_empty(parts: Seq<Seq<u8>>, cur: Seq<u8>, sep: u8)
    ensures
        spec_join(parts.push(cur).push(Seq::empty()), sep) =~= spec_join(parts.push(cur), sep).push(
            sep,
        ),
{
    assert(parts.push(cur).push(Seq::<u8>::empty()).drop_last() =~= parts.push(cur));
    assert(spec_join(parts.push(cur).push(Seq::<u8>::empty()), sep) =~= spec_join(
        parts.push(cur),
        sep,
    ).push(sep) + Seq::<u8>::empty());
    assert(spec_join(parts.push(cur), sep).push(sep) + Seq::<u8>::empty() =~= spec_join(
        parts.push(cur),
        sep,
    ).push(sep));
}

/// The dotted-quad text of a v4 address.
pub open spec fn spec_ipv4_text(a: u32) -> Seq<u8> {
    spec_dec_digits((a / 0x1000000) as nat) + seq![46u8] + spec_dec_digits(
        ((a / 0x10000) % 256) as nat,
    ) + seq![46u8] + spec_dec_digits(((a / 0x100) % 256) as nat) + seq![46u8] + spec_dec_digits(
        (a % 256) as nat,
    )
}

/// Render a v4 address as dotted-quad text.
pub fn format_ipv4(a: u32) -> (r: Vec<u8>)
    ensures
        r@ == spec_ipv4_text(a),
{
    let mut out = u64_to_dec((a / 0x1000000) as u64);
    out.push(46);
    let mut o1 = u64_to_dec(((a / 0x10000) % 256) as u64);
    let mut o2 = u64_to_dec(((a / 0x100) % 256) as u64);
    let mut o3 = u64_to_dec((a % 256) as u64);
    append_bytes(&mut out, &o1);
    out.push(46);
    append_bytes(&mut out, &o2);
    out.push(46);
    append_bytes(&mut out, &o3);
    proof {
        assert(out@ =~= spec_ipv4_text(a));
    }
    out
}

/// Append one byte vector to another.
pub fn append_bytes(dst: &mut Vec<u8>, src: &Vec<u8>)
    ensures
        final(dst)@ == old(dst)@ + src@,
{
    let n = src.len();
    let mut i: usize = 0;
    while i < n
        invariant
            i <= n,
            n == src@.len(),
            dst@ == old(dst)@ + src@.take(i as int),
        decreases n - i,
    {
        let ghost pre = dst@;
        dst.push(src[i]);
        proof {
            assert(pre.push(src@[i as int]) =~= old(dst)@ + src@.take(i + 1));
        }
        i = i + 1;
    }
    proof {
        assert(old(dst)@ + src@.take(n as int) =~= old(dst)@ + src@);
    }
}

/// A decimal octet: digits whose value fits one byte.
pub open spec fn spec_is_octet(s: Seq<u8>) -> bool {
    spec_is_digits(s) && spec_dec_value(s) <= 255
}

/// What dotted-quad v4 text parses to: exactly four dot-separated decimal
/// octets, composed most significant first.
pub open spec fn spec_parse_ipv4(s: Seq<u8>) -> Option<u32> {
    let parts = spec_split_bytes(s, 46);
    if parts.len() == 4 && spec_is_octet(parts[0]) && spec_is_octet(parts[1]) && spec_is_octet(
        parts[2],
    ) && spec_is_octet(parts[3]) {
        Some(
            (spec_dec_value(parts[0]) * 0x1000000 + spec_dec_value(parts[1]) * 0x10000
                + spec_dec_value(parts[2]) * 0x100 + spec_dec_value(parts[3])) as u32,
        )
    } else {
        None
    }
}

/// Parse dotted-quad v4 text.
pub fn parse_ipv4(b: &[u8]) -> (r: Option<u32>)
    ensures
        r == spec_parse_ipv4(b@),
{
    let parts = split_bytes(b, 46);
    if parts.len() != 4 {
        return None;
    }
    let o0 = match parse_octet(&parts[0]) {
        Some(v) => v,
        None => {
            return None;
        },
    };
    let o1 = match parse_octet(&parts[1]) {
        Some(v) => v,
        None => {
            return None;
        },
    };
    let o2 = match parse_octet(&parts[2]) {
        Some(v) => v,
        None => {
            return None;
        },
    };
    let o3 = match parse_octet(&parts[3]) {
        Some(v) => v,
        None => {
            return None;
        },
    };
    let a = (o0 as u32) * 0x1000000 + (o1 as u32) * 0x10000 + (o2 as u32) * 0x100 + (o3 as u32);
    proof {
        let ps = view_of_parts(parts@);
        assert(ps[0] == parts@[0]@ && ps[1] == parts@[1]@ && ps[2] == parts@[2]@ && ps[3]
            == parts@[3]@);
    }
    Some(a)
}

/// Parse one decimal octet.
fn parse_octet(b: &Vec<u8>) -> (r: Option<u8>)
    ensures
        r is Some <==> (spec_is_digits(b@) && spec_dec_value(b@) <= 255),
        r is Some ==> r->0 == spec_dec_value(b@),
{
    match parse_u64(b.as_slice()) {
        Some(v) => {
            if v <= 255 {
                Some(v as u8)
            } else {
                None
            }
        },
        None => None,
    }
}

/// The numeric value of a hex digit string, most significant first.
pub open spec fn spec_hex_value(s: Seq<u8>) -> Option<nat>
    decreases s.len(),
{
    if s.len() == 0 {
        None
    } else if s.len() == 1 {
        match spec_hex_val(s[0]) {
            Some(v) => Some(v as nat),
            None => None,
        }
    } else {
        match (spec_hex_value(s.drop_last()), spec_hex_val(s.last())) {
            (Some(hi), Some(lo)) => Some((hi * 16 + lo) as nat),
            _ => None,
        }
    }
}

/// Parse one hex group of an address: one to four hex digits.
fn parse_hex_group(b: &Vec<u8>) -> (r: Option<u16>)
    ensures
        r is Some ==> (1 <= b@.len() <= 4 && spec_hex_value(b@) == Some((r->0) as nat)),
        r is None ==> (b@.len() < 1 || b@.len() > 4 || spec_hex_value(b@) is None),
{
    if b.len() < 1 || b.len() > 4 {
        return None;
    }
    let mut acc: u16 = 0;
    let mut i: usize = 0;
    let n = b.len();
    while i < n
        invariant
            1 <= n <= 4,
            n == b@.len(),
            i <= n,
            (if i == 0 {
                acc == 0
            } else {
                spec_hex_value(b@.take(i as int)) == Some(acc as nat)
            }),
            (i == 0 ==> acc == 0),
            (i == 1 ==> acc < 0x10),
            (i == 2 ==> acc < 0x100),
            (i == 3 ==> acc < 0x1000),
            acc <= 0xffff,
        decreases n - i,
    {
        let v = match crate::textfmt::hex_digit_value(b[i]) {
            Some(v) => v,
            None => {
                proof {
                    lemma_hex_value_bad_digit(b@, i as int);
                }
                return None;
            },
        };
        proof {
            assert(b@.take(i + 1).drop_last() =~= b@.take(i as int));
            assert(b@.take(i + 1).last() == b@[i as int]);
        }
        acc = acc * 16 + (v as u16);
        i = i + 1;
    }
    proof {
        assert(b@.take(n as int) =~= b@);
    }
    Some(acc)
}

/// A bad digit anywhere makes the hex value undefined.
proof fn lemma_hex_value_bad_digit(s: Seq<u8>, i: int)
    requires
        0 <= i < s.len(),
        spec_hex_val(s[i]) is None,
    ensures
        spec_hex_value(s) is None,
    decreases s.len(),
{
    if s.len() > 1 {
        if i < s.len() - 1 {
            lemma_hex_value_bad_digit(s.drop_last(), i);
        }
    }
}

/// One hex group of a full-form v6 address: one to four hex digits.
pub open spec fn spec_is_v6_group(s: Seq<u8>) -> bool {
    1 <= s.len() <= 4 && spec_hex_value(s) is Some
}

/// What full-form v6 text parses to: exactly eight colon-separated hex
/// groups of one to four digits, composed most significant first (the
/// `::` compression is not taken).
pub open spec fn spec_parse_ipv6(s: Seq<u8>) -> Option<u128> {
    let parts = spec_split_bytes(s, 58);
    if parts.len() == 8 && spec_is_v6_group(parts[0]) && spec_is_v6_group(parts[1])
        && spec_is_v6_group(parts[2]) && spec_is_v6_group(parts[3]) && spec_is_v6_group(parts[4])
        && spec_is_v6_group(parts[5]) && spec_is_v6_group(parts[6]) && spec_is_v6_group(parts[7]) {
        Some(
            (spec_hex_value(parts[0])->0 * 0x10000000000000000000000000000 + spec_hex_value(
                parts[1],
            )->0 * 0x1000000000000000000000000 + spec_hex_value(parts[2])->0
                * 0x100000000000000000000 + spec_hex_value(parts[3])->0 * 0x10000000000000000
                + spec_hex_value(parts[4])->0 * 0x1000000000000 + spec_hex_value(parts[5])->0
                * 0x100000000 + spec_hex_value(parts[6])->0 * 0x10000 + spec_hex_value(
                parts[7],
            )->0) as u128,
        )
    } else {
        None
    }
}

/// Parse v6 text in its full eight-group form.
pub fn parse_ipv6(b: &[u8]) -> (r: Option<u128>)
    ensures
        r == spec_parse_ipv6(b@),
{
    let parts = split_bytes(b, 58);
    if parts.len() != 8 {
        return None;
    }
    let mut groups: Vec<u16> = Vec::new();
    let mut i: usize = 0;
    while i < 8
        invariant
            parts@.len() == 8,
            view_of_parts(parts@) == spec_split_bytes(b@, 58),
            i <= 8,
            groups@.len() == i,
            forall|j: int|
                0 <= j < i ==> spec_is_v6_group(#[trigger] view_of_parts(parts@)[j])
                    && spec_hex_value(view_of_parts(parts@)[j]) == Some(groups@[j] as nat),
        decreases 8 - i,
    {
        proof {
            assert(view_of_parts(parts@)[i as int] == parts@[i as int]@);
        }
        let g = match parse_hex_group(&parts[i]) {
            Some(v) => v,
            None => {
                return None;
            },
        };
        groups.push(g);
        i = i + 1;
    }
    let a: u128 = (groups[0] as u128) * 0x10000000000000000000000000000 + (groups[1] as u128)
        * 0x1000000000000000000000000 + (groups[2] as u128) * 0x100000000000000000000 + (groups[3]
        as u128) * 0x10000000000000000 + (groups[4] as u128) * 0x1000000000000 + (groups[5]
        as u128) * 0x100000000 + (groups[6] as u128) * 0x10000 + (groups[7] as u128);
    Some(a)
}

/// The full-form text of a v6 address: eight four-digit lowercase hex
/// groups joined by colons, no compression.
pub open spec fn spec_ipv6_text(a: u128) -> Seq<u8> {
    spec_hex_group_text(a, 0) + seq![58u8] + spec_hex_group_text(a, 1) + seq![58u8]
        + spec_hex_group_text(a, 2) + seq![58u8] + spec_hex_group_text(a, 3) + seq![58u8]
        + spec_hex_group_text(a, 4) + seq![58u8] + spec_hex_group_text(a, 5) + seq![58u8]
        + spec_hex_group_text(a, 6) + seq![58u8] + spec_hex_group_text(a, 7)
}

/// The four hex digits of group `g` (counted from the top) of an address.
pub open spec fn spec_hex_group_text(a: u128, g: int) -> Seq<u8> {
    let v = spec_ipv6_group(a, g);
    spec_hex_bytes(seq![(v / 256) as u8, (v % 256) as u8])
}

/// Group `g` of a v6 address.
pub open spec fn spec_ipv6_group(a: u128, g: int) -> u16 {
    ((a >> ((7 - g) * 16) as u128) & 0xffff) as u16
}

/// Render a v6 address in its full-form text.
pub fn format_ipv6(a: u128) -> (r: Vec<u8>)
    ensures
        r@ == spec_ipv6_text(a),
{
    let mut out: Vec<u8> = Vec::new();
    let mut g: usize = 0;
    while g < 8
        invariant
            g <= 8,
            out@ == spec_ipv6_prefix_text(a, g as int),
        decreases 8 - g,
    {
        if g > 0 {
            out.push(58);
        }
        let shift: u128 = ((7 - g) as u128) * 16;
        proof {
            let x = a >> shift;
            assert(x & 0xffff < 0x10000) by (bit_vector);
        }
        let v: u16 = ((a >> shift) & 0xffff) as u16;
        let mut pair: Vec<u8> = Vec::new();
        pair.push((v / 256) as u8);
        pair.push((v % 256) as u8);
        let hexed = encode_hex_bytes(pair.as_slice());
        append_bytes(&mut out, &hexed);
        proof {
            assert(pair@ =~= seq![(spec_ipv6_group(a, g as int) / 256) as u8, (spec_ipv6_group(
                a,
                g as int,
            ) % 256) as u8]);
            assert(out@ =~= spec_ipv6_prefix_text(a, g + 1));
        }
        g = g + 1;
    }
    proof {
        reveal_with_fuel(spec_ipv6_prefix_text, 9);
        assert(spec_ipv6_prefix_text(a, 8) =~= spec_ipv6_text(a));
    }
    out
}

/// The first `g` groups of the full-form text.
pub open spec fn spec_ipv6_prefix_text(a: u128, g: int) -> Seq<u8>
    decreases g,
{
    if g <= 0 {
        Seq::empty()
    } else if g == 1 {
        spec_hex_group_text(a, 0)
    } else {
        spec_ipv6_prefix_text(a, g - 1).push(58u8) + spec_hex_group_text(a, g - 1)
    }
}

/// Render any address as text.
pub fn format_ip(addr: &IpAddress) -> (r: Vec<u8>)
    ensures
        (match addr {
            IpAddress::V4(a) => r@ == spec_ipv4_text(*a),
            IpAddress::V6(a) => r@ == spec_ipv6_text(*a),
        }),
{
    match addr {
        IpAddress::V4(a) => format_ipv4(*a),
        IpAddress::V6(a) => format_ipv6(*a),
    }
}

/// What "address/prefix" text parses to: exactly one slash, the address
/// in v4 dotted-quad or full-form v6 text, and a decimal prefix length
/// within the family's bits.
pub open spec fn spec_parse_allowed_ip(s: Seq<u8>) -> Option<AllowedIP> {
    let parts = spec_split_bytes(s, 47);
    if parts.len() != 2 {
        None
    } else if !(spec_is_digits(parts[1]) && spec_dec_value(parts[1]) <= u64::MAX) {
        None
    } else {
        let cidr = spec_dec_value(parts[1]);
        match spec_parse_ipv4(parts[0]) {
            Some(a) => {
                if cidr <= 32 {
                    Some(AllowedIP { addr: IpAddress::V4(a), cidr: cidr as u8 })
                } else {
                    None
                }
            },
            None => {
                match spec_parse_ipv6(parts[0]) {
                    Some(a) => {
                        if cidr <= 128 {
                            Some(AllowedIP { addr: IpAddress::V6(a), cidr: cidr as u8 })
                        } else {
                            None
                        }
                    },
                    None => None,
                }
            },
        }
    }
}

/// Parse "address/prefix" into an allowed-IP entry.
pub fn parse_allowed_ip(b: &[u8]) -> (r: Option<AllowedIP>)
    ensures
        r == spec_parse_allowed_ip(b@),
        r is Some ==> (r->0).wf(),
{
    let parts = split_bytes(b, 47);
    if parts.len() != 2 {
        return None;
    }
    let cidr = match parse_u64(parts[1].as_slice()) {
        Some(v) => v,
        None => {
            return None;
        },
    };
    match parse_ipv4(parts[0].as_slice()) {
        Some(a) => {
            if cidr <= 32 {
                return Some(AllowedIP { addr: IpAddress::V4(a), cidr: cidr as u8 });
            }
            return None;
        },
        None => {},
    }
    match parse_ipv6(parts[0].as_slice()) {
        Some(a) => {
            if cidr <= 128 {
                Some(AllowedIP { addr: IpAddress::V6(a), cidr: cidr as u8 })
            } else {
                None
            }
        },
        None => None,
    }
}

/// The first position of `sep` in `s` at or beyond `i`, or the length.
pub open spec fn spec_find_from(s: Seq<u8>, sep: u8, i: int) -> int
    decreases s.len() - i,
{
    if i < 0 || i >= s.len() {
        s.len() as int
    } else if s[i] == sep {
        i
    } else {
        spec_find_from(s, sep, i + 1)
    }
}

/// With no hit in `[i, k)` and a hit at `k`, the find lands on `k`.
pub proof fn lemma_find_from_hit(s: Seq<u8>, sep: u8, i: int, k: int)
    requires
        0 <= i <= k < s.len(),
        forall|j: int| i <= j < k ==> s[j] != sep,
        s[k] == sep,
    ensures
        spec_find_from(s, sep, i) == k,
    decreases k - i,
{
    if i < k {
        lemma_find_from_hit(s, sep, i + 1, k);
    }
}

/// With no hit at or beyond `i`, the find lands on the length.
pub proof fn lemma_find_from_miss(s: Seq<u8>, sep: u8, i: int)
    requires
        0 <= i,
        forall|j: int| i <= j < s.len() ==> s[j] != sep,
    ensures
        spec_find_from(s, sep, i) == s.len(),
    decreases s.len() - i,
{
    if i < s.len() {
        lemma_find_from_miss(s, sep, i + 1);
    }
}

/// What "host:port" (v4) or "[host]:port" (v6) text parses to: the host
/// in its family's text form, a colon, and a decimal port.
pub open spec fn spec_parse_socket_addr(s: Seq<u8>) -> Option<SocketAddress> {
    if s.len() == 0 {
        None
    } else if s[0] == 91 {
        let close = spec_find_from(s, 93, 1);
        if close >= s.len() {
            None
        } else if s.len() - close < 2 || s[close + 1] != 58 {
            None
        } else {
            match spec_parse_ipv6(s.subrange(1, close)) {
                Some(a) => {
                    let port = s.subrange(close + 2, s.len() as int);
                    if spec_is_digits(port) && spec_dec_value(port) <= u16::MAX {
                        Some(
                            SocketAddress {
                                ip: IpAddress::V6(a),
                                port: spec_dec_value(port) as u16,
                            },
                        )
                    } else {
                        None
                    }
                },
                None => None,
            }
        }
    } else {
        let parts = spec_split_bytes(s, 58);
        if parts.len() != 2 {
            None
        } else {
            match spec_parse_ipv4(parts[0]) {
                Some(a) => {
                    if spec_is_digits(parts[1]) && spec_dec_value(parts[1]) <= u16::MAX {
                        Some(
                            SocketAddress {
                                ip: IpAddress::V4(a),
                                port: spec_dec_value(parts[1]) as u16,
                            },
                        )
                    } else {
                        None
                    }
                },
                None => None,
            }
        }
    }
}

/// Parse "host:port" (v4) or "[host]:port" (v6) into a socket address.
pub fn parse_socket_addr(b: &[u8]) -> (r: Option<SocketAddress>)
    ensures
        r == spec_parse_socket_addr(b@),
{
    if b.len() == 0 {
        return None;
    }
    if b[0] == 91 {
        // "[v6]:port"
        let mut close: usize = 0;
        let mut k: usize = 1;
        let n = b.len();
        let mut found = false;
        while k < n
            invariant
                1 <= k <= n,
                n == b@.len(),
                found ==> 1 <= close && close < n && b@[close as int] == 93 && close
                    == spec_find_from(b@, 93, 1),
                !found ==> (forall|j: int| 1 <= j < k ==> b@[j] != 93),
            decreases n - k,
        {
            if b[k] == 93 && !found {
                close = k;
                found = true;
                proof {
                    lemma_find_from_hit(b@, 93, 1, k as int);
                }
            }
            k = k + 1;
        }
        if !found {
            proof {
                lemma_find_from_miss(b@, 93, 1);
            }
            return None;
        }
        if b.len() - close < 2 || b[close + 1] != 58 {
            return None;
        }
        let host = slice_range(b, 1, close);
        let port_txt = slice_range(b, close + 2, b.len());
        let host_ip = match parse_ipv6(host.as_slice()) {
            Some(a) => a,
            None => {
                return None;
            },
        };
        let port = match parse_u16(port_txt.as_slice()) {
            Some(p) => p,
            None => {
                return None;
            },
        };
        Some(SocketAddress { ip: IpAddress::V6(host_ip), port })
    } else {
        let parts = split_bytes(b, 58);
        if parts.len() != 2 {
            return None;
        }
        let host_ip = match parse_ipv4(parts[0].as_slice()) {
            Some(a) => a,
            None => {
                return None;
            },
        };
        let port = match parse_u16(parts[1].as_slice()) {
            Some(p) => p,
            None => {
                return None;
            },
        };
        Some(SocketAddress { ip: IpAddress::V4(host_ip), port })
    }
}

/// Copy a byte range.
pub fn slice_range(b: &[u8], from: usize, to: usize) -> (r: Vec<u8>)
    requires
        from <= to <= b@.len(),
    ensures
        r@ == b@.subrange(from as int, to as int),
{
    let mut out: Vec<u8> = Vec::new();
    let mut i: usize = from;
    while i < to
        invariant
            from <= i <= to <= b@.len(),
            out@ == b@.subrange(from as int, i as int),
        decreases to - i,
    {
        let ghost pre = out@;
        out.push(b[i]);
        proof {
            assert(pre.push(b@[i as int]) =~= b@.subrange(from as int, i + 1));
        }
        i = i + 1;
    }
    out
}

/// Render a socket address as text.
pub fn format_socket_addr(sa: &SocketAddress) -> (r: Vec<u8>)
    ensures
        (match sa.ip {
            IpAddress::V4(a) => r@ == spec_ipv4_text(a) + seq![58u8] + spec_dec_digits(
                sa.port as nat,
            ),
            IpAddress::V6(a) => r@ == seq![91u8] + spec_ipv6_text(a) + seq![93u8, 58u8]
                + spec_dec_digits(sa.port as nat),
        }),
{
    let mut out: Vec<u8> = Vec::new();
    match sa.ip {
        IpAddress::V4(a) => {
            let host = format_ipv4(a);
            append_bytes(&mut out, &host);
            out.push(58);
        },
        IpAddress::V6(a) => {
            out.push(91);
            let host = format_ipv6(a);
            append_bytes(&mut out, &host);
            out.push(93);
            out.push(58);
        },
    }
    let port = u64_to_dec(sa.port as u64);
    append_bytes(&mut out, &port);
    proof {
        match sa.ip {
            IpAddress::V4(a) => {
                assert(out@ =~= spec_ipv4_text(a) + seq![58u8] + spec_dec_digits(sa.port as nat));
            },
            IpAddress::V6(a) => {
                assert(out@ =~= seq![91u8] + spec_ipv6_text(a) + seq![93u8, 58u8] + spec_dec_digits(
                    sa.port as nat,
                ));
            },
        }
    }
    out
}

} // verus!
