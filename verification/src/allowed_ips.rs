//! Longest-prefix routing table from IP prefixes to peer identifiers: a
//! bitwise trie per address family, modelled as a map from bit sequences
//! (the prefix, most significant bit first) to the stored value.

use vstd::prelude::*;
use vstd::map::*;
use crate::ip::{AllowedIP, IpAddress};

verus! {

/// Bit `i` (counting from the most significant) of a 128-bit key.
pub open spec fn addr_bit(a: u128, i: nat) -> bool {
    (a >> ((127 - i) as u128)) & 1 == 1
}

/// `len` consecutive bits of `a`, starting `depth` bits below the top.
pub open spec fn bits_slice(a: u128, depth: nat, len: nat) -> Seq<bool> {
    Seq::new(len, |i: int| addr_bit(a, (depth + i) as nat))
}

/// The trie key of an address's first `len` bits.
pub open spec fn prefix_key(addr: IpAddress, len: nat) -> Seq<bool> {
    bits_slice(addr.spec_key_bits(), 0, len)
}

struct TrieNode {
    value: Option<u32>,
    zero: Option<Box<TrieNode>>,
    one: Option<Box<TrieNode>>,
}

/// All prefix-to-value entries stored below an optional node, keyed by
/// the bit path from that node.
spec fn opt_map(opt: Option<Box<TrieNode>>) -> Map<Seq<bool>, u32>
    decreases opt,
{
    match opt {
        None => Map::empty(),
        Some(node) => node.as_map(),
    }
}

/// The entries of `m` re-keyed one level down, behind leading bit `b`.
spec fn prefix_map(b: bool, m: Map<Seq<bool>, u32>) -> Map<Seq<bool>, u32> {
    Map::new(
        |k: Seq<bool>| k.len() > 0 && k[0] == b && m.dom().contains(k.drop_first()),
        |k: Seq<bool>| m[k.drop_first()],
    )
}

/// `m` with every entry holding `value` dropped.
pub open spec fn drop_value(m: Map<Seq<bool>, u32>, value: u32) -> Map<Seq<bool>, u32> {
    Map::new(|k: Seq<bool>| m.dom().contains(k) && m[k] != value, |k: Seq<bool>| m[k])
}

impl TrieNode {
    spec fn as_map(self) -> Map<Seq<bool>, u32>
        decreases self,
    {
        let base = match self.value {
            Some(v) => Map::empty().insert(Seq::empty(), v),
            None => Map::<Seq<bool>, u32>::empty(),
        };
        base.union_prefer_right(prefix_map(false, opt_map(self.zero))).union_prefer_right(
            prefix_map(true, opt_map(self.one)),
        )
    }

    spec fn child(self, b: bool) -> Option<Box<TrieNode>> {
        if b {
            self.one
        } else {
            self.zero
        }
    }
}

/// How a node's map reads at one key: the empty key is the node's own
/// value; a longer key defers to the child selected by its first bit.
proof fn lemma_node_lookup(n: TrieNode, k: Seq<bool>)
    ensures
        k.len() == 0 ==> (n.as_map().dom().contains(k) <==> n.value is Some),
        k.len() == 0 && n.value is Some ==> n.as_map()[k] == n.value->0,
        k.len() > 0 ==> (n.as_map().dom().contains(k) <==> opt_map(n.child(k[0])).dom().contains(
            k.drop_first(),
        )),
        k.len() > 0 && n.as_map().dom().contains(k) ==> n.as_map()[k] == opt_map(n.child(k[0]))[
            k.drop_first()
        ],
{
    let base = match n.value {
        Some(v) => Map::empty().insert(Seq::empty(), v),
        None => Map::<Seq<bool>, u32>::empty(),
    };
    let zm = prefix_map(false, opt_map(n.zero));
    let om = prefix_map(true, opt_map(n.one));
    assert(n.as_map() == base.union_prefer_right(zm).union_prefer_right(om));
    if k.len() == 0 {
        assert(k =~= Seq::<bool>::empty());
        assert(!zm.dom().contains(k));
        assert(!om.dom().contains(k));
        if n.value is Some {
            assert(base.dom().contains(k));
        } else {
            assert(!base.dom().contains(k));
        }
    } else {
        assert(!base.dom().contains(k));
        if k[0] {
            assert(!zm.dom().contains(k));
            assert(om.dom().contains(k) <==> opt_map(n.one).dom().contains(k.drop_first()));
        } else {
            assert(!om.dom().contains(k));
            assert(zm.dom().contains(k) <==> opt_map(n.zero).dom().contains(k.drop_first()));
        }
    }
}

/// A node holding nothing stores nothing.
proof fn lemma_empty_node_map(n: TrieNode)
    requires
        n.value is None,
        n.zero is None,
        n.one is None,
    ensures
        n.as_map() =~= Map::empty(),
{
}

/// A key slice of positive length starts with the bit at its depth and
/// continues with the slice one level down.
proof fn lemma_bits_slice_cons(a: u128, depth: nat, len: nat)
    requires
        len > 0,
        depth + len <= 128,
    ensures
        bits_slice(a, depth, len)[0] == addr_bit(a, depth),
        bits_slice(a, depth, len).drop_first() =~= bits_slice(a, (depth + 1) as nat, (len - 1) as nat),
{
}

/// Read one key bit.
fn get_bit(addr: u128, depth: u8) -> (r: bool)
    requires
        depth < 128,
    ensures
        r == addr_bit(addr, depth as nat),
{
    ((addr >> ((127 - depth) as u128)) & 1) == 1
}

fn insert_at(n: &mut TrieNode, addr: u128, depth: u8, cidr: u8, value: u32)
    requires
        depth <= cidr,
        cidr <= 128,
    ensures
        final(n).as_map() =~= old(n).as_map().insert(
            bits_slice(addr, depth as nat, (cidr - depth) as nat),
            value,
        ),
    decreases (cidr - depth) as nat, 0nat,
{
    if depth == cidr {
        let ghost before = n.as_map();
        n.value = Some(value);
        proof {
            let after = n.as_map();
            let key = bits_slice(addr, depth as nat, 0);
            assert(key =~= Seq::<bool>::empty());
            assert forall|k: Seq<bool>| true implies (after.dom().contains(k) <==> before.insert(
                key,
                value,
            ).dom().contains(k)) && (after.dom().contains(k) ==> after[k] == before.insert(
                key,
                value,
            )[k]) by {
                lemma_node_lookup(*old(n), k);
                lemma_node_lookup(*n, k);
                if k.len() == 0 {
                    assert(k =~= key);
                }
            }
            assert(after =~= before.insert(key, value));
        }
    } else {
        let b = get_bit(addr, depth);
        let ghost before = n.as_map();
        let ghost child_before = opt_map(n.child(b));
        if b {
            insert_opt(&mut n.one, addr, depth + 1, cidr, value);
        } else {
            insert_opt(&mut n.zero, addr, depth + 1, cidr, value);
        }
        proof {
            let after = n.as_map();
            let key = bits_slice(addr, depth as nat, (cidr - depth) as nat);
            let sub_key = bits_slice(addr, (depth + 1) as nat, (cidr - depth - 1) as nat);
            lemma_bits_slice_cons(addr, depth as nat, (cidr - depth) as nat);
            assert(key.drop_first() =~= sub_key);
            assert(key[0] == b);
            assert(opt_map(n.child(b)) == child_before.insert(sub_key, value));
            assert_maps_equal!(after, before.insert(key, value), k => {
                lemma_node_lookup(*old(n), k);
                lemma_node_lookup(*n, k);
                if k.len() > 0 && k[0] == b && k.drop_first() =~= sub_key {
                    assert(k.len() == key.len());
                    assert forall|i: int| 0 <= i < k.len() implies k[i] == key[i] by {
                        if i > 0 {
                            assert(k[i] == k.drop_first()[i - 1]);
                            assert(key[i] == key.drop_first()[i - 1]);
                        }
                    }
                    assert(k =~= key);
                }
                if k == key {
                    assert(k[0] == b);
                    assert(k.drop_first() =~= sub_key);
                    assert(after.dom().contains(k));
                    assert(after[k] == value);
                }
            });
        }
    }
}

fn insert_opt(opt: &mut Option<Box<TrieNode>>, addr: u128, depth: u8, cidr: u8, value: u32)
    requires
        depth <= cidr,
        cidr <= 128,
    ensures
        opt_map(*final(opt)) =~= opt_map(*old(opt)).insert(
            bits_slice(addr, depth as nat, (cidr - depth) as nat),
            value,
        ),
    decreases (cidr - depth) as nat, 1nat,
{
    match opt.take() {
        None => {
            let mut node = TrieNode { value: None, zero: None, one: None };
            proof {
                lemma_empty_node_map(node);
            }
            insert_at(&mut node, addr, depth, cidr, value);
            *opt = Some(Box::new(node));
        },
        Some(mut boxed) => {
            insert_at(&mut *boxed, addr, depth, cidr, value);
            *opt = Some(boxed);
        },
    }
}

/// There is a match of length `len` below this map for `addr` at `depth`.
pub open spec fn has_match(m: Map<Seq<bool>, u32>, addr: u128, depth: nat, len: nat) -> bool {
    m.dom().contains(bits_slice(addr, depth, len))
}

/// The result is the value stored at the longest matching prefix, and
/// nothing matches beyond it.
pub open spec fn longest_match_is(
    m: Map<Seq<bool>, u32>,
    addr: u128,
    depth: nat,
    max_len: nat,
    r: Option<u32>,
) -> bool {
    match r {
        Some(v) => exists|len: nat|
            #![trigger has_match(m, addr, depth, len)]
            len <= max_len && has_match(m, addr, depth, len) && m[bits_slice(addr, depth, len)] == v
                && (forall|l2: nat| len < l2 <= max_len ==> !has_match(m, addr, depth, l2)),
        None => forall|len: nat| len <= max_len ==> !has_match(m, addr, depth, len),
    }
}

fn find_at(n: &TrieNode, addr: u128, depth: u8) -> (r: Option<u32>)
    requires
        depth <= 128,
    ensures
        longest_match_is(n.as_map(), addr, depth as nat, (128 - depth) as nat, r),
    decreases (128 - depth) as nat,
{
    let ghost m = n.as_map();
    let ghost maxl: nat = (128 - depth) as nat;
    let ghost cm: Map<Seq<bool>, u32> = if depth < 128 {
        opt_map(n.child(addr_bit(addr, depth as nat)))
    } else {
        Map::empty()
    };
    let deeper: Option<u32> = if depth < 128 {
        let b = get_bit(addr, depth);
        let child = if b {
            &n.one
        } else {
            &n.zero
        };
        match child {
            Some(c) => find_at(&**c, addr, depth + 1),
            None => None,
        }
    } else {
        None
    };
    proof {
        // A key of positive length matches below this node exactly when
        // its remainder matches below the child picked by the address bit.
        assert forall|l2: nat| 0 < l2 <= maxl implies (has_match(m, addr, depth as nat, l2) <==> (
        depth < 128 && has_match(cm, addr, (depth + 1) as nat, (l2 - 1) as nat))) && (has_match(
            m,
            addr,
            depth as nat,
            l2,
        ) ==> m[bits_slice(addr, depth as nat, l2)] == cm[bits_slice(
            addr,
            (depth + 1) as nat,
            (l2 - 1) as nat,
        )]) by {
            let k = bits_slice(addr, depth as nat, l2);
            lemma_bits_slice_cons(addr, depth as nat, l2);
            lemma_node_lookup(*n, k);
            assert(k.drop_first() =~= bits_slice(addr, (depth + 1) as nat, (l2 - 1) as nat));
        }
        lemma_node_lookup(*n, Seq::<bool>::empty());
        assert(bits_slice(addr, depth as nat, 0) =~= Seq::<bool>::empty());
        if deeper is Some {
            // The child found a longest match; one bit longer here.
            let v = deeper->0;
            let clen = choose|len: nat|
                #![trigger has_match(cm, addr, (depth + 1) as nat, len)]
                len <= (maxl - 1) as nat && has_match(cm, addr, (depth + 1) as nat, len) && cm[
                    bits_slice(addr, (depth + 1) as nat, len)
                ] == v && (forall|l2: nat|
                    len < l2 <= (maxl - 1) as nat ==> !#[trigger] has_match(
                        cm,
                        addr,
                        (depth + 1) as nat,
                        l2,
                    ));
            assert(has_match(m, addr, depth as nat, (clen + 1) as nat));
            assert(m[bits_slice(addr, depth as nat, (clen + 1) as nat)] == v);
            assert forall|l2: nat| clen + 1 < l2 <= maxl implies !has_match(
                m,
                addr,
                depth as nat,
                l2,
            ) by {
                assert(!has_match(cm, addr, (depth + 1) as nat, (l2 - 1) as nat));
            }
            assert(longest_match_is(m, addr, depth as nat, maxl, deeper));
        } else {
            // Nothing matched below: only this node's own value can.
            assert forall|l2: nat| 0 < l2 <= maxl implies !has_match(m, addr, depth as nat, l2) by {
                if depth < 128 {
                    assert(!has_match(cm, addr, (depth + 1) as nat, (l2 - 1) as nat));
                }
            }
            match n.value {
                Some(v) => {
                    assert(has_match(m, addr, depth as nat, 0));
                    assert(m[bits_slice(addr, depth as nat, 0)] == v);
                    assert(longest_match_is(m, addr, depth as nat, maxl, Some(v)));
                },
                None => {
                    assert(!has_match(m, addr, depth as nat, 0));
                },
            }
        }
    }
    match deeper {
        Some(v) => Some(v),
        None => {
            match n.value {
                Some(v) => Some(v),
                None => None,
            }
        },
    }
}

fn remove_value_at(n: &mut TrieNode, value: u32) -> (empty: bool)
    ensures
        final(n).as_map() =~= drop_value(old(n).as_map(), value),
        empty ==> final(n).as_map() =~= Map::<Seq<bool>, u32>::empty(),
    decreases *old(n),
{
    let keep = match n.value {
        Some(v) => v != value,
        None => false,
    };
    if !keep {
        n.value = None;
    }
    let ghost mid = *n;
    match n.zero.take() {
        Some(mut c) => {
            let sub_empty = remove_value_at(&mut *c, value);
            if !sub_empty {
                n.zero = Some(c);
            }
        },
        None => {},
    }
    let ghost mid2 = *n;
    match n.one.take() {
        Some(mut c) => {
            let sub_empty = remove_value_at(&mut *c, value);
            if !sub_empty {
                n.one = Some(c);
            }
        },
        None => {},
    }
    let is_empty = match (&n.value, &n.zero, &n.one) {
        (Option::None, Option::None, Option::None) => true,
        _ => false,
    };
    proof {
        let before = old(n).as_map();
        let after = n.as_map();
        assert forall|k: Seq<bool>| true implies (after.dom().contains(k) <==> drop_value(
            before,
            value,
        ).dom().contains(k)) && (after.dom().contains(k) ==> after[k] == drop_value(
            before,
            value,
        )[k]) by {
            lemma_node_lookup(*old(n), k);
            lemma_node_lookup(*n, k);
        }
        assert(after =~= drop_value(before, value));
        if is_empty {
            lemma_empty_node_map(*n);
        }
    }
    is_empty
}

/// The longest-prefix routing table: separate tries for the two address
/// families, each a map from prefix bits to the stored value.
pub struct AllowedIps {
    v4: TrieNode,
    v6: TrieNode,
}

impl AllowedIps {
    /// Entries of the v4 family, keyed by prefix bits of the address
    /// widened to 128 bits (so all keys have at most 32 bits).
    pub closed spec fn map4(self) -> Map<Seq<bool>, u32> {
        self.v4.as_map()
    }

    /// Entries of the v6 family, keyed by prefix bits.
    pub closed spec fn map6(self) -> Map<Seq<bool>, u32> {
        self.v6.as_map()
    }

    /// The family map an address is routed against.
    pub open spec fn family_map(self, addr: IpAddress) -> Map<Seq<bool>, u32> {
        if addr.is_v4() {
            self.map4()
        } else {
            self.map6()
        }
    }

    pub fn new() -> (r: Self)
        ensures
            r.map4() =~= Map::<Seq<bool>, u32>::empty(),
            r.map6() =~= Map::<Seq<bool>, u32>::empty(),
    {
        let r = AllowedIps {
            v4: TrieNode { value: None, zero: None, one: None },
            v6: TrieNode { value: None, zero: None, one: None },
        };
        proof {
            lemma_empty_node_map(r.v4);
            lemma_empty_node_map(r.v6);
        }
        r
    }

    pub fn clear(&mut self)
        ensures
            final(self).map4() =~= Map::<Seq<bool>, u32>::empty(),
            final(self).map6() =~= Map::<Seq<bool>, u32>::empty(),
    {
        *self = AllowedIps::new();
    }

    /// Store `value` at the prefix; a later insert at the same prefix wins.
    pub fn insert(&mut self, addr: IpAddress, cidr: u8, value: u32)
        requires
            cidr <= addr.spec_family_bits(),
        ensures
            final(self).family_map(addr) =~= old(self).family_map(addr).insert(
                prefix_key(addr, cidr as nat),
                value,
            ),
            addr.is_v4() ==> final(self).map6() == old(self).map6(),
            !addr.is_v4() ==> final(self).map4() == old(self).map4(),
    {
        let key = addr.key_bits();
        match addr {
            IpAddress::V4(_) => insert_at(&mut self.v4, key, 0, cidr, value),
            IpAddress::V6(_) => insert_at(&mut self.v6, key, 0, cidr, value),
        }
    }

    /// Longest-prefix match: the value stored at the longest prefix of
    /// `addr` present in its family's table, or nothing when no stored
    /// prefix covers the address.
    pub fn find(&self, addr: IpAddress) -> (r: Option<u32>)
        ensures
            longest_match_is(self.family_map(addr), addr.spec_key_bits(), 0, 128, r),
    {
        let key = addr.key_bits();
        match addr {
            IpAddress::V4(_) => find_at(&self.v4, key, 0),
            IpAddress::V6(_) => find_at(&self.v6, key, 0),
        }
    }

    /// Drop every entry that stores `value`, keeping all others.
    pub fn remove(&mut self, value: u32)
        ensures
            final(self).map4() =~= drop_value(old(self).map4(), value),
            final(self).map6() =~= drop_value(old(self).map6(), value),
    {
        let _ = remove_value_at(&mut self.v4, value);
        let _ = remove_value_at(&mut self.v6, value);
    }
}

} // verus!
