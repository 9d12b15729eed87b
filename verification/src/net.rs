//! IP addresses, networks and prefix matching.
use vstd::prelude::*;
use vstd::string::*;

use crate::text;

verus! {

/// An IP address, as its octets in network order.
#[derive(Clone, Copy, Debug)]
pub enum IpAddress {
    V4([u8; 4]),
    V6([u8; 16]),
}

/// An address with a prefix length in bits.
#[derive(Clone, Copy, Debug)]
pub struct Network {
    pub address: IpAddress,
    pub prefix: u8,
}

impl IpAddress {
    /// The octets, in network order.
    pub open spec fn octets(self) -> Seq<u8> {
        match self {
            IpAddress::V4(o) => o@,
            IpAddress::V6(o) => o@,
        }
    }

    /// The number of bits of an address of this family.
    pub open spec fn width(self) -> int {
        match self {
            IpAddress::V4(_) => 32,
            IpAddress::V6(_) => 128,
        }
    }

    pub open spec fn same_family(self, other: IpAddress) -> bool {
        (self is V4) == (other is V4)
    }

    /// The two are one address.
    pub open spec fn same(self, other: IpAddress) -> bool {
        self.same_family(other) && self.octets() == other.octets()
    }
}

/// Bit `i` of a row of octets, counted from the most significant bit of the
/// first octet.
pub open spec fn bit(octets: Seq<u8>, i: int) -> bool {
    (octets[i / 8] >> ((7 - i % 8) as u8)) & 1u8 == 1u8
}

/// The two rows agree on their first `bits` bits.
pub open spec fn agree(a: Seq<u8>, b: Seq<u8>, bits: int) -> bool {
    forall|i: int| 0 <= i < bits ==> #[trigger] bit(a, i) == bit(b, i)
}

/// The address lies in the network: the family is the same, and the first
/// `prefix` bits are, of those that the family has.
pub open spec fn in_network(network: IpAddress, prefix: u8, ip: IpAddress) -> bool {
    let bits = if prefix <= network.width() {
        prefix as int
    } else {
        network.width()
    };
    network.same_family(ip) && agree(network.octets(), ip.octets(), bits)
}

/// Equal octets have equal bits, and the other way round.
proof fn lemma_octet_bits(x: u8, y: u8)
    ensures
        x == y <==> (forall|k: u8|
            0 <= k < 8 ==> ((#[trigger] (x >> k)) & 1u8 == 1u8) == ((y >> k) & 1u8 == 1u8)),
{
    assert(x == y <==> ((x >> 0u8) & 1u8 == (y >> 0u8) & 1u8 && (x >> 1u8) & 1u8 == (y >> 1u8) & 1u8
        && (x >> 2u8) & 1u8 == (y >> 2u8) & 1u8 && (x >> 3u8) & 1u8 == (y >> 3u8) & 1u8 && (x
        >> 4u8) & 1u8 == (y >> 4u8) & 1u8 && (x >> 5u8) & 1u8 == (y >> 5u8) & 1u8 && (x >> 6u8)
        & 1u8 == (y >> 6u8) & 1u8 && (x >> 7u8) & 1u8 == (y >> 7u8) & 1u8)) by (bit_vector);
    assert forall|k: u8| #![trigger x >> k] 0 <= k < 8 implies {
        &&& ((x >> k) & 1u8 == 0u8 || (x >> k) & 1u8 == 1u8)
        &&& ((y >> k) & 1u8 == 0u8 || (y >> k) & 1u8 == 1u8)
    } by {
        assert((x >> k) & 1u8 == 0u8 || (x >> k) & 1u8 == 1u8) by (bit_vector);
        assert((y >> k) & 1u8 == 0u8 || (y >> k) & 1u8 == 1u8) by (bit_vector);
    }
    if forall|k: u8|
        0 <= k < 8 ==> ((#[trigger] (x >> k)) & 1u8 == 1u8) == ((y >> k) & 1u8 == 1u8) {
        let t0 = x >> 0u8;
        let t1 = x >> 1u8;
        let t2 = x >> 2u8;
        let t3 = x >> 3u8;
        let t4 = x >> 4u8;
        let t5 = x >> 5u8;
        let t6 = x >> 6u8;
        let t7 = x >> 7u8;
    }
}

/// The upper `bits` bits of two octets agree exactly when the octets agree
/// under the mask.
proof fn lemma_masked_octet(x: u8, y: u8, bits: u8)
    requires
        0 < bits < 8,
    ensures
        ((x & (0xFFu8 << ((8 - bits) as u8))) == (y & (0xFFu8 << ((8 - bits) as u8)))) <==> (
        forall|k: u8|
            8 - bits <= k < 8 ==> ((#[trigger] (x >> k)) & 1u8 == 1u8) == ((y >> k) & 1u8 == 1u8)),
{
    let s = (8 - bits) as u8;
    assert(1 <= s <= 7 ==> (((x & (0xFFu8 << s)) == (y & (0xFFu8 << s))) <==> ((s <= 1 ==> (x
        >> 1u8) & 1u8 == (y >> 1u8) & 1u8) && (s <= 2 ==> (x >> 2u8) & 1u8 == (y >> 2u8) & 1u8)
        && (s <= 3 ==> (x >> 3u8) & 1u8 == (y >> 3u8) & 1u8) && (s <= 4 ==> (x >> 4u8) & 1u8 == (y
        >> 4u8) & 1u8) && (s <= 5 ==> (x >> 5u8) & 1u8 == (y >> 5u8) & 1u8) && (s <= 6 ==> (x
        >> 6u8) & 1u8 == (y >> 6u8) & 1u8) && ((x >> 7u8) & 1u8 == (y >> 7u8) & 1u8))))
        by (bit_vector);
    assert forall|k: u8| #![trigger x >> k] 0 <= k < 8 implies {
        &&& ((x >> k) & 1u8 == 0u8 || (x >> k) & 1u8 == 1u8)
        &&& ((y >> k) & 1u8 == 0u8 || (y >> k) & 1u8 == 1u8)
    } by {
        assert((x >> k) & 1u8 == 0u8 || (x >> k) & 1u8 == 1u8) by (bit_vector);
        assert((y >> k) & 1u8 == 0u8 || (y >> k) & 1u8 == 1u8) by (bit_vector);
    }
    let t1 = x >> 1u8;
    let t2 = x >> 2u8;
    let t3 = x >> 3u8;
    let t4 = x >> 4u8;
    let t5 = x >> 5u8;
    let t6 = x >> 6u8;
    let t7 = x >> 7u8;
}

/// The number of leading bits that [`prefix_match`] looks at: those of the
/// prefix, as far as both rows reach.
pub open spec fn compared_bits(a: Seq<u8>, b: Seq<u8>, prefix: u8) -> int {
    let shorter = if a.len() <= b.len() {
        a.len()
    } else {
        b.len()
    };
    if prefix <= 8 * shorter {
        prefix as int
    } else {
        8 * shorter as int
    }
}

/// True when `a` and `b` agree on the first `prefix` bits, as far as both reach.
pub fn prefix_match(a: &[u8], b: &[u8], prefix: u8) -> (r: bool)
    ensures
        r == agree(a@, b@, compared_bits(a@, b@, prefix)),
{
    let ghost goal = compared_bits(a@, b@, prefix);
    let mut bits: usize = prefix as usize;
    let mut i: usize = 0;
    while i < a.len() && i < b.len() && bits > 0
        invariant
            goal == compared_bits(a@, b@, prefix),
            i <= a.len(),
            i <= b.len(),
            bits + 8 * i == prefix,
            agree(a@, b@, 8 * i as int),
        decreases a.len() - i,
    {
        let x: u8 = a[i];
        let y: u8 = b[i];
        if bits >= 8 {
            if x != y {
                proof {
                    lemma_octet_bits(x, y);
                    let k = choose|k: u8|
                        0 <= k < 8 && ((#[trigger] (x >> k)) & 1u8 == 1u8) != ((y >> k) & 1u8
                            == 1u8);
                    let j = 8 * i + 7 - k;
                    assert(j / 8 == i && (7 - j % 8) as u8 == k);
                    assert(bit(a@, j) != bit(b@, j));
                }
                return false;
            }
            assert forall|j: int| 0 <= j < 8 * i + 8 implies #[trigger] bit(a@, j) == bit(b@, j) by {
                if j >= 8 * i {
                    assert(j / 8 == i);
                }
            }
            bits -= 8;
        } else {
            // Compare the top `bits` bits of this octet.
            let mask: u8 = 0xFFu8 << ((8 - bits) as u8);
            let same: bool = (x & mask) == (y & mask);
            proof {
                lemma_masked_octet(x, y, bits as u8);
                if same {
                    assert forall|j: int| 0 <= j < goal implies #[trigger] bit(a@, j) == bit(b@, j) by {
                        if j >= 8 * i {
                            assert(j / 8 == i);
                            let k = (7 - j % 8) as u8;
                            assert(8 - bits <= k < 8);
                            let t = x >> k;
                        }
                    }
                } else {
                    let k = choose|k: u8|
                        8 - bits <= k < 8 && ((#[trigger] (x >> k)) & 1u8 == 1u8) != ((y >> k)
                            & 1u8 == 1u8);
                    let j = 8 * i + 7 - k;
                    assert(j / 8 == i && (7 - j % 8) as u8 == k);
                    assert(bit(a@, j) != bit(b@, j));
                }
            }
            return same;
        }
        i += 1;
    }
    true
}

/// Compares the high `prefix` bits of two addresses; addresses of different
/// families never match.
pub fn cidr_contains(network: IpAddress, prefix: u8, ip: IpAddress) -> (r: bool)
    ensures
        r == in_network(network, prefix, ip),
{
    match (network, ip) {
        (IpAddress::V4(net), IpAddress::V4(addr)) => prefix_match(
            net.as_slice(),
            addr.as_slice(),
            prefix,
        ),
        (IpAddress::V6(net), IpAddress::V6(addr)) => prefix_match(
            net.as_slice(),
            addr.as_slice(),
            prefix,
        ),
        _ => false,
    }
}

/// Whether the two are one address.
pub fn same_address(a: IpAddress, b: IpAddress) -> (r: bool)
    ensures
        r == a.same(b),
{
    match (a, b) {
        (IpAddress::V4(x), IpAddress::V4(y)) => same_octets(x.as_slice(), y.as_slice()),
        (IpAddress::V6(x), IpAddress::V6(y)) => same_octets(x.as_slice(), y.as_slice()),
        _ => false,
    }
}

fn same_octets(x: &[u8], y: &[u8]) -> (r: bool)
    ensures
        r == (x@ == y@),
{
    if x.len() != y.len() {
        return false;
    }
    let mut i: usize = 0;
    while i < x.len()
        invariant
            x.len() == y.len(),
            i <= x.len(),
            forall|j: int| 0 <= j < i ==> x@[j] == y@[j],
        decreases x.len() - i,
    {
        if x[i] != y[i] {
            return false;
        }
        i += 1;
    }
    assert(x@ =~= y@);
    true
}

// ---------------------------------------------------------------------------
// Notation
// ---------------------------------------------------------------------------

/// The network that `ipnetwork::IpNetwork` reads from a text, if any.
pub uninterp spec fn network_text(s: Seq<char>) -> Option<Network>;

/// `str::parse::<ipnetwork::IpNetwork>`: an address with an optional prefix after
/// a slash. The prefix fits the family; a text without a slash is a whole
/// address, whose prefix is the family's width; every refusal carries the same
/// message round the text.
#[verifier::external_body]
fn parse_ip_network(s: &str) -> (r: Result<Network, String>)
    ensures
        match r {
            Ok(net) => {
                &&& network_text(s@) == Some(net)
                &&& net.prefix <= net.address.width()
                &&& (!s@.contains('/') ==> net.prefix == net.address.width())
            },
            Err(e) => network_text(s@) is None && e@ == "invalid address: "@ + s@,
        },
{
    match s.parse::<ipnetwork::IpNetwork>() {
        Ok(ipnetwork::IpNetwork::V4(n)) => Ok(
            Network { address: IpAddress::V4(n.ip().octets()), prefix: n.prefix() },
        ),
        Ok(ipnetwork::IpNetwork::V6(n)) => Ok(
            Network { address: IpAddress::V6(n.ip().octets()), prefix: n.prefix() },
        ),
        Err(e) => Err(e.to_string()),
    }
}

/// Reads a network in CIDR notation, or a bare address as the network that
/// holds it alone.
pub fn parse_network(s: &str) -> (r: Result<Network, String>)
    ensures
        match r {
            Ok(net) => {
                &&& network_text(s@) == Some(net)
                &&& net.prefix <= net.address.width()
                &&& (!s@.contains('/') ==> net.prefix == net.address.width())
            },
            Err(e) => network_text(s@) is None && e@ == "invalid address: "@ + s@,
        },
{
    parse_ip_network(s)
}

/// The address that a text stands for: a network without a prefix.
pub open spec fn address_text(s: Seq<char>) -> Option<IpAddress> {
    if s.contains('/') {
        None
    } else {
        match network_text(s) {
            Some(net) => Some(net.address),
            None => None,
        }
    }
}

/// Reads an address.
pub fn parse_address(s: &str) -> (r: Option<IpAddress>)
    ensures
        r == address_text(s@),
{
    if text::contains_char(s, '/') {
        return None;
    }
    match parse_ip_network(s) {
        Ok(net) => Some(net.address),
        Err(_) => None,
    }
}

// ---------------------------------------------------------------------------
// What a network holds
// ---------------------------------------------------------------------------

/// An address lies in a network exactly where both are of one family, the octets
/// that the prefix covers whole are equal, and the upper bits of the octet that it
/// covers in part are.
pub proof fn law_network_holds_what_shares_the_prefix(network: IpAddress, prefix: u8, ip: IpAddress)
    requires
        prefix <= network.width(),
    ensures
        in_network(network, prefix, ip) <==> (network is V4) == (ip is V4) && (forall|j: int|
            0 <= j < prefix as int / 8 ==> #[trigger] network.octets()[j] == ip.octets()[j]) && (
        prefix % 8 > 0 ==> network.octets()[prefix as int / 8] >> ((8 - prefix % 8) as u8)
            == ip.octets()[prefix as int / 8] >> ((8 - prefix % 8) as u8)),
        network is V4 ==> network.width() == 32 && network.octets().len() == 4,
        network is V6 ==> network.width() == 128 && network.octets().len() == 16,
{
    let (a, b) = (network.octets(), ip.octets());
    let n = prefix as int / 8;
    let k = prefix % 8;
    if (network is V4) == (ip is V4) {
        if agree(a, b, prefix as int) {
            assert forall|j: int| 0 <= j < n implies #[trigger] a[j] == b[j] by {
                lemma_octet_bits(a[j], b[j]);
                assert forall|t: u8| 0 <= t < 8 implies ((#[trigger] (a[j] >> t)) & 1u8 == 1u8)
                    == ((b[j] >> t) & 1u8 == 1u8) by {
                    let i = 8 * j + 7 - t;
                    assert(i / 8 == j && (7 - i % 8) as u8 == t);
                    assert(bit(a, i) == bit(b, i));
                }
            }
        }
        if k > 0 {
            let (x, y) = (a[n], b[n]);
            let s = (8 - k) as u8;
            lemma_masked_octet(x, y, k);
            assert(1 <= s <= 7 ==> ((x & (0xFFu8 << s)) == (y & (0xFFu8 << s)) <==> x >> s == y
                >> s)) by (bit_vector);
            if agree(a, b, prefix as int) {
                assert forall|t: u8| 8 - k <= t < 8 implies ((#[trigger] (x >> t)) & 1u8 == 1u8)
                    == ((y >> t) & 1u8 == 1u8) by {
                    let i = 8 * n + 7 - t;
                    assert(i / 8 == n && (7 - i % 8) as u8 == t);
                    assert(bit(a, i) == bit(b, i));
                }
            }
        }
        if (forall|j: int| 0 <= j < n ==> #[trigger] a[j] == b[j]) && (k > 0 ==> a[n] >> ((8
            - k) as u8) == b[n] >> ((8 - k) as u8)) {
            assert forall|i: int| 0 <= i < prefix implies #[trigger] bit(a, i) == bit(b, i) by {
                let j = i / 8;
                if j < n {
                    assert(a[j] == b[j]);
                } else {
                    assert(j == n && k > 0);
                    let t = (7 - i % 8) as u8;
                    assert(8 - k <= t < 8);
                    let x = a[n];
                    assert((x >> t) & 1u8 == 1u8 || (x >> t) & 1u8 != 1u8);
                }
            }
        }
    }
}

/// A network without bits holds its whole family, one with all of them its own
/// address alone; a longer prefix holds no more, and every network its own
/// address.
pub proof fn law_prefixes_narrow_a_network(network: IpAddress, prefix: u8, longer: u8, ip: IpAddress)
    requires
        prefix <= longer <= network.width(),
    ensures
        in_network(network, 0, ip) <==> (network is V4) == (ip is V4),
        in_network(network, network.width() as u8, ip) <==> network.same(ip),
        in_network(network, longer, ip) ==> in_network(network, prefix, ip),
        in_network(network, prefix, network),
        in_network(network, prefix, ip) && prefix <= ip.width() ==> in_network(ip, prefix, network),
        network.same(ip) <==> (network is V4) == (ip is V4) && network.octets() == ip.octets(),
{
    law_network_holds_what_shares_the_prefix(network, network.width() as u8, ip);
    if in_network(network, network.width() as u8, ip) {
        assert(network.octets() =~= ip.octets());
    }
}

/// The bits of an octet are counted from its greatest to its least.
pub proof fn law_bits_count_from_the_greatest(octets: Seq<u8>, i: int)
    requires
        0 <= i < 8 * octets.len(),
    ensures
        i % 8 == 0 ==> (bit(octets, i) <==> octets[i / 8] >= 128),
        i % 8 == 7 ==> (bit(octets, i) <==> octets[i / 8] % 2 == 1),
{
    let x = octets[i / 8];
    assert((x >> 7u8) & 1u8 == 1u8 <==> x >= 128) by (bit_vector);
    assert((x >> 0u8) & 1u8 == 1u8 <==> x % 2 == 1) by (bit_vector);
}

/// A text stands for an address exactly where it stands for a network and has no
/// slash.
pub proof fn law_addresses_have_no_prefix(s: Seq<char>)
    ensures
        s.contains('/') ==> address_text(s) is None,
        !s.contains('/') && network_text(s) is Some ==> address_text(s) == Some(
            network_text(s)->0.address,
        ),
        network_text(s) is None ==> address_text(s) is None,
{
}

/// Rows of octets are compared on the whole prefix where both reach that far, and
/// otherwise on every bit of the shorter one.
pub proof fn law_rows_are_compared_as_far_as_they_reach(a: Seq<u8>, b: Seq<u8>, prefix: u8)
    ensures
        prefix <= 8 * a.len() && prefix <= 8 * b.len() ==> compared_bits(a, b, prefix) == prefix,
        a.len() <= b.len() && prefix > 8 * a.len() ==> compared_bits(a, b, prefix) == 8 * a.len(),
        compared_bits(a, b, prefix) == compared_bits(b, a, prefix),
{
}

} // verus!
