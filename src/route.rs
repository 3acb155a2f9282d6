use crate::address::{Address, IpAddr};
use crate::filters::{
    block4, block6, bloom_add, bloom_members, bloom_might_contain, cidr4_of, cidr6_of, covered4,
    covered6, parse_cidr4, parse_cidr6, range4_add, range4_contains, range4_new, range4_simplify,
    range6_add, range6_contains, range6_new, range6_simplify, Ranges4, Ranges6,
};
use flit::BloomFilter;
use vstd::prelude::*;
use vstd::utf8::{
    encode_scalar, encode_utf8, encode_utf8_first_scalar, encode_utf8_valid_utf8,
    has_width_1_encoding, is_char_boundary,
    pop_first_scalar,
};

verus! {

/// How a destination is reached: straight from this host, or through the
/// upstream SOCKS5 proxy.
#[derive(Debug, Clone, Copy, PartialEq, Eq, Structural)]
pub enum Tag {
    Proxy,
    Direct,
}

impl Tag {
    /// `true` stands for `Direct`, `false` for `Proxy`.
    pub fn from_bool(b: bool) -> (r: Tag)
        ensures
            r == (if b { Tag::Direct } else { Tag::Proxy }),
    {
        match b {
            true => Tag::Direct,
            false => Tag::Proxy,
        }
    }
}

/// Where the lines of a list come from: a remote URL or a local file.
#[derive(Debug, Clone)]
pub enum Source {
    Url { url: String },
    Path { path: String },
}

/// The three lists that a router is built from.
#[derive(Debug, Clone)]
pub struct RouterConfig {
    pub cidr4: Source,
    pub cidr6: Source,
    pub domain: Source,
}

/// Why a router could not be built: the line at this index is no block.
#[derive(Debug, Clone, Copy, PartialEq, Eq, Structural)]
pub enum ConfigError {
    InvalidCidr4(usize),
    InvalidCidr6(usize),
}

/// Every line of the list is an IPv4 block.
pub open spec fn all_parse4(lines: Seq<String>) -> bool {
    forall|j: int| 0 <= j < lines.len() ==> (#[trigger] cidr4_of(lines[j]@)) is Some
}

/// Every line of the list is an IPv6 block.
pub open spec fn all_parse6(lines: Seq<String>) -> bool {
    forall|j: int| 0 <= j < lines.len() ==> (#[trigger] cidr6_of(lines[j]@)) is Some
}

/// Line `k` is the first line of the list that is no IPv4 block.
pub open spec fn first_bad4(lines: Seq<String>, k: int) -> bool {
    &&& 0 <= k < lines.len()
    &&& cidr4_of(lines[k]@) is None
    &&& all_parse4(lines.subrange(0, k))
}

/// Line `k` is the first line of the list that is no IPv6 block.
pub open spec fn first_bad6(lines: Seq<String>, k: int) -> bool {
    &&& 0 <= k < lines.len()
    &&& cidr6_of(lines[k]@) is None
    &&& all_parse6(lines.subrange(0, k))
}

/// The IPv4 addresses inside the blocks that the lines spell.
pub open spec fn cover4(lines: Seq<String>) -> Set<u32>
    decreases lines.len(),
{
    if lines.len() == 0 {
        Set::empty()
    } else {
        cover4(lines.drop_last()).union(
            match cidr4_of(lines.last()@) {
                Some((base, len)) => block4(base, len),
                None => Set::empty(),
            },
        )
    }
}

/// The IPv6 addresses inside the blocks that the lines spell.
pub open spec fn cover6(lines: Seq<String>) -> Set<u128>
    decreases lines.len(),
{
    if lines.len() == 0 {
        Set::empty()
    } else {
        cover6(lines.drop_last()).union(
            match cidr6_of(lines.last()@) {
                Some((base, len)) => block6(base, len),
                None => Set::empty(),
            },
        )
    }
}

/// The UTF-8 encodings of the lines.
pub open spec fn encoded_lines(lines: Seq<String>) -> Set<Seq<u8>> {
    Set::new(|b: Seq<u8>| exists|k: int| 0 <= k < lines.len() && encode_utf8(lines[k]@) == b)
}

/// Byte `i` of a domain is a `.`, which a probe starts after.
pub open spec fn probe_at(b: Seq<u8>, i: int) -> bool {
    0 <= i < b.len() && b[i] == 46
}

/// The bytes of a domain after position `i`.
pub open spec fn suffix_after(b: Seq<u8>, i: int) -> Seq<u8> {
    b.subrange(i + 1, b.len() as int)
}

/// Adds the IPv4 block of each line to an empty range set; on the first line
/// that is no block, gives its index.
fn build_v4(lines: &Vec<String>) -> (r: Result<Ranges4, usize>)
    ensures
        r is Ok <==> all_parse4(lines@),
        r matches Ok(rs) ==> covered4(rs) == cover4(lines@),
        r matches Err(k) ==> first_bad4(lines@, k as int),
{
    let mut ranges = range4_new();
    let mut j: usize = 0;
    while j < lines.len()
        invariant
            j <= lines@.len(),
            all_parse4(lines@.subrange(0, j as int)),
            covered4(ranges) == cover4(lines@.subrange(0, j as int)),
        decreases lines@.len() - j,
    {
        match parse_cidr4(lines[j].as_str()) {
            None => {
                return Err(j);
            },
            Some((base, len)) => {
                range4_add(&mut ranges, base, len);
                proof {
                    let pre = lines@.subrange(0, j as int);
                    let next = lines@.subrange(0, j + 1);
                    assert(next.drop_last() =~= pre);
                    assert(next.last() == lines@[j as int]);
                    assert forall|k: int| 0 <= k < next.len() implies (#[trigger] cidr4_of(
                        next[k]@,
                    )) is Some by {
                        if k < j {
                            assert(next[k] == pre[k]);
                        }
                    }
                }
            },
        }
        j += 1;
    }
    range4_simplify(&mut ranges);
    assert(lines@.subrange(0, lines@.len() as int) =~= lines@);
    Ok(ranges)
}

/// Adds the IPv6 block of each line to an empty range set; on the first line
/// that is no block, gives its index.
fn build_v6(lines: &Vec<String>) -> (r: Result<Ranges6, usize>)
    ensures
        r is Ok <==> all_parse6(lines@),
        r matches Ok(rs) ==> covered6(rs) == cover6(lines@),
        r matches Err(k) ==> first_bad6(lines@, k as int),
{
    let mut ranges = range6_new();
    let mut j: usize = 0;
    while j < lines.len()
        invariant
            j <= lines@.len(),
            all_parse6(lines@.subrange(0, j as int)),
            covered6(ranges) == cover6(lines@.subrange(0, j as int)),
        decreases lines@.len() - j,
    {
        match parse_cidr6(lines[j].as_str()) {
            None => {
                return Err(j);
            },
            Some((base, len)) => {
                range6_add(&mut ranges, base, len);
                proof {
                    let pre = lines@.subrange(0, j as int);
                    let next = lines@.subrange(0, j + 1);
                    assert(next.drop_last() =~= pre);
                    assert(next.last() == lines@[j as int]);
                    assert forall|k: int| 0 <= k < next.len() implies (#[trigger] cidr6_of(
                        next[k]@,
                    )) is Some by {
                        if k < j {
                            assert(next[k] == pre[k]);
                        }
                    }
                }
            },
        }
        j += 1;
    }
    range6_simplify(&mut ranges);
    assert(lines@.subrange(0, lines@.len() as int) =~= lines@);
    Ok(ranges)
}

/// Adds every line, as it stands, to the filter.
fn fill_domains(f: &mut BloomFilter<String>, lines: &Vec<String>)
    ensures
        bloom_members(*final(f)) == bloom_members(*old(f)).union(encoded_lines(lines@)),
{
    let ghost start = bloom_members(*f);
    let mut j: usize = 0;
    while j < lines.len()
        invariant
            j <= lines@.len(),
            bloom_members(*f) == start.union(encoded_lines(lines@.subrange(0, j as int))),
        decreases lines@.len() - j,
    {
        bloom_add(f, &lines[j]);
        proof {
            let pre = lines@.subrange(0, j as int);
            let next = lines@.subrange(0, j + 1);
            let item = encode_utf8(lines@[j as int]@);
            assert forall|b: Seq<u8>| encoded_lines(next).contains(b) <==> #[trigger] encoded_lines(
                pre,
            ).insert(item).contains(b) by {
                if encoded_lines(next).contains(b) {
                    let k = choose|k: int| 0 <= k < next.len() && encode_utf8(next[k]@) == b;
                    if k < j {
                        assert(pre[k] == next[k]);
                    }
                }
                if encoded_lines(pre).contains(b) {
                    let k = choose|k: int| 0 <= k < pre.len() && encode_utf8(pre[k]@) == b;
                    assert(pre[k] == next[k]);
                }
                if b == item {
                    assert(next[j as int] == lines@[j as int]);
                }
            }
            assert(encoded_lines(next) =~= encoded_lines(pre).insert(item));
            assert(start.union(encoded_lines(next)) =~= start.union(encoded_lines(pre)).insert(
                item,
            ));
        }
        j += 1;
    }
    assert(lines@.subrange(0, lines@.len() as int) =~= lines@);
}

/// Whether `line` spells an IPv4 block that holds `ip`.
pub open spec fn line_holds4(line: String, ip: u32) -> bool {
    match cidr4_of(line@) {
        Some((base, len)) => block4(base, len).contains(ip),
        None => false,
    }
}

/// Whether `line` spells an IPv6 block that holds `ip`.
pub open spec fn line_holds6(line: String, ip: u128) -> bool {
    match cidr6_of(line@) {
        Some((base, len)) => block6(base, len).contains(ip),
        None => false,
    }
}

/// The IPv4 addresses covered by the lines are those that one of the lines' blocks holds.
pub proof fn lemma_cover4(lines: Seq<String>, ip: u32)
    ensures
        cover4(lines).contains(ip) <==> exists|k: int|
            0 <= k < lines.len() && #[trigger] line_holds4(lines[k], ip),
    decreases lines.len(),
{
    if lines.len() > 0 {
        let pre = lines.drop_last();
        let last = lines.len() - 1;
        lemma_cover4(pre, ip);
        assert(lines.last() == lines[last]);
        if line_holds4(lines[last], ip) {
            assert(cover4(lines).contains(ip));
        }
        if cover4(lines).contains(ip) && !cover4(pre).contains(ip) {
            assert(line_holds4(lines[last], ip));
        }
        if exists|k: int| 0 <= k < lines.len() && #[trigger] line_holds4(lines[k], ip) {
            let k = choose|k: int| 0 <= k < lines.len() && #[trigger] line_holds4(lines[k], ip);
            if k < lines.len() - 1 {
                assert(line_holds4(pre[k], ip));
            }
        }
        if exists|k: int| 0 <= k < pre.len() && #[trigger] line_holds4(pre[k], ip) {
            let k = choose|k: int| 0 <= k < pre.len() && #[trigger] line_holds4(pre[k], ip);
            assert(line_holds4(lines[k], ip));
        }
    }
}

/// The IPv6 addresses covered by the lines are those that one of the lines' blocks holds.
pub proof fn lemma_cover6(lines: Seq<String>, ip: u128)
    ensures
        cover6(lines).contains(ip) <==> exists|k: int|
            0 <= k < lines.len() && #[trigger] line_holds6(lines[k], ip),
    decreases lines.len(),
{
    if lines.len() > 0 {
        let pre = lines.drop_last();
        let last = lines.len() - 1;
        lemma_cover6(pre, ip);
        assert(lines.last() == lines[last]);
        if line_holds6(lines[last], ip) {
            assert(cover6(lines).contains(ip));
        }
        if cover6(lines).contains(ip) && !cover6(pre).contains(ip) {
            assert(line_holds6(lines[last], ip));
        }
        if exists|k: int| 0 <= k < lines.len() && #[trigger] line_holds6(lines[k], ip) {
            let k = choose|k: int| 0 <= k < lines.len() && #[trigger] line_holds6(lines[k], ip);
            if k < lines.len() - 1 {
                assert(line_holds6(pre[k], ip));
            }
        }
        if exists|k: int| 0 <= k < pre.len() && #[trigger] line_holds6(pre[k], ip) {
            let k = choose|k: int| 0 <= k < pre.len() && #[trigger] line_holds6(pre[k], ip);
            assert(line_holds6(lines[k], ip));
        }
    }
}

/// A byte with its high bit set is never a `.`.
proof fn lemma_high_bytes_not_dot(x: u8)
    ensures
        (0x80u8 | x) != 46u8,
        (0xC0u8 | x) != 46u8,
        (0xE0u8 | x) != 46u8,
        (0xF0u8 | x) != 46u8,
{
    assert((0x80u8 | x) != 46u8) by (bit_vector);
    assert((0xC0u8 | x) != 46u8) by (bit_vector);
    assert((0xE0u8 | x) != 46u8) by (bit_vector);
    assert((0xF0u8 | x) != 46u8) by (bit_vector);
}

/// In UTF-8 a `.` byte is a whole character, so a character starts right after it.
pub proof fn lemma_dot_ends_char(chars: Seq<char>, i: int)
    requires
        0 <= i < encode_utf8(chars).len(),
        encode_utf8(chars)[i] == 46,
    ensures
        is_char_boundary(encode_utf8(chars), i + 1),
    decreases chars.len(),
{
    let bytes = encode_utf8(chars);
    encode_utf8_valid_utf8(chars);
    encode_utf8_first_scalar(chars);
    let c = chars[0] as u32;
    let head = encode_scalar(c);
    let rest = encode_utf8(chars.drop_first());
    assert(bytes == head + rest);
    assert(pop_first_scalar(bytes) =~= rest);
    if i < head.len() {
        assert(head[i] == 46);
        if !has_width_1_encoding(c) {
            lemma_high_bytes_not_dot(((c >> 6) & 0x1F) as u8);
            lemma_high_bytes_not_dot((c & 0x3F) as u8);
            lemma_high_bytes_not_dot(((c >> 12) & 0x0F) as u8);
            lemma_high_bytes_not_dot(((c >> 6) & 0x3F) as u8);
            lemma_high_bytes_not_dot(((c >> 18) & 0x7) as u8);
            lemma_high_bytes_not_dot(((c >> 12) & 0x3F) as u8);
            assert(false);
        }
        assert(is_char_boundary(rest, 0));
    } else {
        lemma_dot_ends_char(chars.drop_first(), i - head.len());
    }
}

/// The routing engine: IPv4 and IPv6 blocks that are reached directly, and a
/// Bloom filter of domains whose subdomains are reached directly.
pub struct Router {
    ipv4_filter: Ranges4,
    ipv6_filter: Ranges6,
    domain_filter: BloomFilter<String>,
}

impl Router {
    /// The IPv4 addresses routed directly.
    pub closed spec fn v4(&self) -> Set<u32> {
        covered4(self.ipv4_filter)
    }

    /// The IPv6 addresses routed directly.
    pub closed spec fn v6(&self) -> Set<u128> {
        covered6(self.ipv6_filter)
    }

    /// The encodings of the domains held in the filter.
    pub closed spec fn domains(&self) -> Set<Seq<u8>> {
        bloom_members(self.domain_filter)
    }

    /// Builds a router from the lines of the three lists. Each IPv4 and IPv6
    /// line must be a block in CIDR notation: the first one that is not fails
    /// the whole build, IPv4 lines checked before IPv6 ones. Each domain line
    /// is added as it stands to `domain_filter`, which the caller makes with
    /// room for that many lines.
    pub fn init(
        cidr4: &Vec<String>,
        cidr6: &Vec<String>,
        domains: &Vec<String>,
        domain_filter: BloomFilter<String>,
    ) -> (r: Result<Router, ConfigError>)
        ensures
            r is Ok <==> all_parse4(cidr4@) && all_parse6(cidr6@),
            r matches Err(ConfigError::InvalidCidr4(k)) ==> first_bad4(cidr4@, k as int),
            r matches Err(ConfigError::InvalidCidr6(k)) ==> all_parse4(cidr4@) && first_bad6(
                cidr6@,
                k as int,
            ),
            r matches Ok(rt) ==> {
                &&& rt.v4() == cover4(cidr4@)
                &&& rt.v6() == cover6(cidr6@)
                &&& rt.domains() == bloom_members(domain_filter).union(encoded_lines(domains@))
            },
    {
        let ipv4_filter = match build_v4(cidr4) {
            Ok(rs) => rs,
            Err(k) => {
                return Err(ConfigError::InvalidCidr4(k));
            },
        };
        let ipv6_filter = match build_v6(cidr6) {
            Ok(rs) => rs,
            Err(k) => {
                return Err(ConfigError::InvalidCidr6(k));
            },
        };
        let mut domain_filter = domain_filter;
        fill_domains(&mut domain_filter, domains);
        Ok(Router { ipv4_filter, ipv6_filter, domain_filter })
    }

    /// Classifies a destination. An IP address is `Direct` exactly when one of
    /// the blocks of its family holds it. A domain is probed with each suffix
    /// that follows one of its dots, from left to right, and is `Direct` on the
    /// first probe that the filter may hold; a member suffix always gives
    /// `Direct`, and a domain without a dot is always `Proxy`.
    pub fn match_tag(&self, addr: &Address) -> (r: Tag)
        ensures
            match addr {
                Address::SocketAddr(sa) => match sa.ip {
                    IpAddr::V4(ip) => (r == Tag::Direct) == self.v4().contains(ip),
                    IpAddr::V6(ip) => (r == Tag::Direct) == self.v6().contains(ip),
                },
                Address::Domain(d, _) => {
                    &&& (exists|i: int|
                        probe_at(encode_utf8(d@), i) && #[trigger] self.domains().contains(
                            suffix_after(encode_utf8(d@), i),
                        )) ==> r == Tag::Direct
                    &&& r == Tag::Direct ==> exists|i: int| probe_at(encode_utf8(d@), i)
                },
            },
    {
        match addr {
            Address::Domain(domain, _) => {
                let s: &str = domain.as_str();
                let bytes: &[u8] = s.as_bytes();
                let len: usize = bytes.len();
                let mut i: usize = 0;
                while i < len
                    invariant
                        match *addr {
                            Address::Domain(dd, _) => dd@ == domain@,
                            _ => false,
                        },
                        s@ == domain@,
                        bytes@ == encode_utf8(domain@),
                        len == bytes@.len(),
                        i <= len,
                        forall|j: int|
                            0 <= j < i && probe_at(bytes@, j) ==> !(#[trigger] self.domains().contains(
                                suffix_after(bytes@, j),
                            )),
                    decreases len - i,
                {
                    if bytes[i] == 46u8 {
                        proof {
                            lemma_dot_ends_char(domain@, i as int);
                        }
                        let (_, tail) = s.split_at(i + 1);
                        let suffix: String = tail.to_owned();
                        assert(encode_utf8(suffix@) == suffix_after(bytes@, i as int));
                        if bloom_might_contain(&self.domain_filter, &suffix) {
                            assert(probe_at(encode_utf8(domain@), i as int));
                            return Tag::from_bool(true);
                        }
                    }
                    i += 1;
                }
                Tag::from_bool(false)
            },
            Address::SocketAddr(sa) => match sa.ip {
                IpAddr::V4(ip) => Tag::from_bool(range4_contains(&self.ipv4_filter, ip)),
                IpAddr::V6(ip) => Tag::from_bool(range6_contains(&self.ipv6_filter, ip)),
            },
        }
    }
}

/// A router built from these IPv4 lines routes an IPv4 address directly
/// exactly when the block of one of the lines holds it, and through the proxy
/// when none does.
pub proof fn law_ipv4_blocks_decide(rt: Router, cidr4: Seq<String>, ip: u32)
    requires
        rt.v4() == cover4(cidr4),
    ensures
        rt.v4().contains(ip) <==> exists|k: int|
            0 <= k < cidr4.len() && #[trigger] line_holds4(cidr4[k], ip),
{
    lemma_cover4(cidr4, ip);
}

/// A router built from these IPv6 lines routes an IPv6 address directly
/// exactly when the block of one of the lines holds it, and through the proxy
/// when none does.
pub proof fn law_ipv6_blocks_decide(rt: Router, cidr6: Seq<String>, ip: u128)
    requires
        rt.v6() == cover6(cidr6),
    ensures
        rt.v6().contains(ip) <==> exists|k: int|
            0 <= k < cidr6.len() && #[trigger] line_holds6(cidr6[k], ip),
{
    lemma_cover6(cidr6, ip);
}

/// No false negative: when a router was built with domain lines, a domain one
/// of whose probed suffixes is exactly one of those lines finds it in the
/// filter, and is therefore routed directly.
pub proof fn law_listed_suffix_is_member(
    rt: Router,
    filter: BloomFilter<String>,
    domains: Seq<String>,
    d: Seq<char>,
    i: int,
    k: int,
)
    requires
        rt.domains() == bloom_members(filter).union(encoded_lines(domains)),
        0 <= k < domains.len(),
        probe_at(encode_utf8(d), i),
        suffix_after(encode_utf8(d), i) == encode_utf8(domains[k]@),
    ensures
        rt.domains().contains(suffix_after(encode_utf8(d), i)),
{
    assert(encoded_lines(domains).contains(encode_utf8(domains[k]@)));
}

/// A domain is never probed as a whole: each probe is strictly shorter than
/// the domain, so a domain without a dot is never probed at all.
pub proof fn law_probe_is_proper_suffix(b: Seq<u8>, i: int)
    requires
        probe_at(b, i),
    ensures
        suffix_after(b, i).len() < b.len(),
        suffix_after(b, i) != b,
{
}

} // verus!
