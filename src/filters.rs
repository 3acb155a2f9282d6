use flit::BloomFilter;
use ipnet::{Ipv4Net, Ipv6Net};
use iprange::IpRange;
use vstd::arithmetic::power2::pow2;
use vstd::prelude::*;
use vstd::utf8::encode_utf8;

verus! {

/// A set of IPv4 blocks, kept in iprange's trie.
#[verifier::external_body]
pub struct Ranges4 {
    inner: IpRange<Ipv4Net>,
}

/// A set of IPv6 blocks, kept in iprange's trie.
#[verifier::external_body]
pub struct Ranges6 {
    inner: IpRange<Ipv6Net>,
}

#[verifier::external_type_specification]
#[verifier::external_body]
#[verifier::reject_recursive_types(T)]
pub struct ExBloomFilter<T>(BloomFilter<T>);

/// Whether `ip` lies in the IPv4 block whose first `len` bits are those of `base`.
pub open spec fn in_block4(base: u32, len: u8, ip: u32) -> bool {
    let unit = pow2((32 - len) as nat) as int;
    ip as int / unit == base as int / unit
}

/// Whether `ip` lies in the IPv6 block whose first `len` bits are those of `base`.
pub open spec fn in_block6(base: u128, len: u8, ip: u128) -> bool {
    let unit = pow2((128 - len) as nat) as int;
    ip as int / unit == base as int / unit
}

/// The addresses of an IPv4 block.
pub open spec fn block4(base: u32, len: u8) -> Set<u32> {
    Set::new(|ip: u32| in_block4(base, len, ip))
}

/// The addresses of an IPv6 block.
pub open spec fn block6(base: u128, len: u8) -> Set<u128> {
    Set::new(|ip: u128| in_block6(base, len, ip))
}

/// What ipnet's parser makes of an IPv4 block written as text: its address and
/// prefix length, or nothing where the text is no such block.
pub uninterp spec fn cidr4_of(s: Seq<char>) -> Option<(u32, u8)>;

/// What ipnet's parser makes of an IPv6 block written as text.
pub uninterp spec fn cidr6_of(s: Seq<char>) -> Option<(u128, u8)>;

/// The IPv4 addresses that a range set covers.
pub uninterp spec fn covered4(r: Ranges4) -> Set<u32>;

/// The IPv6 addresses that a range set covers.
pub uninterp spec fn covered6(r: Ranges6) -> Set<u128>;

/// The UTF-8 encodings of the strings added to a Bloom filter.
pub uninterp spec fn bloom_members(f: BloomFilter<String>) -> Set<Seq<u8>>;

/// Relies on `<Ipv4Net as FromStr>::from_str` (ipnet): the block's address and
/// prefix length, the latter at most 32.
#[verifier::external_body]
pub(crate) fn parse_cidr4(s: &str) -> (r: Option<(u32, u8)>)
    ensures
        r == cidr4_of(s@),
        r matches Some((_, len)) ==> len <= 32,
{
    s.parse::<Ipv4Net>().ok().map(|n| (u32::from(n.addr()), n.prefix_len()))
}

/// Relies on `<Ipv6Net as FromStr>::from_str` (ipnet): the block's address and
/// prefix length, the latter at most 128.
#[verifier::external_body]
pub(crate) fn parse_cidr6(s: &str) -> (r: Option<(u128, u8)>)
    ensures
        r == cidr6_of(s@),
        r matches Some((_, len)) ==> len <= 128,
{
    s.parse::<Ipv6Net>().ok().map(|n| (u128::from(n.addr()), n.prefix_len()))
}

/// Relies on `IpRange::new` (iprange): a range set that covers nothing.
#[verifier::external_body]
pub(crate) fn range4_new() -> (r: Ranges4)
    ensures
        covered4(r) == Set::<u32>::empty(),
{
    Ranges4 { inner: IpRange::new() }
}

/// Relies on `IpRange::new` (iprange): a range set that covers nothing.
#[verifier::external_body]
pub(crate) fn range6_new() -> (r: Ranges6)
    ensures
        covered6(r) == Set::<u128>::empty(),
{
    Ranges6 { inner: IpRange::new() }
}

/// Relies on `IpRange::add` (iprange), with the block built by
/// `Ipv4Net::new_assert` (ipnet, which panics only for a length over 32): the
/// block's addresses join the covered ones.
#[verifier::external_body]
pub(crate) fn range4_add(r: &mut Ranges4, base: u32, len: u8)
    requires
        len <= 32,
    ensures
        covered4(*final(r)) == covered4(*old(r)).union(block4(base, len)),
{
    r.inner.add(Ipv4Net::new_assert(base.into(), len));
}

/// Relies on `IpRange::add` (iprange), with the block built by
/// `Ipv6Net::new_assert` (ipnet, which panics only for a length over 128).
#[verifier::external_body]
pub(crate) fn range6_add(r: &mut Ranges6, base: u128, len: u8)
    requires
        len <= 128,
    ensures
        covered6(*final(r)) == covered6(*old(r)).union(block6(base, len)),
{
    r.inner.add(Ipv6Net::new_assert(base.into(), len));
}

/// Relies on `IpRange::simplify` (iprange): merges blocks, covering the same addresses.
#[verifier::external_body]
pub(crate) fn range4_simplify(r: &mut Ranges4)
    ensures
        covered4(*final(r)) == covered4(*old(r)),
{
    r.inner.simplify();
}

/// Relies on `IpRange::simplify` (iprange): merges blocks, covering the same addresses.
#[verifier::external_body]
pub(crate) fn range6_simplify(r: &mut Ranges6)
    ensures
        covered6(*final(r)) == covered6(*old(r)),
{
    r.inner.simplify();
}

/// Relies on `IpRange::contains` (iprange) on a single address.
#[verifier::external_body]
pub(crate) fn range4_contains(r: &Ranges4, ip: u32) -> (b: bool)
    ensures
        b == covered4(*r).contains(ip),
{
    r.inner.contains(&ip)
}

/// Relies on `IpRange::contains` (iprange) on a single address.
#[verifier::external_body]
pub(crate) fn range6_contains(r: &Ranges6, ip: u128) -> (b: bool)
    ensures
        b == covered6(*r).contains(ip),
{
    r.inner.contains(&ip)
}

/// Relies on `BloomFilter::add` (flit): the item becomes a member.
#[verifier::external_body]
pub(crate) fn bloom_add(f: &mut BloomFilter<String>, item: &String)
    ensures
        bloom_members(*final(f)) == bloom_members(*old(f)).insert(encode_utf8(item@)),
{
    f.add(item);
}

/// Relies on `BloomFilter::might_contain` (flit): never false for a member;
/// for another item the answer may be either.
#[verifier::external_body]
pub(crate) fn bloom_might_contain(f: &BloomFilter<String>, item: &String) -> (b: bool)
    ensures
        bloom_members(*f).contains(encode_utf8(item@)) ==> b,
{
    f.might_contain(item)
}

} // verus!
