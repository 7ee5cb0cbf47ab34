//! Ranges of IPv4 addresses that share a prefix.

use vstd::prelude::*;

verus! {

/// The mask of a prefix length: as many bits set, from the top.
pub open spec fn mask_of(prefix: u8) -> u32 {
    if prefix == 0 {
        0
    } else {
        !0u32 << ((32 - prefix) as u32)
    }
}

/// The mask of a prefix length.
pub fn prefix_mask(prefix: u8) -> (r: u32)
    requires
        prefix <= 32,
    ensures
        r == mask_of(prefix),
        r + vstd::arithmetic::power2::pow2((32 - prefix) as nat) == 0x1_0000_0000,
{
    proof {
        a_prefix_leaves_its_share(prefix);
    }
    if prefix == 0 {
        0
    } else {
        !0u32 << ((32 - prefix) as u32)
    }
}

/// Whether an address has the bits of a network under its mask.
pub open spec fn in_network(network: u32, mask: u32, ip: u32) -> bool {
    ip & mask == network
}

/// Whether a network and a mask belong to a prefix of at most 32 bits, with no host bits set.
pub open spec fn is_network(network: u32, mask: u32) -> bool {
    &&& exists|prefix: u8| prefix <= 32 && #[trigger] mask_of(prefix) == mask
    &&& network & mask == network
}

/// How many addresses share a network.
pub open spec fn network_size(mask: u32) -> int {
    0x1_0000_0000 - mask
}

/// A network is an interval of addresses: from the network address on, as many as its size.
pub proof fn network_is_an_interval(network: u32, mask: u32, ip: u32)
    requires
        is_network(network, mask),
    ensures
        in_network(network, mask, ip) <==> network <= ip < network + network_size(mask),
        network + network_size(mask) <= 0x1_0000_0000,
        network_size(mask) == !mask + 1,
{
    let prefix = choose|prefix: u8| prefix <= 32 && #[trigger] mask_of(prefix) == mask;
    if prefix == 0 {
        assert(ip & 0 == 0) by (bit_vector);
        assert(network & 0 == 0) by (bit_vector);
        assert(!0u32 == 0xffff_ffffu32) by (bit_vector);
    } else {
        let shift = (32 - prefix) as u32;
        assert(!mask + mask == 0xffff_ffffu32) by (bit_vector);
        assert((ip & mask == network) <==> (network <= ip && ip <= network + !mask)) by (bit_vector)
            requires
                mask == !0u32 << shift,
                shift < 32,
                network & mask == network,
        ;
        assert(network + !mask <= 0xffff_ffffu32) by (bit_vector)
            requires
                network & mask == network,
        ;
    }
}

/// Taking the host bits off an address leaves a network that the address is in.
pub proof fn masking_makes_a_network(ip: u32, prefix: u8)
    requires
        prefix <= 32,
    ensures
        is_network(ip & mask_of(prefix), mask_of(prefix)),
        in_network(ip & mask_of(prefix), mask_of(prefix), ip),
{
    let mask = mask_of(prefix);
    assert((ip & mask) & mask == ip & mask) by (bit_vector);
    assert(mask_of(prefix) == mask);
}

/// A prefix of 32 bits is one address.
pub proof fn full_prefix_is_one_address(ip: u32, other: u32)
    ensures
        ip & mask_of(32) == ip,
        in_network(ip, mask_of(32), other) <==> ip == other,
{
    assert(ip & (!0u32 << 0u32) == ip) by (bit_vector);
    assert(other & (!0u32 << 0u32) == other) by (bit_vector);
}

/// A prefix of some length leaves as many addresses as the bits after it can tell apart.
pub proof fn a_prefix_leaves_its_share(prefix: u8)
    requires
        prefix <= 32,
    ensures
        network_size(mask_of(prefix)) == vstd::arithmetic::power2::pow2((32 - prefix) as nat),
{
    vstd::arithmetic::power2::lemma2_to64();
    if prefix > 0 {
        let shift = (32 - prefix) as u32;
        let wide = shift as u64;
        lemma_one_shifted(wide);
        assert((!0u32 << shift) + (1u64 << wide) == 0x1_0000_0000) by (bit_vector)
            requires
                shift < 32,
                wide == shift,
        ;
    }
}

proof fn lemma_one_shifted(shift: u64)
    requires
        shift < 32,
    ensures
        1u64 << shift == vstd::arithmetic::power2::pow2(shift as nat),
{
    vstd::arithmetic::power2::lemma2_to64();
    vstd::arithmetic::power2::lemma_pow2_strictly_increases(shift as nat, 32);
    vstd::bits::lemma_u64_shl_is_mul(1, shift);
}

/// The network of an address and a prefix length holds the addresses that have the same first bits, as
/// many as the length says, and no others.
pub proof fn networks_share_their_first_bits(ip: u32, other: u32, prefix: u8)
    requires
        prefix <= 32,
    ensures
        in_network(ip & mask_of(prefix), mask_of(prefix), other) <==> other as int
            / vstd::arithmetic::power2::pow2((32 - prefix) as nat) as int == ip as int
            / vstd::arithmetic::power2::pow2((32 - prefix) as nat) as int,
{
    vstd::arithmetic::power2::lemma2_to64();
    if prefix == 0 {
        assert(ip & 0u32 == 0u32 && other & 0u32 == 0u32) by (bit_vector);
        assert(ip as int / 0x1_0000_0000 == 0 && other as int / 0x1_0000_0000 == 0);
    } else {
        let shift = (32 - prefix) as u32;
        assert((other & (!0u32 << shift) == ip & (!0u32 << shift)) <==> (other >> shift == ip >> shift))
            by (bit_vector)
            requires
                shift < 32,
        ;
        vstd::bits::lemma_u32_shr_is_div(ip, shift);
        vstd::bits::lemma_u32_shr_is_div(other, shift);
        vstd::arithmetic::power2::lemma_pow2_pos(shift as nat);
    }
}

} // verus!
