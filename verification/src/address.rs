//! IPv4 addresses, their texts, and address ranges.

use crate::text::{
    all_digits, chars_of, decimal_text, decimal_up_to, digit_value, digits_value, is_digit,
    lemma_first_index_unique, parse_decimal, push_decimal, same_text, split, split_at_each, texts,
    unsigned_part,
};
use vstd::arithmetic::power2::pow2;
use vstd::bits::lemma_u32_shr_is_div;
use vstd::prelude::*;

verus! {

/// An IPv4 address, as its four octets.
#[derive(Debug, Clone, Copy, PartialEq, Eq, Structural)]
pub struct Ipv4Addr {
    pub a: u8,
    pub b: u8,
    pub c: u8,
    pub d: u8,
}

impl Ipv4Addr {
    pub fn new(a: u8, b: u8, c: u8, d: u8) -> (r: Ipv4Addr)
        ensures
            r == (Ipv4Addr { a, b, c, d }),
    {
        Ipv4Addr { a, b, c, d }
    }

    /// The address as one number, the first octet being the most significant.
    pub open spec fn number(self) -> int {
        ((self.a * 256 + self.b) * 256 + self.c) * 256 + self.d
    }

    /// The address in dotted decimal notation, no octet with a leading zero.
    pub open spec fn dotted(self) -> Seq<char> {
        decimal_text(self.a as int) + seq!['.'] + (decimal_text(self.b as int) + seq!['.'] + (
        decimal_text(self.c as int) + seq!['.'] + decimal_text(self.d as int)))
    }

    /// Whether packets to the address are routed on the public internet: it lies in no block
    /// set aside for this network, private or shared use, loopback, the local link, multicast
    /// or the future. Blocks set aside for documentation count as public.
    pub open spec fn is_public(self) -> bool {
        !{
            ||| self.a == 0
            ||| self.a == 10
            ||| self.a == 100 && 64 <= self.b < 128
            ||| self.a == 127
            ||| self.a == 169 && self.b == 254
            ||| self.a == 172 && 16 <= self.b < 32
            ||| self.a == 192 && self.b == 168
            ||| self.a >= 224
        }
    }

    fn to_u32(self) -> (r: u32)
        ensures
            r == self.number(),
    {
        ((self.a as u32 * 256 + self.b as u32) * 256 + self.c as u32) * 256 + self.d as u32
    }

    /// Whether packets to the address are routed on the public internet.
    pub fn public(self) -> (r: bool)
        ensures
            r == self.is_public(),
    {
        !(self.a == 0 || self.a == 10 || (self.a == 100 && 64 <= self.b && self.b < 128) || self.a
            == 127 || (self.a == 169 && self.b == 254) || (self.a == 172 && 16 <= self.b && self.b
            < 32) || (self.a == 192 && self.b == 168) || self.a >= 224)
    }

    fn to_dotted(self) -> (r: String)
        ensures
            r@ == self.dotted(),
    {
        let mut r = String::new();
        push_decimal(&mut r, self.a as u32);
        r.push('.');
        push_decimal(&mut r, self.b as u32);
        r.push('.');
        push_decimal(&mut r, self.c as u32);
        r.push('.');
        push_decimal(&mut r, self.d as u32);
        assert(r@ =~= self.dotted());
        r
    }

    /// Reads an address in dotted decimal notation, no octet with a leading zero.
    pub fn parse(s: &[char]) -> (r: Option<Ipv4Addr>)
        ensures
            r == dotted_address(s@),
    {
        match read_address(s) {
            Some(addr) => {
                let canonical = chars_of(addr.to_dotted().as_str());
                if same_text(s, canonical.as_slice()) {
                    Some(addr)
                } else {
                    None
                }
            },
            None => None,
        }
    }
}

/// The octet that `s` spells: a number of at most 255.
pub open spec fn octet(s: Seq<char>) -> Option<u8> {
    match decimal_up_to(s, 255) {
        Some(n) => Some(n as u8),
        None => None,
    }
}

/// The address that `s` spells: four octets with a dot between each two.
pub open spec fn address_of(s: Seq<char>) -> Option<Ipv4Addr> {
    let p = split(s, '.');
    if p.len() == 4 {
        match (octet(p[0]), octet(p[1]), octet(p[2]), octet(p[3])) {
            (Some(a), Some(b), Some(c), Some(d)) => Some(Ipv4Addr { a, b, c, d }),
            _ => None,
        }
    } else {
        None
    }
}

/// The address of which `s` is the dotted decimal notation, no octet with a leading zero.
pub open spec fn dotted_address(s: Seq<char>) -> Option<Ipv4Addr> {
    match address_of(s) {
        Some(addr) => if s == addr.dotted() {
            Some(addr)
        } else {
            None
        },
        None => None,
    }
}

/// Reads a number of at most 255.
pub fn read_octet(s: &[char]) -> (r: Option<u8>)
    ensures
        r == octet(s@),
{
    match parse_decimal(s, 255) {
        Some(n) => Some(n as u8),
        None => None,
    }
}

/// Reads four octets with a dot between each two.
pub fn read_address(s: &[char]) -> (r: Option<Ipv4Addr>)
    ensures
        r == address_of(s@),
{
    let parts = split_at_each(s, '.');
    assert(parts@.len() == texts(parts@).len());
    if parts.len() != 4 {
        return None;
    }
    assert forall|i: int| 0 <= i < 4 implies (#[trigger] parts@[i])@ == split(s@, '.')[i] by {
        assert(texts(parts@)[i] == parts@[i]@);
    }
    match (read_octet(parts[0]), read_octet(parts[1]), read_octet(parts[2]), read_octet(parts[3])) {
        (Some(a), Some(b), Some(c), Some(d)) => Some(Ipv4Addr { a, b, c, d }),
        _ => None,
    }
}

/// Whether the text is four octets with a dot between each two.
pub fn is_ipv4(value: &str) -> (r: bool)
    ensures
        r == (address_of(value@) is Some),
{
    read_address(chars_of(value).as_slice()).is_some()
}

pub proof fn lemma_decimal_text(n: int)
    requires
        n >= 0,
    ensures
        decimal_text(n).len() > 0,
        all_digits(decimal_text(n)),
        digits_value(decimal_text(n)) == n,
    decreases n,
{
    let s = decimal_text(n);
    if n < 10 {
        assert(s.drop_last() =~= Seq::<char>::empty());
        assert(digits_value(s.drop_last()) == 0);
        assert(digit_value(s.last()) == n);
    } else {
        lemma_decimal_text(n / 10);
        assert(s.drop_last() =~= decimal_text(n / 10));
        assert(digit_value(s.last()) == n % 10);
        assert forall|i: int| 0 <= i < s.len() implies is_digit(#[trigger] s[i]) by {
            if i < s.len() - 1 {
                assert(is_digit(decimal_text(n / 10)[i]));
            }
        }
    }
}

pub proof fn lemma_decimal_text_is_octet(n: u8)
    ensures
        octet(decimal_text(n as int)) == Some(n),
        !decimal_text(n as int).contains('.'),
{
    let s = decimal_text(n as int);
    lemma_decimal_text(n as int);
    assert(is_digit(s[0]));
    assert(unsigned_part(s) == s);
    assert forall|i: int| 0 <= i < s.len() implies s[i] != '.' by {
        assert(is_digit(s[i]));
    }
}

/// Splitting takes off the front part where that holds no separator.
pub proof fn lemma_split_front(front: Seq<char>, rest: Seq<char>, c: char)
    requires
        !front.contains(c),
    ensures
        split(front + seq![c] + rest, c) == seq![front] + split(rest, c),
{
    let s = front + seq![c] + rest;
    assert forall|j: int| 0 <= j < front.len() implies s[j] != c by {
        assert(front.contains(front[j]));
    }
    lemma_first_index_unique(s, c, front.len() as int);
    assert(s.take(front.len() as int) =~= front);
    assert(s.skip(front.len() as int + 1) =~= rest);
}

/// A text without the separator is its own only part.
pub proof fn lemma_split_whole(s: Seq<char>, c: char)
    requires
        !s.contains(c),
    ensures
        split(s, c) == seq![s],
{
    assert forall|j: int| 0 <= j < s.len() implies s[j] != c by {
        assert(s.contains(s[j]));
    }
    lemma_first_index_unique(s, c, s.len() as int);
}

/// The dotted notation of an address spells that address.
pub proof fn lemma_dotted_is_an_address(addr: Ipv4Addr)
    ensures
        address_of(addr.dotted()) == Some(addr),
{
    let (a, b, c, d) = (
        decimal_text(addr.a as int),
        decimal_text(addr.b as int),
        decimal_text(addr.c as int),
        decimal_text(addr.d as int),
    );
    lemma_decimal_text_is_octet(addr.a);
    lemma_decimal_text_is_octet(addr.b);
    lemma_decimal_text_is_octet(addr.c);
    lemma_decimal_text_is_octet(addr.d);
    let cd = c + seq!['.'] + d;
    let bcd = b + seq!['.'] + cd;
    lemma_split_front(a, bcd, '.');
    lemma_split_front(b, cd, '.');
    lemma_split_front(c, d, '.');
    lemma_split_whole(d, '.');
    assert(split(addr.dotted(), '.') =~= seq![a, b, c, d]);
}

/// The dotted notation of an address holds digits and dots, with a digit at each end.
pub proof fn lemma_dotted_is_token(addr: Ipv4Addr)
    ensures
        addr.dotted().len() > 0,
        forall|i: int| 0 <= i < addr.dotted().len() ==> ({
            let c = #[trigger] addr.dotted()[i];
            is_digit(c) || c == '.'
        }),
        is_digit(addr.dotted()[0]),
        is_digit(addr.dotted().last()),
{
    lemma_decimal_text(addr.a as int);
    lemma_decimal_text(addr.b as int);
    lemma_decimal_text(addr.c as int);
    lemma_decimal_text(addr.d as int);
    let s = addr.dotted();
    let (a, b, c, d) = (
        decimal_text(addr.a as int),
        decimal_text(addr.b as int),
        decimal_text(addr.c as int),
        decimal_text(addr.d as int),
    );
    assert forall|i: int| 0 <= i < s.len() implies ({
        let c = #[trigger] s[i];
        is_digit(c) || c == '.'
    }) by {
        let (la, lb, lc) = (a.len() as int, b.len() as int, c.len() as int);
        if i < la {
            assert(s[i] == a[i]);
        } else if la < i < la + 1 + lb {
            assert(s[i] == b[i - la - 1]);
        } else if la + 1 + lb < i < la + lb + lc + 2 {
            assert(s[i] == c[i - la - lb - 2]);
        } else if la + lb + lc + 2 < i {
            assert(s[i] == d[i - la - lb - lc - 3]);
        }
    }
    assert(s[0] == a[0]);
    assert(s.last() == d.last());
    assert(is_digit(a[0]));
    assert(is_digit(d[d.len() - 1]));
}

/// Reading undoes writing: a text reads as an address exactly where it is that address's
/// dotted notation.
pub proof fn law_dotted_round_trip(s: Seq<char>, addr: Ipv4Addr)
    ensures
        dotted_address(s) == Some(addr) <==> s == addr.dotted(),
{
    if s == addr.dotted() {
        lemma_dotted_is_an_address(addr);
    }
}

/// Whether the first `prefix_len` bits of the two addresses are the same.
pub open spec fn in_cidr_spec(ip: Ipv4Addr, network: Ipv4Addr, prefix_len: int) -> bool {
    let size = pow2((32 - prefix_len) as nat) as int;
    ip.number() / size == network.number() / size
}

/// Whether the first `prefix_len` bits of the two addresses are the same.
pub fn in_cidr(ip: &Ipv4Addr, network: &Ipv4Addr, prefix_len: u8) -> (r: bool)
    requires
        prefix_len <= 32,
    ensures
        r == in_cidr_spec(*ip, *network, prefix_len as int),
{
    if prefix_len == 0 {
        proof {
            vstd::arithmetic::power2::lemma2_to64();
            assert(0 <= ip.number() < 0x1_0000_0000);
            assert(0 <= network.number() < 0x1_0000_0000);
            assert(pow2(32) == 0x1_0000_0000);
            assert(pow2((32 - prefix_len) as nat) as int == 0x1_0000_0000);
            assert(ip.number() / 0x1_0000_0000 == 0);
            assert(network.number() / 0x1_0000_0000 == 0);
        }
        return true;
    }
    let shift: u32 = 32 - prefix_len as u32;
    let mask: u32 = !0u32 << shift;
    let ip_bits = ip.to_u32();
    let net_bits = network.to_u32();
    proof {
        assert(((ip_bits & (!0u32 << shift)) == (net_bits & (!0u32 << shift))) == (
        (ip_bits >> shift) == (net_bits >> shift))) by (bit_vector)
            requires
                shift < 32,
        ;
        lemma_u32_shr_is_div(ip_bits, shift);
        lemma_u32_shr_is_div(net_bits, shift);
    }
    (ip_bits & mask) == (net_bits & mask)
}

/// A range of addresses holds its own network address, whatever its prefix length.
pub proof fn law_range_holds_its_network(network: Ipv4Addr, prefix_len: int)
    requires
        0 <= prefix_len <= 32,
    ensures
        in_cidr_spec(network, network, prefix_len),
{
}

/// The range with prefix length 0 holds every address.
pub proof fn law_empty_prefix_holds_all(ip: Ipv4Addr, network: Ipv4Addr)
    ensures
        in_cidr_spec(ip, network, 0),
{
    vstd::arithmetic::power2::lemma2_to64();
    assert(pow2((32 - 0int) as nat) as int == 0x1_0000_0000);
    assert(ip.number() / 0x1_0000_0000 == 0);
    assert(network.number() / 0x1_0000_0000 == 0);
}

/// The range with prefix length 32 holds its own address and no other.
pub proof fn law_full_prefix_is_one_address(ip: Ipv4Addr, network: Ipv4Addr)
    ensures
        in_cidr_spec(ip, network, 32) <==> ip == network,
{
    vstd::arithmetic::power2::lemma2_to64();
    assert(pow2((32 - 32int) as nat) as int == 1);
    assert(ip.number() / 1 == ip.number());
    assert(network.number() / 1 == network.number());
}

/// A longer prefix narrows a range: what it holds, every shorter prefix holds too.
pub proof fn law_longer_prefix_narrows(ip: Ipv4Addr, network: Ipv4Addr, short: int, long: int)
    requires
        0 <= short <= long <= 32,
        in_cidr_spec(ip, network, long),
    ensures
        in_cidr_spec(ip, network, short),
{
    let small = pow2((32 - long) as nat) as int;
    let factor = pow2((long - short) as nat) as int;
    vstd::arithmetic::power2::lemma_pow2_pos((32 - long) as nat);
    vstd::arithmetic::power2::lemma_pow2_pos((long - short) as nat);
    vstd::arithmetic::power2::lemma_pow2_adds((32 - long) as nat, (long - short) as nat);
    vstd::arithmetic::div_mod::lemma_div_denominator(ip.number(), small, factor);
    vstd::arithmetic::div_mod::lemma_div_denominator(network.number(), small, factor);
}

} // verus!
