//! What addresses and ranges come to, in terms of parts and bits.

use crate::address::{
    address_of, dotted_address, in_cidr_spec, lemma_dotted_is_an_address, lemma_split_front,
    lemma_split_whole, octet, Ipv4Addr,
};
use crate::text::{
    decimal, decimal_text, first_index, lemma_digits_value_grows, lemma_first_index, split,
    unsigned_part,
};
use vstd::arithmetic::div_mod::{lemma_div_denominator, lemma_fundamental_div_mod_converse};
use vstd::arithmetic::power2::{lemma2_to64, lemma_pow2_adds, lemma_pow2_pos, pow2};
use vstd::prelude::*;

verus! {

/// Four parts with a dot between each two.
pub open spec fn dotted_parts(a: Seq<char>, b: Seq<char>, c: Seq<char>, d: Seq<char>) -> Seq<char> {
    a + seq!['.'] + (b + seq!['.'] + (c + seq!['.'] + d))
}

/// Whether the text reads as a number of one octet, and as this one.
pub open spec fn reads_as(text: Seq<char>, value: u8) -> bool {
    decimal(text) == Some(value as int)
}

/// Four numbers of one octet each, with a dot between each two, spell the address of these
/// octets, in this order.
pub proof fn law_four_octets_spell_an_address(
    a: Seq<char>,
    b: Seq<char>,
    c: Seq<char>,
    d: Seq<char>,
    addr: Ipv4Addr,
)
    requires
        !a.contains('.') && !b.contains('.') && !c.contains('.') && !d.contains('.'),
        reads_as(a, addr.a) && reads_as(b, addr.b) && reads_as(c, addr.c) && reads_as(d, addr.d),
    ensures
        address_of(dotted_parts(a, b, c, d)) == Some(addr),
{
    let cd = c + seq!['.'] + d;
    let bcd = b + seq!['.'] + cd;
    lemma_split_front(a, bcd, '.');
    lemma_split_front(b, cd, '.');
    lemma_split_front(c, d, '.');
    lemma_split_whole(d, '.');
    assert(split(dotted_parts(a, b, c, d), '.') =~= seq![a, b, c, d]);
}

proof fn lemma_split_takes_front(s: Seq<char>, c: char)
    requires
        split(s, c).len() > 1,
    ensures
        !split(s, c)[0].contains(c),
        s == split(s, c)[0] + seq![c] + s.skip(split(s, c)[0].len() as int + 1),
        split(s.skip(split(s, c)[0].len() as int + 1), c) == split(s, c).skip(1),
{
    lemma_first_index(s, c);
    let i = first_index(s, c);
    let front = s.take(i);
    assert(split(s, c)[0] == front);
    assert forall|j: int| 0 <= j < front.len() implies front[j] != c by {
        assert(front[j] == s[j]);
    }
    assert(s =~= front + seq![c] + s.skip(i + 1));
    assert(split(s, c).skip(1) =~= split(s.skip(i + 1), c));
}

proof fn lemma_split_alone(s: Seq<char>, c: char)
    requires
        split(s, c).len() == 1,
    ensures
        split(s, c)[0] == s,
        !s.contains(c),
{
    lemma_first_index(s, c);
    let i = first_index(s, c);
    if i < s.len() {
        let rest = s.skip(i + 1);
        assert(split(rest, c).len() > 0);
    }
    assert forall|j: int| 0 <= j < s.len() implies s[j] != c by {}
}

/// Only such a text spells an address.
pub proof fn law_only_four_octets_spell_an_address(s: Seq<char>, addr: Ipv4Addr)
    requires
        address_of(s) == Some(addr),
    ensures
        exists|a: Seq<char>, b: Seq<char>, c: Seq<char>, d: Seq<char>|
            {
                &&& s == #[trigger] dotted_parts(a, b, c, d)
                &&& !a.contains('.') && !b.contains('.') && !c.contains('.') && !d.contains('.')
                &&& reads_as(a, addr.a) && reads_as(b, addr.b)
                &&& reads_as(c, addr.c) && reads_as(d, addr.d)
            },
{
    let p = split(s, '.');
    let (a, b, c, d) = (p[0], p[1], p[2], p[3]);
    lemma_split_takes_front(s, '.');
    let s1 = s.skip(a.len() as int + 1);
    lemma_split_takes_front(s1, '.');
    let s2 = s1.skip(b.len() as int + 1);
    lemma_split_takes_front(s2, '.');
    let s3 = s2.skip(c.len() as int + 1);
    lemma_split_alone(s3, '.');
    assert(split(s1, '.')[0] == b);
    assert(split(s2, '.')[0] == c);
    assert(split(s3, '.')[0] == d);
    assert(s == dotted_parts(a, b, c, d));
    assert(octet(a) is Some && octet(b) is Some && octet(c) is Some && octet(d) is Some);
    assert(decimal(a) is Some && 0 <= decimal(a)->0 <= 255) by {
        lemma_decimal_is_not_negative(a);
    }
    assert(decimal(b) is Some && 0 <= decimal(b)->0 <= 255) by {
        lemma_decimal_is_not_negative(b);
    }
    assert(decimal(c) is Some && 0 <= decimal(c)->0 <= 255) by {
        lemma_decimal_is_not_negative(c);
    }
    assert(decimal(d) is Some && 0 <= decimal(d)->0 <= 255) by {
        lemma_decimal_is_not_negative(d);
    }
}

pub proof fn lemma_decimal_is_not_negative(s: Seq<char>)
    ensures
        decimal(s) matches Some(n) ==> n >= 0,
{
    if decimal(s) is Some {
        let digits = unsigned_part(s);
        lemma_digits_value_grows(digits, digits.len() as int);
    }
}

/// The dotted notation has the decimal notation of each octet as a part, in order.
pub proof fn law_dotted_notation_has_the_octets(addr: Ipv4Addr)
    ensures
        addr.dotted() == dotted_parts(
            decimal_text(addr.a as int),
            decimal_text(addr.b as int),
            decimal_text(addr.c as int),
            decimal_text(addr.d as int),
        ),
        address_of(addr.dotted()) == Some(addr),
        dotted_address(addr.dotted()) == Some(addr),
{
    lemma_dotted_is_an_address(addr);
}

/// The bit at place `j` of an address, the first bit of the first octet being at place 0.
pub open spec fn bit_of(addr: Ipv4Addr, j: int) -> int {
    let octet: u8 = if j < 8 {
        addr.a
    } else if j < 16 {
        addr.b
    } else if j < 24 {
        addr.c
    } else {
        addr.d
    };
    (octet as int / pow2((7 - j % 8) as nat) as int) % 2
}

/// Whether the first `n` bits of the two addresses are the same.
pub open spec fn same_leading_bits(x: Ipv4Addr, y: Ipv4Addr, n: int) -> bool {
    forall|j: int| 0 <= j < n ==> #[trigger] bit_of(x, j) == bit_of(y, j)
}

proof fn lemma_low_octet_bit(high: int, o: u8, t: int)
    requires
        0 <= high,
        0 <= t < 8,
    ensures
        ((high * 256 + o) / pow2(t as nat) as int) % 2 == (o as int / pow2(t as nat) as int) % 2,
{
    lemma2_to64();
    let x = high * 256 + o;
    let n = o as int;
    if t == 0 {
        assert(x / 1 == x && n / 1 == n);
        assert(x % 2 == n % 2);
    } else if t == 1 {
        assert(x / 2 == high * 128 + n / 2);
        assert((x / 2) % 2 == (n / 2) % 2);
    } else if t == 2 {
        assert(x / 4 == high * 64 + n / 4);
        assert((x / 4) % 2 == (n / 4) % 2);
    } else if t == 3 {
        assert(x / 8 == high * 32 + n / 8);
        assert((x / 8) % 2 == (n / 8) % 2);
    } else if t == 4 {
        assert(x / 16 == high * 16 + n / 16);
        assert((x / 16) % 2 == (n / 16) % 2);
    } else if t == 5 {
        assert(x / 32 == high * 8 + n / 32);
        assert((x / 32) % 2 == (n / 32) % 2);
    } else if t == 6 {
        assert(x / 64 == high * 4 + n / 64);
        assert((x / 64) % 2 == (n / 64) % 2);
    } else {
        assert(x / 128 == high * 2 + n / 128);
        assert((x / 128) % 2 == (n / 128) % 2);
    }
}

proof fn lemma_number_bit(addr: Ipv4Addr, j: int)
    requires
        0 <= j < 32,
    ensures
        (addr.number() / pow2((31 - j) as nat) as int) % 2 == bit_of(addr, j),
{
    lemma2_to64();
    let n = addr.number();
    let (a, b, c, d) = (addr.a as int, addr.b as int, addr.c as int, addr.d as int);
    let t = 7 - j % 8;
    let q = 3 - j / 8;
    let base = pow2((8 * q) as nat) as int;
    lemma_pow2_pos((8 * q) as nat);
    lemma_pow2_pos(t as nat);
    lemma_pow2_adds((8 * q) as nat, t as nat);
    assert(31 - j == 8 * q + t);
    lemma_div_denominator(n, base, pow2(t as nat) as int);
    if j < 8 {
        assert(q == 3 && base == 0x100_0000);
        assert(n / 0x100_0000 == a);
        lemma_low_octet_bit(0, addr.a, t);
    } else if j < 16 {
        assert(q == 2 && base == 0x1_0000);
        assert(n / 0x1_0000 == a * 256 + b);
        lemma_low_octet_bit(a, addr.b, t);
    } else if j < 24 {
        assert(q == 1 && base == 0x100);
        assert(n / 0x100 == (a * 256 + b) * 256 + c);
        lemma_low_octet_bit(a * 256 + b, addr.c, t);
    } else {
        assert(q == 0 && base == 1);
        assert(n / 1 == n);
        lemma_low_octet_bit((a * 256 + b) * 256 + c, addr.d, t);
    }
}

proof fn lemma_one_bit_more(addr: Ipv4Addr, n: int)
    requires
        0 <= n < 32,
    ensures
        addr.number() / pow2((31 - n) as nat) as int == 2 * (addr.number() / pow2(
            (32 - n) as nat,
        ) as int) + bit_of(addr, n),
{
    lemma_number_bit(addr, n);
    lemma_pow2_pos((31 - n) as nat);
    lemma_pow2_adds((31 - n) as nat, 1);
    lemma2_to64();
    lemma_div_denominator(addr.number(), pow2((31 - n) as nat) as int, 2);
}

/// A range holds exactly the addresses that agree with its network in the first bits, as many as
/// the prefix is long.
pub proof fn law_range_is_its_leading_bits(ip: Ipv4Addr, network: Ipv4Addr, prefix_len: int)
    requires
        0 <= prefix_len <= 32,
    ensures
        in_cidr_spec(ip, network, prefix_len) <==> same_leading_bits(ip, network, prefix_len),
    decreases prefix_len,
{
    if prefix_len == 0 {
        lemma2_to64();
        assert(pow2((32 - 0int) as nat) as int == 0x1_0000_0000);
        assert(ip.number() / 0x1_0000_0000 == 0);
        assert(network.number() / 0x1_0000_0000 == 0);
    } else {
        let n = prefix_len - 1;
        law_range_is_its_leading_bits(ip, network, n);
        lemma_one_bit_more(ip, n);
        lemma_one_bit_more(network, n);
        assert((32 - prefix_len) as nat == (31 - n) as nat);
        assert(bit_of(ip, n) == 0 || bit_of(ip, n) == 1);
        assert(bit_of(network, n) == 0 || bit_of(network, n) == 1);
        if in_cidr_spec(ip, network, prefix_len) {
            assert forall|j: int| 0 <= j < prefix_len implies #[trigger] bit_of(ip, j) == bit_of(
                network,
                j,
            ) by {
                if j < n {
                    assert(in_cidr_spec(ip, network, n));
                }
            }
        }
        if same_leading_bits(ip, network, prefix_len) {
            assert(bit_of(ip, n) == bit_of(network, n));
            assert(same_leading_bits(ip, network, n));
        }
    }
}

/// The ranges of addresses that are not routed on the public internet, each with the length of
/// its prefix: this network, private use, shared use, loopback, the local link, two more for
/// private use, and all from the multicast addresses on.
pub open spec fn reserved_ranges() -> Seq<(Ipv4Addr, int)> {
    seq![
        (Ipv4Addr { a: 0, b: 0, c: 0, d: 0 }, 8),
        (Ipv4Addr { a: 10, b: 0, c: 0, d: 0 }, 8),
        (Ipv4Addr { a: 100, b: 64, c: 0, d: 0 }, 10),
        (Ipv4Addr { a: 127, b: 0, c: 0, d: 0 }, 8),
        (Ipv4Addr { a: 169, b: 254, c: 0, d: 0 }, 16),
        (Ipv4Addr { a: 172, b: 16, c: 0, d: 0 }, 12),
        (Ipv4Addr { a: 192, b: 168, c: 0, d: 0 }, 16),
        (Ipv4Addr { a: 224, b: 0, c: 0, d: 0 }, 3),
    ]
}

/// An address is public exactly where no reserved range holds it.
pub proof fn law_public_is_outside_the_reserved_ranges(ip: Ipv4Addr)
    ensures
        ip.is_public() <==> forall|i: int|
            0 <= i < reserved_ranges().len() ==> !same_leading_bits(
                ip,
                (#[trigger] reserved_ranges()[i]).0,
                reserved_ranges()[i].1,
            ),
{
    let r = reserved_ranges();
    assert forall|i: int| 0 <= i < r.len() implies (same_leading_bits(
        ip,
        (#[trigger] r[i]).0,
        r[i].1,
    ) <==> in_cidr_spec(ip, r[i].0, r[i].1)) by {
        law_range_is_its_leading_bits(ip, r[i].0, r[i].1);
    }
    let f = |i: int| in_cidr_spec(ip, r[i].0, r[i].1);
    assert(f(0) <==> ip.a == 0) by {
        lemma_eight_bits(ip, r[0].0);
    }
    assert(f(1) <==> ip.a == 10) by {
        lemma_eight_bits(ip, r[1].0);
    }
    assert(f(2) <==> ip.a == 100 && 64 <= ip.b < 128) by {
        lemma_ten_bits(ip);
        lemma_ten_bits(r[2].0);
    }
    assert(f(3) <==> ip.a == 127) by {
        lemma_eight_bits(ip, r[3].0);
    }
    assert(f(4) <==> ip.a == 169 && ip.b == 254) by {
        lemma_sixteen_bits(ip, r[4].0);
    }
    assert(f(5) <==> ip.a == 172 && 16 <= ip.b < 32) by {
        lemma_twelve_bits(ip);
        lemma_twelve_bits(r[5].0);
    }
    assert(f(6) <==> ip.a == 192 && ip.b == 168) by {
        lemma_sixteen_bits(ip, r[6].0);
    }
    assert(f(7) <==> ip.a >= 224) by {
        lemma_three_bits(ip);
        lemma_three_bits(r[7].0);
    }
    if ip.is_public() {
        assert forall|i: int| 0 <= i < r.len() implies !same_leading_bits(
            ip,
            (#[trigger] r[i]).0,
            r[i].1,
        ) by {
            assert(!f(i)) by {
                if i == 0 || i == 1 || i == 2 || i == 3 {
                } else if i == 4 || i == 5 {
                } else {
                    assert(i == 6 || i == 7);
                }
            }
        }
    } else {
        assert(f(0) || f(1) || f(2) || f(3) || f(4) || f(5) || f(6) || f(7));
        let k = choose|k: int| 0 <= k < 8 && #[trigger] f(k);
        assert(same_leading_bits(ip, r[k].0, r[k].1));
    }
}

proof fn lemma_eight_bits(ip: Ipv4Addr, network: Ipv4Addr)
    ensures
        in_cidr_spec(ip, network, 8) <==> ip.a == network.a,
{
    lemma2_to64();
    assert(pow2((32 - 8int) as nat) as int == 0x100_0000);
    assert(ip.number() / 0x100_0000 == ip.a);
    assert(network.number() / 0x100_0000 == network.a);
}

proof fn lemma_sixteen_bits(ip: Ipv4Addr, network: Ipv4Addr)
    ensures
        in_cidr_spec(ip, network, 16) <==> ip.a == network.a && ip.b == network.b,
{
    lemma2_to64();
    assert(pow2((32 - 16int) as nat) as int == 0x1_0000);
    assert(ip.number() / 0x1_0000 == ip.a * 256 + ip.b);
    assert(network.number() / 0x1_0000 == network.a * 256 + network.b);
}

proof fn lemma_three_bits(ip: Ipv4Addr)
    ensures
        ip.number() / pow2((32 - 3int) as nat) as int == ip.a as int / 32,
{
    lemma2_to64();
    let (q, r) = (ip.a as int / 32, ip.a as int % 32);
    let low = (ip.b * 256 + ip.c) * 256 + ip.d;
    let size = 0x2000_0000int;
    assert(ip.number() == q * size + (r * 0x100_0000 + low));
    lemma_fundamental_div_mod_converse(ip.number(), size, q, r * 0x100_0000 + low);
}

proof fn lemma_ten_bits(ip: Ipv4Addr)
    ensures
        ip.number() / pow2((32 - 10int) as nat) as int == ip.a * 4 + ip.b as int / 64,
{
    lemma2_to64();
    let (q, r) = (ip.b as int / 64, ip.b as int % 64);
    let low = ip.c * 256 + ip.d;
    let size = 0x40_0000int;
    assert(ip.number() == (ip.a * 4 + q) * size + (r * 0x1_0000 + low));
    lemma_fundamental_div_mod_converse(ip.number(), size, ip.a * 4 + q, r * 0x1_0000 + low);
}

proof fn lemma_twelve_bits(ip: Ipv4Addr)
    ensures
        ip.number() / pow2((32 - 12int) as nat) as int == ip.a * 16 + ip.b as int / 16,
{
    lemma2_to64();
    let (q, r) = (ip.b as int / 16, ip.b as int % 16);
    let low = ip.c * 256 + ip.d;
    let size = 0x10_0000int;
    assert(ip.number() == (ip.a * 16 + q) * size + (r * 0x1_0000 + low));
    lemma_fundamental_div_mod_converse(ip.number(), size, ip.a * 16 + q, r * 0x1_0000 + low);
}

} // verus!
