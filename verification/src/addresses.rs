//! IP addresses, and which of them a fetch on behalf of a buyer must never reach.

use vstd::prelude::*;

verus! {

/// An IP address: the octets of a version 4 one, the segments of a version 6 one.
#[derive(Clone, Copy, Debug)]
pub enum Ip {
    V4([u8; 4]),
    V6([u16; 8]),
}

/// [`Ip`] as a mathematical value.
pub enum IpView {
    V4(Seq<u8>),
    V6(Seq<u16>),
}

impl View for Ip {
    type V = IpView;

    open spec fn view(&self) -> IpView {
        match self {
            Ip::V4(octets) => IpView::V4(octets@),
            Ip::V6(segments) => IpView::V6(segments@),
        }
    }
}

/// An IP address together with how it is written.
#[derive(Clone, Debug)]
pub struct Address {
    pub ip: Ip,
    pub text: String,
}

/// [`Address`] as a mathematical value.
pub struct AddressView {
    pub ip: IpView,
    pub text: Seq<char>,
}

impl View for Address {
    type V = AddressView;

    open spec fn view(&self) -> AddressView {
        AddressView { ip: self.ip@, text: self.text@ }
    }
}

/// Addresses as mathematical values.
pub open spec fn address_views(addrs: Seq<Address>) -> Seq<AddressView> {
    addrs.map_values(|a: Address| a@)
}

/// Whether a version 4 address is not globally routable.
pub open spec fn is_blocked_v4(o: Seq<u8>) -> bool {
    // "this network"
    ||| o[0] == 0
    // private
    ||| o[0] == 10
    ||| o[0] == 172 && 16 <= o[1] <= 31
    ||| o[0] == 192 && o[1] == 168
    // shared by carrier-grade translation
    ||| o[0] == 100 && 64 <= o[1] <= 127
    // loopback
    ||| o[0] == 127
    // link-local
    ||| o[0] == 169 && o[1] == 254
    // protocol assignments
    ||| o[0] == 192 && o[1] == 0 && o[2] == 0
    // documentation
    ||| o[0] == 192 && o[1] == 0 && o[2] == 2
    ||| o[0] == 198 && o[1] == 51 && o[2] == 100
    ||| o[0] == 203 && o[1] == 0 && o[2] == 113
    // benchmarking
    ||| o[0] == 198 && 18 <= o[1] <= 19
    // multicast, reserved and broadcast
    ||| o[0] >= 224
}

/// The octets that two segments hold.
pub open spec fn octets_of(hi: int, lo: int) -> Seq<u8> {
    seq![(hi / 256) as u8, (hi % 256) as u8, (lo / 256) as u8, (lo % 256) as u8]
}

/// Whether the segments from `from` up to `to` are zero.
pub open spec fn zeros(s: Seq<u16>, from: int, to: int) -> bool {
    forall|i: int| from <= i < to ==> #[trigger] s[i] == 0
}

/// The version 4 address that a version 6 one carries, if it is of a form that carries one.
pub open spec fn embedded(s: Seq<u16>) -> Option<Seq<u8>> {
    if zeros(s, 0, 5) && s[5] == 0xffff {
        // mapped, ::ffff:0:0/96
        Some(octets_of(s[6] as int, s[7] as int))
    } else if zeros(s, 0, 6) && (s[6] != 0 || s[7] != 0) {
        // compatible, ::/96
        Some(octets_of(s[6] as int, s[7] as int))
    } else if s[0] == 0x64 && s[1] == 0xff9b && zeros(s, 2, 6) {
        // NAT64, 64:ff9b::/96
        Some(octets_of(s[6] as int, s[7] as int))
    } else if s[0] == 0x2002 {
        // 6to4, 2002::/16
        Some(octets_of(s[1] as int, s[2] as int))
    } else if s[0] == 0x2001 && s[1] == 0 {
        // Teredo, 2001::/32, with every bit inverted
        Some(octets_of(0xffff - s[6], 0xffff - s[7]))
    } else {
        None
    }
}

/// Whether a version 6 address is not globally routable, or carries a version 4 one that is not.
pub open spec fn is_blocked_v6(s: Seq<u16>) -> bool {
    // unspecified and loopback
    ||| zeros(s, 0, 7) && s[7] <= 1
    // unique local, fc00::/7
    ||| 0xfc00 <= s[0] <= 0xfdff
    // link-local fe80::/10, site-local fec0::/10 and multicast ff00::/8
    ||| 0xfe80 <= s[0]
    ||| match embedded(s) {
        Some(o) => is_blocked_v4(o),
        None => false,
    }
}

/// Whether an address is one that must not be reached.
pub open spec fn is_blocked(ip: IpView) -> bool {
    match ip {
        IpView::V4(o) => is_blocked_v4(o),
        IpView::V6(s) => is_blocked_v6(s),
    }
}

/// Tells whether a version 4 address is not globally routable.
pub fn ipv4_blocked(o: [u8; 4]) -> (r: bool)
    ensures
        r == is_blocked_v4(o@),
{
    let a: u8 = o[0];
    let b: u8 = o[1];
    let c: u8 = o[2];
    a == 0 || a == 10 || (a == 172 && 16 <= b && b <= 31) || (a == 192 && b == 168) || (a == 100
        && 64 <= b && b <= 127) || a == 127 || (a == 169 && b == 254) || (a == 192 && b == 0 && (c
        == 0 || c == 2)) || (a == 198 && b == 51 && c == 100) || (a == 203 && b == 0 && c == 113)
        || (a == 198 && (b == 18 || b == 19)) || a >= 224
}

fn to_octets(hi: u16, lo: u16) -> (r: [u8; 4])
    ensures
        r@ == octets_of(hi as int, lo as int),
{
    let r: [u8; 4] = [
        (hi / 256) as u8,
        (hi % 256) as u8,
        (lo / 256) as u8,
        (lo % 256) as u8,
    ];
    assert(r@ =~= octets_of(hi as int, lo as int));
    r
}

fn all_zero(s: &[u16; 8], from: usize, to: usize) -> (r: bool)
    requires
        from <= to <= 8,
    ensures
        r == zeros(s@, from as int, to as int),
{
    let mut i: usize = from;
    while i < to
        invariant
            from <= i <= to <= 8,
            zeros(s@, from as int, i as int),
        decreases to - i,
    {
        if s[i] != 0 {
            assert(s@[i as int] != 0);
            return false;
        }
        i = i + 1;
    }
    true
}

/// The version 4 address that a version 6 one carries: mapped, compatible, NAT64, 6to4 or Teredo.
pub fn embedded_ipv4(s: [u16; 8]) -> (r: Option<[u8; 4]>)
    ensures
        match r {
            Some(o) => embedded(s@) == Some(o@),
            None => embedded(s@) is None,
        },
{
    if all_zero(&s, 0, 5) && s[5] == 0xffff {
        return Some(to_octets(s[6], s[7]));
    }
    if all_zero(&s, 0, 6) && (s[6] != 0 || s[7] != 0) {
        return Some(to_octets(s[6], s[7]));
    }
    if s[0] == 0x64 && s[1] == 0xff9b && all_zero(&s, 2, 6) {
        return Some(to_octets(s[6], s[7]));
    }
    if s[0] == 0x2002 {
        return Some(to_octets(s[1], s[2]));
    }
    if s[0] == 0x2001 && s[1] == 0 {
        return Some(to_octets(0xffff - s[6], 0xffff - s[7]));
    }
    None
}

/// Tells whether a version 6 address is not globally routable, or carries a version 4 one that is
/// not.
pub fn ipv6_blocked(s: [u16; 8]) -> (r: bool)
    ensures
        r == is_blocked_v6(s@),
{
    if all_zero(&s, 0, 7) && s[7] <= 1 {
        return true;
    }
    let first: u16 = s[0];
    if (0xfc00 <= first && first <= 0xfdff) || 0xfe80 <= first {
        return true;
    }
    match embedded_ipv4(s) {
        Some(o) => ipv4_blocked(o),
        None => false,
    }
}

/// Tells whether an address is one that must not be reached.
pub fn ip_blocked(ip: Ip) -> (r: bool)
    ensures
        r == is_blocked(ip@),
{
    match ip {
        Ip::V4(o) => ipv4_blocked(o),
        Ip::V6(s) => ipv6_blocked(s),
    }
}

/// A version 6 address that carries a blocked version 4 one is blocked, in whichever form it
/// carries it: mapped, compatible, NAT64, 6to4 or Teredo.
pub proof fn blocked_in_every_guise(s: Seq<u16>, hi: u16, lo: u16)
    requires
        s.len() == 8,
        is_blocked_v4(octets_of(hi as int, lo as int)),
        ({
            ||| zeros(s, 0, 5) && (s[5] == 0xffff || s[5] == 0) && s[6] == hi && s[7] == lo
            ||| s[0] == 0x64 && s[1] == 0xff9b && zeros(s, 2, 6) && s[6] == hi && s[7] == lo
            ||| s[0] == 0x2002 && s[1] == hi && s[2] == lo
            ||| s[0] == 0x2001 && s[1] == 0 && s[6] == 0xffff - hi && s[7] == 0xffff - lo
        }),
    ensures
        is_blocked_v6(s),
{
    assert(s[0] == 0 || s[0] == 0x64 || s[0] == 0x2002 || s[0] == 0x2001);
}

/// The number that four octets stand for.
pub open spec fn number_of(o: Seq<u8>) -> int {
    o[0] * 0x100_0000 + o[1] * 0x1_0000 + o[2] * 0x100 + o[3]
}

/// Whether a number is that of a version 4 address that is not globally routable: 0.0.0.0/8, 10.0.0.0/8,
/// 100.64.0.0/10, 127.0.0.0/8, 169.254.0.0/16, 172.16.0.0/12, 192.0.0.0/24, 192.0.2.0/24,
/// 192.168.0.0/16, 198.18.0.0/15, 198.51.100.0/24, 203.0.113.0/24 and everything from 224.0.0.0 on.
pub open spec fn in_blocked_range(n: int) -> bool {
    ||| 0 <= n <= 0x00ff_ffff
    ||| 0x0a00_0000 <= n <= 0x0aff_ffff
    ||| 0x6440_0000 <= n <= 0x647f_ffff
    ||| 0x7f00_0000 <= n <= 0x7fff_ffff
    ||| 0xa9fe_0000 <= n <= 0xa9fe_ffff
    ||| 0xac10_0000 <= n <= 0xac1f_ffff
    ||| 0xc000_0000 <= n <= 0xc000_00ff
    ||| 0xc000_0200 <= n <= 0xc000_02ff
    ||| 0xc0a8_0000 <= n <= 0xc0a8_ffff
    ||| 0xc612_0000 <= n <= 0xc613_ffff
    ||| 0xc633_6400 <= n <= 0xc633_64ff
    ||| 0xcb00_7100 <= n <= 0xcb00_71ff
    ||| 0xe000_0000 <= n <= 0xffff_ffff
}

/// A version 4 address is blocked exactly where its number is in one of the ranges that are not globally
/// routable.
pub proof fn blocked_version_4_addresses_by_range(o: Seq<u8>)
    requires
        o.len() == 4,
    ensures
        is_blocked_v4(o) <==> in_blocked_range(number_of(o)),
{
}

/// The version 4 address that a version 6 one carries, by its number: the last 32 bits of a mapped, a
/// compatible and a NAT64 one, the 32 bits behind the first 16 of a 6to4 one, and the last 32 bits of a
/// Teredo one with every bit inverted. Any other carries none.
pub proof fn carried_address_by_its_form(s: Seq<u16>)
    requires
        s.len() == 8,
    ensures
        ({
            let last = s[6] * 0x1_0000 + s[7];
            let clear = s[0] == 0 && s[1] == 0 && s[2] == 0 && s[3] == 0 && s[4] == 0;
            let mapped = clear && s[5] == 0xffff;
            let compatible = clear && s[5] == 0 && last != 0;
            let nat64 = s[0] == 0x64 && s[1] == 0xff9b && s[2] == 0 && s[3] == 0 && s[4] == 0 && s[5]
                == 0;
            let six_to_four = s[0] == 0x2002;
            let teredo = s[0] == 0x2001 && s[1] == 0;
            &&& embedded(s) is Some <==> mapped || compatible || nat64 || six_to_four || teredo
            &&& embedded(s) matches Some(o) ==> o.len() == 4
            &&& mapped || compatible || nat64 ==> number_of(embedded(s)->0) == last
            &&& six_to_four ==> number_of(embedded(s)->0) == s[1] * 0x1_0000 + s[2]
            &&& teredo ==> number_of(embedded(s)->0) == 0xffff_ffff - last
        }),
{
    assert(zeros(s, 0, 5) <==> s[0] == 0 && s[1] == 0 && s[2] == 0 && s[3] == 0 && s[4] == 0);
    assert(zeros(s, 0, 6) <==> zeros(s, 0, 5) && s[5] == 0) by {
        if zeros(s, 0, 6) {
            assert(s[5] == 0 && s[4] == 0 && s[3] == 0 && s[2] == 0 && s[1] == 0 && s[0] == 0);
        }
    }
    assert(zeros(s, 2, 6) <==> s[2] == 0 && s[3] == 0 && s[4] == 0 && s[5] == 0);
}

/// A version 6 address is blocked exactly where it is the unspecified or the loopback one, is unique
/// local, is link-local, site-local or multicast, or carries a version 4 address whose number is in one
/// of the ranges that are not globally routable.
pub proof fn blocked_version_6_addresses_by_prefix(s: Seq<u16>)
    requires
        s.len() == 8,
    ensures
        is_blocked_v6(s) <==> {
            ||| s[0] == 0 && s[1] == 0 && s[2] == 0 && s[3] == 0 && s[4] == 0 && s[5] == 0 && s[6] == 0
                && (s[7] == 0 || s[7] == 1)
            ||| 0xfc00 <= s[0] <= 0xfdff
            ||| 0xfe80 <= s[0] <= 0xffff
            ||| (embedded(s) matches Some(o) && in_blocked_range(number_of(o)))
        },
{
    carried_address_by_its_form(s);
    if let Some(o) = embedded(s) {
        blocked_version_4_addresses_by_range(o);
    }
    assert(zeros(s, 0, 7) <==> s[0] == 0 && s[1] == 0 && s[2] == 0 && s[3] == 0 && s[4] == 0 && s[5]
        == 0 && s[6] == 0);
}

} // verus!
