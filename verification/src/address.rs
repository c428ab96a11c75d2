//! Host names and network addresses: which of them lie on the public network.
use vstd::prelude::*;

use crate::literal;
use crate::literal::{read_ip, IpAddress};
use crate::text;
use crate::text::{chars_of, ends_with, normalized_host, same_text, slice_to_string};

verus! {

/// Whether an IPv4 address lies outside the ranges that are private, loopback, link-local,
/// multicast or for documentation, and is neither unspecified nor the broadcast address.
pub open spec fn public_v4(a: u8, b: u8, c: u8, d: u8) -> bool {
    let private = a == 10 || (a == 172 && 16 <= b <= 31) || (a == 192 && b == 168);
    let loopback = a == 127;
    let link_local = a == 169 && b == 254;
    let unspecified = a == 0 && b == 0 && c == 0 && d == 0;
    let broadcast = a == 255 && b == 255 && c == 255 && d == 255;
    let multicast = 224 <= a <= 239;
    let documentation = (a == 192 && b == 0 && c == 2) || (a == 198 && b == 51 && c == 100) || (a
        == 203 && b == 0 && c == 113);
    !(private || loopback || link_local || unspecified || broadcast || multicast || documentation)
}

/// Whether an IPv6 address lies outside the unique-local, link-local, multicast and documentation
/// ranges, and is neither the loopback nor the unspecified address.
pub open spec fn public_v6(
    a: u16,
    b: u16,
    c: u16,
    d: u16,
    e: u16,
    f: u16,
    g: u16,
    h: u16,
) -> bool {
    let low_zero = a == 0 && b == 0 && c == 0 && d == 0 && e == 0 && f == 0 && g == 0;
    let loopback = low_zero && h == 1;
    let unspecified = low_zero && h == 0;
    let multicast = 0xff00 <= a;
    let unique_local = 0xfc00 <= a <= 0xfdff;
    let link_local = 0xfe80 <= a <= 0xfebf;
    let documentation = a == 0x2001 && b == 0x0db8;
    !(loopback || unspecified || multicast || unique_local || link_local || documentation)
}

/// Whether an address is one of the public network.
pub open spec fn public_ip(ip: IpAddress) -> bool {
    match ip {
        IpAddress::V4(a, b, c, d) => public_v4(a, b, c, d),
        IpAddress::V6(a, b, c, d, e, f, g, h) => public_v6(a, b, c, d, e, f, g, h),
    }
}

/// Whether an address is one of the public network.
pub fn is_public_ip(ip: IpAddress) -> (r: bool)
    ensures
        r == public_ip(ip),
{
    match ip {
        IpAddress::V4(a, b, c, d) => {
            let private = a == 10 || (a == 172 && 16 <= b && b <= 31) || (a == 192 && b == 168);
            let loopback = a == 127;
            let link_local = a == 169 && b == 254;
            let unspecified = a == 0 && b == 0 && c == 0 && d == 0;
            let broadcast = a == 255 && b == 255 && c == 255 && d == 255;
            let multicast = 224 <= a && a <= 239;
            let documentation = (a == 192 && b == 0 && c == 2) || (a == 198 && b == 51 && c == 100)
                || (a == 203 && b == 0 && c == 113);
            !(private || loopback || link_local || unspecified || broadcast || multicast
                || documentation)
        },
        IpAddress::V6(a, b, c, d, e, f, g, h) => {
            let low_zero = a == 0 && b == 0 && c == 0 && d == 0 && e == 0 && f == 0 && g == 0;
            let multicast = (a & 0xff00) == 0xff00;
            let unique_local = (a & 0xfe00) == 0xfc00;
            let link_local = (a & 0xffc0) == 0xfe80;
            let documentation = a == 0x2001 && b == 0x0db8;
            proof {
                assert(((a & 0xff00) == 0xff00) == (0xff00 <= a)) by (bit_vector);
                assert(((a & 0xfe00) == 0xfc00) == (0xfc00 <= a && a <= 0xfdff)) by (bit_vector);
                assert(((a & 0xffc0) == 0xfe80) == (0xfe80 <= a && a <= 0xfebf)) by (bit_vector);
            }
            !((low_zero && h == 1) || (low_zero && h == 0) || multicast || unique_local
                || link_local || documentation)
        },
    }
}

/// A host without the brackets around an IPv6 literal.
pub open spec fn unbracketed(host: Seq<char>) -> Seq<char> {
    if host.len() >= 2 && host[0] == '[' && host.last() == ']' {
        host.subrange(1, host.len() - 1)
    } else {
        host
    }
}

/// The address that a host is the literal of.
pub open spec fn host_ip(host: Seq<char>) -> Option<IpAddress> {
    literal::ip_literal(unbracketed(host))
}

/// The text between the brackets of an IPv6 literal, or else the whole host.
pub fn strip_brackets(host: &str) -> (r: String)
    ensures
        r@ == unbracketed(host@),
{
    let chars = chars_of(host);
    if chars.len() >= 2 && chars[0] == '[' && chars[chars.len() - 1] == ']' {
        slice_to_string(&chars, 1, chars.len() - 1)
    } else {
        host.to_owned()
    }
}

/// The address that a host is the literal of, in brackets or not.
pub fn parse_host_ip(host: &str) -> (r: Option<IpAddress>)
    ensures
        r == host_ip(host@),
{
    let bare = strip_brackets(host);
    read_ip(bare.as_str())
}

/// Whether a host name is `localhost` or a name below it, whatever the case of its letters and
/// with or without trailing dots.
pub open spec fn localhost(host: Seq<char>) -> bool {
    let name = text::ascii_lowered(text::without_trailing_dots(host));
    name == "localhost"@ || ".localhost"@.is_suffix_of(name)
}

/// Whether a host name is `localhost` or a name below it.
pub fn is_localhost(host: &str) -> (r: bool)
    ensures
        r == localhost(host@),
{
    let name = normalized_host(host);
    same_text(name.as_str(), "localhost") || ends_with(name.as_str(), ".localhost")
}

/// Whether the addresses of a host allow a request to it: there is at least one, and all are
/// public.
pub open spec fn all_public(addresses: Seq<IpAddress>) -> bool {
    addresses.len() > 0 && forall|i: int|
        0 <= i < addresses.len() ==> public_ip(#[trigger] addresses[i])
}

/// Whether the addresses of a host allow a request to it: there is at least one, and all are
/// public.
pub fn addresses_allowed(addresses: &Vec<IpAddress>) -> (r: bool)
    ensures
        r == all_public(addresses@),
{
    let mut i: usize = 0;
    while i < addresses.len()
        invariant
            i <= addresses@.len(),
            forall|k: int| 0 <= k < i ==> public_ip(#[trigger] addresses@[k]),
        decreases addresses@.len() - i,
    {
        if !is_public_ip(addresses[i]) {
            return false;
        }
        i += 1;
    }
    addresses.len() > 0
}

/// Adding or removing a trailing dot does not change whether a name is local.
pub proof fn trailing_dots_do_not_hide_localhost(host: Seq<char>)
    ensures
        localhost(host.push('.')) == localhost(host),
{
    assert(host.push('.').drop_last() == host);
}

/// An IPv4 address is public just where it lies in none of these ranges, its octets read as one
/// number: three private ones, loopback, link-local, multicast, three for documentation, and the
/// two single addresses.
pub proof fn special_v4_ranges(a: u8, b: u8, c: u8, d: u8)
    ensures
        ({
            let n = a * 0x100_0000 + b * 0x1_0000 + c * 0x100 + d;
            public_ip(IpAddress::V4(a, b, c, d)) <==> !({
                ||| 0x0A00_0000 <= n <= 0x0AFF_FFFF
                ||| 0xAC10_0000 <= n <= 0xAC1F_FFFF
                ||| 0xC0A8_0000 <= n <= 0xC0A8_FFFF
                ||| 0x7F00_0000 <= n <= 0x7FFF_FFFF
                ||| 0xA9FE_0000 <= n <= 0xA9FE_FFFF
                ||| 0xE000_0000 <= n <= 0xEFFF_FFFF
                ||| 0xC000_0200 <= n <= 0xC000_02FF
                ||| 0xC633_6400 <= n <= 0xC633_64FF
                ||| 0xCB00_7100 <= n <= 0xCB00_71FF
                ||| n == 0
                ||| n == 0xFFFF_FFFF
            })
        }),
{
}

/// An IPv6 address is public just where it has none of these prefixes: seven bits for unique local
/// addresses, ten for link-local, eight for multicast and thirty-two for documentation; and is
/// neither zero nor one.
pub proof fn special_v6_prefixes(
    a: u16,
    b: u16,
    c: u16,
    d: u16,
    e: u16,
    f: u16,
    g: u16,
    h: u16,
)
    ensures
        public_ip(IpAddress::V6(a, b, c, d, e, f, g, h)) <==> !({
            ||| a as int / 0x200 == 0x7e
            ||| a as int / 0x40 == 0x3fa
            ||| a as int / 0x100 == 0xff
            ||| a * 0x1_0000 + b == 0x2001_0db8
            ||| a + b + c + d + e + f + g == 0 && h <= 1
        }),
{
}

/// Addresses clear a host just where there are any and each is public by itself, however many there
/// are and in whatever order they come.
pub proof fn each_address_must_be_public(first: Seq<IpAddress>, second: Seq<IpAddress>, ip: IpAddress)
    ensures
        !all_public(Seq::empty()),
        all_public(seq![ip]) <==> public_ip(ip),
        first.len() > 0 && second.len() > 0 ==> (all_public(first + second) <==> all_public(first)
            && all_public(second)),
{
    assert(seq![ip][0] == ip);
    let all = first + second;
    if first.len() > 0 && second.len() > 0 {
        if all_public(all) {
            assert forall|i: int| 0 <= i < first.len() implies public_ip(#[trigger] first[i]) by {
                assert(all[i] == first[i]);
            }
            assert forall|i: int| 0 <= i < second.len() implies public_ip(#[trigger] second[i]) by {
                assert(all[first.len() + i] == second[i]);
            }
        }
        if all_public(first) && all_public(second) {
            assert forall|i: int| 0 <= i < all.len() implies public_ip(#[trigger] all[i]) by {
                if i < first.len() {
                    assert(all[i] == first[i]);
                } else {
                    assert(all[i] == second[i - first.len()]);
                }
            }
        }
    }
}

/// A host is local just where its name, in lower case and without trailing dots, is `localhost` or
/// ends in `.localhost`.
pub proof fn local_names(name: Seq<char>, dots: Seq<char>, label: Seq<char>)
    requires
        name.len() > 0 ==> name.last() != '.',
        forall|k: int| 0 <= k < dots.len() ==> #[trigger] dots[k] == '.',
    ensures
        text::ascii_lowered(name) == "localhost"@ ==> localhost(name + dots),
        text::ascii_lowered(name) == label + ".localhost"@ ==> localhost(name + dots),
        localhost(name + dots) ==> text::ascii_lowered(name) == "localhost"@ || exists|rest: Seq<char>|
            #[trigger] (rest + ".localhost"@) == text::ascii_lowered(name),
{
    text::only_trailing_dots_are_dropped(name, dots);
    let lowered = text::ascii_lowered(name);
    let tail = ".localhost"@;
    if lowered == label + tail {
        assert(lowered.subrange(label.len() as int, lowered.len() as int) == tail);
        assert(tail.is_suffix_of(lowered));
    }
    if tail.is_suffix_of(lowered) {
        let rest = lowered.take(lowered.len() - tail.len());
        assert(rest + tail == lowered);
    }
}

/// The literal of an address may stand in brackets, and one pair of them only is taken away.
pub proof fn brackets_are_taken_away(inside: Seq<char>, host: Seq<char>)
    ensures
        host_ip(seq!['['] + inside + seq![']']) == literal::ip_literal(inside),
        host.len() == 0 || host[0] != '[' || host.last() != ']' ==> host_ip(host)
            == literal::ip_literal(host),
{
    let bracketed = seq!['['] + inside + seq![']'];
    assert(bracketed[0] == '[' && bracketed.last() == ']');
    assert(bracketed.subrange(1, bracketed.len() - 1) == inside);
}

} // verus!
