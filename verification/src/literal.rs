//! The literals of network addresses: dotted decimal octets for IPv4, and groups of hexadecimal
//! digits between colons for IPv6.
use vstd::prelude::*;

use crate::number;
use crate::number::read_unsigned;
use crate::text;
use crate::text::{chars_of, push_string, slice_to_string};

verus! {

/// A network address: the four octets of an IPv4 address, or the eight segments of an IPv6
/// address.
#[derive(Clone, Copy, Debug, PartialEq, Eq, Structural)]
pub enum IpAddress {
    V4(u8, u8, u8, u8),
    V6(u16, u16, u16, u16, u16, u16, u16, u16),
}

/// The parts of a text between the occurrences of a character.
pub open spec fn split(s: Seq<char>, c: char) -> Seq<Seq<char>>
    decreases s.len(),
{
    if s.len() == 0 {
        seq![Seq::empty()]
    } else {
        let before = split(s.drop_last(), c);
        if s.last() == c {
            before.push(Seq::empty())
        } else {
            before.drop_last().push(before.last().push(s.last()))
        }
    }
}

proof fn lemma_split_nonempty(s: Seq<char>, c: char)
    ensures
        split(s, c).len() > 0,
    decreases s.len(),
{
    if s.len() > 0 {
        lemma_split_nonempty(s.drop_last(), c);
    }
}

/// The parts of a text between the occurrences of a character.
pub fn split_text(text: &str, c: char) -> (r: Vec<String>)
    ensures
        r.deep_view() == split(text@, c),
{
    let chars = chars_of(text);
    let mut parts: Vec<String> = Vec::new();
    let mut part = String::new();
    let mut i: usize = 0;
    proof {
        assert(chars@.take(0) == Seq::<char>::empty());
        assert(parts.deep_view().push(part@) == split(chars@.take(0), c));
    }
    while i < chars.len()
        invariant
            i <= chars@.len(),
            parts.deep_view().push(part@) == split(chars@.take(i as int), c),
        decreases chars@.len() - i,
    {
        let ghost before = parts.deep_view();
        let ghost open = part@;
        proof {
            let taken = chars@.take(i + 1);
            assert(taken.drop_last() == chars@.take(i as int));
            assert(before.push(open).drop_last() == before);
        }
        if chars[i] == c {
            push_string(&mut parts, part);
            part = String::new();
        } else {
            part.push(chars[i]);
        }
        proof {
            assert(parts.deep_view().push(part@) == split(chars@.take(i + 1), c));
        }
        i += 1;
    }
    push_string(&mut parts, part);
    proof {
        assert(chars@.take(chars@.len() as int) == chars@);
    }
    parts
}

/// The number that at least one and at most `most` digits stand for.
pub open spec fn short_number(s: Seq<char>, radix: nat, most: nat, max: nat) -> Option<nat> {
    if 1 <= s.len() <= most {
        match number::digits_value(s, radix) {
            Some(value) if value <= max => Some(value),
            _ => None,
        }
    } else {
        None
    }
}

proof fn lemma_first_digit(s: Seq<char>, radix: nat)
    requires
        s.len() > 0,
        number::digits_value(s, radix) is Some,
    ensures
        number::digit_value(s[0], radix) is Some,
    decreases s.len(),
{
    if s.len() > 1 {
        assert(s.drop_last()[0] == s[0]);
        lemma_first_digit(s.drop_last(), radix);
    }
}

fn read_short(chars: &Vec<char>, hexadecimal: bool, most: usize, max: u64) -> (r: Option<u64>)
    ensures
        match r {
            Some(value) => short_number(
                chars@,
                if hexadecimal {
                    16
                } else {
                    10
                },
                most as nat,
                max as nat,
            ) == Some(value as nat),
            None => short_number(
                chars@,
                if hexadecimal {
                    16
                } else {
                    10
                },
                most as nat,
                max as nat,
            ) is None,
        },
{
    if chars.len() == 0 || chars.len() > most {
        return None;
    }
    let ghost radix: nat = if hexadecimal {
        16
    } else {
        10
    };
    if chars[0] == '+' {
        proof {
            if number::digits_value(chars@, radix) is Some {
                lemma_first_digit(chars@, radix);
            }
        }
        return None;
    }
    proof {
        assert(chars@.skip(0) == chars@);
    }
    read_unsigned(chars, 0, hexadecimal, max)
}

/// The octet that a decimal number without leading zeros stands for.
pub open spec fn octet(s: Seq<char>) -> Option<u8> {
    if s.len() > 1 && s[0] == '0' {
        None
    } else {
        match short_number(s, 10, 3, 255) {
            Some(value) => Some(value as u8),
            None => None,
        }
    }
}

fn read_octet(text: &str) -> (r: Option<u8>)
    ensures
        r == octet(text@),
{
    let chars = chars_of(text);
    if chars.len() > 1 && chars[0] == '0' {
        return None;
    }
    match read_short(&chars, false, 3, 255) {
        Some(value) => Some(value as u8),
        None => None,
    }
}

/// The octets of the IPv4 address that a text is the literal of.
pub open spec fn v4_literal(s: Seq<char>) -> Option<(u8, u8, u8, u8)> {
    let parts = split(s, '.');
    if parts.len() == 4 {
        match (octet(parts[0]), octet(parts[1]), octet(parts[2]), octet(parts[3])) {
            (Some(a), Some(b), Some(c), Some(d)) => Some((a, b, c, d)),
            _ => None,
        }
    } else {
        None
    }
}

/// The octets of the IPv4 address that a text is the literal of.
pub fn read_v4(text: &str) -> (r: Option<(u8, u8, u8, u8)>)
    ensures
        r == v4_literal(text@),
{
    let parts = split_text(text, '.');
    proof {
        assert(parts.deep_view() == split(text@, '.'));
    }
    if parts.len() != 4 {
        return None;
    }
    match (
        read_octet(parts[0].as_str()),
        read_octet(parts[1].as_str()),
        read_octet(parts[2].as_str()),
        read_octet(parts[3].as_str()),
    ) {
        (Some(a), Some(b), Some(c), Some(d)) => Some((a, b, c, d)),
        _ => None,
    }
}

/// The segment that one to four hexadecimal digits stand for.
pub open spec fn segment(s: Seq<char>) -> Option<u16> {
    match short_number(s, 16, 4, 0xffff) {
        Some(value) => Some(value as u16),
        None => None,
    }
}

fn read_segment(text: &str) -> (r: Option<u16>)
    ensures
        r == segment(text@),
{
    let chars = chars_of(text);
    match read_short(&chars, true, 4, 0xffff) {
        Some(value) => Some(value as u16),
        None => None,
    }
}

/// The segments that a list of groups stands for; where `mixed`, the last group may be the literal
/// of an IPv4 address, which stands for two segments.
pub open spec fn segments_of(groups: Seq<Seq<char>>, mixed: bool) -> Option<Seq<u16>>
    decreases groups.len(),
{
    if groups.len() == 0 {
        Some(Seq::empty())
    } else {
        match segments_of(groups.drop_last(), false) {
            Some(before) => match segment(groups.last()) {
                Some(value) => Some(before.push(value)),
                None => match v4_literal(groups.last()) {
                    Some((a, b, c, d)) if mixed => Some(
                        before.push((a * 256 + b) as u16).push((c * 256 + d) as u16),
                    ),
                    _ => None,
                },
            },
            None => None,
        }
    }
}

/// The segments that a run of groups between colons stands for.
pub open spec fn run_segments(s: Seq<char>, mixed: bool) -> Option<Seq<u16>> {
    if s.len() == 0 {
        Some(Seq::empty())
    } else {
        segments_of(split(s, ':'), mixed)
    }
}

proof fn lemma_no_segments(groups: Seq<Seq<char>>, at: int, mixed: bool)
    requires
        0 <= at <= groups.len(),
        segments_of(groups.take(at), at == groups.len() && mixed) is None,
    ensures
        segments_of(groups, mixed) is None,
    decreases groups.len() - at,
{
    if at == groups.len() {
        assert(groups.take(at) == groups);
    } else {
        assert(groups.take(at + 1).drop_last() == groups.take(at));
        lemma_no_segments(groups, at + 1, mixed);
    }
}

fn read_run(text: &str, mixed: bool) -> (r: Option<Vec<u16>>)
    ensures
        match r {
            Some(segments) => run_segments(text@, mixed) == Some(segments@),
            None => run_segments(text@, mixed) is None,
        },
{
    let mut segments: Vec<u16> = Vec::new();
    if text.unicode_len() == 0 {
        proof {
            assert(segments@ == Seq::<u16>::empty());
        }
        return Some(segments);
    }
    let groups = split_text(text, ':');
    let ghost parts = groups.deep_view();
    proof {
        assert(parts.take(0) == Seq::<Seq<char>>::empty());
        assert(segments@ == Seq::<u16>::empty());
    }
    let mut i: usize = 0;
    while i < groups.len()
        invariant
            i <= groups@.len(),
            text@.len() > 0,
            parts == groups.deep_view(),
            parts == split(text@, ':'),
            segments_of(parts.take(i as int), i == parts.len() && mixed) == Some(segments@),
            i < parts.len() ==> segments_of(parts.take(i as int), false) == Some(segments@),
        decreases groups@.len() - i,
    {
        let last = i + 1 == groups.len();
        proof {
            let taken = parts.take(i + 1);
            assert(taken.drop_last() == parts.take(i as int));
            assert(taken.last() == groups@[i as int]@);
        }
        match read_segment(groups[i].as_str()) {
            Some(value) => {
                segments.push(value);
            },
            None => match read_v4(groups[i].as_str()) {
                Some((a, b, c, d)) if mixed && last => {
                    segments.push(a as u16 * 256 + b as u16);
                    segments.push(c as u16 * 256 + d as u16);
                },
                _ => {
                    proof {
                        lemma_no_segments(parts, i + 1, mixed);
                    }
                    return None;
                },
            },
        }
        i += 1;
    }
    proof {
        assert(parts.take(parts.len() as int) == parts);
    }
    Some(segments)
}

/// Where the first two colons in a row stand, from `from` on; the length of the text where there
/// are none.
pub open spec fn gap_from(s: Seq<char>, from: int) -> int
    decreases s.len() - from,
{
    if from + 1 >= s.len() {
        s.len() as int
    } else if s[from] == ':' && s[from + 1] == ':' {
        from
    } else {
        gap_from(s, from + 1)
    }
}

fn find_gap(chars: &Vec<char>) -> (r: usize)
    ensures
        r == gap_from(chars@, 0),
        r == chars@.len() || r + 2 <= chars@.len(),
{
    let length: usize = chars.len();
    let mut i: usize = 0;
    while i < length && length - i >= 2 && !(chars[i] == ':' && chars[i + 1] == ':')
        invariant
            i <= length == chars@.len(),
            gap_from(chars@, 0) == gap_from(chars@, i as int),
        decreases length - i,
    {
        i += 1;
    }
    if length - i >= 2 {
        i
    } else {
        length
    }
}

/// `count` segments that are zero.
pub open spec fn zeros(count: int) -> Seq<u16> {
    Seq::new(
        if count > 0 {
            count as nat
        } else {
            0
        },
        |i: int| 0u16,
    )
}

/// The eight segments of the IPv6 address that a text is the literal of: eight segments in full,
/// or fewer, with two colons in a row where zeros are left out.
pub open spec fn v6_segments(s: Seq<char>) -> Option<Seq<u16>> {
    let gap = gap_from(s, 0);
    if gap == s.len() {
        match run_segments(s, true) {
            Some(all) if all.len() == 8 => Some(all),
            _ => None,
        }
    } else {
        match (run_segments(s.take(gap), false), run_segments(s.skip(gap + 2), true)) {
            (Some(head), Some(tail)) if head.len() + tail.len() <= 7 => Some(
                head + zeros(8 - head.len() - tail.len()) + tail,
            ),
            _ => None,
        }
    }
}

/// The address with the given segments.
pub open spec fn v6_address(s: Seq<u16>) -> IpAddress {
    IpAddress::V6(s[0], s[1], s[2], s[3], s[4], s[5], s[6], s[7])
}

fn read_v6(text: &str) -> (r: Option<IpAddress>)
    ensures
        r == match v6_segments(text@) {
            Some(all) => Some(v6_address(all)),
            None => None,
        },
{
    let chars = chars_of(text);
    let gap: usize = find_gap(&chars);
    if gap == chars.len() {
        return match read_run(text, true) {
            Some(s) => if s.len() == 8 {
                Some(IpAddress::V6(s[0], s[1], s[2], s[3], s[4], s[5], s[6], s[7]))
            } else {
                None
            },
            None => None,
        };
    }
    let front = slice_to_string(&chars, 0, gap);
    let back = slice_to_string(&chars, gap + 2, chars.len());
    proof {
        assert(front@ == text@.take(gap as int));
        assert(back@ == text@.skip(gap + 2));
    }
    let head = match read_run(front.as_str(), false) {
        Some(head) => head,
        None => {
            return None;
        },
    };
    let tail = match read_run(back.as_str(), true) {
        Some(tail) => tail,
        None => {
            return None;
        },
    };
    if head.len() > 7 || tail.len() > 7 - head.len() {
        return None;
    }
    let ghost count = 8 - head@.len() - tail@.len();
    let mut s: Vec<u16> = Vec::new();
    let mut i: usize = 0;
    while i < 8
        invariant
            i <= 8,
            count == 8 - head@.len() - tail@.len(),
            count >= 1,
            s@ == (head@ + zeros(count) + tail@).take(i as int),
        decreases 8 - i,
    {
        let value: u16 = if i < head.len() {
            head[i]
        } else if i < 8 - tail.len() {
            0
        } else {
            tail[i - (8 - tail.len())]
        };
        s.push(value);
        i += 1;
        proof {
            let all = head@ + zeros(count) + tail@;
            assert(all.take(i as int) == all.take(i - 1).push(all[i - 1]));
        }
    }
    proof {
        let all = head@ + zeros(count) + tail@;
        assert(all.take(8) == all);
    }
    Some(IpAddress::V6(s[0], s[1], s[2], s[3], s[4], s[5], s[6], s[7]))
}

/// The address that a text is the literal of.
pub open spec fn ip_literal(s: Seq<char>) -> Option<IpAddress> {
    match v4_literal(s) {
        Some((a, b, c, d)) => Some(IpAddress::V4(a, b, c, d)),
        None => match v6_segments(s) {
            Some(all) => Some(v6_address(all)),
            None => None,
        },
    }
}

/// The address that a text is the literal of.
pub fn read_ip(text: &str) -> (r: Option<IpAddress>)
    ensures
        r == ip_literal(text@),
{
    match read_v4(text) {
        Some((a, b, c, d)) => Some(IpAddress::V4(a, b, c, d)),
        None => read_v6(text),
    }
}

proof fn lemma_split_joined(s: Seq<char>, t: Seq<char>, c: char)
    ensures
        split(s.push(c) + t, c) == split(s, c) + split(t, c),
    decreases t.len(),
{
    let all = s.push(c) + t;
    if t.len() == 0 {
        assert(all.drop_last() == s);
        assert(split(s, c) + split(t, c) == split(s, c).push(Seq::empty()));
    } else {
        let front = t.drop_last();
        lemma_split_joined(s, front, c);
        lemma_split_nonempty(front, c);
        assert(all.drop_last() == s.push(c) + front);
        assert(split(all, c) == split(s, c) + split(t, c));
    }
}

proof fn lemma_split_whole(s: Seq<char>, c: char)
    requires
        forall|i: int| 0 <= i < s.len() ==> s[i] != c,
    ensures
        split(s, c) == seq![s],
    decreases s.len(),
{
    if s.len() > 0 {
        lemma_split_whole(s.drop_last(), c);
        assert(s.drop_last().push(s.last()) == s);
        assert(split(s, c) == seq![s]);
    } else {
        assert(s == Seq::<char>::empty());
    }
}

proof fn lemma_octet(n: u8)
    ensures
        octet(number::decimal(n as nat)) == Some(n),
        split(number::decimal(n as nat), '.') == seq![number::decimal(n as nat)],
{
    let digits = number::decimal(n as nat);
    number::decimal_reads_back(n as nat, 255);
    assert(digits[0] != '+' && 1 <= digits.len() <= 3 && (digits.len() > 1 ==> digits[0] != '0')
        && forall|i: int| 0 <= i < digits.len() ==> digits[i] != '.') by {
        reveal_with_fuel(number::decimal, 3);
    }
    lemma_split_whole(digits, '.');
}

/// Four octets in decimal digits, with dots between them, are the literal of their address.
pub proof fn dotted_octets_are_literals(a: u8, b: u8, c: u8, d: u8)
    ensures
        ip_literal(
            number::decimal(a as nat).push('.') + (number::decimal(b as nat).push('.') + (
            number::decimal(c as nat).push('.') + number::decimal(d as nat))),
        ) == Some(IpAddress::V4(a, b, c, d)),
{
    lemma_octet(a);
    lemma_octet(b);
    lemma_octet(c);
    lemma_octet(d);
    let last = number::decimal(d as nat);
    let two = number::decimal(c as nat).push('.') + last;
    let three = number::decimal(b as nat).push('.') + two;
    lemma_split_joined(number::decimal(c as nat), last, '.');
    lemma_split_joined(number::decimal(b as nat), two, '.');
    lemma_split_joined(number::decimal(a as nat), three, '.');
}

/// A text is parted at every occurrence of the character and nowhere else, and its parts, joined by
/// the character, are the text again.
pub proof fn texts_are_parted_at_every_occurrence(s: Seq<char>, t: Seq<char>, c: char)
    ensures
        split(s.push(c) + t, c) == split(s, c) + split(t, c),
        (forall|i: int| 0 <= i < s.len() ==> s[i] != c) ==> split(s, c) == seq![s],
        text::join(split(s, c), seq![c]) == s,
{
    lemma_split_joined(s, t, c);
    if forall|i: int| 0 <= i < s.len() ==> s[i] != c {
        lemma_split_whole(s, c);
    }
    lemma_parts_join_back(s, c);
}

proof fn lemma_parts_join_back(s: Seq<char>, c: char)
    ensures
        text::join(split(s, c), seq![c]) == s,
    decreases s.len(),
{
    if s.len() == 0 {
        assert(s == Seq::<char>::empty());
    } else {
        let front = s.drop_last();
        let before = split(front, c);
        lemma_parts_join_back(front, c);
        lemma_split_nonempty(front, c);
        if s.last() == c {
            text::lemma_join_push(before, Seq::empty(), seq![c]);
            assert(front + seq![c] + Seq::<char>::empty() == s);
        } else {
            let fewer = before.drop_last();
            let grown = before.last().push(s.last());
            text::lemma_join_push(fewer, before.last(), seq![c]);
            text::lemma_join_push(fewer, grown, seq![c]);
            assert(fewer.push(before.last()) == before);
            if fewer.len() == 0 {
                assert(grown == s);
            } else {
                let start = text::join(fewer, seq![c]) + seq![c];
                assert(start + before.last() == front);
                assert(start + grown == (start + before.last()).push(s.last()));
                assert(front.push(s.last()) == s);
            }
        }
    }
}

proof fn lemma_first_digit_counts(s: Seq<char>)
    requires
        s.len() > 0,
        s[0] != '0',
        number::digits_value(s, 10) is Some,
    ensures
        number::digits_value(s, 10).unwrap() > 0,
    decreases s.len(),
{
    if s.len() > 1 {
        assert(s.drop_last()[0] == s[0]);
        lemma_first_digit_counts(s.drop_last());
    } else {
        assert(s.drop_last() == Seq::<char>::empty());
        assert(number::digits_value(s.drop_last(), 10) == Some(0nat));
        assert(s.last() == s[0]);
    }
}

proof fn lemma_canonical(s: Seq<char>, n: nat)
    requires
        s.len() > 0,
        s.len() > 1 ==> s[0] != '0',
        number::digits_value(s, 10) == Some(n),
    ensures
        s == number::decimal(n),
    decreases s.len(),
{
    let front = s.drop_last();
    let m = number::digits_value(front, 10).unwrap();
    let d = number::digit_value(s.last(), 10).unwrap();
    assert(n == m * 10 + d);
    vstd::utf8::char_u32_cast(s.last(), s.last() as u32);
    assert(number::digit_char(d) == s.last());
    if s.len() == 1 {
        assert(front == Seq::<char>::empty());
        assert(number::digits_value(front, 10) == Some(0nat));
        assert(s == seq![s.last()]);
    } else {
        assert(front[0] == s[0]);
        lemma_first_digit_counts(front);
        lemma_canonical(front, m);
        assert(n / 10 == m && n % 10 == d);
        assert(front.push(s.last()) == s);
    }
}

/// The literals of IPv4 addresses are just the four octets of each in decimal digits, with dots
/// between them.
pub proof fn v4_literals_are_dotted_octets(s: Seq<char>, a: u8, b: u8, c: u8, d: u8)
    ensures
        v4_literal(s) == Some((a, b, c, d)) <==> s == text::join(
            seq![
                number::decimal(a as nat),
                number::decimal(b as nat),
                number::decimal(c as nat),
                number::decimal(d as nat),
            ],
            seq!['.'],
        ),
{
    let w = number::decimal(a as nat);
    let x = number::decimal(b as nat);
    let y = number::decimal(c as nat);
    let z = number::decimal(d as nat);
    let parts = seq![w, x, y, z];
    lemma_octet(a);
    lemma_octet(b);
    lemma_octet(c);
    lemma_octet(d);
    lemma_split_of_join(parts, '.');
    if v4_literal(s) == Some((a, b, c, d)) {
        let found = split(s, '.');
        lemma_octet_is_canonical(found[0], a);
        lemma_octet_is_canonical(found[1], b);
        lemma_octet_is_canonical(found[2], c);
        lemma_octet_is_canonical(found[3], d);
        assert(found == parts);
        lemma_parts_join_back(s, '.');
    }
}

proof fn lemma_octet_is_canonical(s: Seq<char>, n: u8)
    requires
        octet(s) == Some(n),
    ensures
        s == number::decimal(n as nat),
{
    lemma_canonical(s, n as nat);
}

/// Parts that each stay whole are found again in what they are joined to.
proof fn lemma_split_of_join(parts: Seq<Seq<char>>, c: char)
    requires
        parts.len() > 0,
        forall|i: int| 0 <= i < parts.len() ==> split(#[trigger] parts[i], c) == seq![parts[i]],
    ensures
        split(text::join(parts, seq![c]), c) == parts,
    decreases parts.len(),
{
    assert(split(parts[parts.len() - 1], c) == seq![parts.last()]);
    if parts.len() == 1 {
        assert(parts == seq![parts[0]]);
    } else {
        let front = parts.drop_last();
        assert forall|i: int| 0 <= i < front.len() implies split(#[trigger] front[i], c) == seq![
            front[i],
        ] by {
            assert(front[i] == parts[i]);
        }
        lemma_split_of_join(front, c);
        let before = text::join(front, seq![c]);
        lemma_split_joined(before, parts.last(), c);
        assert(before + seq![c] + parts.last() == before.push(c) + parts.last());
        assert(front + seq![parts.last()] == parts);
    }
}

/// The segments of groups are those of the first ones and then of the others; a group of one to
/// four hexadecimal digits is one segment with that value.
pub proof fn every_group_is_a_segment(
    a: Seq<Seq<char>>,
    b: Seq<Seq<char>>,
    group: Seq<char>,
    mixed: bool,
)
    requires
        b.len() > 0,
    ensures
        segments_of(a + b, mixed) == match (segments_of(a, false), segments_of(b, mixed)) {
            (Some(x), Some(y)) => Some(x + y),
            _ => None,
        },
        segment(group) matches Some(value) ==> segments_of(seq![group], mixed) == Some(seq![value])
            && 1 <= group.len() <= 4 && number::digits_value(group, 16) == Some(value as nat),
        1 <= group.len() <= 4 && number::digits_value(group, 16) is Some ==> segment(group) is Some,
        segment(group) is None ==> (v4_literal(group) matches Some((p, q, r, s)) ==> segments_of(
            seq![group],
            true,
        ) == Some(seq![(p * 256 + q) as u16, (r * 256 + s) as u16])),
    decreases b.len(),
{
    lemma_short_hexadecimal(group);
    assert(seq![group].drop_last() == Seq::<Seq<char>>::empty());
    assert(segments_of(seq![group].drop_last(), false) == Some(Seq::<u16>::empty()));
    assert(seq![group].last() == group);
    if let Some(value) = segment(group) {
        assert(Seq::<u16>::empty().push(value) == seq![value]);
    } else if let Some((p, q, r, s)) = v4_literal(group) {
        assert(Seq::<u16>::empty().push((p * 256 + q) as u16).push((r * 256 + s) as u16) == seq![
            (p * 256 + q) as u16,
            (r * 256 + s) as u16,
        ]);
    }
    let all = a + b;
    assert(all.last() == b.last());
    assert(all.drop_last() == a + b.drop_last());
    if b.len() == 1 {
        assert(b.drop_last() == Seq::<Seq<char>>::empty());
        assert(all.drop_last() == a);
        assert(segments_of(b.drop_last(), false) == Some(Seq::<u16>::empty()));
    } else {
        every_group_is_a_segment(a, b.drop_last(), group, false);
    }
    if let Some(x) = segments_of(a, false) {
        if let Some(y) = segments_of(b.drop_last(), false) {
            assert(segments_of(all.drop_last(), false) == Some(x + y)) by {
                if b.len() == 1 {
                    assert(x + Seq::<u16>::empty() == x);
                }
            }
            if let Some(value) = segment(b.last()) {
                assert((x + y).push(value) == x + y.push(value));
            } else if let Some((p, q, r, s)) = v4_literal(b.last()) {
                let one = (p * 256 + q) as u16;
                let two = (r * 256 + s) as u16;
                assert((x + y).push(one).push(two) == x + y.push(one).push(two));
            }
        }
    }
}

proof fn lemma_short_hexadecimal(s: Seq<char>)
    ensures
        s.len() <= 4 && number::digits_value(s, 16) is Some ==> number::digits_value(
            s,
            16,
        ).unwrap() <= 0xffff,
{
    reveal_with_fuel(number::digits_value, 6);
}

/// Whether no two neighbours are colons, and neither end is one.
spec fn no_gap(s: Seq<char>) -> bool {
    &&& s.len() > 0 ==> s[0] != ':' && s.last() != ':'
    &&& forall|k: int| 0 <= k < s.len() - 1 && #[trigger] s[k] == ':' ==> s[k + 1] != ':'
}

proof fn lemma_segment_digits(s: Seq<char>, k: int)
    requires
        number::digits_value(s, 16) is Some,
        0 <= k < s.len(),
    ensures
        s[k] != ':',
        s[k] != '.',
    decreases s.len(),
{
    if k < s.len() - 1 {
        assert(s.drop_last()[k] == s[k]);
        lemma_segment_digits(s.drop_last(), k);
    }
}

proof fn lemma_run_of_groups(groups: Seq<Seq<char>>)
    requires
        forall|i: int| 0 <= i < groups.len() ==> segment(#[trigger] groups[i]) is Some,
    ensures
        ({
            let s = text::join(groups, seq![':']);
            &&& no_gap(s)
            &&& forall|k: int| 0 <= k < s.len() ==> #[trigger] s[k] != '.'
            &&& groups.len() > 0 ==> s.len() > 0 && split(s, ':') == groups
        }),
    decreases groups.len(),
{
    let s = text::join(groups, seq![':']);
    if groups.len() > 0 {
        assert forall|i: int| 0 <= i < groups.len() implies split(#[trigger] groups[i], ':')
            == seq![groups[i]] by {
            assert(segment(groups[i]) is Some);
            assert forall|k: int| 0 <= k < groups[i].len() implies groups[i][k] != ':' by {
                lemma_segment_digits(groups[i], k);
            }
            lemma_split_whole(groups[i], ':');
        }
        lemma_split_of_join(groups, ':');
        let last = groups.last();
        assert(segment(groups[groups.len() - 1]) is Some);
        assert forall|k: int| 0 <= k < last.len() implies last[k] != ':' && last[k] != '.' by {
            lemma_segment_digits(last, k);
        }
        if groups.len() == 1 {
            assert(s == last);
        } else {
            let front = groups.drop_last();
            assert forall|i: int| 0 <= i < front.len() implies segment(#[trigger] front[i]) is Some by {
                assert(front[i] == groups[i]);
            }
            lemma_run_of_groups(front);
            let before = text::join(front, seq![':']);
            let n = before.len() as int;
            assert(s == before + seq![':'] + last);
            assert forall|k: int| 0 <= k < s.len() implies #[trigger] s[k] != '.' by {
                if k < n {
                    assert(s[k] == before[k]);
                } else if k > n {
                    assert(s[k] == last[k - n - 1]);
                }
            }
            assert forall|k: int| 0 <= k < s.len() - 1 && #[trigger] s[k] == ':' implies s[k + 1]
                != ':' by {
                if k < n {
                    assert(s[k] == before[k]);
                    if k + 1 < n {
                        assert(s[k + 1] == before[k + 1]);
                    } else {
                        assert(before.last() != ':');
                    }
                } else {
                    assert(s[k + 1] == last[k - n]);
                }
            }
            assert(s[0] == before[0]);
            assert(s.last() == last.last());
        }
    }
}

proof fn lemma_gap_at(s: Seq<char>, from: int, at: int)
    requires
        0 <= from <= at,
        at + 2 <= s.len() || at == s.len(),
        at < s.len() ==> s[at] == ':' && s[at + 1] == ':',
        forall|k: int| from <= k < at && k + 1 < s.len() ==> !(#[trigger] s[k] == ':' && s[k + 1]
            == ':'),
    ensures
        gap_from(s, from) == at,
    decreases at - from,
{
    if from < at && from + 1 < s.len() {
        assert(!(s[from] == ':' && s[from + 1] == ':'));
        lemma_gap_at(s, from + 1, at);
    }
}

/// Eight groups with colons between them are the literal of the address with those segments.
pub proof fn eight_groups_are_a_literal(groups: Seq<Seq<char>>, all: Seq<u16>)
    requires
        groups.len() == 8,
        forall|i: int| 0 <= i < 8 ==> segment(#[trigger] groups[i]) is Some,
        segments_of(groups, true) == Some(all),
        all.len() == 8,
    ensures
        ip_literal(text::join(groups, seq![':'])) == Some(v6_address(all)),
{
    let s = text::join(groups, seq![':']);
    lemma_run_of_groups(groups);
    lemma_gap_at(s, 0, s.len() as int);
    lemma_split_whole(s, '.');
}

/// Groups on both sides of two colons, seven at most, are the literal of the address with the
/// segments of the first, zeros, and the segments of the others.
pub proof fn two_colons_stand_for_zeros(
    head: Seq<Seq<char>>,
    tail: Seq<Seq<char>>,
    first: Seq<u16>,
    second: Seq<u16>,
)
    requires
        forall|i: int| 0 <= i < head.len() ==> segment(#[trigger] head[i]) is Some,
        forall|i: int| 0 <= i < tail.len() ==> segment(#[trigger] tail[i]) is Some,
        segments_of(head, false) == Some(first),
        segments_of(tail, true) == Some(second),
    ensures
        first.len() + second.len() <= 7 ==> ip_literal(
            text::join(head, seq![':']) + seq![':', ':'] + text::join(tail, seq![':']),
        ) == Some(v6_address(first + zeros(8 - first.len() - second.len()) + second)),
        first.len() + second.len() > 7 ==> ip_literal(
            text::join(head, seq![':']) + seq![':', ':'] + text::join(tail, seq![':']),
        ) is None,
{
    let front = text::join(head, seq![':']);
    let back = text::join(tail, seq![':']);
    let s = front + seq![':', ':'] + back;
    let at = front.len() as int;
    lemma_run_of_groups(head);
    lemma_run_of_groups(tail);
    assert(s[at] == ':' && s[at + 1] == ':');
    assert forall|k: int| 0 <= k < at && k + 1 < s.len() implies !(#[trigger] s[k] == ':' && s[k + 1]
        == ':') by {
        assert(s[k] == front[k]);
        if k + 1 < at {
            assert(s[k + 1] == front[k + 1]);
        } else {
            assert(front.last() != ':');
        }
    }
    lemma_gap_at(s, 0, at);
    assert(s.take(at) == front);
    assert(s.skip(at + 2) == back);
    assert forall|k: int| 0 <= k < s.len() implies s[k] != '.' by {
        if k < at {
            assert(s[k] == front[k]);
        } else if k >= at + 2 {
            assert(s[k] == back[k - at - 2]);
        }
    }
    lemma_split_whole(s, '.');
    if head.len() == 0 {
        assert(front == Seq::<char>::empty());
    }
    if tail.len() == 0 {
        assert(back == Seq::<char>::empty());
    }
}

} // verus!
