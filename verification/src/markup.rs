//! Turning marked-up text into plain text: character references and white space.
use vstd::prelude::*;

use crate::number;
use crate::number::read_unsigned;
use crate::text;
use crate::text::{
    chars_of, find_char, is_white_space, same_text, slice_to_string, starts_with,
};

verus! {

/// `char::from_u32`: the character with the given code, if the code is a Unicode scalar value.
pub assume_specification[ char::from_u32 ](i: u32) -> (r: Option<char>)
    ensures
        match r {
            Some(c) => scalar_value(i as nat) && c as u32 == i,
            None => !scalar_value(i as nat),
        },
;

/// Whether `code` is a Unicode scalar value.
pub open spec fn scalar_value(code: nat) -> bool {
    code <= 0x10FFFF && !(0xD800 <= code <= 0xDFFF)
}

/// The character that a numeric character reference stands for.
pub open spec fn numbered_char(code: Option<nat>) -> Option<char> {
    match code {
        Some(value) if scalar_value(value) => Some((value as u32) as char),
        _ => None,
    }
}

/// The character that a character reference (the text between `&` and `;`) stands for.
pub open spec fn entity_char(entity: Seq<char>) -> Option<char> {
    if entity.len() >= 2 && entity[0] == '#' && (entity[1] == 'x' || entity[1] == 'X') {
        numbered_char(number::unsigned_value(entity.skip(2), 16, u32::MAX as nat))
    } else if entity.len() >= 1 && entity[0] == '#' {
        numbered_char(number::unsigned_value(entity.skip(1), 10, u32::MAX as nat))
    } else if entity == "amp"@ {
        Some('&')
    } else if entity == "apos"@ {
        Some('\'')
    } else if entity == "gt"@ {
        Some('>')
    } else if entity == "lt"@ {
        Some('<')
    } else if entity == "nbsp"@ {
        Some(' ')
    } else if entity == "quot"@ {
        Some('"')
    } else {
        None
    }
}

/// The string of one character.
fn one_char(c: char) -> (r: String)
    ensures
        r@ == seq![c],
{
    let mut r = String::new();
    r.push(c);
    r
}

/// Decodes a character reference: hexadecimal (`#x...`), decimal (`#...`), or one of the names
/// `amp`, `apos`, `gt`, `lt`, `nbsp` and `quot`. A non-breaking space becomes a plain space.
pub fn decode_entity(entity: &str) -> (r: Option<String>)
    ensures
        match r {
            Some(decoded) => entity_char(entity@) is Some && decoded@ == seq![
                entity_char(entity@).unwrap(),
            ],
            None => entity_char(entity@) is None,
        },
{
    let chars = chars_of(entity);
    if chars.len() >= 1 && chars[0] == '#' {
        let hexadecimal: bool = chars.len() >= 2 && (chars[1] == 'x' || chars[1] == 'X');
        let start: usize = if hexadecimal {
            2
        } else {
            1
        };
        return match read_unsigned(&chars, start, hexadecimal, u32::MAX as u64) {
            Some(code) => match char::from_u32(code as u32) {
                Some(c) => {
                    proof {
                        vstd::utf8::char_u32_cast(c, code as u32);
                    }
                    Some(one_char(c))
                },
                None => None,
            },
            None => None,
        };
    }
    proof {
        reveal_strlit("amp");
        reveal_strlit("apos");
        reveal_strlit("gt");
        reveal_strlit("lt");
        reveal_strlit("nbsp");
        reveal_strlit("quot");
    }
    if same_text(entity, "amp") {
        Some(one_char('&'))
    } else if same_text(entity, "apos") {
        Some(one_char('\''))
    } else if same_text(entity, "gt") {
        Some(one_char('>'))
    } else if same_text(entity, "lt") {
        Some(one_char('<'))
    } else if same_text(entity, "nbsp") {
        Some(one_char(' '))
    } else if same_text(entity, "quot") {
        Some(one_char('"'))
    } else {
        None
    }
}

/// `s` from index `from` on, with its character references decoded: each `&` is read up to the
/// next `;`. A reference that stands for nothing stays as it is, and so does everything from an
/// `&` on that no `;` follows.
pub open spec fn decoded_from(s: Seq<char>, from: int) -> Seq<char>
    decreases s.len() - from,
{
    if 0 <= from <= s.len() {
        let amp = text::find_from(s, '&', from);
        let semi = text::find_from(s, ';', amp + 1);
        if amp >= s.len() || semi >= s.len() {
            s.skip(from)
        } else {
            proof {
                text::lemma_find_from(s, '&', from);
                text::lemma_find_from(s, ';', amp + 1);
            }
            s.subrange(from, amp) + match entity_char(s.subrange(amp + 1, semi)) {
                Some(c) => seq![c],
                None => s.subrange(amp, semi + 1),
            } + decoded_from(s, semi + 1)
        }
    } else {
        Seq::empty()
    }
}

/// `s` with its character references decoded.
pub open spec fn decoded(s: Seq<char>) -> Seq<char> {
    decoded_from(s, 0)
}

/// Decodes the character references of a text, once.
pub fn decode_html_entities(s: &str) -> (r: String)
    ensures
        r@ == decoded(s@),
{
    let chars = chars_of(s);
    let mut out = String::new();
    let mut start: usize = 0;
    while start < chars.len()
        invariant
            start <= chars@.len(),
            chars@ == s@,
            out@ + decoded_from(chars@, start as int) == decoded(s@),
        decreases chars@.len() - start,
    {
        let amp: usize = find_char(&chars, '&', start);
        proof {
            text::lemma_find_from(chars@, '&', start as int);
        }
        if amp == chars.len() {
            let rest = slice_to_string(&chars, start, chars.len());
            out.append(rest.as_str());
            return out;
        }
        let semi: usize = find_char(&chars, ';', amp + 1);
        proof {
            text::lemma_find_from(chars@, ';', amp + 1);
        }
        if semi == chars.len() {
            let rest = slice_to_string(&chars, start, chars.len());
            out.append(rest.as_str());
            return out;
        }
        let ghost before = out@;
        let plain = slice_to_string(&chars, start, amp);
        out.append(plain.as_str());
        let entity = slice_to_string(&chars, amp + 1, semi);
        let piece = match decode_entity(entity.as_str()) {
            Some(decoded) => decoded,
            None => slice_to_string(&chars, amp, semi + 1),
        };
        out.append(piece.as_str());
        proof {
            assert(out@ + decoded_from(chars@, semi + 1) == before + (plain@ + piece@
                + decoded_from(chars@, semi + 1)));
        }
        start = semi + 1;
    }
    proof {
        assert(decoded_from(chars@, start as int) == Seq::<char>::empty());
        assert(out@ + Seq::<char>::empty() == out@);
    }
    out
}

/// `s` with every run of white space as one space, and none at either end.
pub open spec fn collapsed(s: Seq<char>) -> Seq<char> {
    text::join(text::words(s), seq![' '])
}

/// The words of a text, with one space between neighbours.
pub fn collapse_ws(s: &str) -> (r: String)
    ensures
        r@ == collapsed(s@),
{
    let chars = chars_of(s);
    let mut out = String::new();
    let ghost mut done: Seq<Seq<char>> = Seq::empty();
    let mut i: usize = 0;
    while i < chars.len()
        invariant
            i <= chars@.len(),
            chars@ == s@,
            done + text::words_from(chars@, i as int) == text::words(s@),
            out@ == text::join(done, seq![' ']),
            (out@.len() == 0) == (done.len() == 0),
        decreases chars@.len() - i,
    {
        let ghost from = i as int;
        let mut start: usize = i;
        while start < chars.len() && is_white_space(chars[start])
            invariant
                i <= start <= chars@.len(),
                text::skip_white(chars@, start as int) == text::skip_white(chars@, i as int),
            decreases chars@.len() - start,
        {
            start += 1;
        }
        if start == chars.len() {
            proof {
                assert(done + Seq::<Seq<char>>::empty() == done);
            }
            return out;
        }
        let mut end: usize = start;
        while end < chars.len() && !is_white_space(chars[end])
            invariant
                start <= end <= chars@.len(),
                text::skip_word(chars@, end as int) == text::skip_word(chars@, start as int),
            decreases chars@.len() - end,
        {
            end += 1;
        }
        let word = slice_to_string(&chars, start, end);
        proof {
            text::lemma_skip_white(chars@, from);
            text::lemma_skip_word(chars@, start as int);
            text::lemma_join_push(done, word@, seq![' ']);
            assert(text::words_from(chars@, from) == seq![word@] + text::words_from(chars@, end as int));
            assert(done + text::words_from(chars@, from) == done.push(word@) + text::words_from(
                chars@,
                end as int,
            ));
            done = done.push(word@);
        }
        if !out.as_str().is_empty() {
            out.push(' ');
        }
        out.append(word.as_str());
        i = end;
    }
    proof {
        assert(done + Seq::<Seq<char>>::empty() == done);
    }
    out
}

/// The readable text of `s`: its character references decoded twice and its white space
/// collapsed; `None` where nothing is left.
pub open spec fn cleaned(s: Seq<char>) -> Option<Seq<char>> {
    let text = collapsed(decoded(decoded(s)));
    if text.len() == 0 {
        None
    } else {
        Some(text)
    }
}

/// The readable text of `text`, if any is left once its character references (which may be
/// encoded twice) are decoded and its white space is collapsed.
pub fn non_empty_text(text: &str) -> (r: Option<String>)
    ensures
        r.deep_view() == cleaned(text@),
{
    let once = decode_html_entities(text);
    let twice = decode_html_entities(once.as_str());
    let collapsed = collapse_ws(twice.as_str());
    if collapsed.as_str().is_empty() {
        None
    } else {
        Some(collapsed)
    }
}

/// How the description of a review platform begins that stands in place of an abstract.
pub open spec fn boilerplate(s: Seq<char>) -> bool {
    "Promoting openness in scientific communication and the peer-review process"@.is_prefix_of(s)
}

/// Whether `text` is the description of a review platform and no abstract.
pub fn is_boilerplate_abstract(text: &str) -> (r: bool)
    ensures
        r == boilerplate(text@),
{
    starts_with(
        text,
        "Promoting openness in scientific communication and the peer-review process",
    )
}

/// Collapsing white space keeps the words of a text, and nothing else.
pub proof fn collapsing_keeps_words(s: Seq<char>)
    ensures
        text::words(collapsed(s)) == text::words(s),
{
    text::lemma_words_are_words(s, 0);
    text::joined_words_are_kept(text::words(s));
}

/// Collapsing white space twice is collapsing it once.
pub proof fn collapsing_is_idempotent(s: Seq<char>)
    ensures
        collapsed(collapsed(s)) == collapsed(s),
{
    collapsing_keeps_words(s);
}

/// A text without `&` has nothing to decode.
pub proof fn decoding_keeps_plain_text(s: Seq<char>)
    requires
        forall|k: int| 0 <= k < s.len() ==> s[k] != '&',
    ensures
        decoded(s) == s,
{
    text::lemma_find_from(s, '&', 0);
    assert(s.skip(0) == s);
}

/// Whether `s`, read from `from` on, ends outside a character reference: every `&` that begins one
/// is followed by the `;` that ends it.
pub open spec fn ends_outside_from(s: Seq<char>, from: int) -> bool
    decreases s.len() - from,
{
    if 0 <= from <= s.len() {
        let amp = text::find_from(s, '&', from);
        let semi = text::find_from(s, ';', amp + 1);
        if amp >= s.len() {
            true
        } else if semi >= s.len() {
            false
        } else {
            proof {
                text::lemma_find_from(s, '&', from);
                text::lemma_find_from(s, ';', amp + 1);
            }
            ends_outside_from(s, semi + 1)
        }
    } else {
        true
    }
}

/// Whether `s` ends outside a character reference.
pub open spec fn ends_outside(s: Seq<char>) -> bool {
    ends_outside_from(s, 0)
}

proof fn lemma_find_behind(a: Seq<char>, b: Seq<char>, c: char, from: int)
    requires
        0 <= from <= b.len(),
    ensures
        text::find_from(a + b, c, a.len() + from) == a.len() + text::find_from(b, c, from),
    decreases b.len() - from,
{
    if from < b.len() {
        assert((a + b)[a.len() + from] == b[from]);
        if b[from] != c {
            lemma_find_behind(a, b, c, from + 1);
        }
    }
}

proof fn lemma_find_before(a: Seq<char>, b: Seq<char>, c: char, from: int)
    requires
        0 <= from <= a.len(),
    ensures
        text::find_from(a + b, c, from) == if text::find_from(a, c, from) < a.len() {
            text::find_from(a, c, from)
        } else {
            a.len() + text::find_from(b, c, 0)
        },
    decreases a.len() - from,
{
    if from < a.len() {
        assert((a + b)[from] == a[from]);
        if a[from] != c {
            lemma_find_before(a, b, c, from + 1);
        }
    } else {
        lemma_find_behind(a, b, c, 0);
    }
}

proof fn lemma_decoded_behind(a: Seq<char>, b: Seq<char>, from: int)
    requires
        0 <= from <= b.len(),
    ensures
        decoded_from(a + b, a.len() + from) == decoded_from(b, from),
    decreases b.len() - from,
{
    let all = a + b;
    let amp = text::find_from(b, '&', from);
    text::lemma_find_from(b, '&', from);
    lemma_find_behind(a, b, '&', from);
    assert(all.skip(a.len() + from) == b.skip(from));
    if amp < b.len() {
        let semi = text::find_from(b, ';', amp + 1);
        text::lemma_find_from(b, ';', amp + 1);
        lemma_find_behind(a, b, ';', amp + 1);
        if semi < b.len() {
            lemma_decoded_behind(a, b, semi + 1);
            assert(all.subrange(a.len() + from, a.len() + amp) == b.subrange(from, amp));
            assert(all.subrange(a.len() + amp, a.len() + semi + 1) == b.subrange(amp, semi + 1));
            assert(all.subrange(a.len() + amp + 1, a.len() + semi) == b.subrange(amp + 1, semi));
        }
    }
}

proof fn lemma_decoded_concatenated(a: Seq<char>, b: Seq<char>, from: int)
    requires
        0 <= from <= a.len(),
        ends_outside_from(a, from),
    ensures
        decoded_from(a + b, from) == decoded_from(a, from) + decoded(b),
    decreases a.len() - from,
{
    let all = a + b;
    let amp = text::find_from(a, '&', from);
    text::lemma_find_from(a, '&', from);
    lemma_find_before(a, b, '&', from);
    if amp < a.len() {
        let semi = text::find_from(a, ';', amp + 1);
        text::lemma_find_from(a, ';', amp + 1);
        lemma_find_before(a, b, ';', amp + 1);
        lemma_decoded_concatenated(a, b, semi + 1);
        assert(all.subrange(from, amp) == a.subrange(from, amp));
        assert(all.subrange(amp, semi + 1) == a.subrange(amp, semi + 1));
        assert(all.subrange(amp + 1, semi) == a.subrange(amp + 1, semi));
        assert(decoded_from(all, from) == decoded_from(a, from) + decoded(b));
    } else {
        let next = text::find_from(b, '&', 0);
        text::lemma_find_from(b, '&', 0);
        assert(decoded_from(a, from) == a.skip(from));
        assert(b.skip(0) == b);
        assert(all.skip(from) == a.skip(from) + b);
        if next < b.len() {
            let semi = text::find_from(b, ';', next + 1);
            text::lemma_find_from(b, ';', next + 1);
            lemma_find_behind(a, b, ';', next + 1);
            if semi < b.len() {
                lemma_decoded_behind(a, b, semi + 1);
                assert(all.subrange(from, a.len() + next) == a.skip(from) + b.subrange(0, next));
                assert(all.subrange(a.len() + next, a.len() + semi + 1) == b.subrange(
                    next,
                    semi + 1,
                ));
                assert(all.subrange(a.len() + next + 1, a.len() + semi) == b.subrange(
                    next + 1,
                    semi,
                ));
                assert(decoded_from(all, from) == a.skip(from) + decoded(b));
            }
        }
    }
}

/// A text that ends outside a character reference is decoded alone, whatever follows it.
pub proof fn decoding_concatenates(a: Seq<char>, b: Seq<char>)
    requires
        ends_outside(a),
    ensures
        decoded(a + b) == decoded(a) + decoded(b),
{
    lemma_decoded_concatenated(a, b, 0);
}

/// A text without `&` stays as it is before any other text.
pub proof fn decoding_keeps_plain_beginnings(a: Seq<char>, b: Seq<char>)
    requires
        forall|k: int| 0 <= k < a.len() ==> a[k] != '&',
    ensures
        decoded(a + b) == a + decoded(b),
{
    text::lemma_find_from(a, '&', 0);
    decoding_keeps_plain_text(a);
    decoding_concatenates(a, b);
}

/// A reference that nothing ends stays as it is, with all that follows it.
pub proof fn decoding_keeps_open_references(t: Seq<char>)
    requires
        forall|k: int| 0 <= k < t.len() ==> t[k] != ';',
    ensures
        decoded(seq!['&'] + t) == seq!['&'] + t,
{
    let s = seq!['&'] + t;
    assert(s[0] == '&');
    text::lemma_find_from(s, '&', 0);
    text::lemma_find_from(s, ';', 1);
    assert forall|k: int| 0 < k < s.len() implies s[k] == t[k - 1] by {}
    assert(s.skip(0) == s);
}

/// A reference is replaced by the character that it stands for, or stays as it is where it stands
/// for none; what follows it is decoded alone.
pub proof fn references_are_decoded_one_by_one(e: Seq<char>, b: Seq<char>)
    requires
        forall|k: int| 0 <= k < e.len() ==> e[k] != ';',
    ensures
        decoded(seq!['&'] + e + seq![';'] + b) == match entity_char(e) {
            Some(c) => seq![c],
            None => seq!['&'] + e + seq![';'],
        } + decoded(b),
{
    let s = seq!['&'] + e + seq![';'];
    let n = e.len() as int;
    assert(s[0] == '&');
    assert(s[n + 1] == ';');
    text::lemma_find_from(s, '&', 0);
    text::lemma_find_from(s, ';', 1);
    assert forall|k: int| 0 < k < s.len() - 1 implies s[k] == e[k - 1] by {}
    assert(text::find_from(s, ';', 1) == n + 1);
    assert(s.subrange(1, n + 1) == e);
    assert(s.subrange(0, n + 2) == s);
    assert(s.subrange(0, 0) == Seq::<char>::empty());
    text::lemma_find_from(s, '&', s.len() as int);
    assert(decoded_from(s, s.len() as int) == Seq::<char>::empty());
    assert(ends_outside_from(s, s.len() as int));
    assert(ends_outside(s));
    assert(decoded(s) == match entity_char(e) {
        Some(c) => seq![c],
        None => s,
    });
    decoding_concatenates(s, b);
}

/// How many bytes a text takes in UTF-8.
pub open spec fn byte_length(s: Seq<char>) -> nat {
    vstd::utf8::encode_utf8(s).len()
}

proof fn lemma_byte_length(a: Seq<char>, b: Seq<char>)
    ensures
        byte_length(a + b) == byte_length(a) + byte_length(b),
        a.len() <= byte_length(a),
    decreases a.len(),
{
    if a.len() == 0 {
        assert(a + b == b);
    } else {
        vstd::utf8::char_is_scalar(a[0]);
        assert((a + b).drop_first() == a.drop_first() + b);
        assert((a + b)[0] == a[0]);
        lemma_byte_length(a.drop_first(), b);
    }
}

proof fn lemma_one_char(c: char)
    ensures
        byte_length(seq![c]) <= 4,
{
    assert(seq![c].drop_first() == Seq::<char>::empty());
    assert(byte_length(Seq::<char>::empty()) == 0);
}

proof fn lemma_entity_length(e: Seq<char>)
    requires
        entity_char(e) is Some,
    ensures
        e.len() >= 2,
{
    reveal_strlit("amp");
    reveal_strlit("apos");
    reveal_strlit("gt");
    reveal_strlit("lt");
    reveal_strlit("nbsp");
    reveal_strlit("quot");
}

proof fn lemma_decoding_never_grows(s: Seq<char>, from: int)
    requires
        0 <= from <= s.len(),
    ensures
        byte_length(decoded_from(s, from)) <= byte_length(s.skip(from)),
    decreases s.len() - from,
{
    let amp = text::find_from(s, '&', from);
    text::lemma_find_from(s, '&', from);
    if amp < s.len() {
        let semi = text::find_from(s, ';', amp + 1);
        text::lemma_find_from(s, ';', amp + 1);
        if semi < s.len() {
            let plain = s.subrange(from, amp);
            let whole = s.subrange(amp, semi + 1);
            let entity = s.subrange(amp + 1, semi);
            let piece = match entity_char(entity) {
                Some(c) => seq![c],
                None => whole,
            };
            let rest = decoded_from(s, semi + 1);
            lemma_decoding_never_grows(s, semi + 1);
            assert(s.skip(from) == plain + whole + s.skip(semi + 1));
            lemma_byte_length(plain + whole, s.skip(semi + 1));
            lemma_byte_length(plain, whole);
            lemma_byte_length(plain + piece, rest);
            lemma_byte_length(plain, piece);
            if let Some(c) = entity_char(entity) {
                lemma_entity_length(entity);
                lemma_one_char(c);
                lemma_byte_length(whole, Seq::empty());
            }
        }
    }
}

/// Decoding never makes a text longer in bytes.
pub proof fn decoding_never_grows(s: Seq<char>)
    ensures
        byte_length(decoded(s)) <= byte_length(s),
{
    lemma_decoding_never_grows(s, 0);
    assert(s.skip(0) == s);
}

/// What cleaning leaves is not empty and has its white space collapsed.
pub proof fn cleaned_text_is_normal(s: Seq<char>)
    requires
        cleaned(s) is Some,
    ensures
        cleaned(s).unwrap().len() > 0,
        collapsed(cleaned(s).unwrap()) == cleaned(s).unwrap(),
{
    collapsing_is_idempotent(decoded(decoded(s)));
}

/// A numeric reference, in decimal or hexadecimal digits, stands for the character with that code,
/// whichever it is, and for nothing where there is none.
pub proof fn numeric_references_name_every_character(digits: Seq<char>, code: nat)
    requires
        digits.len() > 0,
        digits[0] != '+',
    ensures
        number::digits_value(digits, 10) == Some(code) && digits[0] != 'x' && digits[0] != 'X'
            ==> match entity_char(seq!['#'] + digits) {
            Some(c) => c as u32 == code,
            None => code > 0x10FFFF || 0xD800 <= code <= 0xDFFF,
        },
        number::digits_value(digits, 16) == Some(code) ==> match entity_char(
            seq!['#', 'x'] + digits,
        ) {
            Some(c) => c as u32 == code,
            None => code > 0x10FFFF || 0xD800 <= code <= 0xDFFF,
        },
        entity_char(seq!['#', 'X'] + digits) == entity_char(seq!['#', 'x'] + digits),
{
    let short = seq!['#'] + digits;
    let lower = seq!['#', 'x'] + digits;
    let upper = seq!['#', 'X'] + digits;
    assert(short.skip(1) == digits);
    assert(lower.skip(2) == digits);
    assert(upper.skip(2) == digits);
    assert(short[1] == digits[0]);
}

/// A decimal reference stands for the character whose code it spells.
pub proof fn decimal_references_read_back(c: char)
    ensures
        entity_char(seq!['#'] + number::decimal(c as u32 as nat)) == Some(c),
{
    let digits = number::decimal(c as u32 as nat);
    number::decimal_reads_back(c as u32 as nat, u32::MAX as nat);
    let entity = seq!['#'] + digits;
    assert(entity.skip(1) == digits);
    number::lemma_decimal_is_digits(c as u32 as nat);
    assert(entity[1] == digits[0]);
    vstd::utf8::char_is_scalar(c);
    vstd::utf8::char_u32_cast(c, c as u32);
}

/// Six references have names; no other name stands for a character.
pub proof fn names_stand_for_six_characters(name: Seq<char>)
    requires
        name.len() == 0 || name[0] != '#',
    ensures
        name == "amp"@ ==> entity_char(name) == Some('&'),
        name == "apos"@ ==> entity_char(name) == Some('\''),
        name == "gt"@ ==> entity_char(name) == Some('>'),
        name == "lt"@ ==> entity_char(name) == Some('<'),
        name == "nbsp"@ ==> entity_char(name) == Some(' '),
        name == "quot"@ ==> entity_char(name) == Some('"'),
        entity_char(name) is Some ==> (name == "amp"@ || name == "apos"@ || name == "gt"@ || name
            == "lt"@ || name == "nbsp"@ || name == "quot"@),
{
    reveal_strlit("amp");
    reveal_strlit("apos");
    reveal_strlit("gt");
    reveal_strlit("lt");
    reveal_strlit("nbsp");
    reveal_strlit("quot");
}

/// Whether all white space in a text is single spaces between other characters.
pub open spec fn singly_spaced(s: Seq<char>) -> bool {
    forall|k: int|
        0 <= k < s.len() && text::white_space(#[trigger] s[k]) ==> s[k] == ' ' && 0 < k < s.len()
            - 1 && !text::white_space(s[k - 1]) && !text::white_space(s[k + 1])
}

proof fn lemma_singly_spaced(list: Seq<Seq<char>>)
    requires
        text::all_words(list),
    ensures
        singly_spaced(text::join(list, seq![' '])),
        list.len() > 0 ==> ({
            let s = text::join(list, seq![' ']);
            s.len() > 0 && !text::white_space(s[0]) && !text::white_space(s.last())
        }),
    decreases list.len(),
{
    if list.len() > 0 {
        let s = text::join(list, seq![' ']);
        let last = list.last();
        assert(list[list.len() - 1] == last);
        assert(last.len() > 0 && forall|k: int|
            0 <= k < last.len() ==> !text::white_space(#[trigger] last[k]));
        if list.len() == 1 {
            assert(s == last);
        } else {
            let front = list.drop_last();
            assert forall|i: int| 0 <= i < front.len() implies (#[trigger] front[i]).len() > 0
                && forall|k: int| 0 <= k < front[i].len() ==> !text::white_space(
                #[trigger] front[i][k],
            ) by {
                assert(front[i] == list[i]);
            }
            lemma_singly_spaced(front);
            let before = text::join(front, seq![' ']);
            assert(s == before + seq![' '] + last);
            assert(s[0] == before[0]);
            assert(s.last() == last.last());
            assert forall|k: int| 0 <= k < s.len() && text::white_space(#[trigger] s[k]) implies s[k]
                == ' ' && 0 < k < s.len() - 1 && !text::white_space(s[k - 1])
                && !text::white_space(s[k + 1]) by {
                let n = before.len() as int;
                if k < n {
                    assert(s[k] == before[k]);
                    assert(s[k - 1] == before[k - 1]);
                    assert(s[k + 1] == before[k + 1]);
                } else if k > n {
                    assert(s[k] == last[k - n - 1]);
                } else {
                    assert(s[k - 1] == before.last());
                    assert(s[k + 1] == last[0]);
                }
            }
        }
    }
}

/// Collapsed text holds the words of the text, in order, with one space between neighbours, and
/// nothing else.
pub proof fn collapsed_text_is_singly_spaced(s: Seq<char>)
    ensures
        singly_spaced(collapsed(s)),
        text::words(collapsed(s)) == text::words(s),
        collapsed(s).len() == 0 <==> text::words(s).len() == 0,
{
    text::lemma_words_are_words(s, 0);
    lemma_singly_spaced(text::words(s));
    collapsing_keeps_words(s);
}

/// Cleaning keeps the words of a text whose references are decoded twice, in order and singly
/// spaced; it gives nothing just where there are no words.
pub proof fn cleaning_keeps_the_decoded_words(s: Seq<char>)
    ensures
        match cleaned(s) {
            Some(t) => {
                &&& singly_spaced(t)
                &&& text::words(t) == text::words(decoded(decoded(s)))
                &&& text::words(t).len() > 0
            },
            None => text::words(decoded(decoded(s))).len() == 0,
        },
{
    collapsed_text_is_singly_spaced(decoded(decoded(s)));
}

proof fn lemma_outside_behind(a: Seq<char>, b: Seq<char>, from: int)
    requires
        0 <= from <= b.len(),
    ensures
        ends_outside_from(a + b, a.len() + from) == ends_outside_from(b, from),
    decreases b.len() - from,
{
    let amp = text::find_from(b, '&', from);
    text::lemma_find_from(b, '&', from);
    lemma_find_behind(a, b, '&', from);
    if amp < b.len() {
        let semi = text::find_from(b, ';', amp + 1);
        text::lemma_find_from(b, ';', amp + 1);
        lemma_find_behind(a, b, ';', amp + 1);
        if semi < b.len() {
            lemma_outside_behind(a, b, semi + 1);
        }
    }
}

proof fn lemma_outside_concatenated(a: Seq<char>, b: Seq<char>, from: int)
    requires
        0 <= from <= a.len(),
        ends_outside_from(a, from),
        ends_outside(b),
    ensures
        ends_outside_from(a + b, from),
    decreases a.len() - from,
{
    let amp = text::find_from(a, '&', from);
    text::lemma_find_from(a, '&', from);
    lemma_find_before(a, b, '&', from);
    if amp < a.len() {
        let semi = text::find_from(a, ';', amp + 1);
        text::lemma_find_from(a, ';', amp + 1);
        lemma_find_before(a, b, ';', amp + 1);
        lemma_outside_concatenated(a, b, semi + 1);
    } else {
        let next = text::find_from(b, '&', 0);
        text::lemma_find_from(b, '&', 0);
        if next < b.len() {
            let semi = text::find_from(b, ';', next + 1);
            text::lemma_find_from(b, ';', next + 1);
            lemma_find_behind(a, b, ';', next + 1);
            lemma_outside_behind(a, b, semi + 1);
        }
    }
}

/// Texts that end outside a reference do so one behind the other, too.
pub proof fn closed_texts_may_be_joined(a: Seq<char>, b: Seq<char>)
    requires
        ends_outside(a),
        ends_outside(b),
    ensures
        ends_outside(a + b),
{
    lemma_outside_concatenated(a, b, 0);
}

/// A text without `&` ends outside a reference.
pub proof fn plain_text_is_closed(s: Seq<char>)
    requires
        forall|k: int| 0 <= k < s.len() ==> s[k] != '&',
    ensures
        ends_outside(s),
{
    text::lemma_find_from(s, '&', 0);
}

proof fn lemma_decoded_joined(list: Seq<Seq<char>>)
    requires
        forall|i: int| 0 <= i < list.len() ==> ends_outside(#[trigger] list[i]),
    ensures
        ends_outside(text::join(list, seq![' '])),
        decoded(text::join(list, seq![' '])) == text::join(
            Seq::new(list.len(), |i: int| decoded(list[i])),
            seq![' '],
        ),
    decreases list.len(),
{
    let out = Seq::new(list.len(), |i: int| decoded(list[i]));
    if list.len() == 0 {
        plain_text_is_closed(Seq::empty());
        decoding_keeps_plain_text(Seq::empty());
    } else if list.len() > 1 {
        let front = list.drop_last();
        let before = text::join(front, seq![' ']);
        assert forall|i: int| 0 <= i < front.len() implies ends_outside(#[trigger] front[i]) by {
            assert(front[i] == list[i]);
        }
        lemma_decoded_joined(front);
        assert(out.drop_last() == Seq::new(front.len(), |i: int| decoded(front[i])));
        plain_text_is_closed(seq![' ']);
        decoding_keeps_plain_text(seq![' ']);
        closed_texts_may_be_joined(before, seq![' ']);
        assert(ends_outside(list[list.len() - 1]));
        closed_texts_may_be_joined(before + seq![' '], list.last());
        decoding_concatenates(before, seq![' ']);
        decoding_concatenates(before + seq![' '], list.last());
    } else {
        assert(ends_outside(list[0]));
    }
}

/// The words of a list of texts, one after the other, with the references of each decoded twice.
pub open spec fn words_of_all(list: Seq<Seq<char>>) -> Seq<Seq<char>>
    decreases list.len(),
{
    if list.len() == 0 {
        Seq::empty()
    } else {
        words_of_all(list.drop_last()) + text::words(decoded(decoded(list.last())))
    }
}

proof fn lemma_words_joined(list: Seq<Seq<char>>, twice: Seq<Seq<char>>)
    requires
        twice.len() == list.len(),
        forall|i: int| 0 <= i < list.len() ==> #[trigger] twice[i] == decoded(decoded(list[i])),
    ensures
        text::words(text::join(twice, seq![' '])) == words_of_all(list),
    decreases list.len(),
{
    if list.len() > 0 {
        assert(twice.last() == twice[list.len() - 1]);
        assert forall|i: int| 0 <= i < list.len() - 1 implies #[trigger] twice.drop_last()[i]
            == decoded(decoded(list.drop_last()[i])) by {
            assert(twice.drop_last()[i] == twice[i]);
        }
        lemma_words_joined(list.drop_last(), twice.drop_last());
        if list.len() == 1 {
            assert(words_of_all(list.drop_last()) == Seq::<Seq<char>>::empty());
            assert(words_of_all(list) == text::words(twice[0]));
        } else {
            text::white_space_parts_words(
                text::join(twice.drop_last(), seq![' ']),
                ' ',
                twice.last(),
            );
        }
    }
}

/// Cleaning texts that are joined by spaces keeps the words of each, one text after the other: no
/// word reaches from one text into the next.
pub proof fn joined_texts_keep_their_words(list: Seq<Seq<char>>)
    requires
        forall|i: int|
            0 <= i < list.len() ==> ends_outside(#[trigger] list[i]) && ends_outside(
                decoded(list[i]),
            ),
    ensures
        match cleaned(text::join(list, seq![' '])) {
            Some(t) => text::words(t) == words_of_all(list),
            None => words_of_all(list).len() == 0,
        },
{
    let once = Seq::new(list.len(), |i: int| decoded(list[i]));
    let twice = Seq::new(once.len(), |i: int| decoded(once[i]));
    lemma_decoded_joined(list);
    assert forall|i: int| 0 <= i < once.len() implies ends_outside(#[trigger] once[i]) by {
        assert(ends_outside(list[i]));
    }
    lemma_decoded_joined(once);
    lemma_words_joined(list, twice);
    cleaning_keeps_the_decoded_words(text::join(list, seq![' ']));
}

/// The boilerplate is known by its beginning, whatever follows, and nothing else is taken for it.
pub proof fn boilerplate_is_known_by_its_beginning(s: Seq<char>)
    ensures
        boilerplate(
            "Promoting openness in scientific communication and the peer-review process"@ + s,
        ),
        boilerplate(s) ==> s.take(
            "Promoting openness in scientific communication and the peer-review process"@.len()
                as int,
        ) == "Promoting openness in scientific communication and the peer-review process"@,
{
    let start = "Promoting openness in scientific communication and the peer-review process"@;
    assert((start + s).subrange(0, start.len() as int) == start);
    if boilerplate(s) {
        assert(s.take(start.len() as int) == s.subrange(0, start.len() as int));
    }
}

} // verus!
