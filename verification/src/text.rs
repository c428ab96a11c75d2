//! Text as sequences of characters: searching, trimming, joining and comparing.
use vstd::prelude::*;

verus! {

/// `String::push`: appends one character at the end of the string.
pub assume_specification[ String::push ](s: &mut String, ch: char)
    ensures
        final(s)@ == old(s)@.push(ch),
;

/// The characters with the Unicode property `White_Space`.
pub open spec fn white_space(c: char) -> bool {
    let u = c as u32;
    ||| 0x09 <= u <= 0x0D
    ||| u == 0x20
    ||| u == 0x85
    ||| u == 0xA0
    ||| u == 0x1680
    ||| 0x2000 <= u <= 0x200A
    ||| u == 0x2028
    ||| u == 0x2029
    ||| u == 0x202F
    ||| u == 0x205F
    ||| u == 0x3000
}

/// Whether `c` is a white-space character.
pub fn is_white_space(c: char) -> (r: bool)
    ensures
        r == white_space(c),
{
    let u: u32 = c as u32;
    (0x09 <= u && u <= 0x0D) || u == 0x20 || u == 0x85 || u == 0xA0 || u == 0x1680 || (0x2000 <= u
        && u <= 0x200A) || u == 0x2028 || u == 0x2029 || u == 0x202F || u == 0x205F || u == 0x3000
}

/// The characters of a string.
pub fn chars_of(s: &str) -> (r: Vec<char>)
    ensures
        r@ == s@,
{
    let mut r: Vec<char> = Vec::new();
    for c in it: s.chars()
        invariant
            r@ == it.seq().take(it.index() as int),
            it.seq() == s@,
    {
        r.push(c);
    }
    r
}

/// The string made of the characters `chars[from..to]`.
pub fn slice_to_string(chars: &Vec<char>, from: usize, to: usize) -> (r: String)
    requires
        from <= to <= chars@.len(),
    ensures
        r@ == chars@.subrange(from as int, to as int),
{
    let mut r = String::new();
    let mut i: usize = from;
    while i < to
        invariant
            from <= i <= to <= chars@.len(),
            r@ == chars@.subrange(from as int, i as int),
        decreases to - i,
    {
        r.push(chars[i]);
        i += 1;
    }
    r
}

/// The string made of all of `chars`.
pub fn string_of(chars: &Vec<char>) -> (r: String)
    ensures
        r@ == chars@,
{
    slice_to_string(chars, 0, chars.len())
}

/// Whether two strings hold the same characters.
pub fn same_text(a: &str, b: &str) -> (r: bool)
    ensures
        r == (a@ == b@),
{
    a.to_owned() == b.to_owned()
}

/// A copy of a text, where there is one.
pub fn copied(text: &Option<String>) -> (r: Option<String>)
    ensures
        r.deep_view() == text.deep_view(),
{
    match text {
        Some(t) => Some(t.clone()),
        None => None,
    }
}

/// Appends a string to a list.
pub fn push_string(list: &mut Vec<String>, item: String)
    ensures
        final(list).deep_view() == old(list).deep_view().push(item@),
{
    let ghost before = list.deep_view();
    list.push(item);
    proof {
        assert(list.deep_view() == before.push(item@));
    }
}

/// The concatenation of two strings.
pub fn concat2(a: &str, b: &str) -> (r: String)
    ensures
        r@ == a@ + b@,
{
    let mut r = a.to_owned();
    r.append(b);
    r
}

/// The concatenation of three strings.
pub fn concat3(a: &str, b: &str, c: &str) -> (r: String)
    ensures
        r@ == a@ + b@ + c@,
{
    let mut r = a.to_owned();
    r.append(b);
    r.append(c);
    r
}

/// The first index at or after `from` that holds `c`, or the length of `s`.
pub open spec fn find_from(s: Seq<char>, c: char, from: int) -> int
    decreases s.len() - from,
{
    if from >= s.len() {
        s.len() as int
    } else if s[from] == c {
        from
    } else {
        find_from(s, c, from + 1)
    }
}

/// What `find_from` finds: the characters before it differ from `c`.
pub proof fn lemma_find_from(s: Seq<char>, c: char, from: int)
    requires
        0 <= from <= s.len(),
    ensures
        from <= find_from(s, c, from) <= s.len(),
        forall|k: int| from <= k < find_from(s, c, from) ==> s[k] != c,
        find_from(s, c, from) < s.len() ==> s[find_from(s, c, from)] == c,
    decreases s.len() - from,
{
    if from < s.len() && s[from] != c {
        lemma_find_from(s, c, from + 1);
    }
}

/// The first index at or after `from` that holds `c`, or the number of characters.
pub fn find_char(chars: &Vec<char>, c: char, from: usize) -> (r: usize)
    requires
        from <= chars@.len(),
    ensures
        r == find_from(chars@, c, from as int),
        from <= r <= chars@.len(),
{
    let mut i: usize = from;
    while i < chars.len() && chars[i] != c
        invariant
            from <= i <= chars@.len(),
            find_from(chars@, c, i as int) == find_from(chars@, c, from as int),
        decreases chars@.len() - i,
    {
        i += 1;
    }
    i
}

/// The first index at or after `from` that holds no white space, or the length of `s`.
pub open spec fn skip_white(s: Seq<char>, from: int) -> int
    decreases s.len() - from,
{
    if from >= s.len() {
        s.len() as int
    } else if white_space(s[from]) {
        skip_white(s, from + 1)
    } else {
        from
    }
}

/// The first index at or after `from` that holds white space, or the length of `s`.
pub open spec fn skip_word(s: Seq<char>, from: int) -> int
    decreases s.len() - from,
{
    if from >= s.len() {
        s.len() as int
    } else if white_space(s[from]) {
        from
    } else {
        skip_word(s, from + 1)
    }
}

/// What `skip_white` passes over is white space, and what it stops at is not.
pub proof fn lemma_skip_white(s: Seq<char>, from: int)
    requires
        0 <= from <= s.len(),
    ensures
        from <= skip_white(s, from) <= s.len(),
        forall|k: int| from <= k < skip_white(s, from) ==> white_space(#[trigger] s[k]),
        skip_white(s, from) < s.len() ==> !white_space(s[skip_white(s, from)]),
    decreases s.len() - from,
{
    if from < s.len() && white_space(s[from]) {
        lemma_skip_white(s, from + 1);
    }
}

/// What `skip_word` passes over is not white space, and what it stops at is.
pub proof fn lemma_skip_word(s: Seq<char>, from: int)
    requires
        0 <= from <= s.len(),
    ensures
        from <= skip_word(s, from) <= s.len(),
        forall|k: int| from <= k < skip_word(s, from) ==> !white_space(#[trigger] s[k]),
        skip_word(s, from) < s.len() ==> white_space(s[skip_word(s, from)]),
    decreases s.len() - from,
{
    if from < s.len() && !white_space(s[from]) {
        lemma_skip_word(s, from + 1);
    }
}

/// The words of `s` from index `from` on: its maximal runs without white space, in order.
pub open spec fn words_from(s: Seq<char>, from: int) -> Seq<Seq<char>>
    decreases s.len() - from,
{
    if 0 <= from <= s.len() {
        let start = skip_white(s, from);
        if start >= s.len() {
            Seq::empty()
        } else {
            let end = skip_word(s, start);
            proof {
                lemma_skip_white(s, from);
                lemma_skip_word(s, start);
            }
            seq![s.subrange(start, end)] + words_from(s, end)
        }
    } else {
        Seq::empty()
    }
}

/// The words of a text.
pub open spec fn words(s: Seq<char>) -> Seq<Seq<char>> {
    words_from(s, 0)
}

/// The parts of `list` one after the other, with `separator` between neighbours.
pub open spec fn join(list: Seq<Seq<char>>, separator: Seq<char>) -> Seq<char>
    decreases list.len(),
{
    if list.len() == 0 {
        Seq::empty()
    } else if list.len() == 1 {
        list[0]
    } else {
        join(list.drop_last(), separator) + separator + list.last()
    }
}

/// Adding one part to a joined list.
pub proof fn lemma_join_push(list: Seq<Seq<char>>, part: Seq<char>, separator: Seq<char>)
    ensures
        join(list.push(part), separator) == if list.len() == 0 {
            part
        } else {
            join(list, separator) + separator + part
        },
{
    assert(list.push(part).drop_last() == list);
}

/// The strings of `list` one after the other, with `separator` between neighbours.
pub fn join_strings(list: &Vec<String>, separator: &str) -> (r: String)
    ensures
        r@ == join(list.deep_view(), separator@),
{
    let mut r = String::new();
    let mut i: usize = 0;
    while i < list.len()
        invariant
            i <= list@.len(),
            r@ == join(list.deep_view().take(i as int), separator@),
        decreases list@.len() - i,
    {
        proof {
            assert(list.deep_view().take(i + 1) == list.deep_view().take(i as int).push(
                list.deep_view()[i as int],
            ));
            lemma_join_push(
                list.deep_view().take(i as int),
                list.deep_view()[i as int],
                separator@,
            );
        }
        if i > 0 {
            r.append(separator);
        }
        r.append(list[i].as_str());
        i += 1;
    }
    proof {
        assert(list.deep_view().take(list@.len() as int) == list.deep_view());
    }
    r
}

/// The end of `s` without its trailing white space, looking only at the first `end` characters.
pub open spec fn trimmed_end(s: Seq<char>, end: int) -> int
    decreases end,
{
    if 0 < end <= s.len() && white_space(s[end - 1]) {
        trimmed_end(s, end - 1)
    } else {
        end
    }
}

/// `s` without leading and trailing white space.
pub open spec fn trimmed(s: Seq<char>) -> Seq<char> {
    let start = skip_white(s, 0);
    if start >= s.len() {
        Seq::empty()
    } else {
        s.subrange(start, trimmed_end(s, s.len() as int))
    }
}

/// Trimming stops behind the last character that is not white space.
pub proof fn lemma_trimmed_end(s: Seq<char>, end: int, k: int)
    requires
        0 <= k < end <= s.len(),
        !white_space(s[k]),
    ensures
        k < trimmed_end(s, end) <= end,
        !white_space(s[trimmed_end(s, end) - 1]),
    decreases end,
{
    if white_space(s[end - 1]) {
        lemma_trimmed_end(s, end - 1, k);
    }
}

/// The text without leading and trailing white space.
pub fn trim(text: &str) -> (r: String)
    ensures
        r@ == trimmed(text@),
{
    let chars = chars_of(text);
    let mut start: usize = 0;
    while start < chars.len() && is_white_space(chars[start])
        invariant
            start <= chars@.len(),
            skip_white(chars@, start as int) == skip_white(chars@, 0),
        decreases chars@.len() - start,
    {
        start += 1;
    }
    if start == chars.len() {
        return String::new();
    }
    let mut end: usize = chars.len();
    while end > start + 1 && is_white_space(chars[end - 1])
        invariant
            start < end <= chars@.len(),
            !white_space(chars@[start as int]),
            trimmed_end(chars@, end as int) == trimmed_end(chars@, chars@.len() as int),
        decreases end,
    {
        end -= 1;
    }
    slice_to_string(&chars, start, end)
}

/// A trimmed text begins and ends with a character that is not white space.
pub proof fn lemma_trimmed(s: Seq<char>)
    ensures
        trimmed(s).len() > 0 ==> !white_space(trimmed(s)[0]) && !white_space(trimmed(s).last()),
        trimmed(s).len() == 0 <==> (forall|k: int| 0 <= k < s.len() ==> white_space(#[trigger] s[k])),
{
    lemma_skip_white(s, 0);
    let start = skip_white(s, 0);
    if start < s.len() {
        lemma_trimmed_end(s, s.len() as int, start);
        assert(trimmed(s)[0] == s[start]);
    }
}

/// Whether the characters from index `at` on begin with `pattern`.
pub fn matches_at(chars: &Vec<char>, at: usize, pattern: &Vec<char>) -> (r: bool)
    requires
        at <= chars@.len(),
    ensures
        r == (at + pattern@.len() <= chars@.len() && chars@.subrange(
            at as int,
            at + pattern@.len(),
        ) == pattern@),
{
    let length: usize = chars.len();
    if pattern.len() > length - at {
        return false;
    }
    let mut i: usize = 0;
    while i < pattern.len()
        invariant
            i <= pattern@.len(),
            at + pattern@.len() <= chars@.len() <= usize::MAX,
            forall|k: int| 0 <= k < i ==> chars@[at + k] == #[trigger] pattern@[k],
        decreases pattern@.len() - i,
    {
        if chars[at + i] != pattern[i] {
            assert(chars@.subrange(at as int, at + pattern@.len())[i as int] != pattern@[i as int]);
            return false;
        }
        i += 1;
    }
    assert(chars@.subrange(at as int, at + pattern@.len()) == pattern@);
    true
}

/// Whether `text` begins with `prefix`.
pub fn starts_with(text: &str, prefix: &str) -> (r: bool)
    ensures
        r == prefix@.is_prefix_of(text@),
{
    let chars = chars_of(text);
    let pattern = chars_of(prefix);
    matches_at(&chars, 0, &pattern)
}

/// What follows `prefix` in `text`, if `text` begins with it.
pub fn strip_prefix(text: &str, prefix: &str) -> (r: Option<String>)
    ensures
        match r {
            Some(rest) => prefix@.is_prefix_of(text@) && rest@ == text@.skip(prefix@.len() as int),
            None => !prefix@.is_prefix_of(text@),
        },
{
    let chars = chars_of(text);
    let pattern = chars_of(prefix);
    if matches_at(&chars, 0, &pattern) {
        Some(slice_to_string(&chars, pattern.len(), chars.len()))
    } else {
        None
    }
}

/// Whether `text` ends with `suffix`.
pub fn ends_with(text: &str, suffix: &str) -> (r: bool)
    ensures
        r == suffix@.is_suffix_of(text@),
{
    let chars = chars_of(text);
    let pattern = chars_of(suffix);
    if pattern.len() > chars.len() {
        return false;
    }
    matches_at(&chars, chars.len() - pattern.len(), &pattern)
}

/// Whether `needle` stands in `s` at index `at`.
pub open spec fn occurs_at(s: Seq<char>, needle: Seq<char>, at: int) -> bool {
    0 <= at && at + needle.len() <= s.len() && s.subrange(at, at + needle.len()) == needle
}

/// Whether `needle` occurs somewhere in `text`.
pub fn contains_text(text: &str, needle: &str) -> (r: bool)
    ensures
        r == exists|at: int| occurs_at(text@, needle@, at),
{
    let chars = chars_of(text);
    let pattern = chars_of(needle);
    let mut at: usize = 0;
    while at < chars.len()
        invariant
            at <= chars@.len(),
            chars@ == text@,
            pattern@ == needle@,
            forall|k: int| 0 <= k < at ==> !occurs_at(text@, needle@, k),
        decreases chars@.len() - at,
    {
        if matches_at(&chars, at, &pattern) {
            assert(occurs_at(text@, needle@, at as int));
            return true;
        }
        at += 1;
    }
    let last = matches_at(&chars, at, &pattern);
    assert(last == occurs_at(text@, needle@, at as int));
    last
}

/// `s` without its trailing dots.
pub open spec fn without_trailing_dots(s: Seq<char>) -> Seq<char>
    decreases s.len(),
{
    if s.len() > 0 && s.last() == '.' {
        without_trailing_dots(s.drop_last())
    } else {
        s
    }
}

/// The lower-case form of an ASCII letter; every other character stays.
pub open spec fn ascii_lower(c: char) -> char {
    if 'A' <= c && c <= 'Z' {
        ((c as u32 + 32) as u32) as char
    } else {
        c
    }
}

/// `s` with its ASCII letters in lower case.
pub open spec fn ascii_lowered(s: Seq<char>) -> Seq<char> {
    s.map_values(|c: char| ascii_lower(c))
}

/// `text` without trailing dots, its ASCII letters in lower case.
pub fn normalized_host(text: &str) -> (r: String)
    ensures
        r@ == ascii_lowered(without_trailing_dots(text@)),
{
    let chars = chars_of(text);
    let mut end: usize = chars.len();
    proof {
        assert(chars@.take(end as int) == chars@);
    }
    while end > 0 && chars[end - 1] == '.'
        invariant
            end <= chars@.len(),
            without_trailing_dots(chars@.take(end as int)) == without_trailing_dots(chars@),
        decreases end,
    {
        proof {
            assert(chars@.take(end as int).drop_last() == chars@.take(end - 1));
        }
        end -= 1;
    }
    let ghost kept = chars@.take(end as int);
    let mut r = String::new();
    let mut i: usize = 0;
    while i < end
        invariant
            i <= end <= chars@.len(),
            kept == chars@.take(end as int),
            r@ == ascii_lowered(kept).take(i as int),
        decreases end - i,
    {
        let c = chars[i];
        if 'A' <= c && c <= 'Z' {
            let code: u8 = c as u8;
            let low: u8 = code + 32;
            r.push(low as char);
        } else {
            r.push(c);
        }
        i += 1;
    }
    r
}

/// Whether `a` comes before `b` in the order of their characters.
pub open spec fn text_before(a: Seq<char>, b: Seq<char>) -> bool
    decreases a.len(),
{
    if b.len() == 0 {
        false
    } else if a.len() == 0 {
        true
    } else if a[0] == b[0] {
        text_before(a.drop_first(), b.drop_first())
    } else {
        a[0] < b[0]
    }
}

/// `text_before` is a strict total order.
pub proof fn lemma_text_before_total(a: Seq<char>, b: Seq<char>)
    ensures
        text_before(a, b) ==> !text_before(b, a) && a != b,
        !text_before(a, b) && !text_before(b, a) ==> a == b,
    decreases a.len(),
{
    if a.len() > 0 && b.len() > 0 && a[0] == b[0] {
        lemma_text_before_total(a.drop_first(), b.drop_first());
        if a.drop_first() == b.drop_first() {
            assert(a == seq![a[0]] + a.drop_first());
            assert(b == seq![b[0]] + b.drop_first());
        }
    }
    if a.len() == 0 && b.len() == 0 {
        assert(a == b);
    }
}

/// `text_before` is transitive.
pub proof fn lemma_text_before_transitive(a: Seq<char>, b: Seq<char>, c: Seq<char>)
    requires
        text_before(a, b),
        text_before(b, c),
    ensures
        text_before(a, c),
    decreases a.len(),
{
    if a.len() > 0 && a[0] == b[0] && b[0] == c[0] {
        lemma_text_before_transitive(a.drop_first(), b.drop_first(), c.drop_first());
    }
}

/// Whether `a` comes before `b` in the order of their characters.
pub fn comes_before(a: &str, b: &str) -> (r: bool)
    ensures
        r == text_before(a@, b@),
{
    let left = chars_of(a);
    let right = chars_of(b);
    let mut i: usize = 0;
    proof {
        assert(left@.skip(0) == left@);
        assert(right@.skip(0) == right@);
    }
    while i < left.len() && i < right.len() && left[i] == right[i]
        invariant
            i <= left@.len(),
            i <= right@.len(),
            text_before(left@.skip(i as int), right@.skip(i as int)) == text_before(left@, right@),
        decreases left@.len() - i,
    {
        proof {
            assert(left@.skip(i as int).drop_first() == left@.skip(i + 1));
            assert(right@.skip(i as int).drop_first() == right@.skip(i + 1));
        }
        i += 1;
    }
    if i == right.len() {
        false
    } else if i == left.len() {
        true
    } else {
        left[i] < right[i]
    }
}

/// Skipping white space inside a prefix `a` of `t`.
proof fn lemma_skip_white_prefix(t: Seq<char>, a: Seq<char>, i: int)
    requires
        0 <= i <= a.len() <= t.len(),
        forall|k: int| 0 <= k < a.len() ==> t[k] == a[k],
    ensures
        skip_white(a, i) < a.len() ==> skip_white(t, i) == skip_white(a, i),
        skip_white(a, i) >= a.len() ==> skip_white(t, i) == skip_white(t, a.len() as int),
    decreases a.len() - i,
{
    if i < a.len() && white_space(a[i]) {
        lemma_skip_white_prefix(t, a, i + 1);
    }
}

/// Skipping a word inside a prefix `a` of `t` that white space follows.
proof fn lemma_skip_word_prefix(t: Seq<char>, a: Seq<char>, i: int)
    requires
        0 <= i <= a.len() < t.len(),
        forall|k: int| 0 <= k < a.len() ==> t[k] == a[k],
        white_space(t[a.len() as int]),
    ensures
        skip_word(t, i) == skip_word(a, i),
    decreases a.len() - i,
{
    if i < a.len() && !white_space(a[i]) {
        lemma_skip_word_prefix(t, a, i + 1);
    }
}

/// Skipping inside a suffix of `t`.
proof fn lemma_skip_suffix(t: Seq<char>, n: int, i: int)
    requires
        0 <= n <= t.len(),
        0 <= i <= t.len() - n,
    ensures
        skip_white(t, n + i) == n + skip_white(t.skip(n), i),
        skip_word(t, n + i) == n + skip_word(t.skip(n), i),
    decreases t.len() - n - i,
{
    if i < t.len() - n {
        lemma_skip_suffix(t, n, i + 1);
    }
}

/// The words of a suffix of `t`.
proof fn lemma_words_suffix(t: Seq<char>, n: int, i: int)
    requires
        0 <= n <= t.len(),
        0 <= i <= t.len() - n,
    ensures
        words_from(t, n + i) == words_from(t.skip(n), i),
    decreases t.len() - n - i,
{
    let b = t.skip(n);
    lemma_skip_suffix(t, n, i);
    lemma_skip_white(b, i);
    let start = skip_white(b, i);
    if start < b.len() {
        lemma_skip_suffix(t, n, start);
        lemma_skip_word(b, start);
        let end = skip_word(b, start);
        assert(t.subrange(n + start, n + end) == b.subrange(start, end));
        lemma_words_suffix(t, n, end);
    }
}

/// The words of two texts with white space between them are the words of the one and then those of
/// the other.
proof fn lemma_words_of_two(a: Seq<char>, c: char, b: Seq<char>, i: int)
    requires
        0 <= i <= a.len(),
        white_space(c),
    ensures
        words_from(a + seq![c] + b, i) == words_from(a, i) + words(b),
    decreases a.len() - i,
{
    let t = a + seq![c] + b;
    lemma_skip_white_prefix(t, a, i);
    lemma_skip_white(a, i);
    let start = skip_white(a, i);
    if start < a.len() {
        lemma_skip_word_prefix(t, a, start);
        lemma_skip_word(a, start);
        let end = skip_word(a, start);
        assert(t.subrange(start, end) == a.subrange(start, end));
        lemma_words_of_two(a, c, b, end);
        assert(words_from(t, i) == seq![t.subrange(start, end)] + words_from(t, end));
        assert(words_from(t, i) == words_from(a, i) + words(b));
    } else {
        let n: int = a.len() as int + 1;
        assert(t.skip(n) == b);
        lemma_skip_white(t, n);
        assert(skip_white(t, i) == skip_white(t, n));
        assert(words_from(t, i) == words_from(t, n));
        lemma_words_suffix(t, n, 0);
        assert(words_from(a, i) + words(b) == words(b));
    }
}

/// Whether every part of `list` is a word: it is not empty and holds no white space.
pub open spec fn all_words(list: Seq<Seq<char>>) -> bool {
    forall|i: int|
        0 <= i < list.len() ==> (#[trigger] list[i]).len() > 0 && forall|k: int|
            0 <= k < list[i].len() ==> !white_space(#[trigger] list[i][k])
}

/// The words of a text are words.
pub proof fn lemma_words_are_words(s: Seq<char>, from: int)
    requires
        0 <= from <= s.len(),
    ensures
        all_words(words_from(s, from)),
    decreases s.len() - from,
{
    lemma_skip_white(s, from);
    let start = skip_white(s, from);
    if start < s.len() {
        lemma_skip_word(s, start);
        let end = skip_word(s, start);
        lemma_words_are_words(s, end);
        let word = s.subrange(start, end);
        assert forall|k: int| 0 <= k < word.len() implies !white_space(#[trigger] word[k]) by {
            assert(word[k] == s[start + k]);
        }
        assert(words_from(s, from) == seq![word] + words_from(s, end));
        assert forall|i: int| 0 <= i < words_from(s, from).len() implies (
        #[trigger] words_from(s, from)[i]).len() > 0 && forall|k: int|
            0 <= k < words_from(s, from)[i].len() ==> !white_space(
                #[trigger] words_from(s, from)[i][k],
            ) by {
            if i > 0 {
                assert(words_from(s, from)[i] == words_from(s, end)[i - 1]);
            }
        }
    }
}

/// A single word has itself as its only word.
proof fn lemma_one_word(w: Seq<char>)
    requires
        all_words(seq![w]),
    ensures
        words(w) == seq![w],
{
    assert(seq![w][0] == w);
    lemma_skip_word(w, 0);
    let end = skip_word(w, 0);
    assert(end == w.len());
    assert(w.subrange(0, end) == w);
    assert(words_from(w, end) == Seq::<Seq<char>>::empty());
    assert(words(w) == seq![w] + words_from(w, end));
}

/// Words joined by single spaces are again the words of the joined text.
pub proof fn joined_words_are_kept(list: Seq<Seq<char>>)
    requires
        all_words(list),
    ensures
        words(join(list, seq![' '])) == list,
    decreases list.len(),
{
    if list.len() == 0 {
    } else {
        assert(all_words(seq![list.last()])) by {
            assert(list[list.len() - 1] == list.last());
        }
        lemma_one_word(list.last());
        if list.len() == 1 {
            assert(list == seq![list.last()]);
        } else {
            let front = list.drop_last();
            assert forall|i: int| 0 <= i < front.len() implies (#[trigger] front[i]).len() > 0
                && forall|k: int| 0 <= k < front[i].len() ==> !white_space(#[trigger] front[i][k]) by {
                assert(front[i] == list[i]);
            }
            joined_words_are_kept(front);
            lemma_words_of_two(join(front, seq![' ']), ' ', list.last(), 0);
            assert(front + seq![list.last()] == list);
        }
    }
}

/// White space parts words: the words of a text are those before any of its white space, and then
/// those behind it.
pub proof fn white_space_parts_words(a: Seq<char>, c: char, b: Seq<char>)
    requires
        white_space(c),
    ensures
        words(a + seq![c] + b) == words(a) + words(b),
        words(Seq::empty()) == Seq::<Seq<char>>::empty(),
{
    lemma_words_of_two(a, c, b, 0);
}

/// A text that is not empty and holds no white space is one word, the whole of it.
pub proof fn unbroken_text_is_one_word(w: Seq<char>)
    requires
        w.len() > 0,
        forall|k: int| 0 <= k < w.len() ==> !white_space(#[trigger] w[k]),
    ensures
        words(w) == seq![w],
{
    assert(all_words(seq![w])) by {
        assert(seq![w][0] == w);
    }
    lemma_one_word(w);
}

/// A joined list is its first parts joined, the separator, and the other parts joined; one part
/// stays as it is.
pub proof fn joined_lists_may_be_parted(a: Seq<Seq<char>>, b: Seq<Seq<char>>, separator: Seq<char>)
    requires
        a.len() > 0,
        b.len() > 0,
    ensures
        join(a + b, separator) == join(a, separator) + separator + join(b, separator),
        join(seq![a[0]], separator) == a[0],
        join(Seq::empty(), separator) == Seq::<char>::empty(),
    decreases b.len(),
{
    assert((a + b).last() == b.last());
    if b.len() == 1 {
        assert((a + b).drop_last() == a);
        assert(b[0] == b.last());
    } else {
        joined_lists_may_be_parted(a, b.drop_last(), separator);
        assert((a + b).drop_last() == a + b.drop_last());
        assert(join(a + b, separator) == join(a, separator) + separator + join(b, separator));
    }
}

/// The sum of the lengths of the parts of a list.
pub open spec fn total_length(list: Seq<Seq<char>>) -> nat
    decreases list.len(),
{
    if list.len() == 0 {
        0
    } else {
        total_length(list.drop_last()) + list.last().len()
    }
}

/// A joined list is as long as its parts and the separators between them.
pub proof fn joined_lists_hold_nothing_else(list: Seq<Seq<char>>, separator: Seq<char>)
    requires
        list.len() > 0,
    ensures
        join(list, separator).len() == total_length(list) + (list.len() - 1) * separator.len(),
    decreases list.len(),
{
    if list.len() == 1 {
        assert(list.drop_last() == Seq::<Seq<char>>::empty());
        assert(total_length(list.drop_last()) == 0);
        assert(list.last() == list[0]);
        assert((list.len() - 1) * separator.len() == 0) by (nonlinear_arith)
            requires
                list.len() == 1,
        ;
    } else {
        joined_lists_hold_nothing_else(list.drop_last(), separator);
        assert((list.len() - 1) * separator.len() == (list.len() - 2) * separator.len()
            + separator.len()) by (nonlinear_arith);
    }
}

/// Trimming takes away the white space at both ends, and keeps all that stands between.
pub proof fn trimming_keeps_what_is_inside(before: Seq<char>, inside: Seq<char>, behind: Seq<char>)
    requires
        forall|k: int| 0 <= k < before.len() ==> white_space(#[trigger] before[k]),
        forall|k: int| 0 <= k < behind.len() ==> white_space(#[trigger] behind[k]),
        inside.len() > 0 ==> !white_space(inside[0]) && !white_space(inside.last()),
    ensures
        trimmed(before + inside + behind) == inside,
{
    let s = before + inside + behind;
    let from = before.len() as int;
    let to = from + inside.len();
    lemma_skip_white(s, 0);
    assert forall|k: int| 0 <= k < from implies white_space(#[trigger] s[k]) by {
        assert(s[k] == before[k]);
    }
    assert forall|k: int| to <= k < s.len() implies white_space(#[trigger] s[k]) by {
        assert(s[k] == behind[k - to]);
    }
    let start = skip_white(s, 0);
    if inside.len() == 0 {
        assert(start >= s.len()) by {
            if start < s.len() {
                assert(white_space(s[start]));
            }
        }
        assert(inside == Seq::<char>::empty());
    } else {
        assert(s[from] == inside[0]);
        assert(s[to - 1] == inside.last());
        assert(start == from);
        lemma_trimmed_end_at(s, s.len() as int, to);
        assert(s.subrange(from, to) == inside);
    }
}

proof fn lemma_trimmed_end_at(s: Seq<char>, end: int, to: int)
    requires
        0 < to <= end <= s.len(),
        !white_space(s[to - 1]),
        forall|k: int| to <= k < end ==> white_space(#[trigger] s[k]),
    ensures
        trimmed_end(s, end) == to,
    decreases end,
{
    if end > to {
        assert(white_space(s[end - 1]));
        lemma_trimmed_end_at(s, end - 1, to);
    }
}

/// Two texts are ordered by the first characters in which they differ, and a text comes before all
/// longer ones that begin with it.
pub proof fn first_differences_decide(
    common: Seq<char>,
    x: char,
    y: char,
    a: Seq<char>,
    b: Seq<char>,
)
    requires
        x < y,
    ensures
        text_before(common + seq![x] + a, common + seq![y] + b),
        !text_before(common + seq![y] + b, common + seq![x] + a),
        text_before(common, common + seq![x] + a),
        !text_before(common + seq![x] + a, common),
        !text_before(common, common),
    decreases common.len(),
{
    let left = common + seq![x] + a;
    let right = common + seq![y] + b;
    if common.len() > 0 {
        first_differences_decide(common.skip(1), x, y, a, b);
        assert(left.skip(1) == common.skip(1) + seq![x] + a);
        assert(right.skip(1) == common.skip(1) + seq![y] + b);
        assert(left[0] == common[0] && right[0] == common[0]);
    } else {
        assert(left[0] == x && right[0] == y);
    }
}

/// Trailing dots are dropped, and nothing else.
pub proof fn only_trailing_dots_are_dropped(s: Seq<char>, dots: Seq<char>)
    requires
        s.len() > 0 ==> s.last() != '.',
        forall|k: int| 0 <= k < dots.len() ==> #[trigger] dots[k] == '.',
    ensures
        without_trailing_dots(s + dots) == s,
    decreases dots.len(),
{
    if dots.len() == 0 {
        assert(s + dots == s);
    } else {
        only_trailing_dots_are_dropped(s, dots.drop_last());
        assert((s + dots).last() == dots[dots.len() - 1]);
        assert((s + dots).drop_last() == s + dots.drop_last());
    }
}

/// Lowering a text lowers its capital letters of ASCII, each by itself, and keeps the rest.
pub proof fn only_capitals_are_lowered(s: Seq<char>, k: int)
    requires
        0 <= k < s.len(),
    ensures
        ascii_lowered(s).len() == s.len(),
        ascii_lowered(s)[k] as u32 == if 65 <= s[k] as u32 <= 90 {
            s[k] as u32 + 32
        } else {
            s[k] as u32 as int
        },
{
}

/// A text occurs where it stands between two others, and where it occurs it stands whole.
pub proof fn occurrences_are_whole(before: Seq<char>, needle: Seq<char>, behind: Seq<char>, s: Seq<char>, at: int)
    ensures
        occurs_at(before + needle + behind, needle, before.len() as int),
        occurs_at(s, needle, at) ==> 0 <= at && at + needle.len() <= s.len() && s == s.take(at)
            + needle + s.skip(at + needle.len()),
{
    let all = before + needle + behind;
    let n = before.len() as int;
    assert(all.subrange(n, n + needle.len()) == needle);
    if occurs_at(s, needle, at) {
        assert(s == s.take(at) + needle + s.skip(at + needle.len()));
    }
}

} // verus!
