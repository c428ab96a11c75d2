//! What is printed about a run: fields, counts and years.
use vstd::prelude::*;

use crate::number;
use crate::number::{i32_string, usize_string};
use crate::paper::Paper;
use crate::search::YearRange;
use crate::text;
use crate::text::{comes_before, concat2, concat3, join_strings, push_string, same_text};

verus! {

/// The smallest number of papers that are worked on as one batch.
pub const MIN_ENRICH_BATCH: usize = 64;

/// The largest number of papers that are worked on as one batch.
pub const MAX_ENRICH_BATCH: usize = 512;

/// `count` spaces.
pub open spec fn spaces(count: int) -> Seq<char> {
    Seq::new(
        if count > 0 {
            count as nat
        } else {
            0
        },
        |i: int| ' ',
    )
}

fn push_spaces(text: &mut String, from: usize, width: usize)
    ensures
        final(text)@ == old(text)@ + spaces(width - from),
{
    let ghost before = text@;
    let mut i: usize = from;
    proof {
        assert(before + spaces(0) == before);
    }
    while i < width
        invariant
            from <= i,
            i <= width || i == from,
            text@ == before + spaces(i - from),
        decreases width - i,
    {
        text.push(' ');
        i += 1;
        proof {
            assert(text@ == before + spaces(i - from));
        }
    }
    proof {
        assert(spaces(i - from) == spaces(width - from));
    }
}

/// A text with spaces behind it, up to a width.
pub open spec fn padded_right(s: Seq<char>, width: int) -> Seq<char> {
    s + spaces(width - s.len())
}

/// A text with spaces before it, up to a width.
pub open spec fn padded_left(s: Seq<char>, width: int) -> Seq<char> {
    spaces(width - s.len()) + s
}

/// The text with spaces behind it, up to a width.
pub fn pad_right(text: &str, width: usize) -> (r: String)
    ensures
        r@ == padded_right(text@, width as int),
{
    let length: usize = text.unicode_len();
    let mut out = text.to_owned();
    push_spaces(&mut out, length, width);
    out
}

/// The text with spaces before it, up to a width.
pub fn pad_left(text: &str, width: usize) -> (r: String)
    ensures
        r@ == padded_left(text@, width as int),
{
    let length: usize = text.unicode_len();
    let mut out = "".to_owned();
    push_spaces(&mut out, length, width);
    proof {
        reveal_strlit("");
        assert(out@ == spaces(width - text@.len()));
    }
    out.append(text);
    out
}

/// The line for a field.
pub open spec fn field_text(label: Seq<char>, value: Seq<char>) -> Seq<char> {
    "  "@ + padded_right(label, 10) + " "@ + value
}

/// The line for a field.
pub fn field_line(label: &str, value: &str) -> (r: String)
    ensures
        r@ == field_text(label@, value@),
{
    let padded = pad_right(label, 10);
    let mut line = "  ".to_owned();
    line.append(padded.as_str());
    line.append(" ");
    line.append(value);
    line
}

/// A list of counts by name.
pub open spec fn counted(table: Seq<(Seq<char>, nat)>, name: Seq<char>) -> Seq<(Seq<char>, nat)>
    decreases table.len(),
{
    if table.len() == 0 {
        seq![(name, 1)]
    } else if table[0].0 == name {
        table.update(0, (name, table[0].1 + 1))
    } else if text::text_before(name, table[0].0) {
        seq![(name, 1)] + table
    } else {
        seq![table[0]] + counted(table.skip(1), name)
    }
}

/// How often each name occurs in a list, in the order of the names.
pub open spec fn tally(names: Seq<Seq<char>>) -> Seq<(Seq<char>, nat)>
    decreases names.len(),
{
    if names.len() == 0 {
        Seq::empty()
    } else {
        counted(tally(names.drop_last()), names.last())
    }
}

/// Whether a list of counts is in the order of its names, none of them twice.
pub open spec fn names_in_order(table: Seq<(Seq<char>, nat)>) -> bool {
    forall|i: int, k: int|
        0 <= i < k < table.len() ==> text::text_before(
            (#[trigger] table[i]).0,
            (#[trigger] table[k]).0,
        )
}

/// The count of a name in a list of counts; 0 where it is not there.
pub open spec fn count_of(table: Seq<(Seq<char>, nat)>, name: Seq<char>) -> nat
    decreases table.len(),
{
    if table.len() == 0 {
        0
    } else if table[0].0 == name {
        table[0].1
    } else {
        count_of(table.skip(1), name)
    }
}

/// How often a name occurs in a list.
pub open spec fn occurrences(names: Seq<Seq<char>>, name: Seq<char>) -> nat
    decreases names.len(),
{
    if names.len() == 0 {
        0
    } else {
        occurrences(names.drop_last(), name) + if names.last() == name {
            1nat
        } else {
            0nat
        }
    }
}

/// The sum of a list of counts.
pub open spec fn total_of(table: Seq<(Seq<char>, nat)>) -> nat
    decreases table.len(),
{
    if table.len() == 0 {
        0
    } else {
        table[0].1 + total_of(table.skip(1))
    }
}

proof fn lemma_counted(table: Seq<(Seq<char>, nat)>, name: Seq<char>)
    requires
        names_in_order(table),
    ensures
        names_in_order(counted(table, name)),
        forall|other: Seq<char>|
            count_of(counted(table, name), other) == count_of(table, other) + if other == name {
                1nat
            } else {
                0nat
            },
        counted(table, name).len() > 0,
        counted(table, name)[0].0 == name || (table.len() > 0 && counted(table, name)[0].0
            == table[0].0),
    decreases table.len(),
{
    let after = counted(table, name);
    if table.len() == 0 {
        assert(after.skip(1) == table);
        assert forall|other: Seq<char>| count_of(after, other) == if other == name {
            1nat
        } else {
            0nat
        } by {
            assert(count_of(table, other) == 0);
        }
    } else if table[0].0 == name {
        assert(after.skip(1) == table.skip(1));
        assert forall|i: int, k: int| 0 <= i < k < after.len() implies text::text_before(
            (#[trigger] after[i]).0,
            (#[trigger] after[k]).0,
        ) by {
            assert(table[i].0 == after[i].0 && table[k].0 == after[k].0);
        }
        assert forall|other: Seq<char>|
            count_of(after, other) == count_of(table, other) + if other == name {
                1nat
            } else {
                0nat
            } by {}
    } else if text::text_before(name, table[0].0) {
        assert(after.skip(1) == table);
        assert forall|i: int, k: int| 0 <= i < k < after.len() implies text::text_before(
            (#[trigger] after[i]).0,
            (#[trigger] after[k]).0,
        ) by {
            assert(after[k] == table[k - 1]);
            if i == 0 {
                if k > 1 {
                    assert(text::text_before(table[0].0, table[k - 1].0));
                    text::lemma_text_before_transitive(name, table[0].0, table[k - 1].0);
                }
            } else {
                assert(after[i] == table[i - 1]);
            }
        }
        assert forall|other: Seq<char>|
            count_of(after, other) == count_of(table, other) + if other == name {
                1nat
            } else {
                0nat
            } by {
            if other == name {
                lemma_absent(table, name);
            }
        }
    } else {
        let rest = table.skip(1);
        assert forall|i: int, k: int| 0 <= i < k < rest.len() implies text::text_before(
            (#[trigger] rest[i]).0,
            (#[trigger] rest[k]).0,
        ) by {
            assert(rest[i] == table[i + 1] && rest[k] == table[k + 1]);
        }
        lemma_counted(rest, name);
        let tail = counted(rest, name);
        assert(after.skip(1) == tail);
        text::lemma_text_before_total(name, table[0].0);
        assert(text::text_before(table[0].0, name));
        assert(text::text_before(table[0].0, tail[0].0)) by {
            if tail[0].0 != name {
                assert(rest[0] == table[1]);
            }
        }
        assert forall|i: int, k: int| 0 <= i < k < after.len() implies text::text_before(
            (#[trigger] after[i]).0,
            (#[trigger] after[k]).0,
        ) by {
            assert(after[k] == tail[k - 1]);
            if i == 0 {
                if k > 1 {
                    assert(text::text_before(tail[0].0, tail[k - 1].0));
                    text::lemma_text_before_transitive(table[0].0, tail[0].0, tail[k - 1].0);
                }
            } else {
                assert(after[i] == tail[i - 1]);
            }
        }
        assert forall|other: Seq<char>|
            count_of(after, other) == count_of(table, other) + if other == name {
                1nat
            } else {
                0nat
            } by {
            assert(count_of(tail, other) == count_of(rest, other) + if other == name {
                1nat
            } else {
                0nat
            });
        }
    }
}

/// A name that comes before all names of a list has no count in it.
proof fn lemma_absent(table: Seq<(Seq<char>, nat)>, name: Seq<char>)
    requires
        names_in_order(table),
        table.len() > 0 ==> text::text_before(name, table[0].0),
    ensures
        count_of(table, name) == 0,
    decreases table.len(),
{
    if table.len() > 0 {
        text::lemma_text_before_total(name, table[0].0);
        let rest = table.skip(1);
        assert forall|i: int, k: int| 0 <= i < k < rest.len() implies text::text_before(
            (#[trigger] rest[i]).0,
            (#[trigger] rest[k]).0,
        ) by {
            assert(rest[i] == table[i + 1] && rest[k] == table[k + 1]);
        }
        if rest.len() > 0 {
            assert(rest[0] == table[1]);
            text::lemma_text_before_transitive(name, table[0].0, rest[0].0);
        }
        lemma_absent(rest, name);
    }
}

/// Counting a name once more adds one to the sum.
pub proof fn lemma_counted_total(table: Seq<(Seq<char>, nat)>, name: Seq<char>)
    ensures
        total_of(counted(table, name)) == total_of(table) + 1,
    decreases table.len(),
{
    let after = counted(table, name);
    if table.len() == 0 {
        assert(after.skip(1) == table);
    } else if table[0].0 == name {
        assert(after.skip(1) == table.skip(1));
    } else if text::text_before(name, table[0].0) {
        assert(after.skip(1) == table);
    } else {
        lemma_counted_total(table.skip(1), name);
        assert(after.skip(1) == counted(table.skip(1), name));
    }
}

/// A tally is in the order of the names, and gives each name the number of its occurrences.
pub proof fn tallies_count_occurrences(names: Seq<Seq<char>>, name: Seq<char>)
    ensures
        names_in_order(tally(names)),
        count_of(tally(names), name) == occurrences(names, name),
        total_of(tally(names)) == names.len(),
    decreases names.len(),
{
    if names.len() > 0 {
        tallies_count_occurrences(names.drop_last(), name);
        lemma_counted(tally(names.drop_last()), names.last());
        lemma_counted_total(tally(names.drop_last()), names.last());
    }
}

/// The mathematical form of a list of counts.
pub open spec fn counts_view(entries: Seq<(String, usize)>) -> Seq<(Seq<char>, nat)> {
    Seq::new(entries.len(), |i: int| (entries[i].0@, entries[i].1 as nat))
}

/// Counts by name, in the order of the names.
pub struct CountTable {
    entries: Vec<(String, usize)>,
}

impl View for CountTable {
    type V = Seq<(Seq<char>, nat)>;

    closed spec fn view(&self) -> Seq<(Seq<char>, nat)> {
        counts_view(self.entries@)
    }
}

proof fn lemma_counted_at(table: Seq<(Seq<char>, nat)>, name: Seq<char>, at: int)
    requires
        0 <= at <= table.len(),
        forall|i: int|
            0 <= i < at ==> (#[trigger] table[i]).0 != name && !text::text_before(name, table[i].0),
    ensures
        counted(table, name) == table.take(at) + counted(table.skip(at), name),
    decreases at,
{
    if at == 0 {
        assert(table.skip(0) == table);
        assert(table.take(0) + counted(table, name) == counted(table, name));
    } else {
        let rest = table.skip(1);
        assert forall|i: int| 0 <= i < at - 1 implies (#[trigger] rest[i]).0 != name
            && !text::text_before(name, rest[i].0) by {
            assert(rest[i] == table[i + 1]);
        }
        lemma_counted_at(rest, name, at - 1);
        assert(table[0].0 != name);
        assert(rest.skip(at - 1) == table.skip(at));
        assert(seq![table[0]] + (rest.take(at - 1) + counted(table.skip(at), name)) == table.take(
            at,
        ) + counted(table.skip(at), name));
    }
}

proof fn lemma_count_in_total(table: Seq<(Seq<char>, nat)>, at: int)
    requires
        0 <= at < table.len(),
    ensures
        table[at].1 <= total_of(table),
    decreases at,
{
    if at > 0 {
        assert(table.skip(1)[at - 1] == table[at]);
        lemma_count_in_total(table.skip(1), at - 1);
    }
}

impl CountTable {
    /// A table without counts.
    pub fn new() -> (r: CountTable)
        ensures
            r@ == Seq::<(Seq<char>, nat)>::empty(),
    {
        let r = CountTable { entries: Vec::new() };
        proof {
            assert(r@ == Seq::<(Seq<char>, nat)>::empty());
        }
        r
    }

    /// Whether there are no counts.
    pub fn is_empty(&self) -> (r: bool)
        ensures
            r == (self@.len() == 0),
    {
        self.entries.len() == 0
    }

    /// Counts a name once more.
    pub fn add_one(&mut self, name: &str)
        requires
            total_of(old(self)@) < usize::MAX,
        ensures
            final(self)@ == counted(old(self)@, name@),
    {
        let ghost table = self@;
        let mut at: usize = 0;
        while at < self.entries.len() && !same_text(self.entries[at].0.as_str(), name)
            && !comes_before(name, self.entries[at].0.as_str())
            invariant
                at <= self.entries@.len(),
                table == self@,
                forall|i: int|
                    0 <= i < at ==> (#[trigger] table[i]).0 != name@ && !text::text_before(
                        name@,
                        table[i].0,
                    ),
            decreases self.entries@.len() - at,
        {
            proof {
                assert(table[at as int] == (
                    self.entries@[at as int].0@,
                    self.entries@[at as int].1 as nat,
                ));
            }
            at += 1;
        }
        proof {
            lemma_counted_at(table, name@, at as int);
        }
        let ghost rest = table.skip(at as int);
        if at < self.entries.len() && same_text(self.entries[at].0.as_str(), name) {
            proof {
                lemma_count_in_total(table, at as int);
                assert(rest[0] == table[at as int]);
            }
            let count: usize = self.entries[at].1;
            self.entries.set(at, (name.to_owned(), count + 1));
            proof {
                assert(self@ == table.take(at as int) + rest.update(0, (name@, rest[0].1 + 1)));
            }
        } else {
            self.entries.insert(at, (name.to_owned(), 1));
            proof {
                if at < table.len() {
                    assert(rest[0] == table[at as int]);
                    assert(counted(rest, name@) == seq![(name@, 1nat)] + rest);
                } else {
                    assert(rest.len() == 0);
                    assert(seq![(name@, 1nat)] == seq![(name@, 1nat)] + rest);
                }
                assert(self@ == table.take(at as int) + (seq![(name@, 1nat)] + rest));
            }
        }
    }
}

/// A list of counts once each of `names` was counted once more.
pub open spec fn counted_all(table: Seq<(Seq<char>, nat)>, names: Seq<Seq<char>>) -> Seq<
    (Seq<char>, nat),
>
    decreases names.len(),
{
    if names.len() == 0 {
        table
    } else {
        counted(counted_all(table, names.drop_last()), names.last())
    }
}

/// Counting names adds their number to the sum.
pub proof fn lemma_counted_all_total(table: Seq<(Seq<char>, nat)>, names: Seq<Seq<char>>)
    ensures
        total_of(counted_all(table, names)) == total_of(table)
            + names.len(),
    decreases names.len(),
{
    if names.len() > 0 {
        lemma_counted_all_total(table, names.drop_last());
        lemma_counted_total(
            counted_all(table, names.drop_last()),
            names.last(),
        );
    }
}

/// To count on from a tally is to tally all names.
pub proof fn tallies_may_be_continued(first: Seq<Seq<char>>, second: Seq<Seq<char>>)
    ensures
        counted_all(tally(first), second) == tally(first + second),
    decreases second.len(),
{
    if second.len() == 0 {
        assert(first + second == first);
    } else {
        tallies_may_be_continued(first, second.drop_last());
        assert((first + second).drop_last() == first + second.drop_last());
    }
}

/// The parts of a summary, each a name and its count.
pub open spec fn count_parts(table: Seq<(Seq<char>, nat)>) -> Seq<Seq<char>> {
    Seq::new(table.len(), |i: int| table[i].0 + ":"@ + number::decimal(table[i].1))
}

/// The venues of a list of papers.
pub open spec fn venues_of(papers: Seq<Paper>) -> Seq<Seq<char>> {
    Seq::new(papers.len(), |i: int| papers[i].venue@)
}

/// How many papers of each venue a batch holds, in the order of the venues.
pub fn batch_venue_summary(inputs: &Vec<Paper>) -> (r: String)
    ensures
        r@ == text::join(count_parts(tally(venues_of(inputs@))), ", "@),
{
    let mut table = CountTable::new();
    let length: usize = inputs.len();
    let mut i: usize = 0;
    while i < length
        invariant
            i <= length == inputs@.len(),
            table@ == tally(venues_of(inputs@).take(i as int)),
        decreases length - i,
    {
        proof {
            let venues = venues_of(inputs@);
            tallies_count_occurrences(venues.take(i as int), Seq::empty());
            assert(venues.take(i + 1).drop_last() == venues.take(i as int));
            assert(venues.take(i + 1).last() == inputs@[i as int].venue@);
        }
        table.add_one(inputs[i].venue.as_str());
        i += 1;
    }
    proof {
        assert(venues_of(inputs@).take(length as int) == venues_of(inputs@));
    }
    let parts = table_parts(&table);
    join_strings(&parts, ", ")
}

fn table_parts(table: &CountTable) -> (r: Vec<String>)
    ensures
        r.deep_view() == count_parts(table@),
{
    let mut parts: Vec<String> = Vec::new();
    let mut i: usize = 0;
    proof {
        assert(parts.deep_view() == count_parts(table@).take(0));
    }
    while i < table.entries.len()
        invariant
            i <= table.entries@.len(),
            parts.deep_view() == count_parts(table@).take(i as int),
        decreases table.entries@.len() - i,
    {
        let count = usize_string(table.entries[i].1);
        push_string(&mut parts, concat3(table.entries[i].0.as_str(), ":", count.as_str()));
        i += 1;
        proof {
            let all = count_parts(table@);
            assert(all.take(i as int) == all.take(i - 1).push(all[i - 1]));
        }
    }
    proof {
        assert(count_parts(table@).take(i as int) == count_parts(table@));
    }
    parts
}

/// The lines for the counts of a table.
pub open spec fn count_lines(table: Seq<(Seq<char>, nat)>) -> Seq<Seq<char>> {
    Seq::new(
        table.len(),
        |i: int| "  "@ + padded_left(number::decimal(table[i].1), 10) + " "@ + table[i].0,
    )
}

/// Appends the lines for the counts of a table.
pub fn push_count_lines(lines: &mut Vec<String>, table: &CountTable)
    ensures
        final(lines).deep_view() == old(lines).deep_view() + count_lines(table@),
{
    let ghost before = lines.deep_view();
    let mut i: usize = 0;
    proof {
        assert(lines.deep_view() == before + count_lines(table@).take(0));
    }
    while i < table.entries.len()
        invariant
            i <= table.entries@.len(),
            lines.deep_view() == before + count_lines(table@).take(i as int),
        decreases table.entries@.len() - i,
    {
        let digits = usize_string(table.entries[i].1);
        let padded = pad_left(digits.as_str(), 10);
        let mut line = "  ".to_owned();
        line.append(padded.as_str());
        line.append(" ");
        line.append(table.entries[i].0.as_str());
        push_string(lines, line);
        i += 1;
        proof {
            let all = count_lines(table@);
            assert(all.take(i as int) == all.take(i - 1).push(all[i - 1]));
            assert(lines.deep_view() == before + all.take(i as int));
        }
    }
    proof {
        assert(count_lines(table@).take(i as int) == count_lines(table@));
    }
}

/// Whether every count of a list is at least one.
pub open spec fn counts_are_positive(table: Seq<(Seq<char>, nat)>) -> bool {
    forall|i: int| 0 <= i < table.len() ==> (#[trigger] table[i]).1 >= 1
}

proof fn lemma_counted_positive(table: Seq<(Seq<char>, nat)>, name: Seq<char>)
    requires
        counts_are_positive(table),
    ensures
        counts_are_positive(counted(table, name)),
    decreases table.len(),
{
    let after = counted(table, name);
    if table.len() > 0 && table[0].0 != name {
        if text::text_before(name, table[0].0) {
            assert forall|i: int| 0 <= i < after.len() implies (#[trigger] after[i]).1 >= 1 by {
                if i > 0 {
                    assert(after[i] == table[i - 1]);
                }
            }
        } else {
            let rest = table.skip(1);
            assert forall|i: int| 0 <= i < rest.len() implies (#[trigger] rest[i]).1 >= 1 by {
                assert(rest[i] == table[i + 1]);
            }
            lemma_counted_positive(rest, name);
            assert forall|i: int| 0 <= i < after.len() implies (#[trigger] after[i]).1 >= 1 by {
                if i > 0 {
                    assert(after[i] == counted(rest, name)[i - 1]);
                }
            }
        }
    }
}

proof fn lemma_tally_positive(names: Seq<Seq<char>>)
    ensures
        counts_are_positive(tally(names)),
    decreases names.len(),
{
    if names.len() > 0 {
        lemma_tally_positive(names.drop_last());
        lemma_counted_positive(tally(names.drop_last()), names.last());
    }
}

proof fn lemma_rest_in_order(table: Seq<(Seq<char>, nat)>)
    requires
        names_in_order(table),
        counts_are_positive(table),
        table.len() > 0,
    ensures
        names_in_order(table.skip(1)),
        counts_are_positive(table.skip(1)),
        count_of(table.skip(1), table[0].0) == 0,
{
    let rest = table.skip(1);
    assert forall|i: int| 0 <= i < rest.len() implies rest[i] == #[trigger] table[i + 1] by {}
    assert forall|i: int, k: int| 0 <= i < k < rest.len() implies text::text_before(
        (#[trigger] rest[i]).0,
        (#[trigger] rest[k]).0,
    ) by {
        assert(rest[i] == table[i + 1] && rest[k] == table[k + 1]);
    }
    assert forall|i: int| 0 <= i < rest.len() implies (#[trigger] rest[i]).1 >= 1 by {
        assert(rest[i] == table[i + 1]);
    }
    if rest.len() > 0 {
        assert(rest[0] == table[1]);
    }
    lemma_absent(rest, table[0].0);
}

/// Lists of counts in order are the same where they give every name the same count.
proof fn lemma_same_counts(a: Seq<(Seq<char>, nat)>, b: Seq<(Seq<char>, nat)>)
    requires
        names_in_order(a),
        names_in_order(b),
        counts_are_positive(a),
        counts_are_positive(b),
        forall|name: Seq<char>| #[trigger] count_of(a, name) == count_of(b, name),
    ensures
        a == b,
    decreases a.len(),
{
    if a.len() == 0 {
        if b.len() > 0 {
            assert(count_of(a, b[0].0) == count_of(b, b[0].0));
        }
    } else {
        let name = a[0].0;
        assert(count_of(a, name) == count_of(b, name));
        assert(b.len() > 0);
        let other = b[0].0;
        assert(count_of(a, other) == count_of(b, other));
        text::lemma_text_before_total(name, other);
        if text::text_before(name, other) {
            lemma_absent(b, name);
        }
        if text::text_before(other, name) {
            lemma_absent(a, other);
        }
        lemma_rest_in_order(a);
        lemma_rest_in_order(b);
        assert forall|n: Seq<char>| #[trigger] count_of(a.skip(1), n) == count_of(
            b.skip(1),
            n,
        ) by {
            assert(count_of(a, n) == count_of(b, n));
        }
        lemma_same_counts(a.skip(1), b.skip(1));
        assert(a == seq![a[0]] + a.skip(1));
        assert(b == seq![b[0]] + b.skip(1));
    }
}

proof fn lemma_same_tally(a: Seq<Seq<char>>, b: Seq<Seq<char>>)
    requires
        forall|name: Seq<char>| #[trigger] occurrences(a, name) == occurrences(b, name),
    ensures
        tally(a) == tally(b),
{
    lemma_tally_positive(a);
    lemma_tally_positive(b);
    tallies_count_occurrences(a, Seq::empty());
    tallies_count_occurrences(b, Seq::empty());
    assert forall|name: Seq<char>| #[trigger] count_of(tally(a), name) == count_of(
        tally(b),
        name,
    ) by {
        tallies_count_occurrences(a, name);
        tallies_count_occurrences(b, name);
        assert(occurrences(a, name) == occurrences(b, name));
    }
    lemma_same_counts(tally(a), tally(b));
}

proof fn lemma_occurrences_without(names: Seq<Seq<char>>, at: int, name: Seq<char>)
    requires
        0 <= at < names.len(),
    ensures
        occurrences(names, name) == occurrences(names.remove(at), name) + if names[at] == name {
            1nat
        } else {
            0nat
        },
    decreases names.len(),
{
    if at == names.len() - 1 {
        assert(names.remove(at) == names.drop_last());
    } else {
        lemma_occurrences_without(names.drop_last(), at, name);
        assert(names.remove(at).drop_last() == names.drop_last().remove(at));
        assert(names.remove(at).last() == names.last());
    }
}

proof fn lemma_venues_permuted(xs: Seq<Paper>, ys: Seq<Paper>, venue: Seq<char>)
    requires
        xs.to_multiset() == ys.to_multiset(),
    ensures
        occurrences(venues_of(xs), venue) == occurrences(venues_of(ys), venue),
    decreases xs.len(),
{
    broadcast use vstd::seq_lib::group_to_multiset_ensures;

    assert(xs.len() == xs.to_multiset().len());
    assert(ys.len() == ys.to_multiset().len());
    if xs.len() > 0 {
        let end = xs.len() - 1;
        let paper = xs[end];
        assert(xs.contains(paper));
        assert(xs.to_multiset().count(paper) > 0);
        assert(ys.to_multiset().count(paper) > 0);
        assert(ys.contains(paper));
        let at = choose|i: int| 0 <= i < ys.len() && ys[i] == paper;
        assert(xs.remove(end).to_multiset() == xs.to_multiset().remove(paper));
        assert(ys.remove(at).to_multiset() == ys.to_multiset().remove(paper));
        lemma_venues_permuted(xs.remove(end), ys.remove(at), venue);
        lemma_occurrences_without(venues_of(xs), end, venue);
        lemma_occurrences_without(venues_of(ys), at, venue);
        assert(venues_of(xs).remove(end) == venues_of(xs.remove(end)));
        assert(venues_of(ys).remove(at) == venues_of(ys.remove(at)));
    }
}

/// The summary of a batch is the same for its papers in any order.
pub proof fn summaries_ignore_order(xs: Seq<Paper>, ys: Seq<Paper>)
    requires
        xs.to_multiset() == ys.to_multiset(),
    ensures
        text::join(count_parts(tally(venues_of(xs))), ", "@) == text::join(
            count_parts(tally(venues_of(ys))),
            ", "@,
        ),
{
    assert forall|venue: Seq<char>| #[trigger] occurrences(venues_of(xs), venue) == occurrences(
        venues_of(ys),
        venue,
    ) by {
        lemma_venues_permuted(xs, ys, venue);
    }
    lemma_same_tally(venues_of(xs), venues_of(ys));
}

proof fn lemma_count_at(table: Seq<(Seq<char>, nat)>, at: int)
    requires
        names_in_order(table),
        0 <= at < table.len(),
    ensures
        count_of(table, table[at].0) == table[at].1,
    decreases at,
{
    if at > 0 {
        text::lemma_text_before_total(table[0].0, table[at].0);
        assert(text::text_before(table[0].0, table[at].0));
        let rest = table.skip(1);
        assert forall|i: int, k: int| 0 <= i < k < rest.len() implies text::text_before(
            (#[trigger] rest[i]).0,
            (#[trigger] rest[k]).0,
        ) by {
            assert(rest[i] == table[i + 1] && rest[k] == table[k + 1]);
        }
        assert(rest[at - 1] == table[at]);
        lemma_count_at(rest, at - 1);
    }
}

proof fn lemma_counted_somewhere(table: Seq<(Seq<char>, nat)>, name: Seq<char>)
    requires
        count_of(table, name) > 0,
    ensures
        exists|i: int| 0 <= i < table.len() && (#[trigger] table[i]).0 == name,
    decreases table.len(),
{
    if table[0].0 != name {
        lemma_counted_somewhere(table.skip(1), name);
        let i = choose|i: int|
            0 <= i < table.skip(1).len() && (#[trigger] table.skip(1)[i]).0 == name;
        assert(table[i + 1].0 == name);
    }
}

/// A tally lists every name that occurs, each exactly once and in ascending order, with the number
/// of its occurrences; the counts add up to the number of names.
pub proof fn tallies_list_each_name_once(names: Seq<Seq<char>>)
    ensures
        names_in_order(tally(names)),
        forall|i: int, k: int|
            0 <= i < k < tally(names).len() ==> text::text_before(
                (#[trigger] tally(names)[i]).0,
                (#[trigger] tally(names)[k]).0,
            ),
        forall|i: int|
            0 <= i < tally(names).len() ==> (#[trigger] tally(names)[i]).1 == occurrences(
                names,
                tally(names)[i].0,
            ) && tally(names)[i].1 >= 1,
        forall|name: Seq<char>|
            #[trigger] occurrences(names, name) > 0 ==> exists|i: int|
                0 <= i < tally(names).len() && (#[trigger] tally(names)[i]).0 == name,
        total_of(tally(names)) == names.len(),
{
    tallies_count_occurrences(names, Seq::empty());
    lemma_tally_positive(names);
    assert forall|i: int| 0 <= i < tally(names).len() implies (#[trigger] tally(names)[i]).1
        == occurrences(names, tally(names)[i].0) && tally(names)[i].1 >= 1 by {
        lemma_count_at(tally(names), i);
        tallies_count_occurrences(names, tally(names)[i].0);
    }
    assert forall|name: Seq<char>| #[trigger] occurrences(names, name) > 0 implies exists|i: int|
        0 <= i < tally(names).len() && (#[trigger] tally(names)[i]).0 == name by {
        tallies_count_occurrences(names, name);
        lemma_counted_somewhere(tally(names), name);
    }
}

/// A range of years, as it is printed.
pub open spec fn year_range_text(range: YearRange) -> Seq<char> {
    match (range.min, range.max) {
        (Some(min), Some(max)) => if min == max {
            number::signed_decimal(min as int)
        } else {
            number::signed_decimal(min as int) + "-"@ + number::signed_decimal(max as int)
        },
        (Some(min), None) => number::signed_decimal(min as int) + "-"@,
        (None, Some(max)) => "-"@ + number::signed_decimal(max as int),
        (None, None) => Seq::empty(),
    }
}

fn format_year_range(range: &YearRange) -> (r: String)
    ensures
        r@ == year_range_text(*range),
{
    match range.bounds() {
        (Some(min), Some(max)) => {
            if min == max {
                i32_string(min)
            } else {
                let first = i32_string(min);
                let last = i32_string(max);
                concat3(first.as_str(), "-", last.as_str())
            }
        },
        (Some(min), None) => {
            let first = i32_string(min);
            concat2(first.as_str(), "-")
        },
        (None, Some(max)) => {
            let last = i32_string(max);
            concat2("-", last.as_str())
        },
        (None, None) => String::new(),
    }
}

/// Ranges of years, as they are printed.
pub open spec fn year_range_texts(years: Seq<YearRange>) -> Seq<Seq<char>> {
    Seq::new(years.len(), |i: int| year_range_text(years[i]))
}

/// Ranges of years, as they are printed.
pub fn format_year_ranges(years: &Vec<YearRange>) -> (r: String)
    ensures
        r@ == text::join(year_range_texts(years@), ", "@),
{
    let mut parts: Vec<String> = Vec::new();
    let mut i: usize = 0;
    proof {
        assert(parts.deep_view() == year_range_texts(years@).take(0));
    }
    while i < years.len()
        invariant
            i <= years@.len(),
            parts.deep_view() == year_range_texts(years@).take(i as int),
        decreases years@.len() - i,
    {
        push_string(&mut parts, format_year_range(&years[i]));
        i += 1;
        proof {
            let all = year_range_texts(years@);
            assert(all.take(i as int) == all.take(i - 1).push(all[i - 1]));
        }
    }
    proof {
        assert(year_range_texts(years@).take(i as int) == year_range_texts(years@));
    }
    join_strings(&parts, ", ")
}

/// How many papers are worked on as one batch: four for each concurrent fetch, within bounds.
pub open spec fn batch_size(jobs: nat) -> nat {
    if 4 * jobs < MIN_ENRICH_BATCH {
        MIN_ENRICH_BATCH as nat
    } else if 4 * jobs > MAX_ENRICH_BATCH {
        MAX_ENRICH_BATCH as nat
    } else {
        4 * jobs
    }
}

/// How many papers are worked on as one batch.
pub fn enrich_batch_size(jobs: usize) -> (r: usize)
    ensures
        r == batch_size(jobs as nat),
{
    if jobs > MAX_ENRICH_BATCH {
        return MAX_ENRICH_BATCH;
    }
    let wanted: usize = jobs * 4;
    if wanted < MIN_ENRICH_BATCH {
        MIN_ENRICH_BATCH
    } else if wanted > MAX_ENRICH_BATCH {
        MAX_ENRICH_BATCH
    } else {
        wanted
    }
}

/// Batches are within bounds, and never smaller for more concurrent fetches.
pub proof fn batches_are_bounded(jobs: nat, more: nat)
    requires
        jobs <= more,
    ensures
        MIN_ENRICH_BATCH <= batch_size(jobs) <= batch_size(more) <= MAX_ENRICH_BATCH,
{
}

/// A padded text holds the text whole, with spaces on one side only, and is as long as the width
/// unless the text is longer.
pub proof fn padding_adds_only_spaces(s: Seq<char>, width: nat)
    ensures
        padded_right(s, width as int).len() == if s.len() < width {
            width
        } else {
            s.len()
        },
        padded_right(s, width as int).take(s.len() as int) == s,
        forall|k: int|
            s.len() <= k < padded_right(s, width as int).len() ==> #[trigger] padded_right(
                s,
                width as int,
            )[k] == ' ',
        padded_left(s, width as int).len() == padded_right(s, width as int).len(),
        padded_left(s, width as int).skip(padded_left(s, width as int).len() - s.len()) == s,
        forall|k: int|
            0 <= k < padded_left(s, width as int).len() - s.len() ==> #[trigger] padded_left(
                s,
                width as int,
            )[k] == ' ',
{
}

/// The line for a field holds its label, padded to ten characters, and its value, whole.
pub proof fn fields_hold_label_and_value(label: Seq<char>, value: Seq<char>)
    ensures
        field_text(label, value) == "  "@ + padded_right(label, 10) + " "@ + value,
        field_text(label, value).len() == value.len() + 3 + if label.len() < 10 {
            10
        } else {
            label.len()
        },
{
    reveal_strlit("  ");
    reveal_strlit(" ");
}

/// Every count of a table has its part in a summary and its line in a list, with its own name and
/// number, in order.
pub proof fn every_count_is_printed(table: Seq<(Seq<char>, nat)>, i: int)
    requires
        0 <= i < table.len(),
    ensures
        count_parts(table).len() == table.len(),
        count_parts(table)[i] == table[i].0 + ":"@ + number::decimal(table[i].1),
        count_lines(table).len() == table.len(),
        count_lines(table)[i] == "  "@ + padded_left(number::decimal(table[i].1), 10) + " "@
            + table[i].0,
{
}

/// The venues of papers are those of each, in order.
pub proof fn every_paper_has_its_venue(a: Seq<Paper>, b: Seq<Paper>, paper: Paper)
    ensures
        venues_of(a + b) == venues_of(a) + venues_of(b),
        venues_of(seq![paper]) == seq![paper.venue@],
{
    assert(venues_of(a + b) == venues_of(a) + venues_of(b));
    assert(venues_of(seq![paper]) == seq![paper.venue@]);
}

/// Names that occur are counted over all parts of a list.
pub proof fn occurrences_add_up(a: Seq<Seq<char>>, b: Seq<Seq<char>>, name: Seq<char>, other: Seq<char>)
    ensures
        occurrences(a + b, name) == occurrences(a, name) + occurrences(b, name),
        occurrences(seq![name], name) == 1,
        other != name ==> occurrences(seq![other], name) == 0,
    decreases b.len(),
{
    assert(seq![name].drop_last() == Seq::<Seq<char>>::empty());
    assert(seq![other].drop_last() == Seq::<Seq<char>>::empty());
    assert(occurrences(Seq::<Seq<char>>::empty(), name) == 0);
    if b.len() == 0 {
        assert(a + b == a);
    } else {
        occurrences_add_up(a, b.drop_last(), name, other);
        assert((a + b).drop_last() == a + b.drop_last());
        assert((a + b).last() == b.last());
    }
}

/// A batch of papers of one venue is summed up as that venue and the number of the papers.
pub proof fn batches_of_one_venue(papers: Seq<Paper>, venue: Seq<char>)
    requires
        papers.len() > 0,
        forall|i: int| 0 <= i < papers.len() ==> (#[trigger] papers[i]).venue@ == venue,
    ensures
        text::join(count_parts(tally(venues_of(papers))), ", "@) == venue + ":"@ + number::decimal(
            papers.len(),
        ),
{
    lemma_one_venue(papers, venue);
    let table = seq![(venue, papers.len())];
    assert(count_parts(table) == seq![venue + ":"@ + number::decimal(papers.len())]);
}

proof fn lemma_one_venue(papers: Seq<Paper>, venue: Seq<char>)
    requires
        papers.len() > 0,
        forall|i: int| 0 <= i < papers.len() ==> (#[trigger] papers[i]).venue@ == venue,
    ensures
        tally(venues_of(papers)) == seq![(venue, papers.len())],
    decreases papers.len(),
{
    let front = papers.drop_last();
    assert(venues_of(papers).drop_last() == venues_of(front));
    assert(venues_of(papers).last() == papers[papers.len() - 1].venue@);
    if front.len() > 0 {
        assert forall|i: int| 0 <= i < front.len() implies (#[trigger] front[i]).venue@ == venue by {
            assert(front[i] == papers[i]);
        }
        lemma_one_venue(front, venue);
        assert(seq![(venue, front.len())].update(0, (venue, front.len() + 1)) == seq![
            (venue, papers.len()),
        ]);
    } else {
        assert(venues_of(front) == Seq::<Seq<char>>::empty());
        assert(tally(venues_of(front)) == Seq::<(Seq<char>, nat)>::empty());
    }
}

/// A single year is printed as itself, a range by its bounds with a dash between them, and a bound
/// that is missing as nothing.
pub proof fn ranges_are_printed_by_their_bounds(min: i32, max: i32)
    requires
        min != max,
    ensures
        year_range_text(YearRange { min: Some(min), max: Some(min) }) == number::signed_decimal(
            min as int,
        ),
        year_range_text(YearRange { min: Some(min), max: Some(max) }) == number::signed_decimal(
            min as int,
        ) + "-"@ + number::signed_decimal(max as int),
        year_range_text(YearRange { min: Some(min), max: None }) == number::signed_decimal(
            min as int,
        ) + "-"@,
        year_range_text(YearRange { min: None, max: Some(max) }) == "-"@ + number::signed_decimal(
            max as int,
        ),
        year_range_text(YearRange { min: None, max: None }).len() == 0,
{
}

/// Every range is printed, in order.
pub proof fn every_range_is_printed(a: Seq<YearRange>, b: Seq<YearRange>, range: YearRange)
    ensures
        year_range_texts(a + b) == year_range_texts(a) + year_range_texts(b),
        year_range_texts(seq![range]) == seq![year_range_text(range)],
{
    assert(year_range_texts(a + b) == year_range_texts(a) + year_range_texts(b));
    assert(year_range_texts(seq![range]) == seq![year_range_text(range)]);
}

/// A batch holds four papers for each concurrent fetch, but never fewer than sixty-four nor more
/// than five hundred and twelve.
pub proof fn batches_hold_four_papers_for_each_job(jobs: nat)
    ensures
        16 <= jobs <= 128 ==> batch_size(jobs) == 4 * jobs,
        jobs < 16 ==> batch_size(jobs) == 64,
        jobs > 128 ==> batch_size(jobs) == 512,
{
}

/// Counting names is counting the first and then the others.
pub proof fn counting_may_be_parted(
    table: Seq<(Seq<char>, nat)>,
    a: Seq<Seq<char>>,
    b: Seq<Seq<char>>,
)
    ensures
        counted_all(table, a + b) == counted_all(counted_all(table, a), b),
    decreases b.len(),
{
    if b.len() == 0 {
        assert(a + b == a);
    } else {
        counting_may_be_parted(table, a, b.drop_last());
        assert((a + b).drop_last() == a + b.drop_last());
        assert((a + b).last() == b.last());
    }
}

} // verus!
