//! Abstracts in the replies of the bibliographic services.
use vstd::hash_map::StringHashMap;
use vstd::prelude::*;

use crate::html;
use crate::html::strip_markup;
use crate::json::{Json, JsonTree};
use crate::json;
use crate::markup;
use crate::markup::non_empty_text;
use crate::text;
use crate::text::{join_strings, push_string, trim};

verus! {

/// The places of one word: the positions in `positions` that are unsigned integers, in their
/// order.
pub open spec fn places_of(word: Seq<char>, positions: Seq<JsonTree>) -> Seq<(u64, Seq<char>)>
    decreases positions.len(),
{
    if positions.len() == 0 {
        Seq::empty()
    } else {
        let front = places_of(word, positions.drop_last());
        match positions.last() {
            JsonTree::Number(Some(position)) => front.push((position, word)),
            _ => front,
        }
    }
}

/// The places of all words of an inverted index, in the order of the index; `None` where the
/// positions of a word are no array.
pub open spec fn placed_words(index: Seq<(Seq<char>, JsonTree)>) -> Option<Seq<(u64, Seq<char>)>>
    decreases index.len(),
{
    if index.len() == 0 {
        Some(Seq::empty())
    } else {
        match (placed_words(index.drop_last()), index.last().1) {
            (Some(front), JsonTree::Array(positions)) => Some(
                front + places_of(index.last().0, positions),
            ),
            _ => None,
        }
    }
}

/// `list` with `item` put in behind the last entry whose position is not greater.
pub open spec fn put_in(list: Seq<(u64, Seq<char>)>, item: (u64, Seq<char>)) -> Seq<
    (u64, Seq<char>),
>
    decreases list.len(),
{
    if list.len() == 0 || list.last().0 <= item.0 {
        list.push(item)
    } else {
        put_in(list.drop_last(), item).push(list.last())
    }
}

/// `list` in the order of its positions; entries with the same position keep their order.
pub open spec fn in_order(list: Seq<(u64, Seq<char>)>) -> Seq<(u64, Seq<char>)>
    decreases list.len(),
{
    if list.len() == 0 {
        Seq::empty()
    } else {
        put_in(in_order(list.drop_last()), list.last())
    }
}

/// The words of `list`, without their positions.
pub open spec fn words_of(list: Seq<(u64, Seq<char>)>) -> Seq<Seq<char>> {
    list.map_values(|entry: (u64, Seq<char>)| entry.1)
}

/// The text of an inverted index: its words in the order of their positions.
pub open spec fn index_text(index: Seq<(Seq<char>, JsonTree)>) -> Option<Seq<char>> {
    match placed_words(index) {
        Some(placed) if placed.len() > 0 => Some(text::join(words_of(in_order(placed)), " "@)),
        _ => None,
    }
}

/// The trimmed text of the member `abstract`, where it is a string with more than white space.
pub open spec fn plain_abstract(reply: JsonTree) -> Option<Seq<char>> {
    match reply.member_text("abstract"@) {
        Some(t) if text::trimmed(t).len() > 0 => Some(text::trimmed(t)),
        _ => None,
    }
}

/// The abstract in an OpenAlex work: its plain `abstract`, or else the text of its
/// `abstract_inverted_index`.
pub open spec fn openalex_abstract(work: JsonTree) -> Option<Seq<char>> {
    match plain_abstract(work) {
        Some(t) => Some(t),
        None => match work.member("abstract_inverted_index"@) {
            Some(JsonTree::Object(index)) => index_text(index),
            _ => None,
        },
    }
}

/// Putting in at index `at`.
proof fn lemma_put_in(list: Seq<(u64, Seq<char>)>, item: (u64, Seq<char>), at: int)
    requires
        0 <= at <= list.len(),
        at > 0 ==> list[at - 1].0 <= item.0,
        forall|k: int| at <= k < list.len() ==> (#[trigger] list[k]).0 > item.0,
    ensures
        put_in(list, item) == list.insert(at, item),
    decreases list.len(),
{
    if at < list.len() {
        let front = list.drop_last();
        lemma_put_in(front, item, at);
        assert(front.insert(at, item).push(list.last()) == list.insert(at, item));
    } else {
        assert(list.insert(at, item) == list.push(item));
    }
}

/// Puts a word in behind the last entry whose position is not greater.
fn put_word(list: &mut Vec<(u64, String)>, position: u64, word: String)
    ensures
        final(list).deep_view() == put_in(old(list).deep_view(), (position, word@)),
{
    let mut at: usize = list.len();
    while at > 0 && list[at - 1].0 > position
        invariant
            at <= list@.len(),
            forall|k: int| at <= k < list@.len() ==> (#[trigger] list@[k]).0 > position,
        decreases at,
    {
        at -= 1;
    }
    proof {
        let view = list.deep_view();
        assert forall|k: int| at <= k < view.len() implies (#[trigger] view[k]).0 > position by {
            assert(view[k] == list@[k].deep_view());
        }
        if at > 0 {
            assert(view[at - 1] == list@[at - 1].deep_view());
        }
        lemma_put_in(view, (position, word@), at as int);
    }
    let ghost before = list.deep_view();
    list.insert(at, (position, word));
    proof {
        assert(list.deep_view() == before.insert(at as int, (position, word@)));
    }
}

/// Reads the places of one word into `placed`, which is in order and holds the places `so_far`.
fn place_word(word: &String, positions: &Vec<Json>, placed: &mut Vec<(u64, String)>, so_far: Ghost<
    Seq<(u64, Seq<char>)>,
>)
    requires
        old(placed).deep_view() == in_order(so_far@),
    ensures
        final(placed).deep_view() == in_order(
            so_far@ + places_of(word@, json::trees_of(positions@)),
        ),
{
    let ghost trees = json::trees_of(positions@);
    proof {
        json::lemma_trees_of(positions@);
        assert(trees.take(0) == Seq::<JsonTree>::empty());
        assert(so_far@ + places_of(word@, trees.take(0)) == so_far@);
    }
    let mut i: usize = 0;
    while i < positions.len()
        invariant
            i <= positions@.len(),
            trees == json::trees_of(positions@),
            trees.len() == positions@.len(),
            forall|k: int| 0 <= k < positions@.len() ==> #[trigger] trees[k] == positions@[k]@,
            placed.deep_view() == in_order(so_far@ + places_of(word@, trees.take(i as int))),
        decreases positions@.len() - i,
    {
        let ghost places = so_far@ + places_of(word@, trees.take(i as int));
        proof {
            assert(trees.take(i + 1).drop_last() == trees.take(i as int));
            assert(trees.take(i + 1).last() == positions@[i as int]@);
        }
        if let Json::Number(Some(position)) = &positions[i] {
            put_word(placed, *position, word.clone());
            proof {
                let entry = (*position, word@);
                assert(so_far@ + places_of(word@, trees.take(i + 1)) == places.push(entry));
                assert(places.push(entry).drop_last() == places);
            }
        }
        i += 1;
    }
    proof {
        assert(trees.take(trees.len() as int) == trees);
    }
}

/// An index of which a part cannot be read cannot be read.
proof fn lemma_unreadable_extends(index: Seq<(Seq<char>, JsonTree)>, n: int)
    requires
        0 <= n <= index.len(),
        placed_words(index.take(n)) is None,
    ensures
        placed_words(index) is None,
    decreases index.len(),
{
    if n == index.len() {
        assert(index.take(n) == index);
    } else {
        assert(index.drop_last().take(n) == index.take(n));
        lemma_unreadable_extends(index.drop_last(), n);
    }
}

/// Putting entries in order keeps their number.
proof fn lemma_in_order_len(list: Seq<(u64, Seq<char>)>)
    ensures
        in_order(list).len() == list.len(),
    decreases list.len(),
{
    if list.len() > 0 {
        lemma_in_order_len(list.drop_last());
        lemma_put_in_len(in_order(list.drop_last()), list.last());
    }
}

proof fn lemma_put_in_len(list: Seq<(u64, Seq<char>)>, item: (u64, Seq<char>))
    ensures
        put_in(list, item).len() == list.len() + 1,
    decreases list.len(),
{
    if list.len() > 0 && list.last().0 > item.0 {
        lemma_put_in_len(list.drop_last(), item);
    }
}

/// The text of an inverted index: its words in the order of their positions.
pub fn text_of_index(index: &Vec<(String, Json)>) -> (r: Option<String>)
    ensures
        r.deep_view() == index_text(json::members_of(index@)),
{
    let ghost members = json::members_of(index@);
    let mut placed: Vec<(u64, String)> = Vec::new();
    let ghost mut so_far: Seq<(u64, Seq<char>)> = Seq::empty();
    proof {
        json::lemma_members_of(index@);
        assert(members.take(0) == Seq::<(Seq<char>, JsonTree)>::empty());
    }
    let mut i: usize = 0;
    while i < index.len()
        invariant
            i <= index@.len(),
            members == json::members_of(index@),
            members.len() == index@.len(),
            forall|k: int|
                0 <= k < index@.len() ==> #[trigger] members[k] == (index@[k].0@, index@[k].1@),
            placed_words(members.take(i as int)) == Some(so_far),
            placed.deep_view() == in_order(so_far),
        decreases index@.len() - i,
    {
        proof {
            assert(members.take(i + 1).drop_last() == members.take(i as int));
            assert(members.take(i + 1).last() == (index@[i as int].0@, index@[i as int].1@));
        }
        match &index[i].1 {
            Json::Array(positions) => {
                place_word(&index[i].0, positions, &mut placed, Ghost(so_far));
                proof {
                    so_far = so_far + places_of(index@[i as int].0@, json::trees_of(positions@));
                }
            },
            _ => {
                proof {
                    lemma_unreadable_extends(members, i + 1);
                }
                return None;
            },
        }
        i += 1;
    }
    proof {
        assert(members.take(members.len() as int) == members);
        lemma_in_order_len(so_far);
    }
    if placed.len() == 0 {
        return None;
    }
    let ghost ordered = placed.deep_view();
    let mut list: Vec<String> = Vec::new();
    let mut k: usize = 0;
    while k < placed.len()
        invariant
            k <= placed@.len(),
            ordered == placed.deep_view(),
            list.deep_view() == words_of(ordered).take(k as int),
        decreases placed@.len() - k,
    {
        push_string(&mut list, placed[k].1.clone());
        proof {
            assert(words_of(ordered)[k as int] == placed@[k as int].1@);
            assert(words_of(ordered).take(k + 1) == words_of(ordered).take(k as int).push(
                placed@[k as int].1@,
            ));
        }
        k += 1;
    }
    proof {
        assert(words_of(ordered).take(ordered.len() as int) == words_of(ordered));
    }
    Some(join_strings(&list, " "))
}

/// The trimmed text of the member `abstract`, where it is a string with more than white space.
fn plain_abstract_of(reply: &Json) -> (r: Option<String>)
    ensures
        r.deep_view() == plain_abstract(reply@),
{
    match reply.get_str("abstract") {
        Some(t) => {
            let trimmed = trim(t);
            if trimmed.as_str().is_empty() {
                None
            } else {
                Some(trimmed)
            }
        },
        None => None,
    }
}

/// The abstract in an OpenAlex work: the plain `abstract` where there is one, or else the text
/// rebuilt from the `abstract_inverted_index`.
pub fn abstract_from_openalex(work: &Json) -> (r: Option<String>)
    ensures
        r.deep_view() == openalex_abstract(work@),
{
    let plain = plain_abstract_of(work);
    if plain.is_some() {
        return plain;
    }
    match work.get("abstract_inverted_index") {
        Some(Json::Object(index)) => text_of_index(index),
        _ => None,
    }
}

/// The abstract in a Semantic Scholar paper.
pub fn abstract_from_semantic_scholar(paper: &Json) -> (r: Option<String>)
    ensures
        r.deep_view() == plain_abstract(paper@),
{
    plain_abstract_of(paper)
}

/// The abstract in a Crossref message: the text of the markup in its member `abstract`.
pub open spec fn crossref_abstract(message: JsonTree) -> Option<Seq<char>> {
    match message.member_text("abstract"@) {
        Some(raw) => html::markup_text(raw),
        None => None,
    }
}

/// Whether the markup in a Crossref message is small enough for the HTML parser.
pub open spec fn crossref_fits(message: JsonTree) -> bool {
    message.member_text("abstract"@) matches Some(raw) ==> html::markup_fits(raw)
}

/// The abstract in a Crossref message, which carries it as markup: the tags are dropped.
pub fn abstract_from_crossref(message: &Json) -> (r: Option<String>)
    requires
        crossref_fits(message@),
    ensures
        r.deep_view() == crossref_abstract(message@),
{
    match message.get_str("abstract") {
        Some(raw) => strip_markup(raw),
        None => None,
    }
}

/// The words of `list` at one position, in their order.
pub open spec fn words_at(list: Seq<(u64, Seq<char>)>, position: u64) -> Seq<Seq<char>>
    decreases list.len(),
{
    if list.len() == 0 {
        Seq::empty()
    } else {
        let front = words_at(list.drop_last(), position);
        if list.last().0 == position {
            front.push(list.last().1)
        } else {
            front
        }
    }
}

/// Whether the positions of `list` do not decrease.
pub open spec fn ordered(list: Seq<(u64, Seq<char>)>) -> bool {
    forall|i: int, k: int| 0 <= i <= k < list.len() ==> (#[trigger] list[i]).0 <= (#[trigger] list[k]).0
}

proof fn lemma_put_in_ordered(list: Seq<(u64, Seq<char>)>, item: (u64, Seq<char>))
    requires
        ordered(list),
    ensures
        ordered(put_in(list, item)),
        forall|k: int|
            0 <= k < put_in(list, item).len() ==> (#[trigger] put_in(list, item)[k]).0 <= item.0 || (
            list.len() > 0 && put_in(list, item)[k].0 <= list.last().0),
    decreases list.len(),
{
    if list.len() > 0 && list.last().0 > item.0 {
        let front = list.drop_last();
        assert(ordered(front));
        lemma_put_in_ordered(front, item);
        let inner = put_in(front, item);
        assert forall|k: int| 0 <= k < inner.len() implies (#[trigger] inner[k]).0
            <= list.last().0 by {
            if front.len() > 0 {
                assert(front.last() == list[list.len() - 2]);
            }
        }
    }
}

proof fn lemma_put_in_words_at(list: Seq<(u64, Seq<char>)>, item: (u64, Seq<char>), position: u64)
    ensures
        words_at(put_in(list, item), position) == words_at(list.push(item), position),
    decreases list.len(),
{
    if list.len() > 0 && list.last().0 > item.0 {
        let front = list.drop_last();
        lemma_put_in_words_at(front, item, position);
        let inner = put_in(front, item);
        assert(inner.push(list.last()).drop_last() == inner);
        assert(front.push(item).drop_last() == front);
        assert(list.push(item).drop_last() == list);
        let at_front = words_at(front, position);
        assert(words_at(list, position) == if list.last().0 == position {
            at_front.push(list.last().1)
        } else {
            at_front
        });
        assert(words_at(front.push(item), position) == if item.0 == position {
            at_front.push(item.1)
        } else {
            at_front
        });
    }
}

/// Putting words in order loses and adds none: the words come out in the order of their
/// positions, and those with the same position in the order in which they came in.
pub proof fn ordering_is_stable(list: Seq<(u64, Seq<char>)>, position: u64)
    ensures
        ordered(in_order(list)),
        in_order(list).len() == list.len(),
        words_at(in_order(list), position) == words_at(list, position),
    decreases list.len(),
{
    lemma_in_order_len(list);
    if list.len() > 0 {
        let front = list.drop_last();
        ordering_is_stable(front, position);
        lemma_put_in_ordered(in_order(front), list.last());
        lemma_put_in_words_at(in_order(front), list.last(), position);
        assert(in_order(front).push(list.last()).drop_last() == in_order(front));
    }
}

/// A plain abstract takes precedence over the inverted index, and is trimmed.
pub proof fn plain_abstract_comes_first(work: JsonTree)
    requires
        plain_abstract(work) is Some,
    ensures
        openalex_abstract(work) == plain_abstract(work),
        plain_abstract(work).unwrap().len() > 0,
        !text::white_space(plain_abstract(work).unwrap()[0]),
        !text::white_space(plain_abstract(work).unwrap().last()),
{
    text::lemma_trimmed(work.member_text("abstract"@).unwrap());
}

/// The abstracts of one venue or note list, by the identifiers under which they are known.
pub struct AbstractIndex {
    abstracts: StringHashMap<String>,
}

impl View for AbstractIndex {
    type V = Map<Seq<char>, Seq<char>>;

    closed spec fn view(&self) -> Map<Seq<char>, Seq<char>> {
        self.abstracts@.map_values(|value: String| value@)
    }
}

impl AbstractIndex {
    /// An index without abstracts.
    pub fn new() -> (r: AbstractIndex)
        ensures
            r@ == Map::<Seq<char>, Seq<char>>::empty(),
    {
        let r = AbstractIndex { abstracts: StringHashMap::new() };
        proof {
            assert(r@ == Map::<Seq<char>, Seq<char>>::empty());
        }
        r
    }

    /// Whether the index holds no abstract.
    pub fn is_empty(&self) -> (r: bool)
        ensures
            r == self@.is_empty(),
    {
        proof {
            assert(self@.dom() == self.abstracts@.dom());
        }
        self.abstracts.is_empty()
    }

    /// Enters an abstract, in place of any with the same identifier.
    pub fn insert(&mut self, id: &str, text: &str)
        ensures
            final(self)@ == old(self)@.insert(id@, text@),
    {
        let ghost before = self@;
        self.abstracts.insert(id.to_owned(), text.to_owned());
        proof {
            assert(self@ == before.insert(id@, text@));
        }
    }

    /// The abstract of `id`.
    pub fn get(&self, id: &str) -> (r: Option<String>)
        ensures
            match r {
                Some(found) => self@.contains_key(id@) && self@[id@] == found@,
                None => !self@.contains_key(id@),
            },
    {
        match self.abstracts.get(id) {
            Some(found) => Some(found.clone()),
            None => None,
        }
    }

    /// Enters all of `other`, in place of what has the same identifiers.
    pub fn extend(&mut self, other: AbstractIndex)
        ensures
            final(self)@ == old(self)@.union_prefer_right(other@),
    {
        let ghost before = self@;
        self.abstracts.union_prefer_right(other.abstracts);
        proof {
            assert(self@ == before.union_prefer_right(other@));
        }
    }
}

/// The readable text in the content field of a note: the field itself, or its `value`.
pub open spec fn content_text(field: JsonTree) -> Option<Seq<char>> {
    let raw = match field.text() {
        Some(t) => Some(t),
        None => field.member_text("value"@),
    };
    match raw {
        Some(t) => markup::cleaned(t),
        None => None,
    }
}

/// The readable text in the content field of a note: the field itself, or its `value`.
pub fn openreview_content_value(value: &Json) -> (r: Option<String>)
    ensures
        r.deep_view() == content_text(value@),
{
    match value.as_str() {
        Some(t) => non_empty_text(t),
        None => match value.get_str("value") {
            Some(t) => non_empty_text(t),
            None => None,
        },
    }
}

/// The abstract of a note.
pub open spec fn note_abstract(note: JsonTree) -> Option<Seq<char>> {
    match note.member("content"@) {
        Some(content) => match content.member("abstract"@) {
            Some(field) => content_text(field),
            None => None,
        },
        None => None,
    }
}

/// `index` with `text` entered under the member `key` of `note`, where that is a string.
pub open spec fn entered(
    index: Map<Seq<char>, Seq<char>>,
    note: JsonTree,
    key: Seq<char>,
    text: Seq<char>,
) -> Map<Seq<char>, Seq<char>> {
    match note.member_text(key) {
        Some(id) => index.insert(id, text),
        None => index,
    }
}

/// The abstracts of a list of notes, each under the note's `id` and its `forum`; a later note
/// takes the place of an earlier one.
pub open spec fn notes_index(notes: Seq<JsonTree>) -> Map<Seq<char>, Seq<char>>
    decreases notes.len(),
{
    if notes.len() == 0 {
        Map::empty()
    } else {
        let front = notes_index(notes.drop_last());
        match note_abstract(notes.last()) {
            Some(t) => entered(entered(front, notes.last(), "id"@, t), notes.last(), "forum"@, t),
            None => front,
        }
    }
}

/// The notes in a reply.
pub open spec fn notes_of(reply: JsonTree) -> Seq<JsonTree> {
    match reply.member("notes"@) {
        Some(JsonTree::Array(notes)) => notes,
        _ => Seq::empty(),
    }
}

/// The abstract of a note.
fn abstract_of_note(note: &Json) -> (r: Option<String>)
    ensures
        r.deep_view() == note_abstract(note@),
{
    match note.get("content") {
        Some(content) => match content.get("abstract") {
            Some(field) => openreview_content_value(field),
            None => None,
        },
        None => None,
    }
}

/// Enters `text` under the member `key` of `note`, where that is a string.
fn enter(index: &mut AbstractIndex, note: &Json, key: &str, text: &str)
    ensures
        final(index)@ == entered(old(index)@, note@, key@, text@),
{
    if let Some(id) = note.get_str(key) {
        index.insert(id, text);
    }
}

/// The abstracts in a list of notes, each under the note's `id` and its `forum`.
pub fn abstracts_from_openreview_notes(reply: &Json) -> (r: AbstractIndex)
    ensures
        r@ == notes_index(notes_of(reply@)),
{
    let mut index = AbstractIndex::new();
    let notes = match reply.get("notes") {
        Some(Json::Array(notes)) => notes,
        _ => {
            return index;
        },
    };
    let ghost trees = json::trees_of(notes@);
    proof {
        json::lemma_trees_of(notes@);
        assert(trees.take(0) == Seq::<JsonTree>::empty());
    }
    let mut i: usize = 0;
    while i < notes.len()
        invariant
            i <= notes@.len(),
            trees == json::trees_of(notes@),
            trees.len() == notes@.len(),
            forall|k: int| 0 <= k < notes@.len() ==> #[trigger] trees[k] == notes@[k]@,
            index@ == notes_index(trees.take(i as int)),
        decreases notes@.len() - i,
    {
        proof {
            assert(trees.take(i + 1).drop_last() == trees.take(i as int));
            assert(trees.take(i + 1).last() == notes@[i as int]@);
        }
        if let Some(found) = abstract_of_note(&notes[i]) {
            enter(&mut index, &notes[i], "id", found.as_str());
            enter(&mut index, &notes[i], "forum", found.as_str());
        }
        i += 1;
    }
    proof {
        assert(trees.take(trees.len() as int) == trees);
    }
    index
}

/// How many notes a reply holds.
pub fn note_count(reply: &Json) -> (r: usize)
    ensures
        r == notes_of(reply@).len(),
{
    match reply.get("notes") {
        Some(Json::Array(notes)) => {
            proof {
                json::lemma_trees_of(notes@);
            }
            notes.len()
        },
        _ => 0,
    }
}

/// Every abstract in the index of a note list is not empty and has its white space collapsed.
pub proof fn indexed_abstracts_are_normal(notes: Seq<JsonTree>, id: Seq<char>)
    requires
        notes_index(notes).contains_key(id),
    ensures
        html::normal_text(Some(notes_index(notes)[id])),
    decreases notes.len(),
{
    if notes.len() > 0 {
        let front = notes_index(notes.drop_last());
        if front.contains_key(id) {
            indexed_abstracts_are_normal(notes.drop_last(), id);
        }
        if let Some(t) = note_abstract(notes.last()) {
            let field = notes.last().member("content"@).unwrap().member("abstract"@).unwrap();
            let raw = match field.text() {
                Some(whole) => Some(whole),
                None => field.member_text("value"@),
            };
            markup::cleaned_text_is_normal(raw.unwrap());
        }
    }
}

/// A note with an abstract is found under its `id` and under its `forum`, where no later note
/// with an abstract has that identifier.
pub proof fn last_note_is_indexed(notes: Seq<JsonTree>)
    requires
        notes.len() > 0,
        note_abstract(notes.last()) is Some,
    ensures
        notes.last().member_text("id"@) matches Some(id) ==> notes_index(notes).contains_key(id)
            && notes_index(notes)[id] == note_abstract(notes.last()).unwrap(),
        notes.last().member_text("forum"@) matches Some(id) ==> notes_index(notes).contains_key(id)
            && notes_index(notes)[id] == note_abstract(notes.last()).unwrap(),
{
}

/// The places of a word are those that each part of its list of positions gives, and each position
/// that is an unsigned number gives one.
pub proof fn every_position_is_a_place(word: Seq<char>, a: Seq<JsonTree>, b: Seq<JsonTree>, p: u64)
    ensures
        places_of(word, a + b) == places_of(word, a) + places_of(word, b),
        places_of(word, seq![JsonTree::Number(Some(p))]) == seq![(p, word)],
        places_of(word, Seq::empty()) == Seq::<(u64, Seq<char>)>::empty(),
        b.len() == 1 && !(b[0] matches JsonTree::Number(Some(_))) ==> places_of(word, b).len() == 0,
    decreases b.len(),
{
    let one = seq![JsonTree::Number(Some(p))];
    assert(one.drop_last() == Seq::<JsonTree>::empty());
    assert(places_of(word, one.drop_last()) == Seq::<(u64, Seq<char>)>::empty());
    assert(places_of(word, one) == seq![(p, word)]);
    if b.len() == 0 {
        assert(a + b == a);
        assert(places_of(word, a) + places_of(word, b) == places_of(word, a));
    } else {
        every_position_is_a_place(word, a, b.drop_last(), p);
        assert((a + b).drop_last() == a + b.drop_last());
        assert((a + b).last() == b.last());
        assert(places_of(word, a + b) == places_of(word, a) + places_of(word, b));
    }
}

/// The words of an index are those that each part of it gives.
pub proof fn every_entry_gives_its_words(
    a: Seq<(Seq<char>, JsonTree)>,
    b: Seq<(Seq<char>, JsonTree)>,
    word: Seq<char>,
    positions: JsonTree,
)
    ensures
        placed_words(a + b) == match (placed_words(a), placed_words(b)) {
            (Some(x), Some(y)) => Some(x + y),
            _ => None,
        },
        placed_words(seq![(word, positions)]) == match positions {
            JsonTree::Array(list) => Some(places_of(word, list)),
            _ => None,
        },
    decreases b.len(),
{
    let one = seq![(word, positions)];
    assert(one.drop_last() == Seq::<(Seq<char>, JsonTree)>::empty());
    assert(placed_words(one.drop_last()) == Some(Seq::<(u64, Seq<char>)>::empty()));
    if let JsonTree::Array(list) = positions {
        assert(Seq::<(u64, Seq<char>)>::empty() + places_of(word, list) == places_of(word, list));
    }
    if b.len() == 0 {
        assert(a + b == a);
        if let Some(x) = placed_words(a) {
            assert(x + Seq::<(u64, Seq<char>)>::empty() == x);
        }
    } else {
        every_entry_gives_its_words(a, b.drop_last(), word, positions);
        assert((a + b).drop_last() == a + b.drop_last());
        assert((a + b).last() == b.last());
        if let (Some(x), Some(y)) = (placed_words(a), placed_words(b.drop_last())) {
            if let JsonTree::Array(list) = b.last().1 {
                assert((x + y) + places_of(b.last().0, list) == x + (y + places_of(
                    b.last().0,
                    list,
                )));
            }
        }
    }
}

/// Whether a list places each word of `words` at its own position, once, and nothing else.
pub open spec fn places_exactly(list: Seq<(u64, Seq<char>)>, words: Seq<Seq<char>>) -> bool {
    &&& list.len() == words.len()
    &&& forall|i: int|
        0 <= i < list.len() ==> (#[trigger] list[i]).0 < words.len() && list[i].1
            == words[list[i].0 as int]
    &&& forall|i: int, k: int|
        0 <= i < k < list.len() ==> (#[trigger] list[i]).0 != (#[trigger] list[k]).0
}

proof fn lemma_put_in_somewhere(list: Seq<(u64, Seq<char>)>, item: (u64, Seq<char>)) -> (at: int)
    ensures
        0 <= at <= list.len(),
        put_in(list, item) == list.insert(at, item),
    decreases list.len(),
{
    if list.len() == 0 || list.last().0 <= item.0 {
        assert(list.insert(list.len() as int, item) == list.push(item));
        list.len() as int
    } else {
        let front = list.drop_last();
        let at = lemma_put_in_somewhere(front, item);
        assert(front.insert(at, item).push(list.last()) == list.insert(at, item));
        at
    }
}

/// Putting words in order keeps that they are placed exactly.
proof fn lemma_in_order_entries(list: Seq<(u64, Seq<char>)>, words: Seq<Seq<char>>)
    requires
        forall|i: int|
            0 <= i < list.len() ==> (#[trigger] list[i]).0 < words.len() && list[i].1
                == words[list[i].0 as int],
        forall|i: int, k: int|
            0 <= i < k < list.len() ==> (#[trigger] list[i]).0 != (#[trigger] list[k]).0,
    ensures
        in_order(list).len() == list.len(),
        forall|i: int|
            0 <= i < list.len() ==> (#[trigger] in_order(list)[i]).0 < words.len() && in_order(
                list,
            )[i].1 == words[in_order(list)[i].0 as int],
        forall|i: int, k: int|
            0 <= i < k < list.len() ==> (#[trigger] in_order(list)[i]).0 != (
            #[trigger] in_order(list)[k]).0,
        forall|i: int|
            0 <= i < list.len() ==> exists|k: int|
                0 <= k < list.len() && list[k] == #[trigger] in_order(list)[i],
    decreases list.len(),
{
    if list.len() > 0 {
        let front = list.drop_last();
        let item = list.last();
        assert(item == list[list.len() - 1]);
        assert forall|i: int| 0 <= i < front.len() implies front[i] == #[trigger] list[i] by {}
        lemma_in_order_entries(front, words);
        let sorted = in_order(front);
        let at = lemma_put_in_somewhere(sorted, item);
        let all = sorted.insert(at, item);
        assert(in_order(list) == all);
        assert forall|i: int| 0 <= i < list.len() implies exists|k: int|
            0 <= k < list.len() && list[k] == #[trigger] all[i] by {
            if i == at {
                assert(list[list.len() - 1] == all[i]);
            } else {
                let j = if i < at {
                    i
                } else {
                    i - 1
                };
                assert(all[i] == sorted[j]);
                let k = choose|k: int| 0 <= k < front.len() && front[k] == sorted[j];
                assert(list[k] == all[i]);
            }
        }
        assert forall|i: int| 0 <= i < list.len() implies (#[trigger] all[i]).0 < words.len()
            && all[i].1 == words[all[i].0 as int] by {
            let k = choose|k: int| 0 <= k < list.len() && list[k] == all[i];
            assert(list[k].0 < words.len());
        }
        assert forall|i: int, k: int| 0 <= i < k < list.len() implies (#[trigger] all[i]).0 != (
        #[trigger] all[k]).0 by {
            if i != at && k != at {
                let x = if i < at {
                    i
                } else {
                    i - 1
                };
                let y = if k < at {
                    k
                } else {
                    k - 1
                };
                assert(all[i] == sorted[x] && all[k] == sorted[y]);
            } else {
                let other = if i == at {
                    k - 1
                } else {
                    i
                };
                assert(sorted[other] == if i == at {
                    all[k]
                } else {
                    all[i]
                });
                let from = choose|j: int| 0 <= j < front.len() && front[j] == sorted[other];
                assert(list[from] == sorted[other]);
                assert(list[from].0 != list[list.len() - 1].0);
            }
        }
    }
}

/// Positions below `n` that strictly ascend, `n` of them, are all positions from zero on.
proof fn lemma_all_positions(list: Seq<(u64, Seq<char>)>, n: int, i: int)
    requires
        list.len() == n,
        0 <= i < n,
        forall|k: int| 0 <= k < n ==> (#[trigger] list[k]).0 < n,
        forall|j: int, k: int| 0 <= j < k < n ==> (#[trigger] list[j]).0 < (#[trigger] list[k]).0,
    ensures
        list[i].0 == i,
{
    lemma_at_least(list, i);
    lemma_at_most(list, n, i);
}

proof fn lemma_at_least(list: Seq<(u64, Seq<char>)>, i: int)
    requires
        0 <= i < list.len(),
        forall|j: int, k: int|
            0 <= j < k < list.len() ==> (#[trigger] list[j]).0 < (#[trigger] list[k]).0,
    ensures
        list[i].0 >= i,
    decreases i,
{
    if i > 0 {
        lemma_at_least(list, i - 1);
        assert(list[i - 1].0 < list[i].0);
    }
}

proof fn lemma_at_most(list: Seq<(u64, Seq<char>)>, n: int, i: int)
    requires
        0 <= i < n,
        list.len() == n,
        forall|k: int| 0 <= k < n ==> (#[trigger] list[k]).0 < n,
        forall|j: int, k: int| 0 <= j < k < n ==> (#[trigger] list[j]).0 < (#[trigger] list[k]).0,
    ensures
        list[i].0 <= i,
    decreases n - i,
{
    if i < n - 1 {
        lemma_at_most(list, n, i + 1);
        assert(list[i].0 < list[i + 1].0);
    }
}

/// The inverted index of a text gives the text back: where an index places each word at its
/// position, in whatever order, its text is all words in order with single spaces between them.
pub proof fn inverted_indexes_give_the_text_back(
    index: Seq<(Seq<char>, JsonTree)>,
    words: Seq<Seq<char>>,
)
    requires
        words.len() > 0,
        placed_words(index) matches Some(list) && places_exactly(list, words),
    ensures
        index_text(index) == Some(text::join(words, seq![' '])),
{
    reveal_strlit(" ");
    assert(" "@ == seq![' ']);
    let list = placed_words(index).unwrap();
    let sorted = in_order(list);
    lemma_in_order_entries(list, words);
    ordering_is_stable(list, 0);
    assert forall|j: int, k: int| 0 <= j < k < sorted.len() implies (#[trigger] sorted[j]).0 < (
    #[trigger] sorted[k]).0 by {
        assert(sorted[j].0 <= sorted[k].0);
        assert(sorted[j].0 != sorted[k].0);
    }
    assert forall|i: int| 0 <= i < words.len() implies #[trigger] words_of(sorted)[i] == words[i] by {
        lemma_all_positions(sorted, words.len() as int, i);
        assert(sorted[i].1 == words[sorted[i].0 as int]);
    }
    assert(words_of(sorted) == words);
}

/// A plain abstract is the text of the member without the white space at its ends, where any is
/// left; without such a member there is none.
pub proof fn plain_abstracts_are_kept_whole(
    reply: JsonTree,
    before: Seq<char>,
    inside: Seq<char>,
    behind: Seq<char>,
)
    requires
        forall|k: int| 0 <= k < before.len() ==> text::white_space(#[trigger] before[k]),
        forall|k: int| 0 <= k < behind.len() ==> text::white_space(#[trigger] behind[k]),
        inside.len() > 0 ==> !text::white_space(inside[0]) && !text::white_space(inside.last()),
    ensures
        reply.member_text("abstract"@) == Some(before + inside + behind) ==> plain_abstract(reply)
            == if inside.len() > 0 {
            Some(inside)
        } else {
            None
        },
        reply.member_text("abstract"@) is None ==> plain_abstract(reply) is None,
{
    text::trimming_keeps_what_is_inside(before, inside, behind);
}

/// A work without a plain abstract gives the text of its inverted index.
pub proof fn indexes_stand_in_for_plain_abstracts(
    work: JsonTree,
    index: Seq<(Seq<char>, JsonTree)>,
)
    requires
        plain_abstract(work) is None,
    ensures
        work.member("abstract_inverted_index"@) == Some(JsonTree::Object(index))
            ==> openalex_abstract(work) == index_text(index),
        !(work.member("abstract_inverted_index"@) matches Some(JsonTree::Object(_)))
            ==> openalex_abstract(work) is None,
{
}

/// The abstract of a Crossref message has the words of the text nodes of its markup.
pub proof fn crossref_abstracts_keep_the_words_of_the_markup(message: JsonTree, raw: Seq<char>)
    requires
        message.member_text("abstract"@) == Some(raw),
        forall|i: int|
            0 <= i < html::html_fragment_text(raw).len() ==> markup::ends_outside(
                #[trigger] html::html_fragment_text(raw)[i],
            ) && markup::ends_outside(markup::decoded(html::html_fragment_text(raw)[i])),
    ensures
        match crossref_abstract(message) {
            Some(t) => text::words(t) == markup::words_of_all(html::html_fragment_text(raw)),
            None => markup::words_of_all(html::html_fragment_text(raw)).len() == 0,
        },
{
    html::elements_keep_the_words_of_their_nodes(html::html_fragment_text(raw));
}

/// The abstract of a note is the cleaned text of its field, which stands there itself or as its
/// `value`.
pub proof fn notes_carry_their_abstract(note: JsonTree, content: JsonTree, field: JsonTree)
    requires
        note.member("content"@) == Some(content),
        content.member("abstract"@) == Some(field),
    ensures
        field matches JsonTree::Text(t) ==> note_abstract(note) == markup::cleaned(t),
        field.member("value"@) matches Some(JsonTree::Text(t))
            ==> note_abstract(note) == markup::cleaned(t),
        !(field is Text) && !(field.member("value"@) matches Some(JsonTree::Text(_)))
            ==> note_abstract(note) is None,
{
}

/// The index of several notes is that of the first ones, overruled by that of the others; one note
/// is found under its identifier and its forum, and under nothing else.
pub proof fn every_note_is_indexed(a: Seq<JsonTree>, b: Seq<JsonTree>, note: JsonTree, id: Seq<char>)
    ensures
        notes_index(a + b) == notes_index(a).union_prefer_right(notes_index(b)),
        notes_index(seq![note]).contains_key(id) <==> note_abstract(note) is Some && (
        note.member_text("id"@) == Some(id) || note.member_text("forum"@) == Some(id)),
        notes_index(seq![note]).contains_key(id) ==> notes_index(seq![note])[id] == note_abstract(
            note,
        ).unwrap(),
    decreases b.len(),
{
    assert(seq![note].drop_last() == Seq::<JsonTree>::empty());
    assert(notes_index(seq![note].drop_last()) == Map::<Seq<char>, Seq<char>>::empty());
    assert(seq![note].last() == note);
    if b.len() == 0 {
        assert(a + b == a);
        assert(notes_index(a).union_prefer_right(notes_index(b)) == notes_index(a));
    } else {
        every_note_is_indexed(a, b.drop_last(), note, id);
        assert((a + b).drop_last() == a + b.drop_last());
        assert((a + b).last() == b.last());
        assert(notes_index(a + b) == notes_index(a).union_prefer_right(notes_index(b)));
    }
}

/// The notes of a reply are all items of its list.
pub proof fn all_notes_are_read(reply: JsonTree, notes: Seq<JsonTree>)
    ensures
        reply.member("notes"@) == Some(JsonTree::Array(notes)) ==> notes_of(reply) == notes,
        !(reply.member("notes"@) matches Some(JsonTree::Array(_))) ==> notes_of(reply).len() == 0,
{
}

/// The text of an index is its words in the order of their positions, all of them, with spaces
/// between; an index without places, or with positions that are no list, has none.
pub proof fn indexes_are_read_in_the_order_of_positions(index: Seq<(Seq<char>, JsonTree)>)
    ensures
        placed_words(index) is None ==> index_text(index) is None,
        placed_words(index) matches Some(list) ==> match index_text(index) {
            Some(t) => list.len() > 0 && t == text::join(
                Seq::new(list.len(), |i: int| in_order(list)[i].1),
                seq![' '],
            ),
            None => list.len() == 0,
        },
{
    reveal_strlit(" ");
    assert(" "@ == seq![' ']);
    if let Some(list) = placed_words(index) {
        lemma_in_order_len(list);
        assert(words_of(in_order(list)) == Seq::new(list.len(), |i: int| in_order(list)[i].1));
    }
}

} // verus!
