//! Filters over tags: what they are, how they are written, when they match.
//!
//! A filter is a list of conditions, and a tagged object matches it when at
//! least one condition holds. In text a filter is a comma-separated list of
//! conditions, each either `key` (the key is present) or `key=value` (the key
//! is present with exactly that value). Only the first `=` of a condition
//! separates key from value, and a value may be empty. A condition with an
//! empty key is rejected.

use crate::scan::{first_index, lemma_first_index_is};
use crate::tags::{has_key, tag_map, value_of};
use osmpbfreader::Tags;
use vstd::prelude::*;
use vstd::string::*;

verus! {

/// One condition on the tags of an object.
#[derive(Debug, PartialEq, Eq)]
pub enum Filter {
    /// The object has a tag with this key, whatever its value.
    HasKey(String),
    /// The object has a tag with this key and exactly this value.
    KeyEquals(String, String),
}

/// A condition over sequences of characters.
pub enum FilterView {
    HasKey(Seq<char>),
    KeyEquals(Seq<char>, Seq<char>),
}

impl View for Filter {
    type V = FilterView;

    open spec fn view(&self) -> FilterView {
        match self {
            Filter::HasKey(key) => FilterView::HasKey(key@),
            Filter::KeyEquals(key, value) => FilterView::KeyEquals(key@, value@),
        }
    }
}

/// A list of conditions, of which one has to hold.
#[derive(Debug, PartialEq, Eq)]
pub struct FilterSpec {
    pub conditions: Vec<Filter>,
}

impl View for FilterSpec {
    type V = Seq<FilterView>;

    open spec fn view(&self) -> Seq<FilterView> {
        Seq::new(self.conditions@.len(), |i: int| self.conditions@[i]@)
    }
}

/// Why a text is no filter.
#[derive(Clone, Copy, Debug, PartialEq, Eq, Structural)]
pub enum FilterError {
    /// The condition at this position, counted from zero, has an empty key.
    EmptyKey { position: usize },
}

/// Whether one condition holds of a set of tags. Keys and values are
/// compared exactly, character by character.
pub open spec fn holds(tags: Map<Seq<char>, Seq<char>>, condition: FilterView) -> bool {
    match condition {
        FilterView::HasKey(key) => tags.contains_key(key),
        FilterView::KeyEquals(key, value) => tags.contains_key(key) && tags[key] == value,
    }
}

/// Whether at least one of the conditions holds of a set of tags.
pub open spec fn any_holds(tags: Map<Seq<char>, Seq<char>>, conditions: Seq<FilterView>) -> bool {
    exists|i: int| 0 <= i < conditions.len() && holds(tags, #[trigger] conditions[i])
}

/// The key that a condition asks for.
pub open spec fn key_of(condition: FilterView) -> Seq<char> {
    match condition {
        FilterView::HasKey(key) => key,
        FilterView::KeyEquals(key, _) => key,
    }
}

/// The pieces of `text` between occurrences of `separator`. A text without
/// the separator is one piece; the empty text is one empty piece.
pub open spec fn split(text: Seq<char>, separator: char) -> Seq<Seq<char>>
    decreases text.len(),
{
    if text.len() == 0 {
        seq![Seq::empty()]
    } else {
        let before = split(text.drop_last(), separator);
        if text.last() == separator {
            before.push(Seq::empty())
        } else {
            before.update(before.len() - 1, before.last().push(text.last()))
        }
    }
}

/// The test for the character that parts a key from its value.
pub open spec fn is_equals_sign() -> spec_fn(char) -> bool {
    |c: char| c == '='
}

/// The test for a condition that asks for the empty key.
pub open spec fn is_keyless() -> spec_fn(FilterView) -> bool {
    |condition: FilterView| key_of(condition).len() == 0
}

/// The condition that one piece of a filter text denotes: the presence of
/// a key when the piece holds no `=`, and otherwise the key before the first
/// `=` with the value after it.
pub open spec fn condition(piece: Seq<char>) -> FilterView {
    let at = first_index(piece, is_equals_sign());
    if at == piece.len() {
        FilterView::HasKey(piece)
    } else {
        FilterView::KeyEquals(piece.take(at), piece.skip(at + 1))
    }
}

/// The conditions that the pieces of `text` between commas denote, in order.
pub open spec fn conditions(text: Seq<char>) -> Seq<FilterView> {
    Seq::new(split(text, ',').len(), |i: int| condition(split(text, ',')[i]))
}

/// What reading `text` as a filter comes to: its conditions,
/// or the position of the first condition with an empty key.
pub open spec fn parsed(text: Seq<char>) -> Result<Seq<FilterView>, FilterError> {
    let all = conditions(text);
    let bad = first_index(all, is_keyless());
    if bad < all.len() {
        Err(FilterError::EmptyKey { position: bad as usize })
    } else {
        Ok(all)
    }
}

/// The view of a result of parsing.
pub open spec fn parsed_view(r: Result<FilterSpec, FilterError>) -> Result<
    Seq<FilterView>,
    FilterError,
> {
    match r {
        Ok(spec) => Ok(spec@),
        Err(e) => Err(e),
    }
}

/// The pieces put together again, with `separator` between neighbours.
pub open spec fn join(pieces: Seq<Seq<char>>, separator: char) -> Seq<char>
    decreases pieces.len(),
{
    if pieces.len() == 0 {
        Seq::empty()
    } else if pieces.len() == 1 {
        pieces[0]
    } else {
        join(pieces.drop_last(), separator).push(separator) + pieces.last()
    }
}

/// Cutting a text loses nothing: there is at least one piece, and the pieces
/// joined by the separator are the text.
pub proof fn lemma_join_of_split(text: Seq<char>, separator: char)
    ensures
        split(text, separator).len() >= 1,
        join(split(text, separator), separator) == text,
    decreases text.len(),
{
    if text.len() > 0 {
        let before = split(text.drop_last(), separator);
        let pieces = split(text, separator);
        let last = text.last();
        lemma_join_of_split(text.drop_last(), separator);
        assert(text.drop_last().push(last) == text);
        if last == separator {
            assert(pieces.drop_last() == before);
            assert(join(before, separator).push(separator) + Seq::<char>::empty() == join(
                before,
                separator,
            ).push(separator));
        } else if before.len() == 1 {
        } else {
            assert(pieces.drop_last() == before.drop_last());
            let joined = join(before.drop_last(), separator).push(separator);
            assert(joined + before.last().push(last) == (joined + before.last()).push(last));
        }
    }
}

/// No piece of a cut text holds the separator.
pub proof fn lemma_pieces_hold_no_separator(text: Seq<char>, separator: char)
    ensures
        forall|i: int, j: int|
            0 <= i < split(text, separator).len() && 0 <= j < split(text, separator)[i].len()
                ==> split(text, separator)[i][j] != separator,
    decreases text.len(),
{
    if text.len() > 0 {
        lemma_pieces_hold_no_separator(text.drop_last(), separator);
        lemma_join_of_split(text.drop_last(), separator);
    }
}

/// A filter without conditions matches nothing.
pub proof fn lemma_no_condition_matches_nothing(tags: Map<Seq<char>, Seq<char>>)
    ensures
        !any_holds(tags, Seq::empty()),
{
}

/// Conditions are alternatives: two lists put together match exactly what
/// one of them matches.
pub proof fn lemma_conditions_are_alternatives(
    tags: Map<Seq<char>, Seq<char>>,
    first: Seq<FilterView>,
    second: Seq<FilterView>,
)
    ensures
        any_holds(tags, first + second) == (any_holds(tags, first) || any_holds(tags, second)),
{
    let both = first + second;
    if any_holds(tags, first) {
        let i = choose|i: int| 0 <= i < first.len() && holds(tags, #[trigger] first[i]);
        assert(both[i] == first[i]);
    }
    if any_holds(tags, second) {
        let i = choose|i: int| 0 <= i < second.len() && holds(tags, #[trigger] second[i]);
        assert(both[first.len() + i] == second[i]);
    }
    if any_holds(tags, both) {
        let i = choose|i: int| 0 <= i < both.len() && holds(tags, #[trigger] both[i]);
        if i < first.len() {
            assert(both[i] == first[i]);
        } else {
            assert(both[i] == second[i - first.len()]);
        }
    }
}

/// Reads one condition: `key`, or `key=value` with the key ending at the
/// first `=`.
pub fn parse_condition(piece: &str) -> (r: Filter)
    ensures
        r@ == condition(piece@),
{
    let n: usize = piece.unicode_len();
    let mut at: usize = 0;
    while at < n && piece.get_char(at) != '='
        invariant
            at <= n,
            n == piece@.len(),
            forall|j: int| 0 <= j < at ==> piece@[j] != '=',
        decreases n - at,
    {
        at += 1;
    }
    proof {
        lemma_first_index_is(piece@, is_equals_sign(), at as int);
    }
    if at == n {
        Filter::HasKey(piece.to_owned())
    } else {
        let key = piece.substring_char(0, at).to_owned();
        let value = piece.substring_char(at + 1, n).to_owned();
        proof {
            assert(piece@.take(at as int) == piece@.subrange(0, at as int));
            assert(piece@.skip(at + 1) == piece@.subrange(at + 1, n as int));
        }
        Filter::KeyEquals(key, value)
    }
}

/// Cuts `text` at every occurrence of `separator`.
pub fn split_text(text: &str, separator: char) -> (pieces: Vec<String>)
    ensures
        pieces@.len() == split(text@, separator).len(),
        forall|i: int| 0 <= i < pieces@.len() ==> pieces@[i]@ == split(text@, separator)[i],
{
    let n: usize = text.unicode_len();
    let mut pieces: Vec<String> = Vec::new();
    let ghost mut done: Seq<Seq<char>> = Seq::empty();
    let mut start: usize = 0;
    let mut i: usize = 0;
    proof {
        assert(text@.take(0) == Seq::<char>::empty());
        assert(text@.subrange(0, 0) == Seq::<char>::empty());
        assert(split(text@.take(0), separator) == done.push(text@.subrange(0, 0)));
    }
    while i < n
        invariant
            start <= i <= n,
            n == text@.len(),
            done.len() == pieces@.len(),
            forall|j: int| 0 <= j < done.len() ==> pieces@[j]@ == done[j],
            split(text@.take(i as int), separator) == done.push(
                text@.subrange(start as int, i as int),
            ),
        decreases n - i,
    {
        let c: char = text.get_char(i);
        proof {
            assert(text@.take(i + 1).drop_last() == text@.take(i as int));
            assert(text@.take(i + 1).last() == c);
        }
        if c == separator {
            let piece = text.substring_char(start, i).to_owned();
            pieces.push(piece);
            proof {
                done = done.push(text@.subrange(start as int, i as int));
                assert(text@.subrange(i + 1, i + 1) == Seq::<char>::empty());
            }
            start = i + 1;
        } else {
            proof {
                let before = done.push(text@.subrange(start as int, i as int));
                assert(before.last().push(c) == text@.subrange(start as int, i + 1));
                assert(before.update(before.len() - 1, before.last().push(c)) == done.push(
                    text@.subrange(start as int, i + 1),
                ));
            }
        }
        i += 1;
    }
    let piece = text.substring_char(start, n).to_owned();
    pieces.push(piece);
    proof {
        assert(text@.take(n as int) == text@);
    }
    pieces
}

/// Whether the condition asks for the empty key.
pub fn key_is_empty(condition: &Filter) -> (r: bool)
    ensures
        r == (key_of(condition@).len() == 0),
{
    match condition {
        Filter::HasKey(key) => key.as_str().unicode_len() == 0,
        Filter::KeyEquals(key, _) => key.as_str().unicode_len() == 0,
    }
}

/// Reads a filter: one condition for each piece of `text`
/// between commas, in order. The text is rejected when some condition has an
/// empty key, with the position of the first such condition.
pub fn parse_filter_spec(text: &str) -> (r: Result<FilterSpec, FilterError>)
    ensures
        parsed_view(r) == parsed(text@),
{
    let pieces = split_text(text, ',');
    let ghost all = conditions(text@);
    let mut found: Vec<Filter> = Vec::new();
    let mut i: usize = 0;
    while i < pieces.len()
        invariant
            i <= pieces@.len(),
            found@.len() == i,
            all == conditions(text@),
            pieces@.len() == all.len(),
            forall|j: int| 0 <= j < pieces@.len() ==> pieces@[j]@ == split(text@, ',')[j],
            forall|j: int| 0 <= j < i ==> (#[trigger] found@[j])@ == all[j],
            forall|j: int| 0 <= j < i ==> key_of(#[trigger] all[j]).len() > 0,
        decreases pieces@.len() - i,
    {
        let condition = parse_condition(pieces[i].as_str());
        if key_is_empty(&condition) {
            proof {
                lemma_first_index_is(all, is_keyless(), i as int);
            }
            return Err(FilterError::EmptyKey { position: i });
        }
        found.push(condition);
        i += 1;
    }
    proof {
        lemma_first_index_is(all, is_keyless(), i as int);
    }
    let spec = FilterSpec { conditions: found };
    proof {
        assert(spec@ == all);
    }
    Ok(spec)
}

impl Default for FilterSpec {
    /// The filter that selects every object with a `highway` tag.
    fn default() -> (r: FilterSpec)
        ensures
            r@ == seq![FilterView::HasKey("highway"@)],
    {
        let mut found: Vec<Filter> = Vec::new();
        found.push(Filter::HasKey("highway".to_owned()));
        let spec = FilterSpec { conditions: found };
        proof {
            assert(spec@ == seq![FilterView::HasKey("highway"@)]);
        }
        spec
    }
}

/// Tests one condition against the tags.
pub fn condition_holds(tags: &Tags, condition: &Filter) -> (r: bool)
    ensures
        r == holds(tag_map(*tags), condition@),
{
    match condition {
        Filter::HasKey(key) => has_key(tags, key.as_str()),
        Filter::KeyEquals(key, value) => match value_of(tags, key.as_str()) {
            Some(found) => found == *value,
            None => false,
        },
    }
}

/// Whether the tags satisfy the filter: true exactly when at least one
/// condition holds, and so false for a filter without conditions.
pub fn matches(tags: &Tags, spec: &FilterSpec) -> (r: bool)
    ensures
        r == any_holds(tag_map(*tags), spec@),
{
    let mut i: usize = 0;
    while i < spec.conditions.len()
        invariant
            i <= spec.conditions@.len(),
            forall|j: int| 0 <= j < i ==> !holds(tag_map(*tags), #[trigger] spec@[j]),
        decreases spec.conditions@.len() - i,
    {
        if condition_holds(tags, &spec.conditions[i]) {
            proof {
                assert(holds(tag_map(*tags), spec@[i as int]));
            }
            return true;
        }
        i += 1;
    }
    false
}

} // verus!
