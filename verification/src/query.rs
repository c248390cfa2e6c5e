//! Path queries: addressing a value inside a JSON document.
//!
//! A query is a run of segments divided by a delimiter. Two syntaxes exist and
//! are never mixed: the dotted path (`a.b.0`) and the pointer (`/a/b/0`). A
//! segment is taken as it stands: no escape stands for a delimiter inside a
//! key. The empty query addresses the document itself.

use crate::codec::decoded;
use crate::decimal::{decimal_value, digits_value, is_canonical_decimal, is_decimal};
use crate::error::{answer_model, Failure, ParsonError};
use crate::formatter::{format_value, formatted, OutputFormat};
use crate::json::{
    has_key, lemma_array_view, lemma_member_is_first, member, JsonKind, JsonModel, JsonValue,
};
use crate::parser::parse_json;
use crate::text::{split, split_text, texts};
use vstd::prelude::*;

verus! {

/// The syntax of a query.
#[derive(Clone, Copy, Debug, PartialEq, Eq, Structural)]
pub enum QuerySyntax {
    /// Segments divided by `.`.
    Dotted,
    /// Segments divided by `/`, after one leading `/`.
    Pointer,
}

impl QuerySyntax {
    /// The character that divides the segments.
    pub open spec fn delimiter(self) -> char {
        match self {
            QuerySyntax::Dotted => '.',
            QuerySyntax::Pointer => '/',
        }
    }

    /// The character that divides the segments.
    pub fn separator(self) -> (c: char)
        ensures
            c == self.delimiter(),
    {
        match self {
            QuerySyntax::Dotted => '.',
            QuerySyntax::Pointer => '/',
        }
    }
}

/// Why a query did not resolve.
#[derive(Debug, PartialEq, Eq)]
pub enum QueryError {
    /// The object reached has no member with this key.
    KeyNotFound(String),
    /// The array reached has no item at this index; the second number is the
    /// array's length.
    IndexOutOfBounds(usize, usize),
    /// The segment met an array and is not an index.
    InvalidIndex(String),
    /// The segment met a value of this kind, which has nothing inside it.
    NotIndexable(String, JsonKind),
    /// A single key was looked up in a document that is not an object.
    RootNotObject,
}

/// The mathematical model of a `QueryError`.
pub ghost enum QueryFault {
    KeyNotFound(Seq<char>),
    IndexOutOfBounds(nat, nat),
    InvalidIndex(Seq<char>),
    NotIndexable(Seq<char>, JsonKind),
    RootNotObject,
}

impl View for QueryError {
    type V = QueryFault;

    open spec fn view(&self) -> QueryFault {
        match self {
            QueryError::KeyNotFound(key) => QueryFault::KeyNotFound(key@),
            QueryError::IndexOutOfBounds(index, length) => QueryFault::IndexOutOfBounds(
                *index as nat,
                *length as nat,
            ),
            QueryError::InvalidIndex(token) => QueryFault::InvalidIndex(token@),
            QueryError::NotIndexable(segment, kind) => QueryFault::NotIndexable(segment@, *kind),
            QueryError::RootNotObject => QueryFault::RootNotObject,
        }
    }
}

/// The index that a segment names in an array: the value of a decimal
/// without a needless leading zero, where an index of this machine can hold
/// it. Any other token names none.
pub open spec fn index_of(token: Seq<char>) -> Option<nat> {
    if is_canonical_decimal(token) && decimal_value(token) <= usize::MAX {
        Some(decimal_value(token))
    } else {
        None
    }
}

/// The value one level inside `current` that `segment` names, if it names
/// one: the member of an object with that key, or the item of an array at
/// that index.
pub open spec fn child(current: JsonModel, segment: Seq<char>) -> Option<JsonModel> {
    match current {
        JsonModel::Object(members) => member(members, segment),
        JsonModel::Array(items) => match index_of(segment) {
            Some(index) => if index < items.len() {
                Some(items[index as int])
            } else {
                None
            },
            None => None,
        },
        _ => None,
    }
}

/// Why `segment` names nothing inside `current`, where it names nothing.
pub open spec fn refusal(current: JsonModel, segment: Seq<char>) -> QueryFault {
    match current {
        JsonModel::Object(_) => QueryFault::KeyNotFound(segment),
        JsonModel::Array(items) => match index_of(segment) {
            Some(index) => QueryFault::IndexOutOfBounds(index, items.len()),
            None => QueryFault::InvalidIndex(segment),
        },
        _ => QueryFault::NotIndexable(segment, current.kind()),
    }
}

/// One level of descent: the value inside `current` that `segment` names, or
/// the reason why it names none.
pub open spec fn step(current: JsonModel, segment: Seq<char>) -> Result<JsonModel, QueryFault> {
    match child(current, segment) {
        Some(value) => Ok(value),
        None => Err(refusal(current, segment)),
    }
}

/// The descent from `root` along `segments`: the value reached once every
/// segment is used up, or the failure of the first segment that fails.
pub open spec fn walk(root: JsonModel, segments: Seq<Seq<char>>) -> Result<JsonModel, QueryFault>
    decreases segments.len(),
{
    if segments.len() == 0 {
        Ok(root)
    } else {
        match walk(root, segments.drop_last()) {
            Ok(reached) => step(reached, segments.last()),
            Err(fault) => Err(fault),
        }
    }
}

/// `trail` is the way from `root` along `segments`: it starts at the root,
/// and each of its values holds the next one under the segment of its level.
pub open spec fn is_trail(root: JsonModel, segments: Seq<Seq<char>>, trail: Seq<JsonModel>) -> bool {
    &&& trail.len() == segments.len() + 1
    &&& trail[0] == root
    &&& forall|level: int|
        #![trigger segments[level]]
        0 <= level < segments.len() ==> child(trail[level], segments[level]) == Some(
            trail[level + 1],
        )
}

/// The path `segments` addresses `value` inside `root`: a way leads from the
/// root along the segments, and ends at the value.
pub open spec fn addresses(root: JsonModel, segments: Seq<Seq<char>>, value: JsonModel) -> bool {
    exists|trail: Seq<JsonModel>| is_trail(root, segments, trail) && trail.last() == value
}

/// The segments of a query. A pointer sheds one leading `/`; what is then
/// left is cut at each delimiter, and nothing left means no segment at all.
pub open spec fn segments_of(query: Seq<char>, syntax: QuerySyntax) -> Seq<Seq<char>> {
    let body = if syntax == QuerySyntax::Pointer && query.len() > 0 && query[0] == '/' {
        query.skip(1)
    } else {
        query
    };
    if body.len() == 0 {
        Seq::<Seq<char>>::empty()
    } else {
        split(body, syntax.delimiter())
    }
}

/// What a query resolves to in a document.
pub open spec fn resolution(root: JsonModel, query: Seq<char>, syntax: QuerySyntax) -> Result<
    JsonModel,
    QueryFault,
> {
    walk(root, segments_of(query, syntax))
}

/// What a single key resolves to in a document: only an object can be asked.
pub open spec fn key_resolution(root: JsonModel, key: Seq<char>) -> Result<JsonModel, QueryFault> {
    match root {
        JsonModel::Object(members) => match member(members, key) {
            Some(value) => Ok(value),
            None => Err(QueryFault::KeyNotFound(key)),
        },
        _ => Err(QueryFault::RootNotObject),
    }
}

/// The model of what a resolution returns.
pub open spec fn outcome_model(outcome: Result<JsonValue, QueryError>) -> Result<
    JsonModel,
    QueryFault,
> {
    match outcome {
        Ok(value) => Ok(value@),
        Err(error) => Err(error@),
    }
}

/// What a query on a JSON text comes to: the text, in the form `format`, of
/// the value that the query addresses in the document that the text denotes,
/// or the first failure on the way there.
pub open spec fn answer(
    json: Seq<char>,
    query: Seq<char>,
    syntax: QuerySyntax,
    format: OutputFormat,
    source: Seq<char>,
) -> Result<Seq<char>, Failure> {
    match decoded(json) {
        Err(message) => Err(Failure::Parse(message)),
        Ok(document) => match resolution(document, query, syntax) {
            Err(fault) => Err(Failure::Query(fault)),
            Ok(found) => match formatted(found, format, source) {
                Ok(text) => Ok(text),
                Err(message) => Err(Failure::Encode(message)),
            },
        },
    }
}

/// Reads a segment as an array index.
pub fn parse_index(token: &str) -> (index: Option<usize>)
    ensures
        match index {
            Some(n) => index_of(token@) == Some(n as nat),
            None => index_of(token@) is None,
        },
{
    if token.unicode_len() > 1 && token.get_char(0) == '0' {
        None
    } else {
        digits_value(token)
    }
}

/// Cuts a query into its segments.
pub fn query_segments(query: &str, syntax: QuerySyntax) -> (segments: Vec<String>)
    ensures
        texts(segments@) == segments_of(query@, syntax),
{
    let total = query.unicode_len();
    let skipped: usize = match syntax {
        QuerySyntax::Pointer => if total > 0 && query.get_char(0) == '/' {
            1
        } else {
            0
        },
        QuerySyntax::Dotted => 0,
    };
    if skipped == total {
        Vec::new()
    } else {
        let body = query.substring_char(skipped, total);
        assert(query@.skip(0) =~= query@);
        split_text(body, syntax.separator())
    }
}

/// Descends one level: from `current` to the value inside it that `segment`
/// names.
pub fn descend<'a>(current: &'a JsonValue, segment: &String) -> (outcome: Result<
    &'a JsonValue,
    QueryError,
>)
    ensures
        match outcome {
            Ok(value) => step(current@, segment@) == Ok::<JsonModel, QueryFault>(value@),
            Err(error) => step(current@, segment@) == Err::<JsonModel, QueryFault>(error@),
        },
{
    match current {
        JsonValue::Object(_) => match current.member(segment) {
            Some(value) => Ok(value),
            None => Err(QueryError::KeyNotFound(segment.clone())),
        },
        JsonValue::Array(items) => {
            proof {
                lemma_array_view(*items);
            }
            match parse_index(segment.as_str()) {
                Some(index) => if index < items.len() {
                    Ok(&items[index])
                } else {
                    Err(QueryError::IndexOutOfBounds(index, items.len()))
                },
                None => Err(QueryError::InvalidIndex(segment.clone())),
            }
        },
        _ => Err(QueryError::NotIndexable(segment.clone(), current.kind())),
    }
}

/// Resolves a path, given as its segments, against a document: the value
/// that the path reaches, as a copy of its own, or the failure of the first
/// segment that fails. What is found in a well-formed document is well
/// formed.
pub fn resolve_segments(root: &JsonValue, segments: &Vec<String>) -> (outcome: Result<
    JsonValue,
    QueryError,
>)
    ensures
        outcome_model(outcome) == walk(root@, texts(segments@)),
        root@.well_formed() ==> (outcome matches Ok(found) ==> found@.well_formed()),
{
    let ghost path = texts(segments@);
    proof {
        if root@.well_formed() {
            lemma_walk_keeps_well_formed(root@, path);
        }
    }
    let mut current: &JsonValue = root;
    let mut at: usize = 0;
    while at < segments.len()
        invariant
            at <= segments.len(),
            path == texts(segments@),
            walk(root@, path.take(at as int)) == Ok::<JsonModel, QueryFault>(current@),
        decreases segments.len() - at,
    {
        assert(path.take(at + 1).drop_last() =~= path.take(at as int));
        match descend(current, &segments[at]) {
            Ok(next) => {
                current = next;
            },
            Err(error) => {
                proof {
                    lemma_failure_is_final(root@, path, at + 1);
                }
                return Err(error);
            },
        }
        at += 1;
    }
    assert(path.take(at as int) =~= path);
    Ok(current.deep_copy())
}

/// Resolves a query against a document: the value that the query addresses,
/// as a copy of its own, or the failure of the first segment that fails.
pub fn resolve(root: &JsonValue, query: &str, syntax: QuerySyntax) -> (outcome: Result<
    JsonValue,
    QueryError,
>)
    ensures
        outcome_model(outcome) == resolution(root@, query@, syntax),
        root@.well_formed() ==> (outcome matches Ok(found) ==> found@.well_formed()),
{
    let segments = query_segments(query, syntax);
    resolve_segments(root, &segments)
}

/// Looks a single key up in a document that must be an object. Nothing is
/// split and nothing is indexed: an array as the document fails like any
/// other value that is not an object.
pub fn resolve_key(root: &JsonValue, key: &str) -> (outcome: Result<JsonValue, QueryError>)
    ensures
        outcome_model(outcome) == key_resolution(root@, key@),
        root@.well_formed() ==> (outcome matches Ok(found) ==> found@.well_formed()),
{
    proof {
        if root@.well_formed() && root@ is Object {
            lemma_step_keeps_well_formed(root@, key@);
        }
    }
    match root {
        JsonValue::Object(_) => {
            let key = key.to_owned();
            match root.member(&key) {
                Some(value) => Ok(value.deep_copy()),
                None => Err(QueryError::KeyNotFound(key)),
            }
        },
        _ => Err(QueryError::RootNotObject),
    }
}

/// Answers a query on a JSON text with the text of the value that the query
/// addresses, in the form asked for; `source` is named only by the envelope.
///
/// A malformed text fails with the decoder's message, a query that does not
/// resolve fails with the failure of its first failing segment, and a value
/// that the encoder gives up on fails with the encoder's message.
pub fn query_json_as(
    json: &str,
    query: &str,
    syntax: QuerySyntax,
    format: OutputFormat,
    source: &str,
) -> (outcome: Result<String, ParsonError>)
    ensures
        answer_model(outcome) == answer(json@, query@, syntax, format, source@),
{
    let document = match parse_json(json) {
        Ok(document) => document,
        Err(failure) => {
            return Err(ParsonError::Parse(failure));
        },
    };
    let found = match resolve(&document, query, syntax) {
        Ok(found) => found,
        Err(error) => {
            return Err(ParsonError::Query(error));
        },
    };
    match format_value(&found, format, source) {
        Ok(text) => Ok(text),
        Err(failure) => Err(ParsonError::Encode(failure)),
    }
}

/// Answers a pointer query on a JSON text with the pretty text of the value
/// that the query addresses.
///
/// A malformed text fails with the decoder's message, a query that does not
/// resolve fails with the failure of its first failing segment, and a value
/// that the encoder gives up on fails with the encoder's message.
pub fn query_json(json: &str, query: &str) -> (outcome: Result<String, ParsonError>)
    ensures
        answer_model(outcome) == answer(
            json@,
            query@,
            QuerySyntax::Pointer,
            OutputFormat::PrettyJson,
            Seq::<char>::empty(),
        ),
{
    proof {
        reveal_strlit("");
    }
    query_json_as(json, query, QuerySyntax::Pointer, OutputFormat::PrettyJson, "")
}

/// A path resolves to a value exactly where it addresses that value. So a
/// path that addresses a location resolves to what stands there and to
/// nothing else, and a path that addresses none does not resolve.
pub proof fn lemma_walk_finds_what_is_addressed(
    root: JsonModel,
    segments: Seq<Seq<char>>,
    value: JsonModel,
)
    ensures
        addresses(root, segments, value) <==> walk(root, segments) == Ok::<JsonModel, QueryFault>(
            value,
        ),
{
    if addresses(root, segments, value) {
        let trail = choose|trail: Seq<JsonModel>|
            is_trail(root, segments, trail) && trail.last() == value;
        lemma_trail_is_walked(root, segments, trail);
    }
    if walk(root, segments) == Ok::<JsonModel, QueryFault>(value) {
        let trail = lemma_walk_leaves_a_trail(root, segments);
        assert(is_trail(root, segments, trail) && trail.last() == value);
    }
}

/// Walking along a trail arrives where the trail ends.
proof fn lemma_trail_is_walked(root: JsonModel, segments: Seq<Seq<char>>, trail: Seq<JsonModel>)
    requires
        is_trail(root, segments, trail),
    ensures
        walk(root, segments) == Ok::<JsonModel, QueryFault>(trail.last()),
    decreases segments.len(),
{
    if segments.len() > 0 {
        let shorter = segments.drop_last();
        assert(is_trail(root, shorter, trail.drop_last())) by {
            assert forall|level: int| 0 <= level < shorter.len() implies child(
                trail.drop_last()[level],
                #[trigger] shorter[level],
            ) == Some(trail.drop_last()[level + 1]) by {
                assert(shorter[level] == segments[level]);
            }
        }
        lemma_trail_is_walked(root, shorter, trail.drop_last());
        let last = segments.len() - 1;
        assert(segments[last] == segments.last());
        assert(child(trail[last], segments[last]) == Some(trail[last + 1]));
    }
}

/// A walk that arrives leaves a trail that ends where it arrived.
proof fn lemma_walk_leaves_a_trail(root: JsonModel, segments: Seq<Seq<char>>) -> (trail: Seq<
    JsonModel,
>)
    requires
        walk(root, segments) is Ok,
    ensures
        is_trail(root, segments, trail),
        trail.last() == walk(root, segments)->Ok_0,
    decreases segments.len(),
{
    if segments.len() == 0 {
        seq![root]
    } else {
        let shorter = segments.drop_last();
        let before = lemma_walk_leaves_a_trail(root, shorter);
        let trail = before.push(walk(root, segments)->Ok_0);
        assert forall|level: int| 0 <= level < segments.len() implies child(
            trail[level],
            #[trigger] segments[level],
        ) == Some(trail[level + 1]) by {
            if level < shorter.len() {
                assert(shorter[level] == segments[level]);
            }
        }
        trail
    }
}

/// Once a segment has failed, the segments after it change nothing.
pub proof fn lemma_failure_is_final(root: JsonModel, segments: Seq<Seq<char>>, used: int)
    requires
        0 <= used <= segments.len(),
        walk(root, segments.take(used)) is Err,
    ensures
        walk(root, segments) == walk(root, segments.take(used)),
    decreases segments.len() - used,
{
    if used == segments.len() {
        assert(segments.take(used) =~= segments);
    } else {
        assert(segments.drop_last().take(used) =~= segments.take(used));
        lemma_failure_is_final(root, segments.drop_last(), used);
    }
}

/// A path can be walked in two stages: the first part from the root, and the
/// rest from where the first part arrives. Where the first part fails, the
/// rest changes nothing.
pub proof fn lemma_walk_in_two_stages(
    root: JsonModel,
    first: Seq<Seq<char>>,
    rest: Seq<Seq<char>>,
)
    ensures
        walk(root, first + rest) == match walk(root, first) {
            Ok(reached) => walk(reached, rest),
            Err(fault) => Err(fault),
        },
    decreases rest.len(),
{
    if rest.len() > 0 {
        lemma_walk_in_two_stages(root, first, rest.drop_last());
        assert((first + rest).drop_last() =~= first + rest.drop_last());
    }
}

/// A path whose first segments address a scalar, and which has a segment
/// left, fails at that segment: the scalar cannot be descended into, and
/// nothing is returned in part.
pub proof fn lemma_scalar_stops_the_walk(
    root: JsonModel,
    segments: Seq<Seq<char>>,
    used: int,
    reached: JsonModel,
)
    requires
        0 <= used < segments.len(),
        addresses(root, segments.take(used), reached),
        reached.is_scalar(),
    ensures
        walk(root, segments) == Err::<JsonModel, QueryFault>(
            QueryFault::NotIndexable(segments[used], reached.kind()),
        ),
{
    lemma_walk_finds_what_is_addressed(root, segments.take(used), reached);
    assert(segments.take(used + 1).drop_last() =~= segments.take(used));
    lemma_failure_is_final(root, segments, used + 1);
}

/// A path whose first segments address an array fails at the next segment if
/// that segment is not a non-negative integer written in base 10, whatever
/// the array holds.
pub proof fn lemma_array_needs_an_index(
    root: JsonModel,
    segments: Seq<Seq<char>>,
    used: int,
    reached: JsonModel,
)
    requires
        0 <= used < segments.len(),
        addresses(root, segments.take(used), reached),
        reached is Array,
        !is_decimal(segments[used]),
    ensures
        walk(root, segments) == Err::<JsonModel, QueryFault>(
            QueryFault::InvalidIndex(segments[used]),
        ),
{
    lemma_walk_finds_what_is_addressed(root, segments.take(used), reached);
    assert(segments.take(used + 1).drop_last() =~= segments.take(used));
    lemma_failure_is_final(root, segments, used + 1);
}

/// A decimal with a needless leading zero is no index either.
pub proof fn lemma_leading_zero_is_no_index(token: Seq<char>)
    requires
        token.len() > 1,
        token[0] == '0',
    ensures
        index_of(token) is None,
{
}

/// The empty query addresses the document itself, in either syntax, and so
/// does the pointer that is a lone `/`.
pub proof fn lemma_empty_query_is_the_document(root: JsonModel, syntax: QuerySyntax)
    ensures
        resolution(root, Seq::<char>::empty(), syntax) == Ok::<JsonModel, QueryFault>(root),
        resolution(root, seq!['/'], QuerySyntax::Pointer) == Ok::<JsonModel, QueryFault>(root),
{
}

/// On an object, looking a single key up is walking the one-segment path of
/// that key: the two ways of asking differ only where the document is not an
/// object.
pub proof fn lemma_single_key_is_one_step(root: JsonModel, key: Seq<char>)
    requires
        root is Object,
    ensures
        key_resolution(root, key) == walk(root, seq![key]),
{
    assert(walk(root, seq![key].drop_last()) == Ok::<JsonModel, QueryFault>(root));
}

/// Resolving the same query against the same document twice gives the same
/// result.
pub proof fn lemma_resolving_again_agrees(
    root: JsonModel,
    query: Seq<char>,
    syntax: QuerySyntax,
    first: Result<JsonValue, QueryError>,
    second: Result<JsonValue, QueryError>,
)
    requires
        outcome_model(first) == resolution(root, query, syntax),
        outcome_model(second) == resolution(root, query, syntax),
    ensures
        outcome_model(first) == outcome_model(second),
{
}

/// Whatever is reached inside a well-formed document is well formed.
pub proof fn lemma_walk_keeps_well_formed(root: JsonModel, segments: Seq<Seq<char>>)
    requires
        root.well_formed(),
    ensures
        walk(root, segments) matches Ok(reached) ==> reached.well_formed(),
    decreases segments.len(),
{
    if segments.len() > 0 {
        lemma_walk_keeps_well_formed(root, segments.drop_last());
        if let Ok(parent) = walk(root, segments.drop_last()) {
            lemma_step_keeps_well_formed(parent, segments.last());
        }
    }
}

/// Whatever is one level inside a well-formed value is well formed.
pub proof fn lemma_step_keeps_well_formed(current: JsonModel, segment: Seq<char>)
    requires
        current.well_formed(),
    ensures
        step(current, segment) matches Ok(inner) ==> inner.well_formed(),
{
    if let JsonModel::Object(members) = current {
        if has_key(members, segment) {
            lemma_member_is_first(members, segment);
        }
    }
}

} // verus!
