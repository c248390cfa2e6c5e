//! Writing a JSON value out as text.

use crate::codec::{
    compact_text, decoded, describe, encode_compact, encode_pretty, export, message_of,
    pretty_text,
};
use crate::decimal::{parse_unsigned, unsigned_value};
use crate::error::{answer_model, Failure, ParsonError};
use crate::json::{lemma_object_view, member_models, JsonModel, JsonValue};
use crate::parser::parse_json;
use crate::text::{join, lemma_split_joins_back, split, split_text, texts};
use vstd::prelude::*;

verus! {

/// The form in which a value is written out.
#[derive(Clone, Copy, Debug, PartialEq, Eq, Structural)]
pub enum OutputFormat {
    /// One line, nothing added.
    Raw,
    /// Several indented lines, inside an envelope that names its source.
    GoogleCloudAI,
    /// Several indented lines.
    PrettyJson,
}

/// The encoder gave up on a value.
#[derive(Debug, PartialEq, Eq)]
pub struct EncodeError {
    /// The encoder's own account of what is wrong.
    pub message: String,
}

/// The envelope around `data`:
/// `{"payload": {"data": data}, "metadata": {"format": "json", "source": source}}`.
pub open spec fn envelope(data: JsonModel, source: Seq<char>) -> JsonModel {
    JsonModel::Object(
        seq![
            ("payload"@, JsonModel::Object(seq![("data"@, data)])),
            (
                "metadata"@,
                JsonModel::Object(
                    seq![
                        ("format"@, JsonModel::String("json"@)),
                        ("source"@, JsonModel::String(source)),
                    ],
                ),
            ),
        ],
    )
}

/// What the encoder makes of `value` in the form `format`: the text, or the
/// message of its failure.
pub open spec fn formatted(value: JsonModel, format: OutputFormat, source: Seq<char>) -> Result<
    Seq<char>,
    Seq<char>,
> {
    match format {
        OutputFormat::Raw => compact_text(value),
        OutputFormat::GoogleCloudAI => pretty_text(envelope(value, source)),
        OutputFormat::PrettyJson => pretty_text(value),
    }
}

/// An envelope is well formed where what it holds is.
pub proof fn lemma_envelope_is_well_formed(data: JsonModel, source: Seq<char>)
    requires
        data.well_formed(),
    ensures
        envelope(data, source).well_formed(),
{
    reveal_strlit("payload");
    reveal_strlit("metadata");
    reveal_strlit("format");
    reveal_strlit("source");
    let payload = seq![("data"@, data)];
    let metadata = seq![
        ("format"@, JsonModel::String("json"@)),
        ("source"@, JsonModel::String(source)),
    ];
    // The keys of one object differ in their first character.
    assert("payload"@[0] != "metadata"@[0]);
    assert("format"@[0] != "source"@[0]);
    assert(JsonModel::Object(payload).well_formed());
    assert(metadata[0].1.well_formed());
    assert(metadata[1].1.well_formed());
    assert(JsonModel::Object(metadata).well_formed());
}

/// Puts a copy of `value` into the envelope that names `source`.
pub fn wrap(value: &JsonValue, source: &str) -> (wrapped: JsonValue)
    ensures
        wrapped@ == envelope(value@, source@),
        value@.well_formed() ==> wrapped@.well_formed(),
{
    proof {
        if value@.well_formed() {
            lemma_envelope_is_well_formed(value@, source@);
        }
    }
    let mut payload: Vec<(String, JsonValue)> = Vec::new();
    payload.push(("data".to_owned(), value.deep_copy()));
    let mut metadata: Vec<(String, JsonValue)> = Vec::new();
    metadata.push(("format".to_owned(), JsonValue::String("json".to_owned())));
    metadata.push(("source".to_owned(), JsonValue::String(source.to_owned())));
    proof {
        lemma_object_view(payload);
        lemma_object_view(metadata);
        assert(member_models(payload@) =~= seq![("data"@, value@)]);
        assert(member_models(metadata@) =~= seq![
            ("format"@, JsonModel::String("json"@)),
            ("source"@, JsonModel::String(source@)),
        ]);
    }
    let mut outer: Vec<(String, JsonValue)> = Vec::new();
    outer.push(("payload".to_owned(), JsonValue::Object(payload)));
    outer.push(("metadata".to_owned(), JsonValue::Object(metadata)));
    proof {
        lemma_object_view(outer);
        assert(member_models(outer@) =~= envelope(value@, source@)->Object_0);
    }
    JsonValue::Object(outer)
}

/// The model of what the writing of a value returns.
pub open spec fn written(outcome: Result<String, EncodeError>) -> Result<Seq<char>, Seq<char>> {
    match outcome {
        Ok(text) => Ok(text@),
        Err(failure) => Err(failure.message@),
    }
}

/// What becomes of the encoder's answer: its text, or its failure with the
/// message that it displays.
pub fn encoding_outcome(answer: Result<String, serde_json::Error>) -> (outcome: Result<
    String,
    EncodeError,
>)
    ensures
        match answer {
            Ok(text) => outcome == Ok::<String, EncodeError>(text),
            Err(error) => outcome matches Err(failure) && failure.message@ == message_of(error),
        },
{
    match answer {
        Ok(text) => Ok(text),
        Err(error) => Err(EncodeError { message: describe(&error) }),
    }
}

/// Writes `value` on one line, as the encoder does.
pub fn render_compact(value: &JsonValue) -> (outcome: Result<String, EncodeError>)
    requires
        value@.well_formed(),
    ensures
        written(outcome) == compact_text(value@),
{
    let exported = export(value);
    encoding_outcome(encode_compact(&exported))
}

/// Writes `value` on several indented lines, as the encoder does.
pub fn render_pretty(value: &JsonValue) -> (outcome: Result<String, EncodeError>)
    requires
        value@.well_formed(),
    ensures
        written(outcome) == pretty_text(value@),
{
    let exported = export(value);
    encoding_outcome(encode_pretty(&exported))
}

/// Writes `value` in the form `format`; `source` is named only by the
/// envelope.
pub fn format_value(value: &JsonValue, format: OutputFormat, source: &str) -> (outcome: Result<
    String,
    EncodeError,
>)
    requires
        value@.well_formed(),
    ensures
        written(outcome) == formatted(value@, format, source@),
{
    match format {
        OutputFormat::Raw => render_compact(value),
        OutputFormat::GoogleCloudAI => {
            let wrapped = wrap(value, source);
            render_pretty(&wrapped)
        },
        OutputFormat::PrettyJson => render_pretty(value),
    }
}

/// What the reading of a text, and the writing of its document in the form
/// `format`, come to.
pub open spec fn reformatted(json: Seq<char>, format: OutputFormat, source: Seq<char>) -> Result<
    Seq<char>,
    Failure,
> {
    match decoded(json) {
        Err(message) => Err(Failure::Parse(message)),
        Ok(document) => match formatted(document, format, source) {
            Ok(text) => Ok(text),
            Err(message) => Err(Failure::Encode(message)),
        },
    }
}

/// Reads a JSON text and writes it out again in the form `format`: the text
/// of the whole document in that form, the decoder's message where the text
/// is malformed, or the encoder's message where it gives up.
pub fn reformat_json(json: &str, format: OutputFormat, source: &str) -> (outcome: Result<
    String,
    ParsonError,
>)
    ensures
        answer_model(outcome) == reformatted(json@, format, source@),
{
    match parse_json(json) {
        Ok(document) => match format_value(&document, format, source) {
            Ok(text) => Ok(text),
            Err(failure) => Err(ParsonError::Encode(failure)),
        },
        Err(failure) => Err(ParsonError::Parse(failure)),
    }
}

/// The least number of blanks that a line may be indented by.
pub const MIN_INDENT: usize = 2;

/// The greatest number of blanks that a line may be indented by.
pub const MAX_INDENT: usize = 8;

/// The indentation that an input selects: an unsigned number from
/// `MIN_INDENT` to `MAX_INDENT`.
pub open spec fn indent_width_for(input: Seq<char>) -> Option<nat> {
    match unsigned_value(input) {
        Some(width) => if MIN_INDENT <= width <= MAX_INDENT {
            Some(width)
        } else {
            None
        },
        None => None,
    }
}

/// Reads the choice of an indentation.
pub fn indent_width(input: &str) -> (width: Option<usize>)
    ensures
        match width {
            Some(chosen) => indent_width_for(input@) == Some(chosen as nat),
            None => indent_width_for(input@) is None,
        },
{
    match parse_unsigned(input) {
        Some(width) => if MIN_INDENT <= width && width <= MAX_INDENT {
            Some(width)
        } else {
            None
        },
        None => None,
    }
}

/// A run of `width` blanks.
pub open spec fn blanks(width: nat) -> Seq<char> {
    Seq::new(width, |i: int| ' ')
}

/// A line without the carriage return that ends it, if one ends it.
pub open spec fn without_return(line: Seq<char>) -> Seq<char> {
    if line.len() > 0 && line.last() == '\r' {
        line.drop_last()
    } else {
        line
    }
}

/// The lines of a text. A line ends with a line feed, which may follow a
/// carriage return; neither belongs to the line. What follows the last line
/// feed is a line too, unless it is empty.
pub open spec fn lines_of(text: Seq<char>) -> Seq<Seq<char>> {
    let pieces = split(text, '\n');
    let ended = Seq::new((pieces.len() - 1) as nat, |i: int| without_return(pieces[i]));
    if pieces.last().len() == 0 {
        ended
    } else {
        ended.push(pieces.last())
    }
}

/// The lines of `text`, each behind `width` blanks, with a line feed between
/// neighbours.
pub open spec fn indented(text: Seq<char>, width: nat) -> Seq<char> {
    let lines = lines_of(text);
    join(Seq::new(lines.len(), |i: int| blanks(width) + lines[i]), '\n')
}

/// A run of `width` blanks.
pub fn margin(width: usize) -> (run: String)
    ensures
        run@ == blanks(width as nat),
{
    let mut run = String::new();
    let mut at: usize = 0;
    proof {
        reveal_strlit(" ");
    }
    while at < width
        invariant
            at <= width,
            run@ == blanks(at as nat),
            " "@ == seq![' '],
        decreases width - at,
    {
        run.append(" ");
        at += 1;
    }
    run
}

/// Indents every line of `text` by `width` blanks.
pub fn indent_lines(text: &str, width: usize) -> (out: String)
    ensures
        out@ == indented(text@, width as nat),
{
    let pieces = split_text(text, '\n');
    proof {
        lemma_split_joins_back(text@, '\n');
        reveal_strlit("\n");
    }
    let count = pieces.len();
    let last_is_empty = pieces[count - 1].as_str().unicode_len() == 0;
    let line_count = if last_is_empty {
        count - 1
    } else {
        count
    };
    let prefix = margin(width);
    let ghost lines = lines_of(text@);
    let ghost shifted = Seq::new(lines.len(), |i: int| blanks(width as nat) + lines[i]);
    let mut out = String::new();
    let mut at: usize = 0;
    while at < line_count
        invariant
            at <= line_count <= count,
            count == pieces.len(),
            count >= 1,
            line_count == lines.len(),
            texts(pieces@) == split(text@, '\n'),
            lines == lines_of(text@),
            shifted == Seq::new(lines.len(), |i: int| blanks(width as nat) + lines[i]),
            prefix@ == blanks(width as nat),
            "\n"@ == seq!['\n'],
            line_count == count - 1 || (line_count == count && texts(pieces@).last().len() > 0),
            out@ == join(shifted.take(at as int), '\n'),
        decreases line_count - at,
    {
        if at > 0 {
            out.append("\n");
        }
        out.append(prefix.as_str());
        let piece = pieces[at].as_str();
        let length = piece.unicode_len();
        if at + 1 < count && length > 0 && piece.get_char(length - 1) == '\r' {
            let line = piece.substring_char(0, length - 1);
            out.append(line);
        } else {
            out.append(piece);
        }
        proof {
            assert(shifted.take(at + 1).drop_last() =~= shifted.take(at as int));
            assert(lines[at as int] == if at + 1 < count {
                without_return(piece@)
            } else {
                piece@
            });
        }
        at += 1;
    }
    assert(shifted.take(at as int) =~= shifted);
    out
}

} // verus!
