//! Entity records: what one record holds, its JSON object, and what it
//! means for a sink to have received a sequence of records.

use crate::json::{
    json_entries, json_object, json_put, json_render, json_text, no_members, JsonField,
    JsonValue,
};
use crate::text::texts;
use crate::lang::{kind_name, language_name, EntityKind, SourceLanguage};
use crate::writer::{lemma_one_line, line_feeds, CountingWriter, SinkState, WriteError};
use vstd::prelude::*;
use vstd::utf8::*;

verus! {

broadcast use {vstd::utf8::group_utf8_lib, vstd::string::group_string_axioms};

/// One entity record.
pub struct Record {
    /// Path of the source file, as it was found.
    pub file: Seq<char>,
    pub language: SourceLanguage,
    pub kind: EntityKind,
    /// The entity's name; empty where the grammar provides none.
    pub name: Seq<char>,
    /// The first line of the entity's source text.
    pub signature: Seq<char>,
    /// One-based line on which the entity starts.
    pub starting_line: nat,
    /// One-based line on which the entity ends.
    pub ending_line: nat,
    /// Name of the innermost enclosing entity.
    pub parent: Option<Seq<char>>,
    /// Recovered documentation.
    pub doc: Option<Seq<char>>,
    /// Names of the callees found in the entity's subtree.
    pub calls: Option<Seq<Seq<char>>>,
    /// The entity's type parameters, verbatim.
    pub generics: Option<Seq<char>>,
}

/// The record's lines are one-based and in order.
pub open spec fn lines_in_order(record: Record) -> bool {
    1 <= record.starting_line <= record.ending_line
}

/// `entries` with a string member under `key`, if there is a value for it.
pub open spec fn put_optional(
    entries: Map<Seq<char>, JsonField>,
    key: Seq<char>,
    value: Option<Seq<char>>,
) -> Map<Seq<char>, JsonField> {
    match value {
        Some(v) => entries.insert(key, JsonField::Text(v)),
        None => entries,
    }
}

/// `entries` with a member under `key` that holds a list of strings, if
/// there is one.
pub open spec fn put_optional_list(
    entries: Map<Seq<char>, JsonField>,
    key: Seq<char>,
    value: Option<Seq<Seq<char>>>,
) -> Map<Seq<char>, JsonField> {
    match value {
        Some(v) => entries.insert(key, JsonField::TextList(v)),
        None => entries,
    }
}

/// The members that every record has.
pub open spec fn required_entries(record: Record) -> Map<Seq<char>, JsonField> {
    no_members().insert("file"@, JsonField::Text(record.file)).insert(
        "language"@,
        JsonField::Text(language_name(record.language)),
    ).insert("type"@, JsonField::Text(kind_name(record.kind))).insert(
        "name"@,
        JsonField::Text(record.name),
    ).insert("signature"@, JsonField::Text(record.signature)).insert(
        "startingLineNumber"@,
        JsonField::Number(record.starting_line),
    ).insert("endingLineNumber"@, JsonField::Number(record.ending_line))
}

/// The members of the record's JSON object: the required ones, and each
/// optional one that the record has.
pub open spec fn record_entries(record: Record) -> Map<Seq<char>, JsonField> {
    put_optional(
        put_optional_list(
            put_optional(
                put_optional(required_entries(record), "parent"@, record.parent),
                "doc"@,
                record.doc,
            ),
            "calls"@,
            record.calls,
        ),
        "generics"@,
        record.generics,
    )
}

/// The members of the record of a file in a language without extraction
/// rules.
pub open spec fn file_entries(file: Seq<char>, language: SourceLanguage) -> Map<Seq<char>, JsonField> {
    no_members().insert("file"@, JsonField::Text(file)).insert(
        "language"@,
        JsonField::Text(language_name(language)),
    )
}

/// The bytes of the line that holds the JSON object with these members.
pub open spec fn line_bytes(entries: Map<Seq<char>, JsonField>) -> Seq<u8> {
    encode_utf8(json_text(entries).push('\n'))
}

/// The bytes of the lines of `records`, one line for each, in order.
pub open spec fn emitted(records: Seq<Record>) -> Seq<u8>
    decreases records.len(),
{
    if records.len() == 0 {
        Seq::empty()
    } else {
        emitted(records.drop_last()) + line_bytes(record_entries(records.last()))
    }
}

/// The count of the sink rose by the number of line feeds that were written
/// to it.
pub open spec fn in_step(before: SinkState, after: SinkState) -> bool {
    after.count - before.count == line_feeds(after.written) - line_feeds(before.written)
}

/// Between `before` and `after` the sink received the line of the object
/// with these members, and counted it, unless its counter could not count
/// one more line; then it refused the line and stayed as it was otherwise.
pub open spec fn emits_object(
    before: SinkState,
    after: SinkState,
    entries: Map<Seq<char>, JsonField>,
) -> bool {
    &&& before.count <= usize::MAX
    &&& in_step(before, after)
    &&& before.count < usize::MAX ==> after == (SinkState {
        written: before.written + line_bytes(entries),
        count: before.count + 1,
        ..before
    })
    &&& before.count == usize::MAX ==> after == (SinkState { refused: true, ..before })
}

/// Those of `records` that a sink can count: all of them if its counter has
/// room for them, else as many from the front as it has room for.
pub open spec fn countable(before: SinkState, records: Seq<Record>) -> Seq<Record> {
    if before.count + records.len() <= usize::MAX {
        records
    } else {
        records.take(usize::MAX - before.count)
    }
}

/// Between `before` and `after` the sink received the lines of those of
/// `records` that it could count, in order, and counted one line for each.
/// It refused the others, and remembers a refusal. Its count stayed in
/// step with its lines.
pub open spec fn emits(before: SinkState, after: SinkState, records: Seq<Record>) -> bool {
    &&& before.count <= usize::MAX
    &&& in_step(before, after)
    &&& after.written == before.written + emitted(countable(before, records))
    &&& after.count == before.count + countable(before, records).len()
    &&& after.refused == (before.refused || before.count + records.len() > usize::MAX)
}

/// A sink that did not change received no records.
pub proof fn lemma_emits_nothing(sink: SinkState)
    requires
        sink.count <= usize::MAX,
    ensures
        emits(sink, sink, Seq::empty()),
{
}

/// The lines of two sequences of records, one after the other, are the
/// lines of the joined sequence.
pub proof fn lemma_emitted_concat(first: Seq<Record>, second: Seq<Record>)
    ensures
        emitted(first + second) == emitted(first) + emitted(second),
    decreases second.len(),
{
    if second.len() == 0 {
    } else {
        assert((first + second).drop_last() =~= first + second.drop_last());
        lemma_emitted_concat(first, second.drop_last());
    }
}

/// Receiving one sequence of records and then another is receiving the two
/// in a row.
pub proof fn lemma_emits_then(
    start: SinkState,
    middle: SinkState,
    end: SinkState,
    first: Seq<Record>,
    second: Seq<Record>,
)
    requires
        emits(start, middle, first),
        emits(middle, end, second),
    ensures
        emits(start, end, first + second),
{
    let kept_first = countable(start, first);
    let kept_second = countable(middle, second);
    assert(countable(start, first + second) =~= kept_first + kept_second);
    lemma_emitted_concat(kept_first, kept_second);
    assert(end.written =~= start.written + emitted(kept_first + kept_second));
}

/// Receiving the object of a record is receiving the record.
pub proof fn lemma_emits_one(before: SinkState, after: SinkState, record: Record)
    requires
        emits_object(before, after, record_entries(record)),
    ensures
        emits(before, after, seq![record]),
{
    let one = seq![record];
    assert(emitted(one.drop_last()) =~= Seq::<u8>::empty());
}

/// The text of an optional string.
pub open spec fn optional_text(value: Option<&str>) -> Option<Seq<char>> {
    match value {
        Some(v) => Some(v@),
        None => None,
    }
}

/// The texts of an optional list of strings.
pub open spec fn optional_texts(value: Option<&Vec<String>>) -> Option<Seq<Seq<char>>> {
    match value {
        Some(v) => Some(texts(v@)),
        None => None,
    }
}

/// The JSON object of a record without type parameters: the required
/// members, and `parent`, `doc` and `calls` where they are given.
pub fn make_entity_json(
    file: &str,
    language: SourceLanguage,
    entity_type: EntityKind,
    name: &str,
    signature: &str,
    starting_line: usize,
    ending_line: usize,
    parent: Option<&str>,
    doc: Option<&str>,
    calls: Option<&Vec<String>>,
) -> (object: serde_json::Map<String, serde_json::Value>)
    ensures
        json_entries(object) == record_entries(
            Record {
                file: file@,
                language,
                kind: entity_type,
                name: name@,
                signature: signature@,
                starting_line: starting_line as nat,
                ending_line: ending_line as nat,
                parent: optional_text(parent),
                doc: optional_text(doc),
                calls: optional_texts(calls),
                generics: None,
            },
        ),
{
    let mut object = json_object();
    json_put(&mut object, "file", JsonValue::Text(file));
    json_put(&mut object, "language", JsonValue::Text(language.name()));
    json_put(&mut object, "type", JsonValue::Text(entity_type.name()));
    json_put(&mut object, "name", JsonValue::Text(name));
    json_put(&mut object, "signature", JsonValue::Text(signature));
    json_put(&mut object, "startingLineNumber", JsonValue::Number(starting_line));
    json_put(&mut object, "endingLineNumber", JsonValue::Number(ending_line));
    let ghost record = Record {
        file: file@,
        language,
        kind: entity_type,
        name: name@,
        signature: signature@,
        starting_line: starting_line as nat,
        ending_line: ending_line as nat,
        parent: optional_text(parent),
        doc: optional_text(doc),
        calls: optional_texts(calls),
        generics: None,
    };
    if let Some(parent) = parent {
        json_put(&mut object, "parent", JsonValue::Text(parent));
    }
    if let Some(doc) = doc {
        json_put(&mut object, "doc", JsonValue::Text(doc));
    }
    if let Some(calls) = calls {
        json_put(&mut object, "calls", JsonValue::Texts(calls));
    }
    object
}

/// The JSON object of the record of a file in a language without extraction
/// rules: the file and the language, nothing else.
pub fn make_file_json(file: &str, language: SourceLanguage) -> (object: serde_json::Map<
    String,
    serde_json::Value,
>)
    ensures
        json_entries(object) == file_entries(file@, language),
{
    let mut object = json_object();
    json_put(&mut object, "file", JsonValue::Text(file));
    json_put(&mut object, "language", JsonValue::Text(language.name()));
    object
}

/// Writes the object to the sink as one line.
pub fn write_object(out: &mut CountingWriter, object: serde_json::Map<String, serde_json::Value>)
    -> (done: Result<(), WriteError>)
    ensures
        emits_object(old(out)@, final(out)@, json_entries(object)),
        done is Ok <==> old(out).count() < usize::MAX,
{
    let mut line = json_render(object);
    let ghost text = line@;
    line.push('\n');
    proof {
        out.lemma_count_in_range();
        lemma_one_line(text);
    }
    match out.write(line.as_str().as_bytes()) {
        Ok(_) => Ok(()),
        Err(e) => Err(e),
    }
}

} // verus!
