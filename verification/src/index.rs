//! The run over a repository: which files are taken up, what is counted,
//! which failures are kept, and how the run ends.

use crate::extract::{extract_entities, language_records};
use crate::grammar::{get_language, outcome, parse_source, parsing, ParseFailure, Parsed};
use crate::lang::{language_name, SourceLanguage};
use crate::record::{emits, emits_object, file_entries, lines_in_order};
use crate::text::{decimal, decimal_of, texts};
use crate::tree::SyntaxTree;
use crate::writer::{
    count_line_feeds, line_feeds, write_error_text, CountingWriter, SinkState, WriteError,
};
use vstd::prelude::*;
use vstd::string::StringExecFns;

verus! {

/// The message for a path that the walk over the repository could not
/// process.
pub open spec fn enumeration_error(message: Seq<char>) -> Seq<char> {
    "[walkdir] "@ + message
}

/// The message for a file in a language without grammar.
pub open spec fn language_error(language: SourceLanguage, file: Seq<char>) -> Seq<char> {
    "[lang] No Tree-sitter language for "@ + language_name(language) + " in file "@ + file
}

/// The message for a file that could not be read.
pub open spec fn read_error(file: Seq<char>, message: Seq<char>) -> Seq<char> {
    "[read] "@ + file + ": "@ + message
}

/// The message for a file whose grammar the parser did not take.
pub open spec fn parser_error(file: Seq<char>, message: Seq<char>) -> Seq<char> {
    "[parser] "@ + file + ": "@ + message
}

/// The message for a file for which the parser produced no tree.
pub open spec fn parse_error(file: Seq<char>) -> Seq<char> {
    "[parse] "@ + file + ": failed to parse"@
}

/// The message for a file whose output could not be written.
pub open spec fn write_error(file: Seq<char>, message: Seq<char>) -> Seq<char> {
    "[write] "@ + file + ": "@ + message
}

/// The message with which a run with `count` failures ends.
pub open spec fn failure_summary(count: nat) -> Seq<char> {
    "Encountered "@ + decimal(count) + " errors during indexing."@
}

/// What a run has seen so far.
pub struct RunState {
    /// The number of files indexed.
    pub files: nat,
    /// The number of entities indexed.
    pub entities: nat,
    /// The messages of the failures, in the order in which they occurred.
    pub errors: Seq<Seq<char>>,
    /// The number of entities without those of the file that was indexed
    /// last: the number to go back to if its output cannot be written.
    pub settled: nat,
}

/// One run over a repository.
pub struct IndexRun {
    files_indexed: usize,
    entities_indexed: usize,
    settled: usize,
    errors: Vec<String>,
}

impl View for IndexRun {
    type V = RunState;

    closed spec fn view(&self) -> RunState {
        RunState {
            files: self.files_indexed as nat,
            entities: self.entities_indexed as nat,
            errors: texts(self.errors@),
            settled: self.settled as nat,
        }
    }
}

/// The sink that holds `written`, has counted `count` lines, and has or has
/// not refused a write.
pub open spec fn sink(written: Seq<u8>, count: nat, refused: bool) -> SinkState {
    SinkState { written, count, refused }
}

/// The number of entities after the output of the file that was indexed
/// last could be written only in part: those of the files before, and one
/// for each whole line of `written`, unless that were more than had been
/// counted.
pub open spec fn entities_after_failure(before: RunState, written: Seq<u8>) -> nat {
    if before.settled + line_feeds(written) <= before.entities {
        before.settled + line_feeds(written)
    } else {
        before.entities
    }
}

/// The failures after a file was written of which `records` records were
/// due: one more where the counter of entities could not count them all.
pub open spec fn errors_after(before: RunState, file: Seq<char>, records: nat) -> Seq<Seq<char>> {
    if before.entities + records <= usize::MAX {
        before.errors
    } else {
        before.errors.push(write_error(file, write_error_text(WriteError::CounterOverflow)))
    }
}

/// What indexing a file makes of a run and of the output, for each outcome
/// of parsing the file. A tree counts as one file; its records are written
/// after `output` and counted as entities, and a file in a language without
/// extraction rules gets the one record of its file and language. Records
/// that the counter of entities cannot count are not written, and that is
/// kept as one failure to write. A refusal of the grammar or a missing tree
/// is kept as a failure and leaves counts and output as they were.
pub open spec fn indexed(
    before: RunState,
    output: Seq<u8>,
    language: SourceLanguage,
    parsed: Parsed,
    source: Seq<char>,
    file: Seq<char>,
    after: RunState,
    written: Seq<u8>,
) -> bool {
    match parsed {
        Parsed::Tree(nodes) => {
            &&& after.files == before.files + 1
            &&& after.settled == before.entities
            &&& language != SourceLanguage::Other ==> after.errors == errors_after(
                before,
                file,
                language_records(language, nodes, source, file).len(),
            ) && emits(
                sink(output, before.entities, false),
                sink(written, after.entities, after.errors != before.errors),
                language_records(language, nodes, source, file),
            )
            &&& language == SourceLanguage::Other ==> after.errors == errors_after(before, file, 1)
                && emits_object(
                sink(output, before.entities, false),
                sink(written, after.entities, after.errors != before.errors),
                file_entries(file, language),
            )
        },
        Parsed::Refused(reason) => {
            &&& written == output
            &&& after == (RunState {
                errors: before.errors.push(parser_error(file, reason)),
                settled: before.entities,
                ..before
            })
        },
        Parsed::NoTree => {
            &&& written == output
            &&& after == (RunState {
                errors: before.errors.push(parse_error(file)),
                settled: before.entities,
                ..before
            })
        },
    }
}

/// The message for a file whose output could not be written.
fn write_failure(file: &str, message: &str) -> (text: String)
    ensures
        text@ == write_error(file@, message@),
{
    let mut text = String::from_str("[write] ");
    text.append(file);
    text.append(": ");
    text.append(message);
    text
}

impl IndexRun {
    /// A run that has seen nothing yet.
    pub fn new() -> (run: IndexRun)
        ensures
            run@ == (RunState { files: 0, entities: 0, errors: Seq::empty(), settled: 0 }),
    {
        let run = IndexRun {
            files_indexed: 0,
            entities_indexed: 0,
            settled: 0,
            errors: Vec::new(),
        };
        assert(texts(run.errors@) =~= Seq::<Seq<char>>::empty());
        run
    }

    /// The number of files indexed so far.
    pub fn files_indexed(&self) -> (files: usize)
        ensures
            files == self@.files,
    {
        self.files_indexed
    }

    /// The number of entities indexed so far.
    pub fn entities_indexed(&self) -> (entities: usize)
        ensures
            entities == self@.entities,
    {
        self.entities_indexed
    }

    /// The messages of the failures so far.
    pub fn errors(&self) -> (errors: &Vec<String>)
        ensures
            texts(errors@) == self@.errors,
    {
        &self.errors
    }

    /// Keeps a failure.
    fn keep(&mut self, message: String)
        ensures
            final(self)@ == (RunState { errors: old(self)@.errors.push(message@), ..old(self)@ }),
    {
        let ghost before = texts(self.errors@);
        self.errors.push(message);
        assert(texts(self.errors@) =~= before.push(message@));
    }

    /// Keeps the failure of the walk over the repository to process a path.
    pub fn record_enumeration_error(&mut self, message: &str)
        ensures
            final(self)@ == (RunState {
                errors: old(self)@.errors.push(enumeration_error(message@)),
                ..old(self)@
            }),
    {
        let mut text = String::from_str("[walkdir] ");
        text.append(message);
        self.keep(text);
    }

    /// Keeps the failure to read a file.
    pub fn record_read_error(&mut self, file: &str, message: &str)
        ensures
            final(self)@ == (RunState {
                errors: old(self)@.errors.push(read_error(file@, message@)),
                ..old(self)@
            }),
    {
        let mut text = String::from_str("[read] ");
        text.append(file);
        text.append(": ");
        text.append(message);
        self.keep(text);
    }

    /// Keeps the failure to write the output of the file that was indexed
    /// last, of which only `written` has reached the output. The entities
    /// of that file are counted anew: as many as there are whole lines in
    /// `written`, so that the count stays the number of lines in the
    /// output. Where `written` holds more lines than were counted for the
    /// file, the count stays as it is.
    pub fn record_write_error(&mut self, file: &str, message: &str, written: &[u8])
        ensures
            final(self)@ == (RunState {
                errors: old(self)@.errors.push(write_error(file@, message@)),
                entities: entities_after_failure(old(self)@, written@),
                settled: entities_after_failure(old(self)@, written@),
                ..old(self)@
            }),
    {
        let lines = count_line_feeds(written);
        if self.settled <= self.entities_indexed && lines <= self.entities_indexed - self.settled {
            self.entities_indexed = self.settled + lines;
        }
        self.settled = self.entities_indexed;
        self.keep(write_failure(file, message));
    }

    /// Decides whether a file is taken up, given the language that its
    /// extension selects. A file whose extension selects no language is
    /// passed over in silence. A file in a language without grammar is
    /// passed over, and the failure is kept. For any other file its
    /// language is handed back. Nothing is counted yet.
    pub fn take_up(&mut self, file: &str, language: Option<SourceLanguage>) -> (taken: Option<
        SourceLanguage,
    >)
        ensures
            language is None ==> taken is None && final(self)@ == old(self)@,
            language == Some(SourceLanguage::Other) ==> taken is None && final(self)@ == (
            RunState {
                errors: old(self)@.errors.push(language_error(SourceLanguage::Other, file@)),
                ..old(self)@
            }),
            language matches Some(l) && l != SourceLanguage::Other ==> taken == language
                && final(self)@ == old(self)@,
    {
        match language {
            None => None,
            Some(l) => match get_language(l) {
                Some(grammar) => Some(grammar),
                None => {
                    let mut text = String::from_str("[lang] No Tree-sitter language for ");
                    text.append(l.name());
                    text.append(" in file ");
                    text.append(file);
                    self.keep(text);
                    None
                },
            },
        }
    }

    /// Indexes a parsed file: its records go to `output`, after what
    /// `output` holds already, and are counted one by one as entities; the
    /// file is counted as indexed. A file in a language without extraction
    /// rules gets the one record of its file and language.
    pub fn index_tree(
        &mut self,
        language: SourceLanguage,
        tree: &SyntaxTree,
        source: &str,
        file: &str,
        output: Vec<u8>,
    ) -> (written: Vec<u8>)
        requires
            old(self)@.files < usize::MAX,
        ensures
            indexed(
                old(self)@,
                output@,
                language,
                Parsed::Tree(tree@),
                source@,
                file@,
                final(self)@,
                written@,
            ),
            final(self)@.entities - old(self)@.entities == line_feeds(written@) - line_feeds(
                output@,
            ),
            forall|k: int|
                0 <= k < language_records(language, tree@, source@, file@).len()
                    ==> lines_in_order(
                    #[trigger] language_records(language, tree@, source@, file@)[k],
                ),
    {
        let mut out = CountingWriter::new(output, self.entities_indexed);
        let ghost start = out@;
        extract_entities(language, tree, source, file, &mut out);
        let ghost end = out@;
        let refused = out.refused();
        let (written, entities) = out.into_parts();
        if refused {
            self.keep(write_failure(file, WriteError::CounterOverflow.message()));
        }
        self.settled = self.entities_indexed;
        self.entities_indexed = entities;
        self.files_indexed = self.files_indexed + 1;
        proof {
            let failure = write_error(file@, write_error_text(WriteError::CounterOverflow));
            assert(start == sink(output@, old(self)@.entities, false));
            assert(end == sink(written@, entities as nat, refused));
            assert(old(self)@.errors.push(failure).len() != old(self)@.errors.len());
        }
        written
    }

    /// Indexes a file, given what parsing it gave. A tree is indexed. Where
    /// the parser did not take the grammar or produced no tree, the failure
    /// is kept, and nothing is written or counted.
    pub fn index_parsed(
        &mut self,
        language: SourceLanguage,
        parsed: Result<SyntaxTree, ParseFailure>,
        source: &str,
        file: &str,
        output: Vec<u8>,
    ) -> (written: Vec<u8>)
        requires
            old(self)@.files < usize::MAX,
        ensures
            indexed(
                old(self)@,
                output@,
                language,
                outcome(parsed),
                source@,
                file@,
                final(self)@,
                written@,
            ),
            final(self)@.entities - old(self)@.entities == line_feeds(written@) - line_feeds(
                output@,
            ),
    {
        match parsed {
            Ok(tree) => self.index_tree(language, &tree, source, file, output),
            Err(ParseFailure::Grammar(reason)) => {
                let mut text = String::from_str("[parser] ");
                text.append(file);
                text.append(": ");
                text.append(reason.as_str());
                self.settled = self.entities_indexed;
                self.keep(text);
                output
            },
            Err(ParseFailure::NoTree) => {
                let mut text = String::from_str("[parse] ");
                text.append(file);
                text.append(": failed to parse");
                self.settled = self.entities_indexed;
                self.keep(text);
                output
            },
        }
    }

    /// Parses and indexes the source of a file in the given language: the
    /// file is indexed as is stated for what parsing the source comes to.
    /// The entities counted are the lines written.
    pub fn index_source(
        &mut self,
        language: SourceLanguage,
        source: &str,
        file: &str,
        output: Vec<u8>,
    ) -> (written: Vec<u8>)
        requires
            old(self)@.files < usize::MAX,
        ensures
            indexed(
                old(self)@,
                output@,
                language,
                parsing(language, source@),
                source@,
                file@,
                final(self)@,
                written@,
            ),
            final(self)@.entities - old(self)@.entities == line_feeds(written@) - line_feeds(
                output@,
            ),
    {
        let parsed = parse_source(language, source);
        self.index_parsed(language, parsed, source, file, output)
    }

    /// How the run ends: well if no failure was kept, else with the number
    /// of failures.
    pub fn finish(&self) -> (end: Result<(), String>)
        ensures
            end is Ok <==> self@.errors.len() == 0,
            end matches Err(message) ==> message@ == failure_summary(self@.errors.len()),
    {
        if self.errors.len() == 0 {
            Ok(())
        } else {
            let mut text = String::from_str("Encountered ");
            text.append(decimal_of(self.errors.len()).as_str());
            text.append(" errors during indexing.");
            Err(text)
        }
    }
}

} // verus!
