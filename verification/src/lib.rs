//! Selection of the first or last lines or bytes of input sources.
//!
//! A run is described by [`options::Options`]: the source references, a
//! line count and an optional byte count. Each count is a
//! [`options::SignedUsize`]: `Positive(n)` keeps the first `n` elements of a
//! source, `Negative(n)` keeps all but the last `n`.
//!
//! The library reads and writes nothing itself. Its caller opens and reads
//! the sources and hands over what came of each as an [`input::Source`];
//! [`Command`] then says what goes to the output sink and what goes to the
//! error sink, both held as text in memory.

use crate::input::{Input, Source};
use crate::options::{Mode, Options, SignedUsize};
use crate::selector::{lemma_selected_prefix, select, selected, successes};
use crate::text::{
    decode_lossy, header_of, joined, lossy_text, open_error, open_error_of, read_error,
    read_error_of, texts, write_all,
};
use vstd::math::{max, min};
use vstd::prelude::*;
use vstd::string::*;
use vstd::utf8::{decode_utf8, valid_utf8};

pub mod input;
pub mod options;
pub mod selector;
pub mod text;

verus! {

/// The header of a source, as it stands on a line of its own before the
/// content of the source.
pub fn format_header(name: &str) -> (header: String)
    ensures
        header@ == header_of(name@),
{
    let mut header = String::from_str("==> ");
    header.append(name);
    header.append(" <==");
    header
}

/// A run over the sources that the options name.
pub struct Command<'a> {
    program: &'a str,
    options: &'a Options,
}

impl<'a> Command<'a> {
    /// The name that the diagnostics begin with.
    pub closed spec fn program(&self) -> Seq<char> {
        self.program@
    }

    /// The options of the run.
    pub closed spec fn options(&self) -> Options {
        *self.options
    }

    /// How many source references the options name.
    pub open spec fn references(&self) -> nat {
        self.options().files@.len()
    }

    /// A source answers the run when it was read in the mode of the options,
    /// or could not be opened.
    pub open spec fn accepts(&self, source: Source) -> bool {
        match source {
            Source::Unopened(_) => true,
            Source::Lines(_) => self.options().selection() is Lines,
            Source::Bytes(_) => self.options().selection() is Bytes,
        }
    }

    /// The sources answer the run when there is one for each reference, in
    /// the order of the references, and each answers the run.
    pub open spec fn admits(&self, sources: Seq<Source>) -> bool {
        &&& sources.len() == self.references()
        &&& forall|i: int| 0 <= i < sources.len() ==> self.accepts(#[trigger] sources[i])
    }

    /// The header line of a source. Only an opened source has one, and only
    /// in a run over more than one reference.
    pub open spec fn heading(&self, source: Source) -> Seq<char> {
        if self.references() > 1 && source.is_opened() {
            header_of(source.name()) + "\n"@
        } else {
            Seq::empty()
        }
    }

    /// The text of the lines that the line count keeps.
    pub open spec fn line_content(&self, input: Input<String>) -> Seq<char> {
        match input.elements {
            Ok(elements) => joined(texts(selected(self.options().lines, successes(elements@)))),
            Err(_) => Seq::empty(),
        }
    }

    /// The bytes that the byte count keeps.
    pub open spec fn bytes_kept(&self, input: Input<u8>) -> Seq<u8> {
        match (input.elements, self.options().bytes) {
            (Ok(elements), Some(count)) => selected(count, successes(elements@)),
            _ => Seq::empty(),
        }
    }

    /// The text of the bytes that the byte count keeps.
    pub open spec fn byte_content(&self, input: Input<u8>) -> Seq<char> {
        match (input.elements, self.options().bytes) {
            (Ok(elements), Some(count)) => lossy_text(self.bytes_kept(input)),
            _ => Seq::empty(),
        }
    }

    /// What an opened input that gave no element sequence adds to the error
    /// sink.
    pub open spec fn read_complaint<T>(&self, input: Input<T>) -> Seq<char> {
        match input.elements {
            Ok(_) => Seq::empty(),
            Err(reason) => read_error_of(self.program(), input.name@, reason@),
        }
    }

    /// The selected content of a source.
    pub open spec fn content(&self, source: Source) -> Seq<char> {
        match source {
            Source::Unopened(_) => Seq::empty(),
            Source::Lines(input) => self.line_content(input),
            Source::Bytes(input) => self.byte_content(input),
        }
    }

    /// The blank line after every source but the last.
    pub open spec fn separator(&self, idx: int) -> Seq<char> {
        if idx + 1 < self.references() {
            "\n"@
        } else {
            Seq::empty()
        }
    }

    /// What the source of the reference at `idx` adds to the output sink.
    pub open spec fn section(&self, idx: int, source: Source) -> Seq<char> {
        self.heading(source) + self.content(source) + self.separator(idx)
    }

    /// What the source of the reference at `idx` adds to the error sink.
    pub open spec fn complaint(&self, idx: int, source: Source) -> Seq<char> {
        match source {
            Source::Unopened(reason) => open_error_of(
                self.program(),
                self.options().files@[idx]@,
                reason@,
            ),
            Source::Lines(input) => self.read_complaint(input),
            Source::Bytes(input) => self.read_complaint(input),
        }
    }

    /// What each source adds to the output sink.
    pub open spec fn sections(&self, sources: Seq<Source>) -> Seq<Seq<char>> {
        Seq::new(sources.len(), |i: int| self.section(i, sources[i]))
    }

    /// What each source adds to the error sink.
    pub open spec fn complaints(&self, sources: Seq<Source>) -> Seq<Seq<char>> {
        Seq::new(sources.len(), |i: int| self.complaint(i, sources[i]))
    }

    /// All that the run writes to the output sink.
    pub open spec fn output(&self, sources: Seq<Source>) -> Seq<char> {
        joined(self.sections(sources))
    }

    /// All that the run writes to the error sink.
    pub open spec fn diagnostics(&self, sources: Seq<Source>) -> Seq<char> {
        joined(self.complaints(sources))
    }

    /// A run of `options`, whose diagnostics begin with `program`.
    pub fn new(program: &'a str, options: &'a Options) -> (command: Self)
        ensures
            command.program() == program@,
            command.options() == *options,
    {
        Command { program, options }
    }

    /// The mode in which the sources are to be read.
    pub fn mode(&self) -> (mode: Mode)
        ensures
            mode == self.options().selection(),
    {
        self.options.mode()
    }

    /// Says whether a source answers the run.
    pub fn answers(&self, source: &Source) -> (accepted: bool)
        ensures
            accepted == self.accepts(*source),
    {
        match source {
            Source::Unopened(_) => true,
            Source::Lines(_) => self.options.bytes.is_none(),
            Source::Bytes(_) => self.options.bytes.is_some(),
        }
    }

    /// Says whether the sources answer the run.
    pub fn check(&self, sources: &Vec<Source>) -> (admitted: bool)
        ensures
            admitted == self.admits(sources@),
    {
        if sources.len() != self.options.files.len() {
            return false;
        }
        let mut idx: usize = 0;
        while idx < sources.len()
            invariant
                idx <= sources@.len(),
                sources@.len() == self.references(),
                forall|i: int| 0 <= i < idx ==> self.accepts(#[trigger] sources@[i]),
            decreases sources@.len() - idx,
        {
            if !self.answers(&sources[idx]) {
                return false;
            }
            idx = idx + 1;
        }
        true
    }

    /// Writes the selected lines of an opened input to `out`, or the reason
    /// why it gave no lines to `err`.
    pub fn write_lines(&self, input: Input<String>, out: &mut String, err: &mut String)
        ensures
            final(out)@ == old(out)@ + self.line_content(input),
            final(err)@ == old(err)@ + self.read_complaint(input),
    {
        match input.elements {
            Ok(elements) => {
                let lines = select(self.options.lines, elements);
                write_all(&lines, out);
            },
            Err(reason) => {
                let line = read_error(self.program, input.name.as_str(), reason.as_str());
                err.append(line.as_str());
            },
        }
    }

    /// Writes the selected bytes of an opened input to `out` as text, or the
    /// reason why it gave no bytes to `err`. Bytes that are no valid UTF-8
    /// are replaced as `String::from_utf8_lossy` replaces them.
    pub fn write_bytes(&self, input: Input<u8>, out: &mut String, err: &mut String)
        requires
            self.options().bytes is Some,
        ensures
            final(out)@ == old(out)@ + self.byte_content(input),
            final(err)@ == old(err)@ + self.read_complaint(input),
            valid_utf8(self.bytes_kept(input)) ==> final(out)@ == old(out)@ + decode_utf8(
                self.bytes_kept(input),
            ),
    {
        match input.elements {
            Ok(elements) => {
                match self.options.bytes {
                    Some(count) => {
                        let bytes = select(count, elements);
                        let text = decode_lossy(&bytes);
                        out.append(text.as_str());
                    },
                    None => {},
                }
            },
            Err(reason) => {
                let line = read_error(self.program, input.name.as_str(), reason.as_str());
                err.append(line.as_str());
            },
        }
    }

    /// Writes the header line of an opened source, in a run over more than
    /// one reference.
    fn write_header(&self, name: &str, out: &mut String)
        ensures
            final(out)@ == old(out)@ + (if self.references() > 1 {
                header_of(name@) + "\n"@
            } else {
                Seq::empty()
            }),
    {
        if self.options.files.len() > 1 {
            let header = format_header(name);
            out.append(header.as_str());
            out.append("\n");
        }
    }

    /// Writes what the source of the reference at `idx` adds to the two
    /// sinks: to `out` its header, its selected content and the blank line
    /// that parts it from the next source; to `err` the diagnostic, if it
    /// could not be opened or read.
    pub fn process(&self, idx: usize, source: Source, out: &mut String, err: &mut String)
        requires
            idx < self.references(),
            self.accepts(source),
        ensures
            final(out)@ == old(out)@ + self.section(idx as int, source),
            final(err)@ == old(err)@ + self.complaint(idx as int, source),
    {
        match source {
            Source::Unopened(reason) => {
                let line = open_error(
                    self.program,
                    self.options.files[idx].as_str(),
                    reason.as_str(),
                );
                err.append(line.as_str());
            },
            Source::Lines(input) => {
                self.write_header(input.name.as_str(), out);
                self.write_lines(input, out, err);
            },
            Source::Bytes(input) => {
                self.write_header(input.name.as_str(), out);
                self.write_bytes(input, out, err);
            },
        }
        if idx < self.options.files.len() - 1 {
            out.append("\n");
        }
    }

    /// Writes what the whole run adds to the two sinks, source by source in
    /// the order of the references.
    pub fn run(&self, sources: Vec<Source>, out: &mut String, err: &mut String)
        requires
            self.admits(sources@),
        ensures
            final(out)@ == old(out)@ + self.output(sources@),
            final(err)@ == old(err)@ + self.diagnostics(sources@),
    {
        let ghost all = sources@;
        let total: usize = sources.len();
        let mut idx: usize = 0;
        for source in it: sources
            invariant
                it.seq() == all,
                idx == it.index(),
                total == all.len(),
                self.admits(all),
                out@ == old(out)@ + joined(self.sections(all).take(idx as int)),
                err@ == old(err)@ + joined(self.complaints(all).take(idx as int)),
        {
            proof {
                let sections = self.sections(all);
                let complaints = self.complaints(all);
                assert(sections.take(idx + 1).drop_last() =~= sections.take(idx as int));
                assert(complaints.take(idx + 1).drop_last() =~= complaints.take(idx as int));
            }
            self.process(idx, source, out, err);
            idx = idx + 1;
        }
        proof {
            assert(self.sections(all).take(idx as int) =~= self.sections(all));
            assert(self.complaints(all).take(idx as int) =~= self.complaints(all));
        }
    }
}

/// What line mode writes of a source with `L` lines: under `Positive(n)`
/// its first `min(n, L)` lines, under `Negative(n)` its first
/// `max(L - n, 0)` lines, each line as it was read, line end included.
pub proof fn lemma_lines_written(command: Command, input: Input<String>, lines: Seq<String>)
    requires
        input.elements matches Ok(elements) && successes(elements@) == lines,
    ensures
        command.options().lines matches SignedUsize::Positive(n) ==> command.line_content(input)
            == joined(texts(lines.take(min(n as int, lines.len() as int)))),
        command.options().lines matches SignedUsize::Negative(n) ==> command.line_content(input)
            == joined(texts(lines.take(max(lines.len() - n, 0)))),
{
    lemma_selected_prefix(command.options().lines, lines);
}

/// What byte mode writes of a source with `B` bytes: under `Positive(n)`
/// the text of its first `min(n, B)` bytes, under `Negative(n)` the text of
/// its first `max(B - n, 0)` bytes.
pub proof fn lemma_bytes_written(command: Command, input: Input<u8>, bytes: Seq<u8>)
    requires
        input.elements matches Ok(elements) && successes(elements@) == bytes,
    ensures
        command.options().bytes matches Some(SignedUsize::Positive(n)) ==> command.byte_content(
            input,
        ) == lossy_text(bytes.take(min(n as int, bytes.len() as int))),
        command.options().bytes matches Some(SignedUsize::Negative(n)) ==> command.byte_content(
            input,
        ) == lossy_text(bytes.take(max(bytes.len() - n, 0))),
{
    if let Some(count) = command.options().bytes {
        lemma_selected_prefix(count, bytes);
    }
}

/// In a run over one reference nothing but the selected content of its
/// source is written to the output sink: no header and no blank line.
pub proof fn lemma_single_source(command: Command, sources: Seq<Source>)
    requires
        command.admits(sources),
        sources.len() == 1,
    ensures
        command.output(sources) == command.content(sources[0]),
{
    let sections = command.sections(sources);
    assert(joined(sections) =~= sections.last()) by {
        reveal_with_fuel(joined, 2);
    }
    assert(sections.last() =~= command.content(sources[0]));
}

/// The layout of the output sink: the sections of the sources follow each
/// other in the order of the references. A section begins with the header
/// line of its source exactly where more than one reference was given and
/// the source was opened, and ends with one blank line exactly where
/// another reference follows.
pub proof fn lemma_layout(command: Command, sources: Seq<Source>, idx: int)
    requires
        command.admits(sources),
        0 <= idx < sources.len(),
    ensures
        command.output(sources.take(idx + 1)) == command.output(sources.take(idx))
            + command.section(idx, sources[idx]),
        command.output(sources.take(sources.len() as int)) == command.output(sources),
        command.section(idx, sources[idx]) == (if sources.len() > 1 && sources[idx].is_opened() {
            header_of(sources[idx].name()) + "\n"@
        } else {
            Seq::<char>::empty()
        }) + command.content(sources[idx]) + (if idx + 1 < sources.len() {
            "\n"@
        } else {
            Seq::<char>::empty()
        }),
{
    let longer = command.sections(sources.take(idx + 1));
    assert(longer.drop_last() =~= command.sections(sources.take(idx)));
    assert(sources.take(sources.len() as int) =~= sources);
}

/// A source that cannot be opened costs the other sources nothing. Put in
/// the place of any source of a run, it changes the section and the
/// diagnostic of that place alone: the section shrinks to the blank line
/// that parts it from the next source, and the diagnostic says that the
/// reference could not be opened.
pub proof fn lemma_isolation(command: Command, sources: Seq<Source>, idx: int, reason: String)
    requires
        command.admits(sources),
        0 <= idx < sources.len(),
    ensures
        command.admits(sources.update(idx, Source::Unopened(reason))),
        command.sections(sources.update(idx, Source::Unopened(reason))) == command.sections(
            sources,
        ).update(idx, command.separator(idx)),
        command.complaints(sources.update(idx, Source::Unopened(reason))) == command.complaints(
            sources,
        ).update(
            idx,
            open_error_of(command.program(), command.options().files@[idx]@, reason@),
        ),
{
    let changed = sources.update(idx, Source::Unopened(reason));
    assert(command.sections(changed) =~= command.sections(sources).update(
        idx,
        command.separator(idx),
    ));
    assert(command.complaints(changed) =~= command.complaints(sources).update(
        idx,
        open_error_of(command.program(), command.options().files@[idx]@, reason@),
    ));
}

} // verus!
