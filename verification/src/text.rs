//! The text that a run writes: headers, diagnostics and decoded content.

use vstd::prelude::*;
use vstd::string::*;
use vstd::utf8::*;

verus! {

/// The header of a source: its name between two arrows.
pub open spec fn header_of(name: Seq<char>) -> Seq<char> {
    "==> "@ + name + " <=="@
}

/// The line that reports a source reference that could not be opened.
pub open spec fn open_error_of(
    program: Seq<char>,
    reference: Seq<char>,
    reason: Seq<char>,
) -> Seq<char> {
    program + ": cannot open '"@ + reference + "' for reading: "@ + reason + "\n"@
}

/// The line that reports an opened source that could not be read.
pub open spec fn read_error_of(program: Seq<char>, name: Seq<char>, reason: Seq<char>) -> Seq<
    char,
> {
    program + ": error reading '"@ + name + "': "@ + reason + "\n"@
}

/// The parts one after the other, as one text.
pub open spec fn joined(parts: Seq<Seq<char>>) -> Seq<char>
    decreases parts.len(),
{
    if parts.len() == 0 {
        Seq::empty()
    } else {
        joined(parts.drop_last()) + parts.last()
    }
}

/// The text of each line.
pub open spec fn texts(lines: Seq<String>) -> Seq<Seq<char>> {
    lines.map_values(|line: String| line@)
}

/// The text that `String::from_utf8_lossy` makes of `bytes`.
pub uninterp spec fn lossy_text(bytes: Seq<u8>) -> Seq<char>;

/// Decodes bytes as text with `String::from_utf8_lossy`.
///
/// Not proved: the result is a function of the bytes alone, named
/// [`lossy_text`]; where the bytes are valid UTF-8 it is the text that they
/// encode. Elsewhere the standard library puts U+FFFD in place of each
/// invalid sequence, which this contract does not spell out.
#[verifier::external_body]
pub(crate) fn decode_lossy(bytes: &Vec<u8>) -> (text: String)
    ensures
        text@ == lossy_text(bytes@),
        valid_utf8(bytes@) ==> text@ == decode_utf8(bytes@),
{
    String::from_utf8_lossy(bytes).into_owned()
}

/// Appends the text of each line to `out`, in order.
pub fn write_all(lines: &Vec<String>, out: &mut String)
    ensures
        final(out)@ == old(out)@ + joined(texts(lines@)),
{
    let mut done: usize = 0;
    while done < lines.len()
        invariant
            done <= lines@.len(),
            out@ == old(out)@ + joined(texts(lines@.take(done as int))),
        decreases lines@.len() - done,
    {
        proof {
            let next = texts(lines@.take(done + 1));
            assert(next.drop_last() =~= texts(lines@.take(done as int)));
            assert(next.last() == lines@[done as int]@);
        }
        out.append(lines[done].as_str());
        done = done + 1;
    }
    proof {
        assert(lines@.take(done as int) =~= lines@);
    }
}

/// The diagnostic line for a source reference that could not be opened.
pub fn open_error(program: &str, reference: &str, reason: &str) -> (line: String)
    ensures
        line@ == open_error_of(program@, reference@, reason@),
{
    let mut line = String::from_str(program);
    line.append(": cannot open '");
    line.append(reference);
    line.append("' for reading: ");
    line.append(reason);
    line.append("\n");
    line
}

/// The diagnostic line for an opened source that could not be read.
pub fn read_error(program: &str, name: &str, reason: &str) -> (line: String)
    ensures
        line@ == read_error_of(program@, name@, reason@),
{
    let mut line = String::from_str(program);
    line.append(": error reading '");
    line.append(name);
    line.append("': ");
    line.append(reason);
    line.append("\n");
    line
}

} // verus!
