//! The configuration of a run and the syntax of its counts.

use vstd::prelude::*;
use vstd::string::*;
use vstd::utf8::*;

verus! {

/// A count with a polarity.
///
/// `Positive(n)` selects the first `n` elements of a sequence,
/// `Negative(n)` selects all elements but the last `n`.
/// A count that was parsed is never zero: see [`SignedUsize::wf`].
#[derive(Clone, Copy, Debug, PartialEq, Eq, Structural)]
pub enum SignedUsize {
    Positive(usize),
    Negative(usize),
}

impl SignedUsize {
    /// The number that the count carries, whatever its polarity.
    pub open spec fn magnitude(self) -> nat {
        match self {
            SignedUsize::Positive(n) => n as nat,
            SignedUsize::Negative(n) => n as nat,
        }
    }

    /// A count is well formed when its magnitude is not zero.
    pub open spec fn wf(self) -> bool {
        self.magnitude() > 0
    }

    /// The count of the first `n` elements, unless `n` is zero.
    pub fn positive(n: usize) -> (count: Option<Self>)
        ensures
            count == (if n > 0 {
                Some(SignedUsize::Positive(n))
            } else {
                None
            }),
            count matches Some(made) ==> made.wf(),
    {
        if n > 0 {
            Some(SignedUsize::Positive(n))
        } else {
            None
        }
    }

    /// The count of all elements but the last `n`, unless `n` is zero.
    pub fn negative(n: usize) -> (count: Option<Self>)
        ensures
            count == (if n > 0 {
                Some(SignedUsize::Negative(n))
            } else {
                None
            }),
            count matches Some(made) ==> made.wf(),
    {
        if n > 0 {
            Some(SignedUsize::Negative(n))
        } else {
            None
        }
    }
}

/// How the elements of a source are counted, and how many are kept.
#[derive(Clone, Copy, Debug, PartialEq, Eq, Structural)]
pub enum Mode {
    /// The source is read as lines.
    Lines(SignedUsize),
    /// The source is read as bytes.
    Bytes(SignedUsize),
}

/// The configuration of a run.
#[derive(Debug)]
pub struct Options {
    /// The source references in the order given: `-` for standard input,
    /// else a path.
    pub files: Vec<String>,
    /// The line count, used unless a byte count is given.
    pub lines: SignedUsize,
    /// The byte count. Where it is given, sources are read as bytes.
    pub bytes: Option<SignedUsize>,
}

impl Options {
    /// The options are well formed when there is a source and no count is
    /// zero.
    pub open spec fn wf(&self) -> bool {
        &&& self.files@.len() > 0
        &&& self.lines.wf()
        &&& self.bytes matches Some(count) ==> count.wf()
    }

    /// The mode that the options select: bytes where a byte count is given,
    /// lines otherwise.
    pub open spec fn selection(&self) -> Mode {
        match self.bytes {
            Some(count) => Mode::Bytes(count),
            None => Mode::Lines(self.lines),
        }
    }

    /// The mode that the options select.
    pub fn mode(&self) -> (mode: Mode)
        ensures
            mode == self.selection(),
    {
        match self.bytes {
            Some(count) => Mode::Bytes(count),
            None => Mode::Lines(self.lines),
        }
    }
}

impl Default for Options {
    /// The options of a run without arguments: the first ten lines of
    /// standard input.
    fn default() -> (options: Self)
        ensures
            options.files@.len() == 1,
            options.files@[0]@ == "-"@,
            options.lines == SignedUsize::Positive(10),
            options.bytes is None,
            options.wf(),
    {
        let mut files: Vec<String> = Vec::new();
        files.push(String::from_str("-"));
        Options { files, lines: SignedUsize::Positive(10), bytes: None }
    }
}

/// The one error of count parsing: the text is no nonzero decimal number
/// that fits the machine word.
#[derive(Clone, Copy, Debug, PartialEq, Eq, Structural)]
pub struct InvalidCount;

impl InvalidCount {
    /// The text shown to the user for a rejected count.
    pub fn message(&self) -> (text: String)
        ensures
            text@ == "invalid zero-value"@,
    {
        String::from_str("invalid zero-value")
    }
}

/// True of the ten decimal digits.
pub open spec fn is_digit(c: char) -> bool {
    '0' <= c <= '9'
}

/// True of a sequence made of decimal digits only (the empty one included).
pub open spec fn all_digits(text: Seq<char>) -> bool {
    forall|i: int| 0 <= i < text.len() ==> is_digit(#[trigger] text[i])
}

/// The value of a decimal digit, from 0 for `'0'` to 9 for `'9'`.
pub open spec fn digit_value(c: char) -> nat {
    if is_digit(c) {
        (c as int - '0' as int) as nat
    } else {
        0
    }
}

/// The number that a sequence of decimal digits denotes, most significant
/// digit first. The empty sequence denotes zero.
pub open spec fn decimal(digits: Seq<char>) -> nat
    decreases digits.len(),
{
    if digits.len() == 0 {
        0
    } else {
        10 * decimal(digits.drop_last()) + digit_value(digits.last())
    }
}

/// The digits of an unsigned number: the text without one leading `+`.
pub open spec fn unsigned_digits(text: Seq<char>) -> Seq<char> {
    if text.len() > 0 && text[0] == '+' {
        text.skip(1)
    } else {
        text
    }
}

/// The number that a text denotes as an unsigned decimal: an optional `+`,
/// then at least one digit and nothing else.
pub open spec fn unsigned_of(text: Seq<char>) -> Option<nat> {
    let digits = unsigned_digits(text);
    if digits.len() > 0 && all_digits(digits) {
        Some(decimal(digits))
    } else {
        None
    }
}

/// True when the text begins with the sign of a negative count.
pub open spec fn has_minus(text: Seq<char>) -> bool {
    text.len() > 0 && text[0] == '-'
}

/// The count that a text denotes, if it denotes one.
///
/// One leading `-` gives the negative polarity. What follows it must be an
/// unsigned decimal number that is not zero and fits in `usize`.
pub open spec fn count_of(text: Seq<char>) -> Option<SignedUsize> {
    let rest = if has_minus(text) { text.skip(1) } else { text };
    match unsigned_of(rest) {
        Some(n) => if 0 < n <= usize::MAX {
            if has_minus(text) {
                Some(SignedUsize::Negative(n as usize))
            } else {
                Some(SignedUsize::Positive(n as usize))
            }
        } else {
            None
        },
        None => None,
    }
}

/// A longer prefix of a digit sequence denotes no smaller number.
proof fn lemma_decimal_prefix(digits: Seq<char>, k: int)
    requires
        0 <= k <= digits.len(),
    ensures
        decimal(digits.take(k)) <= decimal(digits),
    decreases digits.len() - k,
{
    if k < digits.len() {
        lemma_decimal_prefix(digits, k + 1);
        assert(digits.take(k + 1).drop_last() =~= digits.take(k));
    } else {
        assert(digits.take(k) =~= digits);
    }
}

/// Reads the digits of `bytes` from `start` on, as the number they denote.
///
/// `None` comes back when there is no digit at all, when a byte is no
/// digit, or when the number does not fit in `usize`.
fn parse_digits(bytes: &[u8], start: usize, Ghost(text): Ghost<Seq<char>>) -> (parsed: Option<usize>)
    requires
        start <= bytes@.len(),
        is_ascii_chars(text),
        bytes@.len() == text.len(),
        forall|i: int| 0 <= i < text.len() ==> #[trigger] text[i] as u8 == bytes@[i],
    ensures
        parsed == (if text.skip(start as int).len() > 0 && all_digits(text.skip(start as int))
            && decimal(text.skip(start as int)) <= usize::MAX {
            Some(decimal(text.skip(start as int)) as usize)
        } else {
            None
        }),
{
    let ghost digits = text.skip(start as int);
    if start == bytes.len() {
        return None;
    }
    let mut value: usize = 0;
    let mut pos: usize = start;
    while pos < bytes.len()
        invariant
            start <= pos <= bytes@.len(),
            is_ascii_chars(text),
            bytes@.len() == text.len(),
            digits == text.skip(start as int),
            forall|i: int| 0 <= i < text.len() ==> #[trigger] text[i] as u8 == bytes@[i],
            all_digits(digits.take(pos - start)),
            value == decimal(digits.take(pos - start)),
        decreases bytes@.len() - pos,
    {
        let byte: u8 = bytes[pos];
        let ghost c = text[pos as int];
        assert(c == digits[pos - start]);
        assert(c as int == byte as int);
        if byte < 48 || byte > 57 {
            assert(!is_digit(digits[pos - start]));
            return None;
        }
        let digit: usize = (byte - 48) as usize;
        proof {
            assert(digits.take(pos - start + 1).drop_last() =~= digits.take(pos - start));
            assert(digits.take(pos - start + 1).last() == c);
            assert(digit_value(c) == digit);
            assert(decimal(digits.take(pos - start + 1)) == 10 * value + digit);
            lemma_decimal_prefix(digits, pos - start + 1);
        }
        let next: Option<usize> = match value.checked_mul(10) {
            Some(tens) => tens.checked_add(digit),
            None => None,
        };
        match next {
            Some(n) => {
                value = n;
            },
            None => {
                return None;
            },
        }
        proof {
            assert forall|i: int| 0 <= i < digits.take(pos - start + 1).len() implies is_digit(
                #[trigger] digits.take(pos - start + 1)[i],
            ) by {
                if i < pos - start {
                    assert(digits.take(pos - start)[i] == digits.take(pos - start + 1)[i]);
                }
            }
        }
        pos = pos + 1;
    }
    proof {
        assert(digits.take(pos - start) =~= digits);
    }
    Some(value)
}

/// Parses a count: an optional `-`, then an unsigned decimal number.
///
/// Succeeds exactly on the texts that [`count_of`] gives a count, with that
/// count; every other text is an [`InvalidCount`]. A count that comes back is
/// well formed.
pub fn parse_signed_usize(maybe_num: &str) -> (parsed: Result<SignedUsize, InvalidCount>)
    ensures
        parsed == (match count_of(maybe_num@) {
            Some(count) => Ok::<SignedUsize, InvalidCount>(count),
            None => Err::<SignedUsize, InvalidCount>(InvalidCount),
        }),
        parsed matches Ok(count) ==> count.wf(),
{
    let ghost text = maybe_num@;
    if !maybe_num.is_ascii() {
        proof {
            lemma_count_is_ascii(text);
        }
        return Err(InvalidCount);
    }
    let bytes = maybe_num.as_bytes();
    proof {
        is_ascii_chars_encode_utf8(text);
    }
    let negative: bool = bytes.len() > 0 && bytes[0] == 45;
    assert(negative == has_minus(text));
    let after_minus: usize = if negative { 1 } else { 0 };
    let plus: bool = bytes.len() > after_minus && bytes[after_minus] == 43;
    let start: usize = if plus { after_minus + 1 } else { after_minus };
    let ghost rest = text.skip(after_minus as int);
    proof {
        assert(rest =~= (if has_minus(text) { text.skip(1) } else { text }));
        assert(plus == (rest.len() > 0 && rest[0] == '+'));
        assert(unsigned_digits(rest) =~= text.skip(start as int));
    }
    match parse_digits(bytes, start, Ghost(text)) {
        Some(n) => {
            if n == 0 {
                Err(InvalidCount)
            } else if negative {
                Ok(SignedUsize::Negative(n))
            } else {
                Ok(SignedUsize::Positive(n))
            }
        },
        None => Err(InvalidCount),
    }
}

/// A text that denotes a count is made of ASCII characters only.
proof fn lemma_count_is_ascii(text: Seq<char>)
    requires
        !is_ascii_chars(text),
    ensures
        count_of(text) is None,
{
    let k = choose|k: int| 0 <= k < text.len() && !('\0' <= #[trigger] text[k] <= '\u{7f}');
    let rest = if has_minus(text) { text.skip(1) } else { text };
    let digits = unsigned_digits(rest);
    let shift = text.len() - digits.len();
    assert(k >= shift);
    assert(digits[k - shift] == text[k]);
    assert(!is_digit(digits[k - shift]));
}

} // verus!
