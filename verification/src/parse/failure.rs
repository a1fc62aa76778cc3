//! What the syntax stage reports when it cannot parse a file, and the
//! diagnostic that is made of it.

use nom::error::{convert_error, ErrorKind, VerboseError, VerboseErrorKind};
use vstd::prelude::*;
use vstd::string::StringSliceAdditionalSpecFns;
use vstd::utf8::is_char_boundary;

verus! {

/// The kind of failure that one of the basic parsers of the parser crate
/// reports, `nom::error::ErrorKind`. The library carries such a value from
/// the syntax stage to the diagnostic and claims nothing of it.
#[verifier::external_type_specification]
#[verifier::external_body]
pub struct ExErrorKind(ErrorKind);

/// What the syntax stage expected at a position of a text that it rejected.
#[derive(Debug, PartialEq)]
pub enum Expected {
    /// A construct of the language, by its name.
    Context(&'static str),
    /// A character.
    Char(char),
    /// What one of the basic parsers accepts.
    Parser(ErrorKind),
}

/// Why a file could not be parsed.
#[derive(Debug, PartialEq)]
pub enum SyntaxFailure {
    /// The text is not in the language. Each entry gives a position in the
    /// text, in bytes from its start, and what was expected there.
    Rejected(Vec<(usize, Expected)>),
    /// The text ends too early: by so many bytes, where that is known.
    Incomplete(Option<usize>),
}

/// The character of the digit `d`.
pub open spec fn digit(d: nat) -> char {
    if d == 0 {
        '0'
    } else if d == 1 {
        '1'
    } else if d == 2 {
        '2'
    } else if d == 3 {
        '3'
    } else if d == 4 {
        '4'
    } else if d == 5 {
        '5'
    } else if d == 6 {
        '6'
    } else if d == 7 {
        '7'
    } else if d == 8 {
        '8'
    } else {
        '9'
    }
}

/// The number `n` in decimal digits, without leading zeros.
pub open spec fn decimal(n: nat) -> Seq<char>
    decreases n,
{
    if n < 10 {
        seq![digit(n)]
    } else {
        decimal(n / 10).push(digit(n % 10))
    }
}

/// The sentence for a text that ends too early.
pub open spec fn incomplete_text(missing: Option<usize>) -> Seq<char> {
    match missing {
        Some(n) => "Needs "@ + decimal(n as nat) + " more bytes of data"@,
        None => "Needs unknown number of bytes"@,
    }
}

/// The widest column at which the parser crate can set its caret: the
/// column of a position is one more than its distance from the start of its
/// line, and the width of the caret's field must fit in 16 bits.
pub const WIDEST_COLUMN: usize = 65535;

/// Where the line that holds `position` begins: behind the last line feed
/// before the position, or at the start of the text.
pub open spec fn line_start(bytes: Seq<u8>, position: int) -> int
    decreases position,
{
    if position <= 0 {
        0
    } else if bytes[position - 1] == 10u8 {
        position
    } else {
        line_start(bytes, position - 1)
    }
}

/// Whether `position` lies in `text` where a character begins, or at its
/// end, and no further from the start of its line than a caret can be set.
pub open spec fn within(text: &str, position: usize) -> bool {
    &&& position <= text.spec_bytes().len()
    &&& is_char_boundary(text.spec_bytes(), position as int)
    &&& position - line_start(text.spec_bytes(), position as int) < WIDEST_COLUMN
}

/// Whether every position of `trace` lies in `text` where a character
/// begins, or at its end, and no further from the start of its line than a
/// caret can be set.
pub open spec fn all_within(text: &str, trace: Seq<(usize, Expected)>) -> bool {
    forall|i: int| 0 <= i < trace.len() ==> within(text, (#[trigger] trace[i]).0)
}

/// Whether there is a diagnostic for `failure` as a failure to parse
/// `text`: the trace of a rejected text can be rendered over it.
pub open spec fn fits(text: &str, failure: SyntaxFailure) -> bool {
    match failure {
        SyntaxFailure::Rejected(trace) => all_within(text, trace@),
        SyntaxFailure::Incomplete(_) => true,
    }
}

/// What `nom::error::convert_error` makes of a text and a trace over it.
pub uninterp spec fn rendered(text: Seq<char>, trace: Seq<(usize, Expected)>) -> Seq<char>;

/// The digit `d` as a string.
fn digit_str(d: usize) -> (r: &'static str)
    requires
        d < 10,
    ensures
        r@ == seq![digit(d as nat)],
{
    proof {
        reveal_strlit("0");
        reveal_strlit("1");
        reveal_strlit("2");
        reveal_strlit("3");
        reveal_strlit("4");
        reveal_strlit("5");
        reveal_strlit("6");
        reveal_strlit("7");
        reveal_strlit("8");
        reveal_strlit("9");
    }
    let r = if d == 0 {
        "0"
    } else if d == 1 {
        "1"
    } else if d == 2 {
        "2"
    } else if d == 3 {
        "3"
    } else if d == 4 {
        "4"
    } else if d == 5 {
        "5"
    } else if d == 6 {
        "6"
    } else if d == 7 {
        "7"
    } else if d == 8 {
        "8"
    } else {
        "9"
    };
    r
}

/// The number `n` in decimal digits.
pub fn decimal_string(n: usize) -> (r: String)
    ensures
        r@ == decimal(n as nat),
    decreases n,
{
    if n < 10 {
        digit_str(n).to_owned()
    } else {
        decimal_string(n / 10).concat(digit_str(n % 10))
    }
}

/// The sentence for a text that ends too early.
pub fn incomplete(missing: Option<usize>) -> (r: String)
    ensures
        r@ == incomplete_text(missing),
{
    match missing {
        Some(n) => "Needs ".to_owned().concat(decimal_string(n).as_str()).concat(
            " more bytes of data",
        ),
        None => "Needs unknown number of bytes".to_owned(),
    }
}

/// Whether `position` lies in `text` where a character begins, or at its
/// end, and no further from the start of its line than a caret can be set.
pub fn position_fits(text: &str, position: usize) -> (r: bool)
    ensures
        r == within(text, position),
{
    let bytes = text.as_bytes();
    if position > bytes.len() || !text.is_char_boundary(position) {
        return false;
    }
    let mut start = position;
    while start > 0 && bytes[start - 1] != 10u8 && position - start < WIDEST_COLUMN
        invariant
            0 <= start <= position <= bytes@.len(),
            bytes@ == text.spec_bytes(),
            position - start <= WIDEST_COLUMN,
            line_start(bytes@, start as int) == line_start(bytes@, position as int),
            forall|k: int| start <= k < position ==> bytes@[k] != 10u8,
        decreases start,
    {
        start -= 1;
    }
    proof {
        lemma_line_start(bytes@, position as int, start as int);
    }
    position - start < WIDEST_COLUMN
}

/// The line of a position begins no later than the position, and behind
/// every stretch without line feed that ends at the position.
pub proof fn lemma_line_start(bytes: Seq<u8>, position: int, from: int)
    requires
        0 <= from <= position <= bytes.len(),
        forall|k: int| from <= k < position ==> bytes[k] != 10u8,
    ensures
        line_start(bytes, position) == line_start(bytes, from),
        0 <= line_start(bytes, from) <= from,
    decreases position,
{
    if from < position {
        lemma_line_start(bytes, position - 1, from);
    } else if from > 0 && bytes[from - 1] != 10u8 {
        lemma_line_start(bytes, from - 1, from - 1);
    }
}

/// Whether every position of `trace` lies in `text` where a character
/// begins, or at its end, and no further from the start of its line than a
/// caret can be set.
pub fn positions_fit(text: &str, trace: &Vec<(usize, Expected)>) -> (r: bool)
    ensures
        r == all_within(text, trace@),
{
    let mut i: usize = 0;
    while i < trace.len()
        invariant
            0 <= i <= trace@.len(),
            forall|j: int| 0 <= j < i ==> within(text, (#[trigger] trace@[j]).0),
        decreases trace@.len() - i,
    {
        if !position_fits(text, trace[i].0) {
            return false;
        }
        i += 1;
    }
    true
}

/// Renders a trace with `nom::error::convert_error`: for each entry, the
/// line of the text that holds the position, a caret under the position,
/// and what was expected there. The parser crate finds the line by cutting
/// the text at the position, and sets the caret in a field as wide as the
/// column of the position. So every position must lie in the text where a
/// character begins, or at its end, and its column must fit in 16 bits. The
/// rendered text depends on the text and the trace alone; it is known by
/// its name only.
#[verifier::external_body]
fn render(text: &str, trace: Vec<(usize, Expected)>) -> (r: String)
    requires
        all_within(text, trace@),
    ensures
        r@ == rendered(text@, trace@),
{
    let errors = trace.into_iter().map(|(position, expected)| (&text[position..], match expected {
        Expected::Context(s) => VerboseErrorKind::Context(s),
        Expected::Char(c) => VerboseErrorKind::Char(c),
        Expected::Parser(k) => VerboseErrorKind::Nom(k),
    })).collect();
    convert_error(text, VerboseError { errors })
}

/// The text of the diagnostic for a failure to parse `text`.
pub open spec fn diagnosis(text: &str, failure: SyntaxFailure) -> Seq<char> {
    match failure {
        SyntaxFailure::Rejected(trace) => rendered(text@, trace@),
        SyntaxFailure::Incomplete(missing) => incomplete_text(missing),
    }
}

/// The diagnostic for a failure to parse `text`: the rendered trace of a
/// rejected text, or a sentence for a text that ends too early. There is
/// none for a trace that cannot be rendered over the text: one with a
/// position outside the text or inside a character, which is a trace of
/// another text, or with a position too far from the start of its line.
pub fn diagnose(text: &str, failure: SyntaxFailure) -> (r: Option<String>)
    ensures
        r is Some <==> fits(text, failure),
        r matches Some(s) ==> s@ == diagnosis(text, failure),
{
    match failure {
        SyntaxFailure::Rejected(trace) => {
            if positions_fit(text, &trace) {
                Some(render(text, trace))
            } else {
                None
            }
        },
        SyntaxFailure::Incomplete(missing) => Some(incomplete(missing)),
    }
}

} // verus!
