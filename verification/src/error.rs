//! Errors, their kinds and their messages.
//!
//! Every failure is reported as a value that carries what was wrong: the size
//! that did not fit, the token that is no number, the level that does not
//! exist. Nothing is built when a call fails.

use vstd::prelude::*;
use vstd::string::*;

verus! {

#[verifier::external_type_specification]
#[verifier::external_body]
pub struct ExImageError(image::ImageError);

/// The three ways in which input can be wrong.
#[derive(Clone, Copy, Debug, PartialEq, Eq, Structural)]
pub enum ErrorKind {
    /// The payload is not written in the encoding it claims.
    Format,
    /// The data is well written but does not have the size of a field.
    Shape,
    /// A control value selects nothing.
    Parameter,
}

/// Why an image tile could not be decoded.
#[derive(Debug)]
pub enum PngError {
    /// The payload is no image that can be read; carries the decoder's report.
    Undecodable(image::ImageError),
    /// The image is not as large as an elevation field; carries its size.
    ImageSize { width: u32, height: u32 },
}

/// Why a text tile could not be decoded.
#[derive(Clone, Debug, PartialEq, Eq)]
pub enum TextError {
    /// A token is neither the no-data mark nor a number; carries the token.
    InvalidToken(String),
    /// The text does not hold one value per grid cell; carries the number of
    /// values it holds.
    ValueCount(usize),
}

/// Why a mesh could not be built.
#[derive(Clone, Copy, Debug, PartialEq, Eq, Structural)]
pub enum MeshError {
    /// The elevation field does not hold one sample per grid cell; carries the
    /// number of samples that were passed.
    FieldLength(usize),
    /// The level code selects no level of detail; carries the code.
    LodLevel(u8),
}

/// The character for a decimal digit.
pub open spec fn digit(d: int) -> char {
    if d == 0 {
        '0'
    } else if d == 1 {
        '1'
    } else if d == 2 {
        '2'
    } else if d == 3 {
        '3'
    } else if d == 4 {
        '4'
    } else if d == 5 {
        '5'
    } else if d == 6 {
        '6'
    } else if d == 7 {
        '7'
    } else if d == 8 {
        '8'
    } else {
        '9'
    }
}

/// A number written in decimal, without sign or leading zeros.
pub open spec fn decimal(n: nat) -> Seq<char>
    decreases n,
{
    if n < 10 {
        seq![digit(n as int)]
    } else {
        decimal(n / 10).push(digit((n % 10) as int))
    }
}

/// `text` begins with `prefix`.
pub open spec fn starts_with(text: Seq<char>, prefix: Seq<char>) -> bool {
    prefix.len() <= text.len() && text.subrange(0, prefix.len() as int) == prefix
}

/// Appends one character to a string, with `String::push`.
#[verifier::external_body]
pub(crate) fn push_char(text: &mut String, c: char)
    ensures
        final(text)@ == old(text)@.push(c),
{
    text.push(c);
}

/// Writes an image decoder's report out as text, through its `Display`.
/// Nothing is claimed about the text.
#[verifier::external_body]
fn report_text(report: &image::ImageError) -> (text: String) {
    format!("{}", report)
}

fn digit_char(d: u64) -> (c: char)
    requires
        d < 10,
    ensures
        c == digit(d as int),
{
    match d {
        0 => '0',
        1 => '1',
        2 => '2',
        3 => '3',
        4 => '4',
        5 => '5',
        6 => '6',
        7 => '7',
        8 => '8',
        _ => '9',
    }
}

/// Appends a number, in decimal, to a string.
fn push_decimal(text: &mut String, n: u64)
    ensures
        final(text)@ == old(text)@ + decimal(n as nat),
    decreases n,
{
    if n >= 10 {
        push_decimal(text, n / 10);
    }
    push_char(text, digit_char(n % 10));
    assert(text@ == old(text)@ + decimal(n as nat));
}

impl PngError {
    /// The kind of this error.
    pub open spec fn spec_kind(self) -> ErrorKind {
        match self {
            PngError::Undecodable(_) => ErrorKind::Format,
            PngError::ImageSize { .. } => ErrorKind::Shape,
        }
    }

    /// The kind of this error.
    pub fn kind(&self) -> (kind: ErrorKind)
        ensures
            kind == self.spec_kind(),
    {
        match self {
            PngError::Undecodable(_) => ErrorKind::Format,
            PngError::ImageSize { .. } => ErrorKind::Shape,
        }
    }

    /// A message that names what was wrong.
    pub fn message(&self) -> (text: String)
        ensures
            match self {
                PngError::Undecodable(_) => starts_with(text@, "Failed to decode PNG: "@),
                PngError::ImageSize { width, height } => text@ == "Invalid image size: "@ + decimal(
                    *width as nat,
                ) + "x"@ + decimal(*height as nat) + ", expected 256x256"@,
            },
    {
        match self {
            PngError::Undecodable(report) => {
                let mut text: String = String::from_str("Failed to decode PNG: ");
                let detail: String = report_text(report);
                text.append(detail.as_str());
                assert(text@.subrange(0, "Failed to decode PNG: "@.len() as int)
                    == "Failed to decode PNG: "@);
                text
            },
            PngError::ImageSize { width, height } => {
                let mut text: String = String::from_str("Invalid image size: ");
                push_decimal(&mut text, *width as u64);
                text.append("x");
                push_decimal(&mut text, *height as u64);
                text.append(", expected 256x256");
                text
            },
        }
    }
}

impl TextError {
    /// The kind of this error.
    pub open spec fn spec_kind(self) -> ErrorKind {
        match self {
            TextError::InvalidToken(_) => ErrorKind::Format,
            TextError::ValueCount(_) => ErrorKind::Shape,
        }
    }

    /// The kind of this error.
    pub fn kind(&self) -> (kind: ErrorKind)
        ensures
            kind == self.spec_kind(),
    {
        match self {
            TextError::InvalidToken(_) => ErrorKind::Format,
            TextError::ValueCount(_) => ErrorKind::Shape,
        }
    }

    /// A message that names what was wrong.
    pub fn message(&self) -> (text: String)
        ensures
            match self {
                TextError::InvalidToken(token) => text@ == "Failed to parse elevation value: "@
                    + token@,
                TextError::ValueCount(found) => text@ == "Invalid number of elevation values: "@
                    + decimal(*found as nat) + ", expected 65536"@,
            },
    {
        match self {
            TextError::InvalidToken(token) => {
                let mut text: String = String::from_str("Failed to parse elevation value: ");
                text.append(token.as_str());
                text
            },
            TextError::ValueCount(found) => {
                let mut text: String = String::from_str("Invalid number of elevation values: ");
                push_decimal(&mut text, *found as u64);
                text.append(", expected 65536");
                text
            },
        }
    }
}

impl MeshError {
    /// The kind of this error.
    pub open spec fn spec_kind(self) -> ErrorKind {
        match self {
            MeshError::FieldLength(_) => ErrorKind::Shape,
            MeshError::LodLevel(_) => ErrorKind::Parameter,
        }
    }

    /// The kind of this error.
    pub fn kind(&self) -> (kind: ErrorKind)
        ensures
            kind == self.spec_kind(),
    {
        match self {
            MeshError::FieldLength(_) => ErrorKind::Shape,
            MeshError::LodLevel(_) => ErrorKind::Parameter,
        }
    }

    /// A message that names what was wrong.
    pub fn message(&self) -> (text: String)
        ensures
            match self {
                MeshError::FieldLength(found) => text@ == "Invalid elevation array length: "@
                    + decimal(*found as nat) + ", expected 65536"@,
                MeshError::LodLevel(level) => text@ == "Invalid LOD level "@ + decimal(
                    *level as nat,
                ) + " (0-2)"@,
            },
    {
        match self {
            MeshError::FieldLength(found) => {
                let mut text: String = String::from_str("Invalid elevation array length: ");
                push_decimal(&mut text, *found as u64);
                text.append(", expected 65536");
                text
            },
            MeshError::LodLevel(level) => {
                let mut text: String = String::from_str("Invalid LOD level ");
                push_decimal(&mut text, *level as u64);
                text.append(" (0-2)");
                text
            },
        }
    }
}

} // verus!
