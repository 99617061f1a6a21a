//! The errors that reading and checking a level can report.

use vstd::prelude::*;
use vstd::string::StringExecFns;
use crate::text::{decimal, push_decimal};

verus! {

/// Why a level could not be read, or what is wrong with it. Lines and
/// columns count from one.
#[derive(Clone, Copy, Debug, PartialEq, Eq, Structural)]
pub enum LevelError {
    /// The text could not be read from or written to its file.
    Io,
    /// The text holds no line to read.
    EmptyInput,
    /// The first line does not give a width and a height.
    MalformedHeader,
    /// Fewer rows follow than were announced, or no tile layer is present.
    MissingData,
    /// A count differs from the one it must equal; `line` is the line, or the
    /// layer, at which it does.
    ShapeMismatch { expected: u64, got: u64, line: u64 },
    /// The entry at `line`, `col` is not a number.
    NumberParse { line: u64, col: u64 },
    /// The character `ch` at `line`, `col` stands for no tile.
    UnknownSymbol { ch: char, line: u64, col: u64 },
    /// The cell `(gx, gy)` lies outside the level.
    OutOfBounds { gx: u32, gy: u32 },
    /// The tile `tile_id` is classified both as solid and as platform.
    ClassificationConflict { tile_id: u32 },
}

impl LevelError {
    /// The sentence that describes this error.
    pub open spec fn message_text(self) -> Seq<char> {
        match self {
            LevelError::Io => "I/O error"@,
            LevelError::EmptyInput => "Empty level file"@,
            LevelError::MalformedHeader => "Malformed level header"@,
            LevelError::MissingData => "Insufficient tile data"@,
            LevelError::ShapeMismatch { expected, got, line } => "Line "@ + decimal(line as nat)
                + ": expected "@ + decimal(expected as nat) + ", got "@ + decimal(got as nat),
            LevelError::NumberParse { line, col } => "Invalid number at line "@ + decimal(
                line as nat,
            ) + ", column "@ + decimal(col as nat),
            LevelError::UnknownSymbol { ch, line, col } => "Unknown symbol '"@.push(ch)
                + "' at line "@ + decimal(line as nat) + ", column "@ + decimal(col as nat),
            LevelError::OutOfBounds { gx, gy } => "Cell ("@ + decimal(gx as nat) + ", "@
                + decimal(gy as nat) + ") is out of bounds"@,
            LevelError::ClassificationConflict { tile_id } => "Tile "@ + decimal(tile_id as nat)
                + " is both solid and platform"@,
        }
    }

    /// The sentence that describes this error.
    pub fn message(&self) -> (text: String)
        ensures
            text@ == self.message_text(),
    {
        match *self {
            LevelError::Io => "I/O error".to_owned(),
            LevelError::EmptyInput => "Empty level file".to_owned(),
            LevelError::MalformedHeader => "Malformed level header".to_owned(),
            LevelError::MissingData => "Insufficient tile data".to_owned(),
            LevelError::ShapeMismatch { expected, got, line } => {
                let mut text = "Line ".to_owned();
                push_decimal(&mut text, line);
                text.append(": expected ");
                push_decimal(&mut text, expected);
                text.append(", got ");
                push_decimal(&mut text, got);
                text
            },
            LevelError::NumberParse { line, col } => {
                let mut text = "Invalid number at line ".to_owned();
                push_decimal(&mut text, line);
                text.append(", column ");
                push_decimal(&mut text, col);
                text
            },
            LevelError::UnknownSymbol { ch, line, col } => {
                let mut text = "Unknown symbol '".to_owned();
                text.push(ch);
                text.append("' at line ");
                push_decimal(&mut text, line);
                text.append(", column ");
                push_decimal(&mut text, col);
                text
            },
            LevelError::OutOfBounds { gx, gy } => {
                let mut text = "Cell (".to_owned();
                push_decimal(&mut text, gx as u64);
                text.append(", ");
                push_decimal(&mut text, gy as u64);
                text.append(") is out of bounds");
                text
            },
            LevelError::ClassificationConflict { tile_id } => {
                let mut text = "Tile ".to_owned();
                push_decimal(&mut text, tile_id as u64);
                text.append(" is both solid and platform");
                text
            },
        }
    }
}

} // verus!
