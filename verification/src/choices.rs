//! The choices that a feature asks of the user, read from the text typed.

use vstd::prelude::*;

verus! {

/// How hard the compressor works.
#[derive(Clone, Copy, Debug, PartialEq, Eq, Structural)]
pub enum CompressionLevel {
    /// Low: the fastest.
    Fast,
    /// Medium: the compressor's own default.
    Default,
    /// High: the smallest output.
    Best,
}

/// What the processing of a file favours.
#[derive(Clone, Copy, Debug, PartialEq, Eq, Structural)]
pub enum OptimizationLevel {
    Balanced,
    MemoryOptimized,
    SpeedOptimized,
}

/// The compression level that an input selects: `1`, `2` or `3`, and nothing
/// else.
pub open spec fn compression_for(input: Seq<char>) -> Option<CompressionLevel> {
    if input == seq!['1'] {
        Some(CompressionLevel::Fast)
    } else if input == seq!['2'] {
        Some(CompressionLevel::Default)
    } else if input == seq!['3'] {
        Some(CompressionLevel::Best)
    } else {
        None
    }
}

/// The optimization level that an input selects: `1`, `2` or `3`, and
/// nothing else.
pub open spec fn optimization_for(input: Seq<char>) -> Option<OptimizationLevel> {
    if input == seq!['1'] {
        Some(OptimizationLevel::Balanced)
    } else if input == seq!['2'] {
        Some(OptimizationLevel::MemoryOptimized)
    } else if input == seq!['3'] {
        Some(OptimizationLevel::SpeedOptimized)
    } else {
        None
    }
}

/// The one character that `input` consists of, if it consists of one.
pub fn single_char(input: &str) -> (only: Option<char>)
    ensures
        match only {
            Some(c) => input@ == seq![c],
            None => input@.len() != 1,
        },
{
    if input.unicode_len() == 1 {
        let c = input.get_char(0);
        Some(c)
    } else {
        None
    }
}

/// Reads the choice of a compression level.
pub fn compression_choice(input: &str) -> (level: Option<CompressionLevel>)
    ensures
        level == compression_for(input@),
{
    match single_char(input) {
        Some(c) => {
            assert(seq![c][0] == c);
            if c == '1' {
                Some(CompressionLevel::Fast)
            } else if c == '2' {
                Some(CompressionLevel::Default)
            } else if c == '3' {
                Some(CompressionLevel::Best)
            } else {
                None
            }
        },
        None => None,
    }
}

/// Reads the choice of an optimization level.
pub fn optimization_choice(input: &str) -> (level: Option<OptimizationLevel>)
    ensures
        level == optimization_for(input@),
{
    match single_char(input) {
        Some(c) => {
            assert(seq![c][0] == c);
            if c == '1' {
                Some(OptimizationLevel::Balanced)
            } else if c == '2' {
                Some(OptimizationLevel::MemoryOptimized)
            } else if c == '3' {
                Some(OptimizationLevel::SpeedOptimized)
            } else {
                None
            }
        },
        None => None,
    }
}

impl OptimizationLevel {
    /// The name under which this level is announced.
    pub open spec fn label_text(self) -> Seq<char> {
        match self {
            OptimizationLevel::Balanced => "Balanced"@,
            OptimizationLevel::MemoryOptimized => "Memory-Optimized"@,
            OptimizationLevel::SpeedOptimized => "Speed-Optimized"@,
        }
    }

    /// The name under which this level is announced.
    pub fn label(self) -> (label: &'static str)
        ensures
            label@ == self.label_text(),
    {
        match self {
            OptimizationLevel::Balanced => "Balanced",
            OptimizationLevel::MemoryOptimized => "Memory-Optimized",
            OptimizationLevel::SpeedOptimized => "Speed-Optimized",
        }
    }
}

} // verus!
