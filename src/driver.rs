//! The decisions of the loop that reads values, converts them and writes one
//! line per value. The caller performs each read and write and reports how
//! it went; these functions say what comes next.
use vstd::prelude::*;

use crate::convert::{convert, converted, result_view};
use crate::error::Mp2JsonError;
use crate::text::JsonValue;
use crate::value::{payloads_fit, MpValue};

verus! {

/// How the attempt to decode one value from the input went.
#[derive(Debug, PartialEq)]
pub enum ReadOutcome {
    /// A whole value was decoded.
    Value(MpValue),
    /// The input ended cleanly, before any byte of a new value.
    EndOfStream,
    /// The input is malformed, or ends inside a value.
    Malformed,
}

/// How writing one line to the output went.
#[derive(Debug, Clone, Copy, PartialEq, Eq, Structural)]
pub enum WriteOutcome {
    Written,
    /// The reader of the output has gone away.
    BrokenPipe,
    Failed,
}

/// What the loop does next.
#[derive(Debug, PartialEq)]
pub enum Step {
    /// Write this value, then a newline.
    Emit(JsonValue),
    /// Read the next value.
    Continue,
    /// Stop with success.
    Finish,
    /// Stop with this failure.
    Fail(Mp2JsonError),
}

/// The options of a run: buffered input and output, and pretty printing.
#[derive(Debug, Clone, Copy, PartialEq, Eq, Structural)]
pub struct Converter {
    pub buffered: bool,
    pub pretty: bool,
}

impl ReadOutcome {
    /// Every value it carries has payloads that fit in memory.
    pub open spec fn fits(&self) -> bool {
        match self {
            ReadOutcome::Value(v) => payloads_fit(*v),
            _ => true,
        }
    }
}

/// The meaning of a step.
pub open spec fn step_matches(s: Step, r: Result<crate::text::Json, Mp2JsonError>) -> bool {
    match (s, r) {
        (Step::Emit(j), Ok(v)) => j@ == v,
        (Step::Fail(e), Err(f)) => e == f,
        _ => false,
    }
}

impl Converter {
    /// A converter with the given options.
    pub fn new(buffered: bool, pretty: bool) -> (r: Converter)
        ensures
            r.buffered == buffered,
            r.pretty == pretty,
    {
        Converter { buffered, pretty }
    }

    /// What follows a read: a decoded value is converted and emitted, or its
    /// conversion failure ends the run; a clean end of input ends it with
    /// success; malformed input ends it with a decode failure.
    pub fn after_read(&self, r: ReadOutcome) -> (s: Step)
        requires
            r.fits(),
        ensures
            match r {
                ReadOutcome::Value(v) => step_matches(s, converted(v)),
                ReadOutcome::EndOfStream => s == Step::Finish,
                ReadOutcome::Malformed => s == Step::Fail(Mp2JsonError::RmpDecode),
            },
    {
        match r {
            ReadOutcome::Value(v) => match convert(&v) {
                Ok(j) => Step::Emit(j),
                Err(e) => Step::Fail(e),
            },
            ReadOutcome::EndOfStream => Step::Finish,
            ReadOutcome::Malformed => Step::Fail(Mp2JsonError::RmpDecode),
        }
    }

    /// How a failed decode is read: the input ended cleanly only where the
    /// decoder met the end of input while looking for a value's first byte
    /// and no byte of that value had been consumed; anything else is
    /// malformed or truncated input.
    pub fn read_failed(&self, end_at_marker: bool, bytes_consumed: u64) -> (r: ReadOutcome)
        ensures
            r == if end_at_marker && bytes_consumed == 0 {
                ReadOutcome::EndOfStream
            } else {
                ReadOutcome::Malformed
            },
    {
        if end_at_marker && bytes_consumed == 0 {
            ReadOutcome::EndOfStream
        } else {
            ReadOutcome::Malformed
        }
    }

    /// What follows a write: a written line leads to the next read; a closed
    /// pipe ends the run with success; any other failure ends it with an
    /// output failure.
    pub fn after_write(&self, w: WriteOutcome) -> (s: Step)
        ensures
            s == match w {
                WriteOutcome::Written => Step::Continue,
                WriteOutcome::BrokenPipe => Step::Finish,
                WriteOutcome::Failed => Step::Fail(Mp2JsonError::Output),
            },
    {
        match w {
            WriteOutcome::Written => Step::Continue,
            WriteOutcome::BrokenPipe => Step::Finish,
            WriteOutcome::Failed => Step::Fail(Mp2JsonError::Output),
        }
    }

    /// Whether the output is flushed once when the loop ends.
    pub fn flushes_at_end(&self) -> (r: bool)
        ensures
            r == self.buffered,
    {
        self.buffered
    }

    /// The result of a run whose loop ended with success, given whether the
    /// final flush succeeded: a failed flush is an output failure.
    pub fn after_flush(&self, flushed: bool) -> (r: Result<(), Mp2JsonError>)
        ensures
            r == if flushed {
                Ok::<(), Mp2JsonError>(())
            } else {
                Err::<(), Mp2JsonError>(Mp2JsonError::Output)
            },
    {
        if flushed {
            Ok(())
        } else {
            Err(Mp2JsonError::Output)
        }
    }
}

} // verus!
