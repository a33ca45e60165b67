//! The main loop's decisions: what one read event does to the framer and to
//! the loop, and how a sink failure is classified. The loop itself — the
//! blocking reads, the signal handler, the file writes — lives outside; it
//! feeds events in and carries the returned actions out.

use vstd::prelude::*;
use vstd::utf8::{decode_utf8, valid_utf8};
use crate::framer::{frame_lines, LineFramer};

verus! {

/// One outcome of asking the transport for bytes.
pub enum ReadEvent {
    /// The read returned this many-byte chunk (possibly empty).
    Data(Vec<u8>),
    /// The read timed out: an expected idle condition, not an error.
    TimedOut,
    /// The read was interrupted: the expected shutdown signal.
    Interrupted,
    /// Any other transport error: unrecoverable.
    Failed,
}

/// What the main loop must do next.
#[derive(Clone, Copy, Debug, PartialEq, Eq, Structural)]
pub enum LoopAction {
    /// Keep polling.
    Continue,
    /// Exit cleanly, with success.
    ExitSuccess,
    /// Terminate with a fatal diagnostic.
    Fatal,
}

/// Feeds one read event through the framer and decides how the loop goes
/// on. Only a data chunk can yield lines; a timeout yields nothing and
/// re-polls; an interrupted read exits cleanly; any other failure is fatal.
/// A chunk that is not valid UTF-8 is dropped whole and the loop continues.
pub fn handle_read_event(framer: &mut LineFramer, ev: ReadEvent) -> (r: (Vec<String>, LoopAction))
    ensures
        match ev {
            ReadEvent::Data(chunk) => {
                r.1 == LoopAction::Continue && if valid_utf8(chunk@) {
                    r.0.deep_view() == frame_lines(old(framer)@ + decode_utf8(chunk@)).0
                        && final(framer)@ == frame_lines(old(framer)@ + decode_utf8(chunk@)).1
                } else {
                    r.0@.len() == 0 && final(framer)@ == old(framer)@
                }
            },
            ReadEvent::TimedOut => r.0@.len() == 0 && r.1 == LoopAction::Continue
                && final(framer)@ == old(framer)@,
            ReadEvent::Interrupted => r.0@.len() == 0 && r.1 == LoopAction::ExitSuccess
                && final(framer)@ == old(framer)@,
            ReadEvent::Failed => r.0@.len() == 0 && r.1 == LoopAction::Fatal
                && final(framer)@ == old(framer)@,
        },
{
    match ev {
        ReadEvent::Data(chunk) => {
            if framer.append_chunk(chunk.as_slice()) {
                (framer.drain_lines(), LoopAction::Continue)
            } else {
                (Vec::new(), LoopAction::Continue)
            }
        },
        ReadEvent::TimedOut => (Vec::new(), LoopAction::Continue),
        ReadEvent::Interrupted => (Vec::new(), LoopAction::ExitSuccess),
        ReadEvent::Failed => (Vec::new(), LoopAction::Fatal),
    }
}

/// How a sink failed.
#[derive(Clone, Copy, Debug, PartialEq, Eq, Structural)]
pub enum SinkFailure {
    /// The destination is absent and may not be created: a missing required
    /// resource.
    MissingDestination,
    /// Any other sink failure: the record is dropped, the stream goes on.
    Other,
}

/// The failure policy of the sink boundary: a missing required resource is
/// fatal, anything else is reported and skipped.
pub fn sink_failure_action(f: &SinkFailure) -> (r: LoopAction)
    ensures
        match f {
            SinkFailure::MissingDestination => r == LoopAction::Fatal,
            SinkFailure::Other => r == LoopAction::Continue,
        },
{
    match f {
        SinkFailure::MissingDestination => LoopAction::Fatal,
        SinkFailure::Other => LoopAction::Continue,
    }
}

/// The bytes of one tabular row for the given fields: comma-separated,
/// quoted where needed, terminated by a line feed.
pub uninterp spec fn csv_row_of(fields: Seq<Seq<char>>) -> Seq<u8>;

/// Relies on `csv::Writer` writing to a byte vector: `write_record` appends
/// one row whose bytes depend on the fields alone (delimiter `,`, quoting
/// where necessary, terminator `\n`), and `into_inner` flushes and hands the
/// vector back. Writing one record into an in-memory vector cannot fail —
/// the vector writer is infallible and the first record is what fixes the
/// row length — so the call always succeeds.
#[verifier::external_body]
fn csv_row_bytes(fields: &Vec<String>) -> (r: Option<Vec<u8>>)
    ensures
        r is Some,
        r matches Some(b) ==> b@ == csv_row_of(fields.deep_view()),
{
    let mut w = csv::Writer::from_writer(Vec::new());
    if w.write_record(fields.iter()).is_err() {
        return None;
    }
    w.into_inner().ok()
}

/// Renders one record as the row the tabular sink appends: exactly the
/// bytes of the fields' one tabular line.
pub fn tabular_row(record: &Vec<String>) -> (r: Vec<u8>)
    ensures
        r@ == csv_row_of(record.deep_view()),
{
    match csv_row_bytes(record) {
        Some(b) => b,
        None => {
            proof {
                assert(false);
            }
            Vec::new()
        },
    }
}

} // verus!
