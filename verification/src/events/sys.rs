//! What is asked of the Windows event log, and what its answers mean.
//!
//! The calls themselves are made by whoever holds the log's handles. Here is
//! the text of the query, the decision that follows each answer, and what is
//! said of a failure. A failure is never an empty history: that would read as
//! a history without faults.

use crate::text;
use crate::text::append_decimal;
use vstd::prelude::*;
use vstd::slice::slice_subrange;

verus! {

/// Query a channel, not a file.
pub const EVT_QUERY_CHANNEL_PATH: u32 = 0x1;

/// Newest events first.
pub const EVT_QUERY_REVERSE_DIRECTION: u32 = 0x200;

/// Without this, one bad channel ends the whole query.
pub const EVT_QUERY_TOLERATE_QUERY_ERRORS: u32 = 0x1000;

/// Render an event as XML. The context has to be null with it.
pub const EVT_RENDER_EVENT_XML: u32 = 1;

pub const ERROR_ACCESS_DENIED: u32 = 5;

pub const ERROR_INSUFFICIENT_BUFFER: u32 = 122;

pub const ERROR_NO_MORE_ITEMS: u32 = 259;

pub const ERROR_EVT_CHANNEL_NOT_FOUND: u32 = 15007;

/// Wait as long as it takes.
pub const INFINITE: u32 = 0xFFFF_FFFF;

/// How many event handles are asked for at a time.
pub const BATCH: usize = 32;

// ---------------------------------------------------------------------------
// Text for the system
// ---------------------------------------------------------------------------

/// A character in UTF-16: one unit, or a pair of surrogates.
pub open spec fn utf16_units(c: char) -> Seq<u16> {
    let code = c as int;
    if code < 0x1_0000 {
        seq![code as u16]
    } else {
        seq![
            (0xD800 + (code - 0x1_0000) / 0x400) as u16,
            (0xDC00 + (code - 0x1_0000) % 0x400) as u16,
        ]
    }
}

/// Text in UTF-16.
pub open spec fn utf16(s: Seq<char>) -> Seq<u16>
    decreases s.len(),
{
    if s.len() == 0 {
        seq![]
    } else {
        utf16(s.drop_last()) + utf16_units(s.last())
    }
}

/// Text in UTF-16 with a terminating zero.
pub fn wide(value: &str) -> (r: Vec<u16>)
    ensures
        r@ == utf16(value@).push(0),
{
    let mut units: Vec<u16> = Vec::new();
    let n: usize = value.unicode_len();
    let mut i: usize = 0;
    proof {
        assert(value@.take(0) =~= seq![]);
    }
    while i < n
        invariant
            i <= n,
            n == value@.len(),
            units@ == utf16(value@.take(i as int)),
        decreases n - i,
    {
        let ghost before = units@;
        let c = value.get_char(i);
        let code: u32 = c as u32;
        proof {
            assert(value@.take(i + 1).drop_last() =~= value@.take(i as int));
            assert(value@.take(i + 1).last() == c);
        }
        if code < 0x1_0000 {
            units.push(code as u16);
            proof {
                assert(units@ =~= before + utf16_units(c));
            }
        } else {
            let offset: u32 = code - 0x1_0000;
            units.push((0xD800 + offset / 0x400) as u16);
            units.push((0xDC00 + offset % 0x400) as u16);
            proof {
                assert(units@ =~= before + utf16_units(c));
            }
        }
        i = i + 1;
    }
    proof {
        assert(value@.take(i as int) =~= value@);
    }
    units.push(0);
    units
}

/// What asks for the events of a window, or for all of them.
pub open spec fn query_for(within_seconds: Option<u64>) -> Option<Seq<char>> {
    match within_seconds {
        Some(seconds) => if seconds * 1000 <= u64::MAX {
            Some(
                "*[System[TimeCreated[timediff(@SystemTime) <= "@ + text::decimal(
                    (seconds * 1000) as nat,
                ) + "]]]"@,
            )
        } else {
            None
        },
        None => Some("*"@),
    }
}

/// The query for the events of a window, or for all of them. The log compares
/// times in milliseconds.
pub fn query_text(within_seconds: Option<u64>) -> (r: Result<String, String>)
    ensures
        match r {
            Ok(query) => query_for(within_seconds) == Some(query@),
            Err(fault) => query_for(within_seconds) is None && fault@
                == "event history window is too large"@,
        },
{
    match within_seconds {
        Some(seconds) => match seconds.checked_mul(1000) {
            Some(milliseconds) => {
                let mut query = "*[System[TimeCreated[timediff(@SystemTime) <= ".to_owned();
                append_decimal(&mut query, milliseconds);
                query.append("]]]");
                Ok(query)
            },
            None => Err("event history window is too large".to_owned()),
        },
        None => Ok("*".to_owned()),
    }
}

/// The query to begin with, where `max` documents are wanted: none at all where
/// none are, in which case the answer is empty without asking the log.
pub fn first_query(max: usize, within_seconds: Option<u64>) -> (r: Result<Option<String>, String>)
    ensures
        match r {
            Ok(None) => max == 0,
            Ok(Some(query)) => max > 0 && query_for(within_seconds) == Some(query@),
            Err(fault) => max > 0 && query_for(within_seconds) is None && fault@
                == "event history window is too large"@,
        },
{
    if max == 0 {
        return Ok(None);
    }
    match query_text(within_seconds) {
        Ok(query) => Ok(Some(query)),
        Err(fault) => Err(fault),
    }
}

// ---------------------------------------------------------------------------
// Failures
// ---------------------------------------------------------------------------

/// What is said of a query that the log refused.
pub open spec fn refusal(channel: Seq<char>, code: u32) -> Seq<char> {
    if code == ERROR_ACCESS_DENIED {
        "access denied reading "@ + channel
            + ". Run RadioChron elevated to read the WLAN event log."@
    } else if code == ERROR_EVT_CHANNEL_NOT_FOUND {
        "event channel not found: "@ + channel
    } else {
        "EvtQuery failed on "@ + channel + " (error "@ + text::decimal(code as nat) + ")"@
    }
}

/// Say that the log refused a query.
pub fn query_failure(channel: &str, code: u32) -> (r: String)
    ensures
        r@ == refusal(channel@, code),
{
    if code == ERROR_ACCESS_DENIED {
        let mut said = "access denied reading ".to_owned();
        said.append(channel);
        said.append(". Run RadioChron elevated to read the WLAN event log.");
        said
    } else if code == ERROR_EVT_CHANNEL_NOT_FOUND {
        let mut said = "event channel not found: ".to_owned();
        said.append(channel);
        said
    } else {
        let mut said = "EvtQuery failed on ".to_owned();
        said.append(channel);
        said.append(" (error ");
        append_decimal(&mut said, code as u64);
        said.append(")");
        said
    }
}

/// What is said of a batch that could not be had.
pub open spec fn interruption(channel: Seq<char>, have: nat, code: u32) -> Seq<char> {
    "EvtNext failed on "@ + channel + " after "@ + text::decimal(have)
        + " rendered events (error "@ + text::decimal(code as nat) + ")"@
}

fn next_failure(channel: &str, have: usize, code: u32) -> (r: String)
    ensures
        r@ == interruption(channel@, have as nat, code),
{
    let mut said = "EvtNext failed on ".to_owned();
    said.append(channel);
    said.append(" after ");
    append_decimal(&mut said, have as u64);
    said.append(" rendered events (error ");
    append_decimal(&mut said, code as u64);
    said.append(")");
    said
}

// ---------------------------------------------------------------------------
// Batches
// ---------------------------------------------------------------------------

/// What the log answered when asked for the next batch.
pub enum BatchReply {
    /// So many handles came.
    Returned(u32),
    /// None came, with this error.
    Failed(u32),
}

/// What to do with the answer.
pub enum BatchStep {
    /// Render so many of the handles; ask for more only if `more`.
    Render { count: usize, more: bool },
    /// There are no more events.
    Finish,
    /// The query failed.
    Fail(String),
}

/// How many handles of a batch are rendered: those that came, as far as they
/// are wanted.
pub open spec fn taken(have: int, max: int, returned: int) -> int {
    let came = if returned < BATCH {
        returned
    } else {
        BATCH as int
    };
    if max - have < came {
        max - have
    } else {
        came
    }
}

/// Decide on a batch, with `have` documents out of the `max` that are wanted.
/// All handles of a batch have to be closed, the ones that are not rendered
/// too. Running out of events ends the query; any other error fails it.
pub fn on_batch(channel: &str, have: usize, max: usize, reply: BatchReply) -> (r: BatchStep)
    requires
        have < max,
    ensures
        match reply {
            BatchReply::Returned(returned) => match r {
                BatchStep::Render { count, more } => count == taken(
                    have as int,
                    max as int,
                    returned as int,
                ) && have + count <= max && (more <==> returned >= BATCH && have + count < max),
                _ => false,
            },
            BatchReply::Failed(code) => match r {
                BatchStep::Finish => code == ERROR_NO_MORE_ITEMS,
                BatchStep::Fail(said) => code != ERROR_NO_MORE_ITEMS && said@ == interruption(
                    channel@,
                    have as nat,
                    code,
                ),
                _ => false,
            },
        },
{
    match reply {
        BatchReply::Returned(returned) => {
            let came: usize = if returned < 32 {
                returned as usize
            } else {
                BATCH
            };
            let count: usize = if max - have < came {
                max - have
            } else {
                came
            };
            BatchStep::Render { count, more: returned >= 32 && have + count < max }
        },
        BatchReply::Failed(code) => if code == ERROR_NO_MORE_ITEMS {
            BatchStep::Finish
        } else {
            BatchStep::Fail(next_failure(channel, have, code))
        },
    }
}

// ---------------------------------------------------------------------------
// Rendering
// ---------------------------------------------------------------------------

/// What is said of an event whose size could not be had.
pub open spec fn sizing_fault(code: u32, needed_bytes: u32) -> Seq<char> {
    "EvtRender sizing failed (error "@ + text::decimal(code as nat) + ", needed "@ + text::decimal(
        needed_bytes as nat,
    ) + " bytes)"@
}

/// How many UTF-16 units to reserve for an event. The first call has to fail
/// for want of room, and say how many bytes there are.
pub fn render_size(needed_bytes: u32, code: u32) -> (r: Result<usize, String>)
    ensures
        match r {
            Ok(units) => needed_bytes != 0 && code == ERROR_INSUFFICIENT_BUFFER && units
                == needed_bytes as int / 2 + 1,
            Err(said) => (needed_bytes == 0 || code != ERROR_INSUFFICIENT_BUFFER) && said@
                == sizing_fault(code, needed_bytes),
        },
{
    if needed_bytes == 0 || code != ERROR_INSUFFICIENT_BUFFER {
        let mut said = "EvtRender sizing failed (error ".to_owned();
        append_decimal(&mut said, code as u64);
        said.append(", needed ");
        append_decimal(&mut said, needed_bytes as u64);
        said.append(" bytes)");
        return Err(said);
    }
    Ok((needed_bytes / 2 + 1) as usize)
}

/// Say that an event could not be rendered.
pub fn render_failure(code: u32) -> (r: String)
    ensures
        r@ == "EvtRender failed (error "@ + text::decimal(code as nat) + ")"@,
{
    let mut said = "EvtRender failed (error ".to_owned();
    append_decimal(&mut said, code as u64);
    said.append(")");
    said
}

/// What `String::from_utf16_lossy` makes of units.
pub uninterp spec fn lossy_utf16(units: Seq<u16>) -> Seq<char>;

/// `String::from_utf16_lossy` reads units as UTF-16, with a replacement
/// character for what is not; units that are the UTF-16 of some text give that
/// text.
#[verifier::external_body]
fn from_utf16_lossy(units: &[u16]) -> (r: String)
    ensures
        r@ == lossy_utf16(units@),
        forall|s: Seq<char>| #[trigger] utf16(s) == units@ ==> r@ == s,
{
    String::from_utf16_lossy(units)
}

/// The units before the first zero.
pub open spec fn before_zero(units: Seq<u16>) -> Seq<u16>
    decreases units.len(),
{
    if units.len() == 0 || units[0] == 0 {
        seq![]
    } else {
        seq![units[0]] + before_zero(units.drop_first())
    }
}

/// The document in a buffer that an event was rendered into: it ends at the
/// first zero.
pub fn rendered_text(buffer: &[u16]) -> (r: String)
    ensures
        r@ == lossy_utf16(before_zero(buffer@)),
        forall|s: Seq<char>| #[trigger] utf16(s) == before_zero(buffer@) ==> r@ == s,
{
    let mut end: usize = 0;
    proof {
        assert(buffer@.skip(0) =~= buffer@);
        assert(buffer@.take(0) + before_zero(buffer@) =~= before_zero(buffer@));
    }
    while end < buffer.len() && buffer[end] != 0
        invariant
            end <= buffer@.len(),
            before_zero(buffer@) == buffer@.take(end as int) + before_zero(
                buffer@.skip(end as int),
            ),
        decreases buffer@.len() - end,
    {
        proof {
            assert(buffer@.skip(end as int).drop_first() =~= buffer@.skip(end + 1));
            assert(buffer@.take(end as int) + (seq![buffer@[end as int]] + before_zero(
                buffer@.skip(end + 1),
            )) =~= buffer@.take(end + 1) + before_zero(buffer@.skip(end + 1)));
        }
        end = end + 1;
    }
    let units = slice_subrange(buffer, 0, end);
    proof {
        assert(units@ =~= buffer@.take(end as int));
        assert(before_zero(buffer@.skip(end as int)) =~= seq![]);
        assert(before_zero(buffer@) =~= units@);
    }
    from_utf16_lossy(units)
}

} // verus!
