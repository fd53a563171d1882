//! The WLAN AutoConfig event log: the history that a snapshot cannot give.
//!
//! Events are read as the XML that the log renders, whose structured data is
//! the same in every locale. The names of data fields are not published, so
//! each is optional: a missing field weakens a finding and fails nothing.

use crate::ordered::StringMap;
use crate::scan;
use crate::scan::{strip_prefix, trim, Class};
use crate::text;
use crate::text::{append_decimal, chars_of, read_unsigned, string_of};
use crate::time;
use vstd::prelude::*;
use vstd::utf8::encode_utf8;

pub mod decoding;
pub mod detect;
pub mod laws;
pub mod sys;
pub mod xml;

pub use detect::{detect, HistoryFinding, Verdict};

verus! {

/// The channel that the events are read from.
pub const CHANNEL: &'static str = "Microsoft-Windows-WLAN-AutoConfig/Operational";

/// One decoded event.
#[derive(Debug)]
pub struct WlanEvent {
    pub event_id: u32,
    /// The identity that the event log gave the record. Other than a time it
    /// tells records of one second apart.
    pub record_id: Option<u64>,
    /// ISO 8601, as the record has it.
    pub time_created: String,
    /// Seconds since the Unix epoch, read from `time_created`.
    pub epoch_seconds: i64,
    pub meaning: &'static str,
    /// The named data fields.
    pub data: StringMap<String>,
    /// False if the record has data without a name, which happens where the
    /// publisher's manifest is not registered.
    pub named_fields: bool,
}

/// What an event says.
#[verifier::ext_equal]
pub struct EventModel {
    pub event_id: u32,
    pub record_id: Option<u64>,
    pub time_created: Seq<char>,
    pub epoch_seconds: i64,
    pub meaning: Seq<char>,
    pub data: Map<Seq<char>, Seq<char>>,
    pub named_fields: bool,
}

impl View for WlanEvent {
    type V = EventModel;

    open spec fn view(&self) -> EventModel {
        EventModel {
            event_id: self.event_id,
            record_id: self.record_id,
            time_created: self.time_created@,
            epoch_seconds: self.epoch_seconds,
            meaning: self.meaning@,
            data: self.data@.map_values(|v: String| v@),
            named_fields: self.named_fields,
        }
    }
}

/// What a field says as a number: hexadecimal after `0x`, else decimal.
pub open spec fn number(raw: Seq<char>) -> Option<nat> {
    let written = scan::trimmed(raw, Class::Space);
    match scan::after_prefix(written, "0x"@) {
        Some(hex) => text::at_most(text::parse_unsigned(hex, 16), u64::MAX as nat),
        None => match scan::after_prefix(written, "0X"@) {
            Some(hex) => text::at_most(text::parse_unsigned(hex, 16), u64::MAX as nat),
            None => text::at_most(text::parse_unsigned(written, 10), u64::MAX as nat),
        },
    }
}

impl EventModel {
    /// What a data field says.
    pub open spec fn field(self, name: Seq<char>) -> Option<Seq<char>> {
        if self.data.dom().contains(name) {
            Some(self.data[name])
        } else {
            None
        }
    }

    /// What a data field says as a number.
    pub open spec fn numeric(self, name: Seq<char>) -> Option<nat> {
        match self.field(name) {
            Some(raw) => number(raw),
            None => None,
        }
    }

    /// The session that the event belongs to.
    pub open spec fn session(self) -> Option<nat> {
        match self.numeric("ConnectionId"@) {
            Some(raw) => Some(
                if raw > u32::MAX {
                    raw / 0x1_0000_0000
                } else {
                    raw
                },
            ),
            None => None,
        }
    }
}

impl WlanEvent {
    /// What a data field says.
    pub fn field(&self, name: &str) -> (r: Option<&str>)
        ensures
            text::opt_str(r) == self@.field(name@),
    {
        match self.data.get(name) {
            Some(value) => Some(value.as_str()),
            None => None,
        }
    }

    /// What a data field says as a number, written as `0x...` or decimal.
    pub fn numeric_field(&self, name: &str) -> (r: Option<u64>)
        ensures
            match r {
                Some(value) => self@.numeric(name@) == Some(value as nat),
                None => self@.numeric(name@) is None,
            },
    {
        let raw = match self.field(name) {
            Some(raw) => chars_of(raw),
            None => {
                return None;
            },
        };
        let lower = chars_of("0x");
        let upper = chars_of("0X");
        let written = trim(raw.as_slice(), Class::Space);
        match strip_prefix(written, lower.as_slice()) {
            Some(hex) => read_unsigned(hex, 16, u64::MAX),
            None => match strip_prefix(written, upper.as_slice()) {
                Some(hex) => read_unsigned(hex, 16, u64::MAX),
                None => read_unsigned(written, 10, u64::MAX),
            },
        }
    }

    /// The session that ties one connection attempt together.
    ///
    /// Some events carry it in the high half of the number. A number that
    /// cannot be a session otherwise is taken for one of those.
    pub fn connection_id(&self) -> (r: Option<u64>)
        ensures
            match r {
                Some(value) => self@.session() == Some(value as nat),
                None => self@.session() is None,
            },
    {
        match self.numeric_field("ConnectionId") {
            Some(raw) => if raw > 0xFFFF_FFFF {
                Some(raw / 0x1_0000_0000)
            } else {
                Some(raw)
            },
            None => None,
        }
    }

    /// The interface: one family of events calls it `InterfaceGuid`, the other
    /// `DeviceGuid`.
    pub fn interface_guid(&self) -> (r: Option<&str>)
        ensures
            text::opt_str(r) == (match self@.field("InterfaceGuid"@) {
                Some(guid) => Some(guid),
                None => self@.field("DeviceGuid"@),
            }),
    {
        match self.field("InterfaceGuid") {
            Some(guid) => Some(guid),
            None => self.field("DeviceGuid"),
        }
    }
}

impl Clone for WlanEvent {
    fn clone(&self) -> (r: Self)
        ensures
            r@ == self@,
    {
        WlanEvent {
            event_id: self.event_id,
            record_id: self.record_id,
            time_created: self.time_created.clone(),
            epoch_seconds: self.epoch_seconds,
            meaning: self.meaning,
            data: self.data.clone(),
            named_fields: self.named_fields,
        }
    }
}

/// What an event means, by its number.
pub open spec fn meaning_of(event_id: u32) -> Seq<char> {
    if event_id == 8000 {
        "connection attempt started"@
    } else if event_id == 8001 {
        "connection succeeded"@
    } else if event_id == 8002 {
        "connection failed"@
    } else if event_id == 8003 {
        "disconnected"@
    } else if event_id == 8011 {
        "network visible, auto-connect pending"@
    } else if event_id == 11000 {
        "association started"@
    } else if event_id == 11001 {
        "association succeeded"@
    } else if event_id == 11002 {
        "association aborted"@
    } else if event_id == 11004 {
        "security teardown"@
    } else if event_id == 11005 {
        "security succeeded"@
    } else if event_id == 11006 {
        "security failed"@
    } else if event_id == 11010 {
        "security started"@
    } else if event_id == 12011 {
        "802.1X authentication started"@
    } else if event_id == 12012 {
        "802.1X authentication succeeded"@
    } else if event_id == 12013 {
        "802.1X authentication failed"@
    } else {
        "unrecognised event"@
    }
}

/// What each event number means. An unknown one is named as such: it is still
/// evidence that something happened.
pub fn meaning(event_id: u32) -> (r: &'static str)
    ensures
        r@ == meaning_of(event_id),
{
    match event_id {
        8000 => "connection attempt started",
        8001 => "connection succeeded",
        8002 => "connection failed",
        8003 => "disconnected",
        8011 => "network visible, auto-connect pending",
        11000 => "association started",
        11001 => "association succeeded",
        11002 => "association aborted",
        11004 => "security teardown",
        11005 => "security succeeded",
        11006 => "security failed",
        11010 => "security started",
        12011 => "802.1X authentication started",
        12012 => "802.1X authentication succeeded",
        12013 => "802.1X authentication failed",
        _ => "unrecognised event",
    }
}

// ---------------------------------------------------------------------------
// Decoding
// ---------------------------------------------------------------------------

/// What the error of `str::parse::<u32>` says of text that is no such number.
pub uninterp spec fn u32_fault(written: Seq<char>) -> Seq<char>;

/// `str::parse::<u32>` on text that it rejects: what `ParseIntError` says of
/// it. The wording is std's own and is only named here.
#[verifier::external_body]
fn say_u32_fault(written: &str) -> (r: String)
    requires
        text::at_most(text::parse_unsigned(written@, 10), u32::MAX as nat) is None,
    ensures
        r@ == u32_fault(written@),
{
    match written.parse::<u32>() {
        Ok(_) => String::new(),
        Err(error) => error.to_string(),
    }
}

/// What the error of `str::parse::<u64>` says of text that is no such number.
pub uninterp spec fn u64_fault(written: Seq<char>) -> Seq<char>;

/// `str::parse::<u64>` on text that it rejects: what `ParseIntError` says of
/// it. The wording is std's own and is only named here.
#[verifier::external_body]
fn say_u64_fault(written: &str) -> (r: String)
    requires
        text::at_most(text::parse_unsigned(written@, 10), u64::MAX as nat) is None,
    ensures
        r@ == u64_fault(written@),
{
    match written.parse::<u64>() {
        Ok(_) => String::new(),
        Err(error) => error.to_string(),
    }
}

/// The event number in a document, or what is wrong with it.
pub open spec fn event_number(document: Seq<char>) -> Result<nat, Seq<char>> {
    match xml::element(document, "EventID"@) {
        None => Err("missing EventID"@),
        Some(raw) => {
            let written = scan::trimmed(raw, Class::Space);
            match text::at_most(text::parse_unsigned(written, 10), u32::MAX as nat) {
                Some(id) => Ok(id),
                None => Err("invalid EventID: "@ + u32_fault(written)),
            }
        },
    }
}

/// The record number in a document, where there is one, or what is wrong with
/// it.
pub open spec fn record_number(document: Seq<char>) -> Result<Option<nat>, Seq<char>> {
    match xml::element(document, "EventRecordID"@) {
        None => Ok(None),
        Some(raw) => {
            let written = scan::trimmed(raw, Class::Space);
            match text::at_most(text::parse_unsigned(written, 10), u64::MAX as nat) {
                Some(id) => Ok(Some(id)),
                None => Err("invalid EventRecordID: "@ + u64_fault(written)),
            }
        },
    }
}

/// The time in a document, as text and as seconds, or what is wrong with it.
pub open spec fn event_time(document: Seq<char>) -> Result<(Seq<char>, int), Seq<char>> {
    match xml::attribute_of(document, "TimeCreated"@, "SystemTime"@) {
        None => Err("missing TimeCreated/SystemTime"@),
        Some(created) => match time::written_epoch(encode_utf8(created)) {
            Some(seconds) => Ok((created, seconds)),
            None => Err("invalid SystemTime: "@ + created),
        },
    }
}

/// The event that a document holds, or the first thing that is wrong with it.
pub open spec fn decoded(document: Seq<char>) -> Result<EventModel, Seq<char>> {
    match event_number(document) {
        Err(fault) => Err(fault),
        Ok(event_id) => match record_number(document) {
            Err(fault) => Err(fault),
            Ok(record_id) => match event_time(document) {
                Err(fault) => Err(fault),
                Ok((created, seconds)) => {
                    let (data, named) = xml::data_from(document, 0, Map::empty(), true);
                    Ok(
                        EventModel {
                            event_id: event_id as u32,
                            record_id: match record_id {
                                Some(id) => Some(id as u64),
                                None => None,
                            },
                            time_created: created,
                            epoch_seconds: seconds as i64,
                            meaning: meaning_of(event_id as u32),
                            data,
                            named_fields: named,
                        },
                    )
                },
            },
        },
    }
}

/// The view of the result of decoding.
pub open spec fn outcome(r: Result<WlanEvent, String>) -> Result<EventModel, Seq<char>> {
    match r {
        Ok(event) => Ok(event@),
        Err(fault) => Err(fault@),
    }
}

fn read_event_number(document: &str) -> (r: Result<u32, String>)
    ensures
        match r {
            Ok(id) => event_number(document@) == Ok::<nat, Seq<char>>(id as nat),
            Err(fault) => event_number(document@) == Err::<nat, Seq<char>>(fault@),
        },
{
    match xml::element_text(document, "EventID") {
        None => Err("missing EventID".to_owned()),
        Some(raw) => {
            let chars = chars_of(raw.as_str());
            let written = trim(chars.as_slice(), Class::Space);
            match read_unsigned(written, 10, 0xFFFF_FFFF) {
                Some(id) => Ok(id as u32),
                None => {
                    let mut fault = "invalid EventID: ".to_owned();
                    fault.append(say_u32_fault(string_of(written).as_str()).as_str());
                    Err(fault)
                },
            }
        },
    }
}

fn read_record_number(document: &str) -> (r: Result<Option<u64>, String>)
    ensures
        match r {
            Ok(Some(id)) => record_number(document@) == Ok::<Option<nat>, Seq<char>>(
                Some(id as nat),
            ),
            Ok(None) => record_number(document@) == Ok::<Option<nat>, Seq<char>>(None),
            Err(fault) => record_number(document@) == Err::<Option<nat>, Seq<char>>(fault@),
        },
{
    match xml::element_text(document, "EventRecordID") {
        None => Ok(None),
        Some(raw) => {
            let chars = chars_of(raw.as_str());
            let written = trim(chars.as_slice(), Class::Space);
            match read_unsigned(written, 10, u64::MAX) {
                Some(id) => Ok(Some(id)),
                None => {
                    let mut fault = "invalid EventRecordID: ".to_owned();
                    fault.append(say_u64_fault(string_of(written).as_str()).as_str());
                    Err(fault)
                },
            }
        },
    }
}

/// Decode the XML document of one event.
pub fn decode(document: &str) -> (r: Result<WlanEvent, String>)
    ensures
        outcome(r) == decoded(document@),
{
    let event_id: u32 = match read_event_number(document) {
        Ok(id) => id,
        Err(fault) => {
            return Err(fault);
        },
    };
    let record_id = match read_record_number(document) {
        Ok(id) => id,
        Err(fault) => {
            return Err(fault);
        },
    };
    let time_created = match xml::attribute(document, "TimeCreated", "SystemTime") {
        Some(created) => created,
        None => {
            return Err("missing TimeCreated/SystemTime".to_owned());
        },
    };
    let epoch_seconds: i64 = match time::epoch_from_iso8601(time_created.as_str()) {
        Some(seconds) => seconds,
        None => {
            let mut fault = "invalid SystemTime: ".to_owned();
            fault.append(time_created.as_str());
            return Err(fault);
        },
    };
    let (data, named_fields) = xml::event_data(document);
    Ok(
        WlanEvent {
            event_id,
            record_id,
            time_created,
            epoch_seconds,
            meaning: meaning(event_id),
            data,
            named_fields,
        },
    )
}

/// What is said of the document at position `index` that cannot be decoded.
pub open spec fn decode_fault(index: int, fault: Seq<char>) -> Seq<char> {
    "failed to decode WLAN event "@ + text::decimal(index as nat) + ": "@ + fault
}

/// The events that documents hold, or what is said of the first one that
/// cannot be decoded.
pub open spec fn all_decoded(documents: Seq<String>) -> Result<Seq<EventModel>, Seq<char>>
    decreases documents.len(),
{
    if documents.len() == 0 {
        Ok(seq![])
    } else {
        match all_decoded(documents.drop_last()) {
            Err(fault) => Err(fault),
            Ok(events) => match decoded(documents.last()@) {
                Ok(event) => Ok(events.push(event)),
                Err(fault) => Err(decode_fault(documents.len() - 1, fault)),
            },
        }
    }
}

/// The earliest time that lies within a window before `now`.
pub open spec fn window_floor(now: int, window: nat) -> int {
    let reach = if window > i64::MAX {
        i64::MAX as int
    } else {
        window as int
    };
    if now - reach < i64::MIN {
        i64::MIN as int
    } else {
        now - reach
    }
}

/// The events that are not older than a window, where one is given.
pub open spec fn within(events: Seq<EventModel>, now: int, window: Option<u64>) -> Seq<EventModel> {
    match window {
        Some(seconds) => events.filter(
            |event: EventModel| event.epoch_seconds >= window_floor(now, seconds as nat),
        ),
        None => events,
    }
}

/// The models of events.
pub open spec fn models(events: Seq<WlanEvent>) -> Seq<EventModel> {
    events.map_values(|event: WlanEvent| event@)
}

proof fn lemma_decoded_prefix(documents: Seq<String>, i: int)
    requires
        0 <= i <= documents.len(),
        all_decoded(documents.take(i)) is Err,
    ensures
        all_decoded(documents) == all_decoded(documents.take(i)),
    decreases documents.len() - i,
{
    if i < documents.len() {
        assert(documents.take(i + 1).drop_last() =~= documents.take(i));
        lemma_decoded_prefix(documents, i + 1);
    } else {
        assert(documents.take(i) =~= documents);
    }
}

fn decode_all(documents: &Vec<String>) -> (r: Result<Vec<WlanEvent>, String>)
    ensures
        match r {
            Ok(events) => all_decoded(documents@) == Ok::<Seq<EventModel>, Seq<char>>(
                models(events@),
            ),
            Err(fault) => all_decoded(documents@) == Err::<Seq<EventModel>, Seq<char>>(fault@),
        },
{
    let mut events: Vec<WlanEvent> = Vec::new();
    let mut i: usize = 0;
    proof {
        assert(documents@.take(0) =~= seq![]);
        assert(models(events@) =~= seq![]);
    }
    while i < documents.len()
        invariant
            i <= documents@.len(),
            all_decoded(documents@.take(i as int)) == Ok::<Seq<EventModel>, Seq<char>>(
                models(events@),
            ),
        decreases documents@.len() - i,
    {
        proof {
            assert(documents@.take(i + 1).drop_last() =~= documents@.take(i as int));
            assert(documents@.take(i + 1).last() == documents@[i as int]);
        }
        match decode(documents[i].as_str()) {
            Ok(event) => {
                let ghost before = events@;
                events.push(event);
                proof {
                    assert(models(events@) =~= models(before).push(event@));
                }
            },
            Err(fault) => {
                let mut said = "failed to decode WLAN event ".to_owned();
                append_decimal(&mut said, i as u64);
                said.append(": ");
                said.append(fault.as_str());
                proof {
                    assert(said@ =~= decode_fault(i as int, fault@));
                    lemma_decoded_prefix(documents@, i + 1);
                }
                return Err(said);
            },
        }
        i = i + 1;
    }
    proof {
        assert(documents@.take(i as int) =~= documents@);
    }
    Ok(events)
}

fn floor_of(now: i64, window: u64) -> (r: i64)
    ensures
        r == window_floor(now as int, window as nat),
{
    let reach: i64 = if window > 0x7FFF_FFFF_FFFF_FFFF {
        i64::MAX
    } else {
        window as i64
    };
    if now < i64::MIN + reach {
        i64::MIN
    } else {
        now - reach
    }
}

/// The most recent events, out of their documents as the log renders them,
/// newest first; `now` is the time that a window counts back from.
pub fn recent(documents: &Vec<String>, now: i64, within_seconds: Option<u64>) -> (r: Result<
    Vec<WlanEvent>,
    String,
>)
    ensures
        match r {
            Ok(events) => all_decoded(documents@) matches Ok(all) && models(events@) == within(
                all,
                now as int,
                within_seconds,
            ),
            Err(fault) => all_decoded(documents@) == Err::<Seq<EventModel>, Seq<char>>(fault@),
        },
{
    let all = match decode_all(documents) {
        Ok(all) => all,
        Err(fault) => {
            return Err(fault);
        },
    };
    let floor: i64 = match within_seconds {
        Some(window) => floor_of(now, window),
        None => {
            return Ok(all);
        },
    };
    let ghost kept = |event: EventModel|
        event.epoch_seconds >= window_floor(now as int, within_seconds->0 as nat);
    let mut events: Vec<WlanEvent> = Vec::new();
    let mut i: usize = 0;
    proof {
        assert(models(all@).take(0) =~= seq![]);
        assert(models(all@).take(0).filter(kept) =~= seq![]) by {
            reveal(Seq::filter);
        }
        assert(models(events@) =~= seq![]);
    }
    while i < all.len()
        invariant
            i <= all@.len(),
            within_seconds is Some,
            floor == window_floor(now as int, within_seconds->0 as nat),
            kept == (|event: EventModel|
                event.epoch_seconds >= window_floor(now as int, within_seconds->0 as nat)),
            models(events@) == models(all@).take(i as int).filter(kept),
        decreases all@.len() - i,
    {
        let ghost before = events@;
        let ghost prefix = models(all@).take(i + 1);
        proof {
            assert(prefix.drop_last() =~= models(all@).take(i as int));
            reveal(Seq::filter);
        }
        if all[i].epoch_seconds >= floor {
            events.push(all[i].clone());
            proof {
                assert(models(events@) =~= models(before).push(all@[i as int]@));
            }
        }
        i = i + 1;
    }
    proof {
        assert(models(all@).take(i as int) =~= models(all@));
    }
    Ok(events)
}

} // verus!
