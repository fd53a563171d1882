use radiochron::events::sys::{
    first_query, on_batch, query_failure, query_text, render_failure, render_size, rendered_text, wide,
    BatchReply, BatchStep,
};
use radiochron::events::xml::{attribute, element_text, event_data};
use radiochron::events::{decode, meaning, recent, WlanEvent};
use radiochron::ordered::StringMap;

fn event(id: u32, fields: &[(&str, &str)]) -> WlanEvent {
    let mut data = StringMap::new();
    for (name, value) in fields {
        data.insert((*name).to_string(), (*value).to_string());
    }
    WlanEvent {
        event_id: id,
        record_id: None,
        time_created: "2026-07-20T08:00:00.0000000Z".into(),
        epoch_seconds: 0,
        meaning: meaning(id),
        data,
        named_fields: true,
    }
}

#[test]
fn numeric_fields_accept_hex_and_decimal() {
    let e = event(8002, &[("ReasonCode", "229396"), ("Other", "0x48005")]);
    assert_eq!(e.numeric_field("ReasonCode"), Some(229_396));
    assert_eq!(e.numeric_field("Other"), Some(0x48005));
    assert_eq!(e.numeric_field("Absent"), None);
}

#[test]
fn connection_id_shifts_only_when_the_value_cannot_be_a_low_dword() {
    // The observed 11001 encoding.
    let packed = event(11001, &[("ConnectionId", "0x1300000001")]);
    assert_eq!(packed.connection_id(), Some(0x13));

    // A plain id must survive untouched, whatever the event.
    let plain = event(11001, &[("ConnectionId", "0x13")]);
    assert_eq!(plain.connection_id(), Some(0x13));
}

#[test]
fn interface_guid_accepts_either_family_spelling() {
    assert_eq!(
        event(8000, &[("InterfaceGuid", "{abc}")]).interface_guid(),
        Some("{abc}")
    );
    assert_eq!(
        event(11004, &[("DeviceGuid", "{abc}")]).interface_guid(),
        Some("{abc}")
    );
}

#[test]
fn unrecognised_ids_are_surfaced_not_dropped() {
    assert_eq!(meaning(99999), "unrecognised event");
}

#[test]
fn decode_preserves_event_record_id_for_lossless_tailing() {
    let document = r#"<Event><System><EventID>8001</EventID><EventRecordID>42</EventRecordID><TimeCreated SystemTime="2026-07-20T08:00:00.0000000Z"/></System><EventData/></Event>"#;
    let decoded = decode(document).unwrap();
    assert_eq!(decoded.record_id, Some(42));
}

#[test]
fn numbers_are_read_within_their_range() {
    let e = event(
        1,
        &[
            ("Spaced", "  0X1f \n"),
            ("Largest", "18446744073709551615"),
            ("TooLarge", "18446744073709551616"),
            ("Empty", "0x"),
            ("Signed", "+7"),
            ("Negative", "-7"),
            ("Word", "seven"),
        ],
    );
    assert_eq!(e.numeric_field("Spaced"), Some(0x1f));
    assert_eq!(e.numeric_field("Largest"), Some(u64::MAX));
    assert_eq!(e.numeric_field("TooLarge"), None);
    assert_eq!(e.numeric_field("Empty"), None);
    assert_eq!(e.numeric_field("Signed"), Some(7));
    assert_eq!(e.numeric_field("Negative"), None);
    assert_eq!(e.numeric_field("Word"), None);
    assert_eq!(e.field("Word"), Some("seven"));
}

fn document(id: &str, record: &str, time: &str, data: &str) -> String {
    format!(
        "<Event xmlns='http://schemas.microsoft.com/win/2004/08/events/event'><System>\
         <Provider Name='Microsoft-Windows-WLAN-AutoConfig'/>{id}{record}\
         <TimeCreated SystemTime='{time}'/></System><EventData>{data}</EventData></Event>"
    )
}

#[test]
fn a_rendered_event_is_decoded() {
    let decoded = decode(&document(
        "<EventID Qualifiers='0'> 8002 </EventID>",
        "",
        "2024-01-01T00:00:00.5Z",
        "<Data Name='SSID'>A &amp; B</Data><Data Name='ReasonCode'>0x3</Data><Data Name='Empty'/>",
    ))
    .unwrap();
    assert_eq!(decoded.event_id, 8002);
    assert_eq!(decoded.record_id, None);
    assert_eq!(decoded.epoch_seconds, 1_704_067_200);
    assert_eq!(decoded.time_created, "2024-01-01T00:00:00.5Z");
    assert_eq!(decoded.meaning, "connection failed");
    assert_eq!(decoded.field("SSID"), Some("A & B"));
    assert_eq!(decoded.numeric_field("ReasonCode"), Some(3));
    assert_eq!(decoded.field("Empty"), Some(""));
    assert!(decoded.named_fields);
}

#[test]
fn data_without_names_is_noticed() {
    let (fields, named) = event_data("<EventData><Data>1</Data><Data Name='A'>2</Data></EventData>");
    assert!(!named);
    assert_eq!(fields.len(), 1);
    assert_eq!(fields.get("A").map(String::as_str), Some("2"));
}

#[test]
fn tags_are_told_apart_by_their_whole_name() {
    let text = "<EventIDs>1</EventIDs><EventID>2</EventID>";
    assert_eq!(element_text(text, "EventID").as_deref(), Some("2"));
    assert_eq!(element_text(text, "Event"), None);
    assert_eq!(element_text("<A>1", "A"), None);
    assert_eq!(
        attribute("<T x=\"1\" y='&lt;2&gt;'>", "T", "y").as_deref(),
        Some("<2>")
    );
    assert_eq!(attribute("<T xy='1'>", "T", "y"), None);
}

#[test]
fn a_document_that_cannot_be_decoded_says_why() {
    let id = "<EventID>8001</EventID>";
    let time = "2024-01-01T00:00:00Z";
    let said = |document: String| decode(&document).unwrap_err();
    assert_eq!(said(document("", "", time, "")), "missing EventID");
    assert_eq!(
        said(document("<EventID>x</EventID>", "", time, "")),
        "invalid EventID: invalid digit found in string"
    );
    assert_eq!(
        said(document("<EventID>4294967296</EventID>", "", time, "")),
        "invalid EventID: number too large to fit in target type"
    );
    assert_eq!(
        said(document(id, "<EventRecordID></EventRecordID>", time, "")),
        "invalid EventRecordID: cannot parse integer from empty string"
    );
    assert_eq!(
        said(format!("<Event>{id}</Event>")),
        "missing TimeCreated/SystemTime"
    );
    assert_eq!(
        said(document(id, "", "yesterday", "")),
        "invalid SystemTime: yesterday"
    );
}

#[test]
fn recent_events_lie_within_the_window() {
    let id = "<EventID>8001</EventID>";
    let documents = vec![
        document(id, "", "1970-01-01T00:01:40Z", ""),
        document(id, "", "1970-01-01T00:00:30Z", ""),
        document(id, "", "1970-01-01T00:00:29Z", ""),
    ];
    let times = |window: Option<u64>| -> Vec<i64> {
        recent(&documents, 100, window)
            .unwrap()
            .iter()
            .map(|event| event.epoch_seconds)
            .collect()
    };
    assert_eq!(times(None), [100, 30, 29]);
    assert_eq!(times(Some(70)), [100, 30]);
    assert_eq!(times(Some(u64::MAX)), [100, 30, 29]);
    let broken = vec![documents[0].clone(), "<Event/>".to_string()];
    assert_eq!(
        recent(&broken, 100, None).unwrap_err(),
        "failed to decode WLAN event 1: missing EventID"
    );
}

#[test]
fn queries_are_written_in_milliseconds() {
    assert_eq!(query_text(None).unwrap(), "*");
    assert_eq!(first_query(0, Some(u64::MAX)), Ok(None));
    assert_eq!(first_query(5, None), Ok(Some("*".to_string())));
    assert!(first_query(5, Some(u64::MAX)).is_err());
    assert_eq!(
        query_text(Some(90)).unwrap(),
        "*[System[TimeCreated[timediff(@SystemTime) <= 90000]]]"
    );
    assert_eq!(
        query_text(Some(u64::MAX)).unwrap_err(),
        "event history window is too large"
    );
}

#[test]
fn a_failed_query_is_never_an_empty_history() {
    assert_eq!(
        query_failure("chan", 5),
        "access denied reading chan. Run RadioChron elevated to read the WLAN event log."
    );
    assert_eq!(query_failure("chan", 15007), "event channel not found: chan");
    assert_eq!(query_failure("chan", 87), "EvtQuery failed on chan (error 87)");
    match on_batch("chan", 3, 8, BatchReply::Failed(6)) {
        BatchStep::Fail(said) => {
            assert_eq!(said, "EvtNext failed on chan after 3 rendered events (error 6)")
        }
        _ => panic!("expected a failure"),
    }
    assert!(matches!(
        on_batch("chan", 3, 8, BatchReply::Failed(259)),
        BatchStep::Finish
    ));
}

#[test]
fn batches_are_taken_as_far_as_they_are_wanted() {
    let taken = |have, max, returned| match on_batch("chan", have, max, BatchReply::Returned(returned)) {
        BatchStep::Render { count, more } => (count, more),
        _ => panic!("expected a batch"),
    };
    assert_eq!(taken(0, 100, 32), (32, true));
    assert_eq!(taken(0, 100, 31), (31, false));
    assert_eq!(taken(92, 100, 32), (8, false));
    assert_eq!(taken(68, 100, 32), (32, false));
    assert_eq!(taken(0, 100, 0), (0, false));
}

#[test]
fn events_are_rendered_in_two_calls() {
    assert_eq!(render_size(10, 122).unwrap(), 6);
    assert_eq!(render_size(11, 122).unwrap(), 6);
    assert_eq!(
        render_size(0, 122).unwrap_err(),
        "EvtRender sizing failed (error 122, needed 0 bytes)"
    );
    assert_eq!(
        render_size(10, 0).unwrap_err(),
        "EvtRender sizing failed (error 0, needed 10 bytes)"
    );
    assert_eq!(render_failure(7), "EvtRender failed (error 7)");
}

#[test]
fn text_goes_to_the_system_and_back() {
    assert_eq!(wide("a\u{e9}"), vec![0x61, 0xe9, 0]);
    assert_eq!(wide("\u{1f600}"), vec![0xd83d, 0xde00, 0]);
    for text in ["", "a\u{e9}", "\u{1f600}\u{ffff}z"] {
        assert_eq!(rendered_text(&wide(text)), text);
    }
    assert_eq!(rendered_text(&[0x61, 0, 0x62]), "a");
    assert_eq!(rendered_text(&[0x61, 0xd800]), "a\u{fffd}");
}
