use meet_scheduler::event::{
    check_response_status, get_meet_link, make_meet_event, ConferenceData, EntryPoint, ReqError,
    ScheduledEvent,
};
use meet_scheduler::time::{Date, TimeOfDay, UtcInstant};

fn instant(year: u16, month: u8, day: u8, hour: u8, minute: u8) -> UtcInstant {
    UtcInstant {
        date: Date { year, month, day },
        time: TimeOfDay { hour, minute, second: 0, nanosecond: 0 },
    }
}

#[test]
fn request_carries_all_fields() {
    let start = instant(2023, 6, 1, 0, 0);
    let end = instant(2023, 6, 1, 1, 0);
    let req = make_meet_event(
        "standup".to_string(),
        start,
        end,
        Some("Asia/Shanghai".to_string()),
        "abcdefghijklmnopqrstuvwxyz012345".to_string(),
    );
    assert_eq!(req.summary, "standup");
    assert_eq!(req.start, start);
    assert_eq!(req.end, end);
    assert_eq!(req.time_zone.as_deref(), Some("Asia/Shanghai"));
    assert_eq!(req.conference_solution, "hangoutsMeet");
    assert_eq!(req.conference_request_id, "abcdefghijklmnopqrstuvwxyz012345");
}

#[test]
fn success_codes_are_accepted() {
    assert_eq!(check_response_status(200), Ok(()));
    assert_eq!(check_response_status(299), Ok(()));
}

#[test]
fn failure_codes_are_rejected_with_their_code() {
    assert_eq!(check_response_status(199), Err(ReqError::FailedCode(199)));
    assert_eq!(check_response_status(404), Err(ReqError::FailedCode(404)));
    assert_eq!(check_response_status(500), Err(ReqError::FailedCode(500)));
}

#[test]
fn link_of_first_entry_point() {
    let event = ScheduledEvent {
        conference_data: Some(ConferenceData {
            entry_points: Some(vec![
                EntryPoint { uri: Some("https://meet.example/abc".to_string()) },
                EntryPoint { uri: Some("https://meet.example/other".to_string()) },
            ]),
        }),
    };
    assert_eq!(get_meet_link(&event), Some("https://meet.example/abc"));
}

#[test]
fn first_entry_point_without_uri_yields_nothing() {
    // The first entry is favoured even when a later one carries a URI.
    let event = ScheduledEvent {
        conference_data: Some(ConferenceData {
            entry_points: Some(vec![
                EntryPoint { uri: None },
                EntryPoint { uri: Some("https://meet.example/other".to_string()) },
            ]),
        }),
    };
    assert_eq!(get_meet_link(&event), None);
}

#[test]
fn missing_conference_data_yields_nothing() {
    assert_eq!(get_meet_link(&ScheduledEvent { conference_data: None }), None);
    assert_eq!(
        get_meet_link(&ScheduledEvent {
            conference_data: Some(ConferenceData { entry_points: None }),
        }),
        None
    );
    assert_eq!(
        get_meet_link(&ScheduledEvent {
            conference_data: Some(ConferenceData { entry_points: Some(vec![]) }),
        }),
        None
    );
}
