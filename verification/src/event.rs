//! Building calendar-event requests with an auto-provisioned
//! video-conferencing link, and reading the join link back out of a
//! created event.

use crate::time::UtcInstant;
use vstd::prelude::*;

verus! {

/// A request to create a calendar event carrying a video-conferencing
/// creation request. The caller submits it to the remote calendar service.
pub struct MeetEventRequest {
    pub summary: String,
    pub start: UtcInstant,
    pub end: UtcInstant,
    /// The timezone label each timestamp is tagged with.
    pub time_zone: Option<String>,
    /// The conferencing solution asked of the provider.
    pub conference_solution: String,
    /// The idempotency token of the conferencing-creation request.
    pub conference_request_id: String,
}

/// Why a scheduling call failed once a response arrived.
#[derive(Clone, Copy, Debug, PartialEq, Eq, Structural)]
pub enum ReqError {
    /// The remote service answered with a failure status code.
    FailedCode(u16),
}

/// Builds the event-creation request: the summary, timestamps and
/// timezone label as given, and a conferencing-creation request for the
/// `"hangoutsMeet"` solution tagged with the supplied idempotency token.
pub fn make_meet_event(
    summary: String,
    start_time: UtcInstant,
    end_time: UtcInstant,
    time_zone: Option<String>,
    request_id: String,
) -> (r: MeetEventRequest)
    ensures
        r.summary == summary,
        r.start == start_time,
        r.end == end_time,
        r.time_zone == time_zone,
        r.conference_solution@ == "hangoutsMeet"@,
        r.conference_request_id == request_id,
{
    MeetEventRequest {
        summary,
        start: start_time,
        end: end_time,
        time_zone,
        conference_solution: "hangoutsMeet".to_owned(),
        conference_request_id: request_id,
    }
}

/// Classifies the status code of the remote service's response: the
/// success range is accepted, everything else is a rejection carrying
/// that very code.
pub fn check_response_status(status: u16) -> (r: Result<(), ReqError>)
    ensures
        200 <= status < 300 ==> r == Ok::<(), ReqError>(()),
        !(200 <= status < 300) ==> r == Err::<(), ReqError>(ReqError::FailedCode(status)),
{
    if 200 <= status && status < 300 {
        Ok(())
    } else {
        Err(ReqError::FailedCode(status))
    }
}

/// A conferencing entry point of a created event: one access method,
/// with its join URI where the provider named one.
pub struct EntryPoint {
    pub uri: Option<String>,
}

/// The conferencing data attached to a created event.
pub struct ConferenceData {
    pub entry_points: Option<Vec<EntryPoint>>,
}

/// A created calendar event — as much of it as link extraction reads.
pub struct ScheduledEvent {
    pub conference_data: Option<ConferenceData>,
}

/// The join link the event carries: the URI of the first conferencing
/// entry point, or nothing where no conferencing data, no entry points,
/// or no URI on the first entry point exists.
pub open spec fn meet_link_spec(e: ScheduledEvent) -> Option<Seq<char>> {
    match e.conference_data {
        Option::Some(cd) => match cd.entry_points {
            Option::Some(eps) => if eps@.len() > 0 {
                match eps@[0].uri {
                    Option::Some(u) => Option::Some(u@),
                    Option::None => Option::None,
                }
            } else {
                Option::None
            },
            Option::None => Option::None,
        },
        Option::None => Option::None,
    }
}

/// Reads the join link of the event's first conferencing entry point.
/// The first entry is favoured deterministically: the provider is taken
/// to place the primary join URI first.
pub fn get_meet_link(event: &ScheduledEvent) -> (r: Option<&str>)
    ensures
        r matches Some(s) ==> meet_link_spec(*event) == Option::Some(s@),
        r is None ==> meet_link_spec(*event) is None,
{
    match &event.conference_data {
        Option::None => None,
        Option::Some(cd) => match &cd.entry_points {
            Option::None => None,
            Option::Some(eps) => if eps.len() > 0 {
                match &eps[0].uri {
                    Option::None => None,
                    Option::Some(u) => Some(u.as_str()),
                }
            } else {
                None
            },
        },
    }
}

} // verus!
