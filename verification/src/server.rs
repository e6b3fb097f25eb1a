use vstd::prelude::*;
use crate::config::VERSION;
use crate::state::SharedData;
use crate::text::string_is_empty;

verus! {

pub const STATUS_OK: u16 = 200;
pub const STATUS_TOO_MANY_REQUESTS: u16 = 429;
pub const STATUS_SERVICE_UNAVAILABLE: u16 = 503;

pub const NOT_READY: &'static str = "Not ready yet. Please wait for the first scan.";
pub const CONTENT_TYPE_M3U8: &'static str = "application/vnd.apple.mpegurl";
pub const CONTENT_TYPE_TEXT: &'static str = "text/plain; charset=utf-8";

/// An HTTP reply: status code, `Content-Type` and body.
pub struct Reply {
    pub status: u16,
    pub content_type: String,
    pub body: String,
}

/// The reply to a playlist request: the playlist with its content type, or
/// 503 while there is none yet.
pub open spec fn playlist_reply_ok(r: Reply, body: Seq<char>, content_type: Seq<char>) -> bool {
    if body.len() == 0 {
        r.status == STATUS_SERVICE_UNAVAILABLE && r.content_type@ == CONTENT_TYPE_TEXT@
            && r.body@ == NOT_READY@
    } else {
        r.status == STATUS_OK && r.content_type@ == content_type && r.body@ == body
    }
}

fn playlist_reply(body: &String, content_type: &str) -> (r: Reply)
    ensures
        playlist_reply_ok(r, body@, content_type@),
{
    if string_is_empty(body) {
        Reply {
            status: STATUS_SERVICE_UNAVAILABLE,
            content_type: String::from_str(CONTENT_TYPE_TEXT),
            body: String::from_str(NOT_READY),
        }
    } else {
        Reply {
            status: STATUS_OK,
            content_type: String::from_str(content_type),
            body: body.clone(),
        }
    }
}

/// Serves the M3U8 playlist.
pub fn handle_m3u8(data: &SharedData) -> (r: Reply)
    ensures
        playlist_reply_ok(r, data.m3u8@, CONTENT_TYPE_M3U8@),
{
    playlist_reply(&data.m3u8, CONTENT_TYPE_M3U8)
}

/// Serves the TXT playlist.
pub fn handle_txt(data: &SharedData) -> (r: Reply)
    ensures
        playlist_reply_ok(r, data.txt@, CONTENT_TYPE_TEXT@),
{
    playlist_reply(&data.txt, CONTENT_TYPE_TEXT)
}

/// The fields of the status reply.
pub struct StatusReply {
    pub status: String,
    pub last_run: String,
    pub version: String,
}

/// The service status: "updating" while a run is under way, else "idle";
/// the time of the last run; the version.
pub fn handle_status(data: &SharedData, running: bool) -> (r: StatusReply)
    ensures
        r.status@ == if running {
            "updating"@
        } else {
            "idle"@
        },
        r.last_run@ == data.last_run@,
        r.version@ == VERSION@,
{
    let status = if running {
        String::from_str("updating")
    } else {
        String::from_str("idle")
    };
    StatusReply { status, last_run: data.last_run.clone(), version: String::from_str(VERSION) }
}

/// The answer to a request for a new run.
pub struct RetestReply {
    pub status: u16,
    pub state: String,
    /// Whether the caller is to start a run.
    pub start: bool,
}

/// Refuses a new run with 429 "busy" while one is under way; otherwise
/// answers "started" and asks for a run.
pub fn handle_force_retest(running: bool) -> (r: RetestReply)
    ensures
        r.start == !running,
        r.status == if running {
            STATUS_TOO_MANY_REQUESTS
        } else {
            STATUS_OK
        },
        r.state@ == if running {
            "busy"@
        } else {
            "started"@
        },
{
    if running {
        RetestReply {
            status: STATUS_TOO_MANY_REQUESTS,
            state: String::from_str("busy"),
            start: false,
        }
    } else {
        RetestReply { status: STATUS_OK, state: String::from_str("started"), start: true }
    }
}

} // verus!
