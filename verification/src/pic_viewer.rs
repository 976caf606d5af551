//! The picture viewer's trust boundary and its polling loop.
//!
//! Every frame the viewer's client receives goes through [`parse_capture_notification`], and only what
//! it returns is ever displayed: a well-formed `et-agent-message` whose payload announces a stored eye
//! capture under a same-origin `/storage/` path. The loop itself ([`ViewerProgress`]) stops after a
//! stretch without new pictures, after an overall budget of polls, or on request.

use vstd::prelude::*;
use crate::text::{chars_of, range_equals};
use crate::wire::{JsonValue, find_member, json_get, member};

verus! {

pub open spec fn type_key() -> Seq<char> {
    seq!['t', 'y', 'p', 'e']
}

pub open spec fn agent_message_type() -> Seq<char> {
    seq!['e', 't', '-', 'a', 'g', 'e', 'n', 't', '-', 'm', 'e', 's', 's', 'a', 'g', 'e']
}

pub open spec fn message_id_key() -> Seq<char> {
    seq!['m', 'e', 's', 's', 'a', 'g', 'e', '_', 'i', 'd']
}

pub open spec fn from_agent_id_key() -> Seq<char> {
    seq!['f', 'r', 'o', 'm', '_', 'a', 'g', 'e', 'n', 't', '_', 'i', 'd']
}

pub open spec fn scope_key() -> Seq<char> {
    seq!['s', 'c', 'o', 'p', 'e']
}

pub open spec fn server_received_at_key() -> Seq<char> {
    seq!['s', 'e', 'r', 'v', 'e', 'r', '_', 'r', 'e', 'c', 'e', 'i', 'v', 'e', 'd', '_', 'a', 't']
}

pub open spec fn message_key() -> Seq<char> {
    seq!['m', 'e', 's', 's', 'a', 'g', 'e']
}

pub open spec fn broadcast_word() -> Seq<char> {
    seq!['b', 'r', 'o', 'a', 'd', 'c', 'a', 's', 't']
}

pub open spec fn direct_word() -> Seq<char> {
    seq!['d', 'i', 'r', 'e', 'c', 't']
}

pub open spec fn kind_key() -> Seq<char> {
    seq!['k', 'i', 'n', 'd']
}

/// The `kind` discriminator of a capture-stored announcement.
pub open spec fn capture_kind() -> Seq<char> {
    seq![
        'p', 'y', 'e', 'y', 'e', '1', '_', 'c', 'a', 'p', 't', 'u', 'r', 'e', '_', 's', 't', 'o', 'r', 'e', 'd',
    ]
}

pub open spec fn url_key() -> Seq<char> {
    seq!['u', 'r', 'l']
}

pub open spec fn filename_key() -> Seq<char> {
    seq!['f', 'i', 'l', 'e', 'n', 'a', 'm', 'e']
}

pub open spec fn storage_prefix() -> Seq<char> {
    seq!['/', 's', 't', 'o', 'r', 'a', 'g', 'e', '/']
}

/// The text of a string value.
pub open spec fn as_text(v: Option<JsonValue>) -> Option<Seq<char>> {
    match v {
        Some(JsonValue::String(s)) => Some(s@),
        _ => None,
    }
}

/// A frame the hub sends when relaying another agent's message: an object typed `et-agent-message`
/// with string `message_id`, `from_agent_id` and `server_received_at`, a `broadcast` or `direct`
/// `scope`, and a `message` payload.
pub open spec fn is_agent_message(frame: JsonValue) -> bool {
    &&& as_text(json_get(frame, type_key())) == Some(agent_message_type())
    &&& as_text(json_get(frame, message_id_key())) is Some
    &&& as_text(json_get(frame, from_agent_id_key())) is Some
    &&& (as_text(json_get(frame, scope_key())) == Some(broadcast_word()) || as_text(json_get(frame, scope_key()))
        == Some(direct_word()))
    &&& as_text(json_get(frame, server_received_at_key())) is Some
    &&& json_get(frame, message_key()) is Some
}

/// A capture announcement's payload: `kind` is the capture kind and `url` a string under `/storage/`.
pub open spec fn is_capture_payload(payload: JsonValue) -> bool {
    &&& as_text(json_get(payload, kind_key())) == Some(capture_kind())
    &&& as_text(json_get(payload, url_key())) matches Some(url) && url.len() >= storage_prefix().len() && url.take(
        storage_prefix().len() as int,
    ) == storage_prefix()
}

/// One decoded capture announcement: who stored the image and the storage path to fetch it from.
pub struct CaptureNotification {
    pub from_agent_id: String,
    pub filename: String,
    pub url: String,
}

/// The member `key` of `members` as a string, by index.
fn text_member(members: &Vec<(String, JsonValue)>, key: &Vec<char>) -> (r: Option<usize>)
    ensures
        match r {
            Some(i) => i < members.len() && members@[i as int].1 is String && as_text(member(members@, key@))
                == Some(members@[i as int].1->String_0@),
            None => as_text(member(members@, key@)) is None,
        },
{
    match find_member(members, key) {
        Some(i) => match &members[i].1 {
            JsonValue::String(_) => Some(i),
            _ => None,
        },
        None => None,
    }
}

/// Whether the string member at `i` equals `lit`.
fn text_equals(members: &Vec<(String, JsonValue)>, i: usize, lit: &Vec<char>) -> (r: bool)
    requires
        i < members.len(),
        members@[i as int].1 is String,
    ensures
        r == (members@[i as int].1->String_0@ == lit@),
{
    match &members[i].1 {
        JsonValue::String(s) => {
            let v = chars_of(s.as_str());
            assert(v@.subrange(0, v@.len() as int) =~= v@);
            range_equals(&v, 0, v.len(), lit)
        },
        _ => false,
    }
}

/// Decode one frame into a capture announcement, or `None` for any other traffic. The image URL is only
/// accepted as a same-origin `/storage/` path, since announcements come from arbitrary peers; a missing
/// or non-string filename reads as empty.
pub fn parse_capture_notification(frame: &JsonValue) -> (r: Option<CaptureNotification>)
    ensures
        r is Some <==> is_agent_message(*frame) && is_capture_payload(json_get(*frame, message_key()).unwrap()),
        r matches Some(n) ==> {
            &&& as_text(json_get(*frame, from_agent_id_key())) == Some(n.from_agent_id@)
            &&& as_text(json_get(json_get(*frame, message_key()).unwrap(), url_key())) == Some(n.url@)
            &&& n.filename@ == match as_text(json_get(json_get(*frame, message_key()).unwrap(), filename_key())) {
                Some(f) => f,
                None => Seq::empty(),
            }
        },
{
    let members = match frame {
        JsonValue::Object(members) => members,
        _ => return None,
    };
    let k_type: Vec<char> = vec!['t', 'y', 'p', 'e'];
    let w_type: Vec<char> = vec!['e', 't', '-', 'a', 'g', 'e', 'n', 't', '-', 'm', 'e', 's', 's', 'a', 'g', 'e'];
    let k_id: Vec<char> = vec!['m', 'e', 's', 's', 'a', 'g', 'e', '_', 'i', 'd'];
    let k_from: Vec<char> = vec!['f', 'r', 'o', 'm', '_', 'a', 'g', 'e', 'n', 't', '_', 'i', 'd'];
    let k_scope: Vec<char> = vec!['s', 'c', 'o', 'p', 'e'];
    let w_broadcast: Vec<char> = vec!['b', 'r', 'o', 'a', 'd', 'c', 'a', 's', 't'];
    let w_direct: Vec<char> = vec!['d', 'i', 'r', 'e', 'c', 't'];
    let k_at: Vec<char> = vec!['s', 'e', 'r', 'v', 'e', 'r', '_', 'r', 'e', 'c', 'e', 'i', 'v', 'e', 'd', '_', 'a', 't'];
    let k_message: Vec<char> = vec!['m', 'e', 's', 's', 'a', 'g', 'e'];
    assert(k_type@ =~= type_key());
    assert(w_type@ =~= agent_message_type());
    assert(k_id@ =~= message_id_key());
    assert(k_from@ =~= from_agent_id_key());
    assert(k_scope@ =~= scope_key());
    assert(w_broadcast@ =~= broadcast_word());
    assert(w_direct@ =~= direct_word());
    assert(k_at@ =~= server_received_at_key());
    assert(k_message@ =~= message_key());
    let i_type = match text_member(members, &k_type) {
        Some(i) => i,
        None => return None,
    };
    if !text_equals(members, i_type, &w_type) {
        return None;
    }
    if text_member(members, &k_id).is_none() {
        return None;
    }
    let i_from = match text_member(members, &k_from) {
        Some(i) => i,
        None => return None,
    };
    let i_scope = match text_member(members, &k_scope) {
        Some(i) => i,
        None => return None,
    };
    if !(text_equals(members, i_scope, &w_broadcast) || text_equals(members, i_scope, &w_direct)) {
        return None;
    }
    if text_member(members, &k_at).is_none() {
        return None;
    }
    let payload = match find_member(members, &k_message) {
        Some(i) => &members[i].1,
        None => return None,
    };
    let from_agent_id = match &members[i_from].1 {
        JsonValue::String(s) => s.clone(),
        _ => return None,
    };
    let pmembers = match payload {
        JsonValue::Object(pm) => pm,
        _ => return None,
    };
    let k_kind: Vec<char> = vec!['k', 'i', 'n', 'd'];
    let w_kind: Vec<char> = vec![
        'p', 'y', 'e', 'y', 'e', '1', '_', 'c', 'a', 'p', 't', 'u', 'r', 'e', '_', 's', 't', 'o', 'r', 'e', 'd',
    ];
    let k_url: Vec<char> = vec!['u', 'r', 'l'];
    let k_filename: Vec<char> = vec!['f', 'i', 'l', 'e', 'n', 'a', 'm', 'e'];
    let prefix: Vec<char> = vec!['/', 's', 't', 'o', 'r', 'a', 'g', 'e', '/'];
    assert(k_kind@ =~= kind_key());
    assert(w_kind@ =~= capture_kind());
    assert(k_url@ =~= url_key());
    assert(k_filename@ =~= filename_key());
    assert(prefix@ =~= storage_prefix());
    let i_kind = match text_member(pmembers, &k_kind) {
        Some(i) => i,
        None => return None,
    };
    if !text_equals(pmembers, i_kind, &w_kind) {
        return None;
    }
    let url = match text_member(pmembers, &k_url) {
        Some(i) => match &pmembers[i].1 {
            JsonValue::String(s) => s,
            _ => return None,
        },
        None => return None,
    };
    let uv = chars_of(url.as_str());
    if uv.len() < prefix.len() || !range_equals(&uv, 0, prefix.len(), &prefix) {
        return None;
    }
    assert(uv@.subrange(0, 9) =~= uv@.take(9));
    let filename = match text_member(pmembers, &k_filename) {
        Some(i) => match &pmembers[i].1 {
            JsonValue::String(s) => s.clone(),
            _ => String::new(),
        },
        None => String::new(),
    };
    Some(CaptureNotification { from_agent_id, filename, url: url.clone() })
}

/// Empty polls without a new picture before the viewer stops (about 60 seconds).
pub const IDLE_STOP_POLLS: u32 = 600;

/// Polls before the viewer stops regardless (about 5 minutes).
pub const MAX_RUNTIME_POLLS: u32 = 3000;

/// Why the viewer loop ended.
#[derive(Clone, Copy, Debug, PartialEq, Eq, Structural)]
pub enum StopReason {
    Requested,
    Runtime,
    Idle,
}

/// What the viewer loop does on one poll.
#[derive(Clone, Copy, Debug, PartialEq, Eq, Structural)]
pub enum PollStep {
    Stop(StopReason),
    /// No announcement queued: wait one poll interval.
    Wait,
    /// Display the announcement taken from the queue.
    Display,
}

/// The viewer loop's counters.
pub struct ViewerProgress {
    pub shown: u32,
    pub idle_polls: u32,
    pub total_polls: u32,
}

impl ViewerProgress {
    pub fn new() -> (r: ViewerProgress)
        ensures
            r.shown == 0,
            r.idle_polls == 0,
            r.total_polls == 0,
    {
        ViewerProgress { shown: 0, idle_polls: 0, total_polls: 0 }
    }

    /// Decide one poll: stop on request, after [`MAX_RUNTIME_POLLS`] polls or after
    /// [`IDLE_STOP_POLLS`] idle ones; otherwise count the poll and wait or display.
    pub fn poll(&mut self, stop_requested: bool, has_next: bool) -> (step: PollStep)
        ensures
            final(self).shown == old(self).shown,
            // The loop ends: a poll that goes on counts toward a budget it never exceeds.
            !(step is Stop) ==> final(self).total_polls == old(self).total_polls + 1 && final(self).total_polls
                <= MAX_RUNTIME_POLLS,
            stop_requested ==> step == PollStep::Stop(StopReason::Requested) && *final(self) == *old(self),
            !stop_requested && old(self).total_polls >= MAX_RUNTIME_POLLS ==> step == PollStep::Stop(
                StopReason::Runtime,
            ) && *final(self) == *old(self),
            !stop_requested && old(self).total_polls < MAX_RUNTIME_POLLS && old(self).idle_polls >= IDLE_STOP_POLLS
                ==> step == PollStep::Stop(StopReason::Idle) && *final(self) == *old(self),
            !stop_requested && old(self).total_polls < MAX_RUNTIME_POLLS && old(self).idle_polls < IDLE_STOP_POLLS
                ==> {
                &&& final(self).total_polls == old(self).total_polls + 1
                &&& if has_next {
                    step == PollStep::Display && final(self).idle_polls == old(self).idle_polls
                } else {
                    step == PollStep::Wait && final(self).idle_polls == old(self).idle_polls + 1
                }
            },
    {
        if stop_requested {
            return PollStep::Stop(StopReason::Requested);
        }
        if self.total_polls >= MAX_RUNTIME_POLLS {
            return PollStep::Stop(StopReason::Runtime);
        }
        if self.idle_polls >= IDLE_STOP_POLLS {
            return PollStep::Stop(StopReason::Idle);
        }
        self.total_polls = self.total_polls + 1;
        if has_next {
            PollStep::Display
        } else {
            self.idle_polls = self.idle_polls + 1;
            PollStep::Wait
        }
    }

    /// A picture was displayed: count it and restart the idle window.
    pub fn displayed(&mut self)
        ensures
            final(self).shown == (if old(self).shown == u32::MAX { u32::MAX } else { (old(self).shown + 1) as u32 }),
            final(self).idle_polls == 0,
            final(self).total_polls == old(self).total_polls,
    {
        self.shown = self.shown.saturating_add(1);
        self.idle_polls = 0;
    }
}

} // verus!
