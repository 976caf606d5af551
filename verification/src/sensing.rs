//! Decisions of the sensor-driven browser modules: the NFC record summary, the speech transcript of a
//! recognition event, and the sample window and class-change count of activity recognition. The
//! readings themselves (floating point, JavaScript objects) stay with the caller.

use vstd::prelude::*;
use std::collections::VecDeque;
use crate::text::{chars_of, join_strings, joined, string_from_range, string_views, trim, trim_bounds};

verus! {

/// One NDEF record as the browser reports it; a property that is not a string is `None`.
pub struct NdefRecord {
    pub record_type: Option<String>,
    pub media_type: Option<String>,
    pub id: Option<String>,
}

/// What a reading event held: no `message`, a message without readable `records`, or the records
/// that could be read.
pub enum NdefEvent {
    NoMessage,
    NoRecords,
    Records(Vec<NdefRecord>),
}

pub open spec fn text_or_empty(o: Option<String>) -> Seq<char> {
    match o {
        Some(s) => s@,
        None => Seq::empty(),
    }
}

/// `type=<record type>` (`unknown` when absent), then `,media=<media type>` and `,id=<id>` for those
/// that are non-empty.
pub open spec fn record_summary(r: NdefRecord) -> Seq<char> {
    let t = match r.record_type {
        Some(s) => s@,
        None => "unknown"@,
    };
    let m = text_or_empty(r.media_type);
    let i = text_or_empty(r.id);
    "type="@ + t + (if m.len() > 0 {
        ",media="@ + m
    } else {
        Seq::empty()
    }) + (if i.len() > 0 {
        ",id="@ + i
    } else {
        Seq::empty()
    })
}

pub open spec fn spec_ndef_summary(e: NdefEvent) -> Seq<char> {
    match e {
        NdefEvent::NoMessage => "no message"@,
        NdefEvent::NoRecords => "no records"@,
        NdefEvent::Records(rs) => if rs@.len() == 0 {
            "no records"@
        } else {
            joined(rs@.map_values(|r: NdefRecord| record_summary(r)), " | "@)
        },
    }
}

fn summary_of_record(r: &NdefRecord) -> (s: String)
    ensures
        s@ == record_summary(*r),
{
    let mut s = String::from_str("type=");
    match &r.record_type {
        Some(t) => s.append(t.as_str()),
        None => s.append("unknown"),
    }
    let ghost head = s@;
    if let Some(m) = &r.media_type {
        if !m.as_str().is_empty() {
            s.append(",media=");
            s.append(m.as_str());
        }
    }
    let ghost mid = s@;
    if let Some(i) = &r.id {
        if !i.as_str().is_empty() {
            s.append(",id=");
            s.append(i.as_str());
        }
    }
    proof {
        let m = text_or_empty(r.media_type);
        let i = text_or_empty(r.id);
        let mm = if m.len() > 0 { ",media="@ + m } else { Seq::empty() };
        let ii = if i.len() > 0 { ",id="@ + i } else { Seq::empty() };
        assert(mid =~= head + mm);
        assert(s@ =~= head + mm + ii);
    }
    s
}

/// The one-line summary of an NFC reading: each record's summary joined by ` | `, or `no message` /
/// `no records`.
pub fn summarize_ndef_records(event: &NdefEvent) -> (r: String)
    ensures
        r@ == spec_ndef_summary(*event),
{
    match event {
        NdefEvent::NoMessage => String::from_str("no message"),
        NdefEvent::NoRecords => String::from_str("no records"),
        NdefEvent::Records(rs) => {
            if rs.len() == 0 {
                return String::from_str("no records");
            }
            let mut parts: Vec<String> = Vec::new();
            let mut k: usize = 0;
            while k < rs.len()
                invariant
                    k <= rs.len(),
                    string_views(parts@) == rs@.take(k as int).map_values(|r: NdefRecord| record_summary(r)),
                decreases rs.len() - k,
            {
                let s = summary_of_record(&rs[k]);
                let ghost before = parts@;
                let ghost sv = s@;
                parts.push(s);
                proof {
                    assert(string_views(parts@) =~= string_views(before).push(sv));
                    assert(rs@.take(k + 1) =~= rs@.take(k as int).push(rs@[k as int]));
                    assert(string_views(parts@) =~= rs@.take(k + 1).map_values(|r: NdefRecord| record_summary(r)));
                }
                k = k + 1;
            }
            assert(rs@.take(rs.len() as int) =~= rs@);
            join_strings(&parts, " | ")
        },
    }
}

/// One result of a speech recognition event: its first alternative's transcript, when it is a
/// string, and whether the result is final.
pub struct SpeechResult {
    pub transcript: Option<String>,
    pub is_final: bool,
}

/// The text heard so far, and whether any of it is final.
pub struct SpeechTranscript {
    pub text: String,
    pub has_final: bool,
}

/// The trimmed, non-empty transcripts of the results, in order.
pub open spec fn kept_parts(rs: Seq<SpeechResult>) -> Seq<Seq<char>>
    decreases rs.len(),
{
    if rs.len() == 0 {
        Seq::empty()
    } else {
        let prev = kept_parts(rs.drop_last());
        match rs.last().transcript {
            Some(t) => if trim(t@).len() > 0 {
                prev.push(trim(t@))
            } else {
                prev
            },
            None => prev,
        }
    }
}

pub open spec fn any_final(rs: Seq<SpeechResult>) -> bool {
    exists|k: int| 0 <= k < rs.len() && (#[trigger] rs[k]).is_final
}

/// The transcript of a recognition event: the trimmed non-empty parts joined by single spaces,
/// or `None` when there are none.
pub fn speech_transcript(results: &Vec<SpeechResult>) -> (r: Option<SpeechTranscript>)
    ensures
        r is None <==> kept_parts(results@).len() == 0,
        r matches Some(t) ==> t.text@ == joined(kept_parts(results@), " "@) && t.has_final == any_final(results@),
{
    let mut parts: Vec<String> = Vec::new();
    let mut has_final = false;
    let mut k: usize = 0;
    while k < results.len()
        invariant
            k <= results.len(),
            string_views(parts@) == kept_parts(results@.take(k as int)),
            has_final == any_final(results@.take(k as int)),
        decreases results.len() - k,
    {
        let ghost before = parts@;
        let res = &results[k];
        proof {
            assert(results@.take(k + 1).drop_last() =~= results@.take(k as int));
            assert(results@.take(k + 1).last() == results@[k as int]);
        }
        if let Some(t) = &res.transcript {
            let v = chars_of(t.as_str());
            let (a, b) = trim_bounds(&v, 0, v.len());
            assert(v@.subrange(0, v@.len() as int) =~= v@);
            if a < b {
                let piece = string_from_range(&v, a, b);
                parts.push(piece);
                assert(string_views(parts@) =~= string_views(before).push(trim(t@)));
            }
        }
        proof {
            let s = results@.take(k + 1);
            if res.is_final {
                assert(s[k as int] == results@[k as int]);
                assert(any_final(s));
            }
            if any_final(s) && !res.is_final {
                let w = choose|w: int| 0 <= w < s.len() && (#[trigger] s[w]).is_final;
                assert(w < k);
                assert(results@.take(k as int)[w] == s[w]);
            }
            if any_final(results@.take(k as int)) {
                let w = choose|w: int| 0 <= w < k && (#[trigger] results@.take(k as int)[w]).is_final;
                assert(s[w] == results@.take(k as int)[w]);
            }
        }
        has_final = has_final || res.is_final;
        k = k + 1;
    }
    assert(results@.take(results.len() as int) =~= results@);
    if parts.len() == 0 {
        None
    } else {
        Some(SpeechTranscript { text: join_strings(&parts, " "), has_final })
    }
}

/// Samples in one activity-recognition window.
pub const HAR_SEQUENCE_LENGTH: usize = 512;

/// Features per motion sample.
pub const HAR_FEATURE_COUNT: usize = 9;

/// The samples' features laid end to end, sample after sample.
pub open spec fn flattened<T>(samples: Seq<[T; 9]>) -> Seq<T>
    decreases samples.len(),
{
    if samples.len() == 0 {
        Seq::empty()
    } else {
        flattened(samples.drop_last()) + samples.last()@
    }
}

/// The window as one flat tensor body: every sample's features in order, oldest sample first.
pub fn flatten_samples<T: Copy>(samples: &VecDeque<[T; 9]>) -> (r: Vec<T>)
    ensures
        r@ == flattened(samples@),
{
    let mut r: Vec<T> = Vec::new();
    let mut k: usize = 0;
    while k < samples.len()
        invariant
            k <= samples@.len(),
            r@ == flattened(samples@.take(k as int)),
        decreases samples@.len() - k,
    {
        let sample: [T; 9] = samples[k];
        let ghost before = r@;
        let mut j: usize = 0;
        while j < 9
            invariant
                j <= 9,
                r@ == before + sample@.take(j as int),
            decreases 9 - j,
        {
            r.push(sample[j]);
            j = j + 1;
            assert(r@ =~= before + sample@.take(j as int));
        }
        proof {
            assert(sample@.take(9) =~= sample@);
            assert(samples@.take(k + 1).drop_last() =~= samples@.take(k as int));
            assert(samples@.take(k + 1).last() == samples@[k as int]);
        }
        k = k + 1;
    }
    assert(samples@.take(samples@.len() as int) =~= samples@);
    r
}

/// Class changes after which the activity workflow ends.
pub const HAR_CLASS_CHANGE_LIMIT: u32 = 3;

/// Number of named activity classes; any higher model index reads as `unknown`.
pub const HAR_CLASS_COUNT: usize = 6;

/// What to do after a motion sample entered the window.
#[derive(Clone, Copy, Debug, PartialEq, Eq, Structural)]
pub enum HarSampleStep {
    /// The window is still filling; `report_progress` at 1, 64, 128 and 256 samples.
    Buffering { report_progress: bool },
    /// The window is full: inference may run.
    WindowFull,
}

/// What an inference result changed.
#[derive(Clone, Copy, Debug, PartialEq, Eq, Structural)]
pub enum HarClassStep {
    /// Same class as the previous inference.
    Unchanged,
    /// A new class (by label slot), with the previous one and the count of changes so far.
    Changed { previous: Option<usize>, current: usize, changes: u32 },
}

/// The label slot of a model output index: the index itself for a named class, `HAR_CLASS_COUNT`
/// for every index without a name.
pub open spec fn class_slot(index: usize) -> usize {
    if index < HAR_CLASS_COUNT {
        index
    } else {
        HAR_CLASS_COUNT
    }
}

pub open spec fn spec_sample_step(len: nat) -> HarSampleStep {
    if len == HAR_SEQUENCE_LENGTH {
        HarSampleStep::WindowFull
    } else {
        HarSampleStep::Buffering { report_progress: len == 1 || len == 64 || len == 128 || len == 256 }
    }
}

/// The sliding window of feature samples and the class-change bookkeeping of the activity
/// recognition loop.
pub struct HarProgress<T> {
    pub samples: VecDeque<T>,
    pub class_changes: u32,
    pub last_class: Option<usize>,
}

impl<T> HarProgress<T> {
    pub open spec fn wf(&self) -> bool {
        &&& self.samples@.len() <= HAR_SEQUENCE_LENGTH
        &&& self.class_changes <= HAR_CLASS_CHANGE_LIMIT
        &&& (self.last_class matches Some(c) ==> c <= HAR_CLASS_COUNT)
    }

    /// An empty window and no class seen yet.
    pub fn new() -> (r: Self)
        ensures
            r.wf(),
            r.samples@.len() == 0,
            r.class_changes == 0,
            r.last_class is None,
    {
        HarProgress { samples: VecDeque::new(), class_changes: 0, last_class: None }
    }

    /// Whether enough class changes were seen to end the workflow.
    pub fn is_finished(&self) -> (r: bool)
        ensures
            r == (self.class_changes >= HAR_CLASS_CHANGE_LIMIT),
    {
        self.class_changes >= HAR_CLASS_CHANGE_LIMIT
    }

    /// Append a sample, dropping the oldest once the window holds `HAR_SEQUENCE_LENGTH`.
    pub fn add_sample(&mut self, sample: T) -> (step: HarSampleStep)
        requires
            old(self).wf(),
        ensures
            final(self).wf(),
            final(self).samples@ == (if old(self).samples@.len() < HAR_SEQUENCE_LENGTH {
                old(self).samples@.push(sample)
            } else {
                old(self).samples@.push(sample).drop_first()
            }),
            final(self).class_changes == old(self).class_changes,
            final(self).last_class == old(self).last_class,
            step == spec_sample_step(final(self).samples@.len()),
    {
        self.samples.push_back(sample);
        if self.samples.len() > HAR_SEQUENCE_LENGTH {
            let _ = self.samples.pop_front();
        }
        let n = self.samples.len();
        if n == HAR_SEQUENCE_LENGTH {
            HarSampleStep::WindowFull
        } else {
            HarSampleStep::Buffering { report_progress: n == 1 || n == 64 || n == 128 || n == 256 }
        }
    }

    /// Record the class the model picked (its output index): a change when its label differs from
    /// the previous inference's.
    pub fn observe_class(&mut self, index: usize) -> (step: HarClassStep)
        requires
            old(self).wf(),
            old(self).class_changes < HAR_CLASS_CHANGE_LIMIT,
        ensures
            final(self).wf(),
            final(self).samples@ == old(self).samples@,
            old(self).last_class == Some(class_slot(index)) ==> step == HarClassStep::Unchanged && *final(self)
                == *old(self),
            old(self).last_class != Some(class_slot(index)) ==> step == (HarClassStep::Changed {
                previous: old(self).last_class,
                current: class_slot(index),
                changes: (old(self).class_changes + 1) as u32,
            }) && final(self).class_changes == old(self).class_changes + 1 && final(self).last_class == Some(
                class_slot(index),
            ),
    {
        let slot = if index < HAR_CLASS_COUNT {
            index
        } else {
            HAR_CLASS_COUNT
        };
        let same = match self.last_class {
            Some(c) => c == slot,
            None => false,
        };
        if same {
            HarClassStep::Unchanged
        } else {
            let previous = self.last_class;
            self.class_changes = self.class_changes + 1;
            self.last_class = Some(slot);
            HarClassStep::Changed { previous, current: slot, changes: self.class_changes }
        }
    }
}

pub open spec fn spec_class_label(slot: usize) -> Seq<char> {
    if slot == 0 {
        "class_0"@
    } else if slot == 1 {
        "class_1"@
    } else if slot == 2 {
        "class_2"@
    } else if slot == 3 {
        "class_3"@
    } else if slot == 4 {
        "class_4"@
    } else if slot == 5 {
        "class_5"@
    } else {
        "unknown"@
    }
}

/// The label of a class slot: `class_<n>` for the named classes, `unknown` otherwise.
pub fn class_label(slot: usize) -> (r: String)
    ensures
        r@ == spec_class_label(slot),
{
    if slot == 0 {
        String::from_str("class_0")
    } else if slot == 1 {
        String::from_str("class_1")
    } else if slot == 2 {
        String::from_str("class_2")
    } else if slot == 3 {
        String::from_str("class_3")
    } else if slot == 4 {
        String::from_str("class_4")
    } else if slot == 5 {
        String::from_str("class_5")
    } else {
        String::from_str("unknown")
    }
}

} // verus!

verus! {

/// One event of a speech recognition session: a result carrying a transcript (its confidence of type
/// `C`, and whether it is final), an error (with the browser's message when it gave one as a string),
/// or the end of the session.
pub enum SpeechEvent<C> {
    Heard { transcript: String, confidence: C, is_final: bool },
    Error(Option<String>),
    End,
}

/// How a recognition session settles: with a transcript, or with an error message.
pub enum SpeechOutcome<C> {
    Transcript { transcript: String, confidence: C },
    Failed(String),
}

/// A recognition session's state: whether it has settled, and the last transcript heard.
pub struct SpeechSettle<C> {
    pub settled: bool,
    pub heard: Option<(String, C)>,
}

pub open spec fn heard_view<C>(h: Option<(String, C)>) -> Option<(Seq<char>, C)> {
    match h {
        Some((t, c)) => Some((t@, c)),
        None => None,
    }
}

pub open spec fn outcome_view<C>(o: SpeechOutcome<C>) -> Result<(Seq<char>, C), Seq<char>> {
    match o {
        SpeechOutcome::Transcript { transcript, confidence } => Ok((transcript@, confidence)),
        SpeechOutcome::Failed(m) => Err(m@),
    }
}

impl<C: Copy> SpeechSettle<C> {
    pub fn new() -> (r: Self)
        ensures
            !r.settled,
            r.heard is None,
    {
        SpeechSettle { settled: false, heard: None }
    }

    /// Take one event. A result is remembered and, when final, settles the session with it; an error
    /// settles it as failed with the browser's message (or `speech recognition failed`); the end
    /// settles it with the last transcript heard, or else as failed, saying whether a stop was asked
    /// for. A session settles once: after that every event gives nothing.
    pub fn settle(&mut self, event: SpeechEvent<C>, stop_requested: bool) -> (out: Option<SpeechOutcome<C>>)
        ensures
            old(self).settled ==> out is None && final(self).settled,
            match event {
                SpeechEvent::Heard { transcript, confidence, is_final } => {
                    &&& heard_view(final(self).heard) == Some((transcript@, confidence))
                    &&& if is_final && !old(self).settled {
                        final(self).settled && out is Some && outcome_view(out.unwrap()) == Ok::<
                            (Seq<char>, C),
                            Seq<char>,
                        >((transcript@, confidence))
                    } else {
                        final(self).settled == old(self).settled && out is None
                    }
                },
                SpeechEvent::Error(message) => {
                    &&& heard_view(final(self).heard) == heard_view(old(self).heard)
                    &&& final(self).settled
                    &&& !old(self).settled ==> out is Some && outcome_view(out.unwrap()) == Err::<(Seq<char>, C), Seq<char>>(
                        match message {
                            Some(m) => m@,
                            None => "speech recognition failed"@,
                        },
                    )
                },
                SpeechEvent::End => {
                    &&& heard_view(final(self).heard) == heard_view(old(self).heard)
                    &&& final(self).settled
                    &&& !old(self).settled ==> out is Some && outcome_view(out.unwrap()) == match heard_view(old(self).heard) {
                        Some(h) => Ok::<(Seq<char>, C), Seq<char>>(h),
                        None => Err(
                            if stop_requested {
                                "speech recognition stopped before any transcript was captured"@
                            } else {
                                "speech recognition ended without a transcript"@
                            },
                        ),
                    }
                },
            },
    {
        match event {
            SpeechEvent::Heard { transcript, confidence, is_final } => {
                self.heard = Some((transcript.clone(), confidence));
                if is_final && !self.settled {
                    self.settled = true;
                    Some(SpeechOutcome::Transcript { transcript, confidence })
                } else {
                    None
                }
            },
            SpeechEvent::Error(message) => {
                if self.settled {
                    return None;
                }
                self.settled = true;
                match message {
                    Some(m) => Some(SpeechOutcome::Failed(m)),
                    None => Some(SpeechOutcome::Failed(String::from_str("speech recognition failed"))),
                }
            },
            SpeechEvent::End => {
                if self.settled {
                    return None;
                }
                self.settled = true;
                match &self.heard {
                    Some((t, c)) => Some(SpeechOutcome::Transcript { transcript: t.clone(), confidence: *c }),
                    None => if stop_requested {
                        Some(
                            SpeechOutcome::Failed(
                                String::from_str("speech recognition stopped before any transcript was captured"),
                            ),
                        )
                    } else {
                        Some(SpeechOutcome::Failed(String::from_str("speech recognition ended without a transcript")))
                    },
                }
            },
        }
    }
}

} // verus!

verus! {

/// Successful inferences after which face detection stops itself.
pub const FACE_INFERENCE_LIMIT: u32 = 20;

/// The face-detection inference timer's gate: whether an inference is running, and how many have
/// succeeded.
pub struct FaceInferenceGate {
    pub pending: bool,
    pub count: u32,
}

impl FaceInferenceGate {
    pub open spec fn wf(&self) -> bool {
        &&& self.count <= FACE_INFERENCE_LIMIT
        &&& self.pending ==> self.count < FACE_INFERENCE_LIMIT
    }

    pub fn new() -> (r: Self)
        ensures
            r.wf(),
            !r.pending,
            r.count == 0,
    {
        FaceInferenceGate { pending: false, count: 0 }
    }

    /// A timer tick: start an inference unless one is running or the limit was reached.
    pub fn tick(&mut self) -> (start: bool)
        requires
            old(self).wf(),
        ensures
            final(self).wf(),
            start == (!old(self).pending && old(self).count < FACE_INFERENCE_LIMIT),
            final(self).pending == (old(self).pending || start),
            final(self).count == old(self).count,
    {
        if self.pending || self.count >= FACE_INFERENCE_LIMIT {
            return false;
        }
        self.pending = true;
        true
    }

    /// The running inference finished: a success is counted; the answer is whether the limit is now
    /// reached and the workflow stops.
    pub fn finished(&mut self, succeeded: bool) -> (stop: bool)
        requires
            old(self).wf(),
            old(self).pending,
        ensures
            final(self).wf(),
            !final(self).pending,
            final(self).count == (if succeeded { old(self).count + 1 } else { old(self).count as int }),
            stop == (succeeded && final(self).count >= FACE_INFERENCE_LIMIT),
    {
        self.pending = false;
        if succeeded {
            self.count = self.count + 1;
            self.count >= FACE_INFERENCE_LIMIT
        } else {
            false
        }
    }
}

} // verus!

verus! {

/// A decimal digit.
pub open spec fn digit_char(d: int) -> char {
    ('0' as int + d) as char
}

/// The decimal text of `n`, as `{}` formats it.
pub open spec fn decimal(n: nat) -> Seq<char>
    decreases n,
{
    if n < 10 {
        seq![digit_char(n as int)]
    } else {
        decimal(n / 10).push(digit_char((n % 10) as int))
    }
}

/// The decimal text of a signed integer, as `{}` formats it.
pub open spec fn signed_decimal(i: int) -> Seq<char> {
    if i < 0 {
        seq!['-'] + decimal((-i) as nat)
    } else {
        decimal(i as nat)
    }
}

fn push_decimal(out: &mut String, n: u32)
    ensures
        final(out)@ == old(out)@ + decimal(n as nat),
    decreases n,
{
    if n >= 10 {
        push_decimal(out, n / 10);
    }
    let d: u8 = (n % 10) as u8;
    let c: char = (0x30u8 + d) as char;
    crate::text::string_push(out, c);
    assert(out@ =~= old(out)@ + decimal(n as nat));
}

/// Whole seconds of a millisecond timeout, rounded toward zero as integer division does.
pub open spec fn whole_seconds(timeout_ms: int) -> int {
    if timeout_ms >= 0 {
        timeout_ms / 1000
    } else {
        -((-timeout_ms) / 1000)
    }
}

/// `NFC scan timed out after <seconds> seconds`, the seconds being `timeout_ms / 1000`.
pub fn nfc_timeout_message(timeout_ms: i32) -> (r: String)
    ensures
        r@ == "NFC scan timed out after "@ + signed_decimal(whole_seconds(timeout_ms as int)) + " seconds"@,
{
    let mut r = String::from_str("NFC scan timed out after ");
    let magnitude: u32 = if timeout_ms >= 0 {
        timeout_ms as u32
    } else {
        (-(timeout_ms as i64)) as u32
    };
    let seconds: u32 = magnitude / 1000;
    if timeout_ms < 0 && seconds > 0 {
        crate::text::string_push(&mut r, '-');
    }
    push_decimal(&mut r, seconds);
    r.append(" seconds");
    r
}

/// The serial number of a reading: the tag's, or `unknown` when it gave none as a string.
pub fn nfc_serial_number(serial: Option<String>) -> (r: String)
    ensures
        r@ == match serial {
            Some(s) => s@,
            None => "unknown"@,
        },
{
    match serial {
        Some(s) => s,
        None => String::from_str("unknown"),
    }
}

/// The record summary of a scan result: the one reported, or `no records` when there is none.
pub fn nfc_record_summary(summary: Option<String>) -> (r: String)
    ensures
        r@ == match summary {
            Some(s) => s@,
            None => "no records"@,
        },
{
    match summary {
        Some(s) => s,
        None => String::from_str("no records"),
    }
}

/// The error of a failed reading: the browser's message, or `NFC reading failed` when it gave none.
pub fn nfc_reading_error(message: Option<String>) -> (r: String)
    ensures
        r@ == match message {
            Some(s) => s@,
            None => "NFC reading failed"@,
        },
{
    match message {
        Some(s) => s,
        None => String::from_str("NFC reading failed"),
    }
}

/// `pattern` occurs in `text`.
pub open spec fn contains_text(text: Seq<char>, pattern: Seq<char>) -> bool {
    exists|i: int| 0 <= i && i + pattern.len() <= text.len() && #[trigger] text.subrange(i, i + pattern.len()) == pattern
}

fn contains_exec(text: &Vec<char>, pattern: &Vec<char>) -> (r: bool)
    ensures
        r == contains_text(text@, pattern@),
{
    if pattern.len() > text.len() {
        assert(!contains_text(text@, pattern@));
        return false;
    }
    let last = text.len() - pattern.len();
    let plen = pattern.len();
    let mut i: usize = 0;
    while i < last
        invariant
            plen == pattern@.len(),
            pattern@.len() <= text@.len(),
            last + plen == text@.len(),
            last + plen <= usize::MAX,
            i <= last,
            forall|k: int| 0 <= k < i ==> #[trigger] text@.subrange(k, k + pattern@.len()) != pattern@,
        decreases last - i,
    {
        let end = i + plen;
        if crate::text::range_equals(text, i, end, pattern) {
            assert(text@.subrange(i as int, i + pattern@.len()) == pattern@);
            return true;
        }
        i = i + 1;
    }
    let found = crate::text::range_equals(text, last, text.len(), pattern);
    proof {
        if found {
            assert(text@.subrange(last as int, last + pattern@.len()) == pattern@);
        } else {
            assert forall|k: int| 0 <= k && k + pattern@.len() <= text@.len() implies #[trigger] text@.subrange(
                k,
                k + pattern@.len(),
            ) != pattern@ by {
                if k == last {
                }
            }
        }
    }
    found
}

pub open spec fn nfc_unavailable_prefix() -> Seq<char> {
    "nfc: Not available\nWeb NFC requires: Chrome/Edge on Android, HTTPS connection\nError: "@
}

pub open spec fn nfc_timeout_display() -> Seq<char> {
    "nfc: Timeout\n\nNo NFC tag was detected within 60 seconds.\nPlease try again and tap an NFC tag."@
}

pub open spec fn nfc_error_prefix() -> Seq<char> {
    "nfc: Error\n\n"@
}

/// What the NFC panel shows for a failed scan: browser support advice when the message says the API is
/// not available or not supported, a timeout notice when it mentions timing out, the message itself
/// otherwise.
pub fn nfc_error_display(message: &str) -> (r: String)
    ensures
        r@ == if contains_text(message@, "not available"@) || contains_text(message@, "not supported"@) {
            nfc_unavailable_prefix() + message@
        } else if contains_text(message@, "timed out"@) || contains_text(message@, "timeout"@) {
            nfc_timeout_display()
        } else {
            nfc_error_prefix() + message@
        },
{
    let m = chars_of(message);
    let unavailable = crate::text::chars_of("not available");
    let unsupported = crate::text::chars_of("not supported");
    let timed_out = crate::text::chars_of("timed out");
    let timeout = crate::text::chars_of("timeout");
    if contains_exec(&m, &unavailable) || contains_exec(&m, &unsupported) {
        let mut r = String::from_str("nfc: Not available\nWeb NFC requires: Chrome/Edge on Android, HTTPS connection\nError: ");
        r.append(message);
        r
    } else if contains_exec(&m, &timed_out) || contains_exec(&m, &timeout) {
        String::from_str("nfc: Timeout\n\nNo NFC tag was detected within 60 seconds.\nPlease try again and tap an NFC tag.")
    } else {
        let mut r = String::from_str("nfc: Error\n\n");
        r.append(message);
        r
    }
}

} // verus!

verus! {

/// Every named model output keeps its own label slot, and its label is `class_<index>`; every other
/// index shares the one `unknown` slot.
pub proof fn named_classes_keep_their_index(index: usize)
    ensures
        index < HAR_CLASS_COUNT ==> class_slot(index) == index,
        index >= HAR_CLASS_COUNT ==> class_slot(index) == HAR_CLASS_COUNT,
        index < HAR_CLASS_COUNT ==> spec_class_label(class_slot(index)) == seq!['c', 'l', 'a', 's', 's', '_']
            + seq![('0' as int + index) as char],
        index >= HAR_CLASS_COUNT ==> spec_class_label(class_slot(index)) == seq!['u', 'n', 'k', 'n', 'o', 'w', 'n'],
        forall|i: usize, j: usize| i < HAR_CLASS_COUNT && j < HAR_CLASS_COUNT && i != j ==> class_slot(i) != class_slot(j),
{
    reveal_strlit("class_0");
    reveal_strlit("class_1");
    reveal_strlit("class_2");
    reveal_strlit("class_3");
    reveal_strlit("class_4");
    reveal_strlit("class_5");
    reveal_strlit("unknown");
    if index < HAR_CLASS_COUNT {
        if index == 0 {
            assert("class_0"@ =~= seq!['c', 'l', 'a', 's', 's', '_'] + seq![('0' as int + index) as char]);
        } else if index == 1 {
            assert("class_1"@ =~= seq!['c', 'l', 'a', 's', 's', '_'] + seq![('0' as int + index) as char]);
        } else if index == 2 {
            assert("class_2"@ =~= seq!['c', 'l', 'a', 's', 's', '_'] + seq![('0' as int + index) as char]);
        } else if index == 3 {
            assert("class_3"@ =~= seq!['c', 'l', 'a', 's', 's', '_'] + seq![('0' as int + index) as char]);
        } else if index == 4 {
            assert("class_4"@ =~= seq!['c', 'l', 'a', 's', 's', '_'] + seq![('0' as int + index) as char]);
        } else {
            assert("class_5"@ =~= seq!['c', 'l', 'a', 's', 's', '_'] + seq![('0' as int + index) as char]);
        }
    } else {
        assert("unknown"@ =~= seq!['u', 'n', 'k', 'n', 'o', 'w', 'n']);
    }
}

/// A result contributes its trimmed transcript when that is not blank, final or not, and contributes
/// nothing otherwise; the earlier results' parts stay in front.
pub proof fn every_spoken_result_is_kept(rs: Seq<SpeechResult>, r: SpeechResult)
    ensures
        (r.transcript matches Some(t) && trim(t@).len() > 0) ==> kept_parts(rs.push(r)) == kept_parts(rs).push(
            trim(r.transcript.unwrap()@),
        ),
        !(r.transcript matches Some(t) && trim(t@).len() > 0) ==> kept_parts(rs.push(r)) == kept_parts(rs),
        kept_parts(seq![r]).len() == (if (r.transcript matches Some(t) && trim(t@).len() > 0) { 1int } else { 0 }),
{
    assert(rs.push(r).drop_last() =~= rs);
    assert(seq![r].drop_last() =~= Seq::<SpeechResult>::empty());
    assert(kept_parts(Seq::<SpeechResult>::empty()) == Seq::<Seq<char>>::empty());
    assert(seq![r].last() == r);
}

/// An event holding a result with words gives a transcript, whether or not the result is final.
pub proof fn words_give_a_transcript(rs: Seq<SpeechResult>, k: int)
    requires
        0 <= k < rs.len(),
        rs[k].transcript matches Some(t) && trim(t@).len() > 0,
    ensures
        kept_parts(rs).len() > 0,
    decreases rs.len(),
{
    if k == rs.len() - 1 {
        every_spoken_result_is_kept(rs.drop_last(), rs.last());
        assert(rs.drop_last().push(rs.last()) =~= rs);
    } else {
        words_give_a_transcript(rs.drop_last(), k);
        every_spoken_result_is_kept(rs.drop_last(), rs.last());
        assert(rs.drop_last().push(rs.last()) =~= rs);
    }
}

/// A record's summary is `type=<type>`, then `,media=<media type>` when it has one, then `,id=<id>`
/// when it has one: each part depends on its own field alone.
pub proof fn record_parts_depend_on_their_own_field(r: NdefRecord)
    ensures
        ({
            let t = match r.record_type {
                Some(s) => s@,
                None => seq!['u', 'n', 'k', 'n', 'o', 'w', 'n'],
            };
            let media = match r.media_type {
                Some(m) => if m@.len() > 0 {
                    seq![',', 'm', 'e', 'd', 'i', 'a', '='] + m@
                } else {
                    Seq::empty()
                },
                None => Seq::empty(),
            };
            let id = match r.id {
                Some(i) => if i@.len() > 0 {
                    seq![',', 'i', 'd', '='] + i@
                } else {
                    Seq::empty()
                },
                None => Seq::empty(),
            };
            record_summary(r) == seq!['t', 'y', 'p', 'e', '='] + t + media + id
        }),
{
    reveal_strlit("unknown");
    reveal_strlit("type=");
    reveal_strlit(",media=");
    reveal_strlit(",id=");
    let t = match r.record_type {
        Some(s) => s@,
        None => seq!['u', 'n', 'k', 'n', 'o', 'w', 'n'],
    };
    assert("unknown"@ =~= seq!['u', 'n', 'k', 'n', 'o', 'w', 'n']);
    assert("type="@ =~= seq!['t', 'y', 'p', 'e', '=']);
    assert(",media="@ =~= seq![',', 'm', 'e', 'd', 'i', 'a', '=']);
    assert(",id="@ =~= seq![',', 'i', 'd', '=']);
}

/// A record with a non-empty id ends its summary with `,id=<id>`, whatever its media type.
pub proof fn a_record_id_is_always_shown(r: NdefRecord)
    requires
        r.id matches Some(i) && i@.len() > 0,
    ensures
        ({
            let suffix = seq![',', 'i', 'd', '='] + r.id.unwrap()@;
            &&& record_summary(r).len() >= suffix.len()
            &&& record_summary(r).subrange(record_summary(r).len() - suffix.len(), record_summary(r).len() as int)
                == suffix
        }),
{
    record_parts_depend_on_their_own_field(r);
    let suffix = seq![',', 'i', 'd', '='] + r.id.unwrap()@;
    let s = record_summary(r);
    assert(s.subrange(s.len() - suffix.len(), s.len() as int) =~= suffix);
}

} // verus!
