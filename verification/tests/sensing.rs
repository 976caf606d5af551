//! The sensor modules' decisions: NFC summaries, speech transcripts and the activity window.

use std::collections::VecDeque;

use et_services::sensing::{
    class_label, flatten_samples, nfc_error_display, nfc_reading_error, nfc_record_summary, nfc_serial_number,
    nfc_timeout_message, FaceInferenceGate, FACE_INFERENCE_LIMIT, speech_transcript, HAR_FEATURE_COUNT, summarize_ndef_records, HarClassStep, HarProgress, HarSampleStep, NdefEvent,
    NdefRecord, SpeechEvent, SpeechOutcome, SpeechResult, SpeechSettle, HAR_SEQUENCE_LENGTH,
};

fn record(record_type: Option<&str>, media_type: Option<&str>, id: Option<&str>) -> NdefRecord {
    NdefRecord {
        record_type: record_type.map(str::to_string),
        media_type: media_type.map(str::to_string),
        id: id.map(str::to_string),
    }
}

#[test]
fn ndef_records_are_summarized_in_order() {
    let event = NdefEvent::Records(vec![
        record(Some("text"), None, Some("")),
        record(None, Some("image/png"), Some("tag-7")),
        record(Some("url"), Some(""), None),
    ]);
    assert_eq!(summarize_ndef_records(&event), "type=text | type=unknown,media=image/png,id=tag-7 | type=url");
}

#[test]
fn ndef_events_without_records_say_so() {
    assert_eq!(summarize_ndef_records(&NdefEvent::NoMessage), "no message");
    assert_eq!(summarize_ndef_records(&NdefEvent::NoRecords), "no records");
    assert_eq!(summarize_ndef_records(&NdefEvent::Records(Vec::new())), "no records");
}

fn result(transcript: Option<&str>, is_final: bool) -> SpeechResult {
    SpeechResult { transcript: transcript.map(str::to_string), is_final }
}

#[test]
fn speech_parts_are_trimmed_and_joined() {
    let heard = speech_transcript(&vec![
        result(Some("  hello "), false),
        result(Some("   "), true),
        result(None, false),
        result(Some("world\n"), false),
    ])
    .unwrap();
    assert_eq!(heard.text, "hello world");
    assert!(heard.has_final);
}

#[test]
fn speech_without_words_is_nothing() {
    assert!(speech_transcript(&vec![result(Some(" \t"), true), result(None, true)]).is_none());
    assert!(speech_transcript(&Vec::new()).is_none());
    let interim = speech_transcript(&vec![result(Some("maybe"), false)]).unwrap();
    assert!(!interim.has_final);
}

#[test]
fn the_activity_window_slides_after_it_fills() {
    let mut progress: HarProgress<u32> = HarProgress::new();
    let mut reports = Vec::new();
    for k in 0..HAR_SEQUENCE_LENGTH as u32 {
        match progress.add_sample(k) {
            HarSampleStep::Buffering { report_progress: true } => reports.push(progress.samples.len()),
            HarSampleStep::Buffering { report_progress: false } => {}
            HarSampleStep::WindowFull => assert_eq!(k, HAR_SEQUENCE_LENGTH as u32 - 1),
        }
    }
    assert_eq!(reports, vec![1, 64, 128, 256]);
    assert_eq!(progress.add_sample(9999), HarSampleStep::WindowFull);
    assert_eq!(progress.samples.len(), HAR_SEQUENCE_LENGTH);
    assert_eq!(progress.samples.front(), Some(&1));
    assert_eq!(progress.samples.back(), Some(&9999));
}

#[test]
fn only_a_new_label_counts_as_a_class_change() {
    let mut progress: HarProgress<u32> = HarProgress::new();
    assert_eq!(progress.observe_class(2), HarClassStep::Changed { previous: None, current: 2, changes: 1 });
    assert_eq!(progress.observe_class(2), HarClassStep::Unchanged);
    assert_eq!(progress.observe_class(9), HarClassStep::Changed { previous: Some(2), current: 6, changes: 2 });
    assert_eq!(progress.observe_class(7), HarClassStep::Unchanged);
    assert!(!progress.is_finished());
    assert_eq!(progress.observe_class(0), HarClassStep::Changed { previous: Some(6), current: 0, changes: 3 });
    assert!(progress.is_finished());
}

#[test]
fn class_slots_have_labels() {
    assert_eq!(class_label(0), "class_0");
    assert_eq!(class_label(5), "class_5");
    assert_eq!(class_label(6), "unknown");
}

#[test]
fn flatten_samples_preserves_sample_order_and_feature_order() {
    let mut samples = VecDeque::new();
    let mut first = [0.0; HAR_FEATURE_COUNT];
    let mut second = [0.0; HAR_FEATURE_COUNT];
    for index in 0..HAR_FEATURE_COUNT {
        first[index] = index as f32;
        second[index] = (10 + index) as f32;
    }
    samples.push_back(first);
    samples.push_back(second);

    let flattened = flatten_samples(&samples);

    assert_eq!(flattened.len(), 2 * HAR_FEATURE_COUNT);
    assert_eq!(&flattened[..HAR_FEATURE_COUNT], &first);
    assert_eq!(&flattened[HAR_FEATURE_COUNT..], &second);
}

#[test]
fn flatten_samples_handles_empty_buffer() {
    let samples: VecDeque<[f32; HAR_FEATURE_COUNT]> = VecDeque::new();

    assert!(flatten_samples(&samples).is_empty());
}

fn heard(t: &str, c: f64, is_final: bool) -> SpeechEvent<f64> {
    SpeechEvent::Heard { transcript: t.to_string(), confidence: c, is_final }
}

fn failed(o: Option<SpeechOutcome<f64>>) -> String {
    match o {
        Some(SpeechOutcome::Failed(m)) => m,
        _ => panic!("expected a failure"),
    }
}

#[test]
fn a_final_result_settles_the_session_once() {
    let mut s: SpeechSettle<f64> = SpeechSettle::new();
    assert!(s.settle(heard("hel", 0.5, false), false).is_none());
    match s.settle(heard("hello", 0.9, true), false) {
        Some(SpeechOutcome::Transcript { transcript, confidence }) => {
            assert_eq!(transcript, "hello");
            assert_eq!(confidence, 0.9);
        }
        _ => panic!("expected the transcript"),
    }
    assert!(s.settle(SpeechEvent::End, false).is_none());
    assert!(s.settle(SpeechEvent::Error(None), false).is_none());
}

#[test]
fn the_end_settles_with_the_last_transcript_or_an_error() {
    let mut s: SpeechSettle<f64> = SpeechSettle::new();
    assert!(s.settle(heard("maybe", 0.4, false), true).is_none());
    assert!(matches!(s.settle(SpeechEvent::End, true), Some(SpeechOutcome::Transcript { ref transcript, .. }) if transcript == "maybe"));
    let mut stopped: SpeechSettle<f64> = SpeechSettle::new();
    assert_eq!(failed(stopped.settle(SpeechEvent::End, true)), "speech recognition stopped before any transcript was captured");
    let mut ended: SpeechSettle<f64> = SpeechSettle::new();
    assert_eq!(failed(ended.settle(SpeechEvent::End, false)), "speech recognition ended without a transcript");
    let mut errored: SpeechSettle<f64> = SpeechSettle::new();
    assert_eq!(failed(errored.settle(SpeechEvent::Error(Some("no-speech".to_string())), false)), "no-speech");
    let mut plain: SpeechSettle<f64> = SpeechSettle::new();
    assert_eq!(failed(plain.settle(SpeechEvent::Error(None), false)), "speech recognition failed");
}

#[test]
fn face_inference_runs_one_at_a_time_up_to_twenty() {
    let mut gate = FaceInferenceGate::new();
    assert!(gate.tick());
    assert!(!gate.tick());
    assert!(!gate.finished(false));
    assert_eq!(gate.count, 0);
    for k in 1..=FACE_INFERENCE_LIMIT {
        assert!(gate.tick());
        assert_eq!(gate.finished(true), k == FACE_INFERENCE_LIMIT);
    }
    assert!(!gate.tick());
}

#[test]
fn nfc_timeouts_are_reported_in_whole_seconds() {
    assert_eq!(nfc_timeout_message(60_000), "NFC scan timed out after 60 seconds");
    assert_eq!(nfc_timeout_message(1_999), "NFC scan timed out after 1 seconds");
    assert_eq!(nfc_timeout_message(999), "NFC scan timed out after 0 seconds");
    assert_eq!(nfc_timeout_message(-1_500), format!("NFC scan timed out after {} seconds", -1_500 / 1000));
    assert_eq!(nfc_timeout_message(-999), format!("NFC scan timed out after {} seconds", -999 / 1000));
    assert_eq!(nfc_timeout_message(i32::MIN), format!("NFC scan timed out after {} seconds", i32::MIN / 1000));
}

#[test]
fn nfc_fields_have_defaults() {
    assert_eq!(nfc_serial_number(None), "unknown");
    assert_eq!(nfc_serial_number(Some("04:a2".to_string())), "04:a2");
    assert_eq!(nfc_record_summary(None), "no records");
    assert_eq!(nfc_reading_error(None), "NFC reading failed");
    assert_eq!(nfc_reading_error(Some("bad tag".to_string())), "bad tag");
}

#[test]
fn nfc_errors_are_shown_by_kind() {
    assert_eq!(
        nfc_error_display("Web NFC is not available in this browser context"),
        "nfc: Not available\nWeb NFC requires: Chrome/Edge on Android, HTTPS connection\nError: Web NFC is not available in this browser context"
    );
    assert_eq!(
        nfc_error_display("NFC scan timed out after 60 seconds"),
        "nfc: Timeout\n\nNo NFC tag was detected within 60 seconds.\nPlease try again and tap an NFC tag."
    );
    assert_eq!(nfc_error_display("bad tag"), "nfc: Error\n\nbad tag");
}
