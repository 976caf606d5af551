//! Wire-format tests: the base64 framing, the envelope reader and the envelope builders.

use et_services::wire::{
    decode_envelope, frame_text, frame_text_bytes, grads_envelope, inner_base64_encode, logits_envelope, outbound_envelope,
    outer_base64_decode, outer_base64_encode, InboundKind, JsonValue, RawEnvelope, WireError, WireField,
};

fn model(value: &serde_json::Value) -> JsonValue {
    match value {
        serde_json::Value::Null => JsonValue::Null,
        serde_json::Value::Bool(b) => JsonValue::Bool(*b),
        serde_json::Value::Number(n) => JsonValue::Number(n.as_i64()),
        serde_json::Value::String(s) => JsonValue::String(s.clone()),
        serde_json::Value::Array(items) => JsonValue::Array(items.iter().map(model).collect()),
        serde_json::Value::Object(members) => {
            JsonValue::Object(members.iter().map(|(k, v)| (k.clone(), model(v))).collect())
        }
    }
}

fn unmodel(value: &JsonValue) -> serde_json::Value {
    match value {
        JsonValue::Null => serde_json::Value::Null,
        JsonValue::Bool(b) => serde_json::Value::Bool(*b),
        JsonValue::Number(Some(n)) => serde_json::Value::from(*n),
        JsonValue::Number(None) => serde_json::Value::Null,
        JsonValue::String(s) => serde_json::Value::String(s.clone()),
        JsonValue::Array(items) => serde_json::Value::Array(items.iter().map(unmodel).collect()),
        JsonValue::Object(members) => {
            serde_json::Value::Object(members.iter().map(|(k, v)| (k.clone(), unmodel(v))).collect())
        }
    }
}

/// The JSON text of an envelope, as the demo serialises it.
fn envelope_json(env: &RawEnvelope) -> String {
    let mut map = serde_json::Map::new();
    let _t = map.insert("type".to_string(), serde_json::Value::String(env.type_.clone()));
    let _d = map.insert("data".to_string(), env.data.as_ref().map_or(serde_json::Value::Null, unmodel));
    let raw: serde_json::Map<String, serde_json::Value> =
        env.raw.iter().map(|(k, v)| (k.clone(), serde_json::Value::String(v.clone()))).collect();
    let _r = map.insert("raw".to_string(), serde_json::Value::Object(raw));
    serde_json::Value::Object(map).to_string()
}

/// Read a frame back into an envelope the way the agent does: frame text, then JSON.
fn read_frame(frame: &[u8]) -> RawEnvelope {
    let text = frame_text(frame).ok().expect("frame text");
    let value: serde_json::Value = serde_json::from_str(&text).expect("json");
    let type_ = value["type"].as_str().unwrap().to_string();
    let data = match &value["data"] {
        serde_json::Value::Null => None,
        other => Some(model(other)),
    };
    let raw = value["raw"]
        .as_object()
        .map(|m| m.iter().map(|(k, v)| (k.clone(), v.as_str().unwrap().to_string())).collect())
        .unwrap_or_default();
    RawEnvelope { type_, data, raw }
}

fn shape_data(shape: &[i64]) -> Option<JsonValue> {
    Some(JsonValue::Object(vec![(
        "tensor_shape".to_string(),
        JsonValue::Array(shape.iter().map(|d| JsonValue::Number(Some(*d))).collect()),
    )]))
}

#[test]
fn encode_decode_envelope_round_trip() {
    let tensor_bytes = vec![0u8, 1, 2, 3, 4];
    let shape = vec![1i64, 5];
    let encoded = frame_text_bytes(&envelope_json(&grads_envelope(&tensor_bytes, &shape)));

    let envelope = read_frame(&encoded);
    assert_eq!(envelope.type_, "grads");
    let tensor_inner = outer_base64_decode(envelope.raw[0].1.as_bytes()).ok().expect("inner base64");
    assert_eq!(envelope.raw[0].0, "tensor");
    assert_eq!(tensor_inner, tensor_bytes);
    assert_eq!(unmodel(envelope.data.as_ref().unwrap())["tensor_shape"], serde_json::Value::from(vec![1, 5]));
}

#[test]
fn decode_inbound_activations_only() {
    let tensor = [9u8, 9, 9, 9];
    let envelope = RawEnvelope {
        type_: "activations".to_string(),
        data: shape_data(&[1, 4]),
        raw: vec![("tensor".to_string(), inner_base64_encode(&tensor))],
    };
    let frame = outer_base64_encode(envelope_json(&envelope).as_bytes());

    let parsed = decode_envelope(&read_frame(&frame)).ok().expect("decode");
    assert_eq!(parsed.kind, InboundKind::Activations);
    assert_eq!(parsed.tensor_shape, vec![1, 4]);
    assert_eq!(parsed.tensor_bytes, tensor);
    assert!(parsed.labels_bytes.is_none());
}

#[test]
fn decode_inbound_activations_and_labels() {
    let tensor = [1u8; 8];
    let labels = [2u8; 8];
    let envelope = RawEnvelope {
        type_: "activations_and_labels".to_string(),
        data: shape_data(&[1, 2]),
        raw: vec![
            ("labels".to_string(), inner_base64_encode(&labels)),
            ("tensor".to_string(), inner_base64_encode(&tensor)),
        ],
    };
    let frame = outer_base64_encode(envelope_json(&envelope).as_bytes());

    let parsed = decode_envelope(&read_frame(&frame)).ok().expect("decode");
    assert_eq!(parsed.kind, InboundKind::ActivationsAndLabels);
    assert_eq!(parsed.tensor_bytes, tensor);
    assert_eq!(parsed.labels_bytes.as_deref(), Some(&labels[..]));
}

#[test]
fn decoding_errors_name_the_failing_field() {
    let env = |type_: &str, data: Option<JsonValue>, raw: Vec<(&str, &str)>| RawEnvelope {
        type_: type_.to_string(),
        data,
        raw: raw.into_iter().map(|(k, v)| (k.to_string(), v.to_string())).collect(),
    };
    let bad_kind = decode_envelope(&env("grads", shape_data(&[1]), vec![("tensor", "AA==")])).err().unwrap();
    assert!(matches!(bad_kind, WireError::BadField { field: WireField::Type, .. }));
    let no_shape = decode_envelope(&env("activations", None, vec![("tensor", "AA==")])).err().unwrap();
    assert!(matches!(no_shape, WireError::MissingField(WireField::DataTensorShape)));
    let not_array = Some(JsonValue::Object(vec![("tensor_shape".to_string(), JsonValue::Number(Some(3)))]));
    let bad_shape = decode_envelope(&env("activations", not_array, vec![("tensor", "AA==")])).err().unwrap();
    assert!(matches!(bad_shape, WireError::BadField { field: WireField::DataTensorShape, .. }));
    let float_dim = Some(JsonValue::Object(vec![(
        "tensor_shape".to_string(),
        JsonValue::Array(vec![JsonValue::Number(None)]),
    )]));
    let bad_dim = decode_envelope(&env("activations", float_dim, vec![("tensor", "AA==")])).err().unwrap();
    assert!(matches!(bad_dim, WireError::BadField { field: WireField::DataTensorShape, .. }));
    let no_tensor = decode_envelope(&env("activations", shape_data(&[1]), vec![])).err().unwrap();
    assert!(matches!(no_tensor, WireError::MissingField(WireField::RawTensor)));
    let no_labels =
        decode_envelope(&env("activations_and_labels", shape_data(&[1]), vec![("tensor", "AA==")])).err().unwrap();
    assert!(matches!(no_labels, WireError::MissingField(WireField::RawLabels)));
    let bad_blob = decode_envelope(&env("activations", shape_data(&[1]), vec![("tensor", "!!")])).err().unwrap();
    assert!(matches!(bad_blob, WireError::Base64(_)));
    let bad_labels = decode_envelope(&env(
        "activations_and_labels",
        shape_data(&[1]),
        vec![("tensor", "AA=="), ("labels", "A")],
    ))
    .err()
    .unwrap();
    assert!(matches!(bad_labels, WireError::Base64(_)));
}

#[test]
fn frames_carry_their_text_unchanged() {
    let text = "{\"type\":\"activations\",\"caf\u{e9}\":1}";
    assert_eq!(frame_text(&frame_text_bytes(text)).ok().unwrap(), text);
    assert!(matches!(frame_text(b"not base64!").err().unwrap(), WireError::Base64(_)));
    let latin1 = outer_base64_encode(&[0xff, 0xfe]);
    assert!(matches!(frame_text(&latin1).err().unwrap(), WireError::Utf8));
}

#[test]
fn outer_base64_is_standard_padded_base64() {
    assert_eq!(outer_base64_encode(b"hello"), b"aGVsbG8=".to_vec());
    assert_eq!(outer_base64_decode(b"aGVsbG8=").ok().unwrap(), b"hello".to_vec());
    assert_eq!(inner_base64_encode(&[0xfa, 0xec, 0x20, 0x55, 0]), "+uwgVQA=");
}

#[test]
fn logits_envelopes_carry_shape_and_tensor() {
    let env = logits_envelope(&[7, 7], &[2]);
    assert_eq!(env.type_, "logits");
    assert_eq!(env.raw, vec![("tensor".to_string(), "Bwc=".to_string())]);
    assert_eq!(InboundKind::parse("activations"), Some(InboundKind::Activations));
    assert_eq!(InboundKind::parse("activations_and_labels"), Some(InboundKind::ActivationsAndLabels));
    assert_eq!(InboundKind::parse("logits"), None);
}

#[test]
fn an_outbound_layout_reads_back_as_its_tensor() {
    let tensor_bytes = vec![9u8, 8, 7, 0, 255];
    let shape = vec![5i64, 1];
    let message = decode_envelope(&outbound_envelope("activations", &tensor_bytes, &shape)).ok().expect("decodes");
    assert_eq!(message.kind, InboundKind::Activations);
    assert_eq!(message.tensor_bytes, tensor_bytes);
    assert_eq!(message.tensor_shape, shape);
    assert!(message.labels_bytes.is_none());
}
