//! The split-learning demo's wire format.
//!
//! A frame is `base64(utf8(json({type, data, raw})))`, where `raw` maps tensor names to base64 blobs.
//! This module does both base64 layers and the UTF-8 check, and reads or builds the JSON envelope
//! ([`RawEnvelope`], over the [`JsonValue`] model); turning JSON text into an envelope and back is the
//! caller's (serde's) part.

use base64::Engine as _;
use vstd::prelude::*;
use vstd::utf8::{decode_utf8, encode_utf8, valid_utf8};
use vstd::string::StringSliceAdditionalSpecFns;
use crate::text::{chars_of, range_equals, string_from_chars};

verus! {

/// A JSON value as the envelope reader sees it.
pub enum JsonValue {
    Null,
    Bool(bool),
    /// A number: its value when it is an integer that fits `i64` (what `as_i64` gives), `None` otherwise.
    Number(Option<i64>),
    String(String),
    Array(Vec<JsonValue>),
    /// An object's members, keys unique.
    Object(Vec<(String, JsonValue)>),
}

/// The wire envelope: the message type, its optional `data` document, and the base64 blobs of `raw`
/// (keys unique, as in the map they come from).
pub struct RawEnvelope {
    pub type_: String,
    pub data: Option<JsonValue>,
    pub raw: Vec<(String, String)>,
}

/// Subset of the demo's message types handled here.
#[derive(Clone, Copy, Debug, PartialEq, Eq, Structural)]
pub enum InboundKind {
    /// Training step input: smashed activations + ground-truth labels.
    ActivationsAndLabels,
    /// Inference step input: activations only.
    Activations,
}

/// A decoded inbound message.
pub struct InboundMessage {
    pub kind: InboundKind,
    pub tensor_shape: Vec<i64>,
    pub tensor_bytes: Vec<u8>,
    /// Only populated for `ActivationsAndLabels`.
    pub labels_bytes: Option<Vec<u8>>,
}

/// Why base64 decoding failed (the variants of `base64::DecodeError`).
#[derive(Clone, Copy, Debug, PartialEq, Eq, Structural)]
pub enum Base64Error {
    InvalidByte { offset: usize, byte: u8 },
    InvalidLength { length: usize },
    InvalidLastSymbol { offset: usize, symbol: u8, symbol_value: u8 },
    InvalidPadding,
}

/// A field of the envelope a decoding error refers to.
#[derive(Clone, Copy, Debug, PartialEq, Eq, Structural)]
pub enum WireField {
    /// `type`
    Type,
    /// `data.tensor_shape`
    DataTensorShape,
    /// `raw.tensor`
    RawTensor,
    /// `raw.labels`
    RawLabels,
}

/// Why a present field was rejected.
#[derive(Clone, Copy, Debug, PartialEq, Eq, Structural)]
pub enum BadFieldReason {
    /// expected `activations` or `activations_and_labels`
    ExpectedKind,
    /// expected JSON array
    ExpectedArray,
    /// expected integer dimensions
    ExpectedInteger,
}

/// What decoding a frame can fail with.
#[derive(Debug)]
pub enum WireError {
    /// The frame, or a blob, is not valid base64.
    Base64(Base64Error),
    /// The decoded payload is not valid UTF-8.
    Utf8,
    /// The JSON envelope did not parse, with the parser's message.
    Json(String),
    MissingField(WireField),
    BadField { field: WireField, reason: BadFieldReason },
}

pub open spec fn activations_word() -> Seq<char> {
    seq!['a', 'c', 't', 'i', 'v', 'a', 't', 'i', 'o', 'n', 's']
}

pub open spec fn activations_and_labels_word() -> Seq<char> {
    activations_word() + seq!['_', 'a', 'n', 'd', '_', 'l', 'a', 'b', 'e', 'l', 's']
}

pub open spec fn spec_parse_kind(s: Seq<char>) -> Option<InboundKind> {
    if s == activations_and_labels_word() {
        Some(InboundKind::ActivationsAndLabels)
    } else if s == activations_word() {
        Some(InboundKind::Activations)
    } else {
        None
    }
}

impl InboundKind {
    /// The kind a `type` string names.
    pub fn parse(s: &str) -> (r: Option<InboundKind>)
        ensures
            r == spec_parse_kind(s@),
    {
        let v = chars_of(s);
        let both: Vec<char> = vec![
            'a', 'c', 't', 'i', 'v', 'a', 't', 'i', 'o', 'n', 's', '_', 'a', 'n', 'd', '_', 'l', 'a', 'b', 'e', 'l', 's',
        ];
        let only: Vec<char> = vec!['a', 'c', 't', 'i', 'v', 'a', 't', 'i', 'o', 'n', 's'];
        assert(both@ =~= activations_and_labels_word());
        assert(only@ =~= activations_word());
        assert(v@.subrange(0, v@.len() as int) =~= v@);
        if range_equals(&v, 0, v.len(), &both) {
            Some(InboundKind::ActivationsAndLabels)
        } else if range_equals(&v, 0, v.len(), &only) {
            Some(InboundKind::Activations)
        } else {
            None
        }
    }
}

/// The standard base64 encoding (RFC 4648 alphabet, padded) of `bytes`.
pub uninterp spec fn base64_encoding(bytes: Seq<u8>) -> Seq<char>;

/// The bytes the standard base64 engine decodes `text` to, or `None` when it rejects it.
pub uninterp spec fn base64_decoding(text: Seq<u8>) -> Option<Seq<u8>>;

/// Calls `base64::engine::general_purpose::STANDARD.encode`; the text is named by `base64_encoding`
/// and, being drawn from the base64 alphabet and `=`, is ASCII.
#[verifier::external_body]
fn base64_encode(bytes: &[u8]) -> (r: String)
    ensures
        r@ == base64_encoding(bytes@),
        vstd::utf8::is_ascii_chars(r@),
{
    base64::engine::general_purpose::STANDARD.encode(bytes)
}

/// Every text the standard engine encodes from some bytes decodes to exactly those bytes.
pub open spec fn inverts_encoding(text: Seq<u8>, decoded: Option<Seq<u8>>) -> bool {
    forall|x: Seq<u8>| text == encode_utf8(#[trigger] base64_encoding(x)) ==> decoded == Some(x)
}

pub open spec fn ok_bytes<E>(r: Result<Vec<u8>, E>) -> Option<Seq<u8>> {
    match r {
        Ok(v) => Some(v@),
        Err(_) => None,
    }
}

/// Calls `base64::engine::general_purpose::STANDARD.decode`, converting its error variant by variant.
/// The decoded bytes are named by `base64_decoding`; decoding text that the same engine encoded gives
/// the encoded bytes back.
#[verifier::external_body]
fn base64_decode(text: &[u8]) -> (r: Result<Vec<u8>, Base64Error>)
    ensures
        r is Ok <==> base64_decoding(text@) is Some,
        r matches Ok(v) ==> base64_decoding(text@) == Some(v@),
        inverts_encoding(text@, ok_bytes(r)),
{
    match base64::engine::general_purpose::STANDARD.decode(text) {
        Ok(v) => Ok(v),
        Err(base64::DecodeError::InvalidByte(offset, byte)) => Err(Base64Error::InvalidByte { offset, byte }),
        Err(base64::DecodeError::InvalidLength(length)) => Err(Base64Error::InvalidLength { length }),
        Err(base64::DecodeError::InvalidLastSymbol { offset, symbol, symbol_value }) => Err(
            Base64Error::InvalidLastSymbol { offset, symbol, symbol_value },
        ),
        Err(base64::DecodeError::InvalidPadding) => Err(Base64Error::InvalidPadding),
    }
}

/// Calls `String::from_utf8`: the text of `bytes` exactly when they are valid UTF-8.
#[verifier::external_body]
fn utf8_string(bytes: Vec<u8>) -> (r: Option<String>)
    ensures
        r is Some <==> valid_utf8(bytes@),
        r matches Some(s) ==> s@ == decode_utf8(bytes@),
{
    String::from_utf8(bytes).ok()
}

/// The UTF-8 bytes of `s`.
pub fn string_bytes(s: &str) -> (r: Vec<u8>)
    ensures
        r@ == encode_utf8(s@),
{
    let b = s.as_bytes();
    let mut r: Vec<u8> = Vec::new();
    let mut i: usize = 0;
    while i < b.len()
        invariant
            i <= b@.len(),
            b@ == encode_utf8(s@),
            r@ == b@.take(i as int),
        decreases b@.len() - i,
    {
        r.push(b[i]);
        i = i + 1;
        assert(r@ =~= b@.take(i as int));
    }
    assert(b@.take(b@.len() as int) =~= b@);
    r
}

/// The outer layer of a frame: the base64 text of `bytes`, as bytes.
pub fn outer_base64_encode(bytes: &[u8]) -> (r: Vec<u8>)
    ensures
        r@ == encode_utf8(base64_encoding(bytes@)),
{
    let text = base64_encode(bytes);
    string_bytes(text.as_str())
}

/// Undo the outer layer of a frame; decoding a frame this codec encoded gives its bytes back.
pub fn outer_base64_decode(frame: &[u8]) -> (r: Result<Vec<u8>, Base64Error>)
    ensures
        r is Ok <==> base64_decoding(frame@) is Some,
        r matches Ok(v) ==> base64_decoding(frame@) == Some(v@),
        forall|x: Seq<u8>| frame@ == encode_utf8(#[trigger] base64_encoding(x)) ==> (r matches Ok(v) && v@ == x),
{
    base64_decode(frame)
}

/// The base64 text of a `raw` blob.
pub fn inner_base64_encode(bytes: &[u8]) -> (r: String)
    ensures
        r@ == base64_encoding(bytes@),
{
    base64_encode(bytes)
}

/// The JSON text a frame carries: base64-decoded, then checked as UTF-8.
pub open spec fn spec_frame_text(frame: Seq<u8>) -> Option<Seq<char>> {
    match base64_decoding(frame) {
        Some(b) => if valid_utf8(b) {
            Some(decode_utf8(b))
        } else {
            None
        },
        None => None,
    }
}

/// The JSON text of a frame. Framing text with [`frame_text_bytes`] and reading it back here gives the
/// same text.
pub fn frame_text(frame: &[u8]) -> (r: Result<String, WireError>)
    ensures
        r matches Ok(s) ==> spec_frame_text(frame@) == Some(s@),
        r matches Err(e) ==> match e {
            WireError::Base64(_) => base64_decoding(frame@) is None,
            WireError::Utf8 => base64_decoding(frame@) matches Some(b) && !valid_utf8(b),
            _ => false,
        },
        base64_decoding(frame@) is Some && spec_frame_text(frame@) is Some ==> r is Ok,
        forall|t: Seq<char>| frame@ == encode_utf8(#[trigger] base64_encoding(encode_utf8(t))) ==> (r matches Ok(s) && s@ == t),
{
    let decoded = match base64_decode(frame) {
        Ok(v) => v,
        Err(e) => return Err(WireError::Base64(e)),
    };
    proof {
        assert forall|t: Seq<char>| frame@ == encode_utf8(#[trigger] base64_encoding(encode_utf8(t))) implies
            decoded@ == encode_utf8(t) && valid_utf8(decoded@) && decode_utf8(decoded@) == t by {
            vstd::utf8::encode_utf8_valid_utf8(t);
            vstd::utf8::encode_utf8_decode_utf8(t);
        }
    }
    match utf8_string(decoded) {
        Some(s) => Ok(s),
        None => Err(WireError::Utf8),
    }
}

/// A frame carrying `text`: its UTF-8 bytes, base64-encoded.
pub fn frame_text_bytes(text: &str) -> (r: Vec<u8>)
    ensures
        r@ == encode_utf8(base64_encoding(encode_utf8(text@))),
{
    let b = string_bytes(text);
    outer_base64_encode(b.as_slice())
}

/// The value of the first member named `key` in `members`.
pub open spec fn member(members: Seq<(String, JsonValue)>, key: Seq<char>) -> Option<JsonValue>
    decreases members.len(),
{
    if members.len() == 0 {
        None
    } else if members[0].0@ == key {
        Some(members[0].1)
    } else {
        member(members.drop_first(), key)
    }
}

/// `Value::get`: the member `key` of an object; nothing for any other value.
pub open spec fn json_get(v: JsonValue, key: Seq<char>) -> Option<JsonValue> {
    match v {
        JsonValue::Object(members) => member(members@, key),
        _ => None,
    }
}

proof fn lemma_member_index(members: Seq<(String, JsonValue)>, key: Seq<char>, i: int)
    requires
        0 <= i <= members.len(),
        forall|m: int| 0 <= m < i ==> (#[trigger] members[m]).0@ != key,
    ensures
        member(members, key) == member(members.skip(i), key),
    decreases i,
{
    if i == 0 {
        assert(members.skip(0) =~= members);
    } else {
        let t = members.drop_first();
        assert forall|m: int| 0 <= m < i - 1 implies (#[trigger] t[m]).0@ != key by {
            assert(t[m] == members[m + 1]);
        }
        lemma_member_index(t, key, i - 1);
        assert(t.skip(i - 1) =~= members.skip(i));
    }
}

/// Index of the first member named `key`.
pub fn find_member(members: &Vec<(String, JsonValue)>, key: &Vec<char>) -> (r: Option<usize>)
    ensures
        match r {
            Some(i) => i < members.len() && member(members@, key@) == Some(members@[i as int].1),
            None => member(members@, key@) is None,
        },
{
    let mut i: usize = 0;
    while i < members.len()
        invariant
            i <= members.len(),
            forall|m: int| 0 <= m < i ==> (#[trigger] members@[m]).0@ != key@,
        decreases members.len() - i,
    {
        let name = chars_of(members[i].0.as_str());
        assert(name@.subrange(0, name@.len() as int) =~= name@);
        if range_equals(&name, 0, name.len(), key) {
            proof {
                lemma_member_index(members@, key@, i as int);
                assert(members@.skip(i as int)[0] == members@[i as int]);
            }
            return Some(i);
        }
        i = i + 1;
    }
    proof {
        lemma_member_index(members@, key@, i as int);
    }
    None
}

/// The blob stored under `key` in the `raw` map.
pub open spec fn raw_entry(raw: Seq<(String, String)>, key: Seq<char>) -> Option<String>
    decreases raw.len(),
{
    if raw.len() == 0 {
        None
    } else if raw[0].0@ == key {
        Some(raw[0].1)
    } else {
        raw_entry(raw.drop_first(), key)
    }
}

proof fn lemma_raw_index(raw: Seq<(String, String)>, key: Seq<char>, i: int)
    requires
        0 <= i <= raw.len(),
        forall|m: int| 0 <= m < i ==> (#[trigger] raw[m]).0@ != key,
    ensures
        raw_entry(raw, key) == raw_entry(raw.skip(i), key),
    decreases i,
{
    if i == 0 {
        assert(raw.skip(0) =~= raw);
    } else {
        let t = raw.drop_first();
        assert forall|m: int| 0 <= m < i - 1 implies (#[trigger] t[m]).0@ != key by {
            assert(t[m] == raw[m + 1]);
        }
        lemma_raw_index(t, key, i - 1);
        assert(t.skip(i - 1) =~= raw.skip(i));
    }
}

/// Index of the blob stored under `key`.
pub fn find_raw(raw: &Vec<(String, String)>, key: &Vec<char>) -> (r: Option<usize>)
    ensures
        match r {
            Some(i) => i < raw.len() && raw_entry(raw@, key@) == Some(raw@[i as int].1),
            None => raw_entry(raw@, key@) is None,
        },
{
    let mut i: usize = 0;
    while i < raw.len()
        invariant
            i <= raw.len(),
            forall|m: int| 0 <= m < i ==> (#[trigger] raw@[m]).0@ != key@,
        decreases raw.len() - i,
    {
        let name = chars_of(raw[i].0.as_str());
        assert(name@.subrange(0, name@.len() as int) =~= name@);
        if range_equals(&name, 0, name.len(), key) {
            proof {
                lemma_raw_index(raw@, key@, i as int);
                assert(raw@.skip(i as int)[0] == raw@[i as int]);
            }
            return Some(i);
        }
        i = i + 1;
    }
    proof {
        lemma_raw_index(raw@, key@, i as int);
    }
    None
}

/// Every element of `items` is an integer that fits `i64`.
pub open spec fn all_integers(items: Seq<JsonValue>) -> bool {
    forall|k: int| 0 <= k < items.len() ==> #[trigger] items[k] matches JsonValue::Number(Some(_))
}

/// The integers of `items` (meaningful when [`all_integers`] holds).
pub open spec fn integer_values(items: Seq<JsonValue>) -> Seq<i64> {
    items.map_values(|v: JsonValue| match v {
        JsonValue::Number(Some(n)) => n,
        _ => 0,
    })
}

/// Read a tensor shape: a JSON array of integer dimensions.
pub fn parse_shape(value: &JsonValue) -> (r: Result<Vec<i64>, WireError>)
    ensures
        match *value {
            JsonValue::Array(items) => if all_integers(items@) {
                r matches Ok(dims) && dims@ == integer_values(items@)
            } else {
                r matches Err(WireError::BadField { field, reason }) && field == WireField::DataTensorShape
                    && reason == BadFieldReason::ExpectedInteger
            },
            _ => r matches Err(WireError::BadField { field, reason }) && field == WireField::DataTensorShape
                && reason == BadFieldReason::ExpectedArray,
        },
{
    let items = match value {
        JsonValue::Array(items) => items,
        _ => {
            return Err(WireError::BadField { field: WireField::DataTensorShape, reason: BadFieldReason::ExpectedArray });
        },
    };
    let mut dims: Vec<i64> = Vec::new();
    let mut k: usize = 0;
    while k < items.len()
        invariant
            *value == JsonValue::Array(*items),
            k <= items.len(),
            all_integers(items@.take(k as int)),
            dims@ == integer_values(items@.take(k as int)),
        decreases items.len() - k,
    {
        match &items[k] {
            JsonValue::Number(Some(n)) => {
                dims.push(*n);
            },
            _ => {
                assert(!(items@[k as int] matches JsonValue::Number(Some(_))));
                return Err(
                    WireError::BadField { field: WireField::DataTensorShape, reason: BadFieldReason::ExpectedInteger },
                );
            },
        }
        k = k + 1;
        assert(items@.take(k as int).drop_last() =~= items@.take(k - 1));
        assert(dims@ =~= integer_values(items@.take(k as int)));
    }
    assert(items@.take(items.len() as int) =~= items@);
    Ok(dims)
}

pub open spec fn tensor_shape_key() -> Seq<char> {
    seq!['t', 'e', 'n', 's', 'o', 'r', '_', 's', 'h', 'a', 'p', 'e']
}

pub open spec fn tensor_key() -> Seq<char> {
    seq!['t', 'e', 'n', 's', 'o', 'r']
}

pub open spec fn labels_key() -> Seq<char> {
    seq!['l', 'a', 'b', 'e', 'l', 's']
}

/// `data.tensor_shape`, when `data` is an object holding it.
pub open spec fn envelope_shape(env: RawEnvelope) -> Option<JsonValue> {
    match env.data {
        Some(d) => json_get(d, tensor_shape_key()),
        None => None,
    }
}

/// The outcome of decoding a blob: its bytes, or that base64 rejected it.
pub open spec fn blob_ok(blob: String) -> bool {
    base64_decoding(encode_utf8(blob@)) is Some
}

/// Decode a blob of `raw`.
fn decode_blob(blob: &String) -> (r: Result<Vec<u8>, WireError>)
    ensures
        r is Ok <==> blob_ok(*blob),
        r matches Ok(v) ==> base64_decoding(encode_utf8(blob@)) == Some(v@),
        r matches Err(e) ==> e is Base64,
        forall|x: Seq<u8>| blob@ == #[trigger] base64_encoding(x) ==> (r matches Ok(v) && v@ == x),
{
    let bytes = string_bytes(blob.as_str());
    match base64_decode(bytes.as_slice()) {
        Ok(v) => Ok(v),
        Err(e) => Err(WireError::Base64(e)),
    }
}

/// Decode an envelope into a typed message. The checks go in this order, and the first that fails
/// decides the error: the `type` names a handled kind; `data.tensor_shape` is present and an array of
/// integers; `raw.tensor` is present and base64; for training input, `raw.labels` too.
pub fn decode_envelope(env: &RawEnvelope) -> (r: Result<InboundMessage, WireError>)
    ensures
        spec_parse_kind(env.type_@) is None ==> (r matches Err(WireError::BadField { field, reason })
            && field == WireField::Type && reason == BadFieldReason::ExpectedKind),
        spec_parse_kind(env.type_@) is Some && envelope_shape(*env) is None ==> (r matches Err(
            WireError::MissingField(f),
        ) && f == WireField::DataTensorShape),
        r matches Ok(m) ==> {
            &&& spec_parse_kind(env.type_@) == Some(m.kind)
            &&& envelope_shape(*env) matches Some(JsonValue::Array(items))
            &&& all_integers(items@)
            &&& m.tensor_shape@ == integer_values(items@)
            &&& raw_entry(env.raw@, tensor_key()) matches Some(t)
            &&& base64_decoding(encode_utf8(t@)) == Some(m.tensor_bytes@)
            &&& match m.kind {
                InboundKind::ActivationsAndLabels => raw_entry(env.raw@, labels_key()) matches Some(l)
                    && m.labels_bytes matches Some(lb) && base64_decoding(encode_utf8(l@)) == Some(lb@),
                InboundKind::Activations => m.labels_bytes is None,
            }
        },
        // Success is owed whenever every check passes.
        ({
            &&& spec_parse_kind(env.type_@) is Some
            &&& envelope_shape(*env) matches Some(JsonValue::Array(items))
            &&& all_integers(items@)
            &&& raw_entry(env.raw@, tensor_key()) matches Some(t)
            &&& blob_ok(t)
            &&& spec_parse_kind(env.type_@) == Some(InboundKind::ActivationsAndLabels) ==> (raw_entry(
                env.raw@,
                labels_key(),
            ) matches Some(l) && blob_ok(l))
        }) ==> r is Ok,
        // The missing-field errors.
        ({
            &&& spec_parse_kind(env.type_@) is Some
            &&& envelope_shape(*env) matches Some(JsonValue::Array(items))
            &&& all_integers(items@)
            &&& raw_entry(env.raw@, tensor_key()) is None
        }) ==> (r matches Err(WireError::MissingField(f)) && f == WireField::RawTensor),
        ({
            &&& spec_parse_kind(env.type_@) == Some(InboundKind::ActivationsAndLabels)
            &&& envelope_shape(*env) matches Some(JsonValue::Array(items))
            &&& all_integers(items@)
            &&& raw_entry(env.raw@, tensor_key()) matches Some(t)
            &&& blob_ok(t)
            &&& raw_entry(env.raw@, labels_key()) is None
        }) ==> (r matches Err(WireError::MissingField(f)) && f == WireField::RawLabels),
        // A blob that is present but not base64.
        ({
            &&& spec_parse_kind(env.type_@) is Some
            &&& envelope_shape(*env) matches Some(JsonValue::Array(items))
            &&& all_integers(items@)
            &&& raw_entry(env.raw@, tensor_key()) matches Some(t)
            &&& !blob_ok(t)
        }) ==> (r matches Err(WireError::Base64(_))),
        ({
            &&& spec_parse_kind(env.type_@) == Some(InboundKind::ActivationsAndLabels)
            &&& envelope_shape(*env) matches Some(JsonValue::Array(items))
            &&& all_integers(items@)
            &&& raw_entry(env.raw@, tensor_key()) matches Some(t)
            &&& blob_ok(t)
            &&& raw_entry(env.raw@, labels_key()) matches Some(l)
            &&& !blob_ok(l)
        }) ==> (r matches Err(WireError::Base64(_))),
        // A rejected shape.
        spec_parse_kind(env.type_@) is Some && envelope_shape(*env) is Some && !shape_acceptable(
            envelope_shape(*env).unwrap(),
        ) ==> (r matches Err(WireError::BadField { field, reason })
            && field == WireField::DataTensorShape),
        // An envelope laid out as `outbound_envelope` lays one out reads back as the shape and the bytes
        // it was built from.
        forall|x: Seq<u8>, s: Seq<i64>|
            #![trigger is_shape_data(env.data, s), base64_encoding(x)]
            spec_parse_kind(env.type_@) == Some(InboundKind::Activations) && is_shape_data(env.data, s)
                && (raw_entry(env.raw@, tensor_key()) matches Some(t) && t@ == base64_encoding(x)) ==> (r matches Ok(
                m,
            ) && m.kind == InboundKind::Activations && m.tensor_shape@ == s && m.tensor_bytes@ == x
                && m.labels_bytes is None),
        forall|x: Seq<u8>, y: Seq<u8>, s: Seq<i64>|
            #![trigger is_shape_data(env.data, s), base64_encoding(x), base64_encoding(y)]
            spec_parse_kind(env.type_@) == Some(InboundKind::ActivationsAndLabels) && is_shape_data(env.data, s)
                && (raw_entry(env.raw@, tensor_key()) matches Some(t) && t@ == base64_encoding(x))
                && (raw_entry(env.raw@, labels_key()) matches Some(l) && l@ == base64_encoding(y)) ==> (r matches Ok(
                m,
            ) && m.kind == InboundKind::ActivationsAndLabels && m.tensor_shape@ == s && m.tensor_bytes@ == x
                && (m.labels_bytes matches Some(lb) && lb@ == y)),
{
    let kind = match InboundKind::parse(env.type_.as_str()) {
        Some(k) => k,
        None => {
            return Err(WireError::BadField { field: WireField::Type, reason: BadFieldReason::ExpectedKind });
        },
    };
    let shape_key: Vec<char> = vec!['t', 'e', 'n', 's', 'o', 'r', '_', 's', 'h', 'a', 'p', 'e'];
    assert(shape_key@ =~= tensor_shape_key());
    let shape_value: &JsonValue = match &env.data {
        Some(JsonValue::Object(members)) => match find_member(members, &shape_key) {
            Some(i) => &members[i].1,
            None => return Err(WireError::MissingField(WireField::DataTensorShape)),
        },
        _ => return Err(WireError::MissingField(WireField::DataTensorShape)),
    };
    let tensor_shape = parse_shape(shape_value)?;
    let tkey: Vec<char> = vec!['t', 'e', 'n', 's', 'o', 'r'];
    assert(tkey@ =~= tensor_key());
    let tensor_bytes = match find_raw(&env.raw, &tkey) {
        Some(i) => decode_blob(&env.raw[i].1)?,
        None => return Err(WireError::MissingField(WireField::RawTensor)),
    };
    let labels_bytes = match kind {
        InboundKind::ActivationsAndLabels => {
            let lkey: Vec<char> = vec!['l', 'a', 'b', 'e', 'l', 's'];
            assert(lkey@ =~= labels_key());
            match find_raw(&env.raw, &lkey) {
                Some(i) => Some(decode_blob(&env.raw[i].1)?),
                None => return Err(WireError::MissingField(WireField::RawLabels)),
            }
        },
        InboundKind::Activations => None,
    };
    Ok(InboundMessage { kind, tensor_shape, tensor_bytes, labels_bytes })
}

/// `v` is an array of integers.
pub open spec fn shape_acceptable(v: JsonValue) -> bool {
    v matches JsonValue::Array(items) && all_integers(items@)
}

/// `v` is the JSON array of the integers `shape`.
pub open spec fn is_shape_json(v: JsonValue, shape: Seq<i64>) -> bool {
    v matches JsonValue::Array(items) && all_integers(items@) && integer_values(items@) == shape
}

/// `data` is exactly `{"tensor_shape": shape}`.
pub open spec fn is_shape_data(data: Option<JsonValue>, shape: Seq<i64>) -> bool {
    data matches Some(JsonValue::Object(members)) && members@.len() == 1 && members@[0].0@ == tensor_shape_key()
        && is_shape_json(members@[0].1, shape)
}

/// `shape` as a JSON array of integers.
pub fn shape_to_json(shape: &[i64]) -> (r: JsonValue)
    ensures
        is_shape_json(r, shape@),
{
    let mut items: Vec<JsonValue> = Vec::new();
    let mut k: usize = 0;
    while k < shape.len()
        invariant
            k <= shape@.len(),
            items@.len() == k,
            forall|m: int| 0 <= m < k ==> (#[trigger] items@[m]) == JsonValue::Number(Some(shape@[m])),
        decreases shape@.len() - k,
    {
        items.push(JsonValue::Number(Some(shape[k])));
        k = k + 1;
    }
    assert(integer_values(items@) =~= shape@);
    JsonValue::Array(items)
}

/// The envelope of an outbound tensor message of type `type_`: `data` holds `tensor_shape`, `raw`
/// holds the base64 of the tensor bytes under `tensor`.
pub fn outbound_envelope(type_: &str, tensor_bytes: &[u8], tensor_shape: &[i64]) -> (r: RawEnvelope)
    ensures
        r.type_@ == type_@,
        is_shape_data(r.data, tensor_shape@),
        r.raw@.len() == 1,
        r.raw@[0].0@ == tensor_key(),
        r.raw@[0].1@ == base64_encoding(tensor_bytes@),
{
    let key = string_from_chars(&vec!['t', 'e', 'n', 's', 'o', 'r', '_', 's', 'h', 'a', 'p', 'e']);
    assert(key@ =~= tensor_shape_key());
    let mut members: Vec<(String, JsonValue)> = Vec::new();
    members.push((key, shape_to_json(tensor_shape)));
    let tkey = string_from_chars(&vec!['t', 'e', 'n', 's', 'o', 'r']);
    assert(tkey@ =~= tensor_key());
    let mut raw: Vec<(String, String)> = Vec::new();
    raw.push((tkey, inner_base64_encode(tensor_bytes)));
    RawEnvelope { type_: String::from_str(type_), data: Some(JsonValue::Object(members)), raw }
}

/// The envelope of an inference response: type `logits`.
pub fn logits_envelope(tensor_bytes: &[u8], tensor_shape: &[i64]) -> (r: RawEnvelope)
    ensures
        r.type_@ == seq!['l', 'o', 'g', 'i', 't', 's'],
        is_shape_data(r.data, tensor_shape@),
        r.raw@.len() == 1,
        r.raw@[0].0@ == tensor_key(),
        r.raw@[0].1@ == base64_encoding(tensor_bytes@),
{
    let t = string_from_chars(&vec!['l', 'o', 'g', 'i', 't', 's']);
    outbound_envelope(t.as_str(), tensor_bytes, tensor_shape)
}

/// The envelope of a training response before its loss is added: type `grads`.
pub fn grads_envelope(tensor_bytes: &[u8], tensor_shape: &[i64]) -> (r: RawEnvelope)
    ensures
        r.type_@ == seq!['g', 'r', 'a', 'd', 's'],
        is_shape_data(r.data, tensor_shape@),
        r.raw@.len() == 1,
        r.raw@[0].0@ == tensor_key(),
        r.raw@[0].1@ == base64_encoding(tensor_bytes@),
{
    let t = string_from_chars(&vec!['g', 'r', 'a', 'd', 's']);
    outbound_envelope(t.as_str(), tensor_bytes, tensor_shape)
}

} // verus!
