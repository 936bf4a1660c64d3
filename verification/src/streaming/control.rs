//! Messages that viewers send back.
use crate::double::{
    at_most, cut_down, is_finite, is_negative, law_bits_are_cut_down, value, whole,
};
use crate::streaming::protocol::{ProtocolError, VIEWER_CONTROL_MAX_BYTES};
use crate::text::text_eq;
use vstd::arithmetic::power2::{lemma2_to64, lemma2_to64_rest};
use vstd::prelude::*;

verus! {

/// The largest counter that is kept, 10 000 000, by its IEEE bits.
pub const MAX_CLIENT_COUNTER: u64 = 0x4163_12d0_0000_0000;

/// The largest frame rate that is kept, 1000, by its IEEE bits.
pub const MAX_CLIENT_FPS: u64 = 0x408f_4000_0000_0000;

/// What a viewer reports of its own work. Each number is given by the bits of a double.
#[derive(Debug, Clone, Copy, PartialEq, Eq, Structural)]
pub struct ClientMetrics {
    pub decoded_frames: Option<u64>,
    pub dropped_frames: Option<u64>,
    pub fps: Option<u64>,
    pub keyframe_recoveries: Option<u64>,
    pub reconnects: Option<u64>,
    pub rendered_frames: Option<u64>,
    pub sequence_gaps: Option<u64>,
}

/// A number that is kept: zero or more, and cut down to `max`.
pub open spec fn kept(number: Option<u64>, max: u64) -> Option<u64> {
    match number {
        Some(bits) => at_most(bits, max),
        None => None,
    }
}

impl ClientMetrics {
    /// Nothing reported.
    pub open spec fn none() -> ClientMetrics {
        ClientMetrics {
            decoded_frames: None,
            dropped_frames: None,
            fps: None,
            keyframe_recoveries: None,
            reconnects: None,
            rendered_frames: None,
            sequence_gaps: None,
        }
    }

    /// What is kept of a report.
    pub open spec fn kept(self) -> ClientMetrics {
        ClientMetrics {
            decoded_frames: kept(self.decoded_frames, MAX_CLIENT_COUNTER),
            dropped_frames: kept(self.dropped_frames, MAX_CLIENT_COUNTER),
            fps: kept(self.fps, MAX_CLIENT_FPS),
            keyframe_recoveries: kept(self.keyframe_recoveries, MAX_CLIENT_COUNTER),
            reconnects: kept(self.reconnects, MAX_CLIENT_COUNTER),
            rendered_frames: kept(self.rendered_frames, MAX_CLIENT_COUNTER),
            sequence_gaps: kept(self.sequence_gaps, MAX_CLIENT_COUNTER),
        }
    }
}

/// What a viewer asks for or tells.
#[derive(Debug, Clone, Copy, PartialEq, Eq, Structural)]
pub enum ViewerControl {
    /// Send a whole picture next.
    Keyframe,
    /// A report.
    ClientMetrics(ClientMetrics),
}

/// A value inside a JSON text. Of arrays and objects only the kind is told.
#[derive(Debug)]
pub enum JsonValue {
    Null,
    Bool(bool),
    /// The bits of the double nearest to the number.
    Number(Option<u64>),
    Text(String),
    Array,
    Object,
}

/// A JSON value with its text as a sequence of characters.
pub enum JsonView {
    Null,
    Bool(bool),
    Number(Option<u64>),
    Text(Seq<char>),
    Array,
    Object,
}

impl View for JsonValue {
    type V = JsonView;

    open spec fn view(&self) -> JsonView {
        match self {
            JsonValue::Null => JsonView::Null,
            JsonValue::Bool(b) => JsonView::Bool(*b),
            JsonValue::Number(n) => JsonView::Number(*n),
            JsonValue::Text(t) => JsonView::Text(t@),
            JsonValue::Array => JsonView::Array,
            JsonValue::Object => JsonView::Object,
        }
    }
}

/// What `serde_json::from_slice` and `serde_json::Value::pointer` find in a text under a JSON
/// pointer; the error where the text is no JSON.
pub uninterp spec fn json_at(text: Seq<u8>, pointer: Seq<char>) -> Result<
    Option<JsonView>,
    Seq<char>,
>;

/// Reads a text with `serde_json::from_slice` and looks a value up with
/// `serde_json::Value::pointer`. What is found depends on the text and the pointer alone; where
/// the text is no JSON, the error is the one that `serde_json` words.
#[verifier::external_body]
fn json_lookup(text: &[u8], pointer: &str) -> (res: Result<Option<JsonValue>, String>)
    ensures
        match res {
            Ok(Some(found)) => json_at(text@, pointer@) == Ok::<Option<JsonView>, Seq<char>>(
                Some(found@),
            ),
            Ok(None) => json_at(text@, pointer@) == Ok::<Option<JsonView>, Seq<char>>(None),
            Err(why) => json_at(text@, pointer@) == Err::<Option<JsonView>, Seq<char>>(why@),
        },
{
    let root: serde_json::Value = serde_json::from_slice(text).map_err(|e| e.to_string())?;
    Ok(root.pointer(pointer).map(|found| match found {
        serde_json::Value::Null => JsonValue::Null,
        serde_json::Value::Bool(b) => JsonValue::Bool(*b),
        serde_json::Value::Number(n) => JsonValue::Number(n.as_f64().map(|x| x.to_bits())),
        serde_json::Value::String(s) => JsonValue::Text(s.clone()),
        serde_json::Value::Array(_) => JsonValue::Array,
        serde_json::Value::Object(_) => JsonValue::Object,
    }))
}

/// The value under a pointer, if there is one.
pub open spec fn member(text: Seq<u8>, pointer: Seq<char>) -> Option<JsonView> {
    match json_at(text, pointer) {
        Ok(found) => found,
        Err(_) => None,
    }
}

/// The text under a pointer, if one is there.
pub open spec fn text_at(text: Seq<u8>, pointer: Seq<char>) -> Option<Seq<char>> {
    match member(text, pointer) {
        Some(JsonView::Text(t)) => Some(t),
        _ => None,
    }
}

/// The number under a pointer, if one is there.
pub open spec fn number_at(text: Seq<u8>, pointer: Seq<char>) -> Option<u64> {
    match member(text, pointer) {
        Some(JsonView::Number(n)) => n,
        _ => None,
    }
}

/// The report in a message, as it was sent.
pub open spec fn reported(text: Seq<u8>) -> ClientMetrics {
    ClientMetrics {
        decoded_frames: number_at(text, "/metrics/decodedFrames"@),
        dropped_frames: number_at(text, "/metrics/droppedFrames"@),
        fps: number_at(text, "/metrics/fps"@),
        keyframe_recoveries: number_at(text, "/metrics/keyframeRecoveries"@),
        reconnects: number_at(text, "/metrics/reconnects"@),
        rendered_frames: number_at(text, "/metrics/renderedFrames"@),
        sequence_gaps: number_at(text, "/metrics/sequenceGaps"@),
    }
}

fn find_text(text: &[u8], pointer: &str) -> (found: Option<String>)
    ensures
        match found {
            Some(s) => text_at(text@, pointer@) == Some(s@),
            None => text_at(text@, pointer@) is None,
        },
{
    match json_lookup(text, pointer) {
        Ok(Some(JsonValue::Text(s))) => Some(s),
        _ => None,
    }
}

fn find_number(text: &[u8], pointer: &str) -> (found: Option<u64>)
    ensures
        found == number_at(text@, pointer@),
{
    match json_lookup(text, pointer) {
        Ok(Some(JsonValue::Number(n))) => n,
        _ => None,
    }
}

fn find_report(text: &[u8]) -> (metrics: ClientMetrics)
    ensures
        metrics == reported(text@),
{
    ClientMetrics {
        decoded_frames: find_number(text, "/metrics/decodedFrames"),
        dropped_frames: find_number(text, "/metrics/droppedFrames"),
        fps: find_number(text, "/metrics/fps"),
        keyframe_recoveries: find_number(text, "/metrics/keyframeRecoveries"),
        reconnects: find_number(text, "/metrics/reconnects"),
        rendered_frames: find_number(text, "/metrics/renderedFrames"),
        sequence_gaps: find_number(text, "/metrics/sequenceGaps"),
    }
}

/// The parts of a control message that decide what it means.
#[derive(Debug)]
pub struct ControlMessage {
    /// Whether the message is a JSON object.
    pub is_object: bool,
    /// The member `type`, where it is a text.
    pub kind: Option<String>,
    /// The numbers in the member `metrics`, where it is an object.
    pub metrics: Option<ClientMetrics>,
}

impl ControlMessage {
    /// Whether `res` is what a message of these parts means.
    pub open spec fn means(
        is_object: bool,
        kind: Option<Seq<char>>,
        metrics: Option<ClientMetrics>,
        res: Result<ViewerControl, ProtocolError>,
    ) -> bool {
        if !is_object {
            res matches Err(ProtocolError::InvalidJson(why)) && why@ == "message must be an object"@
        } else if kind is None {
            res matches Err(ProtocolError::InvalidJson(why)) && why@ == "missing type"@
        } else if kind == Some("keyframe"@) {
            res == Ok::<ViewerControl, ProtocolError>(ViewerControl::Keyframe)
        } else if kind == Some("client-metrics"@) {
            res == Ok::<ViewerControl, ProtocolError>(
                ViewerControl::ClientMetrics(
                    match metrics {
                        Some(m) => m.kept(),
                        None => ClientMetrics::none(),
                    },
                ),
            )
        } else {
            res matches Err(ProtocolError::UnknownType(other)) && Some(other@) == kind
        }
    }
}

/// The two limits are the numbers that they are meant to be.
pub proof fn law_limits()
    ensures
        value(MAX_CLIENT_COUNTER) == whole(10_000_000),
        value(MAX_CLIENT_FPS) == whole(1000),
        is_finite(MAX_CLIENT_COUNTER) && !is_negative(MAX_CLIENT_COUNTER),
        is_finite(MAX_CLIENT_FPS) && !is_negative(MAX_CLIENT_FPS),
{
    lemma2_to64();
    lemma2_to64_rest();
    crate::double::lemma_whole(MAX_CLIENT_COUNTER, 10_000_000, 29);
    crate::double::lemma_whole(MAX_CLIENT_FPS, 1000, 43);
}

fn keep(number: Option<u64>, max: u64) -> (res: Option<u64>)
    requires
        is_finite(max),
        !is_negative(max),
    ensures
        res == kept(number, max),
{
    match number {
        Some(bits) => cut_down(bits, max),
        None => None,
    }
}

/// What is kept of a report: numbers that are finite and not below zero, cut down to their limits.
pub fn sanitize_client_metrics(metrics: Option<&ClientMetrics>) -> (res: ClientMetrics)
    ensures
        res == match metrics {
            Some(m) => m.kept(),
            None => ClientMetrics::none(),
        },
{
    match metrics {
        Some(m) => {
            ClientMetrics {
                decoded_frames: keep(m.decoded_frames, MAX_CLIENT_COUNTER),
                dropped_frames: keep(m.dropped_frames, MAX_CLIENT_COUNTER),
                fps: keep(m.fps, MAX_CLIENT_FPS),
                keyframe_recoveries: keep(m.keyframe_recoveries, MAX_CLIENT_COUNTER),
                reconnects: keep(m.reconnects, MAX_CLIENT_COUNTER),
                rendered_frames: keep(m.rendered_frames, MAX_CLIENT_COUNTER),
                sequence_gaps: keep(m.sequence_gaps, MAX_CLIENT_COUNTER),
            }
        },
        None => ClientMetrics {
            decoded_frames: None,
            dropped_frames: None,
            fps: None,
            keyframe_recoveries: None,
            reconnects: None,
            rendered_frames: None,
            sequence_gaps: None,
        },
    }
}

/// What a message of the given parts means.
pub fn viewer_control(message: &ControlMessage) -> (res: Result<ViewerControl, ProtocolError>)
    ensures
        ControlMessage::means(
            message.is_object,
            match message.kind {
                Some(kind) => Some(kind@),
                None => None,
            },
            message.metrics,
            res,
        ),
{
    if !message.is_object {
        return Err(ProtocolError::InvalidJson("message must be an object".to_owned()));
    }
    match &message.kind {
        None => Err(ProtocolError::InvalidJson("missing type".to_owned())),
        Some(kind) => {
            if text_eq(kind, "keyframe") {
                Ok(ViewerControl::Keyframe)
            } else if text_eq(kind, "client-metrics") {
                Ok(ViewerControl::ClientMetrics(sanitize_client_metrics(message.metrics.as_ref())))
            } else {
                Err(ProtocolError::UnknownType(kind.clone()))
            }
        },
    }
}

/// Reads a control message: JSON text of at most [`VIEWER_CONTROL_MAX_BYTES`] bytes.
pub fn parse_viewer_control_message(bytes: &[u8]) -> (res: Result<ViewerControl, ProtocolError>)
    ensures
        bytes@.len() > VIEWER_CONTROL_MAX_BYTES ==> res matches Err(ProtocolError::TooLarge),
        bytes@.len() <= VIEWER_CONTROL_MAX_BYTES ==> match json_at(bytes@, ""@) {
            Err(why) => res matches Err(ProtocolError::InvalidJson(text)) && text@ == why,
            Ok(root) => ControlMessage::means(
                root == Some(JsonView::Object),
                text_at(bytes@, "/type"@),
                if member(bytes@, "/metrics"@) == Some(JsonView::Object) {
                    Some(reported(bytes@))
                } else {
                    None
                },
                res,
            ),
        },
        bytes@.len() > 4096 <==> res matches Err(ProtocolError::TooLarge),
        res == Ok::<ViewerControl, ProtocolError>(ViewerControl::Keyframe) <==> bytes@.len() <= 4096
            && json_at(bytes@, ""@) == Ok::<Option<JsonView>, Seq<char>>(Some(JsonView::Object))
            && json_at(bytes@, "/type"@) == Ok::<Option<JsonView>, Seq<char>>(
            Some(JsonView::Text("keyframe"@)),
        ),
        (res matches Ok(ViewerControl::ClientMetrics(_))) <==> bytes@.len() <= 4096 && json_at(
            bytes@,
            ""@,
        ) == Ok::<Option<JsonView>, Seq<char>>(Some(JsonView::Object)) && json_at(
            bytes@,
            "/type"@,
        ) == Ok::<Option<JsonView>, Seq<char>>(Some(JsonView::Text("client-metrics"@))),
{
    proof {
        reveal_strlit("keyframe");
        reveal_strlit("client-metrics");
        assert("keyframe"@.len() != "client-metrics"@.len());
    }
    if bytes.len() > VIEWER_CONTROL_MAX_BYTES {
        return Err(ProtocolError::TooLarge);
    }
    match json_lookup(bytes, "") {
        Err(why) => Err(ProtocolError::InvalidJson(why)),
        Ok(root) => {
            let is_object = matches!(root, Some(JsonValue::Object));
            let kind = find_text(bytes, "/type");
            let has_metrics = matches!(
                json_lookup(bytes, "/metrics"),
                Ok(Some(JsonValue::Object)),
            );
            let metrics = if has_metrics {
                Some(find_report(bytes))
            } else {
                None
            };
            viewer_control(&ControlMessage { is_object, kind, metrics })
        },
    }
}

/// What is kept of a number in a report, by its bits.
pub open spec fn cut_at(number: Option<u64>, limit: u64) -> Option<u64> {
    match number {
        Some(bits) => if bits < 0x7ff0_0000_0000_0000 {
            Some(
                if bits <= limit {
                    bits
                } else {
                    limit
                },
            )
        } else if bits == 0x8000_0000_0000_0000 {
            Some(bits)
        } else {
            None
        },
        None => None,
    }
}

/// Counters in a report are cut down to ten million and the frame rate to a thousand, whose bits are
/// 0x416312d000000000 and 0x408f400000000000; each is kept under its own name.
pub proof fn law_reports_are_cut_down(report: ClientMetrics)
    ensures
        report.kept().decoded_frames == cut_at(report.decoded_frames, 0x4163_12d0_0000_0000),
        report.kept().dropped_frames == cut_at(report.dropped_frames, 0x4163_12d0_0000_0000),
        report.kept().fps == cut_at(report.fps, 0x408f_4000_0000_0000),
        report.kept().keyframe_recoveries == cut_at(
            report.keyframe_recoveries,
            0x4163_12d0_0000_0000,
        ),
        report.kept().reconnects == cut_at(report.reconnects, 0x4163_12d0_0000_0000),
        report.kept().rendered_frames == cut_at(report.rendered_frames, 0x4163_12d0_0000_0000),
        report.kept().sequence_gaps == cut_at(report.sequence_gaps, 0x4163_12d0_0000_0000),
{
    lemma_cut_at(report.decoded_frames, MAX_CLIENT_COUNTER);
    lemma_cut_at(report.dropped_frames, MAX_CLIENT_COUNTER);
    lemma_cut_at(report.fps, MAX_CLIENT_FPS);
    lemma_cut_at(report.keyframe_recoveries, MAX_CLIENT_COUNTER);
    lemma_cut_at(report.reconnects, MAX_CLIENT_COUNTER);
    lemma_cut_at(report.rendered_frames, MAX_CLIENT_COUNTER);
    lemma_cut_at(report.sequence_gaps, MAX_CLIENT_COUNTER);
}

proof fn lemma_cut_at(number: Option<u64>, limit: u64)
    requires
        limit < 0x7ff0_0000_0000_0000,
    ensures
        kept(number, limit) == cut_at(number, limit),
{
    if let Some(bits) = number {
        law_bits_are_cut_down(bits, limit);
    }
}

/// The numbers of a report are the members of the member `metrics` that bear their names.
pub proof fn law_report_members(text: Seq<u8>, n: Option<u64>)
    ensures
        ({
            let found = Ok::<Option<JsonView>, Seq<char>>(Some(JsonView::Number(n)));
            let report = reported(text);
            &&& json_at(text, "/metrics/decodedFrames"@) == found ==> report.decoded_frames == n
            &&& json_at(text, "/metrics/droppedFrames"@) == found ==> report.dropped_frames == n
            &&& json_at(text, "/metrics/fps"@) == found ==> report.fps == n
            &&& json_at(text, "/metrics/keyframeRecoveries"@) == found ==> report.keyframe_recoveries
                == n
            &&& json_at(text, "/metrics/reconnects"@) == found ==> report.reconnects == n
            &&& json_at(text, "/metrics/renderedFrames"@) == found ==> report.rendered_frames == n
            &&& json_at(text, "/metrics/sequenceGaps"@) == found ==> report.sequence_gaps == n
        }),
{
}

/// What is no number does not count.
pub proof fn law_only_numbers_count(text: Seq<u8>, pointer: Seq<char>)
    ensures
        number_at(text, pointer) is Some ==> (json_at(text, pointer) matches Ok(Some(value)) && value
            == JsonView::Number(number_at(text, pointer))),
        text_at(text, pointer) matches Some(t) ==> json_at(text, pointer) == Ok::<
            Option<JsonView>,
            Seq<char>,
        >(Some(JsonView::Text(t))),
{
}

/// A message that is no object, or has no type, or has a type that nothing handles, is refused in
/// this order. A report is cut down to its limits, and one without numbers is empty.
pub proof fn law_messages_mean_what_they_say(
    is_object: bool,
    kind: Option<Seq<char>>,
    metrics: Option<ClientMetrics>,
    res: Result<ViewerControl, ProtocolError>,
)
    requires
        ControlMessage::means(is_object, kind, metrics, res),
    ensures
        res == Ok::<ViewerControl, ProtocolError>(ViewerControl::Keyframe) <==> is_object && kind
            == Some("keyframe"@),
        (res matches Ok(ViewerControl::ClientMetrics(_))) <==> is_object && kind == Some(
            "client-metrics"@,
        ),
        res matches Ok(ViewerControl::ClientMetrics(report)) ==> {
            &&& metrics matches Some(m) ==> report == m.kept()
            &&& metrics is None ==> report.decoded_frames is None && report.dropped_frames is None
                && report.fps is None && report.keyframe_recoveries is None && report.reconnects
                is None && report.rendered_frames is None && report.sequence_gaps is None
        },
        !is_object ==> (res matches Err(ProtocolError::InvalidJson(why)) && why@
            == "message must be an object"@),
        is_object && kind is None ==> (res matches Err(ProtocolError::InvalidJson(why)) && why@
            == "missing type"@),
        (res matches Err(ProtocolError::UnknownType(other))) ==> is_object && (res
            matches Err(ProtocolError::UnknownType(other)) && kind == Some(other@)),
        is_object && kind is Some && kind != Some("keyframe"@) && kind != Some("client-metrics"@)
            ==> (res matches Err(ProtocolError::UnknownType(other)) && kind == Some(other@)),
{
    reveal_strlit("keyframe");
    reveal_strlit("client-metrics");
    assert("keyframe"@.len() != "client-metrics"@.len());
}

} // verus!
