//! The upstream AI service: its addresses, its answers, and the stream of
//! server-sent events in which it delivers a response.
//!
//! Nothing here talks to the network. The embedding server makes the
//! requests, feeds the bytes it receives to an `SseParser`, and acts on the
//! events that come out.

use vstd::prelude::*;
use vstd::utf8::{decode_utf8, valid_utf8};
use vstd::string::StringSliceAdditionalSpecFns;
use crate::error::AppError;
use crate::text::{
    concat,
    owned,
    push_char,
    push_text,
    starts_with,
    strip_prefix,
    text_eq,
    trim,
    trim_end_matches,
    trimmed,
    without_trailing,
};

verus! {

#[verifier::external_type_specification]
#[verifier::external_body]
pub struct ExJsonError(serde_json::Error);

#[verifier::external_type_specification]
#[verifier::external_body]
pub struct ExJsonValue(serde_json::Value);

/// The addresses of the upstream service.
#[derive(Debug)]
pub struct OpenCodeClient {
    base_url: String,
}

/// A request for a new session. The service takes no options yet.
#[derive(Debug)]
pub struct CreateSessionRequest {
    pub model: Option<String>,
    pub system_prompt: Option<String>,
}

/// A session of the upstream service.
#[derive(Debug)]
pub struct Session {
    pub id: String,
    pub version: Option<String>,
    pub project_id: Option<String>,
}

/// A prompt to send.
#[derive(Debug)]
pub struct SendMessageRequest {
    pub content: String,
}

/// One event of a streamed response.
#[derive(Debug)]
pub enum StreamEvent {
    /// More text of the response.
    Content(ContentEvent),
    /// The response is complete.
    Done,
    /// The session failed.
    Error(ErrorEvent),
    /// An event that the pipeline does not act on.
    Unknown { event_type: String, data: String },
}

#[derive(Debug)]
pub struct ContentEvent {
    pub text: String,
}

#[derive(Debug)]
pub struct ErrorEvent {
    pub message: String,
    pub code: Option<String>,
}

/// A stream event as a plain value.
pub enum StreamEventView {
    Content(Seq<char>),
    Done,
    /// The message of the failure and, where the service gave one, its code.
    Error { message: Seq<char>, code: Option<Seq<char>> },
    Unknown { event_type: Seq<char>, data: Seq<char> },
}

impl View for StreamEvent {
    type V = StreamEventView;

    open spec fn view(&self) -> StreamEventView {
        match self {
            StreamEvent::Content(c) => StreamEventView::Content(c.text@),
            StreamEvent::Done => StreamEventView::Done,
            StreamEvent::Error(e) => StreamEventView::Error {
                message: e.message@,
                code: match e.code {
                    Some(c) => Some(c@),
                    None => None,
                },
            },
            StreamEvent::Unknown { event_type, data } => StreamEventView::Unknown {
                event_type: event_type@,
                data: data@,
            },
        }
    }
}

impl Clone for ContentEvent {
    fn clone(&self) -> (r: Self)
        ensures
            r == *self,
    {
        ContentEvent { text: self.text.clone() }
    }
}

impl Clone for ErrorEvent {
    fn clone(&self) -> (r: Self)
        ensures
            r == *self,
    {
        ErrorEvent { message: self.message.clone(), code: self.code.clone() }
    }
}

impl Clone for StreamEvent {
    fn clone(&self) -> (r: Self)
        ensures
            r == *self,
    {
        match self {
            StreamEvent::Content(c) => StreamEvent::Content(c.clone()),
            StreamEvent::Done => StreamEvent::Done,
            StreamEvent::Error(e) => StreamEvent::Error(e.clone()),
            StreamEvent::Unknown { event_type, data } => StreamEvent::Unknown {
                event_type: event_type.clone(),
                data: data.clone(),
            },
        }
    }
}

/// What the interpreter reads of the JSON body of an event.
#[derive(Debug)]
pub struct EventFields {
    /// The string at `type`.
    pub payload_type: Option<String>,
    /// Whether there is anything at `properties`.
    pub has_properties: bool,
    /// The string at `properties.sessionID`.
    pub session_id: Option<String>,
    /// The string at `properties.part.sessionID`.
    pub part_session_id: Option<String>,
    /// The string at `properties.delta`.
    pub delta: Option<String>,
    /// The string at `properties.part.content`.
    pub part_content: Option<String>,
    /// The string at `properties.error.message`.
    pub error_message: Option<String>,
    /// The JSON text of what stands at `properties.error`.
    pub error_text: Option<String>,
}

/// The fields of an event as plain values.
pub struct EventFieldsView {
    pub payload_type: Option<Seq<char>>,
    pub has_properties: bool,
    pub session_id: Option<Seq<char>>,
    pub part_session_id: Option<Seq<char>>,
    pub delta: Option<Seq<char>>,
    pub part_content: Option<Seq<char>>,
    pub error_message: Option<Seq<char>>,
    pub error_text: Option<Seq<char>>,
}

/// The text of an optional string.
pub open spec fn text_of(s: Option<String>) -> Option<Seq<char>> {
    match s {
        Some(t) => Some(t@),
        None => None,
    }
}

/// The text of an optional string slice.
pub open spec fn slice_text(s: Option<&str>) -> Option<Seq<char>> {
    match s {
        Some(t) => Some(t@),
        None => None,
    }
}

impl View for EventFields {
    type V = EventFieldsView;

    open spec fn view(&self) -> EventFieldsView {
        EventFieldsView {
            payload_type: text_of(self.payload_type),
            has_properties: self.has_properties,
            session_id: text_of(self.session_id),
            part_session_id: text_of(self.part_session_id),
            delta: text_of(self.delta),
            part_content: text_of(self.part_content),
            error_message: text_of(self.error_message),
            error_text: text_of(self.error_text),
        }
    }
}

/// Whether the text reads as a JSON document.
pub uninterp spec fn json_read(data: Seq<char>) -> bool;

/// Whether the JSON document that the text reads as holds something at the
/// path: a run of object keys, from the root.
pub uninterp spec fn json_has(data: Seq<char>, path: Seq<Seq<char>>) -> bool;

/// The string at the path of the document, where a string stands there.
pub uninterp spec fn json_string(data: Seq<char>, path: Seq<Seq<char>>) -> Option<Seq<char>>;

/// The JSON text of what stands at the path of the document.
pub uninterp spec fn json_shown(data: Seq<char>, path: Seq<Seq<char>>) -> Seq<char>;

/// Whether the value is what stands at the path of the document that the
/// text reads as.
pub uninterp spec fn json_at(data: Seq<char>, path: Seq<Seq<char>>, v: serde_json::Value) -> bool;

/// What the lossy UTF-8 decoder makes of a run of bytes.
pub uninterp spec fn lossy_text(bytes: Seq<u8>) -> Seq<char>;

/// Whether the document holds nothing at the path nor below it.
pub open spec fn json_lacks(data: Seq<char>, path: Seq<Seq<char>>) -> bool {
    forall|rest: Seq<Seq<char>>|
        !(#[trigger] json_has(data, path + rest)) && json_string(data, path + rest) is None
}

/// The path of one key.
pub open spec fn at1(a: Seq<char>) -> Seq<Seq<char>> {
    Seq::<Seq<char>>::empty().push(a)
}

/// The path of two keys.
pub open spec fn at2(a: Seq<char>, b: Seq<char>) -> Seq<Seq<char>> {
    at1(a).push(b)
}

/// The path of three keys.
pub open spec fn at3(a: Seq<char>, b: Seq<char>, c: Seq<char>) -> Seq<Seq<char>> {
    at2(a, b).push(c)
}

/// The fields that the interpreter reads of the body of an event, or
/// `None` where the body is no JSON document.
pub open spec fn decoded_fields(data: Seq<char>) -> Option<EventFieldsView> {
    if json_read(data) {
        Some(
            EventFieldsView {
                payload_type: json_string(data, at1("type"@)),
                has_properties: json_has(data, at1("properties"@)),
                session_id: json_string(data, at2("properties"@, "sessionID"@)),
                part_session_id: json_string(data, at3("properties"@, "part"@, "sessionID"@)),
                delta: json_string(data, at2("properties"@, "delta"@)),
                part_content: json_string(data, at3("properties"@, "part"@, "content"@)),
                error_message: json_string(data, at3("properties"@, "error"@, "message"@)),
                error_text: if json_has(data, at2("properties"@, "error"@)) {
                    Some(json_shown(data, at2("properties"@, "error"@)))
                } else {
                    None
                },
            },
        )
    } else {
        None
    }
}

/// Trusted: `serde_json::from_str` parses the text into a
/// `serde_json::Value`, which depends on the text alone; it fails where
/// the text is no JSON document.
#[verifier::external_body]
fn parse_json(data: &str) -> (r: Result<serde_json::Value, serde_json::Error>)
    ensures
        r.is_ok() == json_read(data@),
        r matches Ok(v) ==> json_at(data@, Seq::empty(), v),
{
    serde_json::from_str(data)
}

/// Trusted: `Value::get` with a key finds the member of an object under
/// that key; there is none where the value is no object or has no such
/// member, and then nothing stands below either.
#[verifier::external_body]
fn json_member<'a>(v: &'a serde_json::Value, key: &str) -> (r: Option<&'a serde_json::Value>)
    ensures
        forall|data: Seq<char>, path: Seq<Seq<char>>|
            json_at(data, path, *v) ==> r.is_some() == json_has(data, path.push(key@)),
        forall|data: Seq<char>, path: Seq<Seq<char>>|
            json_at(data, path, *v) && r.is_some() ==> json_at(data, path.push(key@), *r.unwrap()),
        forall|data: Seq<char>, path: Seq<Seq<char>>|
            json_at(data, path, *v) && r.is_none() ==> json_lacks(data, path.push(key@)),
{
    v.get(key)
}

/// Trusted: `Value::as_str` gives the string where the value is one.
#[verifier::external_body]
fn json_text(v: &serde_json::Value) -> (r: Option<String>)
    ensures
        forall|data: Seq<char>, path: Seq<Seq<char>>|
            json_at(data, path, *v) ==> text_of(r) == json_string(data, path),
{
    v.as_str().map(String::from)
}

/// Trusted: the `Display` text of a `serde_json::Value` is the value as
/// JSON text.
#[verifier::external_body]
fn json_show(v: &serde_json::Value) -> (r: String)
    ensures
        forall|data: Seq<char>, path: Seq<Seq<char>>|
            json_at(data, path, *v) ==> r@ == json_shown(data, path),
{
    v.to_string()
}

/// Whether `v` is what the document holds at the path: the value there,
/// or nothing where nothing stands at the path nor below it.
pub open spec fn stands(v: Option<&serde_json::Value>, data: Seq<char>, path: Seq<Seq<char>>) -> bool {
    match v {
        Some(x) => json_at(data, path, *x) && json_has(data, path),
        None => json_lacks(data, path),
    }
}

proof fn lemma_lacks_below(data: Seq<char>, path: Seq<Seq<char>>, key: Seq<char>)
    requires
        json_lacks(data, path),
    ensures
        json_lacks(data, path.push(key)),
        !json_has(data, path),
        json_string(data, path) is None,
{
    assert forall|rest: Seq<Seq<char>>|
        !(#[trigger] json_has(data, path.push(key) + rest)) && json_string(
            data,
            path.push(key) + rest,
        ) is None by {
        let longer = Seq::<Seq<char>>::empty().push(key) + rest;
        assert(path.push(key) + rest =~= path + longer);
        assert(!json_has(data, path + longer));
    }
    let nothing = Seq::<Seq<char>>::empty();
    assert(path + nothing =~= path);
    assert(!json_has(data, path + nothing));
}

/// The member under `key` of what stands at the path, if anything does.
fn member_of<'a>(
    v: Option<&'a serde_json::Value>,
    key: &str,
    Ghost(data): Ghost<Seq<char>>,
    Ghost(path): Ghost<Seq<Seq<char>>>,
) -> (r: Option<&'a serde_json::Value>)
    requires
        stands(v, data, path),
    ensures
        stands(r, data, path.push(key@)),
        r.is_some() == json_has(data, path.push(key@)),
{
    match v {
        Some(x) => json_member(x, key),
        None => {
            proof {
                lemma_lacks_below(data, path, key@);
                lemma_lacks_below(data, path.push(key@), key@);
            }
            None
        },
    }
}

/// The string under `key` of what stands at the path, if one does.
fn string_of(
    v: Option<&serde_json::Value>,
    key: &str,
    Ghost(data): Ghost<Seq<char>>,
    Ghost(path): Ghost<Seq<Seq<char>>>,
) -> (r: Option<String>)
    requires
        stands(v, data, path),
    ensures
        text_of(r) == json_string(data, path.push(key@)),
{
    match member_of(v, key, Ghost(data), Ghost(path)) {
        Some(x) => json_text(x),
        None => {
            proof {
                lemma_lacks_below(data, path.push(key@), key@);
            }
            None
        },
    }
}

/// Reads the fields of the body of an event: parses the body and looks
/// under `type`, `properties`, `properties.part` and `properties.error`.
fn read_event_fields(data: &str) -> (r: Result<EventFields, serde_json::Error>)
    ensures
        r.is_ok() == decoded_fields(data@).is_some(),
        r matches Ok(f) ==> decoded_fields(data@) == Some(f@),
{
    let v = match parse_json(data) {
        Ok(v) => v,
        Err(e) => {
            return Err(e);
        },
    };
    let ghost d = data@;
    let ghost root = Seq::<Seq<char>>::empty();
    let payload_type = match json_member(&v, "type") {
        Some(x) => json_text(x),
        None => {
            proof {
                lemma_lacks_below(d, at1("type"@), "type"@);
            }
            None
        },
    };
    let p = json_member(&v, "properties");
    proof {
        if p.is_some() {
            assert(json_has(d, at1("properties"@)));
        } else {
            lemma_lacks_below(d, at1("properties"@), "properties"@);
        }
        assert(stands(p, d, at1("properties"@)));
    }
    let part = member_of(p, "part", Ghost(d), Ghost(at1("properties"@)));
    let err = member_of(p, "error", Ghost(d), Ghost(at1("properties"@)));
    let session_id = string_of(p, "sessionID", Ghost(d), Ghost(at1("properties"@)));
    let delta = string_of(p, "delta", Ghost(d), Ghost(at1("properties"@)));
    let part_session_id = string_of(part, "sessionID", Ghost(d), Ghost(at2("properties"@, "part"@)));
    let part_content = string_of(part, "content", Ghost(d), Ghost(at2("properties"@, "part"@)));
    let error_message = string_of(err, "message", Ghost(d), Ghost(at2("properties"@, "error"@)));
    let error_text = match err {
        Some(e) => Some(json_show(e)),
        None => None,
    };
    let fields = EventFields {
        payload_type,
        has_properties: p.is_some(),
        session_id,
        part_session_id,
        delta,
        part_content,
        error_message,
        error_text,
    };
    proof {
        assert(fields@.error_text == decoded_fields(d)->0.error_text);
        assert(fields@ == decoded_fields(d)->0);
    }
    Ok(fields)
}

/// Trusted: the `Display` text of a `serde_json::Error`. Nothing is claimed
/// of it.
#[verifier::external_body]
fn json_failure_text(e: &serde_json::Error) -> (r: String) {
    e.to_string()
}

/// Trusted: `String::from_utf8_lossy` is a function of the bytes alone, and
/// decodes valid UTF-8 as it stands.
#[verifier::external_body]
fn decode_lossy(bytes: &[u8]) -> (r: String)
    ensures
        r@ == lossy_text(bytes@),
        valid_utf8(bytes@) ==> r@ == decode_utf8(bytes@),
{
    String::from_utf8_lossy(bytes).into_owned()
}

/// Whether the event belongs to another session than the one asked for: it
/// names a session, at `properties` or at `properties.part`, and the name
/// differs.
pub open spec fn filtered_out(f: EventFieldsView, filter: Option<Seq<char>>) -> bool {
    &&& filter is Some
    &&& f.has_properties
    &&& ((f.session_id is Some && f.session_id->0 != filter->0) || (f.part_session_id is Some
        && f.part_session_id->0 != filter->0))
}

/// The message of a session error: the error's own message, else the error
/// as JSON text, else a stock phrase.
pub open spec fn error_message_of(f: EventFieldsView) -> Seq<char> {
    if !f.has_properties {
        "Session error"@
    } else if f.error_text is None {
        "Unknown error"@
    } else if f.error_message is Some {
        f.error_message->0
    } else {
        f.error_text->0
    }
}

/// The stream event that an event of the service stands for, or `None`
/// where it is filtered out or says nothing.
///
/// The payload's `type` decides; the `event:` line of the frame stands in
/// where the payload has none. A part update yields its delta if that is
/// not empty, else the part's content if that is not empty, else nothing.
pub open spec fn interpreted(
    event_type: Seq<char>,
    data: Seq<char>,
    f: EventFieldsView,
    filter: Option<Seq<char>>,
) -> Option<StreamEventView> {
    let payload = match f.payload_type {
        Some(t) => t,
        None => event_type,
    };
    if filtered_out(f, filter) {
        None
    } else if payload == "message.part.updated"@ {
        if f.has_properties && f.delta is Some && f.delta->0.len() > 0 {
            Some(StreamEventView::Content(f.delta->0))
        } else if f.has_properties && f.part_content is Some && f.part_content->0.len() > 0 {
            Some(StreamEventView::Content(f.part_content->0))
        } else {
            None
        }
    } else if payload == "session.idle"@ {
        Some(StreamEventView::Done)
    } else if payload == "session.error"@ {
        Some(StreamEventView::Error { message: error_message_of(f), code: None })
    } else {
        Some(StreamEventView::Unknown { event_type: payload, data })
    }
}

/// The view of an optional stream event.
pub open spec fn event_view(e: Option<StreamEvent>) -> Option<StreamEventView> {
    match e {
        Some(ev) => Some(ev@),
        None => None,
    }
}

fn differs(found: &Option<String>, want: &str) -> (r: bool)
    ensures
        r == (found is Some && found->0@ != want@),
{
    match found {
        Some(s) => !text_eq(s.as_str(), want),
        None => false,
    }
}

fn non_empty(found: &Option<String>) -> (r: Option<String>)
    ensures
        r is Some == (found is Some && found->0@.len() > 0),
        r is Some ==> r->0@ == found->0@,
{
    match found {
        Some(s) => if s.as_str().is_empty() {
            None
        } else {
            Some(s.clone())
        },
        None => None,
    }
}

/// Turns the fields read from an event into the stream event that it
/// stands for.
pub fn interpret_event(
    event_type: &str,
    data: &str,
    fields: &EventFields,
    session_filter: Option<&str>,
) -> (r: Option<StreamEvent>)
    ensures
        event_view(r) == interpreted(event_type@, data@, fields@, slice_text(session_filter)),
        r matches Some(StreamEvent::Error(e)) ==> e.code is None,
{
    let payload: &str = match &fields.payload_type {
        Some(t) => t.as_str(),
        None => event_type,
    };
    if let Some(want) = session_filter {
        if fields.has_properties {
            if differs(&fields.session_id, want) || differs(&fields.part_session_id, want) {
                return None;
            }
        }
    }
    if text_eq(payload, "message.part.updated") {
        if fields.has_properties {
            if let Some(delta) = non_empty(&fields.delta) {
                return Some(StreamEvent::Content(ContentEvent { text: delta }));
            }
            if let Some(content) = non_empty(&fields.part_content) {
                return Some(StreamEvent::Content(ContentEvent { text: content }));
            }
        }
        None
    } else if text_eq(payload, "session.idle") {
        Some(StreamEvent::Done)
    } else if text_eq(payload, "session.error") {
        let message = if !fields.has_properties {
            owned("Session error")
        } else {
            match &fields.error_text {
                None => owned("Unknown error"),
                Some(text) => match &fields.error_message {
                    Some(m) => m.clone(),
                    None => text.clone(),
                },
            }
        };
        Some(StreamEvent::Error(ErrorEvent { message, code: None }))
    } else {
        Some(StreamEvent::Unknown { event_type: owned(payload), data: owned(data) })
    }
}

/// Reads the JSON body of an event and interprets it. A body that is no
/// JSON is an upstream error.
pub fn parse_event(event_type: &str, data: &str, session_filter: Option<&str>) -> (r: Result<
    Option<StreamEvent>,
    AppError,
>)
    ensures
        match decoded_fields(data@) {
            None => r matches Err(AppError::OpenCode(m)) && starts_with(
                m@,
                "Failed to parse event: "@,
            ),
            Some(f) => r matches Ok(e) && event_view(e) == interpreted(
                event_type@,
                data@,
                f,
                slice_text(session_filter),
            ),
        },
{
    match read_event_fields(data) {
        Err(e) => {
            let message = concat("Failed to parse event: ", json_failure_text(&e).as_str());
            proof {
                assert(message@.subrange(0, "Failed to parse event: "@.len() as int)
                    =~= "Failed to parse event: "@);
            }
            Err(AppError::OpenCode(message))
        },
        Ok(fields) => Ok(interpret_event(event_type, data, &fields, session_filter)),
    }
}

/// A complete event of the stream, before its body is read.
#[derive(Debug)]
pub struct SseFrame {
    /// What the last `event:` line said, trimmed.
    pub event_type: String,
    /// The `data:` lines, trimmed and joined by line feeds.
    pub data: String,
}

/// A frame as a plain value.
pub struct FrameView {
    pub event_type: Seq<char>,
    pub data: Seq<char>,
}

impl View for SseFrame {
    type V = FrameView;

    open spec fn view(&self) -> FrameView {
        FrameView { event_type: self.event_type@, data: self.data@ }
    }
}

/// The state of the parser between two bytes.
pub struct SseState {
    /// The bytes of the line that is not complete yet.
    pub line: Seq<u8>,
    /// What the last `event:` line of the event under way said.
    pub event_type: Seq<char>,
    /// The data of the event under way.
    pub data: Seq<char>,
}

/// The state before the first byte.
pub open spec fn sse_start() -> SseState {
    SseState { line: Seq::empty(), event_type: Seq::empty(), data: Seq::empty() }
}

/// What a complete line does to the event under way, and the frame that it
/// completes, if any.
///
/// An empty line ends the event: where data was gathered it is handed out
/// and the parser starts afresh. An `event:` line names the event, a
/// `data:` line adds to its data, and any other line is skipped.
pub open spec fn line_step(s: SseState, line: Seq<char>) -> (SseState, Option<FrameView>) {
    if line.len() == 0 {
        if s.data.len() > 0 {
            (sse_start(), Some(FrameView { event_type: s.event_type, data: s.data }))
        } else {
            (s, None)
        }
    } else if starts_with(line, "event:"@) {
        (
            SseState {
                event_type: trimmed(line.subrange("event:"@.len() as int, line.len() as int)),
                ..s
            },
            None,
        )
    } else if starts_with(line, "data:"@) {
        let piece = trimmed(line.subrange("data:"@.len() as int, line.len() as int));
        let data = if s.data.len() > 0 {
            s.data.push('\n') + piece
        } else {
            piece
        };
        (SseState { data, ..s }, None)
    } else {
        (s, None)
    }
}

/// What one byte does: a line feed completes the line, which is decoded,
/// freed of trailing carriage returns and acted on; any other byte joins
/// the line.
pub open spec fn byte_step(s: SseState, b: u8) -> (SseState, Option<FrameView>) {
    if b == 10 {
        line_step(
            SseState { line: Seq::empty(), ..s },
            without_trailing(lossy_text(s.line), '\r'),
        )
    } else {
        (SseState { line: s.line.push(b), ..s }, None)
    }
}

/// The frames that a frame or none adds to a run of frames.
pub open spec fn with_frame(frames: Seq<FrameView>, f: Option<FrameView>) -> Seq<FrameView> {
    match f {
        Some(frame) => frames.push(frame),
        None => frames,
    }
}

/// What a run of bytes does: the state after it and the frames completed
/// in it, in their order.
pub open spec fn sse_run(s: SseState, bytes: Seq<u8>) -> (SseState, Seq<FrameView>)
    decreases bytes.len(),
{
    if bytes.len() == 0 {
        (s, Seq::empty())
    } else {
        let before = sse_run(s, bytes.drop_last());
        let step = byte_step(before.0, bytes.last());
        (step.0, with_frame(before.1, step.1))
    }
}

/// What a run of chunks does, one after the other.
pub open spec fn sse_run_chunks(s: SseState, chunks: Seq<Seq<u8>>) -> (SseState, Seq<FrameView>)
    decreases chunks.len(),
{
    if chunks.len() == 0 {
        (s, Seq::empty())
    } else {
        let before = sse_run_chunks(s, chunks.drop_last());
        let last = sse_run(before.0, chunks.last());
        (last.0, before.1 + last.1)
    }
}

/// The bytes of a run of chunks, joined.
pub open spec fn joined(chunks: Seq<Seq<u8>>) -> Seq<u8>
    decreases chunks.len(),
{
    if chunks.len() == 0 {
        Seq::empty()
    } else {
        joined(chunks.drop_last()) + chunks.last()
    }
}

/// Law: feeding a payload in two pieces gives the frames of the whole, and
/// ends in the same state, wherever the cut falls.
pub proof fn lemma_sse_split(s: SseState, a: Seq<u8>, b: Seq<u8>)
    ensures
        sse_run(sse_run(s, a).0, b).0 == sse_run(s, a + b).0,
        sse_run(s, a).1 + sse_run(sse_run(s, a).0, b).1 == sse_run(s, a + b).1,
    decreases b.len(),
{
    if b.len() == 0 {
        assert(a + b =~= a);
        assert(sse_run(s, a).1 + Seq::<FrameView>::empty() =~= sse_run(s, a).1);
    } else {
        lemma_sse_split(s, a, b.drop_last());
        assert((a + b).drop_last() =~= a + b.drop_last());
        let mid = sse_run(s, a);
        let before = sse_run(mid.0, b.drop_last());
        let step = byte_step(before.0, b.last());
        assert(mid.1 + with_frame(before.1, step.1) =~= with_frame(mid.1 + before.1, step.1));
    }
}

/// Law: however a payload is cut into chunks, the parser emits the same
/// frames and ends in the same state as on the payload in one piece.
pub proof fn lemma_sse_chunking(s: SseState, chunks: Seq<Seq<u8>>)
    ensures
        sse_run_chunks(s, chunks) == sse_run(s, joined(chunks)),
    decreases chunks.len(),
{
    if chunks.len() > 0 {
        lemma_sse_chunking(s, chunks.drop_last());
        lemma_sse_split(s, joined(chunks.drop_last()), chunks.last());
    }
}

/// A parser of server-sent events that takes its input in chunks.
#[derive(Debug)]
pub struct SseParser {
    line: Vec<u8>,
    event_type: String,
    data: String,
}

impl View for SseParser {
    type V = SseState;

    closed spec fn view(&self) -> SseState {
        SseState { line: self.line@, event_type: self.event_type@, data: self.data@ }
    }
}

/// The view of a frame or none.
pub open spec fn frame_view(f: Option<SseFrame>) -> Option<FrameView> {
    match f {
        Some(frame) => Some(frame@),
        None => None,
    }
}

/// The views of a run of frames.
pub open spec fn frame_views(frames: Seq<SseFrame>) -> Seq<FrameView> {
    frames.map_values(|f: SseFrame| f@)
}

impl SseParser {
    /// A parser that has seen nothing yet.
    pub fn new() -> (r: SseParser)
        ensures
            r@ == sse_start(),
    {
        SseParser { line: Vec::new(), event_type: String::new(), data: String::new() }
    }

    fn end_line(&mut self) -> (r: Option<SseFrame>)
        ensures
            (final(self)@, frame_view(r)) == byte_step(old(self)@, 10),
    {
        let decoded = decode_lossy(self.line.as_slice());
        let line = trim_end_matches(decoded.as_str(), '\r');
        self.line = Vec::new();
        if line.is_empty() {
            if !self.data.as_str().is_empty() {
                let mut event_type = String::new();
                let mut data = String::new();
                std::mem::swap(&mut event_type, &mut self.event_type);
                std::mem::swap(&mut data, &mut self.data);
                Some(SseFrame { event_type, data })
            } else {
                None
            }
        } else if let Some(value) = strip_prefix(line, "event:") {
            self.event_type = owned(trim(value));
            None
        } else if let Some(value) = strip_prefix(line, "data:") {
            if !self.data.as_str().is_empty() {
                push_char(&mut self.data, '\n');
            }
            push_text(&mut self.data, trim(value));
            None
        } else {
            None
        }
    }

    /// Takes the next chunk of the stream and returns the frames that it
    /// completes, in their order.
    pub fn feed(&mut self, chunk: &[u8]) -> (r: Vec<SseFrame>)
        ensures
            (final(self)@, frame_views(r@)) == sse_run(old(self)@, chunk@),
    {
        let mut out: Vec<SseFrame> = Vec::new();
        let mut i: usize = 0;
        proof {
            assert(chunk@.take(0) =~= Seq::<u8>::empty());
            assert(frame_views(out@) =~= Seq::<FrameView>::empty());
        }
        while i < chunk.len()
            invariant
                i <= chunk@.len(),
                (self@, frame_views(out@)) == sse_run(old(self)@, chunk@.take(i as int)),
            decreases chunk@.len() - i,
        {
            let b = chunk[i];
            let ghost before = out@;
            proof {
                assert(chunk@.take(i + 1).drop_last() =~= chunk@.take(i as int));
            }
            if b == 10 {
                match self.end_line() {
                    Some(frame) => {
                        out.push(frame);
                        proof {
                            assert(frame_views(out@) =~= frame_views(before).push(frame@));
                        }
                    },
                    None => {},
                }
            } else {
                self.line.push(b);
            }
            i = i + 1;
        }
        proof {
            assert(chunk@.take(i as int) =~= chunk@);
        }
        out
    }
}

/// The text shown of an unreadable answer: all of it up to 200 bytes, else
/// its first 200 bytes, cut back to a character boundary, and three dots.
pub open spec fn preview_cut(bytes: Seq<u8>, limit: int) -> int
    decreases limit,
{
    if limit <= 0 {
        0
    } else if vstd::utf8::is_char_boundary(bytes, limit) {
        limit
    } else {
        preview_cut(bytes, limit - 1)
    }
}

/// Whether `shown` is the preview of `text`: the text itself where it has
/// no more than 200 bytes, else the characters of its first 200 bytes, cut
/// back to a character boundary, and three dots.
pub open spec fn is_preview(text: Seq<char>, shown: Seq<char>) -> bool {
    if vstd::utf8::encode_utf8(text).len() <= 200 {
        shown == text
    } else {
        exists|head: Seq<char>|
            shown == head + "..."@ && #[trigger] vstd::utf8::encode_utf8(head)
                == vstd::utf8::encode_utf8(text).subrange(
                0,
                preview_cut(vstd::utf8::encode_utf8(text), 200),
            )
    }
}

/// A preview of a text that is too long to show whole.
pub fn preview(text: &str) -> (r: String)
    ensures
        is_preview(text@, r@),
{
    if text.as_bytes().len() <= 200 {
        return owned(text);
    }
    let mut cut: usize = 200;
    while cut > 0 && !text.is_char_boundary(cut)
        invariant
            cut <= 200,
            200 < text.spec_bytes().len(),
            preview_cut(text.spec_bytes(), cut as int) == preview_cut(text.spec_bytes(), 200),
        decreases cut,
    {
        cut = cut - 1;
    }
    proof {
        vstd::utf8::encode_utf8_valid_utf8(text@);
        vstd::utf8::is_char_boundary_start_end_of_seq(text.spec_bytes());
    }
    let (head, _) = text.split_at(cut);
    let r = concat(head, "...");
    proof {
        assert(vstd::utf8::encode_utf8(head@) == text.spec_bytes().subrange(0, cut as int));
    }
    r
}

/// What a frame comes to: an event, a failure to read its body, or
/// nothing where the event is filtered out or says nothing.
pub open spec fn frame_outcome(f: FrameView, filter: Option<Seq<char>>) -> Option<
    Result<StreamEventView, ()>,
> {
    match decoded_fields(f.data) {
        None => Some(Err(())),
        Some(fields) => match interpreted(f.event_type, f.data, fields, filter) {
            Some(e) => Some(Ok(e)),
            None => None,
        },
    }
}

/// What a run of frames comes to, in the order of the frames.
pub open spec fn outcomes(frames: Seq<FrameView>, filter: Option<Seq<char>>) -> Seq<
    Result<StreamEventView, ()>,
>
    decreases frames.len(),
{
    if frames.len() == 0 {
        Seq::empty()
    } else {
        let before = outcomes(frames.drop_last(), filter);
        match frame_outcome(frames.last(), filter) {
            Some(o) => before.push(o),
            None => before,
        }
    }
}

/// What the stream hands to its consumer, as a plain value: an event, or
/// the fact of a failure.
pub open spec fn outcome_view(r: Result<StreamEvent, AppError>) -> Result<StreamEventView, ()> {
    match r {
        Ok(e) => Ok(e@),
        Err(_) => Err(()),
    }
}

/// Whether the error is the one for an event whose body is no JSON: an
/// upstream error that says so and goes on with what the parser found
/// wrong.
pub open spec fn unread_event(e: AppError) -> bool {
    e matches AppError::OpenCode(m) && starts_with(m@, "Failed to parse event: "@)
}

/// Takes the next chunk of the stream of a session and returns what its
/// consumer gets: the events of the session that the chunk completes, and
/// an upstream error for every frame whose body is no JSON.
pub fn feed_events(parser: &mut SseParser, chunk: &[u8], session_filter: Option<&str>) -> (r: Vec<
    Result<StreamEvent, AppError>,
>)
    ensures
        final(parser)@ == sse_run(old(parser)@, chunk@).0,
        r@.map_values(|o: Result<StreamEvent, AppError>| outcome_view(o)) == outcomes(
            sse_run(old(parser)@, chunk@).1,
            slice_text(session_filter),
        ),
        forall|i: int| 0 <= i < r@.len() && (#[trigger] r@[i]) is Err ==> unread_event(r@[i]->Err_0),
{
    let frames = parser.feed(chunk);
    let ghost views = frame_views(frames@);
    let ghost filter = slice_text(session_filter);
    let mut out: Vec<Result<StreamEvent, AppError>> = Vec::new();
    let mut i: usize = 0;
    proof {
        assert(views.take(0) =~= Seq::<FrameView>::empty());
        assert(out@.map_values(|o: Result<StreamEvent, AppError>| outcome_view(o))
            =~= Seq::<Result<StreamEventView, ()>>::empty());
    }
    while i < frames.len()
        invariant
            i <= frames@.len(),
            views == frame_views(frames@),
            filter == slice_text(session_filter),
            out@.map_values(|o: Result<StreamEvent, AppError>| outcome_view(o)) == outcomes(
                views.take(i as int),
                filter,
            ),
            forall|k: int|
                0 <= k < out@.len() && (#[trigger] out@[k]) is Err ==> unread_event(out@[k]->Err_0),
        decreases frames@.len() - i,
    {
        let ghost before = out@;
        proof {
            assert(views.take(i + 1).drop_last() =~= views.take(i as int));
            assert(views.take(i + 1).last() == frames@[i as int]@);
        }
        match parse_event(
            frames[i].event_type.as_str(),
            frames[i].data.as_str(),
            session_filter,
        ) {
            Ok(Some(e)) => {
                out.push(Ok(e));
                proof {
                    assert(out@.map_values(|o: Result<StreamEvent, AppError>| outcome_view(o))
                        =~= before.map_values(
                        |o: Result<StreamEvent, AppError>| outcome_view(o),
                    ).push(Ok(e@)));
                }
            },
            Ok(None) => {},
            Err(e) => {
                out.push(Err(e));
                proof {
                    assert(out@.map_values(|o: Result<StreamEvent, AppError>| outcome_view(o))
                        =~= before.map_values(
                        |o: Result<StreamEvent, AppError>| outcome_view(o),
                    ).push(Err(())));
                }
            },
        }
        i = i + 1;
    }
    proof {
        assert(views.take(i as int) =~= views);
    }
    out
}

/// An answer of the upstream service, as far as the decisions need it.
#[derive(Debug)]
pub struct UpstreamReply {
    /// The status code.
    pub status: u16,
    /// The status as it is shown, code and reason.
    pub status_text: String,
    /// The body, read as text; empty where it could not be read.
    pub body: String,
}

impl UpstreamReply {
    /// Whether the status is one of success, 200 to 299.
    pub open spec fn succeeded(self) -> bool {
        200 <= self.status <= 299
    }

    pub fn is_success(&self) -> (r: bool)
        ensures
            r == self.succeeded(),
    {
        200 <= self.status && self.status <= 299
    }

    /// The upstream error for an answer that is no success: what was being
    /// done, the status, and the body.
    pub fn failure(&self, doing: &str) -> (r: AppError)
        ensures
            r matches AppError::OpenCode(m) && m@ == doing@ + ": "@ + self.status_text@ + " - "@
                + self.body@,
    {
        let a = concat(doing, ": ");
        let b = concat(a.as_str(), self.status_text.as_str());
        let c = concat(b.as_str(), " - ");
        AppError::OpenCode(concat(c.as_str(), self.body.as_str()))
    }
}

impl OpenCodeClient {
    /// Where the service is.
    pub closed spec fn base(&self) -> Seq<char> {
        self.base_url@
    }

    /// A client for the service at `base_url`.
    pub fn new(base_url: &str) -> (r: OpenCodeClient)
        ensures
            r.base() == base_url@,
    {
        OpenCodeClient { base_url: owned(base_url) }
    }

    pub fn base_url(&self) -> (r: &str)
        ensures
            r@ == self.base(),
    {
        self.base_url.as_str()
    }

    /// Where sessions are created.
    pub fn session_url(&self) -> (r: String)
        ensures
            r@ == self.base() + "/session"@,
    {
        concat(self.base_url.as_str(), "/session")
    }

    /// Where the event stream is.
    pub fn event_url(&self) -> (r: String)
        ensures
            r@ == self.base() + "/event"@,
    {
        concat(self.base_url.as_str(), "/event")
    }

    /// Where a prompt for a session is sent.
    pub fn prompt_url(&self, session_id: &str) -> (r: String)
        ensures
            r@ == self.base() + "/session/"@ + session_id@ + "/prompt_async"@,
    {
        let a = concat(self.base_url.as_str(), "/session/");
        let b = concat(a.as_str(), session_id);
        concat(b.as_str(), "/prompt_async")
    }

    /// Judges the answer to the creation of a session. `parsed` is what the
    /// JSON reader made of the body: the session, or what it found wrong.
    /// An answer that is no success, and a body that is no session, are
    /// upstream errors; the latter shows a preview of the body.
    pub fn session_from(&self, reply: &UpstreamReply, parsed: Result<Session, String>) -> (r:
        Result<Session, AppError>)
        ensures
            match r {
                Ok(session) => reply.succeeded() && parsed == Ok::<Session, String>(session),
                Err(e) => if !reply.succeeded() {
                    e matches AppError::OpenCode(m) && m@ == "Failed to create session"@ + ": "@
                        + reply.status_text@ + " - "@ + reply.body@
                } else {
                    parsed matches Err(why) && (e matches AppError::OpenCode(m) && exists|
                        shown: Seq<char>,
                    | #[trigger]
                        is_preview(reply.body@, shown) && m@ == "Invalid JSON from OpenCode: "@
                            + why@ + ". Response: "@ + shown)
                },
            },
    {
        if !reply.is_success() {
            return Err(reply.failure("Failed to create session"));
        }
        match parsed {
            Ok(session) => Ok(session),
            Err(why) => {
                let shown = preview(reply.body.as_str());
                let a = concat("Invalid JSON from OpenCode: ", why.as_str());
                let b = concat(a.as_str(), ". Response: ");
                let message = concat(b.as_str(), shown.as_str());
                proof {
                    assert(is_preview(reply.body@, shown@));
                }
                Err(AppError::OpenCode(message))
            },
        }
    }

    /// Judges the answer to the opening of the event stream.
    pub fn events_opened(&self, reply: &UpstreamReply) -> (r: Result<(), AppError>)
        ensures
            match r {
                Ok(_) => reply.succeeded(),
                Err(e) => !reply.succeeded() && (e matches AppError::OpenCode(m) && m@
                    == "Failed to subscribe to events"@ + ": "@ + reply.status_text@ + " - "@
                    + reply.body@),
            },
    {
        if reply.is_success() {
            Ok(())
        } else {
            Err(reply.failure("Failed to subscribe to events"))
        }
    }

    /// Judges the answer to the sending of a prompt.
    pub fn prompt_sent(&self, reply: &UpstreamReply) -> (r: Result<(), AppError>)
        ensures
            match r {
                Ok(_) => reply.succeeded(),
                Err(e) => !reply.succeeded() && (e matches AppError::OpenCode(m) && m@
                    == "Failed to send message"@ + ": "@ + reply.status_text@ + " - "@
                    + reply.body@),
            },
    {
        if reply.is_success() {
            Ok(())
        } else {
            Err(reply.failure("Failed to send message"))
        }
    }
}

} // verus!
