use vstd::prelude::*;
use vstd::string::StringExecFns;
use vstd::utf8::encode_utf8;

verus! {

/// The claims carried inside a bearer token.
#[derive(Debug, Clone, PartialEq)]
pub struct Claims {
    pub sub: String,
    pub channel_name: String,
    pub exp: usize,
    pub iat: usize,
}

/// Pagination of a channel's contents, as query parameters.
#[derive(Debug, Clone, Copy, PartialEq, Eq, Structural)]
pub struct PaginationParams {
    pub limit: i64,
    pub offset: i64,
}

/// How many items a page holds when the query names no limit.
pub fn default_limit() -> (r: i64)
    ensures
        r == 50,
{
    50
}

/// A request to render a composition server-side.
#[derive(Debug, Clone, PartialEq)]
pub struct MidiPlayRequest {
    pub midi_composition: String,
}

/// Pagination as the queries actually run: the limit forced into 1..=100,
/// the offset never negative.
pub fn clamp_pagination(p: PaginationParams) -> (r: PaginationParams)
    ensures
        r.limit == (if p.limit < 1 {
            1int
        } else if p.limit > 100 {
            100int
        } else {
            p.limit as int
        }),
        r.offset == (if p.offset < 0 {
            0int
        } else {
            p.offset as int
        }),
{
    let limit: i64 = if p.limit < 1 {
        1
    } else if p.limit > 100 {
        100
    } else {
        p.limit
    };
    let offset: i64 = if p.offset < 0 {
        0
    } else {
        p.offset
    };
    PaginationParams { limit, offset }
}

/// The token of an `Authorization: Bearer <token>` header value, if the
/// value has that shape.
pub fn bearer_token(header: &str) -> (r: Option<String>)
    ensures
        ({
            let s = header@;
            let p = "Bearer "@;
            if s.len() >= p.len() && s.subrange(0, p.len() as int) == p {
                r matches Some(t) && t@ == s.subrange(p.len() as int, s.len() as int)
            } else {
                r is None
            }
        }),
{
    let v = crate::text::chars_of(header);
    let p = crate::text::chars_of("Bearer ");
    proof {
        reveal_strlit("Bearer ");
    }
    if v.len() < p.len() {
        return None;
    }
    if !crate::text::range_eq_str(&v, 0, p.len(), "Bearer ") {
        return None;
    }
    let rest = crate::text::string_of_range(&v, p.len(), v.len());
    Some(rest)
}


/// A request to store new content on a channel.
#[derive(Debug, Clone, PartialEq)]
pub struct CreateContentRequest {
    pub channel_id: i64,
    pub name: String,
    pub art: String,
    pub midi: String,
    /// Frames per second, in millionths.
    pub fps_millionths: i64,
}

/// The longest content name accepted, in bytes.
pub const MAX_CONTENT_NAME_LENGTH: usize = 200;

/// The largest art text accepted, in bytes.
pub const MAX_ART_SIZE: usize = 100000;

/// The largest composition accepted, in bytes.
pub const MAX_MIDI_SIZE: usize = 50000;

/// The slowest frame rate accepted, in millionths per second.
pub const MIN_FPS_MILLIONTHS: i64 = 100000;

/// The fastest frame rate accepted, in millionths per second.
pub const MAX_FPS_MILLIONTHS: i64 = 120000000;

/// Whether an upload is acceptable: the name short and non-empty, the frame
/// rate within its range, the art and the composition non-empty and within
/// their sizes, and the composition syntactically playable.
pub open spec fn upload_ok(req: CreateContentRequest) -> bool {
    &&& encode_utf8(req.name@).len() <= MAX_CONTENT_NAME_LENGTH
    &&& crate::text::trimmed(req.name@).len() > 0
    &&& MIN_FPS_MILLIONTHS <= req.fps_millionths <= MAX_FPS_MILLIONTHS
    &&& encode_utf8(req.art@).len() <= MAX_ART_SIZE
    &&& crate::text::trimmed(req.art@).len() > 0
    &&& encode_utf8(req.midi@).len() <= MAX_MIDI_SIZE
    &&& crate::text::trimmed(req.midi@).len() > 0
    &&& crate::notes::spec_parse_notes(req.midi@) is Ok
}

/// Validates an upload before anything touches storage: `Ok` exactly on the
/// requests `upload_ok` admits, each refusal naming its first failing rule.
pub fn validate_content_upload(request: &CreateContentRequest) -> (r: Result<(), &'static str>)
    ensures
        r is Ok <==> upload_ok(*request),
{
    if request.name.as_str().as_bytes().len() > MAX_CONTENT_NAME_LENGTH {
        return Err("Content name is too long");
    }
    if is_blank(request.name.as_str()) {
        return Err("Content name cannot be empty");
    }
    if request.fps_millionths < MIN_FPS_MILLIONTHS || request.fps_millionths > MAX_FPS_MILLIONTHS {
        return Err("FPS must be between 0.1 and 120.0");
    }
    if request.art.as_str().as_bytes().len() > MAX_ART_SIZE {
        return Err("Art content is too large (max 100KB)");
    }
    if is_blank(request.art.as_str()) {
        return Err("Art content cannot be empty");
    }
    if request.midi.as_str().as_bytes().len() > MAX_MIDI_SIZE {
        return Err("MIDI composition is too large (max 50KB)");
    }
    if is_blank(request.midi.as_str()) {
        return Err("MIDI composition cannot be empty");
    }
    if crate::notes::validate_midi_composition(request.midi.as_str()).is_err() {
        return Err("Invalid MIDI composition format");
    }
    Ok(())
}

/// True when the text holds nothing but whitespace.
fn is_blank(s: &str) -> (r: bool)
    ensures
        r == (crate::text::trimmed(s@).len() == 0),
{
    let v = crate::text::chars_of(s);
    let sp = crate::text::trim_span(&v);
    sp.lo == sp.hi
}

} // verus!
