//! Core data model: event descriptions, recorded events, typed tags and frame
//! markers, together with the mathematical views that contracts are stated
//! over. Human-readable names are carried as UTF-8 byte strings.

use vstd::prelude::*;

verus! {

/// Immutable metadata for one instrumented call site. Interning key is the
/// (name, file, line) triple; `id` is the 1-based position in the registry
/// (0 is reserved as the discard id).
#[derive(Debug, PartialEq, Eq)]
pub struct EventDescription {
    /// Interned handle, `>= 1` for registered sites.
    pub id: u64,
    /// Scope name, UTF-8 bytes.
    pub name: Vec<u8>,
    /// Source file, UTF-8 bytes.
    pub file: Vec<u8>,
    /// Source line.
    pub line: u32,
}

/// Mathematical view of an [`EventDescription`].
#[verifier::ext_equal]
pub struct DescModel {
    pub id: u64,
    pub name: Seq<u8>,
    pub file: Seq<u8>,
    pub line: u32,
}

impl View for EventDescription {
    type V = DescModel;

    open spec fn view(&self) -> DescModel {
        DescModel { id: self.id, name: self.name@, file: self.file@, line: self.line }
    }
}

/// One recorded scope occurrence on a specific thread. `end_time == 0` means
/// the scope is still open; a finalized capture never contains such an event.
#[derive(Clone, Copy, PartialEq, Eq, Structural, Debug)]
pub struct TraceEvent {
    /// Interned description of the call site.
    pub description_id: u64,
    /// Clock value at push.
    pub start_time: u64,
    /// Clock value at pop; 0 while the scope is open.
    pub end_time: u64,
    /// Owning thread.
    pub thread_id: u32,
    /// Nesting depth at push (number of enclosing open scopes).
    pub depth: u16,
    /// True when the event was force-closed by `stop_capture` instead of a
    /// matching pop.
    pub truncated: bool,
}

/// One frame boundary: the frame counter value after the advance and the
/// clock value at which it happened.
#[derive(Clone, Copy, PartialEq, Eq, Structural, Debug)]
pub struct FrameMark {
    /// Frame number, strictly increasing within a session (1-based).
    pub number: u64,
    /// Clock value when the boundary was marked.
    pub timestamp: u64,
}

/// Typed payload of a tag. Floating-point payloads are carried as raw IEEE-754
/// bit patterns, which is also their serialized form.
#[derive(Debug, PartialEq, Eq)]
pub enum TagValue {
    /// UTF-8 byte string.
    Str(Vec<u8>),
    /// Signed 32-bit integer.
    Int32(i32),
    /// Unsigned 32-bit integer.
    UInt32(u32),
    /// Unsigned 64-bit integer.
    UInt64(u64),
    /// 32-bit float, as its bit pattern.
    Float(u32),
    /// Three-component float point, as bit patterns.
    Point3(u32, u32, u32),
}

/// Mathematical view of a [`TagValue`].
#[verifier::ext_equal]
pub enum TagValueModel {
    Str(Seq<u8>),
    Int32(i32),
    UInt32(u32),
    UInt64(u64),
    Float(u32),
    Point3(u32, u32, u32),
}

impl View for TagValue {
    type V = TagValueModel;

    open spec fn view(&self) -> TagValueModel {
        match self {
            TagValue::Str(s) => TagValueModel::Str(s@),
            TagValue::Int32(x) => TagValueModel::Int32(*x),
            TagValue::UInt32(x) => TagValueModel::UInt32(*x),
            TagValue::UInt64(x) => TagValueModel::UInt64(*x),
            TagValue::Float(x) => TagValueModel::Float(*x),
            TagValue::Point3(x, y, z) => TagValueModel::Point3(*x, *y, *z),
        }
    }
}

/// One typed attachment, loosely associated with an event by thread and by
/// timestamp containment.
#[derive(Debug, PartialEq, Eq)]
pub struct TraceTag {
    /// Interned description of the tag's call site.
    pub description_id: u64,
    /// Thread that attached the tag.
    pub thread_id: u32,
    /// Clock value at attachment.
    pub timestamp: u64,
    /// Typed payload.
    pub value: TagValue,
}

/// Mathematical view of a [`TraceTag`].
#[verifier::ext_equal]
pub struct TagModel {
    pub description_id: u64,
    pub thread_id: u32,
    pub timestamp: u64,
    pub value: TagValueModel,
}

impl View for TraceTag {
    type V = TagModel;

    open spec fn view(&self) -> TagModel {
        TagModel {
            description_id: self.description_id,
            thread_id: self.thread_id,
            timestamp: self.timestamp,
            value: self.value@,
        }
    }
}

/// Capture-session lifecycle.
#[derive(Clone, Copy, PartialEq, Eq, Structural, Debug)]
pub enum SessionState {
    /// No collection; the hot path is a no-op.
    Idle,
    /// Thread contexts actively append events and tags.
    Recording,
    /// Transient drain state while a stop is being served.
    Stopping,
}

} // verus!
