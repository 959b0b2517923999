//! Canonical binary layout of a capture, little-endian throughout:
//! header (format version, session start, frame count) — description table —
//! per-thread sections (events sorted by start time, tags by timestamp) —
//! frame-boundary table. The encoder and the parser are exact mirrors, and
//! parsing an encoding recovers the capture (see `lemma_capture_round_trip`).

use vstd::prelude::*;

use crate::capture::{Capture, CaptureModel, SectionModel, ThreadSection};
use crate::model::{DescModel, EventDescription, FrameMark, TagModel, TagValue, TagValueModel, TraceEvent, TraceTag};

verus! {

/// Version tag of the capture layout.
pub const FORMAT_VERSION: u32 = 1;

/// Little-endian bytes of a `u16`.
pub open spec fn le2(x: u16) -> Seq<u8> {
    seq![(x & 0xff) as u8, ((x >> 8) & 0xff) as u8]
}

/// Little-endian bytes of a `u32`.
pub open spec fn le4(x: u32) -> Seq<u8> {
    seq![
        (x & 0xff) as u8,
        ((x >> 8) & 0xff) as u8,
        ((x >> 16) & 0xff) as u8,
        ((x >> 24) & 0xff) as u8,
    ]
}

/// Little-endian bytes of a `u64`.
pub open spec fn le8(x: u64) -> Seq<u8> {
    seq![
        (x & 0xff) as u8,
        ((x >> 8) & 0xff) as u8,
        ((x >> 16) & 0xff) as u8,
        ((x >> 24) & 0xff) as u8,
        ((x >> 32) & 0xff) as u8,
        ((x >> 40) & 0xff) as u8,
        ((x >> 48) & 0xff) as u8,
        ((x >> 56) & 0xff) as u8,
    ]
}

/// A 16-bit length prefix followed by the bytes themselves.
pub open spec fn enc_chunk(b: Seq<u8>) -> Seq<u8> {
    le2(b.len() as u16) + b
}

/// Recombine two little-endian bytes.
pub open spec fn comb2(b0: u8, b1: u8) -> u16 {
    (b0 as u16) | ((b1 as u16) << 8)
}

/// Recombine four little-endian bytes.
pub open spec fn comb4(b0: u8, b1: u8, b2: u8, b3: u8) -> u32 {
    (b0 as u32) | ((b1 as u32) << 8) | ((b2 as u32) << 16) | ((b3 as u32) << 24)
}

/// Recombine eight little-endian bytes.
pub open spec fn comb8(b0: u8, b1: u8, b2: u8, b3: u8, b4: u8, b5: u8, b6: u8, b7: u8) -> u64 {
    (b0 as u64) | ((b1 as u64) << 8) | ((b2 as u64) << 16) | ((b3 as u64) << 24) | ((b4
        as u64) << 32) | ((b5 as u64) << 40) | ((b6 as u64) << 48) | ((b7 as u64) << 56)
}

/// Consume one byte from the front.
pub open spec fn dec_u8(b: Seq<u8>) -> Option<(u8, Seq<u8>)> {
    if b.len() >= 1 {
        Some((b[0], b.skip(1)))
    } else {
        None
    }
}

/// Consume a little-endian `u16` from the front.
pub open spec fn dec_u16(b: Seq<u8>) -> Option<(u16, Seq<u8>)> {
    if b.len() >= 2 {
        Some((comb2(b[0], b[1]), b.skip(2)))
    } else {
        None
    }
}

/// Consume a little-endian `u32` from the front.
pub open spec fn dec_u32(b: Seq<u8>) -> Option<(u32, Seq<u8>)> {
    if b.len() >= 4 {
        Some((comb4(b[0], b[1], b[2], b[3]), b.skip(4)))
    } else {
        None
    }
}

/// Consume a little-endian `u64` from the front.
pub open spec fn dec_u64(b: Seq<u8>) -> Option<(u64, Seq<u8>)> {
    if b.len() >= 8 {
        Some((comb8(b[0], b[1], b[2], b[3], b[4], b[5], b[6], b[7]), b.skip(8)))
    } else {
        None
    }
}

/// Consume a length-prefixed byte string from the front.
pub open spec fn dec_chunk(b: Seq<u8>) -> Option<(Seq<u8>, Seq<u8>)> {
    match dec_u16(b) {
        Option::None => None,
        Option::Some((n, r)) => if r.len() >= n {
            Some((r.take(n as int), r.skip(n as int)))
        } else {
            None
        },
    }
}

/// Concatenation of the encodings of all items.
pub open spec fn enc_list<T>(s: Seq<T>, f: spec_fn(T) -> Seq<u8>) -> Seq<u8>
    decreases s.len(),
{
    if s.len() == 0 {
        Seq::empty()
    } else {
        f(s[0]) + enc_list(s.drop_first(), f)
    }
}

/// Consume exactly `n` items from the front, each through `f`.
pub open spec fn dec_list<T>(
    b: Seq<u8>,
    n: nat,
    f: spec_fn(Seq<u8>) -> Option<(T, Seq<u8>)>,
) -> Option<(Seq<T>, Seq<u8>)>
    decreases n,
{
    if n == 0 {
        Some((Seq::empty(), b))
    } else {
        match f(b) {
            Option::None => None,
            Option::Some((d, r)) => match dec_list(r, (n - 1) as nat, f) {
                Option::None => None,
                Option::Some((s, r2)) => Some((seq![d] + s, r2)),
            },
        }
    }
}

/// Consuming one byte from an explicit front.
pub proof fn lemma_rt_u8(x: u8, rest: Seq<u8>)
    ensures
        dec_u8(seq![x] + rest) == Some((x, rest)),
{
    assert((seq![x] + rest)[0] == x);
    assert((seq![x] + rest).skip(1) =~= rest);
}

/// Round trip of a `u16` through its little-endian bytes.
pub proof fn lemma_rt_u16(x: u16, rest: Seq<u8>)
    ensures
        dec_u16(le2(x) + rest) == Some((x, rest)),
{
    let b = le2(x) + rest;
    assert(b[0] == (x & 0xff) as u8 && b[1] == ((x >> 8) & 0xff) as u8);
    assert(comb2((x & 0xff) as u8, ((x >> 8) & 0xff) as u8) == x) by (bit_vector);
    assert(b.skip(2) =~= rest);
}

/// Round trip of a `u32` through its little-endian bytes.
pub proof fn lemma_rt_u32(x: u32, rest: Seq<u8>)
    ensures
        dec_u32(le4(x) + rest) == Some((x, rest)),
{
    let b = le4(x) + rest;
    assert(b[0] == (x & 0xff) as u8 && b[1] == ((x >> 8) & 0xff) as u8 && b[2] == ((x >> 16)
        & 0xff) as u8 && b[3] == ((x >> 24) & 0xff) as u8);
    assert(comb4(
        (x & 0xff) as u8,
        ((x >> 8) & 0xff) as u8,
        ((x >> 16) & 0xff) as u8,
        ((x >> 24) & 0xff) as u8,
    ) == x) by (bit_vector);
    assert(b.skip(4) =~= rest);
}

/// Round trip of a `u64` through its little-endian bytes.
pub proof fn lemma_rt_u64(x: u64, rest: Seq<u8>)
    ensures
        dec_u64(le8(x) + rest) == Some((x, rest)),
{
    let b = le8(x) + rest;
    assert(b[0] == (x & 0xff) as u8 && b[1] == ((x >> 8) & 0xff) as u8 && b[2] == ((x >> 16)
        & 0xff) as u8 && b[3] == ((x >> 24) & 0xff) as u8 && b[4] == ((x >> 32) & 0xff) as u8
        && b[5] == ((x >> 40) & 0xff) as u8 && b[6] == ((x >> 48) & 0xff) as u8 && b[7] == ((x
        >> 56) & 0xff) as u8);
    assert(comb8(
        (x & 0xff) as u8,
        ((x >> 8) & 0xff) as u8,
        ((x >> 16) & 0xff) as u8,
        ((x >> 24) & 0xff) as u8,
        ((x >> 32) & 0xff) as u8,
        ((x >> 40) & 0xff) as u8,
        ((x >> 48) & 0xff) as u8,
        ((x >> 56) & 0xff) as u8,
    ) == x) by (bit_vector);
    assert(b.skip(8) =~= rest);
}

/// Round trip of a length-prefixed byte string.
pub proof fn lemma_rt_chunk(s: Seq<u8>, rest: Seq<u8>)
    requires
        s.len() <= 0xFFFF,
    ensures
        dec_chunk(enc_chunk(s) + rest) == Some((s, rest)),
{
    let n = s.len() as u16;
    assert(enc_chunk(s) + rest =~= le2(n) + (s + rest));
    lemma_rt_u16(n, s + rest);
    assert((s + rest).take(n as int) =~= s);
    assert((s + rest).skip(n as int) =~= rest);
}

/// Encoding of one description-table entry.
pub open spec fn enc_desc(d: DescModel) -> Seq<u8> {
    le8(d.id) + enc_chunk(d.name) + enc_chunk(d.file) + le4(d.line)
}

/// Parse one description-table entry.
pub open spec fn dec_desc(b: Seq<u8>) -> Option<(DescModel, Seq<u8>)> {
    match dec_u64(b) {
        Option::None => None,
        Option::Some((id, b1)) => match dec_chunk(b1) {
            Option::None => None,
            Option::Some((name, b2)) => match dec_chunk(b2) {
                Option::None => None,
                Option::Some((file, b3)) => match dec_u32(b3) {
                    Option::None => None,
                    Option::Some((line, b4)) => Some(((DescModel { id, name, file, line }), b4)),
                },
            },
        },
    }
}

/// Encoding of one event record.
pub open spec fn enc_event(e: TraceEvent) -> Seq<u8> {
    le8(e.description_id) + le8(e.start_time) + le8(e.end_time) + le4(e.thread_id) + le2(e.depth)
        + seq![
        if e.truncated {
            1u8
        } else {
            0u8
        },
    ]
}

/// Parse one event record.
pub open spec fn dec_event(b: Seq<u8>) -> Option<(TraceEvent, Seq<u8>)> {
    match dec_u64(b) {
        Option::None => None,
        Option::Some((description_id, b1)) => match dec_u64(b1) {
            Option::None => None,
            Option::Some((start_time, b2)) => match dec_u64(b2) {
                Option::None => None,
                Option::Some((end_time, b3)) => match dec_u32(b3) {
                    Option::None => None,
                    Option::Some((thread_id, b4)) => match dec_u16(b4) {
                        Option::None => None,
                        Option::Some((depth, b5)) => match dec_u8(b5) {
                            Option::None => None,
                            Option::Some((flag, b6)) => Some(
                                (
                                    (TraceEvent {
                                        description_id,
                                        start_time,
                                        end_time,
                                        thread_id,
                                        depth,
                                        truncated: flag != 0,
                                    }),
                                    b6,
                                ),
                            ),
                        },
                    },
                },
            },
        },
    }
}

/// Encoding of one tag payload, tagged by kind.
pub open spec fn enc_value(v: TagValueModel) -> Seq<u8> {
    match v {
        TagValueModel::Str(s) => seq![0u8] + enc_chunk(s),
        TagValueModel::Int32(x) => seq![1u8] + le4(x as u32),
        TagValueModel::UInt32(x) => seq![2u8] + le4(x),
        TagValueModel::UInt64(x) => seq![3u8] + le8(x),
        TagValueModel::Float(x) => seq![4u8] + le4(x),
        TagValueModel::Point3(x, y, z) => seq![5u8] + le4(x) + le4(y) + le4(z),
    }
}

/// Parse one tag payload.
pub open spec fn dec_value(b: Seq<u8>) -> Option<(TagValueModel, Seq<u8>)> {
    match dec_u8(b) {
        Option::None => None,
        Option::Some((kind, b1)) => if kind == 0 {
            match dec_chunk(b1) {
                Option::None => None,
                Option::Some((s, b2)) => Some((TagValueModel::Str(s), b2)),
            }
        } else if kind == 1 {
            match dec_u32(b1) {
                Option::None => None,
                Option::Some((x, b2)) => Some((TagValueModel::Int32(x as i32), b2)),
            }
        } else if kind == 2 {
            match dec_u32(b1) {
                Option::None => None,
                Option::Some((x, b2)) => Some((TagValueModel::UInt32(x), b2)),
            }
        } else if kind == 3 {
            match dec_u64(b1) {
                Option::None => None,
                Option::Some((x, b2)) => Some((TagValueModel::UInt64(x), b2)),
            }
        } else if kind == 4 {
            match dec_u32(b1) {
                Option::None => None,
                Option::Some((x, b2)) => Some((TagValueModel::Float(x), b2)),
            }
        } else if kind == 5 {
            match dec_u32(b1) {
                Option::None => None,
                Option::Some((x, b2)) => match dec_u32(b2) {
                    Option::None => None,
                    Option::Some((y, b3)) => match dec_u32(b3) {
                        Option::None => None,
                        Option::Some((z, b4)) => Some((TagValueModel::Point3(x, y, z), b4)),
                    },
                },
            }
        } else {
            None
        },
    }
}

/// Encoding of one tag record.
pub open spec fn enc_tag(t: TagModel) -> Seq<u8> {
    le8(t.description_id) + le4(t.thread_id) + le8(t.timestamp) + enc_value(t.value)
}

/// Parse one tag record.
pub open spec fn dec_tag(b: Seq<u8>) -> Option<(TagModel, Seq<u8>)> {
    match dec_u64(b) {
        Option::None => None,
        Option::Some((description_id, b1)) => match dec_u32(b1) {
            Option::None => None,
            Option::Some((thread_id, b2)) => match dec_u64(b2) {
                Option::None => None,
                Option::Some((timestamp, b3)) => match dec_value(b3) {
                    Option::None => None,
                    Option::Some((value, b4)) => Some(
                        ((TagModel { description_id, thread_id, timestamp, value }), b4),
                    ),
                },
            },
        },
    }
}

/// Encoding of one frame-boundary marker.
pub open spec fn enc_frame(f: FrameMark) -> Seq<u8> {
    le8(f.number) + le8(f.timestamp)
}

/// Parse one frame-boundary marker.
pub open spec fn dec_frame(b: Seq<u8>) -> Option<(FrameMark, Seq<u8>)> {
    match dec_u64(b) {
        Option::None => None,
        Option::Some((number, b1)) => match dec_u64(b1) {
            Option::None => None,
            Option::Some((timestamp, b2)) => Some(((FrameMark { number, timestamp }), b2)),
        },
    }
}

/// Encoding of the description table body.
pub open spec fn enc_descs(s: Seq<DescModel>) -> Seq<u8> {
    enc_list(s, |d: DescModel| enc_desc(d))
}

/// Parse `n` description-table entries.
pub open spec fn dec_descs(b: Seq<u8>, n: nat) -> Option<(Seq<DescModel>, Seq<u8>)> {
    dec_list(b, n, |bb: Seq<u8>| dec_desc(bb))
}

/// Encoding of an event stream.
pub open spec fn enc_events(s: Seq<TraceEvent>) -> Seq<u8> {
    enc_list(s, |e: TraceEvent| enc_event(e))
}

/// Parse `n` event records.
pub open spec fn dec_events(b: Seq<u8>, n: nat) -> Option<(Seq<TraceEvent>, Seq<u8>)> {
    dec_list(b, n, |bb: Seq<u8>| dec_event(bb))
}

/// Encoding of a tag stream.
pub open spec fn enc_tags(s: Seq<TagModel>) -> Seq<u8> {
    enc_list(s, |t: TagModel| enc_tag(t))
}

/// Parse `n` tag records.
pub open spec fn dec_tags(b: Seq<u8>, n: nat) -> Option<(Seq<TagModel>, Seq<u8>)> {
    dec_list(b, n, |bb: Seq<u8>| dec_tag(bb))
}

/// Encoding of one per-thread section.
pub open spec fn enc_section(s: SectionModel) -> Seq<u8> {
    le4(s.thread_id) + enc_chunk(s.name) + le4(s.events.len() as u32) + enc_events(s.events)
        + le4(s.tags.len() as u32) + enc_tags(s.tags)
}

/// Parse one per-thread section.
pub open spec fn dec_section(b: Seq<u8>) -> Option<(SectionModel, Seq<u8>)> {
    match dec_u32(b) {
        Option::None => None,
        Option::Some((thread_id, b1)) => match dec_chunk(b1) {
            Option::None => None,
            Option::Some((name, b2)) => match dec_u32(b2) {
                Option::None => None,
                Option::Some((ne, b3)) => match dec_events(b3, ne as nat) {
                    Option::None => None,
                    Option::Some((events, b4)) => match dec_u32(b4) {
                        Option::None => None,
                        Option::Some((nt, b5)) => match dec_tags(b5, nt as nat) {
                            Option::None => None,
                            Option::Some((tags, b6)) => Some(
                                ((SectionModel { thread_id, name, events, tags }), b6),
                            ),
                        },
                    },
                },
            },
        },
    }
}

/// Encoding of the per-thread sections.
pub open spec fn enc_sections(s: Seq<SectionModel>) -> Seq<u8> {
    enc_list(s, |t: SectionModel| enc_section(t))
}

/// Parse `n` per-thread sections.
pub open spec fn dec_sections(b: Seq<u8>, n: nat) -> Option<(Seq<SectionModel>, Seq<u8>)> {
    dec_list(b, n, |bb: Seq<u8>| dec_section(bb))
}

/// Encoding of the frame-boundary table.
pub open spec fn enc_frames(s: Seq<FrameMark>) -> Seq<u8> {
    enc_list(s, |f: FrameMark| enc_frame(f))
}

/// Parse `n` frame-boundary markers.
pub open spec fn dec_frames(b: Seq<u8>, n: nat) -> Option<(Seq<FrameMark>, Seq<u8>)> {
    dec_list(b, n, |bb: Seq<u8>| dec_frame(bb))
}

/// Encoding of a whole capture.
pub open spec fn enc_capture(c: CaptureModel) -> Seq<u8> {
    le4(FORMAT_VERSION) + le8(c.start_time) + le8(c.frames.len() as u64) + le4(
        c.descriptions.len() as u32,
    ) + enc_descs(c.descriptions) + le4(c.threads.len() as u32) + enc_sections(c.threads)
        + enc_frames(c.frames)
}

/// Parse a whole capture; the input must be consumed exactly.
pub open spec fn dec_capture(b: Seq<u8>) -> Option<CaptureModel> {
    match dec_u32(b) {
        Option::None => None,
        Option::Some((version, b1)) => if version != FORMAT_VERSION {
            None
        } else {
            match dec_u64(b1) {
                Option::None => None,
                Option::Some((start_time, b2)) => match dec_u64(b2) {
                    Option::None => None,
                    Option::Some((nf, b3)) => match dec_u32(b3) {
                        Option::None => None,
                        Option::Some((nd, b4)) => match dec_descs(b4, nd as nat) {
                            Option::None => None,
                            Option::Some((descriptions, b5)) => match dec_u32(b5) {
                                Option::None => None,
                                Option::Some((nt, b6)) => match dec_sections(b6, nt as nat) {
                                    Option::None => None,
                                    Option::Some((threads, b7)) => match dec_frames(
                                        b7,
                                        nf as nat,
                                    ) {
                                        Option::None => None,
                                        Option::Some((frames, b8)) => if b8.len() == 0 {
                                            Some(
                                                (CaptureModel {
                                                    start_time,
                                                    descriptions,
                                                    threads,
                                                    frames,
                                                }),
                                            )
                                        } else {
                                            None
                                        },
                                    },
                                },
                            },
                        },
                    },
                },
            }
        },
    }
}

/// Serializability bounds of a description: what its 16-bit length prefixes
/// force.
pub open spec fn desc_ok(d: DescModel) -> bool {
    d.name.len() <= 0xFFFF && d.file.len() <= 0xFFFF
}

/// Serializability bounds of a tag payload.
pub open spec fn tag_ok(t: TagModel) -> bool {
    t.value matches TagValueModel::Str(s) ==> s.len() <= 0xFFFF
}

/// Serializability bounds of a section: its length prefixes and counts fit.
pub open spec fn section_ok(s: SectionModel) -> bool {
    &&& s.name.len() <= 0xFFFF
    &&& s.events.len() <= 0xFFFF_FFFF
    &&& s.tags.len() <= 0xFFFF_FFFF
    &&& forall|i: int| 0 <= i < s.tags.len() ==> tag_ok(#[trigger] s.tags[i])
}

/// Serializability bounds of a capture: every count fits its width in the
/// layout. A capture produced by `finish_capture` satisfies them.
pub open spec fn capture_ok(c: CaptureModel) -> bool {
    &&& c.frames.len() <= 0xFFFF_FFFF_FFFF_FFFF
    &&& c.descriptions.len() <= 0xFFFF_FFFF
    &&& forall|i: int| 0 <= i < c.descriptions.len() ==> desc_ok(#[trigger] c.descriptions[i])
    &&& c.threads.len() <= 0xFFFF_FFFF
    &&& forall|i: int| 0 <= i < c.threads.len() ==> section_ok(#[trigger] c.threads[i])
}

/// Round trip of one description entry.
pub proof fn lemma_rt_desc(d: DescModel, rest: Seq<u8>)
    requires
        desc_ok(d),
    ensures
        dec_desc(enc_desc(d) + rest) == Some((d, rest)),
{
    let r3 = le4(d.line) + rest;
    let r2 = enc_chunk(d.file) + r3;
    let r1 = enc_chunk(d.name) + r2;
    assert(enc_desc(d) + rest =~= le8(d.id) + r1);
    lemma_rt_u64(d.id, r1);
    assert(r1 =~= enc_chunk(d.name) + r2);
    lemma_rt_chunk(d.name, r2);
    lemma_rt_chunk(d.file, r3);
    lemma_rt_u32(d.line, rest);
}

/// Round trip of one event record.
pub proof fn lemma_rt_event(e: TraceEvent, rest: Seq<u8>)
    ensures
        dec_event(enc_event(e) + rest) == Some((e, rest)),
{
    let flag: u8 = if e.truncated {
        1u8
    } else {
        0u8
    };
    let r5 = seq![flag] + rest;
    let r4 = le2(e.depth) + r5;
    let r3 = le4(e.thread_id) + r4;
    let r2 = le8(e.end_time) + r3;
    let r1 = le8(e.start_time) + r2;
    assert(enc_event(e) + rest =~= le8(e.description_id) + r1);
    lemma_rt_u64(e.description_id, r1);
    lemma_rt_u64(e.start_time, r2);
    lemma_rt_u64(e.end_time, r3);
    lemma_rt_u32(e.thread_id, r4);
    lemma_rt_u16(e.depth, r5);
    lemma_rt_u8(flag, rest);
}

/// Round trip of one tag payload.
pub proof fn lemma_rt_value(v: TagValueModel, rest: Seq<u8>)
    requires
        v matches TagValueModel::Str(s) ==> s.len() <= 0xFFFF,
    ensures
        dec_value(enc_value(v) + rest) == Some((v, rest)),
{
    match v {
        TagValueModel::Str(s) => {
            assert(enc_value(v) + rest =~= seq![0u8] + (enc_chunk(s) + rest));
            lemma_rt_u8(0u8, enc_chunk(s) + rest);
            lemma_rt_chunk(s, rest);
        },
        TagValueModel::Int32(x) => {
            assert(enc_value(v) + rest =~= seq![1u8] + (le4(x as u32) + rest));
            lemma_rt_u8(1u8, le4(x as u32) + rest);
            lemma_rt_u32(x as u32, rest);
            assert((x as u32) as i32 == x) by (bit_vector);
        },
        TagValueModel::UInt32(x) => {
            assert(enc_value(v) + rest =~= seq![2u8] + (le4(x) + rest));
            lemma_rt_u8(2u8, le4(x) + rest);
            lemma_rt_u32(x, rest);
        },
        TagValueModel::UInt64(x) => {
            assert(enc_value(v) + rest =~= seq![3u8] + (le8(x) + rest));
            lemma_rt_u8(3u8, le8(x) + rest);
            lemma_rt_u64(x, rest);
        },
        TagValueModel::Float(x) => {
            assert(enc_value(v) + rest =~= seq![4u8] + (le4(x) + rest));
            lemma_rt_u8(4u8, le4(x) + rest);
            lemma_rt_u32(x, rest);
        },
        TagValueModel::Point3(x, y, z) => {
            let r2 = le4(z) + rest;
            let r1 = le4(y) + r2;
            assert(enc_value(v) + rest =~= seq![5u8] + (le4(x) + r1));
            lemma_rt_u8(5u8, le4(x) + r1);
            lemma_rt_u32(x, r1);
            lemma_rt_u32(y, r2);
            lemma_rt_u32(z, rest);
        },
    }
}

/// Round trip of one tag record.
pub proof fn lemma_rt_tag(t: TagModel, rest: Seq<u8>)
    requires
        tag_ok(t),
    ensures
        dec_tag(enc_tag(t) + rest) == Some((t, rest)),
{
    let r3 = enc_value(t.value) + rest;
    let r2 = le8(t.timestamp) + r3;
    let r1 = le4(t.thread_id) + r2;
    assert(enc_tag(t) + rest =~= le8(t.description_id) + r1);
    lemma_rt_u64(t.description_id, r1);
    lemma_rt_u32(t.thread_id, r2);
    lemma_rt_u64(t.timestamp, r3);
    lemma_rt_value(t.value, rest);
}

/// Round trip of one frame marker.
pub proof fn lemma_rt_frame(f: FrameMark, rest: Seq<u8>)
    ensures
        dec_frame(enc_frame(f) + rest) == Some((f, rest)),
{
    let r1 = le8(f.timestamp) + rest;
    assert(enc_frame(f) + rest =~= le8(f.number) + r1);
    lemma_rt_u64(f.number, r1);
    lemma_rt_u64(f.timestamp, rest);
}

/// Round trip of the description table body.
pub proof fn lemma_rt_descs(s: Seq<DescModel>, rest: Seq<u8>)
    requires
        forall|k: int| 0 <= k < s.len() ==> desc_ok(#[trigger] s[k]),
    ensures
        dec_descs(enc_descs(s) + rest, s.len()) == Some((s, rest)),
    decreases s.len(),
{
    if s.len() == 0 {
        assert(enc_descs(s) + rest =~= rest);
        assert(s =~= Seq::<DescModel>::empty());
    } else {
        let tail = s.drop_first();
        assert(enc_descs(s) == enc_desc(s[0]) + enc_descs(tail));
        assert(enc_descs(s) + rest =~= enc_desc(s[0]) + (enc_descs(tail) + rest));
        lemma_rt_desc(s[0], enc_descs(tail) + rest);
        lemma_rt_descs(tail, rest);
        assert(seq![s[0]] + tail =~= s);
    }
}

/// Round trip of an event stream.
pub proof fn lemma_rt_events(s: Seq<TraceEvent>, rest: Seq<u8>)
    ensures
        dec_events(enc_events(s) + rest, s.len()) == Some((s, rest)),
    decreases s.len(),
{
    if s.len() == 0 {
        assert(enc_events(s) + rest =~= rest);
        assert(s =~= Seq::<TraceEvent>::empty());
    } else {
        let tail = s.drop_first();
        assert(enc_events(s) == enc_event(s[0]) + enc_events(tail));
        assert(enc_events(s) + rest =~= enc_event(s[0]) + (enc_events(tail) + rest));
        lemma_rt_event(s[0], enc_events(tail) + rest);
        lemma_rt_events(tail, rest);
        assert(seq![s[0]] + tail =~= s);
    }
}

/// Round trip of a tag stream.
#[verifier::rlimit(100)]
pub proof fn lemma_rt_tags(s: Seq<TagModel>, rest: Seq<u8>)
    requires
        forall|k: int| 0 <= k < s.len() ==> tag_ok(#[trigger] s[k]),
    ensures
        dec_tags(enc_tags(s) + rest, s.len()) == Some((s, rest)),
    decreases s.len(),
{
    if s.len() == 0 {
        assert(enc_tags(s) + rest =~= rest);
        assert(s =~= Seq::<TagModel>::empty());
    } else {
        let tail = s.drop_first();
        assert(enc_tags(s) == enc_tag(s[0]) + enc_tags(tail));
        assert(enc_tags(s) + rest =~= enc_tag(s[0]) + (enc_tags(tail) + rest));
        lemma_rt_tag(s[0], enc_tags(tail) + rest);
        lemma_rt_tags(tail, rest);
        assert(seq![s[0]] + tail =~= s);
    }
}

/// Round trip of one per-thread section.
pub proof fn lemma_rt_section(s: SectionModel, rest: Seq<u8>)
    requires
        section_ok(s),
    ensures
        dec_section(enc_section(s) + rest) == Some((s, rest)),
{
    let r5 = enc_tags(s.tags) + rest;
    let r4 = le4(s.tags.len() as u32) + r5;
    let r3 = enc_events(s.events) + r4;
    let r2 = le4(s.events.len() as u32) + r3;
    let r1 = enc_chunk(s.name) + r2;
    assert(enc_section(s) + rest =~= le4(s.thread_id) + r1);
    lemma_rt_u32(s.thread_id, r1);
    lemma_rt_chunk(s.name, r2);
    lemma_rt_u32(s.events.len() as u32, r3);
    lemma_rt_events(s.events, r4);
    lemma_rt_u32(s.tags.len() as u32, r5);
    lemma_rt_tags(s.tags, rest);
}

/// Round trip of the per-thread sections.
#[verifier::rlimit(100)]
pub proof fn lemma_rt_sections(s: Seq<SectionModel>, rest: Seq<u8>)
    requires
        forall|k: int| 0 <= k < s.len() ==> section_ok(#[trigger] s[k]),
    ensures
        dec_sections(enc_sections(s) + rest, s.len()) == Some((s, rest)),
    decreases s.len(),
{
    if s.len() == 0 {
        assert(enc_sections(s) + rest =~= rest);
        assert(s =~= Seq::<SectionModel>::empty());
    } else {
        let tail = s.drop_first();
        assert(enc_sections(s) == enc_section(s[0]) + enc_sections(tail));
        assert(enc_sections(s) + rest =~= enc_section(s[0]) + (enc_sections(tail) + rest));
        lemma_rt_section(s[0], enc_sections(tail) + rest);
        lemma_rt_sections(tail, rest);
        assert(seq![s[0]] + tail =~= s);
    }
}

/// Round trip of the frame-boundary table.
pub proof fn lemma_rt_frames(s: Seq<FrameMark>, rest: Seq<u8>)
    ensures
        dec_frames(enc_frames(s) + rest, s.len()) == Some((s, rest)),
    decreases s.len(),
{
    if s.len() == 0 {
        assert(enc_frames(s) + rest =~= rest);
        assert(s =~= Seq::<FrameMark>::empty());
    } else {
        let tail = s.drop_first();
        assert(enc_frames(s) == enc_frame(s[0]) + enc_frames(tail));
        assert(enc_frames(s) + rest =~= enc_frame(s[0]) + (enc_frames(tail) + rest));
        lemma_rt_frame(s[0], enc_frames(tail) + rest);
        lemma_rt_frames(tail, rest);
        assert(seq![s[0]] + tail =~= s);
    }
}

/// Concatenation of byte strings associates.
pub proof fn lemma_assoc(a: Seq<u8>, b: Seq<u8>, c: Seq<u8>)
    ensures
        (a + b) + c == a + (b + c),
{
    assert((a + b) + c =~= a + (b + c));
}

/// Round trip of a whole capture: parsing the canonical encoding of any
/// serializable capture recovers it exactly — the same descriptions, the same
/// per-thread event and tag streams in the same order, and the same frame
/// boundaries.
#[verifier::rlimit(100)]
pub proof fn lemma_capture_round_trip(c: CaptureModel)
    requires
        capture_ok(c),
    ensures
        dec_capture(enc_capture(c)) == Some(c),
{
    let rest0 = Seq::<u8>::empty();
    let av = le4(FORMAT_VERSION);
    let ast = le8(c.start_time);
    let anf = le8(c.frames.len() as u64);
    let and0 = le4(c.descriptions.len() as u32);
    let ad = enc_descs(c.descriptions);
    let ant = le4(c.threads.len() as u32);
    let asec = enc_sections(c.threads);
    let afr = enc_frames(c.frames);
    let r6 = afr;
    let r5 = asec + r6;
    let r4 = ant + r5;
    let r3 = ad + r4;
    let r2 = and0 + r3;
    let r1 = anf + r2;
    let r0 = ast + r1;
    lemma_assoc(av + ast + anf + and0 + ad + ant, asec, afr);
    lemma_assoc(av + ast + anf + and0 + ad, ant, r5);
    lemma_assoc(av + ast + anf + and0, ad, r4);
    lemma_assoc(av + ast + anf, and0, r3);
    lemma_assoc(av + ast, anf, r2);
    lemma_assoc(av, ast, r1);
    assert(enc_capture(c) == av + r0);
    lemma_rt_u32(FORMAT_VERSION, r0);
    lemma_rt_u64(c.start_time, r1);
    lemma_rt_u64(c.frames.len() as u64, r2);
    lemma_rt_u32(c.descriptions.len() as u32, r3);
    lemma_rt_descs(c.descriptions, r4);
    lemma_rt_u32(c.threads.len() as u32, r5);
    lemma_rt_sections(c.threads, r6);
    assert(r6 =~= enc_frames(c.frames) + rest0);
    lemma_rt_frames(c.frames, rest0);
}

/// Append the little-endian bytes of a `u16`.
fn put_u16(out: &mut Vec<u8>, x: u16)
    ensures
        final(out)@ == old(out)@ + le2(x),
{
    proof {
        assert(x & 0xff <= 0xff && (x >> 8) & 0xff <= 0xff) by (bit_vector);
    }
    out.push((x & 0xff) as u8);
    out.push(((x >> 8) & 0xff) as u8);
    proof {
        assert(out@ =~= old(out)@ + le2(x));
    }
}

/// Append the little-endian bytes of a `u32`.
fn put_u32(out: &mut Vec<u8>, x: u32)
    ensures
        final(out)@ == old(out)@ + le4(x),
{
    proof {
        assert(x & 0xff <= 0xff && (x >> 8) & 0xff <= 0xff && (x >> 16) & 0xff <= 0xff && (x
            >> 24) & 0xff <= 0xff) by (bit_vector);
    }
    out.push((x & 0xff) as u8);
    out.push(((x >> 8) & 0xff) as u8);
    out.push(((x >> 16) & 0xff) as u8);
    out.push(((x >> 24) & 0xff) as u8);
    proof {
        assert(out@ =~= old(out)@ + le4(x));
    }
}

/// Append the little-endian bytes of a `u64`.
fn put_u64(out: &mut Vec<u8>, x: u64)
    ensures
        final(out)@ == old(out)@ + le8(x),
{
    proof {
        assert(x & 0xff <= 0xff && (x >> 8) & 0xff <= 0xff && (x >> 16) & 0xff <= 0xff && (x
            >> 24) & 0xff <= 0xff && (x >> 32) & 0xff <= 0xff && (x >> 40) & 0xff <= 0xff && (x
            >> 48) & 0xff <= 0xff && (x >> 56) & 0xff <= 0xff) by (bit_vector);
    }
    out.push((x & 0xff) as u8);
    out.push(((x >> 8) & 0xff) as u8);
    out.push(((x >> 16) & 0xff) as u8);
    out.push(((x >> 24) & 0xff) as u8);
    out.push(((x >> 32) & 0xff) as u8);
    out.push(((x >> 40) & 0xff) as u8);
    out.push(((x >> 48) & 0xff) as u8);
    out.push(((x >> 56) & 0xff) as u8);
    proof {
        assert(out@ =~= old(out)@ + le8(x));
    }
}

/// Append raw bytes.
fn put_bytes(out: &mut Vec<u8>, b: &Vec<u8>)
    ensures
        final(out)@ == old(out)@ + b@,
{
    let mut i: usize = 0;
    while i < b.len()
        invariant
            i <= b.len(),
            out@ =~= old(out)@ + b@.take(i as int),
        decreases b.len() - i,
    {
        out.push(b[i]);
        proof {
            assert(old(out)@ + b@.take(i as int + 1) =~= (old(out)@ + b@.take(i as int)).push(
                b@[i as int],
            ));
        }
        i += 1;
    }
    proof {
        assert(b@.take(b.len() as int) =~= b@);
    }
}

/// Append a 16-bit length prefix and the bytes themselves.
fn put_chunk(out: &mut Vec<u8>, b: &Vec<u8>)
    requires
        b@.len() <= 0xFFFF,
    ensures
        final(out)@ == old(out)@ + enc_chunk(b@),
{
    put_u16(out, b.len() as u16);
    put_bytes(out, b);
    proof {
        assert(out@ =~= old(out)@ + enc_chunk(b@));
    }
}

/// Append one description-table entry.
fn put_desc(out: &mut Vec<u8>, d: &EventDescription)
    requires
        desc_ok(d@),
    ensures
        final(out)@ == old(out)@ + enc_desc(d@),
{
    put_u64(out, d.id);
    put_chunk(out, &d.name);
    put_chunk(out, &d.file);
    put_u32(out, d.line);
    proof {
        assert(out@ =~= old(out)@ + enc_desc(d@));
    }
}

/// Append one event record.
fn put_event(out: &mut Vec<u8>, e: TraceEvent)
    ensures
        final(out)@ == old(out)@ + enc_event(e),
{
    put_u64(out, e.description_id);
    put_u64(out, e.start_time);
    put_u64(out, e.end_time);
    put_u32(out, e.thread_id);
    put_u16(out, e.depth);
    out.push(
        if e.truncated {
            1u8
        } else {
            0u8
        },
    );
    proof {
        assert(out@ =~= old(out)@ + enc_event(e));
    }
}

/// Append one tag payload.
fn put_value(out: &mut Vec<u8>, v: &TagValue)
    requires
        v@ matches TagValueModel::Str(s) ==> s.len() <= 0xFFFF,
    ensures
        final(out)@ == old(out)@ + enc_value(v@),
{
    match v {
        TagValue::Str(s) => {
            out.push(0u8);
            put_chunk(out, s);
        },
        TagValue::Int32(x) => {
            out.push(1u8);
            put_u32(out, #[verifier::truncate] (*x as u32));
        },
        TagValue::UInt32(x) => {
            out.push(2u8);
            put_u32(out, *x);
        },
        TagValue::UInt64(x) => {
            out.push(3u8);
            put_u64(out, *x);
        },
        TagValue::Float(x) => {
            out.push(4u8);
            put_u32(out, *x);
        },
        TagValue::Point3(x, y, z) => {
            out.push(5u8);
            put_u32(out, *x);
            put_u32(out, *y);
            put_u32(out, *z);
        },
    }
    proof {
        assert(out@ =~= old(out)@ + enc_value(v@));
    }
}

/// Append one tag record.
fn put_tag(out: &mut Vec<u8>, t: &TraceTag)
    requires
        t@.value matches TagValueModel::Str(s) ==> s.len() <= 0xFFFF,
    ensures
        final(out)@ == old(out)@ + enc_tag(t@),
{
    put_u64(out, t.description_id);
    put_u32(out, t.thread_id);
    put_u64(out, t.timestamp);
    put_value(out, &t.value);
    proof {
        assert(out@ =~= old(out)@ + enc_tag(t@));
    }
}

/// Append one frame marker.
fn put_frame(out: &mut Vec<u8>, f: FrameMark)
    ensures
        final(out)@ == old(out)@ + enc_frame(f),
{
    put_u64(out, f.number);
    put_u64(out, f.timestamp);
    proof {
        assert(out@ =~= old(out)@ + enc_frame(f));
    }
}

/// Append the description entries from position `i` on.
fn put_descs(out: &mut Vec<u8>, v: &Vec<EventDescription>, i: usize)
    requires
        i <= v.len(),
        forall|k: int| 0 <= k < v@.len() ==> desc_ok((#[trigger] v@[k])@),
    ensures
        final(out)@ == old(out)@ + enc_descs(
            v@.map_values(|d: EventDescription| d@).skip(i as int),
        ),
    decreases v.len() - i,
{
    let ghost s = v@.map_values(|d: EventDescription| d@).skip(i as int);
    if i < v.len() {
        put_desc(out, &v[i]);
        put_descs(out, v, i + 1);
        proof {
            assert(s[0] == v@[i as int]@);
            assert(s.drop_first() =~= v@.map_values(|d: EventDescription| d@).skip(i as int + 1));
            assert(out@ =~= old(out)@ + enc_descs(s));
        }
    } else {
        proof {
            assert(s =~= Seq::<DescModel>::empty());
            assert(out@ =~= old(out)@ + enc_descs(s));
        }
    }
}

/// Append the event records from position `i` on.
fn put_events(out: &mut Vec<u8>, v: &Vec<TraceEvent>, i: usize)
    requires
        i <= v.len(),
    ensures
        final(out)@ == old(out)@ + enc_events(v@.skip(i as int)),
    decreases v.len() - i,
{
    let ghost s = v@.skip(i as int);
    if i < v.len() {
        put_event(out, v[i]);
        put_events(out, v, i + 1);
        proof {
            assert(s[0] == v@[i as int]);
            assert(s.drop_first() =~= v@.skip(i as int + 1));
            assert(out@ =~= old(out)@ + enc_events(s));
        }
    } else {
        proof {
            assert(s =~= Seq::<TraceEvent>::empty());
            assert(out@ =~= old(out)@ + enc_events(s));
        }
    }
}

/// Append the tag records from position `i` on.
fn put_tags(out: &mut Vec<u8>, v: &Vec<TraceTag>, i: usize)
    requires
        i <= v.len(),
        forall|k: int| 0 <= k < v@.len() ==> tag_ok((#[trigger] v@[k])@),
    ensures
        final(out)@ == old(out)@ + enc_tags(v@.map_values(|t: TraceTag| t@).skip(i as int)),
    decreases v.len() - i,
{
    let ghost s = v@.map_values(|t: TraceTag| t@).skip(i as int);
    if i < v.len() {
        put_tag(out, &v[i]);
        put_tags(out, v, i + 1);
        proof {
            assert(s[0] == v@[i as int]@);
            assert(s.drop_first() =~= v@.map_values(|t: TraceTag| t@).skip(i as int + 1));
            assert(out@ =~= old(out)@ + enc_tags(s));
        }
    } else {
        proof {
            assert(s =~= Seq::<TagModel>::empty());
            assert(out@ =~= old(out)@ + enc_tags(s));
        }
    }
}

/// Append one per-thread section.
#[verifier::rlimit(100)]
fn put_section(out: &mut Vec<u8>, s: &ThreadSection)
    requires
        section_ok(s@),
    ensures
        final(out)@ == old(out)@ + enc_section(s@),
{
    proof {
        assert forall|k: int| 0 <= k < s.tags@.len() implies tag_ok((#[trigger] s.tags@[k])@) by {
            assert(s@.tags[k] == s.tags@[k]@);
        }
    }
    put_u32(out, s.thread_id);
    put_chunk(out, &s.name);
    put_u32(out, s.events.len() as u32);
    put_events(out, &s.events, 0);
    put_u32(out, s.tags.len() as u32);
    put_tags(out, &s.tags, 0);
    proof {
        assert(s.events@.skip(0) =~= s@.events);
        assert(s.tags@.map_values(|t: TraceTag| t@).skip(0) =~= s@.tags);
        assert(out@ =~= old(out)@ + enc_section(s@));
    }
}

/// Append the per-thread sections from position `i` on.
#[verifier::rlimit(100)]
fn put_sections(out: &mut Vec<u8>, v: &Vec<ThreadSection>, i: usize)
    requires
        i <= v.len(),
        forall|k: int| 0 <= k < v@.len() ==> section_ok((#[trigger] v@[k])@),
    ensures
        final(out)@ == old(out)@ + enc_sections(
            v@.map_values(|t: ThreadSection| t@).skip(i as int),
        ),
    decreases v.len() - i,
{
    let ghost s = v@.map_values(|t: ThreadSection| t@).skip(i as int);
    if i < v.len() {
        put_section(out, &v[i]);
        put_sections(out, v, i + 1);
        proof {
            assert(s[0] == v@[i as int]@);
            assert(s.drop_first() =~= v@.map_values(|t: ThreadSection| t@).skip(i as int + 1));
            assert(out@ =~= old(out)@ + enc_sections(s));
        }
    } else {
        proof {
            assert(s =~= Seq::<SectionModel>::empty());
            assert(out@ =~= old(out)@ + enc_sections(s));
        }
    }
}

/// Append the frame markers from position `i` on.
fn put_frames(out: &mut Vec<u8>, v: &Vec<FrameMark>, i: usize)
    requires
        i <= v.len(),
    ensures
        final(out)@ == old(out)@ + enc_frames(v@.skip(i as int)),
    decreases v.len() - i,
{
    let ghost s = v@.skip(i as int);
    if i < v.len() {
        put_frame(out, v[i]);
        put_frames(out, v, i + 1);
        proof {
            assert(s[0] == v@[i as int]);
            assert(s.drop_first() =~= v@.skip(i as int + 1));
            assert(out@ =~= old(out)@ + enc_frames(s));
        }
    } else {
        proof {
            assert(s =~= Seq::<FrameMark>::empty());
            assert(out@ =~= old(out)@ + enc_frames(s));
        }
    }
}

/// Serialize a capture into its canonical binary layout.
#[verifier::rlimit(100)]
pub fn serialize_capture(c: &Capture) -> (r: Vec<u8>)
    requires
        capture_ok(c@),
    ensures
        r@ == enc_capture(c@),
{
    proof {
        assert forall|k: int| 0 <= k < c.descriptions@.len() implies desc_ok(
            (#[trigger] c.descriptions@[k])@,
        ) by {
            assert(c@.descriptions[k] == c.descriptions@[k]@);
        }
        assert forall|k: int| 0 <= k < c.threads@.len() implies section_ok(
            (#[trigger] c.threads@[k])@,
        ) by {
            assert(c@.threads[k] == c.threads@[k]@);
        }
    }
    let mut out: Vec<u8> = Vec::new();
    put_u32(&mut out, FORMAT_VERSION);
    put_u64(&mut out, c.start_time);
    put_u64(&mut out, c.frames.len() as u64);
    put_u32(&mut out, c.descriptions.len() as u32);
    put_descs(&mut out, &c.descriptions, 0);
    put_u32(&mut out, c.threads.len() as u32);
    put_sections(&mut out, &c.threads, 0);
    put_frames(&mut out, &c.frames, 0);
    proof {
        assert(c.descriptions@.map_values(|d: EventDescription| d@).skip(0) =~= c@.descriptions);
        assert(c.threads@.map_values(|t: ThreadSection| t@).skip(0) =~= c@.threads);
        assert(c.frames@.skip(0) =~= c@.frames);
        assert(out@ =~= enc_capture(c@));
    }
    out
}

/// Parse one byte at `pos`.
fn parse_u8(b: &Vec<u8>, pos: usize) -> (r: Option<(u8, usize)>)
    requires
        pos <= b.len(),
    ensures
        match r {
            Option::Some(vp) => vp.1 <= b.len() && dec_u8(b@.skip(pos as int)) == Some(
                (vp.0, b@.skip(vp.1 as int)),
            ),
            Option::None => dec_u8(b@.skip(pos as int)) is None,
        },
{
    if b.len() - pos >= 1 {
        let v = b[pos];
        proof {
            assert(b@.skip(pos as int)[0] == b@[pos as int]);
            assert(b@.skip(pos as int).skip(1) =~= b@.skip(pos as int + 1));
        }
        Some((v, pos + 1))
    } else {
        None
    }
}

/// Parse a little-endian `u16` at `pos`.
fn parse_u16(b: &Vec<u8>, pos: usize) -> (r: Option<(u16, usize)>)
    requires
        pos <= b.len(),
    ensures
        match r {
            Option::Some(vp) => vp.1 <= b.len() && dec_u16(b@.skip(pos as int)) == Some(
                (vp.0, b@.skip(vp.1 as int)),
            ),
            Option::None => dec_u16(b@.skip(pos as int)) is None,
        },
{
    if b.len() - pos >= 2 {
        let v = (b[pos] as u16) | ((b[pos + 1] as u16) << 8);
        proof {
            assert(b@.skip(pos as int)[0] == b@[pos as int]);
            assert(b@.skip(pos as int)[1] == b@[pos as int + 1]);
            assert(b@.skip(pos as int).skip(2) =~= b@.skip(pos as int + 2));
        }
        Some((v, pos + 2))
    } else {
        None
    }
}

/// Parse a little-endian `u32` at `pos`.
fn parse_u32(b: &Vec<u8>, pos: usize) -> (r: Option<(u32, usize)>)
    requires
        pos <= b.len(),
    ensures
        match r {
            Option::Some(vp) => vp.1 <= b.len() && dec_u32(b@.skip(pos as int)) == Some(
                (vp.0, b@.skip(vp.1 as int)),
            ),
            Option::None => dec_u32(b@.skip(pos as int)) is None,
        },
{
    if b.len() - pos >= 4 {
        let v = (b[pos] as u32) | ((b[pos + 1] as u32) << 8) | ((b[pos + 2] as u32) << 16) | ((b[pos
            + 3] as u32) << 24);
        proof {
            assert(b@.skip(pos as int)[0] == b@[pos as int]);
            assert(b@.skip(pos as int)[1] == b@[pos as int + 1]);
            assert(b@.skip(pos as int)[2] == b@[pos as int + 2]);
            assert(b@.skip(pos as int)[3] == b@[pos as int + 3]);
            assert(b@.skip(pos as int).skip(4) =~= b@.skip(pos as int + 4));
        }
        Some((v, pos + 4))
    } else {
        None
    }
}

/// Parse a little-endian `u64` at `pos`.
fn parse_u64(b: &Vec<u8>, pos: usize) -> (r: Option<(u64, usize)>)
    requires
        pos <= b.len(),
    ensures
        match r {
            Option::Some(vp) => vp.1 <= b.len() && dec_u64(b@.skip(pos as int)) == Some(
                (vp.0, b@.skip(vp.1 as int)),
            ),
            Option::None => dec_u64(b@.skip(pos as int)) is None,
        },
{
    if b.len() - pos >= 8 {
        let v = (b[pos] as u64) | ((b[pos + 1] as u64) << 8) | ((b[pos + 2] as u64) << 16) | ((b[pos
            + 3] as u64) << 24) | ((b[pos + 4] as u64) << 32) | ((b[pos + 5] as u64) << 40) | ((
        b[pos + 6] as u64) << 48) | ((b[pos + 7] as u64) << 56);
        proof {
            assert(b@.skip(pos as int)[0] == b@[pos as int]);
            assert(b@.skip(pos as int)[1] == b@[pos as int + 1]);
            assert(b@.skip(pos as int)[2] == b@[pos as int + 2]);
            assert(b@.skip(pos as int)[3] == b@[pos as int + 3]);
            assert(b@.skip(pos as int)[4] == b@[pos as int + 4]);
            assert(b@.skip(pos as int)[5] == b@[pos as int + 5]);
            assert(b@.skip(pos as int)[6] == b@[pos as int + 6]);
            assert(b@.skip(pos as int)[7] == b@[pos as int + 7]);
            assert(b@.skip(pos as int).skip(8) =~= b@.skip(pos as int + 8));
        }
        Some((v, pos + 8))
    } else {
        None
    }
}

/// Parse a length-prefixed byte string at `pos`.
fn parse_chunk(b: &Vec<u8>, pos: usize) -> (r: Option<(Vec<u8>, usize)>)
    requires
        pos <= b.len(),
    ensures
        match r {
            Option::Some(vp) => vp.1 <= b.len() && dec_chunk(b@.skip(pos as int)) == Some(
                (vp.0@, b@.skip(vp.1 as int)),
            ),
            Option::None => dec_chunk(b@.skip(pos as int)) is None,
        },
{
    match parse_u16(b, pos) {
        Option::None => None,
        Option::Some((n, p1)) => {
            let n = n as usize;
            if b.len() - p1 >= n {
                let mut out: Vec<u8> = Vec::new();
                let mut i: usize = 0;
                while i < n
                    invariant
                        i <= n,
                        p1 + n <= b.len(),
                        out@ =~= b@.subrange(p1 as int, p1 as int + i as int),
                    decreases n - i,
                {
                    out.push(b[p1 + i]);
                    proof {
                        assert(out@ =~= b@.subrange(p1 as int, p1 as int + i as int + 1));
                    }
                    i += 1;
                }
                proof {
                    let rem = b@.skip(p1 as int);
                    assert(rem.take(n as int) =~= b@.subrange(p1 as int, p1 as int + n as int));
                    assert(rem.skip(n as int) =~= b@.skip(p1 as int + n as int));
                }
                Some((out, p1 + n))
            } else {
                None
            }
        },
    }
}

/// Parse one description-table entry at `pos`.
fn parse_desc(b: &Vec<u8>, pos: usize) -> (r: Option<(EventDescription, usize)>)
    requires
        pos <= b.len(),
    ensures
        match r {
            Option::Some(vp) => vp.1 <= b.len() && dec_desc(b@.skip(pos as int)) == Some(
                (vp.0@, b@.skip(vp.1 as int)),
            ),
            Option::None => dec_desc(b@.skip(pos as int)) is None,
        },
{
    match parse_u64(b, pos) {
        Option::None => None,
        Option::Some((id, p1)) => match parse_chunk(b, p1) {
            Option::None => None,
            Option::Some((name, p2)) => match parse_chunk(b, p2) {
                Option::None => None,
                Option::Some((file, p3)) => match parse_u32(b, p3) {
                    Option::None => None,
                    Option::Some((line, p4)) => Some((EventDescription { id, name, file, line }, p4)),
                },
            },
        },
    }
}

/// Parse one event record at `pos`.
fn parse_event(b: &Vec<u8>, pos: usize) -> (r: Option<(TraceEvent, usize)>)
    requires
        pos <= b.len(),
    ensures
        match r {
            Option::Some(vp) => vp.1 <= b.len() && dec_event(b@.skip(pos as int)) == Some(
                (vp.0, b@.skip(vp.1 as int)),
            ),
            Option::None => dec_event(b@.skip(pos as int)) is None,
        },
{
    match parse_u64(b, pos) {
        Option::None => None,
        Option::Some((description_id, p1)) => match parse_u64(b, p1) {
            Option::None => None,
            Option::Some((start_time, p2)) => match parse_u64(b, p2) {
                Option::None => None,
                Option::Some((end_time, p3)) => match parse_u32(b, p3) {
                    Option::None => None,
                    Option::Some((thread_id, p4)) => match parse_u16(b, p4) {
                        Option::None => None,
                        Option::Some((depth, p5)) => match parse_u8(b, p5) {
                            Option::None => None,
                            Option::Some((flag, p6)) => Some(
                                (
                                    TraceEvent {
                                        description_id,
                                        start_time,
                                        end_time,
                                        thread_id,
                                        depth,
                                        truncated: flag != 0,
                                    },
                                    p6,
                                ),
                            ),
                        },
                    },
                },
            },
        },
    }
}

/// Parse one tag payload at `pos`.
fn parse_value(b: &Vec<u8>, pos: usize) -> (r: Option<(TagValue, usize)>)
    requires
        pos <= b.len(),
    ensures
        match r {
            Option::Some(vp) => vp.1 <= b.len() && dec_value(b@.skip(pos as int)) == Some(
                (vp.0@, b@.skip(vp.1 as int)),
            ),
            Option::None => dec_value(b@.skip(pos as int)) is None,
        },
{
    match parse_u8(b, pos) {
        Option::None => None,
        Option::Some((kind, p1)) => {
            if kind == 0 {
                match parse_chunk(b, p1) {
                    Option::None => None,
                    Option::Some((s, p2)) => Some((TagValue::Str(s), p2)),
                }
            } else if kind == 1 {
                match parse_u32(b, p1) {
                    Option::None => None,
                    Option::Some((x, p2)) => Some(
                        (TagValue::Int32(#[verifier::truncate] (x as i32)), p2),
                    ),
                }
            } else if kind == 2 {
                match parse_u32(b, p1) {
                    Option::None => None,
                    Option::Some((x, p2)) => Some((TagValue::UInt32(x), p2)),
                }
            } else if kind == 3 {
                match parse_u64(b, p1) {
                    Option::None => None,
                    Option::Some((x, p2)) => Some((TagValue::UInt64(x), p2)),
                }
            } else if kind == 4 {
                match parse_u32(b, p1) {
                    Option::None => None,
                    Option::Some((x, p2)) => Some((TagValue::Float(x), p2)),
                }
            } else if kind == 5 {
                match parse_u32(b, p1) {
                    Option::None => None,
                    Option::Some((x, p2)) => match parse_u32(b, p2) {
                        Option::None => None,
                        Option::Some((y, p3)) => match parse_u32(b, p3) {
                            Option::None => None,
                            Option::Some((z, p4)) => Some((TagValue::Point3(x, y, z), p4)),
                        },
                    },
                }
            } else {
                None
            }
        },
    }
}

/// Parse one tag record at `pos`.
fn parse_tag(b: &Vec<u8>, pos: usize) -> (r: Option<(TraceTag, usize)>)
    requires
        pos <= b.len(),
    ensures
        match r {
            Option::Some(vp) => vp.1 <= b.len() && dec_tag(b@.skip(pos as int)) == Some(
                (vp.0@, b@.skip(vp.1 as int)),
            ),
            Option::None => dec_tag(b@.skip(pos as int)) is None,
        },
{
    match parse_u64(b, pos) {
        Option::None => None,
        Option::Some((description_id, p1)) => match parse_u32(b, p1) {
            Option::None => None,
            Option::Some((thread_id, p2)) => match parse_u64(b, p2) {
                Option::None => None,
                Option::Some((timestamp, p3)) => match parse_value(b, p3) {
                    Option::None => None,
                    Option::Some((value, p4)) => Some(
                        (TraceTag { description_id, thread_id, timestamp, value }, p4),
                    ),
                },
            },
        },
    }
}

/// Parse one frame marker at `pos`.
fn parse_frame(b: &Vec<u8>, pos: usize) -> (r: Option<(FrameMark, usize)>)
    requires
        pos <= b.len(),
    ensures
        match r {
            Option::Some(vp) => vp.1 <= b.len() && dec_frame(b@.skip(pos as int)) == Some(
                (vp.0, b@.skip(vp.1 as int)),
            ),
            Option::None => dec_frame(b@.skip(pos as int)) is None,
        },
{
    match parse_u64(b, pos) {
        Option::None => None,
        Option::Some((number, p1)) => match parse_u64(b, p1) {
            Option::None => None,
            Option::Some((timestamp, p2)) => Some((FrameMark { number, timestamp }, p2)),
        },
    }
}

/// Parse `n` description-table entries at `pos`.
fn parse_descs(b: &Vec<u8>, pos: usize, n: u32) -> (r: Option<(Vec<EventDescription>, usize)>)
    requires
        pos <= b.len(),
    ensures
        match r {
            Option::Some(vp) => vp.1 <= b.len() && dec_descs(b@.skip(pos as int), n as nat) == Some(
                (vp.0@.map_values(|d: EventDescription| d@), b@.skip(vp.1 as int)),
            ),
            Option::None => dec_descs(b@.skip(pos as int), n as nat) is None,
        },
    decreases n,
{
    if n == 0 {
        let v: Vec<EventDescription> = Vec::new();
        proof {
            assert(v@.map_values(|d: EventDescription| d@) =~= Seq::<DescModel>::empty());
        }
        Some((v, pos))
    } else {
        match parse_desc(b, pos) {
            Option::None => None,
            Option::Some((d, p1)) => match parse_descs(b, p1, n - 1) {
                Option::None => None,
                Option::Some((mut v, p2)) => {
                    let ghost tailm = v@.map_values(|x: EventDescription| x@);
                    v.insert(0, d);
                    proof {
                        assert(v@.map_values(|x: EventDescription| x@) =~= seq![d@] + tailm);
                    }
                    Some((v, p2))
                },
            },
        }
    }
}

/// Parse `n` event records at `pos`.
fn parse_events(b: &Vec<u8>, pos: usize, n: u32) -> (r: Option<(Vec<TraceEvent>, usize)>)
    requires
        pos <= b.len(),
    ensures
        match r {
            Option::Some(vp) => vp.1 <= b.len() && dec_events(b@.skip(pos as int), n as nat) == Some(
                (vp.0@, b@.skip(vp.1 as int)),
            ),
            Option::None => dec_events(b@.skip(pos as int), n as nat) is None,
        },
    decreases n,
{
    if n == 0 {
        let v: Vec<TraceEvent> = Vec::new();
        proof {
            assert(v@ =~= Seq::<TraceEvent>::empty());
        }
        Some((v, pos))
    } else {
        match parse_event(b, pos) {
            Option::None => None,
            Option::Some((d, p1)) => match parse_events(b, p1, n - 1) {
                Option::None => None,
                Option::Some((mut v, p2)) => {
                    let ghost tailm = v@;
                    v.insert(0, d);
                    proof {
                        assert(v@ =~= seq![d] + tailm);
                    }
                    Some((v, p2))
                },
            },
        }
    }
}

/// Parse `n` tag records at `pos`.
fn parse_tags(b: &Vec<u8>, pos: usize, n: u32) -> (r: Option<(Vec<TraceTag>, usize)>)
    requires
        pos <= b.len(),
    ensures
        match r {
            Option::Some(vp) => vp.1 <= b.len() && dec_tags(b@.skip(pos as int), n as nat) == Some(
                (vp.0@.map_values(|t: TraceTag| t@), b@.skip(vp.1 as int)),
            ),
            Option::None => dec_tags(b@.skip(pos as int), n as nat) is None,
        },
    decreases n,
{
    if n == 0 {
        let v: Vec<TraceTag> = Vec::new();
        proof {
            assert(v@.map_values(|t: TraceTag| t@) =~= Seq::<TagModel>::empty());
        }
        Some((v, pos))
    } else {
        match parse_tag(b, pos) {
            Option::None => None,
            Option::Some((d, p1)) => match parse_tags(b, p1, n - 1) {
                Option::None => None,
                Option::Some((mut v, p2)) => {
                    let ghost tailm = v@.map_values(|t: TraceTag| t@);
                    v.insert(0, d);
                    proof {
                        assert(v@.map_values(|t: TraceTag| t@) =~= seq![d@] + tailm);
                    }
                    Some((v, p2))
                },
            },
        }
    }
}

/// Parse one per-thread section at `pos`.
fn parse_section(b: &Vec<u8>, pos: usize) -> (r: Option<(ThreadSection, usize)>)
    requires
        pos <= b.len(),
    ensures
        match r {
            Option::Some(vp) => vp.1 <= b.len() && dec_section(b@.skip(pos as int)) == Some(
                (vp.0@, b@.skip(vp.1 as int)),
            ),
            Option::None => dec_section(b@.skip(pos as int)) is None,
        },
{
    match parse_u32(b, pos) {
        Option::None => None,
        Option::Some((thread_id, p1)) => match parse_chunk(b, p1) {
            Option::None => None,
            Option::Some((name, p2)) => match parse_u32(b, p2) {
                Option::None => None,
                Option::Some((ne, p3)) => match parse_events(b, p3, ne) {
                    Option::None => None,
                    Option::Some((events, p4)) => match parse_u32(b, p4) {
                        Option::None => None,
                        Option::Some((nt, p5)) => match parse_tags(b, p5, nt) {
                            Option::None => None,
                            Option::Some((tags, p6)) => {
                                let s = ThreadSection { thread_id, name, events, tags };
                                proof {
                                    assert(s@ =~~= (dec_section(b@.skip(pos as int))->0).0);
                                }
                                Some((s, p6))
                            },
                        },
                    },
                },
            },
        },
    }
}

/// Parse `n` per-thread sections at `pos`.
fn parse_sections(b: &Vec<u8>, pos: usize, n: u32) -> (r: Option<(Vec<ThreadSection>, usize)>)
    requires
        pos <= b.len(),
    ensures
        match r {
            Option::Some(vp) => vp.1 <= b.len() && dec_sections(b@.skip(pos as int), n as nat)
                == Some((vp.0@.map_values(|t: ThreadSection| t@), b@.skip(vp.1 as int))),
            Option::None => dec_sections(b@.skip(pos as int), n as nat) is None,
        },
    decreases n,
{
    if n == 0 {
        let v: Vec<ThreadSection> = Vec::new();
        proof {
            assert(v@.map_values(|t: ThreadSection| t@) =~= Seq::<SectionModel>::empty());
        }
        Some((v, pos))
    } else {
        match parse_section(b, pos) {
            Option::None => None,
            Option::Some((d, p1)) => match parse_sections(b, p1, n - 1) {
                Option::None => None,
                Option::Some((mut v, p2)) => {
                    let ghost tailm = v@.map_values(|t: ThreadSection| t@);
                    v.insert(0, d);
                    proof {
                        assert(v@.map_values(|t: ThreadSection| t@) =~= seq![d@] + tailm);
                    }
                    Some((v, p2))
                },
            },
        }
    }
}

/// Parse `n` frame markers at `pos`.
fn parse_frames(b: &Vec<u8>, pos: usize, n: u64) -> (r: Option<(Vec<FrameMark>, usize)>)
    requires
        pos <= b.len(),
    ensures
        match r {
            Option::Some(vp) => vp.1 <= b.len() && dec_frames(b@.skip(pos as int), n as nat) == Some(
                (vp.0@, b@.skip(vp.1 as int)),
            ),
            Option::None => dec_frames(b@.skip(pos as int), n as nat) is None,
        },
    decreases n,
{
    if n == 0 {
        let v: Vec<FrameMark> = Vec::new();
        proof {
            assert(v@ =~= Seq::<FrameMark>::empty());
        }
        Some((v, pos))
    } else {
        match parse_frame(b, pos) {
            Option::None => None,
            Option::Some((d, p1)) => match parse_frames(b, p1, n - 1) {
                Option::None => None,
                Option::Some((mut v, p2)) => {
                    let ghost tailm = v@;
                    v.insert(0, d);
                    proof {
                        assert(v@ =~= seq![d] + tailm);
                    }
                    Some((v, p2))
                },
            },
        }
    }
}

/// Parse a whole capture from its canonical binary layout. Succeeds exactly
/// on the inputs the abstract decoder accepts: a correctly versioned, exactly
/// consumed encoding; any other input answers `None`.
#[verifier::rlimit(100)]
pub fn parse_capture(b: &Vec<u8>) -> (r: Option<Capture>)
    ensures
        match r {
            Option::Some(c) => dec_capture(b@) == Some(c@),
            Option::None => dec_capture(b@) is None,
        },
{
    proof {
        assert(b@.skip(0) =~= b@);
    }
    match parse_u32(b, 0) {
        Option::None => None,
        Option::Some((version, p1)) => {
            if version != FORMAT_VERSION {
                return None;
            }
            match parse_u64(b, p1) {
                Option::None => None,
                Option::Some((start_time, p2)) => match parse_u64(b, p2) {
                    Option::None => None,
                    Option::Some((nf, p3)) => match parse_u32(b, p3) {
                        Option::None => None,
                        Option::Some((nd, p4)) => match parse_descs(b, p4, nd) {
                            Option::None => None,
                            Option::Some((descriptions, p5)) => match parse_u32(b, p5) {
                                Option::None => None,
                                Option::Some((nt, p6)) => match parse_sections(b, p6, nt) {
                                    Option::None => None,
                                    Option::Some((threads, p7)) => match parse_frames(b, p7, nf) {
                                        Option::None => None,
                                        Option::Some((frames, p8)) => {
                                            if p8 == b.len() {
                                                let c = Capture {
                                                    start_time,
                                                    descriptions,
                                                    threads,
                                                    frames,
                                                };
                                                proof {
                                                    assert(b@.skip(p8 as int).len() == 0);
                                                    assert(c@ =~~= dec_capture(b@)->0);
                                                }
                                                Some(c)
                                            } else {
                                                proof {
                                                    assert(b@.skip(p8 as int).len() != 0);
                                                }
                                                None
                                            }
                                        },
                                    },
                                },
                            },
                        },
                    },
                },
            }
        },
    }
}

} // verus!
