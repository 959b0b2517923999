//! Attaching typed tags through a common trait, so instrumentation code can
//! hand any supported payload to the engine with one call shape.

use vstd::prelude::*;
use vstd::string::StrSliceExecFns;
use vstd::string::StringSliceAdditionalSpecFns;
use vstd::utf8::encode_utf8;

use crate::engine::{engine_wf, Engine};
use crate::model::{TagValue, TagValueModel};
use crate::recorder::attach_tag_spec;

verus! {

/// A value that can be attached as a tag. `attach` records the value on the
/// given thread against the given description, exactly as
/// [`Engine::attach_tag`] would with the payload `tag_value()`.
pub trait OptickTag {
    /// The payload this value attaches.
    spec fn tag_value(&self) -> TagValueModel;

    /// Attach this value as a tag; answers whether the tag was recorded.
    fn attach(&self, engine: &mut Engine, thread_id: u32, description_id: u64) -> (recorded: bool)
        requires
            engine_wf(old(engine)@),
        ensures
            engine_wf(final(engine)@),
            (final(engine)@, recorded) == attach_tag_spec(
                old(engine)@,
                thread_id,
                description_id,
                self.tag_value(),
            ),
    ;
}

impl OptickTag for i32 {
    open spec fn tag_value(&self) -> TagValueModel {
        TagValueModel::Int32(*self)
    }

    fn attach(&self, engine: &mut Engine, thread_id: u32, description_id: u64) -> (recorded: bool) {
        engine.attach_tag(thread_id, description_id, TagValue::Int32(*self))
    }
}

impl OptickTag for u32 {
    open spec fn tag_value(&self) -> TagValueModel {
        TagValueModel::UInt32(*self)
    }

    fn attach(&self, engine: &mut Engine, thread_id: u32, description_id: u64) -> (recorded: bool) {
        engine.attach_tag(thread_id, description_id, TagValue::UInt32(*self))
    }
}

impl OptickTag for u64 {
    open spec fn tag_value(&self) -> TagValueModel {
        TagValueModel::UInt64(*self)
    }

    fn attach(&self, engine: &mut Engine, thread_id: u32, description_id: u64) -> (recorded: bool) {
        engine.attach_tag(thread_id, description_id, TagValue::UInt64(*self))
    }
}

impl OptickTag for String {
    open spec fn tag_value(&self) -> TagValueModel {
        TagValueModel::Str(encode_utf8(self@))
    }

    fn attach(&self, engine: &mut Engine, thread_id: u32, description_id: u64) -> (recorded: bool) {
        let bytes = self.as_str().as_bytes_vec();
        engine.attach_tag(thread_id, description_id, TagValue::Str(bytes))
    }
}

} // verus!
