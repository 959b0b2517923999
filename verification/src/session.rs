//! Stopping a capture session end to end: drain the engine, serialize the
//! capture, and name the artifact after the caller's path with a stamp suffix
//! and the fixed extension.

use vstd::prelude::*;
use vstd::string::StrSliceExecFns;
use vstd::string::StringSliceAdditionalSpecFns;

use crate::capture::{
    capture_of, capture_wf, finish_capture_spec, Capture, CaptureModel,
};
use crate::codec::{capture_ok, enc_capture, serialize_capture};
use crate::engine::{engine_wf, Engine};

verus! {

/// A finalized capture ready to be written out by an I/O layer: the file name
/// (UTF-8 bytes), the serialized bytes, and the structured capture itself.
pub struct CaptureFile {
    /// File name: the caller's path, a stamp suffix, and the `.opt` extension.
    pub name: Vec<u8>,
    /// Canonical serialized form of `capture`.
    pub data: Vec<u8>,
    /// The structured capture the data was serialized from.
    pub capture: Capture,
}

/// Decimal digits of `n`, most significant first.
pub open spec fn dec_digits(n: u64) -> Seq<u8>
    decreases n,
{
    if n < 10 {
        seq![(0x30 + n) as u8]
    } else {
        dec_digits(n / 10) + seq![(0x30 + n % 10) as u8]
    }
}

/// The capture file name: `<path>_<stamp>.opt` as UTF-8 bytes.
pub open spec fn capture_name_spec(path: Seq<u8>, stamp: u64) -> Seq<u8> {
    path + seq![0x5fu8] + dec_digits(stamp) + seq![0x2eu8, 0x6fu8, 0x70u8, 0x74u8]
}

/// Append the decimal digits of `n`.
fn push_digits(out: &mut Vec<u8>, n: u64)
    ensures
        final(out)@ == old(out)@ + dec_digits(n),
    decreases n,
{
    if n < 10 {
        out.push(0x30 + (n as u8));
        proof {
            assert(out@ =~= old(out)@ + dec_digits(n));
        }
    } else {
        push_digits(out, n / 10);
        out.push(0x30 + ((n % 10) as u8));
        proof {
            assert(out@ =~= old(out)@ + dec_digits(n));
        }
    }
}

/// Build the capture file name for `path` and `stamp`: the path itself, an
/// underscore, the decimal stamp, and the fixed `.opt` extension.
pub fn capture_file_name(path: &str, stamp: u64) -> (r: Vec<u8>)
    ensures
        r@ == capture_name_spec(path.spec_bytes(), stamp),
{
    let mut out = path.as_bytes_vec();
    out.push(0x5f);
    push_digits(&mut out, stamp);
    out.push(0x2e);
    out.push(0x6f);
    out.push(0x70);
    out.push(0x74);
    proof {
        assert(out@ =~= capture_name_spec(path.spec_bytes(), stamp));
    }
    out
}

/// A well-formed capture is serializable: every count fits its width in the
/// binary layout.
pub proof fn lemma_capture_wf_ok(c: CaptureModel)
    requires
        capture_wf(c),
    ensures
        capture_ok(c),
{
    if c.frames.len() > 0 {
        assert(c.frames[c.frames.len() - 1].number == c.frames.len());
    }
}

impl Engine {
    /// Stop the current capture session and produce the named artifact: the
    /// engine is drained to idle (open events force-closed at the stop stamp
    /// and flagged truncated), the capture is serialized into its canonical
    /// binary layout, and the file is named `<path>_<stamp>.opt` after the
    /// stop stamp. A stop without a recording session is a no-op that yields
    /// nothing; the I/O layer above writes `data` to `name`.
    pub fn stop_capture(&mut self, path: &str) -> (r: Option<CaptureFile>)
        requires
            engine_wf(old(self)@),
        ensures
            engine_wf(final(self)@),
            final(self)@ == finish_capture_spec(old(self)@).0,
            r is Some <==> (old(self)@.state is Recording && old(self)@.clock < u64::MAX),
            r matches Some(f) ==> {
                &&& f.capture@ == capture_of(old(self)@)
                &&& capture_wf(f.capture@)
                &&& f.data@ == enc_capture(capture_of(old(self)@))
                &&& f.name@ == capture_name_spec(path.spec_bytes(), old(self)@.clock)
            },
    {
        let stamp = self.clock;
        match self.finish_capture() {
            Option::None => None,
            Option::Some(capture) => {
                proof {
                    lemma_capture_wf_ok(capture@);
                }
                let data = serialize_capture(&capture);
                let name = capture_file_name(path, stamp);
                Some(CaptureFile { name, data, capture })
            },
        }
    }
}

} // verus!
