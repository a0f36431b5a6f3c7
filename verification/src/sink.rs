//! The positioned byte sink that every serializer writes through.
//!
//! A sink only ever grows, and its reported position is the count of bytes
//! written so far; offsets captured from it therefore always point at the
//! bytes that were emitted at capture time.

use vstd::prelude::*;
use vstd::string::StringSliceAdditionalSpecFns;

use crate::utils::varint32_bytes;
use crate::utils::write_var_i32;

verus! {

/// A write-only byte sink that reports its current offset.
pub trait PositionedWrite: Sized {
    /// All bytes written to the sink so far.
    spec fn sunk(&self) -> Seq<u8>;

    /// Well-formedness of the sink's bookkeeping.
    spec fn wf(&self) -> bool;

    /// Appends `buf` to the sink.
    fn write_all(&mut self, buf: &[u8])
        requires
            old(self).wf(),
        ensures
            final(self).wf(),
            final(self).sunk() == old(self).sunk() + buf@,
    ;

    /// The current offset: the number of bytes written so far.
    fn get_position(&self) -> (r: u64)
        requires
            self.wf(),
        ensures
            r as nat == self.sunk().len(),
    ;
}

/// An in-memory sink: a byte vector together with a running position counter.
pub struct WriteWrapper {
    /// Number of bytes written so far.
    pub position: u64,
    /// The bytes themselves.
    pub writer: Vec<u8>,
}

impl WriteWrapper {
    /// Wraps an (empty) byte vector into a sink positioned at zero.
    pub fn new(writer: Vec<u8>) -> (r: WriteWrapper)
        requires
            writer@.len() == 0,
        ensures
            r.wf(),
            r.sunk() == writer@,
            r.position == 0,
    {
        WriteWrapper { position: 0, writer }
    }
}

impl PositionedWrite for WriteWrapper {
    open spec fn sunk(&self) -> Seq<u8> {
        self.writer@
    }

    open spec fn wf(&self) -> bool {
        self.position as nat == self.writer@.len()
    }

    fn write_all(&mut self, buf: &[u8]) {
        let n = buf.len();
        let mut i: usize = 0;
        while i < n
            invariant
                n == buf@.len(),
                i <= n,
                self.writer@ == old(self).writer@ + buf@.take(i as int),
                self.position == old(self).position,
            decreases n - i,
        {
            self.writer.push(buf[i]);
            i = i + 1;
            proof {
                assert(self.writer@ =~= old(self).writer@ + buf@.take(i as int));
            }
        }
        proof {
            assert(buf@.take(n as int) =~= buf@);
        }
        let total: usize = self.writer.len();
        assert(self.position + n as u64 == total);
        self.position = self.position + n as u64;
    }

    fn get_position(&self) -> (r: u64) {
        self.position
    }
}

/// A record with a fixed serialized form that can be written to a sink.
pub trait Serializable: Sized {
    /// The record's exact serialized bytes.
    spec fn record_bytes(&self) -> Seq<u8>;

    /// Well-formedness needed to emit the record.
    spec fn serial_wf(&self) -> bool;

    /// Writes the record to `file`.
    fn serialize<W: PositionedWrite>(&self, file: &mut W)
        requires
            old(file).wf(),
            self.serial_wf(),
        ensures
            final(file).wf(),
            final(file).sunk() == old(file).sunk() + self.record_bytes(),
    ;
}

/// The sink's reported position is always the total number of bytes
/// emitted so far: the counter and the byte vector never drift apart.
pub proof fn lemma_position_is_length(w: WriteWrapper)
    requires
        w.wf(),
    ensures
        w.position == w.sunk().len(),
{
}

/// Emits a string frame: the byte length as a zig-zag varint, then the bytes.
pub open spec fn str_frame(id: Seq<u8>) -> Seq<u8> {
    varint32_bytes(id.len() as i32) + id
}

/// Writes the varint-length-prefixed form of `s` to `file`.
pub fn write_str<W: PositionedWrite>(file: &mut W, s: &str)
    requires
        old(file).wf(),
        s.spec_bytes().len() <= i32::MAX,
    ensures
        final(file).wf(),
        final(file).sunk() == old(file).sunk() + str_frame(s.spec_bytes()),
{
    let bytes = s.as_bytes();
    let len: i32 = bytes.len() as i32;
    let mut prefix: Vec<u8> = Vec::new();
    write_var_i32(len, &mut prefix);
    file.write_all(prefix.as_slice());
    file.write_all(bytes);
    proof {
        assert(file.sunk() =~= old(file).sunk() + str_frame(s.spec_bytes()));
    }
}

} // verus!
