//! The decode entry point.
//!
//! A [`Demangler`] owns a fixed-capacity input buffer for mangled bytes and
//! a fixed-capacity output buffer behind a truncating sink. One call to
//! [`Demangler::demangle`] interprets a prefix of the input buffer as a
//! mangled C++ symbol, decodes it, writes the decoded text through the sink,
//! and reports how many output bytes are valid. Every failure — empty input,
//! a name the grammar rejects, a fault while the decoded tree is serialized —
//! collapses to a returned length of zero.

use vstd::prelude::*;

use crate::sink::WriteDemangled;
use crate::sink::fitting_len;
use crate::sink::written_contents;
use crate::DEMANGLED_CAPACITY;
use crate::MANGLED_CAPACITY;

verus! {

/// The decoded textual form of a mangled byte sequence, under the fixed
/// formatting choices of this library (return types suppressed, literal
/// types in expressions hidden): `Some` of the UTF-8 bytes of the text when
/// the bytes parse under the mangling grammar and serialize cleanly, `None`
/// otherwise. The result depends on the input bytes alone.
pub uninterp spec fn demangled_of(mangled: Seq<u8>) -> Option<Seq<u8>>;

/// Relies on `cpp_demangle::Symbol::new` and
/// `cpp_demangle::Symbol::demangle_with_options`: parsing the mangled bytes
/// and formatting the decoded symbol are deterministic in those bytes, and
/// both report failure through their `Result`.
#[verifier::external_body]
fn decode_symbol(mangled: &Vec<u8>, len: usize) -> (r: Option<Vec<u8>>)
    requires
        len <= mangled@.len(),
    ensures
        r is Some <==> demangled_of(mangled@.take(len as int)) is Some,
        r is Some ==> r->0@ == demangled_of(mangled@.take(len as int))->0,
{
    let symbol = match cpp_demangle::Symbol::new(&mangled[..len]) {
        Ok(symbol) => symbol,
        Err(_) => return None,
    };
    let options = cpp_demangle::DemangleOptions::new()
        .no_return_type()
        .hide_expression_literal_types();
    match symbol.demangle_with_options(&options) {
        Ok(text) => Some(text.into_bytes()),
        Err(_) => None,
    }
}

/// The length one decode call reports for `input` against an output buffer
/// of length `cap`: zero for empty or undecodable input, and the decoded
/// text's length capped at `cap` otherwise.
pub open spec fn decoded_len(input: Seq<u8>, cap: int) -> int {
    if input.len() == 0 {
        0
    } else {
        match demangled_of(input) {
            Option::Some(text) => vstd::math::min(text.len() as int, cap),
            Option::None => 0,
        }
    }
}

/// The output buffer after one decode call on `input`, starting from buffer
/// contents `out`: untouched when nothing was decoded, and otherwise the
/// fitting prefix of the decoded text followed by the old bytes past it.
pub open spec fn decoded_output(input: Seq<u8>, out: Seq<u8>) -> Seq<u8> {
    if input.len() == 0 {
        out
    } else {
        match demangled_of(input) {
            Option::Some(text) => {
                let n = vstd::math::min(text.len() as int, out.len() as int);
                text.take(n) + out.skip(n)
            },
            Option::None => out,
        }
    }
}

/// Terminal outcome of an unrecoverable internal fault. The foreign-call
/// boundary has no recoverable-exception channel: on its original
/// no-unwind target the whole execution unit stops, and a host with
/// ordinary error propagation surfaces the fault as the boundary's single
/// failure signal instead — zero bytes of valid output.
pub fn panic() -> (n: usize)
    ensures
        n == 0,
{
    0
}

/// A decode call never changes the length of the output buffer.
pub proof fn lemma_decoded_output_len(input: Seq<u8>, out: Seq<u8>)
    ensures
        decoded_output(input, out).len() == out.len(),
{
}

/// An empty declared input decodes to nothing: the reported length is zero
/// and the output buffer keeps every one of its bytes.
pub proof fn lemma_decode_empty_input(input: Seq<u8>, out: Seq<u8>)
    requires
        input.len() == 0,
    ensures
        decoded_len(input, out.len() as int) == 0,
        decoded_output(input, out) == out,
{
}

/// Input that does not parse under the mangling grammar decodes to nothing,
/// whatever its length, and leaves the output buffer unchanged.
pub proof fn lemma_decode_unparsed_input(input: Seq<u8>, out: Seq<u8>)
    requires
        demangled_of(input) is None,
    ensures
        decoded_len(input, out.len() as int) == 0,
        decoded_output(input, out) == out,
{
}

/// Valid input whose decoded text fits the output buffer is reported with
/// the text's exact length, and the buffer then starts with exactly that
/// text while the bytes past it keep their old values.
pub proof fn lemma_decode_exact(input: Seq<u8>, out: Seq<u8>)
    requires
        input.len() > 0,
        demangled_of(input) is Some,
        demangled_of(input)->0.len() <= out.len(),
    ensures
        decoded_len(input, out.len() as int) == demangled_of(input)->0.len(),
        decoded_output(input, out).take(demangled_of(input)->0.len() as int)
            == demangled_of(input)->0,
        decoded_output(input, out).skip(demangled_of(input)->0.len() as int)
            == out.skip(demangled_of(input)->0.len() as int),
{
    let text = demangled_of(input)->0;
    let n = text.len() as int;
    assert(decoded_output(input, out).take(n) =~= text);
    assert(decoded_output(input, out).skip(n) =~= out.skip(n));
}

/// Decoded text at least as long as the output buffer is cut at the
/// buffer's capacity: the call reports the full capacity and the buffer
/// holds exactly the first `out.len()` bytes of the untruncated text,
/// even if that prefix ends in the middle of a multi-byte character.
pub proof fn lemma_decode_truncated(input: Seq<u8>, out: Seq<u8>)
    requires
        input.len() > 0,
        demangled_of(input) is Some,
        demangled_of(input)->0.len() >= out.len(),
    ensures
        decoded_len(input, out.len() as int) == out.len(),
        decoded_output(input, out) == demangled_of(input)->0.take(out.len() as int),
{
    let text = demangled_of(input)->0;
    assert(decoded_output(input, out) =~= text.take(out.len() as int));
}

/// Decoding is idempotent: a second decode of the same input, run over the
/// output buffer the first decode left behind, reports the same length and
/// leaves the buffer exactly as the first decode did.
pub proof fn lemma_decode_idempotent(input: Seq<u8>, out: Seq<u8>)
    ensures
        decoded_len(input, decoded_output(input, out).len() as int)
            == decoded_len(input, out.len() as int),
        decoded_output(input, decoded_output(input, out)) == decoded_output(input, out),
{
    lemma_decoded_output_len(input, out);
    if input.len() > 0 && demangled_of(input) is Some {
        let text = demangled_of(input)->0;
        let n = vstd::math::min(text.len() as int, out.len() as int);
        let once = decoded_output(input, out);
        assert(once.skip(n) =~= out.skip(n));
        assert(decoded_output(input, once) =~= once);
    }
}

/// One decoding unit: the staging buffer for mangled bytes and the
/// truncating sink over the output buffer. Each unit owns its own private
/// buffer pair; nothing is shared between units.
pub struct Demangler {
    mangled: Vec<u8>,
    out: WriteDemangled,
}

impl Demangler {
    /// The bytes of the input buffer.
    pub closed spec fn mangled_view(self) -> Seq<u8> {
        self.mangled@
    }

    /// The bytes of the output buffer.
    pub closed spec fn demangled_view(self) -> Seq<u8> {
        self.out.contents()
    }

    /// Both buffers hold exactly their fixed capacities and the sink's
    /// cursor is in bounds.
    pub closed spec fn wf(self) -> bool {
        &&& self.mangled@.len() == MANGLED_CAPACITY
        &&& self.out.wf()
        &&& self.out.contents().len() == DEMANGLED_CAPACITY
    }

    /// A fresh unit with both buffers zero-filled.
    pub fn new() -> (unit: Demangler)
        ensures
            unit.wf(),
            unit.mangled_view().len() == MANGLED_CAPACITY,
            unit.demangled_view().len() == DEMANGLED_CAPACITY,
            forall|i: int| 0 <= i < MANGLED_CAPACITY ==> unit.mangled_view()[i] == 0u8,
            forall|i: int| 0 <= i < DEMANGLED_CAPACITY ==> unit.demangled_view()[i] == 0u8,
    {
        let mut mangled: Vec<u8> = Vec::new();
        let mut i: usize = 0;
        while i < MANGLED_CAPACITY
            invariant
                i <= MANGLED_CAPACITY,
                mangled@.len() == i,
                forall|j: int| 0 <= j < i ==> mangled@[j] == 0u8,
            decreases MANGLED_CAPACITY - i,
        {
            mangled.push(0u8);
            i = i + 1;
        }
        Demangler { mangled, out: WriteDemangled::new(DEMANGLED_CAPACITY) }
    }

    /// The input buffer that callers stage mangled bytes in (through
    /// [`Demangler::write_mangled`]). Its address is stable for the life
    /// of the unit.
    pub fn mangled_buffer(&self) -> (buf: &Vec<u8>)
        ensures
            buf@ == self.mangled_view(),
    {
        &self.mangled
    }

    /// The capacity of the input buffer: no caller may declare a longer
    /// input than this.
    pub fn mangled_buffer_len(&self) -> (n: usize)
        ensures
            n == MANGLED_CAPACITY,
    {
        MANGLED_CAPACITY
    }

    /// The output buffer that decoded text lands in. After a call of
    /// [`Demangler::demangle`] that returned `n > 0`, its first `n` bytes
    /// hold the decoded text; bytes past `n` are stale.
    pub fn demangled_buffer(&self) -> (buf: &Vec<u8>)
        ensures
            buf@ == self.demangled_view(),
    {
        self.out.buffer()
    }

    /// Stage `data` at the start of the input buffer, leaving the bytes
    /// past it as they were.
    pub fn write_mangled(&mut self, data: &Vec<u8>)
        requires
            old(self).wf(),
            data@.len() <= MANGLED_CAPACITY,
        ensures
            final(self).wf(),
            final(self).mangled_view()
                == data@ + old(self).mangled_view().skip(data@.len() as int),
            final(self).demangled_view() == old(self).demangled_view(),
    {
        let ghost orig = *self;
        let mut i: usize = 0;
        while i < data.len()
            invariant
                orig.wf(),
                i <= data@.len(),
                data@.len() <= MANGLED_CAPACITY,
                self.out == orig.out,
                self.mangled@.len() == MANGLED_CAPACITY,
                forall|j: int| 0 <= j < i ==> self.mangled@[j] == data@[j],
                forall|j: int|
                    i <= j < MANGLED_CAPACITY ==> self.mangled@[j] == orig.mangled_view()[j],
            decreases data@.len() - i,
        {
            self.mangled.set(i, data[i]);
            i = i + 1;
        }
        proof {
            assert(self.mangled@ =~= data@ + orig.mangled_view().skip(data@.len() as int));
        }
    }

    /// Decode the first `mangled_len` bytes of the input buffer and report
    /// how many bytes of decoded text now stand at the start of the output
    /// buffer. Zero means nothing was decoded: the input was empty, did not
    /// parse, or failed to serialize, and the output buffer is unchanged.
    /// Text longer than the output buffer is silently cut at its capacity.
    pub fn demangle(&mut self, mangled_len: usize) -> (n: usize)
        requires
            old(self).wf(),
            mangled_len <= MANGLED_CAPACITY,
        ensures
            final(self).wf(),
            n <= DEMANGLED_CAPACITY,
            final(self).mangled_view() == old(self).mangled_view(),
            n == decoded_len(
                old(self).mangled_view().take(mangled_len as int),
                DEMANGLED_CAPACITY as int,
            ),
            final(self).demangled_view() == decoded_output(
                old(self).mangled_view().take(mangled_len as int),
                old(self).demangled_view(),
            ),
    {
        let ghost input = self.mangled@.take(mangled_len as int);
        if mangled_len == 0 {
            return 0;
        }
        match decode_symbol(&self.mangled, mangled_len) {
            Option::None => 0,
            Option::Some(text) => {
                let ghost spec_text = demangled_of(input)->0;
                self.out.reset();
                self.out.write_string(&text);
                proof {
                    let fit = fitting_len(spec_text, 0, DEMANGLED_CAPACITY as int);
                    assert(written_contents(old(self).demangled_view(), 0, spec_text)
                        =~= spec_text.take(fit)
                        + old(self).demangled_view().skip(fit));
                }
                self.out.written()
            },
        }
    }
}

} // verus!
