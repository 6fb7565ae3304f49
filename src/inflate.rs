//! Block-wise decoding of a raw deflate stream with a running Adler-32
//! checksum of the decoded bytes.
//!
//! An `Inflater` hands out one decoded block per step; a caller that
//! materialises the output writes each block as it comes. `inflate_validate`
//! runs the steps to the end without keeping any output.

use vstd::prelude::*;
use vstd::slice::slice_subrange;
use std::io::Read;
use adler32::RollingAdler32;
use flate2::bufread::DeflateDecoder;

verus! {

/// Number of decoded bytes asked of the decoder per step.
pub const BLOCK_SIZE: usize = 8192;

/// The Adler-32 modulus.
pub const ADLER32_BASE: u32 = 65521;

/// The Adler-32 value of no bytes.
pub const ADLER32_INITIAL: u32 = 1;

#[verifier::external_type_specification]
#[verifier::external_body]
#[verifier::reject_recursive_types(R)]
pub struct ExDeflateDecoder<R>(DeflateDecoder<R>);

/// Outcome of decoding one deflate stream.
#[derive(Clone, Copy, Debug, PartialEq, Eq, Structural)]
pub struct DeflateResult {
    pub size: usize,
    pub adler32: u32,
    pub success: bool,
}

/// The running Adler-32 value `h` after one more byte: the low half sums
/// the bytes, the high half sums the low half, both modulo 65521.
pub open spec fn adler32_step(h: u32, byte: u8) -> u32 {
    let a = (h % 0x10000 + byte) % (ADLER32_BASE as int);
    let b = (h / 0x10000 + a) % (ADLER32_BASE as int);
    (b * 0x10000 + a) as u32
}

/// The running Adler-32 value `h` after the bytes `s`.
pub open spec fn adler32_spec(h: u32, s: Seq<u8>) -> u32
    decreases s.len(),
{
    if s.len() == 0 {
        h
    } else {
        adler32_step(adler32_spec(h, s.drop_last()), s.last())
    }
}

/// A running Adler-32 value whose two halves are both reduced modulo 65521.
pub open spec fn adler32_state_ok(h: u32) -> bool {
    &&& h % 0x10000 < ADLER32_BASE
    &&& h / 0x10000 < ADLER32_BASE
}

/// Folding in two pieces in turn is folding in their concatenation.
pub proof fn lemma_adler32_concat(h: u32, s: Seq<u8>, t: Seq<u8>)
    ensures
        adler32_spec(adler32_spec(h, s), t) == adler32_spec(h, s + t),
    decreases t.len(),
{
    if t.len() == 0 {
        assert(s + t =~= s);
    } else {
        lemma_adler32_concat(h, s, t.drop_last());
        assert((s + t).drop_last() =~= s + t.drop_last());
    }
}

/// The bytes decoded from the deflate stream at the start of `input`;
/// `None` when `input` does not begin with one complete, valid stream.
pub uninterp spec fn inflate_output(input: Seq<u8>) -> Option<Seq<u8>>;

/// The number of input bytes that the decoder reports as consumed at the end
/// of the deflate stream at the start of `input`.
pub uninterp spec fn inflate_consumed(input: Seq<u8>) -> nat;

/// The bytes a decoder was created over.
pub uninterp spec fn decoder_input(d: DeflateDecoder<&[u8]>) -> Seq<u8>;

/// The decoded bytes a decoder has handed out so far.
pub uninterp spec fn decoder_output(d: DeflateDecoder<&[u8]>) -> Seq<u8>;

/// The decoder has reported the end of its stream.
pub uninterp spec fn decoder_ended(d: DeflateDecoder<&[u8]>) -> bool;

/// Relies on adler32::RollingAdler32::update_buffer, entered through
/// `from_value` and read back through `hash`: it folds `block` into the
/// running value `h` as the Adler-32 recurrence does, reducing both halves
/// modulo 65521.
#[verifier::external_body]
fn adler32_update(h: u32, block: &[u8]) -> (r: u32)
    requires
        adler32_state_ok(h),
    ensures
        r == adler32_spec(h, block@),
        adler32_state_ok(r),
{
    let mut state = RollingAdler32::from_value(h);
    state.update_buffer(block);
    state.hash()
}

/// Relies on flate2::bufread::DeflateDecoder::new: a decoder of the raw
/// deflate stream that starts at the first byte of `data`, with nothing
/// decoded yet.
#[verifier::external_body]
fn new_decoder<'a>(data: &'a [u8]) -> (r: DeflateDecoder<&'a [u8]>)
    ensures
        decoder_input(r) == data@,
        decoder_output(r) == Seq::<u8>::empty(),
        !decoder_ended(r),
{
    DeflateDecoder::new(data)
}

/// Relies on flate2::bufread::DeflateDecoder's `Read::read`: decodes at most
/// `buf.len()` further bytes of the stream into the front of `buf`. With a
/// non-empty `buf` it returns no bytes only at the end of a complete stream,
/// and fails on a corrupt or truncated one.
#[verifier::external_body]
fn read_decoded(decoder: &mut DeflateDecoder<&[u8]>, buf: &mut Vec<u8>) -> (r: Option<usize>)
    requires
        old(buf)@.len() > 0,
        !decoder_ended(*old(decoder)),
    ensures
        final(buf)@.len() == old(buf)@.len(),
        decoder_input(*final(decoder)) == decoder_input(*old(decoder)),
        match r {
            Some(n) => {
                &&& n <= old(buf)@.len()
                &&& decoder_output(*final(decoder)) == decoder_output(*old(decoder))
                    + final(buf)@.subrange(0, n as int)
                &&& decoder_ended(*final(decoder)) == (n == 0)
                &&& n == 0 ==> inflate_output(decoder_input(*old(decoder))) == Some(
                    decoder_output(*old(decoder)),
                )
                &&& inflate_output(decoder_input(*old(decoder))) matches Some(out)
                    ==> decoder_output(*final(decoder)).is_prefix_of(out)
            },
            None => inflate_output(decoder_input(*old(decoder))) is None,
        },
{
    decoder.read(buf.as_mut_slice()).ok()
}

/// Relies on flate2::bufread::DeflateDecoder::total_in: the number of input
/// bytes the decoder has consumed, at most all of them; at the end of the
/// stream, the stream's consumed length.
#[verifier::external_body]
fn consumed_input(decoder: &DeflateDecoder<&[u8]>) -> (r: u64)
    ensures
        r <= decoder_input(*decoder).len(),
        decoder_ended(*decoder) ==> r == inflate_consumed(decoder_input(*decoder)),
{
    decoder.total_in()
}

/// The outcome reported for a stream that is not valid deflate.
pub open spec fn is_failure(r: DeflateResult) -> bool {
    &&& !r.success
    &&& r.size == 0
    &&& r.adler32 == 0
}

/// The outcome of a stream that ended cleanly after `produced` decoded bytes
/// with running checksum `checksum`, having consumed `consumed` input bytes.
pub open spec fn end_of_stream(checksum: u32, produced: u64, consumed: u64) -> DeflateResult {
    if produced > 0 {
        DeflateResult { size: consumed as usize, adler32: checksum, success: true }
    } else {
        DeflateResult { size: 0, adler32: 0, success: false }
    }
}

/// The outcome of decoding the stream at the start of `input`: success when
/// it is one complete, valid stream with some output (whose length a `u64`
/// can count), reporting the consumed length and the output's checksum.
pub open spec fn inflate_result(input: Seq<u8>) -> DeflateResult {
    match inflate_output(input) {
        Some(out) => if 0 < out.len() <= u64::MAX {
            DeflateResult {
                size: inflate_consumed(input) as usize,
                adler32: adler32_spec(ADLER32_INITIAL, out),
                success: true,
            }
        } else {
            DeflateResult { size: 0, adler32: 0, success: false }
        },
        None => DeflateResult { size: 0, adler32: 0, success: false },
    }
}

impl DeflateResult {
    pub fn failure() -> (r: DeflateResult)
        ensures
            is_failure(r),
    {
        DeflateResult { size: 0, adler32: 0, success: false }
    }
}

/// Decides the outcome of a stream whose decoder reported its end: success
/// only when some output was produced, reporting the compressed length and
/// the checksum of the output.
pub fn finish_stream(checksum: u32, produced: u64, consumed: u64) -> (r: DeflateResult)
    ensures
        r == end_of_stream(checksum, produced, consumed),
{
    if produced > 0 {
        DeflateResult { size: consumed as usize, adler32: checksum, success: true }
    } else {
        DeflateResult::failure()
    }
}

/// One step of decoding.
pub enum InflateStep {
    /// A non-empty block of decoded bytes.
    Block(Vec<u8>),
    /// The stream ended, cleanly or not.
    Done(DeflateResult),
}

/// A deflate stream being decoded block by block.
pub struct Inflater<'a> {
    decoder: DeflateDecoder<&'a [u8]>,
    checksum: u32,
    produced: u64,
}

impl<'a> Inflater<'a> {
    /// The bytes being decoded, from the start of the stream.
    pub closed spec fn input(&self) -> Seq<u8> {
        decoder_input(self.decoder)
    }

    /// The decoded bytes handed out so far.
    pub closed spec fn output(&self) -> Seq<u8> {
        decoder_output(self.decoder)
    }

    /// Running Adler-32 value kept alongside the output.
    pub closed spec fn checksum_value(&self) -> u32 {
        self.checksum
    }

    /// Count of decoded bytes kept alongside the output.
    pub closed spec fn produced_count(&self) -> u64 {
        self.produced
    }

    pub closed spec fn ended(&self) -> bool {
        decoder_ended(self.decoder)
    }

    /// The running checksum and count describe the output so far, and the
    /// stream has not ended yet.
    pub open spec fn wf(&self) -> bool {
        &&& self.checksum_value() == adler32_spec(ADLER32_INITIAL, self.output())
        &&& adler32_state_ok(self.checksum_value())
        &&& self.produced_count() == self.output().len()
        &&& !self.ended()
        &&& self.input().len() <= usize::MAX
        &&& inflate_output(self.input()) matches Some(out) ==> self.output().is_prefix_of(out)
    }

    /// Starts decoding the stream at `offset` of `file_data`; `None` when
    /// the offset lies past the end of the data.
    pub fn new(file_data: &'a [u8], offset: usize) -> (r: Option<Inflater<'a>>)
        ensures
            r is Some <==> offset <= file_data@.len(),
            r matches Some(s) ==> {
                &&& s.wf()
                &&& s.input() == file_data@.skip(offset as int)
                &&& s.output() == Seq::<u8>::empty()
            },
    {
        if offset > file_data.len() {
            return None;
        }
        let rest = slice_subrange(file_data, offset, file_data.len());
        assert(rest@ =~= file_data@.skip(offset as int));
        let decoder = new_decoder(rest);
        let ghost e = Seq::<u8>::empty();
        assert(inflate_output(rest@) matches Some(out) ==> e.is_prefix_of(out));
        Some(Inflater { decoder, checksum: ADLER32_INITIAL, produced: 0 })
    }

    /// Decodes the next block, which continues the output; folds it into the
    /// checksum before handing it out. At the end of the stream, cleanly or
    /// on a decode error, reports the outcome of the whole stream.
    pub fn next_block(&mut self) -> (r: InflateStep)
        requires
            old(self).wf(),
        ensures
            final(self).input() == old(self).input(),
            match r {
                InflateStep::Block(b) => {
                    &&& 0 < b@.len() <= BLOCK_SIZE
                    &&& final(self).output() == old(self).output() + b@
                    &&& final(self).wf()
                },
                InflateStep::Done(res) => {
                    &&& res == inflate_result(old(self).input())
                    &&& res.success ==> res.size <= old(self).input().len()
                },
            },
    {
        let mut block: Vec<u8> = vec![0u8; BLOCK_SIZE];
        let ghost before = self.output();
        let n = match read_decoded(&mut self.decoder, &mut block) {
            Some(n) => n,
            None => return InflateStep::Done(DeflateResult::failure()),
        };
        if n == 0 {
            assert(block@.subrange(0, 0) =~= Seq::<u8>::empty());
            assert(before + Seq::<u8>::empty() =~= before);
            let consumed = consumed_input(&self.decoder);
            let res = finish_stream(self.checksum, self.produced, consumed);
            return InflateStep::Done(res);
        }
        if n as u64 > u64::MAX - self.produced {
            proof {
                if let Some(out) = inflate_output(self.input()) {
                    assert(self.output().len() <= out.len());
                }
            }
            return InflateStep::Done(DeflateResult::failure());
        }
        block.truncate(n);
        proof {
            lemma_adler32_concat(ADLER32_INITIAL, before, block@);
        }
        self.checksum = adler32_update(self.checksum, block.as_slice());
        self.produced = self.produced + n as u64;
        InflateStep::Block(block)
    }
}

/// Decodes the deflate stream at `offset` of `file_data` to its end without
/// keeping the output, to learn whether it is valid, how many compressed
/// bytes it spans and the Adler-32 checksum of what it decodes to.
pub fn inflate_validate(file_data: &[u8], offset: usize) -> (r: DeflateResult)
    ensures
        r == if offset <= file_data@.len() {
            inflate_result(file_data@.skip(offset as int))
        } else {
            DeflateResult { size: 0, adler32: 0, success: false }
        },
        r.success ==> r.size <= file_data@.len() - offset,
{
    let mut inflater = match Inflater::new(file_data, offset) {
        Some(s) => s,
        None => return DeflateResult::failure(),
    };
    loop
        invariant
            inflater.wf(),
            offset <= file_data@.len(),
            inflater.input() == file_data@.skip(offset as int),
        decreases u64::MAX - inflater.produced_count(),
    {
        match inflater.next_block() {
            InflateStep::Block(_) => {},
            InflateStep::Done(res) => {
                return res;
            },
        }
    }
}

} // verus!
