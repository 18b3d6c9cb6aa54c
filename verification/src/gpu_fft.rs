//! Plan of a Fourier transform that runs on a GPU.
//!
//! The transform is a Stockham radix-2 transform: pass `s` combines transforms
//! of `2^s` points to transforms of `2^(s + 1)` points, reads one of two
//! buffers and writes the other. The plan says how many passes there are, what
//! each of them is told, which buffer it reads, and where the result is found.
//! A driver that owns a device carries it out.

use crate::kernel::{div_up, quotient_up};
use crate::powers::{exact_log2, power_of_two, power_of_two_ordered};
use crate::stream::{append, filled};
use crate::types::{DspError, Fault, decimal, decimal_text, invalid};
use vstd::prelude::*;
use vstd::string::StringExecFns;

verus! {

/// Butterflies that a workgroup of the kernel computes.
pub const SHADER_WORKGROUP_SIZE: u32 = 64;

/// Bytes of what a pass is told: two words of four bytes.
pub const PARAMS_SIZE_BYTES: u32 = 8;

/// Bytes of a complex sample on the device.
pub const SAMPLE_SIZE_BYTES: u64 = 8;

/// Points of the largest transform.
pub const MAX_POINTS: usize = 65_536;

/// Whether `bytes` are the bytes of `word`, the least significant one first.
pub open spec fn little_endian(bytes: Seq<u8>, word: u32) -> bool {
    &&& bytes.len() == 4
    &&& bytes[0] + 256 * bytes[1] + 65_536 * bytes[2] + 16_777_216 * bytes[3] == word
}

/// Whether `bytes` are the bytes of `word`, the most significant one first.
pub open spec fn big_endian(bytes: Seq<u8>, word: u32) -> bool {
    &&& bytes.len() == 4
    &&& bytes[3] + 256 * bytes[2] + 65_536 * bytes[1] + 16_777_216 * bytes[0] == word
}

/// Whether `bytes` are those of the words `a` and `b`, in the order of one
/// machine or the other.
pub open spec fn words_laid_out(bytes: Seq<u8>, a: u32, b: u32) -> bool {
    &&& bytes.len() == PARAMS_SIZE_BYTES
    &&& ({
        ||| little_endian(bytes.subrange(0, 4), a) && little_endian(bytes.subrange(4, 8), b)
        ||| big_endian(bytes.subrange(0, 4), a) && big_endian(bytes.subrange(4, 8), b)
    })
}

/// The bytes of two words, as they lie in memory: `bytemuck::bytes_of` on an
/// array of the two. It reinterprets the array as bytes, so the words come in
/// order, and the bytes of each in the order of the machine, which is either
/// little-endian or big-endian.
#[verifier::external_body]
fn bytes_of_words(a: u32, b: u32) -> (bytes: Vec<u8>)
    ensures
        words_laid_out(bytes@, a, b),
{
    bytemuck::bytes_of(&[a, b]).to_vec()
}

/// A pass over the data.
#[derive(Debug, Clone, Copy, PartialEq, Eq, Structural)]
pub struct Pass {
    /// Whether the pass reads the first buffer and writes the second, rather
    /// than the other way round.
    pub reads_a: bool,
    /// Where what the pass is told starts, in bytes.
    pub params_offset: u32,
    /// Workgroups to start.
    pub workgroup_count: u32,
}

/// Plan of a transform.
#[derive(Debug, Clone, Copy, PartialEq, Eq, Structural)]
pub struct GpuFftPlan {
    /// Number of points.
    pub size: usize,
    /// Number of passes.
    pub log2_size: u32,
    /// Workgroups of a pass.
    pub workgroup_count: u32,
    /// Bytes of each buffer.
    pub buffer_bytes: u64,
    /// Whether the result is found in the first buffer.
    pub output_in_buf_a: bool,
    /// Bytes from what one pass is told to what the next one is told.
    pub params_stride: u32,
}

impl GpuFftPlan {
    /// The passes are as many as the number of points has factors of two, and
    /// the rest follows from them.
    pub open spec fn wf(self) -> bool {
        &&& 2 <= self.size <= MAX_POINTS
        &&& self.size == power_of_two(self.log2_size as nat)
        &&& 1 <= self.log2_size <= 16
        &&& self.workgroup_count == quotient_up(
            self.size as int / 2,
            SHADER_WORKGROUP_SIZE as int,
        )
        &&& self.buffer_bytes == self.size * SAMPLE_SIZE_BYTES
        &&& self.output_in_buf_a == (self.log2_size % 2 == 0)
        &&& self.params_stride >= PARAMS_SIZE_BYTES
        &&& self.params_stride * 16 <= u32::MAX
    }

    /// Why a transform of `size` points is not possible, where it is not.
    pub open spec fn refusal(size: usize) -> Option<Fault> {
        if size < 2 || (forall|m: nat| size != #[trigger] power_of_two(m)) {
            Some(
                Fault::InvalidParameter(
                    "GPU FFT size must be a power of two ≥ 2, got "@ + decimal(size as nat),
                ),
            )
        } else if size > MAX_POINTS {
            Some(
                Fault::InvalidParameter("GPU FFT size above 65536 needs a 3-stage decomposition"@),
            )
        } else {
            None
        }
    }

    /// Plans a transform of `size` points on a device that aligns what the
    /// passes are told to `alignment` bytes.
    pub fn new(size: usize, alignment: u32) -> (r: Result<Self, DspError>)
        requires
            alignment * 16 <= u32::MAX,
        ensures
            match r {
                Err(e) => Self::refusal(size) == Some(e@),
                Ok(p) => {
                    &&& Self::refusal(size) is None
                    &&& p.wf()
                    &&& p.size == size
                    &&& p.params_stride == (if alignment > PARAMS_SIZE_BYTES {
                        alignment
                    } else {
                        PARAMS_SIZE_BYTES
                    })
                },
            },
    {
        let log2_size: u32 = match Self::passes(size) {
            Ok(n) => n,
            Err(e) => {
                return Err(e);
            },
        };
        let params_stride: u32 = if alignment > PARAMS_SIZE_BYTES {
            alignment
        } else {
            PARAMS_SIZE_BYTES
        };
        Ok(
            GpuFftPlan {
                size,
                log2_size,
                workgroup_count: div_up(size / 2, SHADER_WORKGROUP_SIZE as usize) as u32,
                buffer_bytes: size as u64 * SAMPLE_SIZE_BYTES,
                output_in_buf_a: log2_size % 2 == 0,
                params_stride,
            },
        )
    }

    fn no_power_of_two(size: usize) -> (e: DspError)
        ensures
            e@ == Fault::InvalidParameter(
                "GPU FFT size must be a power of two ≥ 2, got "@ + decimal(size as nat),
            ),
    {
        DspError::InvalidParameter(
            String::from_str("GPU FFT size must be a power of two ≥ 2, got ")
                .concat(decimal_text(size as u64).as_str()),
        )
    }

    /// Number of passes of a transform of `size` points.
    pub fn passes(size: usize) -> (r: Result<u32, DspError>)
        ensures
            match r {
                Err(e) => Self::refusal(size) == Some(e@),
                Ok(n) => {
                    &&& Self::refusal(size) is None
                    &&& 1 <= n <= 16
                    &&& size == power_of_two(n as nat)
                },
            },
    {
        if size < 2 {
            return Err(Self::no_power_of_two(size));
        }
        match exact_log2(size as u64) {
            None => Err(Self::no_power_of_two(size)),
            Some(n) => {
                if size > MAX_POINTS {
                    return Err(
                        invalid("GPU FFT size above 65536 needs a 3-stage decomposition"),
                    );
                }
                proof {
                    assert(power_of_two(16) == 65_536) by {
                        reveal_with_fuel(power_of_two, 17);
                    }
                    if n > 16 {
                        power_of_two_ordered(17, n as nat);
                    }
                }
                Ok(n)
            },
        }
    }

    /// What pass `s` is told, out of `bytes`.
    pub open spec fn entry(self, bytes: Seq<u8>, s: int) -> Seq<u8> {
        bytes.subrange(s * self.params_stride, s * self.params_stride + self.params_stride)
    }

    /// Whether `entry` tells pass `s` its number and the number of points, with
    /// zeros behind that.
    pub open spec fn tells(self, entry: Seq<u8>, s: int) -> bool {
        &&& words_laid_out(entry.subrange(0, PARAMS_SIZE_BYTES as int), s as u32, self.size as u32)
        &&& forall|i: int| PARAMS_SIZE_BYTES <= i < self.params_stride ==> entry[i] == 0
    }

    /// What the passes are told, one entry for each.
    pub fn params_bytes(&self) -> (bytes: Vec<u8>)
        requires
            self.wf(),
        ensures
            bytes@.len() == self.log2_size * self.params_stride,
            forall|s: int|
                0 <= s < self.log2_size ==> self.tells(#[trigger] self.entry(bytes@, s), s),
    {
        let mut bytes: Vec<u8> = Vec::new();
        let mut s: u32 = 0;
        while s < self.log2_size
            invariant
                s <= self.log2_size,
                self.wf(),
                bytes@.len() == s * self.params_stride,
                forall|p: int| 0 <= p < s ==> self.tells(#[trigger] self.entry(bytes@, p), p),
            decreases self.log2_size - s,
        {
            let ghost before = bytes@;
            let ghost stride = self.params_stride as int;
            let words: Vec<u8> = bytes_of_words(s, self.size as u32);
            append(&mut bytes, words.as_slice());
            let rest: Vec<u8> = filled(0u8, (self.params_stride - PARAMS_SIZE_BYTES) as usize);
            append(&mut bytes, rest.as_slice());
            proof {
                assert((s + 1) * stride == s * stride + stride) by (nonlinear_arith);
                assert forall|p: int| 0 <= p <= s implies self.tells(
                    #[trigger] self.entry(bytes@, p),
                    p,
                ) by {
                    assert(0 <= p * stride) by (nonlinear_arith)
                        requires
                            0 <= p,
                            0 <= stride,
                    ;
                    if p < s {
                        assert(p * stride + stride <= s * stride) by (nonlinear_arith)
                            requires
                                p + 1 <= s,
                                0 <= stride,
                        ;
                        assert(self.entry(bytes@, p) =~= self.entry(before, p));
                    } else {
                        assert(self.entry(bytes@, p).subrange(0, 8) =~= words@);
                    }
                }
            }
            s = s + 1;
        }
        bytes
    }

    /// The pass with the number `s`.
    pub fn pass(&self, s: u32) -> (r: Pass)
        requires
            self.wf(),
            s < self.log2_size,
        ensures
            r.reads_a == (s % 2 == 0),
            r.params_offset == s * self.params_stride,
            r.workgroup_count == self.workgroup_count,
    {
        assert(s * self.params_stride <= 16 * self.params_stride) by (nonlinear_arith)
            requires
                s <= 16,
                0 <= self.params_stride,
        ;
        Pass {
            reads_a: s % 2 == 0,
            params_offset: s * self.params_stride,
            workgroup_count: self.workgroup_count,
        }
    }
}

/// Which buffer holds the data before pass `s`, or, for the number of passes,
/// the result: the first one at the start, then the one that the pass before
/// has written.
pub open spec fn data_in_a(s: nat) -> bool
    decreases s,
{
    if s == 0 {
        true
    } else {
        !data_in_a((s - 1) as nat)
    }
}

/// Each pass reads the buffer that the pass before has written, and the result
/// is where the plan says.
pub proof fn passes_chain(p: GpuFftPlan, s: u32)
    requires
        p.wf(),
        s <= p.log2_size,
    ensures
        s < p.log2_size ==> data_in_a(s as nat) == (s % 2 == 0),
        s == p.log2_size ==> data_in_a(s as nat) == p.output_in_buf_a,
    decreases s,
{
    if s > 0 {
        passes_chain(p, (s - 1) as u32);
    }
}

/// The workgroups of a pass cover every butterfly, and no workgroup is idle.
pub proof fn workgroups_cover(p: GpuFftPlan)
    requires
        p.wf(),
    ensures
        p.workgroup_count * SHADER_WORKGROUP_SIZE >= p.size / 2,
        (p.workgroup_count - 1) * SHADER_WORKGROUP_SIZE < p.size / 2,
{
}

} // verus!
