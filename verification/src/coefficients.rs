use vstd::prelude::*;
use vstd::arithmetic::div_mod::lemma_fundamental_div_mod_converse;
use vstd::arithmetic::power2::{lemma2_to64, lemma_pow2_pos, lemma_pow2_strictly_increases, pow2};
use vstd::bits::{lemma_u64_shl_is_mul, lemma_u64_shr_is_div};

verus! {

/// Largest fixed-point precision a coefficient table may use.
pub const MAX_PRECISION: u32 = 30;

/// Upper bound on the sum of weight magnitudes in one record.  It keeps the
/// 64-bit accumulator of the convolution kernels far from overflow: the
/// accumulated magnitude stays below `65535 * MAX_ABS_SUM < 2^48`.
pub const MAX_ABS_SUM: i64 = 0x1_0000_0000;

/// Magnitude of an integer.
pub open spec fn abs_val(x: int) -> int {
    if x < 0 {
        -x
    } else {
        x
    }
}

/// Signed sum of a record's weights.
pub open spec fn sum_weights(ws: Seq<i32>) -> int
    decreases ws.len(),
{
    if ws.len() == 0 {
        0
    } else {
        sum_weights(ws.drop_last()) + ws.last()
    }
}

/// Sum of the magnitudes of a record's weights.
pub open spec fn sum_abs(ws: Seq<i32>) -> int
    decreases ws.len(),
{
    if ws.len() == 0 {
        0
    } else {
        sum_abs(ws.drop_last()) + abs_val(ws.last() as int)
    }
}

/// Dot product of the weights `ws` against the samples of `vals` starting at
/// index `start`: `sum over j of vals[start + j] * ws[j]`.
pub open spec fn weighted_sum(vals: Seq<int>, start: int, ws: Seq<i32>) -> int
    decreases ws.len(),
{
    if ws.len() == 0 {
        0
    } else {
        weighted_sum(vals, start, ws.drop_last()) + vals[start + ws.len() - 1] * ws.last()
    }
}

/// The accumulator of the scalar convolution, shifted down by the precision
/// and clamped to the unsigned 16-bit channel range.
pub open spec fn clip_spec(v: int, p: nat) -> int {
    let s = v / pow2(p) as int;
    if s < 0 {
        0
    } else if s > 65535 {
        65535
    } else {
        s
    }
}

/// One destination channel of the scalar convolution reference: rounding bias
/// `2^(p-1)` plus the weighted sum of the source samples, shifted and clamped.
pub open spec fn conv_channel_spec(vals: Seq<int>, start: int, ws: Seq<i32>, p: nat) -> int {
    clip_spec(pow2((p - 1) as nat) as int + weighted_sum(vals, start, ws), p)
}

pub proof fn lemma_sum_abs_nonneg(ws: Seq<i32>)
    ensures
        sum_abs(ws) >= 0,
    decreases ws.len(),
{
    if ws.len() > 0 {
        lemma_sum_abs_nonneg(ws.drop_last());
    }
}

/// A prefix of a record never weighs more than the whole record.
pub proof fn lemma_sum_abs_take_le(ws: Seq<i32>, j: int)
    requires
        0 <= j <= ws.len(),
    ensures
        sum_abs(ws.take(j)) <= sum_abs(ws),
    decreases ws.len(),
{
    if j == ws.len() {
        assert(ws.take(j) =~= ws);
    } else {
        assert(ws.take(j) =~= ws.drop_last().take(j));
        lemma_sum_abs_take_le(ws.drop_last(), j);
    }
}

/// The signed sum of weights never exceeds the sum of their magnitudes.
pub proof fn lemma_sum_le_sum_abs(ws: Seq<i32>)
    ensures
        abs_val(sum_weights(ws)) <= sum_abs(ws),
    decreases ws.len(),
{
    if ws.len() > 0 {
        lemma_sum_le_sum_abs(ws.drop_last());
    }
}

/// When every sample in the window lies in `[0, m]`, the weighted sum lies in
/// `[-m * sum_abs(ws), m * sum_abs(ws)]`.
pub proof fn lemma_weighted_sum_bound(vals: Seq<int>, start: int, ws: Seq<i32>, m: int)
    requires
        m >= 0,
        start >= 0,
        start + ws.len() <= vals.len(),
        forall|k: int| start <= k < start + ws.len() ==> 0 <= #[trigger] vals[k] <= m,
    ensures
        -(m * sum_abs(ws)) <= weighted_sum(vals, start, ws) <= m * sum_abs(ws),
    decreases ws.len(),
{
    if ws.len() == 0 {
    } else {
        lemma_weighted_sum_bound(vals, start, ws.drop_last(), m);
        lemma_sum_abs_nonneg(ws.drop_last());
        let v = vals[start + ws.len() - 1];
        let w = ws.last() as int;
        assert(-(m * abs_val(w)) <= v * w <= m * abs_val(w)) by (nonlinear_arith)
            requires
                0 <= v <= m,
        ;
        assert(m * sum_abs(ws) == m * sum_abs(ws.drop_last()) + m * abs_val(w)) by (nonlinear_arith)
            requires
                sum_abs(ws) == sum_abs(ws.drop_last()) + abs_val(w),
        ;
    }
}

/// When every sample in the window equals `m`, the weighted sum is exactly
/// `m` times the signed sum of the weights.
pub proof fn lemma_weighted_sum_const(vals: Seq<int>, start: int, ws: Seq<i32>, m: int)
    requires
        start >= 0,
        start + ws.len() <= vals.len(),
        forall|k: int| start <= k < start + ws.len() ==> #[trigger] vals[k] == m,
    ensures
        weighted_sum(vals, start, ws) == m * sum_weights(ws),
    decreases ws.len(),
{
    if ws.len() == 0 {
        assert(m * 0 == 0) by (nonlinear_arith);
    } else {
        lemma_weighted_sum_const(vals, start, ws.drop_last(), m);
        let w = ws.last() as int;
        assert(m * sum_weights(ws) == m * sum_weights(ws.drop_last()) + m * w) by (nonlinear_arith)
            requires
                sum_weights(ws) == sum_weights(ws.drop_last()) + w,
        ;
    }
}

/// Saturation: a window of all-maximum samples convolved with any record
/// whose weights sum to `2^p` produces exactly the maximum channel value; in
/// particular every non-negative filter saturates, and none overshoots.
pub proof fn lemma_saturation_max(vals: Seq<int>, start: int, ws: Seq<i32>, p: nat)
    requires
        1 <= p <= MAX_PRECISION,
        start >= 0,
        start + ws.len() <= vals.len(),
        sum_weights(ws) == pow2(p),
        forall|k: int| start <= k < start + ws.len() ==> #[trigger] vals[k] == 65535,
    ensures
        conv_channel_spec(vals, start, ws, p) == 65535,
{
    lemma_weighted_sum_const(vals, start, ws, 65535);
    lemma_pow2_pos(p);
    lemma_pow2_strictly_increases((p - 1) as nat, p);
    let d = pow2(p) as int;
    let r = pow2((p - 1) as nat) as int;
    assert(65535 * d + r == 65535 * d + r);
    lemma_fundamental_div_mod_converse(65535 * d + r, d, 65535, r);
}

/// Whatever the accumulator holds, the clipped result is a valid channel
/// value.
pub proof fn lemma_clip_range(v: int, p: nat)
    ensures
        0 <= clip_spec(v, p) <= 65535,
{
}

/// A record holding the single weight `2^p` at source index `start`
/// reproduces the sample at `start` exactly.
pub proof fn lemma_identity_record(vals: Seq<int>, start: int, ws: Seq<i32>, p: nat)
    requires
        1 <= p <= MAX_PRECISION,
        start >= 0,
        start < vals.len(),
        ws.len() == 1,
        ws[0] == pow2(p),
        0 <= vals[start] <= 65535,
    ensures
        conv_channel_spec(vals, start, ws, p) == vals[start],
{
    assert(ws.drop_last().len() == 0);
    assert(weighted_sum(vals, start, ws.drop_last()) == 0);
    assert(weighted_sum(vals, start, ws) == vals[start] * pow2(p));
    lemma_pow2_pos(p);
    lemma_pow2_strictly_increases((p - 1) as nat, p);
    let d = pow2(p) as int;
    let r = pow2((p - 1) as nat) as int;
    lemma_fundamental_div_mod_converse(vals[start] * d + r, d, vals[start], r);
}

/// One output position's coefficient record: the first source index of its
/// support and the quantized signed weights.
pub struct CoefficientsI32Chunk {
    pub start: u32,
    pub values: Vec<i32>,
}

/// A complete per-axis coefficient table: one record per output position, a
/// shared fixed-point precision, and the source size the records index into.
pub struct Normalizer32 {
    chunks: Vec<CoefficientsI32Chunk>,
    precision: u32,
    src_size: u32,
}

impl Normalizer32 {
    /// What a single well-formed record promises: a non-empty window that
    /// lies inside the source, weights that sum to exactly `2^precision`,
    /// and a bounded total magnitude.
    pub open spec fn chunk_wf(c: CoefficientsI32Chunk, precision: u32, src_size: u32) -> bool {
        &&& 1 <= c.values@.len()
        &&& c.start + c.values@.len() <= src_size
        &&& sum_weights(c.values@) == pow2(precision as nat)
        &&& sum_abs(c.values@) <= MAX_ABS_SUM
    }

    pub closed spec fn spec_chunks(self) -> Seq<CoefficientsI32Chunk> {
        self.chunks@
    }

    pub closed spec fn spec_precision(self) -> u32 {
        self.precision
    }

    pub closed spec fn spec_src_size(self) -> u32 {
        self.src_size
    }

    /// Well-formedness of the whole table.
    pub closed spec fn wf(self) -> bool {
        &&& 1 <= self.precision <= MAX_PRECISION
        &&& forall|i: int|
            0 <= i < self.chunks@.len() ==> Self::chunk_wf(
                #[trigger] self.chunks@[i],
                self.precision,
                self.src_size,
            )
    }

    /// Validates and wraps a coefficient table.  Succeeds exactly when the
    /// precision is in range and every record is well formed.
    #[verifier::loop_isolation(false)]
    pub fn new(chunks: Vec<CoefficientsI32Chunk>, precision: u32, src_size: u32) -> (r: Option<
        Normalizer32,
    >)
        ensures
            match r {
                Some(n) => {
                    &&& n.wf()
                    &&& n.spec_chunks() == chunks@
                    &&& n.spec_precision() == precision
                    &&& n.spec_src_size() == src_size
                },
                None => !({
                    &&& 1 <= precision <= MAX_PRECISION
                    &&& forall|i: int|
                        0 <= i < chunks@.len() ==> Self::chunk_wf(
                            #[trigger] chunks@[i],
                            precision,
                            src_size,
                        )
                }),
            },
    {
        if precision < 1 || precision > MAX_PRECISION {
            return None;
        }
        let target: i64 = pow2_i64(precision);
        let n = chunks.len();
        for i in 0..n
            invariant
                n == chunks@.len(),
                1 <= precision <= MAX_PRECISION,
                target == pow2(precision as nat),
                forall|k: int|
                    0 <= k < i ==> Self::chunk_wf(#[trigger] chunks@[k], precision, src_size),
        {
            let chunk = &chunks[i];
            let len = chunk.values.len();
            if len < 1 {
                return None;
            }
            if len as u64 > src_size as u64 || chunk.start as u64 > src_size as u64 - len as u64 {
                assert(!Self::chunk_wf(chunks@[i as int], precision, src_size));
                return None;
            }
            let mut sum: i64 = 0;
            let mut abs_sum: i64 = 0;
            for j in 0..len
                invariant
                    len == chunk.values@.len(),
                    sum == sum_weights(chunk.values@.take(j as int)),
                    abs_sum == sum_abs(chunk.values@.take(j as int)),
                    abs_val(sum as int) <= abs_sum,
                    abs_sum <= MAX_ABS_SUM,
            {
                let w = chunk.values[j];
                let wa: i64 = if w < 0 {
                    -(w as i64)
                } else {
                    w as i64
                };
                proof {
                    assert(chunk.values@.take(j + 1).drop_last() =~= chunk.values@.take(j as int));
                    assert(chunk.values@.take(j + 1).last() == chunk.values@[j as int]);
                }
                if abs_sum + wa > MAX_ABS_SUM {
                    proof {
                        assert(sum_abs(chunk.values@.take(j + 1)) == abs_sum + wa);
                        lemma_sum_abs_take_le(chunk.values@, j + 1);
                        assert(sum_abs(chunk.values@) > MAX_ABS_SUM);
                        assert(!Self::chunk_wf(chunks@[i as int], precision, src_size));
                    }
                    return None;
                }
                proof {
                    lemma_sum_le_sum_abs(chunk.values@.take(j + 1));
                }
                sum = sum + w as i64;
                abs_sum = abs_sum + wa;
            }
            proof {
                assert(chunk.values@.take(len as int) =~= chunk.values@);
            }
            if sum != target {
                assert(!Self::chunk_wf(chunks@[i as int], precision, src_size));
                return None;
            }
        }
        Some(Normalizer32 { chunks, precision, src_size })
    }

    /// The records, one per output position.
    pub fn chunks(&self) -> (r: &Vec<CoefficientsI32Chunk>)
        ensures
            r@ == self.spec_chunks(),
    {
        &self.chunks
    }

    /// The shared fixed-point precision.
    pub fn precision(&self) -> (r: u32)
        ensures
            r == self.spec_precision(),
    {
        self.precision
    }

    /// The source size the records index into.
    pub fn src_size(&self) -> (r: u32)
        ensures
            r == self.spec_src_size(),
    {
        self.src_size
    }

    /// The accumulator's rounding bias, `2^(precision - 1)`.
    pub open spec fn spec_rounding_bias(self) -> int {
        pow2((self.spec_precision() - 1) as nat) as int
    }

    /// A well-formed table's precision lies in the legal range.
    pub proof fn lemma_precision_range(&self)
        requires
            self.wf(),
        ensures
            1 <= self.spec_precision() <= MAX_PRECISION,
    {
    }

    /// Every record of a well-formed table is itself well formed.
    pub proof fn lemma_chunk_wf(&self, i: int)
        requires
            self.wf(),
            0 <= i < self.spec_chunks().len(),
        ensures
            Self::chunk_wf(self.spec_chunks()[i], self.spec_precision(), self.spec_src_size()),
    {
    }

    /// The rounding bias of the accumulator, `2^(precision - 1)`.
    pub fn rounding_bias(&self) -> (r: i64)
        requires
            self.wf(),
        ensures
            r == self.spec_rounding_bias(),
            1 <= r <= 0x2000_0000,
    {
        proof {
            lemma_pow2_pos((self.precision - 1) as nat);
            lemma2_to64();
            if self.precision - 1 < 29 {
                lemma_pow2_strictly_increases((self.precision - 1) as nat, 29);
            }
        }
        pow2_i64(self.precision - 1)
    }

    /// Shifts the accumulator down by the precision and clamps the result to
    /// the unsigned 16-bit channel range.
    pub fn clip(&self, v: i64) -> (r: u16)
        requires
            self.wf(),
        ensures
            r as int == clip_spec(v as int, self.spec_precision() as nat),
    {
        let p = self.precision;
        proof {
            lemma_pow2_pos(p as nat);
        }
        if v < 0 {
            proof {
                let d = pow2(p as nat) as int;
                lemma_fundamental_div_mod_converse(-1, d, -1, d - 1);
                vstd::arithmetic::div_mod::lemma_div_is_ordered(v as int, -1, d);
            }
            return 0;
        }
        let u = v as u64;
        let s = u >> (p as u64);
        proof {
            lemma_u64_shr_is_div(u, p as u64);
        }
        if s > 65535 {
            65535
        } else {
            s as u16
        }
    }

    /// Support bounds: every record starts at a non-negative index and its
    /// window ends at or before the source size.
    pub proof fn lemma_record_support(&self, i: int)
        requires
            self.wf(),
            0 <= i < self.spec_chunks().len(),
        ensures
            self.spec_chunks()[i].start >= 0,
            self.spec_chunks()[i].start + self.spec_chunks()[i].values@.len()
                <= self.spec_src_size(),
    {
    }

    /// Coefficient sum: every record's weights sum to exactly `2^precision`.
    pub proof fn lemma_record_sum(&self, i: int)
        requires
            self.wf(),
            0 <= i < self.spec_chunks().len(),
        ensures
            sum_weights(self.spec_chunks()[i].values@) == pow2(self.spec_precision() as nat),
    {
    }
}

/// `2^e` as a 64-bit signed value, for exponents that fit it.
pub fn pow2_i64(e: u32) -> (r: i64)
    requires
        e < 63,
    ensures
        r == pow2(e as nat),
{
    proof {
        lemma2_to64();
        vstd::arithmetic::power2::lemma2_to64_rest();
        if e < 62 {
            lemma_pow2_strictly_increases(e as nat, 62);
        }
        lemma_u64_shl_is_mul(1u64, e as u64);
    }
    let u = 1u64 << e;
    u as i64
}

} // verus!
