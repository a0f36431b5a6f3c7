//! Per-column running aggregates.
//!
//! A chunk keeps one `Statistics` value per measurement: sample count, time
//! range, extremes, first and last value, and a running sum. The sum is an
//! exact machine integer for the 32-bit integer kind and a 64-bit float
//! (carried as its bit pattern) for the wider kinds, matching the on-disk
//! format.

use vstd::prelude::*;
use vstd::wrapping::i64_specs;
use vstd::wrapping::u64_specs;

use crate::float_bits::spec_f32_lt;
use crate::float_bits::spec_f64_add;
use crate::float_bits::spec_f64_from_f32_bits;
use crate::float_bits::spec_f64_from_i64;
use crate::float_bits::f32_lt;
use crate::float_bits::f64_add;
use crate::float_bits::f64_from_f32_bits;
use crate::float_bits::f64_from_i64;
use crate::types::IoTDBValue;
use crate::types::TSDataType;
use crate::utils::be_i32_bytes;
use crate::utils::be_i64_bytes;
use crate::utils::be_u32_bytes;
use crate::utils::be_u64_bytes;
use crate::utils::push_be_i32;
use crate::utils::push_be_i64;
use crate::utils::push_be_u32;
use crate::utils::push_be_u64;
use crate::utils::varuint_bytes;
use crate::utils::write_var_u32;

verus! {

/// Running aggregates over one column, tagged by its data type. Float
/// values are carried as IEEE bit patterns.
#[derive(Copy, Clone, PartialEq, Eq, Structural, Debug)]
pub enum Statistics {
    Int32 {
        count: u64,
        start_time: i64,
        end_time: i64,
        min_value: i32,
        max_value: i32,
        first_value: i32,
        last_value: i32,
        sum_value: i64,
    },
    Int64 {
        count: u64,
        start_time: i64,
        end_time: i64,
        min_value: i64,
        max_value: i64,
        first_value: i64,
        last_value: i64,
        sum_bits: u64,
    },
    Float {
        count: u64,
        start_time: i64,
        end_time: i64,
        min_bits: u32,
        max_bits: u32,
        first_bits: u32,
        last_bits: u32,
        sum_bits: u64,
    },
}

/// The number of samples recorded in `s`.
pub open spec fn sp_count(s: Statistics) -> u64 {
    match s {
        Statistics::Int32 { count, .. } => count,
        Statistics::Int64 { count, .. } => count,
        Statistics::Float { count, .. } => count,
    }
}

/// The first recorded timestamp of `s`.
pub open spec fn sp_start_time(s: Statistics) -> i64 {
    match s {
        Statistics::Int32 { start_time, .. } => start_time,
        Statistics::Int64 { start_time, .. } => start_time,
        Statistics::Float { start_time, .. } => start_time,
    }
}

/// The last recorded timestamp of `s`.
pub open spec fn sp_end_time(s: Statistics) -> i64 {
    match s {
        Statistics::Int32 { end_time, .. } => end_time,
        Statistics::Int64 { end_time, .. } => end_time,
        Statistics::Float { end_time, .. } => end_time,
    }
}

/// Fresh, empty statistics for a column of type `dt`.
pub open spec fn sp_stats_new(dt: TSDataType) -> Statistics {
    match dt {
        TSDataType::INT32 => Statistics::Int32 {
            count: 0,
            start_time: 0,
            end_time: 0,
            min_value: 0,
            max_value: 0,
            first_value: 0,
            last_value: 0,
            sum_value: 0,
        },
        TSDataType::INT64 => Statistics::Int64 {
            count: 0,
            start_time: 0,
            end_time: 0,
            min_value: 0,
            max_value: 0,
            first_value: 0,
            last_value: 0,
            sum_bits: 0,
        },
        TSDataType::FLOAT => Statistics::Float {
            count: 0,
            start_time: 0,
            end_time: 0,
            min_bits: 0,
            max_bits: 0,
            first_bits: 0,
            last_bits: 0,
            sum_bits: 0,
        },
    }
}

/// `s` after recording the sample `(ts, v)`: the first value and start time
/// are pinned on the first sample, the last value and end time always move,
/// the extremes are compared in, the sum grows, the count steps. A value of
/// the wrong kind leaves the statistics unchanged.
pub open spec fn sp_stats_update(s: Statistics, ts: i64, v: IoTDBValue) -> Statistics {
    match (s, v) {
        (
            Statistics::Int32 {
                count,
                start_time,
                end_time,
                min_value,
                max_value,
                first_value,
                last_value,
                sum_value,
            },
            IoTDBValue::INT(x),
        ) => Statistics::Int32 {
            count: u64_specs::wrapping_add(count, 1),
            start_time: if count == 0 {
                ts
            } else {
                start_time
            },
            end_time: ts,
            min_value: if count == 0 || x < min_value {
                x
            } else {
                min_value
            },
            max_value: if count == 0 || x > max_value {
                x
            } else {
                max_value
            },
            first_value: if count == 0 {
                x
            } else {
                first_value
            },
            last_value: x,
            sum_value: i64_specs::wrapping_add(sum_value, x as i64),
        },
        (
            Statistics::Int64 {
                count,
                start_time,
                end_time,
                min_value,
                max_value,
                first_value,
                last_value,
                sum_bits,
            },
            IoTDBValue::LONG(x),
        ) => Statistics::Int64 {
            count: u64_specs::wrapping_add(count, 1),
            start_time: if count == 0 {
                ts
            } else {
                start_time
            },
            end_time: ts,
            min_value: if count == 0 || x < min_value {
                x
            } else {
                min_value
            },
            max_value: if count == 0 || x > max_value {
                x
            } else {
                max_value
            },
            first_value: if count == 0 {
                x
            } else {
                first_value
            },
            last_value: x,
            sum_bits: spec_f64_add(sum_bits, spec_f64_from_i64(x)),
        },
        (
            Statistics::Float {
                count,
                start_time,
                end_time,
                min_bits,
                max_bits,
                first_bits,
                last_bits,
                sum_bits,
            },
            IoTDBValue::FLOAT(x),
        ) => Statistics::Float {
            count: u64_specs::wrapping_add(count, 1),
            start_time: if count == 0 {
                ts
            } else {
                start_time
            },
            end_time: ts,
            min_bits: if count == 0 || spec_f32_lt(x, min_bits) {
                x
            } else {
                min_bits
            },
            max_bits: if count == 0 || spec_f32_lt(max_bits, x) {
                x
            } else {
                max_bits
            },
            first_bits: if count == 0 {
                x
            } else {
                first_bits
            },
            last_bits: x,
            sum_bits: spec_f64_add(sum_bits, spec_f64_from_f32_bits(x)),
        },
        (other, _) => other,
    }
}

/// The combination of two runs of the same column: counts add, the first
/// value and start come from the operand that starts earlier, the last value
/// and end from the one that ends later, extremes pairwise, sums add. An
/// empty operand is the identity; operands of different kinds leave `a`.
pub open spec fn sp_stats_merge(a: Statistics, b: Statistics) -> Statistics {
    if sp_count(a) == 0 {
        b
    } else if sp_count(b) == 0 {
        a
    } else {
        match (a, b) {
            (
                Statistics::Int32 {
                    count: ca,
                    start_time: sa,
                    end_time: ea,
                    min_value: mina,
                    max_value: maxa,
                    first_value: fa,
                    last_value: la,
                    sum_value: suma,
                },
                Statistics::Int32 {
                    count: cb,
                    start_time: sb,
                    end_time: eb,
                    min_value: minb,
                    max_value: maxb,
                    first_value: fb,
                    last_value: lb,
                    sum_value: sumb,
                },
            ) => Statistics::Int32 {
                count: u64_specs::wrapping_add(ca, cb),
                start_time: if sa <= sb {
                    sa
                } else {
                    sb
                },
                end_time: if ea >= eb {
                    ea
                } else {
                    eb
                },
                min_value: if mina <= minb {
                    mina
                } else {
                    minb
                },
                max_value: if maxa >= maxb {
                    maxa
                } else {
                    maxb
                },
                first_value: if sa <= sb {
                    fa
                } else {
                    fb
                },
                last_value: if ea >= eb {
                    la
                } else {
                    lb
                },
                sum_value: i64_specs::wrapping_add(suma, sumb),
            },
            (
                Statistics::Int64 {
                    count: ca,
                    start_time: sa,
                    end_time: ea,
                    min_value: mina,
                    max_value: maxa,
                    first_value: fa,
                    last_value: la,
                    sum_bits: suma,
                },
                Statistics::Int64 {
                    count: cb,
                    start_time: sb,
                    end_time: eb,
                    min_value: minb,
                    max_value: maxb,
                    first_value: fb,
                    last_value: lb,
                    sum_bits: sumb,
                },
            ) => Statistics::Int64 {
                count: u64_specs::wrapping_add(ca, cb),
                start_time: if sa <= sb {
                    sa
                } else {
                    sb
                },
                end_time: if ea >= eb {
                    ea
                } else {
                    eb
                },
                min_value: if mina <= minb {
                    mina
                } else {
                    minb
                },
                max_value: if maxa >= maxb {
                    maxa
                } else {
                    maxb
                },
                first_value: if sa <= sb {
                    fa
                } else {
                    fb
                },
                last_value: if ea >= eb {
                    la
                } else {
                    lb
                },
                sum_bits: spec_f64_add(suma, sumb),
            },
            (
                Statistics::Float {
                    count: ca,
                    start_time: sa,
                    end_time: ea,
                    min_bits: mina,
                    max_bits: maxa,
                    first_bits: fa,
                    last_bits: la,
                    sum_bits: suma,
                },
                Statistics::Float {
                    count: cb,
                    start_time: sb,
                    end_time: eb,
                    min_bits: minb,
                    max_bits: maxb,
                    first_bits: fb,
                    last_bits: lb,
                    sum_bits: sumb,
                },
            ) => Statistics::Float {
                count: u64_specs::wrapping_add(ca, cb),
                start_time: if sa <= sb {
                    sa
                } else {
                    sb
                },
                end_time: if ea >= eb {
                    ea
                } else {
                    eb
                },
                min_bits: if spec_f32_lt(minb, mina) {
                    minb
                } else {
                    mina
                },
                max_bits: if spec_f32_lt(maxa, maxb) {
                    maxb
                } else {
                    maxa
                },
                first_bits: if sa <= sb {
                    fa
                } else {
                    fb
                },
                last_bits: if ea >= eb {
                    la
                } else {
                    lb
                },
                sum_bits: spec_f64_add(suma, sumb),
            },
            (other, _) => other,
        }
    }
}

/// The serialized form of `s`: the count as an unsigned varint (its low 32
/// bits), start and end time as big-endian 64-bit integers, then min, max,
/// first and last in the column's width and the sum, 8 bytes big-endian.
pub open spec fn sp_stats_bytes(s: Statistics) -> Seq<u8> {
    match s {
        Statistics::Int32 {
            count,
            start_time,
            end_time,
            min_value,
            max_value,
            first_value,
            last_value,
            sum_value,
        } => varuint_bytes((count % 0x1_0000_0000) as nat) + be_i64_bytes(start_time)
            + be_i64_bytes(end_time) + be_i32_bytes(min_value) + be_i32_bytes(max_value)
            + be_i32_bytes(first_value) + be_i32_bytes(last_value) + be_i64_bytes(
            sum_value,
        ),
        Statistics::Int64 {
            count,
            start_time,
            end_time,
            min_value,
            max_value,
            first_value,
            last_value,
            sum_bits,
        } => varuint_bytes((count % 0x1_0000_0000) as nat) + be_i64_bytes(start_time)
            + be_i64_bytes(end_time) + be_i64_bytes(min_value) + be_i64_bytes(max_value)
            + be_i64_bytes(first_value) + be_i64_bytes(last_value) + be_u64_bytes(
            sum_bits,
        ),
        Statistics::Float {
            count,
            start_time,
            end_time,
            min_bits,
            max_bits,
            first_bits,
            last_bits,
            sum_bits,
        } => varuint_bytes((count % 0x1_0000_0000) as nat) + be_i64_bytes(start_time)
            + be_i64_bytes(end_time) + be_u32_bytes(min_bits) + be_u32_bytes(max_bits)
            + be_u32_bytes(first_bits) + be_u32_bytes(last_bits) + be_u64_bytes(sum_bits),
    }
}

/// Both runs carry the same statistics kind.
pub open spec fn sp_same_kind(a: Statistics, b: Statistics) -> bool {
    match (a, b) {
        (Statistics::Int32 { .. }, Statistics::Int32 { .. }) => true,
        (Statistics::Int64 { .. }, Statistics::Int64 { .. }) => true,
        (Statistics::Float { .. }, Statistics::Float { .. }) => true,
        _ => false,
    }
}

/// The two 32-bit float patterns are strictly ordered or identical, so
/// that picking the smaller (or larger) of them does not depend on the
/// operand order. Only the two zeroes and NaNs fall outside this.
pub open spec fn sp_f32_comparable(x: u32, y: u32) -> bool {
    spec_f32_lt(x, y) || spec_f32_lt(y, x) || x == y
}

/// For float statistics, the extremes of the two runs must be comparable;
/// the other kinds always are.
pub open spec fn sp_extremes_comparable(a: Statistics, b: Statistics) -> bool {
    match (a, b) {
        (
            Statistics::Float { min_bits: mina, max_bits: maxa, .. },
            Statistics::Float { min_bits: minb, max_bits: maxb, .. },
        ) => sp_f32_comparable(mina, minb) && sp_f32_comparable(maxa, maxb),
        _ => true,
    }
}

/// The runs cover disjoint time ranges, one strictly before the other.
pub open spec fn sp_disjoint(a: Statistics, b: Statistics) -> bool {
    sp_end_time(a) < sp_start_time(b) || sp_end_time(b) < sp_start_time(a)
}

/// Merging is commutative: over two nonempty runs of the same kind with
/// disjoint time ranges (and, for float statistics, comparable extremes),
/// the combined statistics do not depend on the operand order.
pub proof fn lemma_merge_commutative(a: Statistics, b: Statistics)
    requires
        sp_count(a) > 0,
        sp_count(b) > 0,
        sp_start_time(a) <= sp_end_time(a),
        sp_start_time(b) <= sp_end_time(b),
        sp_same_kind(a, b),
        sp_disjoint(a, b),
        sp_extremes_comparable(a, b),
    ensures
        sp_stats_merge(a, b) == sp_stats_merge(b, a),
{
    match (a, b) {
        (Statistics::Int64 { sum_bits: sa, .. }, Statistics::Int64 { sum_bits: sb, .. }) => {
            crate::float_bits::lemma_f64_add_commutative(sa, sb);
        },
        (Statistics::Float { sum_bits: sa, .. }, Statistics::Float { sum_bits: sb, .. }) => {
            crate::float_bits::lemma_f64_add_commutative(sa, sb);
        },
        _ => {},
    }
}

/// Merging is associative over three pairwise-disjoint, nonempty runs of
/// the 32-bit integer kind, whose sums are exact machine integers. (The
/// float-summed kinds are not associative: rounding the sum differs with
/// the grouping.)
pub proof fn lemma_merge_associative(a: Statistics, b: Statistics, c: Statistics)
    requires
        sp_count(a) > 0,
        sp_count(b) > 0,
        sp_count(c) > 0,
        sp_count(a) + sp_count(b) + sp_count(c) <= u64::MAX,
        sp_start_time(a) <= sp_end_time(a),
        sp_start_time(b) <= sp_end_time(b),
        sp_start_time(c) <= sp_end_time(c),
        a is Int32,
        b is Int32,
        c is Int32,
        sp_disjoint(a, b),
        sp_disjoint(b, c),
        sp_disjoint(a, c),
    ensures
        sp_stats_merge(sp_stats_merge(a, b), c) == sp_stats_merge(a, sp_stats_merge(b, c)),
{
}

impl Statistics {
    /// Fresh, empty statistics for a column of type `dt`.
    pub fn new(dt: TSDataType) -> (r: Statistics)
        ensures
            r == sp_stats_new(dt),
    {
        match dt {
            TSDataType::INT32 => Statistics::Int32 {
                count: 0,
                start_time: 0,
                end_time: 0,
                min_value: 0,
                max_value: 0,
                first_value: 0,
                last_value: 0,
                sum_value: 0,
            },
            TSDataType::INT64 => Statistics::Int64 {
                count: 0,
                start_time: 0,
                end_time: 0,
                min_value: 0,
                max_value: 0,
                first_value: 0,
                last_value: 0,
                sum_bits: 0,
            },
            TSDataType::FLOAT => Statistics::Float {
                count: 0,
                start_time: 0,
                end_time: 0,
                min_bits: 0,
                max_bits: 0,
                first_bits: 0,
                last_bits: 0,
                sum_bits: 0,
            },
        }
    }

    /// Records the sample `(ts, v)`.
    pub fn update(&mut self, ts: i64, v: &IoTDBValue)
        ensures
            *final(self) == sp_stats_update(*old(self), ts, *v),
    {
        let next = match (&*self, v) {
            (
                Statistics::Int32 {
                    count,
                    start_time,
                    end_time,
                    min_value,
                    max_value,
                    first_value,
                    last_value,
                    sum_value,
                },
                IoTDBValue::INT(x),
            ) => Statistics::Int32 {
                count: count.wrapping_add(1),
                start_time: if *count == 0 {
                    ts
                } else {
                    *start_time
                },
                end_time: ts,
                min_value: if *count == 0 || *x < *min_value {
                    *x
                } else {
                    *min_value
                },
                max_value: if *count == 0 || *x > *max_value {
                    *x
                } else {
                    *max_value
                },
                first_value: if *count == 0 {
                    *x
                } else {
                    *first_value
                },
                last_value: *x,
                sum_value: sum_value.wrapping_add(*x as i64),
            },
            (
                Statistics::Int64 {
                    count,
                    start_time,
                    end_time,
                    min_value,
                    max_value,
                    first_value,
                    last_value,
                    sum_bits,
                },
                IoTDBValue::LONG(x),
            ) => Statistics::Int64 {
                count: count.wrapping_add(1),
                start_time: if *count == 0 {
                    ts
                } else {
                    *start_time
                },
                end_time: ts,
                min_value: if *count == 0 || *x < *min_value {
                    *x
                } else {
                    *min_value
                },
                max_value: if *count == 0 || *x > *max_value {
                    *x
                } else {
                    *max_value
                },
                first_value: if *count == 0 {
                    *x
                } else {
                    *first_value
                },
                last_value: *x,
                sum_bits: f64_add(*sum_bits, f64_from_i64(*x)),
            },
            (
                Statistics::Float {
                    count,
                    start_time,
                    end_time,
                    min_bits,
                    max_bits,
                    first_bits,
                    last_bits,
                    sum_bits,
                },
                IoTDBValue::FLOAT(x),
            ) => Statistics::Float {
                count: count.wrapping_add(1),
                start_time: if *count == 0 {
                    ts
                } else {
                    *start_time
                },
                end_time: ts,
                min_bits: if *count == 0 || f32_lt(*x, *min_bits) {
                    *x
                } else {
                    *min_bits
                },
                max_bits: if *count == 0 || f32_lt(*max_bits, *x) {
                    *x
                } else {
                    *max_bits
                },
                first_bits: if *count == 0 {
                    *x
                } else {
                    *first_bits
                },
                last_bits: *x,
                sum_bits: f64_add(*sum_bits, f64_from_f32_bits(*x)),
            },
            (other, _) => *other,
        };
        *self = next;
    }

    /// Combines `self` with the disjoint run `other`.
    pub fn merge(&self, other: &Statistics) -> (r: Statistics)
        ensures
            r == sp_stats_merge(*self, *other),
    {
        if self.count() == 0 {
            return *other;
        }
        if other.count() == 0 {
            return *self;
        }
        match (self, other) {
            (
                Statistics::Int32 {
                    count: ca,
                    start_time: sa,
                    end_time: ea,
                    min_value: mina,
                    max_value: maxa,
                    first_value: fa,
                    last_value: la,
                    sum_value: suma,
                },
                Statistics::Int32 {
                    count: cb,
                    start_time: sb,
                    end_time: eb,
                    min_value: minb,
                    max_value: maxb,
                    first_value: fb,
                    last_value: lb,
                    sum_value: sumb,
                },
            ) => Statistics::Int32 {
                count: ca.wrapping_add(*cb),
                start_time: if *sa <= *sb {
                    *sa
                } else {
                    *sb
                },
                end_time: if *ea >= *eb {
                    *ea
                } else {
                    *eb
                },
                min_value: if *mina <= *minb {
                    *mina
                } else {
                    *minb
                },
                max_value: if *maxa >= *maxb {
                    *maxa
                } else {
                    *maxb
                },
                first_value: if *sa <= *sb {
                    *fa
                } else {
                    *fb
                },
                last_value: if *ea >= *eb {
                    *la
                } else {
                    *lb
                },
                sum_value: suma.wrapping_add(*sumb),
            },
            (
                Statistics::Int64 {
                    count: ca,
                    start_time: sa,
                    end_time: ea,
                    min_value: mina,
                    max_value: maxa,
                    first_value: fa,
                    last_value: la,
                    sum_bits: suma,
                },
                Statistics::Int64 {
                    count: cb,
                    start_time: sb,
                    end_time: eb,
                    min_value: minb,
                    max_value: maxb,
                    first_value: fb,
                    last_value: lb,
                    sum_bits: sumb,
                },
            ) => Statistics::Int64 {
                count: ca.wrapping_add(*cb),
                start_time: if *sa <= *sb {
                    *sa
                } else {
                    *sb
                },
                end_time: if *ea >= *eb {
                    *ea
                } else {
                    *eb
                },
                min_value: if *mina <= *minb {
                    *mina
                } else {
                    *minb
                },
                max_value: if *maxa >= *maxb {
                    *maxa
                } else {
                    *maxb
                },
                first_value: if *sa <= *sb {
                    *fa
                } else {
                    *fb
                },
                last_value: if *ea >= *eb {
                    *la
                } else {
                    *lb
                },
                sum_bits: f64_add(*suma, *sumb),
            },
            (
                Statistics::Float {
                    count: ca,
                    start_time: sa,
                    end_time: ea,
                    min_bits: mina,
                    max_bits: maxa,
                    first_bits: fa,
                    last_bits: la,
                    sum_bits: suma,
                },
                Statistics::Float {
                    count: cb,
                    start_time: sb,
                    end_time: eb,
                    min_bits: minb,
                    max_bits: maxb,
                    first_bits: fb,
                    last_bits: lb,
                    sum_bits: sumb,
                },
            ) => Statistics::Float {
                count: ca.wrapping_add(*cb),
                start_time: if *sa <= *sb {
                    *sa
                } else {
                    *sb
                },
                end_time: if *ea >= *eb {
                    *ea
                } else {
                    *eb
                },
                min_bits: if f32_lt(*minb, *mina) {
                    *minb
                } else {
                    *mina
                },
                max_bits: if f32_lt(*maxa, *maxb) {
                    *maxb
                } else {
                    *maxa
                },
                first_bits: if *sa <= *sb {
                    *fa
                } else {
                    *fb
                },
                last_bits: if *ea >= *eb {
                    *la
                } else {
                    *lb
                },
                sum_bits: f64_add(*suma, *sumb),
            },
            (other, _) => *other,
        }
    }

    /// The number of samples recorded.
    pub fn count(&self) -> (r: u64)
        ensures
            r == sp_count(*self),
    {
        match self {
            Statistics::Int32 { count, .. } => *count,
            Statistics::Int64 { count, .. } => *count,
            Statistics::Float { count, .. } => *count,
        }
    }

    /// Appends the serialized form of the statistics to `buffer`.
    pub fn write_bytes(&self, buffer: &mut Vec<u8>)
        ensures
            final(buffer)@ == old(buffer)@ + sp_stats_bytes(*self),
    {
        match self {
            Statistics::Int32 {
                count,
                start_time,
                end_time,
                min_value,
                max_value,
                first_value,
                last_value,
                sum_value,
            } => {
                let c32: u32 = (*count % 0x1_0000_0000) as u32;
                write_var_u32(c32, buffer);
                push_be_i64(buffer, *start_time);
                push_be_i64(buffer, *end_time);
                push_be_i32(buffer, *min_value);
                push_be_i32(buffer, *max_value);
                push_be_i32(buffer, *first_value);
                push_be_i32(buffer, *last_value);
                push_be_i64(buffer, *sum_value);
                proof {
                    assert(buffer@ =~= old(buffer)@ + sp_stats_bytes(*self));
                }
            },
            Statistics::Int64 {
                count,
                start_time,
                end_time,
                min_value,
                max_value,
                first_value,
                last_value,
                sum_bits,
            } => {
                let c32: u32 = (*count % 0x1_0000_0000) as u32;
                write_var_u32(c32, buffer);
                push_be_i64(buffer, *start_time);
                push_be_i64(buffer, *end_time);
                push_be_i64(buffer, *min_value);
                push_be_i64(buffer, *max_value);
                push_be_i64(buffer, *first_value);
                push_be_i64(buffer, *last_value);
                push_be_u64(buffer, *sum_bits);
                proof {
                    assert(buffer@ =~= old(buffer)@ + sp_stats_bytes(*self));
                }
            },
            Statistics::Float {
                count,
                start_time,
                end_time,
                min_bits,
                max_bits,
                first_bits,
                last_bits,
                sum_bits,
            } => {
                let c32: u32 = (*count % 0x1_0000_0000) as u32;
                write_var_u32(c32, buffer);
                push_be_i64(buffer, *start_time);
                push_be_i64(buffer, *end_time);
                push_be_u32(buffer, *min_bits);
                push_be_u32(buffer, *max_bits);
                push_be_u32(buffer, *first_bits);
                push_be_u32(buffer, *last_bits);
                push_be_u64(buffer, *sum_bits);
                proof {
                    assert(buffer@ =~= old(buffer)@ + sp_stats_bytes(*self));
                }
            },
        }
    }
}

} // verus!
