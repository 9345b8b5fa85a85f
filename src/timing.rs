//! From a time to a frame id. The frame rate is the `f32` whose bits the header holds;
//! as every finite `f32` is a fraction with a power of two below, the frame id
//! `floor(fps · t)` is computed exactly, in integers.

use vstd::prelude::*;
use vstd::arithmetic::power2::{pow2, lemma_pow2_adds, lemma_pow2_pos, lemma_pow2_unfold};

verus! {

pub const NANOS_PER_SEC: u128 = 1_000_000_000;

/// The biased exponent field of the `f32` with bits `bits`.
pub open spec fn fps_exponent(bits: u32) -> int {
    (bits as int / 0x800000) % 0x100
}

/// The fraction field of the `f32` with bits `bits`.
pub open spec fn fps_fraction(bits: u32) -> int {
    bits as int % 0x800000
}

pub open spec fn fps_is_negative(bits: u32) -> bool {
    bits >= 0x80000000
}

/// Neither infinite nor NaN.
pub open spec fn fps_is_finite(bits: u32) -> bool {
    fps_exponent(bits) != 0xFF
}

/// The significand of a finite `f32`, with its hidden bit where it is normal.
pub open spec fn fps_significand(bits: u32) -> nat {
    if fps_exponent(bits) == 0 {
        fps_fraction(bits) as nat
    } else {
        (fps_fraction(bits) + 0x800000) as nat
    }
}

/// With `fps_den`, the magnitude of a finite `f32` as the fraction
/// `fps_num(bits) / fps_den(bits)`.
pub open spec fn fps_num(bits: u32) -> nat {
    if fps_exponent(bits) >= 150 {
        fps_significand(bits) * pow2((fps_exponent(bits) - 150) as nat)
    } else {
        fps_significand(bits)
    }
}

pub open spec fn fps_den(bits: u32) -> nat {
    if fps_exponent(bits) >= 150 {
        1
    } else if fps_exponent(bits) == 0 {
        pow2(149)
    } else {
        pow2((150 - fps_exponent(bits)) as nat)
    }
}

/// A time given as whole seconds and nanoseconds, in nanoseconds.
pub open spec fn time_nanos(secs: u64, nanos: u32) -> nat {
    (secs * 1_000_000_000 + nanos) as nat
}

/// `floor(fps · t)` for a finite frame rate and a time of `t` nanoseconds.
pub open spec fn frame_position(bits: u32, t: nat) -> nat {
    (fps_num(bits) * t) / (fps_den(bits) * 1_000_000_000)
}

/// The frame id shown `t` nanoseconds into a video: `floor(fps · t)`, held to the range
/// of `u32`. A negative rate, a NaN, or an infinite rate at time zero give 0; an
/// infinite rate at any later time gives the largest id.
pub open spec fn frame_id_at(bits: u32, t: nat) -> u32 {
    if fps_is_negative(bits) {
        0
    } else if !fps_is_finite(bits) {
        if fps_fraction(bits) != 0 || t == 0 {
            0
        } else {
            u32::MAX
        }
    } else if frame_position(bits, t) > u32::MAX {
        u32::MAX
    } else {
        frame_position(bits, t) as u32
    }
}

/// The time `t` lies before the end of a video of `frame_count` frames:
/// `t < frame_count / fps`.
pub open spec fn before_end(bits: u32, frame_count: u32, t: nat) -> bool {
    fps_num(bits) * t < frame_count * fps_den(bits) * 1_000_000_000
}

/// The frame id shown at `secs` seconds and `nanos` nanoseconds.
pub fn frame_id_for_time(fps_bits: u32, secs: u64, nanos: u32) -> (id: u32)
    ensures
        id == frame_id_at(fps_bits, time_nanos(secs, nanos)),
{
    let t: u128 = (secs as u128) * NANOS_PER_SEC + (nanos as u128);
    let ghost tn = time_nanos(secs, nanos);
    assert(t == tn);
    if fps_bits >= 0x80000000 {
        return 0;
    }
    let exponent: u32 = (fps_bits / 0x800000) % 0x100;
    let fraction: u32 = fps_bits % 0x800000;
    assert(fps_exponent(fps_bits) == exponent);
    assert(fps_fraction(fps_bits) == fraction);
    assert(!fps_is_negative(fps_bits));
    if exponent == 0xFF {
        return if fraction != 0 || t == 0 {
            0
        } else {
            u32::MAX
        };
    }
    let significand: u128 = if exponent == 0 {
        fraction as u128
    } else {
        fraction as u128 + 0x800000
    };
    assert(significand == fps_significand(fps_bits));
    proof {
        assert(t < 0x400000000000000000000000) by (nonlinear_arith)
            requires
                secs < 0x10000000000000000,
                nanos < 0x100000000,
                t == secs * 1_000_000_000 + nanos,
        ;
        assert(significand * t < 0x1000000 * 0x400000000000000000000000) by (nonlinear_arith)
            requires
                significand < 0x1000000,
                t < 0x400000000000000000000000,
        ;
    }
    let p: u128 = significand * t;
    let cap: u128 = NANOS_PER_SEC * 0x100000000;
    if exponent >= 150 {
        let e: u32 = exponent - 150;
        let mut v: u128 = p;
        let mut i: u32 = 0;
        proof {
            lemma_pow2_pos(0);
            assert(pow2(0) == 1) by {
                vstd::arithmetic::power2::lemma2_to64();
            }
        }
        while i < e && v < cap
            invariant
                i <= e,
                v == p * pow2(i as nat),
                cap == NANOS_PER_SEC * 0x100000000,
            decreases e - i,
        {
            proof {
                lemma_pow2_unfold((i + 1) as nat);
                assert(p * pow2((i + 1) as nat) == 2 * (p * pow2(i as nat))) by (nonlinear_arith)
                    requires
                        pow2((i + 1) as nat) == 2 * pow2(i as nat),
                ;
            }
            v = v * 2;
            i = i + 1;
        }
        proof {
            let pe = pow2(e as nat);
            lemma_pow2_adds(i as nat, (e - i) as nat);
            lemma_pow2_pos((e - i) as nat);
            assert(p * pe >= v) by (nonlinear_arith)
                requires
                    v == p * pow2(i as nat),
                    pe == pow2(i as nat) * pow2((e - i) as nat),
                    pow2((e - i) as nat) >= 1,
                    p >= 0,
            ;
            assert(fps_num(fps_bits) * tn == p * pe) by (nonlinear_arith)
                requires
                    fps_num(fps_bits) == significand * pe,
                    p == significand * tn,
            ;
            assert(fps_den(fps_bits) == 1);
            if v < cap {
                assert(i == e);
            } else {
                assert(p * pe / 1_000_000_000 >= cap / 1_000_000_000) by (nonlinear_arith)
                    requires
                        p * pe >= cap,
                ;
            }
        }
        if v >= cap {
            assert(frame_position(fps_bits, tn) > u32::MAX);
            assert(fps_is_finite(fps_bits));
            assert(frame_id_at(fps_bits, tn) == u32::MAX);
            u32::MAX
        } else {
            assert(frame_position(fps_bits, tn) == v / NANOS_PER_SEC);
            assert(v / NANOS_PER_SEC <= u32::MAX) by (nonlinear_arith)
                requires
                    v < cap,
                    cap == 1_000_000_000 * 0x100000000,
            ;
            assert(frame_id_at(fps_bits, tn) == (v / NANOS_PER_SEC) as u32);
            (v / NANOS_PER_SEC) as u32
        }
    } else {
        let k: u32 = if exponent == 0 {
            149
        } else {
            150 - exponent
        };
        let mut v: u128 = p;
        let mut i: u32 = 0;
        proof {
            assert(pow2(0) == 1) by {
                vstd::arithmetic::power2::lemma2_to64();
            }
        }
        while i < k
            invariant
                i <= k,
                v == (p as int) / (pow2(i as nat) as int),
            decreases k - i,
        {
            proof {
                lemma_pow2_unfold((i + 1) as nat);
                lemma_pow2_pos(i as nat);
                vstd::arithmetic::div_mod::lemma_div_denominator(p as int, pow2(i as nat) as int, 2);
                assert(pow2(i as nat) * 2 == pow2((i + 1) as nat));
            }
            v = v / 2;
            i = i + 1;
        }
        proof {
            let pk = pow2(k as nat);
            lemma_pow2_pos(k as nat);
            vstd::arithmetic::div_mod::lemma_div_denominator(p as int, pk as int, 1_000_000_000);
            assert(fps_den(fps_bits) == pk);
            assert(fps_num(fps_bits) == significand);
        }
        let q: u128 = v / NANOS_PER_SEC;
        assert(frame_position(fps_bits, tn) == q);
        if q > 0xFFFF_FFFFu128 {
            u32::MAX
        } else {
            q as u32
        }
    }
}

/// For a finite, non-negative frame rate, the frame id at `t` names a frame exactly when
/// `t` lies before the end of the video, and it is then `floor(fps · t)`.
pub proof fn lemma_frame_id_before_end(bits: u32, frame_count: u32, t: nat)
    requires
        !fps_is_negative(bits),
        fps_is_finite(bits),
    ensures
        (frame_id_at(bits, t) < frame_count) <==> before_end(bits, frame_count, t),
        before_end(bits, frame_count, t) ==> frame_id_at(bits, t) == frame_position(bits, t),
{
    let x = fps_num(bits) * t;
    let d = fps_den(bits) * 1_000_000_000;
    assert(fps_den(bits) > 0) by {
        lemma_pow2_pos(149);
        if fps_exponent(bits) < 150 && fps_exponent(bits) != 0 {
            lemma_pow2_pos((150 - fps_exponent(bits)) as nat);
        }
    }
    let q = x / d;
    vstd::arithmetic::div_mod::lemma_fundamental_div_mod(x as int, d as int);
    vstd::arithmetic::div_mod::lemma_mod_bound(x as int, d as int);
    assert(frame_count * fps_den(bits) * 1_000_000_000 == frame_count * d) by (nonlinear_arith)
        requires
            d == fps_den(bits) * 1_000_000_000,
    ;
    if q < frame_count {
        assert(x < frame_count * d) by (nonlinear_arith)
            requires
                x == d * q + x % d,
                x % d < d,
                q + 1 <= frame_count,
                d > 0,
        ;
    } else {
        assert(x >= frame_count * d) by (nonlinear_arith)
            requires
                x == d * q + x % d,
                x % d >= 0,
                q >= frame_count,
                d > 0,
        ;
    }
}

} // verus!
