//! The curves along which the camera moves from one keyframe to the next.

use vstd::prelude::*;
use crate::fixed::{
    div_round, gap, gap_of, lemma_round_div_bounds, lemma_round_div_exact,
    lemma_round_div_monotonic, mix, round_div, UNIT,
};
use crate::types::EasingType;

verus! {

/// The distance, in millionths of the way, between two samples of the spring
/// curve.
pub const SPRING_STEP: u32 = 4000;

/// The spring curve `2^(-10u) * sin((10u - 3/4) * 2 pi / 3) + 1`, in
/// millionths, at every 250th of the way from `u = 0` to `u = 1`. The last
/// entry is the value that the curve approaches at the end of the way.
pub const SPRING: [u32; 251] = [
    0, 30756, 67191, 108722, 154759, 204712, 257991, 314014,
    372207, 432013, 492894, 554329, 615824, 676910, 737147, 796125,
    853464, 908820, 961880, 1012366, 1060036, 1104679, 1146122, 1184223,
    1218875, 1250000, 1277554, 1301520, 1321911, 1338765, 1352145, 1362138,
    1368850, 1372408, 1372955, 1370649, 1365661, 1358174, 1348380, 1336477,
    1322668, 1307162, 1290167, 1271892, 1252545, 1232329, 1211445, 1190087,
    1168442, 1146690, 1125000, 1103534, 1082442, 1061864, 1041928, 1022749,
    1004433, 987072, 970744, 955519, 941452, 928587, 916957, 906582,
    897475, 889635, 883053, 877711, 873584, 870636, 868826, 868108,
    868426, 869723, 871936, 875000, 878845, 883399, 888590, 894345,
    900589, 907249, 914252, 921526, 929002, 936612, 944291, 951978,
    959614, 967143, 974516, 981683, 988603, 995235, 1001546, 1007504,
    1013085, 1018265, 1023028, 1027359, 1031250, 1034694, 1037690, 1040239,
    1042346, 1044018, 1045267, 1046106, 1046551, 1046619, 1046331, 1045708,
    1044772, 1043548, 1042060, 1040334, 1038395, 1036271, 1033987, 1031568,
    1029041, 1026431, 1023761, 1021055, 1018336, 1015625, 1012942, 1010305,
    1007733, 1005241, 1002844, 1000554, 998384, 996343, 994440, 992682,
    991073, 989620, 988323, 987184, 986204, 985382, 984714, 984198,
    983830, 983603, 983513, 983553, 983715, 983992, 984375, 984856,
    985425, 986074, 986793, 987574, 988406, 989281, 990191, 991125,
    992076, 993036, 993997, 994952, 995893, 996814, 997710, 998575,
    999404, 1000193, 1000938, 1001636, 1002283, 1002878, 1003420, 1003906,
    1004337, 1004711, 1005030, 1005293, 1005502, 1005658, 1005763, 1005819,
    1005827, 1005791, 1005713, 1005596, 1005443, 1005257, 1005042, 1004799,
    1004534, 1004248, 1003946, 1003630, 1003304, 1002970, 1002632, 1002292,
    1001953, 1001618, 1001288, 1000967, 1000655, 1000355, 1000069, 999798,
    999543, 999305, 999085, 998884, 998702, 998540, 998398, 998276,
    998173, 998089, 998025, 997979, 997950, 997939, 997944, 997964,
    997999, 998047, 998107, 998178, 998259, 998349, 998447, 998551,
    998660, 998774, 998891, 999010, 999130, 999250, 999369, 999487,
    999602, 999714, 999822, 999926, 1000024, 1000117, 1000204, 1000285,
    1000360, 1000427, 1000488,
];

/// The third power.
pub open spec fn cube(v: int) -> int {
    v * v * v
}

/// The spring curve between its samples: a straight line from each sample to
/// the next. It starts at zero and ends at one.
pub open spec fn spring_curve(t: int) -> int {
    if t <= 0 {
        0
    } else if t >= UNIT {
        UNIT as int
    } else {
        mix(
            SPRING[t / (SPRING_STEP as int)] as int,
            SPRING[t / (SPRING_STEP as int) + 1] as int,
            t % (SPRING_STEP as int),
            SPRING_STEP as int,
        )
    }
}

/// The part of the way that is gone after the part `t` of the time, for each
/// curve, all in millionths:
/// linear `t`; ease-out `1 - (1 - t)^3`; ease-in-out `4 t^3` in the first half
/// and `1 - (2 - 2 t)^3 / 2` in the second; spring as `spring_curve`.
pub open spec fn eased(t: int, easing: EasingType) -> int {
    match easing {
        EasingType::Linear => t,
        EasingType::EaseOut => UNIT - round_div(cube(UNIT - t), UNIT * UNIT),
        EasingType::EaseInOut => if 2 * t < UNIT {
            round_div(4 * cube(t), UNIT * UNIT)
        } else {
            UNIT - round_div(cube(2 * UNIT - 2 * t), 2 * (UNIT * UNIT))
        },
        EasingType::Spring => spring_curve(t),
    }
}

/// A number that lies part of the way from `a` to `b` lies between them.
pub proof fn lemma_mix_between(a: int, b: int, s: int, unit: int)
    requires
        0 <= s <= unit,
        0 < unit,
    ensures
        a <= b ==> a <= mix(a, b, s, unit) <= b,
        b <= a ==> b <= mix(a, b, s, unit) <= a,
{
    let d = gap(a, b);
    assert(0 <= s * d <= d * unit) by (nonlinear_arith)
        requires
            0 <= s <= unit,
            0 <= d,
    ;
    assert(d * s == s * d) by (nonlinear_arith);
    lemma_round_div_monotonic(d * s, d * unit, unit);
    lemma_round_div_exact(d, unit);
    lemma_round_div_bounds(d * s, unit);
}

/// The number that lies `t` millionths of the way from `a` to `b`.
pub fn lerp(a: u32, b: u32, t: u32) -> (r: i64)
    ensures
        r == mix(a as int, b as int, t as int, UNIT as int),
{
    let d: u32 = gap_of(a, b);
    assert(0 <= d * t <= 0xffff_ffff * 0xffff_ffff) by (nonlinear_arith)
        requires
            0 <= d <= 0xffff_ffff,
            0 <= t <= 0xffff_ffff,
    ;
    let way: u128 = div_round(d as u128 * t as u128, UNIT as u128);
    proof {
        lemma_round_div_bounds(d * t, UNIT as int);
    }
    if b >= a {
        a as i64 + way as i64
    } else {
        a as i64 - way as i64
    }
}

/// The cube of a part of one, and the rounded quotient of it by one squared,
/// are at most one.
proof fn lemma_cube_part(v: int)
    requires
        0 <= v <= UNIT,
    ensures
        0 <= cube(v) <= cube(UNIT as int),
        cube(UNIT as int) == 1_000_000_000_000_000_000,
        0 <= round_div(cube(v), UNIT * UNIT) <= UNIT,
{
    assert(0 <= v * v <= 1_000_000_000_000) by (nonlinear_arith)
        requires
            0 <= v <= 1_000_000,
    ;
    assert(0 <= v * v * v <= 1_000_000_000_000_000_000) by (nonlinear_arith)
        requires
            0 <= v <= 1_000_000,
            0 <= v * v <= 1_000_000_000_000,
    ;
    assert(cube(UNIT as int) == 1_000_000_000_000_000_000) by (nonlinear_arith);
    lemma_round_div_monotonic(cube(v), cube(UNIT as int), UNIT * UNIT);
    lemma_round_div_bounds(cube(v), UNIT * UNIT);
}

/// The third power of a part of one.
fn cube_of(v: u32) -> (c: u128)
    requires
        v <= UNIT,
    ensures
        c == cube(v as int),
        c <= 1_000_000_000_000_000_000,
{
    assert(0 <= v * v <= 1_000_000_000_000) by (nonlinear_arith)
        requires
            0 <= v <= 1_000_000,
    ;
    assert(0 <= v * v * v <= 1_000_000_000_000_000_000) by (nonlinear_arith)
        requires
            0 <= v <= 1_000_000,
            0 <= v * v <= 1_000_000_000_000,
    ;
    v as u128 * v as u128 * v as u128
}

/// The part of the way that is gone after the part `t` of the time, along
/// the given curve.
pub fn apply_easing(t: u32, easing: EasingType) -> (r: u32)
    requires
        t <= UNIT,
    ensures
        r == eased(t as int, easing),
{
    let whole: u128 = UNIT as u128 * UNIT as u128;
    match easing {
        EasingType::Linear => t,
        EasingType::EaseOut => {
            let rest: u128 = cube_of(UNIT - t);
            proof {
                lemma_cube_part((UNIT - t) as int);
            }
            let back: u128 = div_round(rest, whole);
            UNIT - back as u32
        },
        EasingType::EaseInOut => {
            if 2 * t < UNIT {
                let third: u128 = cube_of(t);
                proof {
                    lemma_cube_part(t as int);
                    lemma_round_div_monotonic(
                        4 * cube(t as int),
                        4 * cube(UNIT as int),
                        UNIT * UNIT,
                    );
                    lemma_round_div_bounds(4 * cube(t as int), UNIT * UNIT);
                }
                div_round(4 * third, whole) as u32
            } else {
                let rest: u128 = cube_of(2 * UNIT - 2 * t);
                proof {
                    lemma_cube_part(2 * UNIT - 2 * t);
                    lemma_round_div_monotonic(
                        cube(2 * UNIT - 2 * t),
                        cube(UNIT as int),
                        2 * (UNIT * UNIT),
                    );
                    lemma_round_div_bounds(cube(2 * UNIT - 2 * t), 2 * (UNIT * UNIT));
                }
                let back: u128 = div_round(rest, 2 * whole);
                UNIT - back as u32
            }
        },
        EasingType::Spring => {
            if t == 0 {
                0
            } else if t == UNIT {
                UNIT
            } else {
                let i: usize = (t / SPRING_STEP) as usize;
                let part: u32 = t % SPRING_STEP;
                let a: u32 = SPRING[i];
                let b: u32 = SPRING[i + 1];
                let d: u32 = gap_of(a, b);
                assert(0 <= d * part <= 0xffff_ffff * 4000) by (nonlinear_arith)
                    requires
                        0 <= d <= 0xffff_ffff,
                        0 <= part <= 4000,
                ;
                let way: u128 = div_round(d as u128 * part as u128, SPRING_STEP as u128);
                proof {
                    lemma_mix_between(a as int, b as int, part as int, SPRING_STEP as int);
                }
                if b >= a {
                    a + way as u32
                } else {
                    a - way as u32
                }
            }
        },
    }
}

/// Easing endpoints: every curve starts at nothing of the way and ends at
/// all of it.
pub proof fn lemma_easing_endpoints(easing: EasingType)
    ensures
        eased(0, easing) == 0,
        eased(UNIT as int, easing) == UNIT,
{
    assert(cube(0) == 0) by (nonlinear_arith);
    assert(cube(UNIT as int) == 1_000_000_000_000_000_000) by (nonlinear_arith);
    assert(cube(2 * UNIT - 2 * UNIT) == 0);
    assert(round_div(0, UNIT * UNIT) == 0) by (nonlinear_arith);
    assert(round_div(0, 2 * (UNIT * UNIT)) == 0) by (nonlinear_arith);
    assert(round_div(4 * cube(0), UNIT * UNIT) == 0);
    assert(round_div(1_000_000_000_000_000_000, UNIT * UNIT) == UNIT) by (nonlinear_arith);
}

} // verus!
