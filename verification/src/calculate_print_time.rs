//! The print-time estimator: sums the Euclidean distance between
//! corresponding points of vertically adjacent layers, divides by the
//! average speed, rounds up, and formats the result as hours and minutes.
//! A model with fewer than two layers reports the fixed legacy string
//! `"0h 0m 0s"`.

use crate::math::{isqrt, isqrt_exec, lemma_isqrt_bounds, lemma_sq_le, mul_wide};
use crate::model::{rows, stack_in_range, RawPoint};
use vstd::prelude::*;
use vstd::string::StringExecFns;

verus! {

/// Largest possible distance between two in-range points.
pub const MAX_PAIR_DISTANCE: i64 = 4_000_000_000_000_000_000;

/// The Euclidean distance between two points, rounded down.
pub open spec fn pair_distance(p: RawPoint, q: RawPoint) -> int {
    isqrt((q.x - p.x) * (q.x - p.x) + (q.y - p.y) * (q.y - p.y) + (q.z - p.z) * (q.z - p.z))
}

/// The smaller of two layer lengths.
pub open spec fn min_len(a: Seq<RawPoint>, b: Seq<RawPoint>) -> int {
    if a.len() < b.len() {
        a.len() as int
    } else {
        b.len() as int
    }
}

/// Sum of the distances between the first `j` corresponding points of two
/// adjacent layers.
pub open spec fn pair_sum(a: Seq<RawPoint>, b: Seq<RawPoint>, j: int) -> int
    decreases j,
{
    if j <= 0 {
        0
    } else {
        pair_sum(a, b, j - 1) + pair_distance(a[j - 1], b[j - 1])
    }
}

/// Total travel distance over the first `i` layers of the model.
pub open spec fn total_distance(m: Seq<Seq<RawPoint>>, i: int) -> int
    decreases i,
{
    if i <= 1 {
        0
    } else {
        total_distance(m, i - 1) + pair_sum(m[i - 2], m[i - 1], min_len(m[i - 2], m[i - 1]))
    }
}

/// The estimated print time in minutes: the total distance divided by the
/// average speed, rounded up.
pub open spec fn print_minutes(m: Seq<Seq<RawPoint>>, speed: int) -> int {
    (total_distance(m, m.len() as int) + speed - 1) / speed
}

/// Distances between in-range points are bounded.
proof fn lemma_pair_distance_bound(p: RawPoint, q: RawPoint)
    requires
        p.in_range(),
        q.in_range(),
    ensures
        0 <= pair_distance(p, q) < MAX_PAIR_DISTANCE,
{
    let dx = q.x - p.x;
    let dy = q.y - p.y;
    let dz = q.z - p.z;
    assert(0 <= dx * dx <= 4_000_000_000_000_000_000_000_000_000_000_000_000) by (nonlinear_arith)
        requires
            -2_000_000_000_000_000_000 <= dx <= 2_000_000_000_000_000_000,
    ;
    assert(0 <= dy * dy <= 4_000_000_000_000_000_000_000_000_000_000_000_000) by (nonlinear_arith)
        requires
            -2_000_000_000_000_000_000 <= dy <= 2_000_000_000_000_000_000,
    ;
    assert(0 <= dz * dz <= 4_000_000_000_000_000_000_000_000_000_000_000_000) by (nonlinear_arith)
        requires
            -2_000_000_000_000_000_000 <= dz <= 2_000_000_000_000_000_000,
    ;
    let n = dx * dx + dy * dy + dz * dz;
    lemma_isqrt_bounds(n);
    let b = MAX_PAIR_DISTANCE as int;
    assert(isqrt(n) * isqrt(n) <= n < b * b);
    lemma_sq_le(isqrt(n), b);
    if isqrt(n) == b {
        assert(b * b <= n);
    }
}

/// Partial pair sums of in-range layers are bounded by the number of pairs.
proof fn lemma_pair_sum_bound(a: Seq<RawPoint>, b: Seq<RawPoint>, j: int)
    requires
        0 <= j <= min_len(a, b),
        forall|q: int| 0 <= q < a.len() ==> (#[trigger] a[q]).in_range(),
        forall|q: int| 0 <= q < b.len() ==> (#[trigger] b[q]).in_range(),
    ensures
        0 <= pair_sum(a, b, j) <= j * (MAX_PAIR_DISTANCE as int),
    decreases j,
{
    if j > 0 {
        lemma_pair_sum_bound(a, b, j - 1);
        lemma_pair_distance_bound(a[j - 1], b[j - 1]);
        assert((j - 1) * (MAX_PAIR_DISTANCE as int) + MAX_PAIR_DISTANCE == j * (
        MAX_PAIR_DISTANCE as int)) by (nonlinear_arith);
    } else {
        assert(j * (MAX_PAIR_DISTANCE as int) == 0) by (nonlinear_arith)
            requires
                j == 0,
        ;
    }
}

/// Total distances over a bounded stack are bounded.
proof fn lemma_total_distance_bound(m: Seq<Seq<RawPoint>>, i: int)
    requires
        stack_in_range(m),
        0 <= i <= m.len(),
        m.len() <= 1_000_000_000,
        forall|k: int| 0 <= k < m.len() ==> (#[trigger] m[k]).len() <= 1_000_000_000,
    ensures
        0 <= total_distance(m, i) <= i * 1_000_000_000 * (MAX_PAIR_DISTANCE as int),
    decreases i,
{
    let d = MAX_PAIR_DISTANCE as int;
    if i <= 1 {
        assert(i * 1_000_000_000 * d >= 0) by (nonlinear_arith)
            requires
                i >= 0,
                d >= 0,
        ;
    } else {
        lemma_total_distance_bound(m, i - 1);
        let ml = min_len(m[i - 2], m[i - 1]);
        lemma_pair_sum_bound(m[i - 2], m[i - 1], ml);
        assert(ml * d <= 1_000_000_000 * d) by (nonlinear_arith)
            requires
                0 <= ml <= 1_000_000_000,
                d >= 0,
        ;
        assert((i - 1) * 1_000_000_000 * d + 1_000_000_000 * d == i * 1_000_000_000 * d)
            by (nonlinear_arith);
    }
}

/// The decimal digit character for a value below ten.
pub open spec fn dec_digit(d: int) -> char {
    if d == 0 {
        '0'
    } else if d == 1 {
        '1'
    } else if d == 2 {
        '2'
    } else if d == 3 {
        '3'
    } else if d == 4 {
        '4'
    } else if d == 5 {
        '5'
    } else if d == 6 {
        '6'
    } else if d == 7 {
        '7'
    } else if d == 8 {
        '8'
    } else {
        '9'
    }
}

/// The decimal representation of a nonnegative integer, most significant
/// digit first.
pub open spec fn dec_seq(n: int) -> Seq<char>
    decreases n,
{
    if n < 10 {
        seq![dec_digit(n)]
    } else {
        dec_seq(n / 10).push(dec_digit(n % 10))
    }
}

/// The single-character string for a decimal digit.
fn digit_str(d: u128) -> (s: &'static str)
    requires
        d < 10,
    ensures
        s@ == seq![dec_digit(d as int)],
{
    proof {
        reveal_strlit("0");
        reveal_strlit("1");
        reveal_strlit("2");
        reveal_strlit("3");
        reveal_strlit("4");
        reveal_strlit("5");
        reveal_strlit("6");
        reveal_strlit("7");
        reveal_strlit("8");
        reveal_strlit("9");
    }
    let s: &'static str = if d == 0 {
        "0"
    } else if d == 1 {
        "1"
    } else if d == 2 {
        "2"
    } else if d == 3 {
        "3"
    } else if d == 4 {
        "4"
    } else if d == 5 {
        "5"
    } else if d == 6 {
        "6"
    } else if d == 7 {
        "7"
    } else if d == 8 {
        "8"
    } else {
        "9"
    };
    proof {
        assert(s@ =~= seq![dec_digit(d as int)]);
    }
    s
}

/// Renders a nonnegative number in decimal.
pub fn dec_string(n: u128) -> (s: String)
    ensures
        s@ == dec_seq(n as int),
    decreases n,
{
    if n < 10 {
        String::from_str(digit_str(n))
    } else {
        let mut s = dec_string(n / 10);
        s.append(digit_str(n % 10));
        proof {
            assert(s@ =~= dec_seq(n as int));
        }
        s
    }
}

/// Estimates the total print duration of the model and formats it as
/// `"<hours>h <minutes>m"`.  Fewer than two layers report `"0h 0m 0s"`,
/// preserving the legacy fixed string.  The layer-count and layer-length
/// bounds only keep the exact total within 128-bit range.
pub fn calculate_print_time(levels_of_points: &Vec<Vec<RawPoint>>, average_speed: u64) -> (res:
    String)
    requires
        stack_in_range(rows(levels_of_points@)),
        average_speed >= 1,
        levels_of_points@.len() <= 1_000_000_000,
        forall|k: int|
            0 <= k < levels_of_points@.len() ==> (#[trigger] levels_of_points@[k])@.len()
                <= 1_000_000_000,
    ensures
        levels_of_points@.len() < 2 ==> res@ == "0h 0m 0s"@,
        levels_of_points@.len() >= 2 ==> res@ == dec_seq(print_minutes(rows(levels_of_points@),
            average_speed as int) / 60) + "h "@ + dec_seq(print_minutes(rows(levels_of_points@),
            average_speed as int) % 60) + "m"@,
{
    let ghost m = rows(levels_of_points@);
    let levels: usize = levels_of_points.len();
    if levels < 2 {
        return String::from_str("0h 0m 0s");
    }
    let ghost dbound = MAX_PAIR_DISTANCE as int;
    let mut total: u128 = 0;
    let mut i: usize = 1;
    while i < levels
        invariant
            m == rows(levels_of_points@),
            stack_in_range(m),
            levels == m.len(),
            2 <= levels <= 1_000_000_000,
            forall|k: int| 0 <= k < m.len() ==> (#[trigger] m[k]).len() <= 1_000_000_000,
            1 <= i <= levels,
            total as int == total_distance(m, i as int),
            dbound == MAX_PAIR_DISTANCE as int,
        decreases levels - i,
    {
        let prev_len: usize = levels_of_points[i - 1].len();
        let cur_len: usize = levels_of_points[i].len();
        let n: usize = if prev_len < cur_len { prev_len } else { cur_len };
        proof {
            lemma_total_distance_bound(m, i as int);
        }
        let mut j: usize = 0;
        while j < n
            invariant
                m == rows(levels_of_points@),
                stack_in_range(m),
                levels == m.len(),
                2 <= levels <= 1_000_000_000,
                forall|k: int| 0 <= k < m.len() ==> (#[trigger] m[k]).len() <= 1_000_000_000,
                1 <= i < levels,
                prev_len == m[i - 1].len(),
                cur_len == m[i as int].len(),
                n == min_len(m[i - 1], m[i as int]),
                j <= n,
                total as int == total_distance(m, i as int) + pair_sum(m[i - 1], m[i as int],
                    j as int),
                total_distance(m, i as int) <= (i as int) * 1_000_000_000 * dbound,
                dbound == MAX_PAIR_DISTANCE as int,
            decreases n - j,
        {
            let point1: RawPoint = levels_of_points[i - 1][j];
            let point2: RawPoint = levels_of_points[i][j];
            proof {
                assert(m[i - 1][j as int].in_range());
                assert(m[i as int][j as int].in_range());
            }
            let dx: i64 = point2.x - point1.x;
            let dy: i64 = point2.y - point1.y;
            let dz: i64 = point2.z - point1.z;
            let dx2: i128 = mul_wide(dx as i128, dx as i128, 4_000_000_000_000_000_000,
                4_000_000_000_000_000_000);
            let dy2: i128 = mul_wide(dy as i128, dy as i128, 4_000_000_000_000_000_000,
                4_000_000_000_000_000_000);
            let dz2: i128 = mul_wide(dz as i128, dz as i128, 4_000_000_000_000_000_000,
                4_000_000_000_000_000_000);
            proof {
                assert(dx2 >= 0 && dy2 >= 0 && dz2 >= 0) by (nonlinear_arith)
                    requires
                        dx2 == dx * dx,
                        dy2 == dy * dy,
                        dz2 == dz * dz,
                ;
            }
            let dist: u128 = isqrt_exec((dx2 + dy2 + dz2) as u128);
            proof {
                lemma_pair_distance_bound(m[i - 1][j as int], m[i as int][j as int]);
                lemma_pair_sum_bound(m[i - 1], m[i as int], j as int);
                assert((i as int) * 1_000_000_000 * dbound + (j as int) * dbound + dbound
                    <= 2_000_000_000_000_000_000_000_000_000_000_000_000_000) by (nonlinear_arith)
                    requires
                        1 <= i <= 1_000_000_000,
                        0 <= j <= 1_000_000_000,
                        dbound == 4_000_000_000_000_000_000,
                ;
            }
            total = total + dist;
            j = j + 1;
        }
        proof {
            assert(total as int == total_distance(m, i + 1));
        }
        i = i + 1;
    }
    let speed: u128 = average_speed as u128;
    proof {
        lemma_total_distance_bound(m, levels as int);
        assert((levels as int) * 1_000_000_000 * dbound
            <= 2_000_000_000_000_000_000_000_000_000_000_000_000_000) by (nonlinear_arith)
            requires
                0 <= levels as int <= 1_000_000_000,
                dbound == 4_000_000_000_000_000_000,
        ;
    }
    let rounded_minutes: u128 = (total + speed - 1) / speed;
    let hours: u128 = rounded_minutes / 60;
    let minutes: u128 = rounded_minutes % 60;
    proof {
        assert(rounded_minutes as int == print_minutes(m, average_speed as int));
    }
    let res: String = dec_string(hours).concat("h ").concat(dec_string(minutes).as_str()).concat(
        "m");
    res
}

} // verus!
