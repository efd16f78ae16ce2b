use vstd::prelude::*;

use crate::error::NacaError;
use crate::fraction::Fraction;

verus! {

pub open spec fn abs(x: int) -> int {
    if x < 0 { -x } else { x }
}

/// The common denominator of `linspace(a, b, n)`.
pub open spec fn linspace_den(a: Fraction, b: Fraction, n: int) -> int {
    a.den as int * b.den as int * (n - 1)
}

/// The numerator of point `i` of `linspace(a, b, n)` over `linspace_den`:
/// `a + i * (b - a) / (n - 1)` written over one denominator.
pub open spec fn linspace_num(a: Fraction, b: Fraction, n: int, i: int) -> int {
    a.num as int * b.den as int * (n - 1 - i) + b.num as int * a.den as int * i
}

/// Every point of `linspace(a, b, n)` can be written with machine integers.
pub open spec fn linspace_fits(a: Fraction, b: Fraction, n: int) -> bool {
    &&& linspace_den(a, b, n) <= u64::MAX
    &&& (abs(a.num as int) * b.den as int + abs(b.num as int) * a.den as int) * (n - 1) <= i64::MAX
}

proof fn lemma_point_bounds(x: int, y: int, k: int, i: int, m: int)
    requires
        0 <= i <= k,
        (abs(x) + abs(y)) * k <= m,
    ensures
        abs(x * (k - i)) <= m,
        abs(y * i) <= m,
        abs(x * (k - i) + y * i) <= m,
{
    assert(abs(x * (k - i)) == abs(x) * (k - i)) by (nonlinear_arith)
        requires 0 <= i <= k;
    assert(abs(y * i) == abs(y) * i) by (nonlinear_arith)
        requires 0 <= i;
    assert(abs(x) * (k - i) + abs(y) * i <= (abs(x) + abs(y)) * k) by (nonlinear_arith)
        requires 0 <= i <= k;
}

proof fn lemma_num_step(a: Fraction, b: Fraction, n: int, i: int, j: int)
    ensures
        linspace_num(a, b, n, j) - linspace_num(a, b, n, i)
            == (b.num as int * a.den as int - a.num as int * b.den as int) * (j - i),
{
    assert(linspace_num(a, b, n, j) - linspace_num(a, b, n, i)
        == (b.num as int * a.den as int - a.num as int * b.den as int) * (j - i)) by (nonlinear_arith);
}

proof fn lemma_endpoints(a: Fraction, b: Fraction, n: int)
    ensures
        linspace_num(a, b, n, 0) * a.den as int == a.num as int * linspace_den(a, b, n),
        linspace_num(a, b, n, n - 1) * b.den as int == b.num as int * linspace_den(a, b, n),
{
    assert(linspace_num(a, b, n, 0) * a.den as int == a.num as int * linspace_den(a, b, n))
        by (nonlinear_arith);
    assert(linspace_num(a, b, n, n - 1) * b.den as int == b.num as int * linspace_den(a, b, n))
        by (nonlinear_arith);
}

proof fn lemma_order(p: int, q: int, d: int)
    requires
        d > 0,
    ensures
        p < q ==> p * d < q * d,
        p == q ==> p * d == q * d,
{
    if p < q {
        assert(p * d < q * d) by (nonlinear_arith)
            requires p < q, d > 0;
    }
}

/// `n` evenly spaced points from `a` to `b`, both included.
///
/// Point `i` is `a + i * (b - a) / (n - 1)`, computed on its own and exactly,
/// so the ends are `a` and `b` themselves; the points rise when `a < b`,
/// fall when `b < a` and all equal `a` when the two are equal. Fewer than two
/// points cannot be spaced.
pub fn linspace(a: Fraction, b: Fraction, n: i32) -> (r: Result<Vec<Fraction>, NacaError>)
    requires
        a.wf(),
        b.wf(),
        n >= 2 ==> linspace_fits(a, b, n as int),
    ensures
        n < 2 ==> r == Err::<Vec<Fraction>, NacaError>(NacaError::InvalidArgument),
        n >= 2 ==> r is Ok,
        r matches Ok(v) ==> {
            &&& v@.len() == n
            &&& forall|i: int| 0 <= i < n ==> (#[trigger] v@[i]).wf()
                && v@[i].num == linspace_num(a, b, n as int, i)
                && v@[i].den == linspace_den(a, b, n as int)
            &&& v@[0].same_value(a)
            &&& v@[n - 1].same_value(b)
            &&& a.less_than(b) ==> forall|i: int, j: int|
                0 <= i < j < n ==> (#[trigger] v@[i]).less_than(#[trigger] v@[j])
            &&& b.less_than(a) ==> forall|i: int, j: int|
                0 <= i < j < n ==> (#[trigger] v@[j]).less_than(#[trigger] v@[i])
            &&& a.same_value(b) ==> forall|i: int| 0 <= i < n ==> (#[trigger] v@[i]).same_value(a)
        },
{
    if n < 2 {
        return Err(NacaError::InvalidArgument);
    }
    let ghost k = n - 1;
    proof {
        assert(0 <= a.den as int * b.den as int <= a.den as int * b.den as int * k) by (nonlinear_arith)
            requires k >= 1, a.den > 0, b.den > 0;
        assert(abs(a.num as int) * b.den as int <= 0x8000_0000_0000_0000int * 0xffff_ffff_ffff_ffffint)
            by (nonlinear_arith)
            requires abs(a.num as int) <= 0x8000_0000_0000_0000int, b.den as int <= 0xffff_ffff_ffff_ffffint;
        assert(abs(b.num as int) * a.den as int <= 0x8000_0000_0000_0000int * 0xffff_ffff_ffff_ffffint)
            by (nonlinear_arith)
            requires abs(b.num as int) <= 0x8000_0000_0000_0000int, a.den as int <= 0xffff_ffff_ffff_ffffint;
        assert(abs(a.num as int) * b.den as int == abs(a.num as int * b.den as int)) by (nonlinear_arith);
        assert(abs(b.num as int) * a.den as int == abs(b.num as int * a.den as int)) by (nonlinear_arith);
    }
    let steps: i128 = (n - 1) as i128;
    let from: i128 = (a.num as i128) * (b.den as i128);
    let to: i128 = (b.num as i128) * (a.den as i128);
    let den: u64 = ((a.den as u128) * (b.den as u128) * (steps as u128)) as u64;
    let mut v: Vec<Fraction> = Vec::new();
    let mut i: i32 = 0;
    while i < n
        invariant
            2 <= n,
            0 <= i <= n,
            steps == n - 1,
            from == a.num as int * b.den as int,
            to == b.num as int * a.den as int,
            den == linspace_den(a, b, n as int),
            linspace_fits(a, b, n as int),
            (abs(from as int) + abs(to as int)) * steps <= i64::MAX,
            a.wf(),
            b.wf(),
            v@.len() == i,
            forall|j: int| 0 <= j < i ==> (#[trigger] v@[j]).wf()
                && v@[j].num == linspace_num(a, b, n as int, j)
                && v@[j].den == linspace_den(a, b, n as int),
        decreases n - i,
    {
        proof {
            lemma_point_bounds(from as int, to as int, steps as int, i as int, i64::MAX as int);
            assert(den > 0) by (nonlinear_arith)
                requires den == a.den as int * b.den as int * (n - 1), a.den > 0, b.den > 0, n >= 2;
        }
        let num: i128 = from * (steps - i as i128) + to * (i as i128);
        v.push(Fraction { num: num as i64, den });
        i = i + 1;
    }
    proof {
        let nn = n as int;
        let d = linspace_den(a, b, nn);
        lemma_endpoints(a, b, nn);
        assert(d > 0) by (nonlinear_arith)
            requires d == a.den as int * b.den as int * (nn - 1), a.den > 0, b.den > 0, nn >= 2;
        assert forall|i: int, j: int| 0 <= i < j < nn implies
            (a.less_than(b) ==> v@[i].less_than(v@[j]))
            && (b.less_than(a) ==> v@[j].less_than(v@[i]))
        by {
            lemma_num_step(a, b, nn, i, j);
            let s = b.num as int * a.den as int - a.num as int * b.den as int;
            if s > 0 {
                assert(s * (j - i) > 0) by (nonlinear_arith) requires s > 0, j > i;
                lemma_order(linspace_num(a, b, nn, i), linspace_num(a, b, nn, j), d);
            }
            if s < 0 {
                assert(s * (j - i) < 0) by (nonlinear_arith) requires s < 0, j > i;
                lemma_order(linspace_num(a, b, nn, j), linspace_num(a, b, nn, i), d);
            }
        }
        assert forall|i: int| 0 <= i < nn && a.same_value(b) implies (#[trigger] v@[i]).same_value(a) by {
            lemma_num_step(a, b, nn, 0, i);
            assert((b.num as int * a.den as int - a.num as int * b.den as int) * (i - 0) == 0) by (nonlinear_arith)
                requires b.num as int * a.den as int - a.num as int * b.den as int == 0;
        }
    }
    Ok(v)
}

/// The angle, as a fraction of pi, of sample `k` of a surface with `h`
/// samples. Sample `k` lies at `x = c / 2 * (1 + cos(pi * angle))`, so the
/// samples run from the leading edge (angle 1) to the trailing edge (angle 0)
/// and crowd where the cosine is flat. A surface of one sample has only the
/// trailing edge.
pub open spec fn surface_angle(h: int, k: int) -> Fraction {
    if h == 1 {
        Fraction { num: 0, den: 1 }
    } else {
        Fraction { num: (h - 1 - k) as i64, den: (h - 1) as u64 }
    }
}

/// The angle, as a fraction of pi, of sample `i` of `n` cosine-spaced
/// samples that go round the whole chord and back. An odd count runs the
/// angle from 0 to 2 evenly; an even count spaces `n / 2` angles from 0 to 1
/// and repeats them in reverse.
pub open spec fn cosine_angle(n: int, i: int) -> Fraction {
    if n % 2 == 1 {
        Fraction { num: (2 * i) as i64, den: (n - 1) as u64 }
    } else {
        let h = n / 2;
        let k = if i < h { i } else { n - 1 - i };
        if h == 1 {
            Fraction { num: 0, den: 1 }
        } else {
            Fraction { num: k as i64, den: (h - 1) as u64 }
        }
    }
}

proof fn lemma_from_zero(b: Fraction, n: int)
    requires
        b.den == 1,
        0 <= b.num <= 2,
        2 <= n <= i32::MAX,
    ensures
        linspace_fits(Fraction { num: 0, den: 1 }, b, n),
        linspace_den(Fraction { num: 0, den: 1 }, b, n) == n - 1,
        forall|i: int| #[trigger] linspace_num(Fraction { num: 0, den: 1 }, b, n, i) == b.num * i,
{
    let z = Fraction { num: 0, den: 1 };
    assert(linspace_den(z, b, n) == n - 1) by (nonlinear_arith)
        requires b.den == 1, z.den == 1;
    assert((abs(z.num as int) * b.den as int + abs(b.num as int) * z.den as int) * (n - 1)
        == b.num * (n - 1)) by (nonlinear_arith)
        requires b.den == 1, z.den == 1, z.num == 0, b.num >= 0;
    assert(b.num * (n - 1) <= 2 * (n - 1)) by (nonlinear_arith)
        requires 0 <= b.num <= 2, n >= 2;
    assert forall|i: int| #[trigger] linspace_num(z, b, n, i) == b.num * i by {
        assert(linspace_num(z, b, n, i) == b.num * i) by (nonlinear_arith)
            requires b.den == 1, z.den == 1, z.num == 0;
    }
}

fn unit_steps(h: i32) -> (r: Vec<Fraction>)
    requires
        h >= 1,
    ensures
        r@.len() == h,
        forall|k: int| 0 <= k < h ==> #[trigger] r@[k] == (if h == 1 {
            Fraction { num: 0, den: 1 }
        } else {
            Fraction { num: k as i64, den: (h - 1) as u64 }
        }),
{
    if h == 1 {
        let v = vec![Fraction::whole(0)];
        assert(v@[0] == Fraction { num: 0, den: 1 });
        return v;
    }
    let zero = Fraction::whole(0);
    let one = Fraction::whole(1);
    proof { lemma_from_zero(one, h as int); }
    match linspace(zero, one, h) {
        Ok(v) => {
            assert forall|k: int| 0 <= k < h implies #[trigger] v@[k] == (Fraction {
                num: k as i64,
                den: (h - 1) as u64,
            }) by {
                assert(v@[k].num == linspace_num(zero, one, h as int, k));
            }
            v
        },
        Err(_) => vec![],
    }
}

/// The angles of the samples of one surface with `h` samples, ordered from
/// the leading edge to the trailing edge (see `surface_angle`).
pub fn surface_angles(h: i32) -> (r: Result<Vec<Fraction>, NacaError>)
    ensures
        h < 1 ==> r == Err::<Vec<Fraction>, NacaError>(NacaError::InvalidArgument),
        h >= 1 ==> r is Ok,
        r matches Ok(v) ==> {
            &&& v@.len() == h
            &&& forall|k: int| 0 <= k < h ==> #[trigger] v@[k] == surface_angle(h as int, k)
        },
{
    if h < 1 {
        return Err(NacaError::InvalidArgument);
    }
    let steps = unit_steps(h);
    let mut v: Vec<Fraction> = Vec::new();
    let mut k: i32 = 0;
    while k < h
        invariant
            1 <= h,
            0 <= k <= h,
            steps@.len() == h,
            forall|j: int| 0 <= j < h ==> #[trigger] steps@[j] == (if h == 1 {
                Fraction { num: 0, den: 1 }
            } else {
                Fraction { num: j as i64, den: (h - 1) as u64 }
            }),
            v@.len() == k,
            forall|j: int| 0 <= j < k ==> #[trigger] v@[j] == surface_angle(h as int, j),
        decreases h - k,
    {
        let a = steps[(h - 1 - k) as usize];
        v.push(a);
        k = k + 1;
    }
    Ok(v)
}

/// The angles of `n` cosine-spaced samples over the chord and back (see
/// `cosine_angle`). Sample `i` and sample `n - 1 - i` lie at the same place
/// along the chord.
pub fn cosine_spaced_angles(n: i32) -> (r: Result<Vec<Fraction>, NacaError>)
    ensures
        n < 2 ==> r == Err::<Vec<Fraction>, NacaError>(NacaError::InvalidArgument),
        n >= 2 ==> r is Ok,
        r matches Ok(v) ==> {
            &&& v@.len() == n
            &&& forall|i: int| 0 <= i < n ==> #[trigger] v@[i] == cosine_angle(n as int, i)
            &&& n % 2 == 0 ==> forall|i: int| 0 <= i < n ==> v@[i] == #[trigger] v@[n - 1 - i]
            &&& n % 2 == 1 ==> forall|i: int| 0 <= i < n ==> v@[i].num + (#[trigger] v@[n - 1 - i]).num
                == 2 * v@[i].den && v@[i].den == v@[n - 1 - i].den
        },
{
    if n < 2 {
        return Err(NacaError::InvalidArgument);
    }
    if n % 2 == 1 {
        let zero = Fraction::whole(0);
        let two = Fraction::whole(2);
        proof { lemma_from_zero(two, n as int); }
        let r = linspace(zero, two, n);
        match r {
            Ok(v) => {
                assert forall|i: int| 0 <= i < n implies #[trigger] v@[i] == cosine_angle(n as int, i) by {
                    assert(v@[i].num == linspace_num(zero, two, n as int, i));
                }
                return Ok(v);
            }
            Err(e) => return Err(e),
        }
    }
    let h: i32 = n / 2;
    let steps = unit_steps(h);
    let mut v: Vec<Fraction> = Vec::new();
    let mut i: i32 = 0;
    while i < n
        invariant
            n % 2 == 0,
            2 <= n,
            h == n / 2,
            0 <= i <= n,
            steps@.len() == h,
            forall|j: int| 0 <= j < h ==> #[trigger] steps@[j] == (if h == 1 {
                Fraction { num: 0, den: 1 }
            } else {
                Fraction { num: j as i64, den: (h - 1) as u64 }
            }),
            v@.len() == i,
            forall|j: int| 0 <= j < i ==> #[trigger] v@[j] == cosine_angle(n as int, j),
        decreases n - i,
    {
        let k: i32 = if i < h { i } else { n - 1 - i };
        let a = steps[k as usize];
        v.push(a);
        i = i + 1;
    }
    Ok(v)
}

/// How many samples each surface gets for a requested total: an odd total
/// is raised by one so that the two surfaces share it evenly. A total below
/// two is refused.
pub fn half_count(sample_count: i32) -> (r: Result<i32, NacaError>)
    ensures
        sample_count < 2 ==> r == Err::<i32, NacaError>(NacaError::InvalidArgument),
        sample_count >= 2 ==> r == Ok::<i32, NacaError>(((sample_count + 1) / 2) as i32),
{
    if sample_count < 2 {
        Err(NacaError::InvalidArgument)
    } else {
        Ok(sample_count / 2 + sample_count % 2)
    }
}

} // verus!
