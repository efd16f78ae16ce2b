use vstd::prelude::*;

use crate::designation::{decode, is_designation, parse_designation, Designation};
use crate::error::NacaError;
use crate::fraction::Fraction;
use crate::sampling::{half_count, surface_angle, surface_angles};

verus! {

/// Everything about an airfoil that is fixed before any coordinate is
/// evaluated: its decoded designation, the number of samples on each
/// surface, and the angle of each sample (see `surface_angle`), from the
/// leading edge to the trailing edge. Both surfaces use the same angles.
#[derive(Debug, Clone)]
pub struct AirfoilPlan {
    pub designation: Designation,
    pub half_num: i32,
    pub angles: Vec<Fraction>,
}

impl AirfoilPlan {
    /// The plan that a designation and a requested number of samples give.
    pub open spec fn planned(&self, name: Seq<char>, sample_count: int) -> bool {
        &&& self.designation == decode(name)
        &&& self.designation.wf()
        &&& self.half_num == (sample_count + 1) / 2
        &&& self.angles@.len() == self.half_num
        &&& forall|k: int|
            0 <= k < self.half_num ==> #[trigger] self.angles@[k] == surface_angle(
                self.half_num as int,
                k,
            )
    }
}

/// Decodes the designation and lays out the samples of an airfoil.
/// A malformed designation is refused first; then a sample count below two.
pub fn plan_airfoil(name: &str, sample_count: i32) -> (r: Result<AirfoilPlan, NacaError>)
    ensures
        !is_designation(name@) ==> (r matches Err(e) && e == NacaError::InvalidDesignation),
        is_designation(name@) && sample_count < 2 ==> (r matches Err(e) && e
            == NacaError::InvalidArgument),
        is_designation(name@) && sample_count >= 2 ==> (r matches Ok(p) && p.planned(
            name@,
            sample_count as int,
        )),
{
    let designation = match parse_designation(name) {
        Ok(d) => d,
        Err(e) => return Err(e),
    };
    let half_num = match half_count(sample_count) {
        Ok(h) => h,
        Err(e) => return Err(e),
    };
    let angles = match surface_angles(half_num) {
        Ok(a) => a,
        Err(e) => return Err(e),
    };
    Ok(AirfoilPlan { designation, half_num, angles })
}

/// Planning is deterministic: two plans made from the same designation and
/// the same sample count agree in the designation, in the number of samples
/// per surface and in every sample angle.
pub proof fn lemma_plan_deterministic(
    first: AirfoilPlan,
    second: AirfoilPlan,
    name: Seq<char>,
    sample_count: int,
)
    requires
        first.planned(name, sample_count),
        second.planned(name, sample_count),
    ensures
        first.designation == second.designation,
        first.half_num == second.half_num,
        first.angles@ == second.angles@,
{
    assert(first.angles@ =~= second.angles@);
}

/// The points of both surfaces as one closed trace: from the trailing edge
/// along the upper surface to the leading edge, then along the lower surface
/// back to the trailing edge. Each surface is given from its leading edge to
/// its trailing edge.
pub open spec fn trace_of<T>(upper: Seq<T>, lower: Seq<T>) -> Seq<T> {
    Seq::new(upper.len(), |k: int| upper[upper.len() - 1 - k]) + lower
}

/// Joins the two surfaces into one boundary trace (see `trace_of`).
pub fn boundary_trace<T: Copy>(upper: &Vec<T>, lower: &Vec<T>) -> (r: Vec<T>)
    requires
        upper@.len() + lower@.len() <= usize::MAX,
    ensures
        r@ == trace_of(upper@, lower@),
        upper@.len() == lower@.len() ==> forall|k: int|
            0 <= k < upper@.len() ==> r@[k] == upper@[upper@.len() - 1 - k] && #[trigger] r@[2
                * upper@.len() - 1 - k] == lower@[upper@.len() - 1 - k],
{
    let mut r: Vec<T> = Vec::new();
    let n = upper.len();
    let mut k: usize = 0;
    while k < n
        invariant
            n == upper@.len(),
            0 <= k <= n,
            r@ == Seq::new(k as nat, |j: int| upper@[n - 1 - j]),
        decreases n - k,
    {
        r.push(upper[n - 1 - k]);
        k = k + 1;
        assert(r@ =~= Seq::new(k as nat, |j: int| upper@[n - 1 - j]));
    }
    let mut i: usize = 0;
    while i < lower.len()
        invariant
            n == upper@.len(),
            0 <= i <= lower@.len(),
            r@ == Seq::new(n as nat, |j: int| upper@[n - 1 - j]) + lower@.subrange(0, i as int),
        decreases lower@.len() - i,
    {
        r.push(lower[i]);
        i = i + 1;
        assert(r@ =~= Seq::new(n as nat, |j: int| upper@[n - 1 - j]) + lower@.subrange(0, i as int));
    }
    assert(lower@.subrange(0, lower@.len() as int) =~= lower@);
    r
}

} // verus!
