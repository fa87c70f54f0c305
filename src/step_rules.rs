use vstd::prelude::*;
use vstd::string::StrSliceExecFns;

verus! {

/// The update rule applied to V once per iteration.
///
/// The step size `A` is the "safe" step 1 / ||Q||_row chosen once at
/// startup; it is generic so that the rule can be resolved without touching
/// the numeric type that the solver works in.
#[derive(Clone, Copy, Debug)]
pub enum StepRule<A> {
    /// Projected gradient: V <- project(V - alpha * 2QV).
    Grad(A),
    /// Gradient step with a step size from a quadratic model along -2QV.
    GradAdv(A),
    /// Gauss-Seidel sweep with a step of size alpha on each row.
    Coord(A),
    /// Gauss-Seidel sweep that moves each row to its exact minimiser.
    CoordNoStep,
}

/// The rule that a configured name selects; unknown names fall back to
/// projected gradient.
pub open spec fn rule_for_name<A>(name: Seq<char>, alpha: A) -> StepRule<A> {
    if name == "grad"@ {
        StepRule::Grad(alpha)
    } else if name == "grad_adv"@ {
        StepRule::GradAdv(alpha)
    } else if name == "coord"@ {
        StepRule::Coord(alpha)
    } else if name == "coord_no_step"@ {
        StepRule::CoordNoStep
    } else {
        StepRule::Grad(alpha)
    }
}

fn same_text(a: &str, b: &str) -> (r: bool)
    ensures
        r == (a@ == b@),
{
    let n = a.unicode_len();
    if n != b.unicode_len() {
        return false;
    }
    let mut i: usize = 0;
    while i < n
        invariant
            n == a@.len(),
            n == b@.len(),
            i <= n,
            forall|j: int| 0 <= j < i ==> a@[j] == b@[j],
        decreases n - i,
    {
        if a.get_char(i) != b.get_char(i) {
            return false;
        }
        i = i + 1;
    }
    assert(a@ =~= b@);
    true
}

/// Resolves a step-rule name (`grad`, `grad_adv`, `coord`,
/// `coord_no_step`) together with the safe step size; any other name gives
/// projected gradient.
pub fn generate_step_rule<A>(step_rule: &str, alpha: A) -> (r: StepRule<A>)
    ensures
        r == rule_for_name(step_rule@, alpha),
{
    if same_text(step_rule, "grad") {
        StepRule::Grad(alpha)
    } else if same_text(step_rule, "grad_adv") {
        StepRule::GradAdv(alpha)
    } else if same_text(step_rule, "coord") {
        StepRule::Coord(alpha)
    } else if same_text(step_rule, "coord_no_step") {
        StepRule::CoordNoStep
    } else {
        StepRule::Grad(alpha)
    }
}

} // verus!
