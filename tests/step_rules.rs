use mixingcut::step_rules::{generate_step_rule, StepRule};

#[test]
fn is_true() {
    // simple test to get things working
    assert_eq!(1, 1);
}

#[test]
fn step_rule_names_select_their_rule() {
    assert!(matches!(generate_step_rule("grad", 0.25), StepRule::Grad(a) if a == 0.25));
    assert!(matches!(generate_step_rule("grad_adv", 0.25), StepRule::GradAdv(a) if a == 0.25));
    assert!(matches!(generate_step_rule("coord", 0.25), StepRule::Coord(a) if a == 0.25));
    assert!(matches!(generate_step_rule("coord_no_step", 0.25), StepRule::CoordNoStep));
}

#[test]
fn unknown_step_rule_falls_back_to_grad() {
    assert!(matches!(generate_step_rule("newton", 0.5), StepRule::Grad(a) if a == 0.5));
    assert!(matches!(generate_step_rule("", 0.5), StepRule::Grad(a) if a == 0.5));
    assert!(matches!(generate_step_rule("coord_no_stepx", 0.5), StepRule::Grad(a) if a == 0.5));
    assert!(matches!(generate_step_rule("Coord", 0.5), StepRule::Grad(a) if a == 0.5));
}
