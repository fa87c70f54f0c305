use vstd::prelude::*;

verus! {

/// The +1 / -1 assignment that a hyperplane cut gives: vertex i gets +1
/// when its row of V lies strictly on the positive side of the hyperplane
/// (`above[i]`) and -1 otherwise, so that a row on the hyperplane gets -1.
/// Every value is +1 or -1.
pub fn signs_of(above: &Vec<bool>) -> (x: Vec<i8>)
    ensures
        x@.len() == above@.len(),
        forall|i: int| 0 <= i < x@.len() ==> #[trigger] x@[i] == if above@[i] { 1i8 } else { -1i8 },
        forall|i: int| 0 <= i < x@.len() ==> #[trigger] x@[i] == 1 || x@[i] == -1,
{
    let mut x: Vec<i8> = Vec::new();
    let mut i: usize = 0;
    while i < above.len()
        invariant
            i <= above@.len(),
            x@.len() == i,
            forall|j: int| 0 <= j < i ==> #[trigger] x@[j] == if above@[j] { 1i8 } else { -1i8 },
        decreases above@.len() - i,
    {
        if above[i] {
            x.push(1);
        } else {
            x.push(-1);
        }
        i = i + 1;
    }
    x
}

/// The line that holds one value of a +1 / -1 assignment in a solution file.
pub open spec fn sign_line(v: i8) -> Seq<u8> {
    if v == 1 {
        seq![49u8, 10u8]
    } else {
        seq![45u8, 49u8, 10u8]
    }
}

/// The solution-file lines of an assignment, one value per line in order.
pub open spec fn sign_lines_of(x: Seq<i8>) -> Seq<u8>
    decreases x.len(),
{
    if x.len() == 0 {
        seq![]
    } else {
        sign_lines_of(x.drop_last()) + sign_line(x.last())
    }
}

/// Writes each value of a +1 / -1 assignment on its own line, as `1` or
/// `-1`; these are the lines that follow the objective in a solution file.
pub fn sign_lines(x: &Vec<i8>) -> (r: Vec<u8>)
    requires
        forall|i: int| 0 <= i < x@.len() ==> #[trigger] x@[i] == 1 || x@[i] == -1,
    ensures
        r@ == sign_lines_of(x@),
{
    let mut r: Vec<u8> = Vec::new();
    let mut i: usize = 0;
    while i < x.len()
        invariant
            i <= x@.len(),
            r@ == sign_lines_of(x@.take(i as int)),
        decreases x@.len() - i,
    {
        assert(x@.take(i + 1).drop_last() =~= x@.take(i as int));
        if x[i] == 1 {
            r.push(49);
        } else {
            r.push(45);
            r.push(49);
        }
        r.push(10);
        assert(r@ =~= sign_lines_of(x@.take(i + 1)));
        i = i + 1;
    }
    assert(x@.take(i as int) =~= x@);
    r
}

} // verus!
