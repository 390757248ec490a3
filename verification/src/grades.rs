use vstd::prelude::*;

verus! {

/// A grade on the Danish seven-step scale.
pub type Grade = i8;

/// A student's name.
pub type Student = String;

/// A subject's name.
pub type Subject = String;

/// The seven steps of the Danish grading scale, lowest first.
pub const DANISH_GRADES: [Grade; 7] = [-3, 0, 2, 4, 7, 10, 12];

/// Whether `g` is one of the seven Danish grades.
pub open spec fn is_danish(g: i8) -> bool {
    g == -3 || g == 0 || g == 2 || g == 4 || g == 7 || g == 10 || g == 12
}

/// The Danish grades as a sequence, lowest first.
pub open spec fn danish_seq() -> Seq<i8> {
    seq![-3i8, 0i8, 2i8, 4i8, 7i8, 10i8, 12i8]
}

/// Whether `g` is one of the seven Danish grades.
pub fn is_valid_danish_grade(g: Grade) -> (r: bool)
    ensures
        r == is_danish(g),
        r == danish_seq().contains(g),
{
    let grades = DANISH_GRADES;
    let mut found = false;
    for i in 0..7
        invariant
            grades@ == danish_seq(),
            found == (exists|j: int| 0 <= j < i && grades@[j] == g),
    {
        if grades[i] == g {
            found = true;
        }
    }
    proof {
        if is_danish(g) {
            let j: int = if g == -3 {
                0
            } else if g == 0 {
                1
            } else if g == 2 {
                2
            } else if g == 4 {
                3
            } else if g == 7 {
                4
            } else if g == 10 {
                5
            } else {
                6
            };
            assert(danish_seq()[j] == g);
        }
    }
    found
}

} // verus!
