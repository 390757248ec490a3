use vstd::prelude::*;

use rand::rngs::SmallRng;

use crate::grades::{is_danish, DANISH_GRADES};
use crate::random::random_below;
use crate::text::{chars_of, int_dec, push_all, push_int_dec, string_of};

verus! {

pub const STUDENT_NAMES: [&'static str; 3] = ["Alice", "Bob", "Emma"];

pub const SUBJECT_NAMES: [&'static str; 3] = ["Math", "Science", "English"];

pub const MALFORMED: [&'static str; 5] = [
    "Grade to Alice at Math",
    "remove 12 from Bob",
    "average",
    "show",
    "???",
];

/// A line of a generated script; names are positions in `STUDENT_NAMES`
/// and `SUBJECT_NAMES`.
pub enum ScriptLine {
    Assign { grade: i8, student: int, subject: int },
    ShowStudent(int),
    ShowSubject(int),
    Remove { grade: i8, student: int, subject: int },
    AverageStudent(int),
    AverageSubject(int),
    Malformed(int),
}

/// The text of a script line, with its newline.
pub open spec fn line_text(l: ScriptLine) -> Seq<char> {
    match l {
        ScriptLine::Assign { grade, student, subject } => "Grade "@ + int_dec(grade as int)
            + " to "@ + STUDENT_NAMES@[student]@ + " at "@ + SUBJECT_NAMES@[subject]@ + "\n"@,
        ScriptLine::ShowStudent(i) => "Show student "@ + STUDENT_NAMES@[i]@ + "\n"@,
        ScriptLine::ShowSubject(i) => "Show subject "@ + SUBJECT_NAMES@[i]@ + "\n"@,
        ScriptLine::Remove { grade, student, subject } => "Remove grade "@ + int_dec(grade as int)
            + " from "@ + STUDENT_NAMES@[student]@ + " at "@ + SUBJECT_NAMES@[subject]@ + "\n"@,
        ScriptLine::AverageStudent(i) => "Average student "@ + STUDENT_NAMES@[i]@ + "\n"@,
        ScriptLine::AverageSubject(i) => "Average subject "@ + SUBJECT_NAMES@[i]@ + "\n"@,
        ScriptLine::Malformed(i) => MALFORMED@[i]@ + "\n"@,
    }
}

/// The text of a script: its lines one after the other.
pub open spec fn script_text(ls: Seq<ScriptLine>) -> Seq<char>
    decreases ls.len(),
{
    if ls.len() == 0 {
        Seq::empty()
    } else {
        script_text(ls.drop_last()) + line_text(ls.last())
    }
}

/// Whether the names and the message of a line exist.
pub open spec fn line_fits(l: ScriptLine) -> bool {
    match l {
        ScriptLine::Assign { grade, student, subject } => is_danish(grade) && 0 <= student < 3 && 0
            <= subject < 3,
        ScriptLine::ShowStudent(i) => 0 <= i < 3,
        ScriptLine::ShowSubject(i) => 0 <= i < 3,
        ScriptLine::Remove { grade, student, subject } => is_danish(grade) && 0 <= student < 3 && 0
            <= subject < 3,
        ScriptLine::AverageStudent(i) => 0 <= i < 3,
        ScriptLine::AverageSubject(i) => 0 <= i < 3,
        ScriptLine::Malformed(i) => 0 <= i < 5,
    }
}

/// Whether the line at `j` of `ls` is among the first `n` and assigns
/// `grade` to `student` in `subject`.
pub open spec fn assigned_at(ls: Seq<ScriptLine>, n: int, j: int, grade: i8, student: int, subject: int) -> bool {
    0 <= j < n && ls[j] == (ScriptLine::Assign { grade, student, subject })
}

/// The shape of a generated script: 6 to 10 assignments, then 5 to 8 other
/// lines, every line well formed, and every removal naming a grade that
/// one of the assignments gave to the same student in the same subject.
pub open spec fn script_fits(ls: Seq<ScriptLine>) -> bool {
    exists|n: int| #[trigger] script_shape(ls, n)
}

/// The shape of a generated script whose first `n` lines are its assignments.
pub open spec fn script_shape(ls: Seq<ScriptLine>, n: int) -> bool {
    &&& 6 <= n <= 10
    &&& 5 <= ls.len() - n <= 8
    &&& forall|j: int| 0 <= j < ls.len() ==> line_fits(#[trigger] ls[j])
    &&& forall|j: int| 0 <= j < n ==> (#[trigger] ls[j]) is Assign
    &&& forall|j: int| n <= j < ls.len() ==> !((#[trigger] ls[j]) is Assign)
    &&& forall|j: int|
        n <= j < ls.len() && (#[trigger] ls[j]) is Remove ==> exists|k: int|
            assigned_at(ls, n, k, ls[j]->Remove_grade, ls[j]->Remove_student,
            ls[j]->Remove_subject)
}

fn push_str(out: &mut Vec<char>, s: &str)
    ensures
        final(out)@ == old(out)@ + s@,
{
    push_all(out, chars_of(s).as_slice());
}

/// A grade drawn from the Danish scale.
fn random_grade(rng: &mut SmallRng) -> (g: i8)
    ensures
        is_danish(g),
{
    let grades = DANISH_GRADES;
    let i = random_below(rng, 7);
    grades[i]
}

/// Whether one of the first `n` lines of `ls` assigns `grade` to
/// `student` in `subject`.
pub open spec fn grade_assigned(ls: Seq<ScriptLine>, n: int, grade: i8, student: int, subject: int) -> bool {
    exists|k: int| assigned_at(ls, n, k, grade, student, subject)
}

/// An entry of the assignments made so far: a student, a subject and
/// grades, each of them given by one of the first `n` lines.
spec fn entry_ok(ls: Seq<ScriptLine>, n: int, e: (usize, usize, Vec<i8>)) -> bool {
    &&& e.0 < 3
    &&& e.1 < 3
    &&& e.2@.len() > 0
    &&& forall|g: int|
        0 <= g < e.2@.len() ==> grade_assigned(ls, n, #[trigger] e.2@[g], e.0 as int, e.1 as int)
}

proof fn lemma_grade_assigned_extend(ls: Seq<ScriptLine>, n: int, x: ScriptLine, grade: i8, student: int, subject: int)
    requires
        n <= ls.len(),
        grade_assigned(ls, n, grade, student, subject),
    ensures
        grade_assigned(ls.push(x), n, grade, student, subject),
        grade_assigned(ls.push(x), n + 1, grade, student, subject),
{
    let k = choose|k: int| assigned_at(ls, n, k, grade, student, subject);
    assert(ls.push(x)[k] == ls[k]);
    assert(assigned_at(ls.push(x), n, k, grade, student, subject));
    assert(assigned_at(ls.push(x), n + 1, k, grade, student, subject));
}

/// The position of the entry for `student` and `subject`; `None` when no
/// entry is for that pair.
fn find_pair(assigned: &Vec<(usize, usize, Vec<i8>)>, student: usize, subject: usize) -> (r: Option<usize>)
    ensures
        match r {
            Some(e) => e < assigned@.len() && assigned@[e as int].0 == student && assigned@[e as int].1
                == subject,
            None => forall|e: int|
                0 <= e < assigned@.len() ==> !(#[trigger] assigned@[e].0 == student && assigned@[e].1
                    == subject),
        },
{
    let m = assigned.len();
    for e in 0..m
        invariant
            m == assigned@.len(),
            forall|k: int|
                0 <= k < e ==> !(#[trigger] assigned@[k].0 == student && assigned@[k].1 == subject),
    {
        if assigned[e].0 == student && assigned[e].1 == subject {
            return Some(e);
        }
    }
    None
}

/// A line of a generated script as it was drawn: names are positions in
/// `STUDENT_NAMES` and `SUBJECT_NAMES`, a malformed line a position in
/// `MALFORMED`.
pub enum ScriptEntry {
    Assign { grade: i8, student: usize, subject: usize },
    ShowStudent(usize),
    ShowSubject(usize),
    Remove { grade: i8, student: usize, subject: usize },
    AverageStudent(usize),
    AverageSubject(usize),
    Malformed(usize),
}

impl View for ScriptEntry {
    type V = ScriptLine;

    open spec fn view(&self) -> ScriptLine {
        match *self {
            ScriptEntry::Assign { grade, student, subject } => ScriptLine::Assign {
                grade,
                student: student as int,
                subject: subject as int,
            },
            ScriptEntry::ShowStudent(i) => ScriptLine::ShowStudent(i as int),
            ScriptEntry::ShowSubject(i) => ScriptLine::ShowSubject(i as int),
            ScriptEntry::Remove { grade, student, subject } => ScriptLine::Remove {
                grade,
                student: student as int,
                subject: subject as int,
            },
            ScriptEntry::AverageStudent(i) => ScriptLine::AverageStudent(i as int),
            ScriptEntry::AverageSubject(i) => ScriptLine::AverageSubject(i as int),
            ScriptEntry::Malformed(i) => ScriptLine::Malformed(i as int),
        }
    }
}

/// The lines of a sequence of drawn entries.
pub open spec fn entry_views(es: Seq<ScriptEntry>) -> Seq<ScriptLine> {
    es.map_values(|e: ScriptEntry| e@)
}

/// Writes one line of a script.
fn push_line(out: &mut Vec<char>, e: &ScriptEntry)
    requires
        line_fits(e@),
    ensures
        final(out)@ == old(out)@ + line_text(e@),
{
    match e {
        ScriptEntry::Assign { grade, student, subject } => {
            push_str(out, "Grade ");
            push_int_dec(out, *grade as i64);
            push_str(out, " to ");
            push_str(out, STUDENT_NAMES[*student]);
            push_str(out, " at ");
            push_str(out, SUBJECT_NAMES[*subject]);
        },
        ScriptEntry::ShowStudent(i) => {
            push_str(out, "Show student ");
            push_str(out, STUDENT_NAMES[*i]);
        },
        ScriptEntry::ShowSubject(i) => {
            push_str(out, "Show subject ");
            push_str(out, SUBJECT_NAMES[*i]);
        },
        ScriptEntry::Remove { grade, student, subject } => {
            push_str(out, "Remove grade ");
            push_int_dec(out, *grade as i64);
            push_str(out, " from ");
            push_str(out, STUDENT_NAMES[*student]);
            push_str(out, " at ");
            push_str(out, SUBJECT_NAMES[*subject]);
        },
        ScriptEntry::AverageStudent(i) => {
            push_str(out, "Average student ");
            push_str(out, STUDENT_NAMES[*i]);
        },
        ScriptEntry::AverageSubject(i) => {
            push_str(out, "Average subject ");
            push_str(out, SUBJECT_NAMES[*i]);
        },
        ScriptEntry::Malformed(i) => {
            push_str(out, MALFORMED[*i]);
        },
    }
    push_str(out, "\n");
    assert(final(out)@ =~= old(out)@ + line_text(e@));
}

/// The text of the script whose lines are `entries`, one line each.
pub fn script_of(entries: &Vec<ScriptEntry>) -> (r: String)
    requires
        forall|i: int| 0 <= i < entries@.len() ==> line_fits(#[trigger] entries@[i]@),
    ensures
        r@ == script_text(entry_views(entries@)),
{
    let ghost ls = entry_views(entries@);
    let mut out: Vec<char> = Vec::new();
    let n = entries.len();
    for i in 0..n
        invariant
            n == entries@.len(),
            ls == entry_views(entries@),
            forall|j: int| 0 <= j < entries@.len() ==> line_fits(#[trigger] entries@[j]@),
            out@ == script_text(ls.take(i as int)),
    {
        assert(ls.take(i + 1).drop_last() =~= ls.take(i as int));
        assert(ls.take(i + 1).last() == entries@[i as int]@);
        push_line(&mut out, &entries[i]);
    }
    assert(ls.take(n as int) =~= ls);
    string_of(out.as_slice())
}

/// A random grade book script: 6 to 10 assignments of Danish grades among
/// three students and three subjects, then 5 to 8 lines that show, remove
/// (a grade assigned before), average, or are malformed.
pub fn generate_script(rng: &mut SmallRng) -> (r: String)
    ensures
        exists|ls: Seq<ScriptLine>| script_fits(ls) && r@ == script_text(ls),
{
    let mut plan: Vec<ScriptEntry> = Vec::new();
    let ghost mut ls: Seq<ScriptLine> = Seq::empty();
    // The grades assigned so far, per student and subject, in the order
    // the pairs first got one.
    let mut assigned: Vec<(usize, usize, Vec<i8>)> = Vec::new();
    let assign_count = 6 + random_below(rng, 5);
    for t in 0..assign_count
        invariant
            6 <= assign_count <= 10,
            ls.len() == t,
            entry_views(plan@) == ls,
            forall|j: int| 0 <= j < ls.len() ==> (#[trigger] ls[j]) is Assign && line_fits(ls[j]),
            t > 0 ==> assigned@.len() > 0,
            forall|e: int| 0 <= e < assigned@.len() ==> entry_ok(ls, t as int, #[trigger] assigned@[e]),
    {
        let grade = random_grade(rng);
        let student = random_below(rng, 3);
        let subject = random_below(rng, 3);
        let ghost line = ScriptLine::Assign { grade, student: student as int, subject: subject as int };
        let ghost old_ls = ls;
        let ghost old_assigned = assigned@;
        proof {
            ls = ls.push(line);
            assert(ls[t as int] == line);
            assert(assigned_at(ls, t + 1, t as int, grade, student as int, subject as int));
            assert forall|e: int| 0 <= e < old_assigned.len() implies entry_ok(
                ls,
                t + 1,
                #[trigger] old_assigned[e],
            ) by {
                let a = old_assigned[e];
                assert forall|g: int| 0 <= g < a.2@.len() implies grade_assigned(
                    ls,
                    t + 1,
                    #[trigger] a.2@[g],
                    a.0 as int,
                    a.1 as int,
                ) by {
                    assert(entry_ok(old_ls, t as int, old_assigned[e]));
                    lemma_grade_assigned_extend(old_ls, t as int, line, a.2@[g], a.0 as int, a.1 as int);
                }
            }
        }
        match find_pair(&assigned, student, subject) {
            Some(e) => {
                let mut entry = assigned.remove(e);
                entry.2.push(grade);
                assigned.insert(e, entry);
                proof {
                    assert(assigned@ =~= old_assigned.update(e as int, entry));
                    assert forall|g: int| 0 <= g < entry.2@.len() implies grade_assigned(
                        ls,
                        t + 1,
                        #[trigger] entry.2@[g],
                        entry.0 as int,
                        entry.1 as int,
                    ) by {
                        if g < entry.2@.len() - 1 {
                            assert(entry.2@[g] == old_assigned[e as int].2@[g]);
                            assert(entry_ok(ls, t + 1, old_assigned[e as int]));
                        }
                    }
                    assert(entry_ok(ls, t + 1, entry));
                }
            },
            None => {
                let entry = (student, subject, vec![grade]);
                assigned.push(entry);
                proof {
                    assert(entry.2@ =~= seq![grade]);
                    assert(entry_ok(ls, t + 1, entry));
                }
            },
        }
        proof {
            assert forall|e: int| 0 <= e < assigned@.len() implies entry_ok(
                ls,
                t + 1,
                #[trigger] assigned@[e],
            ) by {
                if e < old_assigned.len() && assigned@[e] == old_assigned[e] {
                    assert(entry_ok(ls, t + 1, old_assigned[e]));
                }
            }
        }
        plan.push(ScriptEntry::Assign { grade, student, subject });
        proof {
            assert(ls.drop_last() =~= old_ls);
            assert(entry_views(plan@) =~= ls);
            assert forall|j: int| 0 <= j < ls.len() implies (#[trigger] ls[j]) is Assign && line_fits(
                ls[j],
            ) by {
                if j < old_ls.len() {
                    assert(ls[j] == old_ls[j]);
                }
            }
        }
    }
    let ghost prefix = ls;
    let ac = assign_count;
    let mixed_count = 5 + random_below(rng, 4);
    for t in 0..mixed_count
        invariant
            6 <= ac <= 10,
            5 <= mixed_count <= 8,
            prefix.len() == ac,
            ls.len() == ac + t,
            entry_views(plan@) == ls,
            forall|j: int| 0 <= j < ac ==> ls[j] == prefix[j],
            forall|j: int| 0 <= j < ls.len() ==> line_fits(#[trigger] ls[j]),
            forall|j: int| 0 <= j < ac ==> (#[trigger] ls[j]) is Assign,
            forall|j: int| ac <= j < ls.len() ==> !((#[trigger] ls[j]) is Assign),
            forall|j: int|
                ac <= j < ls.len() && (#[trigger] ls[j]) is Remove ==> grade_assigned(
                    prefix,
                    ac as int,
                    ls[j]->Remove_grade,
                    ls[j]->Remove_student,
                    ls[j]->Remove_subject,
                ),
            assigned@.len() > 0,
            forall|e: int| 0 <= e < assigned@.len() ==> entry_ok(prefix, ac as int, #[trigger] assigned@[e]),
    {
        let ghost old_ls = ls;
        let ghost line: ScriptLine;
        let choice = random_below(rng, 100);
        if choice < 20 {
            let i = random_below(rng, 3);
            plan.push(ScriptEntry::ShowStudent(i));
            proof {
                line = ScriptLine::ShowStudent(i as int);
            }
        } else if choice < 40 {
            let i = random_below(rng, 3);
            plan.push(ScriptEntry::ShowSubject(i));
            proof {
                line = ScriptLine::ShowSubject(i as int);
            }
        } else if choice < 50 {
            let (grade, student, subject) = if assigned.len() > 0 {
                let p = random_below(rng, assigned.len());
                let gs = &assigned[p].2;
                proof {
                    assert(entry_ok(prefix, ac as int, assigned@[p as int]));
                }
                let gi = random_below(rng, gs.len());
                proof {
                    assert(grade_assigned(
                        prefix,
                        ac as int,
                        assigned@[p as int].2@[gi as int],
                        assigned@[p as int].0 as int,
                        assigned@[p as int].1 as int,
                    ));
                }
                (gs[gi], assigned[p].0, assigned[p].1)
            } else {
                let grade = random_grade(rng);
                let student = random_below(rng, 3);
                let subject = random_below(rng, 3);
                (grade, student, subject)
            };
            plan.push(ScriptEntry::Remove { grade, student, subject });
            proof {
                line = ScriptLine::Remove { grade, student: student as int, subject: subject as int };
                let k = choose|k: int|
                    assigned_at(prefix, ac as int, k, grade, student as int, subject as int);
                assert(ls[k] == prefix[k]);
                assert(line_fits(ls[k]));
            }
        } else if choice < 75 {
            let i = random_below(rng, 3);
            plan.push(ScriptEntry::AverageStudent(i));
            proof {
                line = ScriptLine::AverageStudent(i as int);
            }
        } else if choice < 95 {
            let i = random_below(rng, 3);
            plan.push(ScriptEntry::AverageSubject(i));
            proof {
                line = ScriptLine::AverageSubject(i as int);
            }
        } else {
            let i = random_below(rng, 5);
            plan.push(ScriptEntry::Malformed(i));
            proof {
                line = ScriptLine::Malformed(i as int);
            }
        }
        proof {
            ls = ls.push(line);
            assert(ls.drop_last() =~= old_ls);
            assert(ls[ls.len() - 1] == line);
            assert(entry_views(plan@) =~= ls);
            assert forall|j: int| 0 <= j < ls.len() implies line_fits(#[trigger] ls[j]) by {
                if j < old_ls.len() {
                    assert(ls[j] == old_ls[j]);
                }
            }
            assert forall|j: int|
                ac <= j < ls.len() && (#[trigger] ls[j]) is Remove implies grade_assigned(
                    prefix,
                    ac as int,
                    ls[j]->Remove_grade,
                    ls[j]->Remove_student,
                    ls[j]->Remove_subject,
                ) by {
                if j < old_ls.len() {
                    assert(ls[j] == old_ls[j]);
                }
            }
            assert forall|j: int| ac <= j < ls.len() implies !((#[trigger] ls[j]) is Assign) by {
                if j < old_ls.len() {
                    assert(ls[j] == old_ls[j]);
                }
            }
            assert forall|j: int| 0 <= j < ac implies (#[trigger] ls[j]) is Assign by {
                assert(ls[j] == old_ls[j]);
            }
            assert forall|j: int| 0 <= j < ac implies ls[j] == prefix[j] by {
                assert(ls[j] == old_ls[j]);
            }
        }
    }
    proof {
        let n = ac as int;
        assert forall|j: int|
            n <= j < ls.len() && (#[trigger] ls[j]) is Remove implies exists|k: int|
                assigned_at(ls, n, k, ls[j]->Remove_grade, ls[j]->Remove_student,
                ls[j]->Remove_subject) by {
            let k = choose|k: int|
                assigned_at(prefix, n, k, ls[j]->Remove_grade, ls[j]->Remove_student,
                ls[j]->Remove_subject);
            assert(ls[k] == prefix[k]);
            assert(assigned_at(ls, n, k, ls[j]->Remove_grade, ls[j]->Remove_student,
                ls[j]->Remove_subject));
        }
        assert(script_shape(ls, n));
        assert forall|i: int| 0 <= i < plan@.len() implies line_fits(#[trigger] plan@[i]@) by {
            assert(plan@[i]@ == ls[i]);
        }
    }
    script_of(&plan)
}

} // verus!
