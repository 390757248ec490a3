use vstd::prelude::*;

use crate::grades::Grade;
use crate::model::{
    drop_grade, find, first_pos, lemma_find, lemma_first_pos, lemma_first_pos_at, lemma_table_drop,
    lemma_table_push, lemma_table_push_drop, lookup, names, row_lookup, rows_drop, rows_push,
    rows_wf, table_drop, table_push, table_wf, RowsModel, TableModel,
};
use crate::text::{chars_of, int_dec, join, lemma_join_step, push_all, push_int_dec, string_of};

verus! {

/// The grades of one name: a student within a subject, or a subject within
/// a student.
struct Row {
    name: String,
    grades: Vec<Grade>,
}

/// A name and its rows: a subject and its students, or a student and their
/// subjects.
struct Entry {
    name: String,
    rows: Vec<Row>,
}

spec fn row_model(r: Row) -> (Seq<char>, Seq<i8>) {
    (r.name@, r.grades@)
}

spec fn rows_model(rs: Seq<Row>) -> RowsModel {
    rs.map_values(|r: Row| row_model(r))
}

spec fn entry_model(e: Entry) -> (Seq<char>, RowsModel) {
    (e.name@, rows_model(e.rows@))
}

spec fn table_model(t: Seq<Entry>) -> TableModel {
    t.map_values(|e: Entry| entry_model(e))
}

/// Grades recorded per subject and per student. Both tables hold the same
/// grades: those of a student in a subject are, in the same order, those of
/// the subject for that student.
pub struct GradeBook {
    by_subject: Vec<Entry>,
    by_student: Vec<Entry>,
}

fn find_row(rows: &Vec<Row>, k: &String) -> (r: Option<usize>)
    ensures
        match r {
            Some(i) => i < rows@.len() && find(rows_model(rows@), k@) == i as int,
            None => find(rows_model(rows@), k@) == -1,
        },
{
    let ghost m = rows_model(rows@);
    let n = rows.len();
    for i in 0..n
        invariant
            n == rows@.len(),
            m == rows_model(rows@),
            forall|j: int| 0 <= j < i ==> names(m)[j] != k@,
    {
        if rows[i].name == *k {
            proof {
                assert(names(m)[i as int] == k@);
                lemma_first_pos_at(names(m), k@, i as int);
            }
            return Some(i);
        }
    }
    proof {
        lemma_first_pos(names(m), k@);
    }
    None
}

fn find_entry(t: &Vec<Entry>, k: &String) -> (r: Option<usize>)
    ensures
        match r {
            Some(i) => i < t@.len() && find(table_model(t@), k@) == i as int,
            None => find(table_model(t@), k@) == -1,
        },
{
    let ghost m = table_model(t@);
    let n = t.len();
    for i in 0..n
        invariant
            n == t@.len(),
            m == table_model(t@),
            forall|j: int| 0 <= j < i ==> names(m)[j] != k@,
    {
        if t[i].name == *k {
            proof {
                assert(names(m)[i as int] == k@);
                lemma_first_pos_at(names(m), k@, i as int);
            }
            return Some(i);
        }
    }
    proof {
        lemma_first_pos(names(m), k@);
    }
    None
}

fn grade_position(gs: &Vec<Grade>, g: Grade) -> (r: Option<usize>)
    ensures
        match r {
            Some(i) => i < gs@.len() && first_pos(gs@, g) == i as int,
            None => first_pos(gs@, g) == -1,
        },
{
    let n = gs.len();
    for i in 0..n
        invariant
            n == gs@.len(),
            forall|j: int| 0 <= j < i ==> gs@[j] != g,
    {
        if gs[i] == g {
            proof {
                lemma_first_pos_at(gs@, g, i as int);
            }
            return Some(i);
        }
    }
    proof {
        lemma_first_pos(gs@, g);
    }
    None
}

fn rows_assign(rows: &mut Vec<Row>, b: String, g: Grade)
    ensures
        rows_model(final(rows)@) == rows_push(rows_model(old(rows)@), b@, g),
{
    match find_row(rows, &b) {
        Some(j) => {
            let mut row = rows.remove(j);
            row.grades.push(g);
            rows.insert(j, row);
            proof {
                lemma_find(rows_model(old(rows)@), b@);
                assert(rows@ =~= old(rows)@.update(j as int, row));
            }
            assert(rows_model(rows@) =~= rows_push(rows_model(old(rows)@), b@, g));
        },
        None => {
            let row = Row { name: b, grades: vec![g] };
            assert(row.grades@ =~= seq![g]);
            rows.push(row);
            assert(rows_model(rows@) =~= rows_push(rows_model(old(rows)@), b@, g));
        },
    }
}

fn table_assign(t: &mut Vec<Entry>, a: String, b: String, g: Grade)
    ensures
        table_model(final(t)@) == table_push(table_model(old(t)@), a@, b@, g),
{
    match find_entry(t, &a) {
        Some(i) => {
            let mut e = t.remove(i);
            rows_assign(&mut e.rows, b, g);
            t.insert(i, e);
            proof {
                lemma_find(table_model(old(t)@), a@);
                assert(t@ =~= old(t)@.update(i as int, e));
            }
            assert(table_model(t@) =~= table_push(table_model(old(t)@), a@, b@, g));
        },
        None => {
            let row = Row { name: b, grades: vec![g] };
            assert(row.grades@ =~= seq![g]);
            let e = Entry { name: a, rows: vec![row] };
            assert(rows_model(e.rows@) =~= seq![(b@, seq![g])]);
            t.push(e);
            assert(table_model(t@) =~= table_push(table_model(old(t)@), a@, b@, g));
        },
    }
}


fn rows_remove(rows: &mut Vec<Row>, b: &String, g: Grade) -> (r: bool)
    requires
        rows_wf(rows_model(old(rows)@)),
    ensures
        rows_model(final(rows)@) == rows_drop(rows_model(old(rows)@), b@, g),
        r == (first_pos(row_lookup(rows_model(old(rows)@), b@), g) >= 0),
{
    let ghost m = rows_model(rows@);
    proof {
        lemma_find(m, b@);
    }
    match find_row(rows, b) {
        Some(j) => {
            assert(m[j as int] == row_model(rows@[j as int]));
            match grade_position(&rows[j].grades, g) {
                Some(k) => {
                    let mut row = rows.remove(j);
                    row.grades.remove(k);
                    if row.grades.len() > 0 {
                        rows.insert(j, row);
                        assert(rows@ =~= old(rows)@.update(j as int, row));
                        assert(rows_model(rows@) =~= rows_drop(m, b@, g));
                    } else {
                        assert(rows_model(rows@) =~= rows_drop(m, b@, g));
                    }
                    true
                },
                None => {
                    assert(rows_model(rows@) =~= rows_drop(m, b@, g));
                    false
                },
            }
        },
        None => {
            proof {
                lemma_first_pos(Seq::<i8>::empty(), g);
            }
            false
        },
    }
}

fn table_remove(t: &mut Vec<Entry>, a: &String, b: &String, g: Grade) -> (r: bool)
    requires
        table_wf(table_model(old(t)@)),
    ensures
        table_model(final(t)@) == table_drop(table_model(old(t)@), a@, b@, g),
        r == (first_pos(lookup(table_model(old(t)@), a@, b@), g) >= 0),
{
    let ghost m = table_model(t@);
    proof {
        lemma_find(m, a@);
    }
    match find_entry(t, a) {
        Some(i) => {
            assert(m[i as int] == entry_model(t@[i as int]));
            let mut e = t.remove(i);
            let r = rows_remove(&mut e.rows, b, g);
            if e.rows.len() > 0 {
                t.insert(i, e);
                assert(t@ =~= old(t)@.update(i as int, e));
                assert(table_model(t@) =~= table_drop(m, a@, b@, g));
            } else {
                assert(table_model(t@) =~= table_drop(m, a@, b@, g));
            }
            r
        },
        None => {
            proof {
                lemma_first_pos(Seq::<i8>::empty(), g);
            }
            false
        },
    }
}


/// The decimal texts of the grades.
pub open spec fn grade_texts(gs: Seq<i8>) -> Seq<Seq<char>> {
    gs.map_values(|g: i8| int_dec(g as int))
}

/// The grades as `Debug` writes a list of them: `[12, 4]`.
pub open spec fn grade_list_text(gs: Seq<i8>) -> Seq<char> {
    seq!['['] + join(grade_texts(gs), seq![',', ' ']) + seq![']']
}

/// One line of a listing: `  <name>: <grades>` and a newline.
pub open spec fn row_line(r: (Seq<char>, Seq<i8>)) -> Seq<char> {
    seq![' ', ' '] + r.0 + seq![':', ' '] + grade_list_text(r.1) + seq!['\n']
}

/// The lines of all rows, in order.
pub open spec fn rows_text(rows: RowsModel) -> Seq<char>
    decreases rows.len(),
{
    if rows.len() == 0 {
        Seq::empty()
    } else {
        rows_text(rows.drop_last()) + row_line(rows.last())
    }
}

/// What a grade book shows for `name` of the given kind (`subject` or
/// `student`): a heading and one line per row, or a note that nothing is
/// recorded.
pub open spec fn show_text(t: TableModel, kind: Seq<char>, name: Seq<char>) -> Seq<char> {
    let p = find(t, name);
    if p >= 0 {
        "Grades for "@ + kind + " '"@ + name + "':\n"@ + rows_text(t[p].1)
    } else {
        "No grades recorded for "@ + kind + " '"@ + name + "'.\n"@
    }
}

/// All grades of the rows, row after row.
pub open spec fn all_grades(rows: RowsModel) -> Seq<i8>
    decreases rows.len(),
{
    if rows.len() == 0 {
        Seq::empty()
    } else {
        all_grades(rows.drop_last()) + rows.last().1
    }
}

pub(crate) fn push_grade_list(out: &mut Vec<char>, gs: &Vec<Grade>)
    ensures
        final(out)@ == old(out)@ + grade_list_text(gs@),
{
    let ghost texts = grade_texts(gs@);
    let ghost sep = seq![',', ' '];
    out.push('[');
    let n = gs.len();
    for i in 0..n
        invariant
            n == gs@.len(),
            texts == grade_texts(gs@),
            sep == seq![',', ' '],
            out@ == old(out)@ + seq!['['] + join(texts.take(i as int), sep),
    {
        proof {
            lemma_join_step(texts, sep, i as int);
        }
        if i > 0 {
            out.push(',');
            out.push(' ');
        }
        let g = gs[i];
        push_int_dec(out, g as i64);
        assert(texts[i as int] == int_dec(g as int));
        assert(out@ =~= old(out)@ + seq!['['] + join(texts.take(i + 1), sep));
    }
    out.push(']');
    assert(texts.take(n as int) =~= texts);
    assert(out@ =~= old(out)@ + grade_list_text(gs@));
}

fn show(t: &Vec<Entry>, kind: &str, name: &str) -> (r: String)
    ensures
        r@ == show_text(table_model(t@), kind@, name@),
{
    let ghost m = table_model(t@);
    let key = name.to_owned();
    let mut out: Vec<char> = Vec::new();
    match find_entry(t, &key) {
        Some(i) => {
            push_all(&mut out, chars_of("Grades for ").as_slice());
            push_all(&mut out, chars_of(kind).as_slice());
            push_all(&mut out, chars_of(" '").as_slice());
            push_all(&mut out, chars_of(name).as_slice());
            push_all(&mut out, chars_of("':\n").as_slice());
            let ghost head = out@;
            let rows = &t[i].rows;
            let ghost rm = rows_model(rows@);
            assert(rm == m[i as int].1);
            let n = rows.len();
            for j in 0..n
                invariant
                    n == rows@.len(),
                    rm == rows_model(rows@),
                    out@ == head + rows_text(rm.take(j as int)),
            {
                assert(rm.take(j + 1).drop_last() =~= rm.take(j as int));
                assert(rm.take(j + 1).last() == row_model(rows@[j as int]));
                let ghost before = out@;
                push_all(&mut out, chars_of("  ").as_slice());
                push_all(&mut out, chars_of(rows[j].name.as_str()).as_slice());
                push_all(&mut out, chars_of(": ").as_slice());
                push_grade_list(&mut out, &rows[j].grades);
                out.push('\n');
                proof {
                    reveal_strlit("  ");
                    reveal_strlit(": ");
                    assert(out@ =~= before + row_line(row_model(rows@[j as int])));
                }
            }
            assert(rm.take(n as int) =~= rm);
            assert(out@ =~= show_text(m, kind@, name@));
        },
        None => {
            push_all(&mut out, chars_of("No grades recorded for ").as_slice());
            push_all(&mut out, chars_of(kind).as_slice());
            push_all(&mut out, chars_of(" '").as_slice());
            push_all(&mut out, chars_of(name).as_slice());
            push_all(&mut out, chars_of("'.\n").as_slice());
            assert(out@ =~= show_text(m, kind@, name@));
        },
    }
    string_of(out.as_slice())
}

fn collect_grades(t: &Vec<Entry>, name: &str) -> (r: Option<Vec<Grade>>)
    ensures
        match r {
            Some(v) => find(table_model(t@), name@) >= 0 && v@ == all_grades(
                table_model(t@)[find(table_model(t@), name@)].1,
            ),
            None => find(table_model(t@), name@) < 0,
        },
{
    let ghost m = table_model(t@);
    let key = name.to_owned();
    match find_entry(t, &key) {
        Some(i) => {
            let rows = &t[i].rows;
            let ghost rm = rows_model(rows@);
            assert(rm == m[i as int].1);
            let mut all: Vec<Grade> = Vec::new();
            let n = rows.len();
            for j in 0..n
                invariant
                    n == rows@.len(),
                    rm == rows_model(rows@),
                    all@ == all_grades(rm.take(j as int)),
            {
                assert(rm.take(j + 1).drop_last() =~= rm.take(j as int));
                assert(rm.take(j + 1).last() == row_model(rows@[j as int]));
                let gs = &rows[j].grades;
                let k = gs.len();
                let ghost before = all@;
                for l in 0..k
                    invariant
                        k == gs@.len(),
                        all@ == before + gs@.take(l as int),
                {
                    all.push(gs[l]);
                    assert(gs@.take(l + 1) =~= gs@.take(l as int).push(gs@[l as int]));
                }
                assert(gs@.take(k as int) =~= gs@);
            }
            assert(rm.take(n as int) =~= rm);
            Some(all)
        },
        None => None,
    }
}

/// A grade just appended can be taken out again, and taking it out leaves
/// the same grades, counted with multiplicity, as before it was appended;
/// when `g` was not there before, exactly the same grades in the same order.
pub proof fn law_drop_after_push(s: Seq<i8>, g: i8)
    ensures
        s.push(g).contains(g),
        drop_grade(s.push(g), g).to_multiset() == s.to_multiset(),
        !s.contains(g) ==> drop_grade(s.push(g), g) == s,
{
    let t = s.push(g);
    assert(t[s.len() as int] == g);
    lemma_first_pos(t, g);
    let p = first_pos(t, g);
    vstd::seq_lib::to_multiset_remove(t, p);
    vstd::seq_lib::to_multiset_build(s, g);
    assert(t.to_multiset().remove(g) =~= s.to_multiset());
    if !s.contains(g) {
        if p < s.len() {
            assert(s[p] == g);
        }
        assert(t.remove(p) =~= s);
    }
}

/// Assigning `g` to `student` in `subject` and then removing `g` from the
/// same pair succeeds, and leaves every pair of names with the grades it had
/// before, counted with multiplicity: in the table per subject and in the
/// table per student. When the pair had no `g` before, both tables are
/// given back exactly.
pub proof fn law_remove_after_assign(
    book: GradeBook,
    g: i8,
    student: Seq<char>,
    subject: Seq<char>,
    x: Seq<char>,
    y: Seq<char>,
)
    requires
        book.wf(),
    ensures
        lookup(table_push(book.subjects(), subject, student, g), subject, student).contains(g),
        lookup(
            table_drop(table_push(book.subjects(), subject, student, g), subject, student, g),
            x,
            y,
        ).to_multiset() == lookup(book.subjects(), x, y).to_multiset(),
        lookup(
            table_drop(table_push(book.students(), student, subject, g), student, subject, g),
            y,
            x,
        ).to_multiset() == lookup(book.students(), y, x).to_multiset(),
        !lookup(book.subjects(), subject, student).contains(g) ==> table_drop(
            table_push(book.subjects(), subject, student, g),
            subject,
            student,
            g,
        ) == book.subjects() && table_drop(
            table_push(book.students(), student, subject, g),
            student,
            subject,
            g,
        ) == book.students(),
{
    let s0 = book.subjects();
    let t0 = book.students();
    lemma_table_push(s0, subject, student, g, subject, student);
    lemma_table_push(s0, subject, student, g, x, y);
    lemma_table_push(t0, student, subject, g, y, x);
    lemma_table_drop(table_push(s0, subject, student, g), subject, student, g, x, y);
    lemma_table_drop(table_push(t0, student, subject, g), student, subject, g, y, x);
    law_drop_after_push(lookup(s0, subject, student), g);
    law_drop_after_push(lookup(t0, student, subject), g);
    if !lookup(s0, subject, student).contains(g) {
        assert(lookup(s0, subject, student) == lookup(t0, student, subject));
        lemma_table_push_drop(s0, subject, student, g);
        lemma_table_push_drop(t0, student, subject, g);
    }
}

/// The two tables of a grade book tell the same story: the grades of a
/// student in a subject are the same whether looked up by subject or by
/// student.
pub proof fn law_tables_agree(book: GradeBook, subject: Seq<char>, student: Seq<char>)
    requires
        book.wf(),
    ensures
        lookup(book.subjects(), subject, student) == lookup(book.students(), student, subject),
{
}

impl GradeBook {
    /// The grades per subject: each subject with its students' grades.
    pub closed spec fn subjects(&self) -> TableModel {
        table_model(self.by_subject@)
    }

    /// The grades per student: each student with their subjects' grades.
    pub closed spec fn students(&self) -> TableModel {
        table_model(self.by_student@)
    }

    /// Both tables are well formed and hold the same grades.
    pub closed spec fn wf(&self) -> bool {
        &&& table_wf(self.subjects())
        &&& table_wf(self.students())
        &&& forall|a: Seq<char>, b: Seq<char>|
            #[trigger] lookup(self.subjects(), a, b) == lookup(self.students(), b, a)
    }

    /// The grades of `student` in `subject`, oldest first.
    pub open spec fn grades(&self, subject: Seq<char>, student: Seq<char>) -> Seq<i8> {
        lookup(self.subjects(), subject, student)
    }

    /// An empty grade book.
    pub fn new() -> (r: Self)
        ensures
            r.wf(),
            r.subjects() == Seq::<(Seq<char>, RowsModel)>::empty(),
            r.students() == Seq::<(Seq<char>, RowsModel)>::empty(),
    {
        let r = GradeBook { by_subject: Vec::new(), by_student: Vec::new() };
        proof {
            assert(r.subjects() =~= Seq::<(Seq<char>, RowsModel)>::empty());
            assert(r.students() =~= Seq::<(Seq<char>, RowsModel)>::empty());
            assert forall|a: Seq<char>, b: Seq<char>|
                #[trigger] lookup(r.subjects(), a, b) == lookup(r.students(), b, a) by {
                lemma_find(r.subjects(), a);
                lemma_find(r.students(), b);
            }
        }
        r
    }

    /// Records `grade` for `student` in `subject`, after the grades already
    /// recorded there.
    pub fn assign(&mut self, grade: Grade, student: String, subject: String)
        requires
            old(self).wf(),
        ensures
            final(self).wf(),
            final(self).subjects() == table_push(old(self).subjects(), subject@, student@, grade),
            final(self).students() == table_push(old(self).students(), student@, subject@, grade),
            forall|x: Seq<char>, y: Seq<char>|
                #[trigger] final(self).grades(x, y) == if x == subject@ && y == student@ {
                    old(self).grades(x, y).push(grade)
                } else {
                    old(self).grades(x, y)
                },
    {
        let ghost s0 = self.subjects();
        let ghost t0 = self.students();
        table_assign(&mut self.by_subject, subject.clone(), student.clone(), grade);
        table_assign(&mut self.by_student, student, subject, grade);
        proof {
            lemma_table_push(s0, subject@, student@, grade, subject@, student@);
            lemma_table_push(t0, student@, subject@, grade, student@, subject@);
            assert forall|a: Seq<char>, b: Seq<char>|
                #[trigger] lookup(self.subjects(), a, b) == lookup(self.students(), b, a) by {
                lemma_table_push(s0, subject@, student@, grade, a, b);
                lemma_table_push(t0, student@, subject@, grade, b, a);
                assert(lookup(s0, a, b) == lookup(t0, b, a));
            }
            assert forall|x: Seq<char>, y: Seq<char>|
                #[trigger] self.grades(x, y) == if x == subject@ && y == student@ {
                    lookup(s0, x, y).push(grade)
                } else {
                    lookup(s0, x, y)
                } by {
                lemma_table_push(s0, subject@, student@, grade, x, y);
            }
        }
    }

    /// Takes the first `grade` out of the grades of `student` in `subject`,
    /// and tells whether there was one. A student left without grades in a
    /// subject, and a subject or student left without any, are dropped.
    pub fn remove_grade(&mut self, grade: Grade, student: &str, subject: &str) -> (r: bool)
        requires
            old(self).wf(),
        ensures
            final(self).wf(),
            r == old(self).grades(subject@, student@).contains(grade),
            final(self).subjects() == table_drop(old(self).subjects(), subject@, student@, grade),
            final(self).students() == table_drop(old(self).students(), student@, subject@, grade),
            forall|x: Seq<char>, y: Seq<char>|
                #[trigger] final(self).grades(x, y) == if x == subject@ && y == student@ {
                    drop_grade(old(self).grades(x, y), grade)
                } else {
                    old(self).grades(x, y)
                },
    {
        let ghost s0 = self.subjects();
        let ghost t0 = self.students();
        let stu = student.to_owned();
        let sub = subject.to_owned();
        let removed = table_remove(&mut self.by_subject, &sub, &stu, grade);
        let _ = table_remove(&mut self.by_student, &stu, &sub, grade);
        proof {
            lemma_first_pos(lookup(s0, subject@, student@), grade);
            lemma_table_drop(s0, subject@, student@, grade, subject@, student@);
            lemma_table_drop(t0, student@, subject@, grade, student@, subject@);
            assert forall|a: Seq<char>, b: Seq<char>|
                #[trigger] lookup(self.subjects(), a, b) == lookup(self.students(), b, a) by {
                lemma_table_drop(s0, subject@, student@, grade, a, b);
                lemma_table_drop(t0, student@, subject@, grade, b, a);
                assert(lookup(s0, a, b) == lookup(t0, b, a));
            }
            assert forall|x: Seq<char>, y: Seq<char>|
                #[trigger] self.grades(x, y) == if x == subject@ && y == student@ {
                    drop_grade(lookup(s0, x, y), grade)
                } else {
                    lookup(s0, x, y)
                } by {
                lemma_table_drop(s0, subject@, student@, grade, x, y);
            }
        }
        removed
    }

    /// The grades of `subject`, listed per student.
    pub fn show_subject(&self, subject: &str) -> (r: String)
        ensures
            r@ == show_text(self.subjects(), "subject"@, subject@),
    {
        let kind = "subject";
        show(&self.by_subject, kind, subject)
    }

    /// The grades of `student`, listed per subject.
    pub fn show_student(&self, student: &str) -> (r: String)
        ensures
            r@ == show_text(self.students(), "student"@, student@),
    {
        let kind = "student";
        show(&self.by_student, kind, student)
    }

    /// All grades given in `subject`, student after student; `None` when
    /// the subject has none.
    pub fn subject_grades(&self, subject: &str) -> (r: Option<Vec<Grade>>)
        ensures
            match r {
                Some(v) => find(self.subjects(), subject@) >= 0 && v@ == all_grades(
                    self.subjects()[find(self.subjects(), subject@)].1,
                ),
                None => find(self.subjects(), subject@) < 0,
            },
    {
        collect_grades(&self.by_subject, subject)
    }

    /// All grades of `student`, subject after subject; `None` when the
    /// student has none.
    pub fn student_grades(&self, student: &str) -> (r: Option<Vec<Grade>>)
        ensures
            match r {
                Some(v) => find(self.students(), student@) >= 0 && v@ == all_grades(
                    self.students()[find(self.students(), student@)].1,
                ),
                None => find(self.students(), student@) < 0,
            },
    {
        collect_grades(&self.by_student, student)
    }
}

} // verus!
