use vstd::prelude::*;

use crate::command::{parse_command, parse_line_spec, parse_view, Command, CommandView, ParseError, ParseErrorView};
use crate::gradebook::{all_grades, grade_list_text, show_text, GradeBook};
use crate::grades::{danish_seq, Grade, DANISH_GRADES};
use crate::model::{find, lookup, table_drop, table_push, TableModel};
use crate::text::{chars_of, lines, push_all, split_lines, string_of, trim, trim_chars, views};

verus! {

/// What a grade book script printed.
pub struct Output {
    pub result: String,
}

/// The answer to one command of a script. An average is handed back as
/// the grades it is taken over, never none, for the caller to divide and
/// print as `Average for <name>: <average with two decimals>`.
pub enum Reply {
    Text(String),
    Average { name: String, grades: Vec<Grade> },
}

/// A reply, with its texts as character sequences.
pub enum ReplyView {
    Text(Seq<char>),
    Average { name: Seq<char>, grades: Seq<i8> },
}

impl View for Reply {
    type V = ReplyView;

    open spec fn view(&self) -> ReplyView {
        match self {
            Reply::Text(t) => ReplyView::Text(t@),
            Reply::Average { name, grades } => ReplyView::Average { name: name@, grades: grades@ },
        }
    }
}

/// The views of a sequence of replies.
pub open spec fn replies_view(rs: Seq<Reply>) -> Seq<ReplyView> {
    rs.map_values(|r: Reply| r@)
}

/// A grade book's state: the table per subject and the table per student.
pub type BookModel = (TableModel, TableModel);

/// The message for a grade that is not a Danish grade.
pub open spec fn invalid_grade_text(raw: Seq<char>) -> Seq<char> {
    "Invalid Danish grade '"@ + raw + "'. Valid grades: "@ + grade_list_text(danish_seq()) + "\n"@
}

/// The reply to an average request for `name`: its grades, or the text
/// `none` when it has none.
pub open spec fn average_reply(t: TableModel, name: Seq<char>, none: Seq<char>) -> ReplyView {
    let p = find(t, name);
    if p >= 0 && all_grades(t[p].1).len() > 0 {
        ReplyView::Average { name: name, grades: all_grades(t[p].1) }
    } else {
        ReplyView::Text(none)
    }
}

/// The new state and the reply after a parsed line.
pub open spec fn step(b: BookModel, c: Result<CommandView, ParseErrorView>) -> (BookModel, ReplyView) {
    match c {
        Ok(CommandView::Assign { grade, student, subject }) => (
            (table_push(b.0, subject, student, grade), table_push(b.1, student, subject, grade)),
            ReplyView::Text("Grade assigned successfully.\n"@),
        ),
        Ok(CommandView::ShowSubject(n)) => (b, ReplyView::Text(show_text(b.0, "subject"@, n))),
        Ok(CommandView::ShowStudent(n)) => (b, ReplyView::Text(show_text(b.1, "student"@, n))),
        Ok(CommandView::RemoveGrade { grade, student, subject }) => (
            (table_drop(b.0, subject, student, grade), table_drop(b.1, student, subject, grade)),
            ReplyView::Text(
                if lookup(b.0, subject, student).contains(grade) {
                    "Grade removed successfully.\n"@
                } else {
                    "Grade not found.\n"@
                },
            ),
        ),
        Ok(CommandView::AverageStudent(n)) => (
            b,
            average_reply(b.1, n, "No grades for student '"@ + n + "'\n"@),
        ),
        Ok(CommandView::AverageSubject(n)) => (
            b,
            average_reply(b.0, n, "No grades for subject '"@ + n + "'\n"@),
        ),
        Err(ParseErrorView::InvalidFormat(raw)) => (
            b,
            ReplyView::Text("Invalid format: '"@ + raw + "'\n"@),
        ),
        Err(ParseErrorView::InvalidGrade(raw)) => (b, ReplyView::Text(invalid_grade_text(raw))),
        Err(ParseErrorView::UnknownCommand(raw)) => (
            b,
            ReplyView::Text("Unknown command: '"@ + raw + "'\n"@),
        ),
    }
}

/// The state and the replies after running the lines `ls` from state `b`;
/// blank lines are skipped.
pub open spec fn run_spec(b: BookModel, ls: Seq<Seq<char>>) -> (BookModel, Seq<ReplyView>)
    decreases ls.len(),
{
    if ls.len() == 0 {
        (b, Seq::empty())
    } else {
        let prev = run_spec(b, ls.drop_last());
        let l = ls.last();
        if trim(l).len() == 0 {
            prev
        } else {
            let next = step(prev.0, parse_line_spec(l));
            (next.0, prev.1.push(next.1))
        }
    }
}

/// What one more line of a script does, given the grade book `bk` the
/// earlier lines left: a blank line does nothing; any other line gets one
/// reply, and changes the book only by an assignment or a removal.
/// - An assignment appends the grade to the student in the subject, in
///   both tables, and is acknowledged.
/// - `show subject n` answers with the listing of subject `n` on the
///   current book, as `GradeBook::show_subject` gives it; `show student n`
///   with the listing of student `n`, as `GradeBook::show_student` gives it.
/// - A removal takes the first such grade out of both tables, and says
///   whether there was one.
/// - An average request hands back all grades of the student (or subject),
///   or says there are none.
/// - A line that does not parse is answered with its error.
pub proof fn law_script_line(b: BookModel, ls: Seq<Seq<char>>, l: Seq<char>)
    ensures
        ({
            let prev = run_spec(b, ls);
            let next = run_spec(b, ls.push(l));
            let bk = prev.0;
            if trim(l).len() == 0 {
                next == prev
            } else {
                &&& next.1.len() == prev.1.len() + 1
                &&& next.1.drop_last() == prev.1
                &&& match parse_line_spec(l) {
                    Ok(CommandView::Assign { grade, student, subject }) => {
                        &&& next.0 == (
                            table_push(bk.0, subject, student, grade),
                            table_push(bk.1, student, subject, grade),
                        )
                        &&& next.1.last() == ReplyView::Text("Grade assigned successfully.\n"@)
                    },
                    Ok(CommandView::ShowSubject(n)) => {
                        &&& next.0 == bk
                        &&& next.1.last() == ReplyView::Text(show_text(bk.0, "subject"@, n))
                    },
                    Ok(CommandView::ShowStudent(n)) => {
                        &&& next.0 == bk
                        &&& next.1.last() == ReplyView::Text(show_text(bk.1, "student"@, n))
                    },
                    Ok(CommandView::RemoveGrade { grade, student, subject }) => {
                        &&& next.0 == (
                            table_drop(bk.0, subject, student, grade),
                            table_drop(bk.1, student, subject, grade),
                        )
                        &&& next.1.last() == ReplyView::Text(
                            if lookup(bk.0, subject, student).contains(grade) {
                                "Grade removed successfully.\n"@
                            } else {
                                "Grade not found.\n"@
                            },
                        )
                    },
                    Ok(CommandView::AverageStudent(n)) => {
                        &&& next.0 == bk
                        &&& next.1.last() == if find(bk.1, n) >= 0 && all_grades(
                            bk.1[find(bk.1, n)].1,
                        ).len() > 0 {
                            ReplyView::Average { name: n, grades: all_grades(bk.1[find(bk.1, n)].1) }
                        } else {
                            ReplyView::Text("No grades for student '"@ + n + "'\n"@)
                        }
                    },
                    Ok(CommandView::AverageSubject(n)) => {
                        &&& next.0 == bk
                        &&& next.1.last() == if find(bk.0, n) >= 0 && all_grades(
                            bk.0[find(bk.0, n)].1,
                        ).len() > 0 {
                            ReplyView::Average { name: n, grades: all_grades(bk.0[find(bk.0, n)].1) }
                        } else {
                            ReplyView::Text("No grades for subject '"@ + n + "'\n"@)
                        }
                    },
                    Err(ParseErrorView::InvalidFormat(raw)) => {
                        &&& next.0 == bk
                        &&& next.1.last() == ReplyView::Text("Invalid format: '"@ + raw + "'\n"@)
                    },
                    Err(ParseErrorView::InvalidGrade(raw)) => {
                        &&& next.0 == bk
                        &&& next.1.last() == ReplyView::Text(
                            "Invalid Danish grade '"@ + raw + "'. Valid grades: "@ + grade_list_text(
                                danish_seq(),
                            ) + "\n"@,
                        )
                    },
                    Err(ParseErrorView::UnknownCommand(raw)) => {
                        &&& next.0 == bk
                        &&& next.1.last() == ReplyView::Text("Unknown command: '"@ + raw + "'\n"@)
                    },
                }
            }
        }),
{
    assert(ls.push(l).drop_last() =~= ls);
    assert(ls.push(l).last() == l);
}

/// The state of a fresh grade book.
pub open spec fn empty_book() -> BookModel {
    (Seq::empty(), Seq::empty())
}

fn concat3(a: &str, b: &str, c: &str) -> (r: String)
    ensures
        r@ == a@ + b@ + c@,
{
    let mut out: Vec<char> = Vec::new();
    push_all(&mut out, chars_of(a).as_slice());
    push_all(&mut out, chars_of(b).as_slice());
    push_all(&mut out, chars_of(c).as_slice());
    string_of(out.as_slice())
}

fn respond(gb: &mut GradeBook, cmd: Result<Command, ParseError>) -> (r: Reply)
    requires
        old(gb).wf(),
    ensures
        final(gb).wf(),
        ((final(gb).subjects(), final(gb).students()), r@) == step(
            (old(gb).subjects(), old(gb).students()),
            parse_view(cmd),
        ),
{
    match cmd {
        Ok(Command::Assign { grade, student, subject }) => {
            gb.assign(grade, student, subject);
            Reply::Text("Grade assigned successfully.\n".to_owned())
        },
        Ok(Command::ShowSubject(n)) => Reply::Text(gb.show_subject(n.as_str())),
        Ok(Command::ShowStudent(n)) => Reply::Text(gb.show_student(n.as_str())),
        Ok(Command::RemoveGrade { grade, student, subject }) => {
            if gb.remove_grade(grade, student.as_str(), subject.as_str()) {
                Reply::Text("Grade removed successfully.\n".to_owned())
            } else {
                Reply::Text("Grade not found.\n".to_owned())
            }
        },
        Ok(Command::AverageStudent(n)) => {
            match gb.student_grades(n.as_str()) {
                Some(gs) => if gs.len() > 0 {
                    Reply::Average { name: n, grades: gs }
                } else {
                    Reply::Text(concat3("No grades for student '", n.as_str(), "'\n"))
                },
                None => Reply::Text(concat3("No grades for student '", n.as_str(), "'\n")),
            }
        },
        Ok(Command::AverageSubject(n)) => {
            match gb.subject_grades(n.as_str()) {
                Some(gs) => if gs.len() > 0 {
                    Reply::Average { name: n, grades: gs }
                } else {
                    Reply::Text(concat3("No grades for subject '", n.as_str(), "'\n"))
                },
                None => Reply::Text(concat3("No grades for subject '", n.as_str(), "'\n")),
            }
        },
        Err(ParseError::InvalidFormat(raw)) => Reply::Text(
            concat3("Invalid format: '", raw.as_str(), "'\n"),
        ),
        Err(ParseError::InvalidGrade(raw)) => {
            let mut out: Vec<char> = Vec::new();
            push_all(&mut out, chars_of("Invalid Danish grade '").as_slice());
            push_all(&mut out, chars_of(raw.as_str()).as_slice());
            push_all(&mut out, chars_of("'. Valid grades: ").as_slice());
            let grades = DANISH_GRADES;
            let list: Vec<Grade> = vec![grades[0], grades[1], grades[2], grades[3], grades[4], grades[5], grades[6]];
            crate::gradebook::push_grade_list(&mut out, &list);
            push_all(&mut out, chars_of("\n").as_slice());
            assert(list@ =~= danish_seq());
            assert(out@ =~= invalid_grade_text(raw@));
            Reply::Text(string_of(out.as_slice()))
        },
        Err(ParseError::UnknownCommand(raw)) => Reply::Text(
            concat3("Unknown command: '", raw.as_str(), "'\n"),
        ),
    }
}

/// Runs a grade book script on a fresh grade book, line by line, and gives
/// the reply to every line that is not blank.
pub fn run_script(script: &str) -> (r: Vec<Reply>)
    ensures
        replies_view(r@) == run_spec(empty_book(), lines(script@)).1,
{
    let mut gb = GradeBook::new();
    let cs = chars_of(script);
    let ls = split_lines(cs.as_slice());
    let ghost lv = views(ls@);
    let mut out: Vec<Reply> = Vec::new();
    let n = ls.len();
    assert(gb.subjects() =~= empty_book().0);
    for i in 0..n
        invariant
            n == ls@.len(),
            lv == views(ls@),
            gb.wf(),
            (gb.subjects(), gb.students()) == run_spec(empty_book(), lv.take(i as int)).0,
            replies_view(out@) == run_spec(empty_book(), lv.take(i as int)).1,
    {
        assert(lv.take(i + 1).drop_last() =~= lv.take(i as int));
        assert(lv.take(i + 1).last() == ls@[i as int]@);
        let line = &ls[i];
        let t = trim_chars(line.as_slice());
        if t.len() > 0 {
            let cmd = parse_command(string_of(line.as_slice()).as_str());
            let reply = respond(&mut gb, cmd);
            out.push(reply);
            assert(replies_view(out@) =~= run_spec(empty_book(), lv.take(i as int)).1.push(reply@));
        }
    }
    assert(lv.take(n as int) =~= lv);
    out
}

} // verus!
