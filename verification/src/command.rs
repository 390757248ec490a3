use vstd::prelude::*;

use crate::grades::{is_danish, is_valid_danish_grade, Grade, Student, Subject};
use crate::text::{
    chars_of, drop_chars, has_prefix, parse_i8, parse_i8_chars, skip_chars, split_words,
    starts_with, string_of, trim, trim_chars, views, words,
};

verus! {

/// A command of the grade book's text language.
#[derive(Debug)]
pub enum Command {
    Assign { grade: Grade, student: Student, subject: Subject },
    ShowSubject(Subject),
    ShowStudent(Student),
    RemoveGrade { grade: Grade, student: Student, subject: Subject },
    AverageStudent(Student),
    AverageSubject(Subject),
}

/// Why a line is not a command; each variant carries the offending text.
#[derive(Debug)]
pub enum ParseError {
    InvalidFormat(String),
    InvalidGrade(String),
    UnknownCommand(String),
}

/// A command, with its names as character sequences.
pub enum CommandView {
    Assign { grade: i8, student: Seq<char>, subject: Seq<char> },
    ShowSubject(Seq<char>),
    ShowStudent(Seq<char>),
    RemoveGrade { grade: i8, student: Seq<char>, subject: Seq<char> },
    AverageStudent(Seq<char>),
    AverageSubject(Seq<char>),
}

/// A parse error, with its text as a character sequence.
pub enum ParseErrorView {
    InvalidFormat(Seq<char>),
    InvalidGrade(Seq<char>),
    UnknownCommand(Seq<char>),
}

impl View for Command {
    type V = CommandView;

    open spec fn view(&self) -> CommandView {
        match self {
            Command::Assign { grade, student, subject } => CommandView::Assign {
                grade: *grade,
                student: student@,
                subject: subject@,
            },
            Command::ShowSubject(s) => CommandView::ShowSubject(s@),
            Command::ShowStudent(s) => CommandView::ShowStudent(s@),
            Command::RemoveGrade { grade, student, subject } => CommandView::RemoveGrade {
                grade: *grade,
                student: student@,
                subject: subject@,
            },
            Command::AverageStudent(s) => CommandView::AverageStudent(s@),
            Command::AverageSubject(s) => CommandView::AverageSubject(s@),
        }
    }
}

impl View for ParseError {
    type V = ParseErrorView;

    open spec fn view(&self) -> ParseErrorView {
        match self {
            ParseError::InvalidFormat(s) => ParseErrorView::InvalidFormat(s@),
            ParseError::InvalidGrade(s) => ParseErrorView::InvalidGrade(s@),
            ParseError::UnknownCommand(s) => ParseErrorView::UnknownCommand(s@),
        }
    }
}

/// The view of a parse result.
pub open spec fn parse_view(r: Result<Command, ParseError>) -> Result<CommandView, ParseErrorView> {
    match r {
        Ok(c) => Ok(c@),
        Err(e) => Err(e@),
    }
}

/// The lowercase form of a string, as `str::to_lowercase` computes it.
pub uninterp spec fn lowercase(s: Seq<char>) -> Seq<char>;

/// Calls `str::to_lowercase`. Trusted to return `lowercase` of its
/// argument: the Unicode lowercase mapping, a function of the text alone.
#[verifier::external_body]
fn to_lowercase(s: &str) -> (r: String)
    ensures
        r@ == lowercase(s@),
{
    s.to_lowercase()
}

/// The command keywords, in lowercase, with the space that ends them.
pub open spec fn kw_grade() -> Seq<char> {
    seq!['g', 'r', 'a', 'd', 'e', ' ']
}

pub open spec fn kw_show_subject() -> Seq<char> {
    seq!['s', 'h', 'o', 'w', ' ', 's', 'u', 'b', 'j', 'e', 'c', 't', ' ']
}

pub open spec fn kw_show_student() -> Seq<char> {
    seq!['s', 'h', 'o', 'w', ' ', 's', 't', 'u', 'd', 'e', 'n', 't', ' ']
}

pub open spec fn kw_remove_grade() -> Seq<char> {
    seq!['r', 'e', 'm', 'o', 'v', 'e', ' ', 'g', 'r', 'a', 'd', 'e', ' ']
}

pub open spec fn kw_average_student() -> Seq<char> {
    seq!['a', 'v', 'e', 'r', 'a', 'g', 'e', ' ', 's', 't', 'u', 'd', 'e', 'n', 't', ' ']
}

pub open spec fn kw_average_subject() -> Seq<char> {
    seq!['a', 'v', 'e', 'r', 'a', 'g', 'e', ' ', 's', 'u', 'b', 'j', 'e', 'c', 't', ' ']
}

/// The grade of a `grade`/`remove grade` command read from `raw`: a valid
/// Danish grade, or the `InvalidGrade` error that carries `raw`.
pub open spec fn read_grade(raw: Seq<char>) -> Result<i8, ParseErrorView> {
    match parse_i8(raw) {
        Some(g) => if is_danish(g) {
            Ok(g)
        } else {
            Err(ParseErrorView::InvalidGrade(raw))
        },
        None => Err(ParseErrorView::InvalidGrade(raw)),
    }
}

/// The name argument of a one-name command: the trimmed text after the
/// keyword's `n` characters, which must not be empty.
pub open spec fn read_name(t: Seq<char>, n: int) -> Result<Seq<char>, ParseErrorView> {
    let name = trim(drop_chars(t, n));
    if name.len() == 0 {
        Err(ParseErrorView::InvalidFormat(t))
    } else {
        Ok(name)
    }
}

/// What a trimmed line `t`, whose lowercase form is `lower`, parses to.
///
/// The keyword is recognized on `lower`. `grade <g> to <student> at <subject>`
/// takes words 1, 3 and 5 of `t` (at least six words are needed);
/// `remove grade <g> from <student> at <subject>` takes words 2, 4 and 6
/// (at least seven). The other commands take the trimmed rest of `t` after
/// the keyword. A line that starts with no keyword is an unknown command.
pub open spec fn parse_spec(t: Seq<char>, lower: Seq<char>) -> Result<CommandView, ParseErrorView> {
    let parts = words(t);
    if has_prefix(lower, kw_grade()) {
        if parts.len() < 6 {
            Err(ParseErrorView::InvalidFormat(t))
        } else {
            match read_grade(parts[1]) {
                Ok(g) => Ok(CommandView::Assign { grade: g, student: parts[3], subject: parts[5] }),
                Err(e) => Err(e),
            }
        }
    } else if has_prefix(lower, kw_show_subject()) {
        match read_name(t, 13) {
            Ok(n) => Ok(CommandView::ShowSubject(n)),
            Err(e) => Err(e),
        }
    } else if has_prefix(lower, kw_show_student()) {
        match read_name(t, 13) {
            Ok(n) => Ok(CommandView::ShowStudent(n)),
            Err(e) => Err(e),
        }
    } else if has_prefix(lower, kw_remove_grade()) {
        if parts.len() < 7 {
            Err(ParseErrorView::InvalidFormat(t))
        } else {
            match read_grade(parts[2]) {
                Ok(g) => Ok(
                    CommandView::RemoveGrade { grade: g, student: parts[4], subject: parts[6] },
                ),
                Err(e) => Err(e),
            }
        }
    } else if has_prefix(lower, kw_average_student()) {
        match read_name(t, 16) {
            Ok(n) => Ok(CommandView::AverageStudent(n)),
            Err(e) => Err(e),
        }
    } else if has_prefix(lower, kw_average_subject()) {
        match read_name(t, 16) {
            Ok(n) => Ok(CommandView::AverageSubject(n)),
            Err(e) => Err(e),
        }
    } else {
        Err(ParseErrorView::UnknownCommand(t))
    }
}

/// What `parse_command` returns for `line`.
pub open spec fn parse_line_spec(line: Seq<char>) -> Result<CommandView, ParseErrorView> {
    parse_spec(trim(line), lowercase(trim(line)))
}

/// A parsed command never carries a grade outside the Danish scale: an
/// assignment or a removal holds a Danish grade, and a grade word that is
/// no Danish grade is refused as an invalid grade carrying that word.
pub proof fn law_parsed_grades_are_danish(t: Seq<char>, lower: Seq<char>)
    ensures
        parse_spec(t, lower) matches Ok(CommandView::Assign { grade, .. }) ==> is_danish(grade),
        parse_spec(t, lower) matches Ok(CommandView::RemoveGrade { grade, .. }) ==> is_danish(
            grade,
        ),
        forall|raw: Seq<char>|
            #[trigger] read_grade(raw) is Err ==> read_grade(raw) == Err::<i8, ParseErrorView>(
                ParseErrorView::InvalidGrade(raw),
            ),
        forall|raw: Seq<char>|
            #[trigger] read_grade(raw) matches Ok(g) ==> is_danish(g) && parse_i8(raw) == Some(g),
{
}

fn grade_of(raw: &Vec<char>) -> (r: Result<Grade, ParseError>)
    ensures
        match r {
            Ok(g) => read_grade(raw@) == Ok::<i8, ParseErrorView>(g),
            Err(e) => read_grade(raw@) == Err::<i8, ParseErrorView>(e@),
        },
{
    match parse_i8_chars(raw.as_slice()) {
        Some(g) => {
            if is_valid_danish_grade(g) {
                Ok(g)
            } else {
                Err(ParseError::InvalidGrade(string_of(raw.as_slice())))
            }
        },
        None => Err(ParseError::InvalidGrade(string_of(raw.as_slice()))),
    }
}

fn name_of(t: &Vec<char>, trimmed: &str, n: usize) -> (r: Result<String, ParseError>)
    requires
        t@ == trimmed@,
    ensures
        match r {
            Ok(s) => read_name(t@, n as int) == Ok::<Seq<char>, ParseErrorView>(s@),
            Err(e) => read_name(t@, n as int) == Err::<Seq<char>, ParseErrorView>(e@),
        },
{
    let rest = skip_chars(t.as_slice(), n);
    let name = trim_chars(rest.as_slice());
    if name.len() == 0 {
        Err(ParseError::InvalidFormat(trimmed.to_owned()))
    } else {
        Ok(string_of(name.as_slice()))
    }
}

/// Parses a trimmed line given its lowercase form, as `parse_command` does
/// once it has trimmed and lowercased the line. The keywords are ASCII, so
/// the bytes that a keyword takes in `trimmed` are as many characters; the
/// name of a one-name command is read after that many characters.
pub fn parse_command_with_lowercase(trimmed: &str, lower: &str) -> (r: Result<
    Command,
    ParseError,
>)
    ensures
        parse_view(r) == parse_spec(trimmed@, lower@),
{
    let t = chars_of(trimmed);
    let lw = chars_of(lower);
    let parts = split_words(t.as_slice());
    proof {
        assert(views(parts@).len() == parts@.len());
    }
    let k_grade = chars_of("grade ");
    proof {
        reveal_strlit("grade ");
        assert(k_grade@ =~= kw_grade());
    }
    let k_show_subject = chars_of("show subject ");
    proof {
        reveal_strlit("show subject ");
        assert(k_show_subject@ =~= kw_show_subject());
    }
    let k_show_student = chars_of("show student ");
    proof {
        reveal_strlit("show student ");
        assert(k_show_student@ =~= kw_show_student());
    }
    let k_remove_grade = chars_of("remove grade ");
    proof {
        reveal_strlit("remove grade ");
        assert(k_remove_grade@ =~= kw_remove_grade());
    }
    let k_average_student = chars_of("average student ");
    proof {
        reveal_strlit("average student ");
        assert(k_average_student@ =~= kw_average_student());
    }
    let k_average_subject = chars_of("average subject ");
    proof {
        reveal_strlit("average subject ");
        assert(k_average_subject@ =~= kw_average_subject());
    }
    if starts_with(lw.as_slice(), k_grade.as_slice()) {
        if parts.len() < 6 {
            return Err(ParseError::InvalidFormat(trimmed.to_owned()));
        }
        proof {
            assert(views(parts@)[1] == parts@[1]@);
            assert(views(parts@)[3] == parts@[3]@);
            assert(views(parts@)[5] == parts@[5]@);
        }
        return match grade_of(&parts[1]) {
            Ok(g) => Ok(
                Command::Assign {
                    grade: g,
                    student: string_of(parts[3].as_slice()),
                    subject: string_of(parts[5].as_slice()),
                },
            ),
            Err(e) => Err(e),
        };
    }
    if starts_with(lw.as_slice(), k_show_subject.as_slice()) {
        return match name_of(&t, trimmed, 13) {
            Ok(n) => Ok(Command::ShowSubject(n)),
            Err(e) => Err(e),
        };
    }
    if starts_with(lw.as_slice(), k_show_student.as_slice()) {
        return match name_of(&t, trimmed, 13) {
            Ok(n) => Ok(Command::ShowStudent(n)),
            Err(e) => Err(e),
        };
    }
    if starts_with(lw.as_slice(), k_remove_grade.as_slice()) {
        if parts.len() < 7 {
            return Err(ParseError::InvalidFormat(trimmed.to_owned()));
        }
        proof {
            assert(views(parts@)[2] == parts@[2]@);
            assert(views(parts@)[4] == parts@[4]@);
            assert(views(parts@)[6] == parts@[6]@);
        }
        return match grade_of(&parts[2]) {
            Ok(g) => Ok(
                Command::RemoveGrade {
                    grade: g,
                    student: string_of(parts[4].as_slice()),
                    subject: string_of(parts[6].as_slice()),
                },
            ),
            Err(e) => Err(e),
        };
    }
    if starts_with(lw.as_slice(), k_average_student.as_slice()) {
        return match name_of(&t, trimmed, 16) {
            Ok(n) => Ok(Command::AverageStudent(n)),
            Err(e) => Err(e),
        };
    }
    if starts_with(lw.as_slice(), k_average_subject.as_slice()) {
        return match name_of(&t, trimmed, 16) {
            Ok(n) => Ok(Command::AverageSubject(n)),
            Err(e) => Err(e),
        };
    }
    Err(ParseError::UnknownCommand(trimmed.to_owned()))
}

/// Parses one line of the grade book's language.
pub fn parse_command(line: &str) -> (r: Result<Command, ParseError>)
    ensures
        parse_view(r) == parse_line_spec(line@),
{
    let cs = chars_of(line);
    let t = trim_chars(cs.as_slice());
    let trimmed = string_of(t.as_slice());
    let lower = to_lowercase(trimmed.as_str());
    parse_command_with_lowercase(trimmed.as_str(), lower.as_str())
}

} // verus!
