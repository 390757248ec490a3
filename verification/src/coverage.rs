use vstd::prelude::*;

use quick_xml::events::attributes::AttrError;

use crate::text::{
    ascii_bytes, bytes_are, chars_of, ends_with, has_prefix, has_suffix, nat_dec, parse_u64_chars, push_all,
    push_nat_dec, replace_char, replace_chars, string_of, u64_or_zero,
};
use crate::xml::{
    attribute_value, attributes, events_go_on, goes_on, next_attribute, open_xml, read_event, text_value,
    xml_attribute, xml_attribute_value, xml_event, xml_text, XmlEvent, XmlHead, XmlTag,
};

verus! {

/// The XML escape of one character: the five special characters become
/// entities, every other character stays.
pub open spec fn esc_char(c: char) -> Seq<char> {
    if c == '&' {
        "&amp;"@
    } else if c == '<' {
        "&lt;"@
    } else if c == '>' {
        "&gt;"@
    } else if c == '"' {
        "&quot;"@
    } else if c == '\'' {
        "&apos;"@
    } else {
        seq![c]
    }
}

/// The XML escape of a text, character by character.
pub open spec fn esc_spec(s: Seq<char>) -> Seq<char>
    decreases s.len(),
{
    if s.len() == 0 {
        Seq::empty()
    } else {
        esc_spec(s.drop_last()) + esc_char(s.last())
    }
}

/// Escaped text holds none of `<`, `>`, `"` and `'`, and every `&` in it
/// starts one of the five entities.
pub proof fn law_esc_is_clean(s: Seq<char>)
    ensures
        forall|i: int|
            0 <= i < esc_spec(s).len() ==> {
                let c = #[trigger] esc_spec(s)[i];
                c != '<' && c != '>' && c != '"' && c != '\''
            },
        forall|i: int|
            0 <= i < esc_spec(s).len() && #[trigger] esc_spec(s)[i] == '&' ==> {
                let rest = esc_spec(s).subrange(i, esc_spec(s).len() as int);
                ||| has_prefix(rest, "&amp;"@)
                ||| has_prefix(rest, "&lt;"@)
                ||| has_prefix(rest, "&gt;"@)
                ||| has_prefix(rest, "&quot;"@)
                ||| has_prefix(rest, "&apos;"@)
            },
    decreases s.len(),
{
    reveal_strlit("&amp;");
    reveal_strlit("&lt;");
    reveal_strlit("&gt;");
    reveal_strlit("&quot;");
    reveal_strlit("&apos;");
    if s.len() > 0 {
        law_esc_is_clean(s.drop_last());
        let a = esc_spec(s.drop_last());
        let b = esc_char(s.last());
        assert(esc_spec(s) == a + b);
        assert forall|i: int|
            0 <= i < esc_spec(s).len() && #[trigger] esc_spec(s)[i] == '&' implies {
                let rest = esc_spec(s).subrange(i, esc_spec(s).len() as int);
                ||| has_prefix(rest, "&amp;"@)
                ||| has_prefix(rest, "&lt;"@)
                ||| has_prefix(rest, "&gt;"@)
                ||| has_prefix(rest, "&quot;"@)
                ||| has_prefix(rest, "&apos;"@)
            } by {
            let rest = esc_spec(s).subrange(i, esc_spec(s).len() as int);
            if i < a.len() {
                assert(a[i] == '&');
                let ra = a.subrange(i, a.len() as int);
                assert(rest =~= ra + b);
                assert forall|p: Seq<char>| #[trigger] has_prefix(ra, p) implies has_prefix(ra + b, p) by {
                    assert((ra + b).take(p.len() as int) =~= ra.take(p.len() as int));
                }
            } else {
                assert(rest =~= b.subrange(i - a.len(), b.len() as int));
                assert(b[i - a.len()] == '&');
                assert(i - a.len() == 0);
                assert(rest =~= b);
                assert(b.take(b.len() as int) =~= b);
            }
        }
    }
}

/// The entities that escaping writes.
pub open spec fn ent_amp() -> Seq<char> {
    seq!['&', 'a', 'm', 'p', ';']
}

pub open spec fn ent_lt() -> Seq<char> {
    seq!['&', 'l', 't', ';']
}

pub open spec fn ent_gt() -> Seq<char> {
    seq!['&', 'g', 't', ';']
}

pub open spec fn ent_quot() -> Seq<char> {
    seq!['&', 'q', 'u', 'o', 't', ';']
}

pub open spec fn ent_apos() -> Seq<char> {
    seq!['&', 'a', 'p', 'o', 's', ';']
}

/// Decoding the five entities of escaping, left to right: each entity
/// becomes its character, every other character stays.
pub open spec fn unesc_spec(t: Seq<char>) -> Seq<char>
    decreases t.len(),
{
    if t.len() == 0 {
        Seq::empty()
    } else if has_prefix(t, ent_amp()) {
        seq!['&'] + unesc_spec(t.skip(5))
    } else if has_prefix(t, ent_lt()) {
        seq!['<'] + unesc_spec(t.skip(4))
    } else if has_prefix(t, ent_gt()) {
        seq!['>'] + unesc_spec(t.skip(4))
    } else if has_prefix(t, ent_quot()) {
        seq!['"'] + unesc_spec(t.skip(6))
    } else if has_prefix(t, ent_apos()) {
        seq!['\''] + unesc_spec(t.skip(6))
    } else {
        seq![t[0]] + unesc_spec(t.skip(1))
    }
}

/// Whether a character is one that escaping replaces.
pub open spec fn is_special(c: char) -> bool {
    c == '&' || c == '<' || c == '>' || c == '"' || c == '\''
}

/// Escaping a text that starts with `c` starts with the escape of `c`.
proof fn lemma_esc_front(c: char, s: Seq<char>)
    ensures
        esc_spec(seq![c] + s) == esc_char(c) + esc_spec(s),
    decreases s.len(),
{
    if s.len() == 0 {
        assert(seq![c] + s =~= seq![c]);
        assert(seq![c].drop_last() =~= Seq::<char>::empty());
        assert(esc_spec(seq![c]) == esc_spec(Seq::<char>::empty()) + esc_char(c));
        assert(esc_spec(seq![c]) =~= esc_char(c) + esc_spec(s));
    } else {
        lemma_esc_front(c, s.drop_last());
        assert((seq![c] + s).drop_last() =~= seq![c] + s.drop_last());
        assert((seq![c] + s).last() == s.last());
        assert(esc_spec(seq![c] + s) == esc_spec(seq![c] + s.drop_last()) + esc_char(s.last()));
        assert(esc_spec(s) == esc_spec(s.drop_last()) + esc_char(s.last()));
        assert(esc_spec(seq![c] + s) =~= esc_char(c) + esc_spec(s));
    }
}

/// Decoding the escape of `c` followed by `rest` gives `c` followed by the
/// decoding of `rest`.
proof fn lemma_unesc_step(c: char, rest: Seq<char>)
    ensures
        unesc_spec(esc_char(c) + rest) == seq![c] + unesc_spec(rest),
{
    reveal_strlit("&amp;");
    reveal_strlit("&lt;");
    reveal_strlit("&gt;");
    reveal_strlit("&quot;");
    reveal_strlit("&apos;");
    let t = esc_char(c) + rest;
    if c == '&' {
        assert(esc_char(c) =~= ent_amp());
        assert(t.take(5) =~= ent_amp());
        assert(t.skip(5) =~= rest);
    } else if c == '<' {
        assert(esc_char(c) =~= ent_lt());
        assert(t[1] == 'l');
        assert(t.take(4) =~= ent_lt());
        assert(t.skip(4) =~= rest);
    } else if c == '>' {
        assert(esc_char(c) =~= ent_gt());
        assert(t[1] == 'g');
        assert(t.take(4) =~= ent_gt());
        assert(t.skip(4) =~= rest);
    } else if c == '"' {
        assert(esc_char(c) =~= ent_quot());
        assert(t[1] == 'q');
        assert(t.take(6) =~= ent_quot());
        assert(t.skip(6) =~= rest);
    } else if c == '\'' {
        assert(esc_char(c) =~= ent_apos());
        assert(t[1] == 'a' && t[2] == 'p');
        assert(t.take(5)[2] != ent_amp()[2]);
        assert(t.take(6) =~= ent_apos());
        assert(t.skip(6) =~= rest);
    } else {
        assert(t[0] == c);
        assert(t.skip(1) =~= rest);
    }
}

/// Escaping can be undone: decoding the entities of an escaped text gives
/// the text back.
pub proof fn law_esc_round_trip(s: Seq<char>)
    ensures
        unesc_spec(esc_spec(s)) == s,
    decreases s.len(),
{
    if s.len() > 0 {
        let rest = s.skip(1);
        assert(s =~= seq![s[0]] + rest);
        lemma_esc_front(s[0], rest);
        lemma_unesc_step(s[0], esc_spec(rest));
        law_esc_round_trip(rest);
    }
}

/// A text without any of the five special characters is its own escape.
pub proof fn law_esc_keeps_clean_text(s: Seq<char>)
    requires
        forall|i: int| 0 <= i < s.len() ==> !is_special(#[trigger] s[i]),
    ensures
        esc_spec(s) == s,
    decreases s.len(),
{
    if s.len() > 0 {
        law_esc_keeps_clean_text(s.drop_last());
        assert(!is_special(s[s.len() - 1]));
        assert(s =~= s.drop_last().push(s.last()));
    }
}

/// Escapes `&`, `<`, `>`, `"` and `'` for use in XML text and attribute
/// values.
pub fn esc(s: &str) -> (r: String)
    ensures
        r@ == esc_spec(s@),
{
    let cs = chars_of(s);
    let mut out: Vec<char> = Vec::new();
    let n = cs.len();
    for i in 0..n
        invariant
            n == cs@.len(),
            cs@ == s@,
            out@ == esc_spec(s@.take(i as int)),
    {
        assert(s@.take(i + 1).drop_last() =~= s@.take(i as int));
        let c = cs[i];
        if c == '&' {
            push_all(&mut out, chars_of("&amp;").as_slice());
        } else if c == '<' {
            push_all(&mut out, chars_of("&lt;").as_slice());
        } else if c == '>' {
            push_all(&mut out, chars_of("&gt;").as_slice());
        } else if c == '"' {
            push_all(&mut out, chars_of("&quot;").as_slice());
        } else if c == '\'' {
            push_all(&mut out, chars_of("&apos;").as_slice());
        } else {
            out.push(c);
        }
        assert(out@ =~= esc_spec(s@.take(i + 1)));
    }
    assert(s@.take(n as int) =~= s@);
    string_of(out.as_slice())
}


/// An attribute of an element: its key as bytes and its unescaped value.
pub struct Attr {
    pub key: Vec<u8>,
    pub value: String,
}

/// An attribute, as its key bytes and value text.
pub type AttrView = (Seq<u8>, Seq<char>);

impl View for Attr {
    type V = AttrView;

    open spec fn view(&self) -> AttrView {
        (self.key@, self.value@)
    }
}

/// The attributes of a sequence, as key bytes and value texts.
pub open spec fn attr_views(a: Seq<Attr>) -> Seq<AttrView> {
    a.map_values(|x: Attr| x@)
}

/// An XML event as plain values. The attributes of an element and the text
/// of a text event are read only where they are used; elsewhere they are
/// left empty.
pub enum XmlItem {
    Start { name: Vec<u8>, attrs: Vec<Attr> },
    Empty { name: Vec<u8>, attrs: Vec<Attr> },
    End { name: Vec<u8> },
    Text(String),
}

/// An XML event as sequences.
pub enum XmlItemView {
    Start { name: Seq<u8>, attrs: Seq<AttrView> },
    Empty { name: Seq<u8>, attrs: Seq<AttrView> },
    End { name: Seq<u8> },
    Text(Seq<char>),
}

impl View for XmlItem {
    type V = XmlItemView;

    open spec fn view(&self) -> XmlItemView {
        match self {
            XmlItem::Start { name, attrs } => XmlItemView::Start {
                name: name@,
                attrs: attr_views(attrs@),
            },
            XmlItem::Empty { name, attrs } => XmlItemView::Empty {
                name: name@,
                attrs: attr_views(attrs@),
            },
            XmlItem::End { name } => XmlItemView::End { name: name@ },
            XmlItem::Text(t) => XmlItemView::Text(t@),
        }
    }
}

/// Why a coverage report could not be read.
pub enum CoverageError {
    Xml(quick_xml::Error),
    Attr(AttrError),
}

/// The `timestamp`, `version` and `complexity` values after reading the
/// attributes of a `coverage` element; the last occurrence of a key counts.
pub open spec fn meta_attrs(m: (Seq<char>, Seq<char>, Seq<char>), attrs: Seq<AttrView>) -> (
    Seq<char>,
    Seq<char>,
    Seq<char>,
)
    decreases attrs.len(),
{
    if attrs.len() == 0 {
        m
    } else {
        let r = meta_attrs(m, attrs.drop_last());
        let a = attrs.last();
        if a.0 == ascii_bytes("timestamp"@) {
            (a.1, r.1, r.2)
        } else if a.0 == ascii_bytes("version"@) {
            (r.0, a.1, r.2)
        } else if a.0 == ascii_bytes("complexity"@) {
            (r.0, r.1, a.1)
        } else {
            r
        }
    }
}

/// What the attributes of a `class` element say.
pub struct ClassInfo {
    pub filename: Seq<char>,
    pub name: Seq<char>,
    pub complexity: Seq<char>,
    pub branch_rate: Seq<char>,
    pub branches_valid: u64,
    pub branches_covered: u64,
}

/// A class before any attribute is read: no file name, no name,
/// complexity `0`, no branch rate, no branches.
pub open spec fn class_init() -> ClassInfo {
    ClassInfo {
        filename: Seq::empty(),
        name: Seq::empty(),
        complexity: "0"@,
        branch_rate: Seq::empty(),
        branches_valid: 0,
        branches_covered: 0,
    }
}

/// The class after reading its attributes in order; the file name gets
/// forward slashes, the branch counts are read as numbers (0 when they
/// are not), and the branch rate is kept as written.
pub open spec fn class_attrs(attrs: Seq<AttrView>) -> ClassInfo
    decreases attrs.len(),
{
    if attrs.len() == 0 {
        class_init()
    } else {
        let c = class_attrs(attrs.drop_last());
        let a = attrs.last();
        if a.0 == ascii_bytes("filename"@) {
            ClassInfo { filename: replace_char(a.1, '\\', '/'), ..c }
        } else if a.0 == ascii_bytes("name"@) {
            ClassInfo { name: a.1, ..c }
        } else if a.0 == ascii_bytes("complexity"@) {
            ClassInfo { complexity: a.1, ..c }
        } else if a.0 == ascii_bytes("branch-rate"@) {
            ClassInfo { branch_rate: a.1, ..c }
        } else if a.0 == ascii_bytes("branches-valid"@) {
            ClassInfo { branches_valid: u64_or_zero(a.1), ..c }
        } else if a.0 == ascii_bytes("branches-covered"@) {
            ClassInfo { branches_covered: u64_or_zero(a.1), ..c }
        } else {
            c
        }
    }
}

/// The number, hits and branch flag of a `line` element after reading its
/// attributes in order (0, 0 and `false` when absent).
pub open spec fn line_attrs(attrs: Seq<AttrView>) -> (u64, u64, Seq<char>)
    decreases attrs.len(),
{
    if attrs.len() == 0 {
        (0, 0, "false"@)
    } else {
        let l = line_attrs(attrs.drop_last());
        let a = attrs.last();
        if a.0 == ascii_bytes("number"@) {
            (u64_or_zero(a.1), l.1, l.2)
        } else if a.0 == ascii_bytes("hits"@) {
            (l.0, u64_or_zero(a.1), l.2)
        } else if a.0 == ascii_bytes("branch"@) {
            (l.0, l.1, a.1)
        } else {
            l
        }
    }
}

/// The state of filtering a coverage report down to one class.
pub struct FilterModel {
    pub suffix: Seq<char>,
    pub source: Seq<char>,
    pub in_source: bool,
    pub timestamp: Seq<char>,
    pub version: Seq<char>,
    pub complexity: Seq<char>,
    pub in_target_class: bool,
    pub in_methods: bool,
    pub in_class_lines: bool,
    pub class: ClassInfo,
    pub lines: Seq<(u64, u64, Seq<char>)>,
}

/// The state before the first event: the class defaults to `analysis.rs`
/// of the security crate, complexities to `0`.
pub open spec fn filter_init(suffix: Seq<char>) -> FilterModel {
    FilterModel {
        suffix,
        source: Seq::empty(),
        in_source: false,
        timestamp: Seq::empty(),
        version: Seq::empty(),
        complexity: "0"@,
        in_target_class: false,
        in_methods: false,
        in_class_lines: false,
        class: ClassInfo {
            filename: "crates/envs/ce-security/src/analysis.rs"@,
            name: "analysis.rs"@,
            complexity: "0"@,
            branch_rate: Seq::empty(),
            branches_valid: 0,
            branches_covered: 0,
        },
        lines: Seq::empty(),
    }
}

/// Whether a class with this file name is the one kept: its name ends
/// with the target suffix or with `analysis.rs`.
pub open spec fn is_target(filename: Seq<char>, suffix: Seq<char>) -> bool {
    has_suffix(filename, suffix) || has_suffix(filename, "analysis.rs"@)
}

/// The filtering state after one event.
pub open spec fn filter_step(s: FilterModel, it: XmlItemView) -> FilterModel {
    match it {
        XmlItemView::Start { name, attrs } => {
            if name == ascii_bytes("coverage"@) {
                let m = meta_attrs((s.timestamp, s.version, s.complexity), attrs);
                FilterModel { timestamp: m.0, version: m.1, complexity: m.2, ..s }
            } else if name == ascii_bytes("source"@) {
                FilterModel { in_source: true, ..s }
            } else if name == ascii_bytes("class"@) {
                let c = class_attrs(attrs);
                if is_target(c.filename, s.suffix) {
                    FilterModel { in_target_class: true, class: c, ..s }
                } else {
                    s
                }
            } else if s.in_target_class && name == ascii_bytes("methods"@) {
                FilterModel { in_methods: true, ..s }
            } else if s.in_target_class && name == ascii_bytes("lines"@) && !s.in_methods {
                FilterModel { in_class_lines: true, ..s }
            } else {
                s
            }
        },
        XmlItemView::Empty { name, attrs } => {
            if s.in_target_class && s.in_class_lines && name == ascii_bytes("line"@) {
                let l = line_attrs(attrs);
                if l.0 > 0 {
                    FilterModel { lines: s.lines.push(l), ..s }
                } else {
                    s
                }
            } else {
                s
            }
        },
        XmlItemView::Text(t) => {
            if s.in_source {
                FilterModel { source: t, ..s }
            } else {
                s
            }
        },
        XmlItemView::End { name } => {
            if name == ascii_bytes("source"@) {
                FilterModel { in_source: false, ..s }
            } else if s.in_target_class && name == ascii_bytes("methods"@) {
                FilterModel { in_methods: false, ..s }
            } else if s.in_target_class && name == ascii_bytes("lines"@) && !s.in_methods {
                FilterModel { in_class_lines: false, ..s }
            } else if name == ascii_bytes("class"@) {
                FilterModel { in_target_class: false, in_methods: false, in_class_lines: false, ..s }
            } else {
                s
            }
        },
    }
}

/// The filtering state after a sequence of events.
pub open spec fn run_filter(s: FilterModel, items: Seq<XmlItemView>) -> FilterModel
    decreases items.len(),
{
    if items.len() == 0 {
        s
    } else {
        filter_step(run_filter(s, items.drop_last()), items.last())
    }
}


/// At most as many lines are covered as there are lines.
pub proof fn lemma_count_covered_bound(ls: Seq<(u64, u64, Seq<char>)>)
    ensures
        count_covered(ls) <= ls.len(),
    decreases ls.len(),
{
    if ls.len() > 0 {
        lemma_count_covered_bound(ls.drop_last());
    }
}

/// The covered lines are counted one for one: their number is the number
/// of lines with at least one hit.
pub proof fn law_covered_are_hit_lines(ls: Seq<(u64, u64, Seq<char>)>)
    ensures
        count_covered(ls) == ls.filter(|l: (u64, u64, Seq<char>)| l.1 > 0).len(),
    decreases ls.len(),
{
    reveal(Seq::filter);
    if ls.len() > 0 {
        law_covered_are_hit_lines(ls.drop_last());
    }
}

/// The totals of a filtered report count its own lines: as many valid
/// lines as lines kept, and as many covered lines as kept lines with at
/// least one hit, never more.
pub proof fn law_finished_counts(m: FilterModel, f: FilteredCoverage)
    requires
        finished(m, f),
    ensures
        f.lines_valid == f.lines@.len(),
        f.lines_covered == line_views(f.lines@).filter(|l: (u64, u64, Seq<char>)| l.1 > 0).len(),
        f.lines_covered <= f.lines_valid,
{
    law_covered_are_hit_lines(m.lines);
    lemma_count_covered_bound(m.lines);
}

/// Whether every line has a positive number.
pub open spec fn lines_numbered(ls: Seq<(u64, u64, Seq<char>)>) -> bool {
    forall|i: int| 0 <= i < ls.len() ==> (#[trigger] ls[i]).0 > 0
}

/// One filtering step keeps the lines numbered.
proof fn lemma_step_numbered(s: FilterModel, it: XmlItemView)
    requires
        lines_numbered(s.lines),
    ensures
        lines_numbered(filter_step(s, it).lines),
{
    let m = filter_step(s, it);
    assert(m.lines == s.lines || (m.lines == s.lines.push(m.lines.last()) && m.lines.last().0 > 0));
    assert forall|i: int| 0 <= i < m.lines.len() implies (#[trigger] m.lines[i]).0 > 0 by {
        if i < s.lines.len() {
            assert(m.lines[i] == s.lines[i]);
        }
    }
}

/// Filtering from a state whose lines are numbered ends with numbered
/// lines.
proof fn lemma_filter_from_numbered(xml: Seq<char>, s: FilterModel, k: nat)
    requires
        lines_numbered(s.lines),
    ensures
        filter_from(xml, s, k) matches Some(m) ==> lines_numbered(m.lines),
    decreases xml.len() - k,
{
    match xml_event(xml, k) {
        None => {},
        Some(XmlHead::Eof) => {},
        Some(h) => {
            if k < xml.len() {
                match item_of(xml, k, s, h) {
                    None => {},
                    Some(None) => {
                        lemma_filter_from_numbered(xml, s, k + 1);
                    },
                    Some(Some(it)) => {
                        lemma_step_numbered(s, it);
                        lemma_filter_from_numbered(xml, filter_step(s, it), k + 1);
                    },
                }
            }
        },
    }
}

/// Filtering a report keeps only lines with a positive number, and never
/// counts more covered lines than it kept.
pub proof fn law_filter_lines(xml: Seq<char>, suffix: Seq<char>)
    ensures
        filter_outcome(xml, suffix) matches Some(m) ==> lines_numbered(m.lines) && count_covered(
            m.lines,
        ) <= m.lines.len(),
{
    lemma_filter_from_numbered(xml, filter_init(suffix), 0);
    if let Some(m) = filter_outcome(xml, suffix) {
        lemma_count_covered_bound(m.lines);
    }
}

/// Filtering two runs of events one after the other is filtering their
/// concatenation.
pub proof fn lemma_run_filter_append(s: FilterModel, a: Seq<XmlItemView>, b: Seq<XmlItemView>)
    ensures
        run_filter(s, a + b) == run_filter(run_filter(s, a), b),
    decreases b.len(),
{
    if b.len() == 0 {
        assert(a + b =~= a);
    } else {
        lemma_run_filter_append(s, a, b.drop_last());
        assert((a + b).drop_last() =~= a + b.drop_last());
        assert((a + b).last() == b.last());
    }
}

/// Whether an event inside a class is one that filtering passes over when
/// it is outside the kept class: a tag other than `coverage`, `source` and
/// `class`.
pub open spec fn plain_class_content(it: XmlItemView) -> bool {
    let n = match it {
        XmlItemView::Start { name, .. } => name,
        XmlItemView::Empty { name, .. } => name,
        XmlItemView::End { name } => name,
        XmlItemView::Text(_) => ascii_bytes("class"@),
    };
    n != ascii_bytes("coverage"@) && n != ascii_bytes("source"@) && n != ascii_bytes("class"@)
}

/// Outside the kept class, events of plain class content change nothing.
proof fn lemma_plain_content_skipped(s: FilterModel, inner: Seq<XmlItemView>)
    requires
        !s.in_target_class,
        forall|i: int| 0 <= i < inner.len() ==> plain_class_content(#[trigger] inner[i]),
    ensures
        run_filter(s, inner) == s,
    decreases inner.len(),
{
    if inner.len() > 0 {
        lemma_plain_content_skipped(s, inner.drop_last());
        assert(plain_class_content(inner[inner.len() - 1]));
    }
}

/// A class that is not the kept one changes nothing: between classes (no
/// class open), the start tag of a class whose file name does not end with
/// the target suffix or `analysis.rs`, followed by tags other than
/// `coverage`, `source` and `class` and by the class's end tag, leaves the
/// filtering state as it was.
pub proof fn law_other_class_changes_nothing(
    s: FilterModel,
    attrs: Seq<AttrView>,
    inner: Seq<XmlItemView>,
)
    requires
        !s.in_target_class,
        !s.in_methods,
        !s.in_class_lines,
        !is_target(class_attrs(attrs).filename, s.suffix),
        forall|i: int| 0 <= i < inner.len() ==> plain_class_content(#[trigger] inner[i]),
    ensures
        run_filter(
            s,
            seq![XmlItemView::Start { name: ascii_bytes("class"@), attrs }] + inner + seq![
                XmlItemView::End { name: ascii_bytes("class"@) },
            ],
        ) == s,
{
    reveal_strlit("class");
    reveal_strlit("source");
    reveal_strlit("coverage");
    assert(ascii_bytes("class"@).len() != ascii_bytes("source"@).len());
    assert(ascii_bytes("class"@).len() != ascii_bytes("coverage"@).len());
    let start = seq![XmlItemView::Start { name: ascii_bytes("class"@), attrs }];
    let end = seq![XmlItemView::End { name: ascii_bytes("class"@) }];
    lemma_run_filter_append(s, start + inner, end);
    lemma_run_filter_append(s, start, inner);
    assert(start.drop_last() =~= Seq::<XmlItemView>::empty());
    assert(run_filter(s, start.drop_last()) == s);
    assert(run_filter(s, start) == filter_step(s, start.last()));
    lemma_plain_content_skipped(s, inner);
    assert(end.drop_last() =~= Seq::<XmlItemView>::empty());
    assert(run_filter(s, end.drop_last()) == s);
    assert(run_filter(s, end) == filter_step(s, end.last()));
    assert(filter_step(s, start.last()) == s);
    assert(filter_step(s, end.last()) == s);
}


/// Filtering a report goes step by step: the state it ends in is the
/// filtering of the events it took, in order.
pub proof fn law_filter_from_steps(xml: Seq<char>, s: FilterModel, k: nat)
    ensures
        filter_from(xml, s, k) matches Some(m) ==> exists|items: Seq<XmlItemView>|
            m == run_filter(s, items),
    decreases xml.len() - k,
{
    assert(run_filter(s, Seq::<XmlItemView>::empty()) == s);
    match xml_event(xml, k) {
        None => {},
        Some(XmlHead::Eof) => {},
        Some(h) => {
            if k < xml.len() {
                match item_of(xml, k, s, h) {
                    None => {},
                    Some(None) => {
                        law_filter_from_steps(xml, s, k + 1);
                    },
                    Some(Some(it)) => {
                        let s1 = filter_step(s, it);
                        law_filter_from_steps(xml, s1, k + 1);
                        if let Some(m) = filter_from(xml, s1, k + 1) {
                            let items = choose|items: Seq<XmlItemView>| m == run_filter(s1, items);
                            let one = seq![it];
                            lemma_run_filter_append(s, one, items);
                            assert(one.drop_last() =~= Seq::<XmlItemView>::empty());
                            assert(run_filter(s, one.drop_last()) == s);
                            assert(run_filter(s, one) == s1);
                            assert(m == run_filter(s, one + items));
                        }
                    },
                }
            }
        },
    }
}


/// The end tag of a class closes it: afterwards filtering is outside any
/// class, in no method list and in no line list, whatever state it was in,
/// and nothing else changes.
pub proof fn law_class_end_closes(s: FilterModel)
    ensures
        !filter_step(s, XmlItemView::End { name: ascii_bytes("class"@) }).in_target_class,
        !filter_step(s, XmlItemView::End { name: ascii_bytes("class"@) }).in_methods,
        !filter_step(s, XmlItemView::End { name: ascii_bytes("class"@) }).in_class_lines,
        filter_step(s, XmlItemView::End { name: ascii_bytes("class"@) }).lines == s.lines,
        filter_step(s, XmlItemView::End { name: ascii_bytes("class"@) }).class == s.class,
{
    reveal_strlit("class");
    reveal_strlit("source");
    reveal_strlit("methods");
    reveal_strlit("lines");
    assert(ascii_bytes("class"@).len() != ascii_bytes("source"@).len());
    assert(ascii_bytes("class"@) != ascii_bytes("methods"@));
    assert(ascii_bytes("class"@)[0] != ascii_bytes("lines"@)[0]);
}

/// Only the kept class gives lines: once a class has ended, a following
/// class that is not the kept one (its start tag, tags other than
/// `coverage`, `source` and `class`, and its end tag) leaves the filtering
/// state as it was, its lines included. So the lines of classes after the
/// kept one are never counted as its own.
pub proof fn law_lines_after_class_end(
    s: FilterModel,
    attrs: Seq<AttrView>,
    inner: Seq<XmlItemView>,
)
    requires
        !is_target(class_attrs(attrs).filename, s.suffix),
        forall|i: int| 0 <= i < inner.len() ==> plain_class_content(#[trigger] inner[i]),
    ensures
        ({
            let closed = filter_step(s, XmlItemView::End { name: ascii_bytes("class"@) });
            run_filter(
                closed,
                seq![XmlItemView::Start { name: ascii_bytes("class"@), attrs }] + inner + seq![
                    XmlItemView::End { name: ascii_bytes("class"@) },
                ],
            ) == closed && closed.lines == s.lines
        }),
{
    law_class_end_closes(s);
    let closed = filter_step(s, XmlItemView::End { name: ascii_bytes("class"@) });
    law_other_class_changes_nothing(closed, attrs, inner);
}


/// The source is the text read inside a `source` element: a text there
/// becomes the source, texts elsewhere and other events leave it; the
/// start tag of `source` opens it, its end tag closes it, nothing else
/// does. The report's timestamp, version and complexity change only at the
/// start tag of `coverage`.
pub proof fn law_source_step(s: FilterModel, it: XmlItemView)
    ensures
        ({
            let t = filter_step(s, it);
            &&& t.source == match it {
                XmlItemView::Text(x) => if s.in_source {
                    x
                } else {
                    s.source
                },
                _ => s.source,
            }
            &&& t.in_source == match it {
                XmlItemView::Start { name, .. } => name == ascii_bytes("source"@) || s.in_source,
                XmlItemView::End { name } => name != ascii_bytes("source"@) && s.in_source,
                _ => s.in_source,
            }
            &&& !(it is Start && it->Start_name == ascii_bytes("coverage"@)) ==> (t.timestamp, t.version, t.complexity) == (s.timestamp, s.version, s.complexity)
        }),
{
    reveal_strlit("coverage");
    reveal_strlit("source");
    assert(ascii_bytes("coverage"@).len() == 8);
    assert(ascii_bytes("source"@).len() == 6);
}

/// Inside the kept class, the start tag of `methods` opens a method list
/// and its end tag closes it; outside a method list, the start tag of
/// `lines` opens the class's line list and its end tag closes it.
pub proof fn law_line_list_step(s: FilterModel)
    requires
        s.in_target_class,
    ensures
        filter_step(s, XmlItemView::Start { name: ascii_bytes("methods"@), attrs: Seq::empty() }).in_methods,
        !filter_step(s, XmlItemView::End { name: ascii_bytes("methods"@) }).in_methods,
        !s.in_methods ==> filter_step(
            s,
            XmlItemView::Start { name: ascii_bytes("lines"@), attrs: Seq::empty() },
        ).in_class_lines,
        !s.in_methods ==> !filter_step(s, XmlItemView::End { name: ascii_bytes("lines"@) }).in_class_lines,
{
    reveal_strlit("coverage");
    reveal_strlit("source");
    reveal_strlit("class");
    reveal_strlit("methods");
    reveal_strlit("lines");
    assert(ascii_bytes("coverage"@).len() == 8);
    assert(ascii_bytes("source"@).len() == 6);
    assert(ascii_bytes("class"@).len() == 5);
    assert(ascii_bytes("methods"@).len() == 7);
    assert(ascii_bytes("lines"@).len() == 5);
    assert(ascii_bytes("class"@)[0] != ascii_bytes("lines"@)[0]);
}

/// A class element holding one line: the class's start tag with `attrs`,
/// its line list with one empty `line` tag with `line`, and the end tags.
pub open spec fn one_line_class(attrs: Seq<AttrView>, line: Seq<AttrView>) -> Seq<XmlItemView> {
    seq![
        XmlItemView::Start { name: ascii_bytes("class"@), attrs },
        XmlItemView::Start { name: ascii_bytes("lines"@), attrs: Seq::empty() },
        XmlItemView::Empty { name: ascii_bytes("line"@), attrs: line },
        XmlItemView::End { name: ascii_bytes("lines"@) },
        XmlItemView::End { name: ascii_bytes("class"@) },
    ]
}

proof fn lemma_run_filter_one(s: FilterModel, it: XmlItemView)
    ensures
        run_filter(s, seq![it]) == filter_step(s, it),
{
    assert(seq![it].drop_last() =~= Seq::<XmlItemView>::empty());
    assert(run_filter(s, Seq::<XmlItemView>::empty()) == s);
}

/// The kept class gives its lines and no other class does: outside any
/// class, the kept class with one numbered line followed by another class
/// with one line leaves the lines grown by the kept class's line alone,
/// the kept class as the class, and no class open.
pub proof fn law_only_kept_class_lines(
    s: FilterModel,
    kept: Seq<AttrView>,
    line: Seq<AttrView>,
    other: Seq<AttrView>,
    other_line: Seq<AttrView>,
)
    requires
        !s.in_target_class,
        !s.in_methods,
        !s.in_class_lines,
        is_target(class_attrs(kept).filename, s.suffix),
        !is_target(class_attrs(other).filename, s.suffix),
        line_attrs(line).0 > 0,
    ensures
        ({
            let m = run_filter(s, one_line_class(kept, line) + one_line_class(other, other_line));
            &&& m.lines == s.lines.push(line_attrs(line))
            &&& m.class == class_attrs(kept)
            &&& !m.in_target_class
            &&& !m.in_methods
            &&& !m.in_class_lines
        }),
{
    reveal_strlit("coverage");
    reveal_strlit("source");
    reveal_strlit("class");
    reveal_strlit("methods");
    reveal_strlit("lines");
    reveal_strlit("line");
    assert(ascii_bytes("coverage"@).len() == 8);
    assert(ascii_bytes("source"@).len() == 6);
    assert(ascii_bytes("class"@).len() == 5);
    assert(ascii_bytes("methods"@).len() == 7);
    assert(ascii_bytes("lines"@).len() == 5);
    assert(ascii_bytes("line"@).len() == 4);
    assert(ascii_bytes("class"@)[0] != ascii_bytes("lines"@)[0]);
    let i1 = XmlItemView::Start { name: ascii_bytes("class"@), attrs: kept };
    let i2 = XmlItemView::Start { name: ascii_bytes("lines"@), attrs: Seq::empty() };
    let i3 = XmlItemView::Empty { name: ascii_bytes("line"@), attrs: line };
    let i4 = XmlItemView::End { name: ascii_bytes("lines"@) };
    let i5 = XmlItemView::End { name: ascii_bytes("class"@) };
    let a = one_line_class(kept, line);
    assert(a =~= seq![i1] + seq![i2] + seq![i3] + seq![i4] + seq![i5]);
    lemma_run_filter_one(s, i1);
    let s1 = filter_step(s, i1);
    assert(s1.in_target_class && !s1.in_methods && !s1.in_class_lines && s1.lines == s.lines);
    assert(s1.class == class_attrs(kept));
    lemma_run_filter_append(s, seq![i1], seq![i2]);
    lemma_run_filter_one(s1, i2);
    let s2 = filter_step(s1, i2);
    assert(s2.in_target_class && !s2.in_methods && s2.in_class_lines && s2.lines == s.lines);
    lemma_run_filter_append(s, seq![i1] + seq![i2], seq![i3]);
    lemma_run_filter_one(s2, i3);
    let s3 = filter_step(s2, i3);
    assert(s3.in_target_class && !s3.in_methods && s3.in_class_lines);
    assert(s3.lines == s.lines.push(line_attrs(line)));
    lemma_run_filter_append(s, seq![i1] + seq![i2] + seq![i3], seq![i4]);
    lemma_run_filter_one(s3, i4);
    let s4 = filter_step(s3, i4);
    assert(s4.in_target_class && !s4.in_methods && !s4.in_class_lines);
    lemma_run_filter_append(s, seq![i1] + seq![i2] + seq![i3] + seq![i4], seq![i5]);
    lemma_run_filter_one(s4, i5);
    let s5 = filter_step(s4, i5);
    assert(run_filter(s, a) == s5);
    assert(!s5.in_target_class && !s5.in_methods && !s5.in_class_lines);
    assert(s5.lines == s.lines.push(line_attrs(line)));
    assert(s5.class == class_attrs(kept));
    let inner = seq![
        XmlItemView::Start { name: ascii_bytes("lines"@), attrs: Seq::empty() },
        XmlItemView::Empty { name: ascii_bytes("line"@), attrs: other_line },
        XmlItemView::End { name: ascii_bytes("lines"@) },
    ];
    assert forall|i: int| 0 <= i < inner.len() implies plain_class_content(#[trigger] inner[i]) by {
        assert(ascii_bytes("lines"@) != ascii_bytes("class"@));
        assert(ascii_bytes("line"@) != ascii_bytes("class"@));
    }
    law_other_class_changes_nothing(s5, other, inner);
    let b = one_line_class(other, other_line);
    assert(b =~= seq![XmlItemView::Start { name: ascii_bytes("class"@), attrs: other }] + inner
        + seq![XmlItemView::End { name: ascii_bytes("class"@) }]);
    lemma_run_filter_append(s, a, b);
}


/// The value of the last attribute whose key is `key`, if there is one.
pub open spec fn last_value(attrs: Seq<AttrView>, key: Seq<u8>) -> Option<Seq<char>>
    decreases attrs.len(),
{
    if attrs.len() == 0 {
        None
    } else if attrs.last().0 == key {
        Some(attrs.last().1)
    } else {
        last_value(attrs.drop_last(), key)
    }
}

/// A text value, or `d` when there is none.
pub open spec fn text_or(v: Option<Seq<char>>, d: Seq<char>) -> Seq<char> {
    match v {
        Some(x) => x,
        None => d,
    }
}

/// A count value read as a number (0 when it is not one), or 0 when there
/// is none.
pub open spec fn count_or_zero(v: Option<Seq<char>>) -> u64 {
    match v {
        Some(x) => u64_or_zero(x),
        None => 0,
    }
}

/// Each total of a `coverage` element comes from the attribute of its own
/// name, the last one when a name repeats: the rates as written (empty when
/// absent), the four counts as numbers (0 when absent or not a number).
pub proof fn law_counts_by_name(attrs: Seq<AttrView>)
    ensures
        counts_attrs(attrs) == (
            text_or(last_value(attrs, ascii_bytes("line-rate"@)), Seq::empty()),
            text_or(last_value(attrs, ascii_bytes("branch-rate"@)), Seq::empty()),
            count_or_zero(last_value(attrs, ascii_bytes("lines-valid"@))),
            count_or_zero(last_value(attrs, ascii_bytes("lines-covered"@))),
            count_or_zero(last_value(attrs, ascii_bytes("branches-valid"@))),
            count_or_zero(last_value(attrs, ascii_bytes("branches-covered"@))),
        ),
    decreases attrs.len(),
{
    reveal_strlit("line-rate");
    reveal_strlit("branch-rate");
    reveal_strlit("lines-valid");
    reveal_strlit("lines-covered");
    reveal_strlit("branches-valid");
    reveal_strlit("branches-covered");
    let k1 = ascii_bytes("line-rate"@);
    let k2 = ascii_bytes("branch-rate"@);
    let k3 = ascii_bytes("lines-valid"@);
    let k4 = ascii_bytes("lines-covered"@);
    let k5 = ascii_bytes("branches-valid"@);
    let k6 = ascii_bytes("branches-covered"@);
    assert(k1.len() == 9 && k2.len() == 11 && k3.len() == 11 && k4.len() == 13 && k5.len() == 14
        && k6.len() == 16);
    assert(k2[0] != k3[0]);
    if attrs.len() > 0 {
        law_counts_by_name(attrs.drop_last());
    }
}

/// Each field of a class comes from the attribute of its own name, the last
/// one when a name repeats: the file name with forward slashes, the name,
/// complexity (`0` when absent) and branch rate as written, the branch
/// counts as numbers.
pub proof fn law_class_by_name(attrs: Seq<AttrView>)
    ensures
        class_attrs(attrs) == (ClassInfo {
            filename: replace_char(
                text_or(last_value(attrs, ascii_bytes("filename"@)), Seq::empty()),
                '\\',
                '/',
            ),
            name: text_or(last_value(attrs, ascii_bytes("name"@)), Seq::empty()),
            complexity: text_or(last_value(attrs, ascii_bytes("complexity"@)), "0"@),
            branch_rate: text_or(last_value(attrs, ascii_bytes("branch-rate"@)), Seq::empty()),
            branches_valid: count_or_zero(last_value(attrs, ascii_bytes("branches-valid"@))),
            branches_covered: count_or_zero(last_value(attrs, ascii_bytes("branches-covered"@))),
        }),
    decreases attrs.len(),
{
    reveal_strlit("filename");
    reveal_strlit("name");
    reveal_strlit("complexity");
    reveal_strlit("branch-rate");
    reveal_strlit("branches-valid");
    reveal_strlit("branches-covered");
    assert(ascii_bytes("filename"@).len() == 8);
    assert(ascii_bytes("name"@).len() == 4);
    assert(ascii_bytes("complexity"@).len() == 10);
    assert(ascii_bytes("branch-rate"@).len() == 11);
    assert(ascii_bytes("branches-valid"@).len() == 14);
    assert(ascii_bytes("branches-covered"@).len() == 16);
    if attrs.len() == 0 {
        assert(replace_char(Seq::empty(), '\\', '/') =~= Seq::<char>::empty());
    } else {
        law_class_by_name(attrs.drop_last());
    }
}

/// The number, hit count and branch flag of a line each come from the
/// attribute of its own name, the last one when a name repeats: numbers
/// read as such (0 when absent or not a number), the flag as written
/// (`false` when absent).
pub proof fn law_line_by_name(attrs: Seq<AttrView>)
    ensures
        line_attrs(attrs) == (
            count_or_zero(last_value(attrs, ascii_bytes("number"@))),
            count_or_zero(last_value(attrs, ascii_bytes("hits"@))),
            text_or(last_value(attrs, ascii_bytes("branch"@)), "false"@),
        ),
    decreases attrs.len(),
{
    reveal_strlit("number");
    reveal_strlit("hits");
    reveal_strlit("branch");
    assert(ascii_bytes("number"@).len() == 6);
    assert(ascii_bytes("hits"@).len() == 4);
    assert(ascii_bytes("branch"@).len() == 6);
    assert(ascii_bytes("number"@)[0] != ascii_bytes("branch"@)[0]);
    if attrs.len() > 0 {
        law_line_by_name(attrs.drop_last());
    }
}

/// The timestamp, version and complexity of a report each come from the
/// attribute of its own name, the last one when a name repeats; one that is
/// absent keeps the value it had.
pub proof fn law_meta_by_name(m: (Seq<char>, Seq<char>, Seq<char>), attrs: Seq<AttrView>)
    ensures
        meta_attrs(m, attrs) == (
            text_or(last_value(attrs, ascii_bytes("timestamp"@)), m.0),
            text_or(last_value(attrs, ascii_bytes("version"@)), m.1),
            text_or(last_value(attrs, ascii_bytes("complexity"@)), m.2),
        ),
    decreases attrs.len(),
{
    reveal_strlit("timestamp");
    reveal_strlit("version");
    reveal_strlit("complexity");
    assert(ascii_bytes("timestamp"@).len() == 9);
    assert(ascii_bytes("version"@).len() == 7);
    assert(ascii_bytes("complexity"@).len() == 10);
    if attrs.len() > 0 {
        law_meta_by_name(m, attrs.drop_last());
    }
}


/// How one event can change the kept lines and the kept class:
/// - the lines only ever grow by one line at the end, and only for an empty
///   `line` tag with a positive number inside the line list (not a method's)
///   of the kept class; such a tag always adds its line;
/// - the kept class is only ever replaced by the start tag of a class whose
///   file name ends with the target suffix or `analysis.rs`, which always
///   replaces it with that class;
/// - the start of a line list inside a method list does not open the
///   class's line list;
/// - no event changes the target suffix.
pub proof fn law_step_keeps_to_target(s: FilterModel, it: XmlItemView)
    ensures
        ({
            let t = filter_step(s, it);
            let adds = s.in_target_class && s.in_class_lines && it is Empty && it->Empty_name
                == ascii_bytes("line"@) && line_attrs(it->Empty_attrs).0 > 0;
            &&& t.suffix == s.suffix
            &&& adds ==> t.lines == s.lines.push(line_attrs(it->Empty_attrs))
            &&& !adds ==> t.lines == s.lines
        }),
        ({
            let t = filter_step(s, it);
            let picks = it is Start && it->Start_name == ascii_bytes("class"@) && is_target(
                class_attrs(it->Start_attrs).filename,
                s.suffix,
            );
            &&& picks ==> t.class == class_attrs(it->Start_attrs) && t.in_target_class
            &&& !picks ==> t.class == s.class
        }),
        s.in_methods && it is Start && it->Start_name == ascii_bytes("lines"@) ==> filter_step(
            s,
            it,
        ).in_class_lines == s.in_class_lines,
{
    reveal_strlit("coverage");
    reveal_strlit("source");
    reveal_strlit("class");
    reveal_strlit("methods");
    reveal_strlit("lines");
    reveal_strlit("line");
    assert(ascii_bytes("coverage"@).len() == 8);
    assert(ascii_bytes("source"@).len() == 6);
    assert(ascii_bytes("class"@).len() == 5);
    assert(ascii_bytes("methods"@).len() == 7);
    assert(ascii_bytes("lines"@).len() == 5);
    assert(ascii_bytes("line"@).len() == 4);
    assert(ascii_bytes("class"@)[0] != ascii_bytes("lines"@)[0]);
}


/// One covered line of the kept class: its number, hit count and branch flag.
pub struct CoverageLine {
    pub number: u64,
    pub hits: u64,
    pub branch: String,
}

impl View for CoverageLine {
    type V = (u64, u64, Seq<char>);

    open spec fn view(&self) -> (u64, u64, Seq<char>) {
        (self.number, self.hits, self.branch@)
    }
}

/// The lines of a sequence, as plain triples.
pub open spec fn line_views(ls: Seq<CoverageLine>) -> Seq<(u64, u64, Seq<char>)> {
    ls.map_values(|l: CoverageLine| l@)
}

/// The state of filtering a coverage report down to one class.
pub struct FilterState {
    suffix: String,
    source: String,
    in_source: bool,
    timestamp: String,
    version: String,
    complexity: String,
    in_target_class: bool,
    in_methods: bool,
    in_class_lines: bool,
    class_filename: String,
    class_name: String,
    class_complexity: String,
    class_branch_rate: String,
    class_branches_valid: u64,
    class_branches_covered: u64,
    lines: Vec<CoverageLine>,
}

impl View for FilterState {
    type V = FilterModel;

    closed spec fn view(&self) -> FilterModel {
        FilterModel {
            suffix: self.suffix@,
            source: self.source@,
            in_source: self.in_source,
            timestamp: self.timestamp@,
            version: self.version@,
            complexity: self.complexity@,
            in_target_class: self.in_target_class,
            in_methods: self.in_methods,
            in_class_lines: self.in_class_lines,
            class: ClassInfo {
                filename: self.class_filename@,
                name: self.class_name@,
                complexity: self.class_complexity@,
                branch_rate: self.class_branch_rate@,
                branches_valid: self.class_branches_valid,
                branches_covered: self.class_branches_covered,
            },
            lines: line_views(self.lines@),
        }
    }
}

fn value_u64(v: &String) -> (r: u64)
    ensures
        r == u64_or_zero(v@),
{
    match parse_u64_chars(chars_of(v.as_str()).as_slice()) {
        Some(x) => x,
        None => 0,
    }
}

/// The class a `class` element describes, from its attributes.
fn read_class(attrs: &Vec<Attr>) -> (r: (String, String, String, String, u64, u64))
    ensures
        class_attrs(attr_views(attrs@)) == (ClassInfo {
            filename: r.0@,
            name: r.1@,
            complexity: r.2@,
            branch_rate: r.3@,
            branches_valid: r.4,
            branches_covered: r.5,
        }),
{
    let ghost av = attr_views(attrs@);
    let mut filename = String::new();
    let mut name = String::new();
    let mut complexity = "0".to_owned();
    let mut branch_rate = String::new();
    let mut valid: u64 = 0;
    let mut covered: u64 = 0;
    let n = attrs.len();
    for i in 0..n
        invariant
            n == attrs@.len(),
            av == attr_views(attrs@),
            class_attrs(av.take(i as int)) == (ClassInfo {
                filename: filename@,
                name: name@,
                complexity: complexity@,
                branch_rate: branch_rate@,
                branches_valid: valid,
                branches_covered: covered,
            }),
    {
        assert(av.take(i + 1).drop_last() =~= av.take(i as int));
        assert(av.take(i + 1).last() == attrs@[i as int]@);
        let a = &attrs[i];
        if bytes_are(a.key.as_slice(), "filename") {
            let fixed = replace_chars(chars_of(a.value.as_str()).as_slice(), '\\', '/');
            filename = string_of(fixed.as_slice());
        } else if bytes_are(a.key.as_slice(), "name") {
            name = a.value.clone();
        } else if bytes_are(a.key.as_slice(), "complexity") {
            complexity = a.value.clone();
        } else if bytes_are(a.key.as_slice(), "branch-rate") {
            branch_rate = a.value.clone();
        } else if bytes_are(a.key.as_slice(), "branches-valid") {
            valid = value_u64(&a.value);
        } else if bytes_are(a.key.as_slice(), "branches-covered") {
            covered = value_u64(&a.value);
        }
    }
    assert(av.take(n as int) =~= av);
    (filename, name, complexity, branch_rate, valid, covered)
}

/// The number, hits and branch flag a `line` element gives, from its attributes.
fn read_line(attrs: &Vec<Attr>) -> (r: CoverageLine)
    ensures
        line_attrs(attr_views(attrs@)) == r@,
{
    let ghost av = attr_views(attrs@);
    let mut number: u64 = 0;
    let mut hits: u64 = 0;
    let mut branch = "false".to_owned();
    let n = attrs.len();
    for i in 0..n
        invariant
            n == attrs@.len(),
            av == attr_views(attrs@),
            line_attrs(av.take(i as int)) == (number, hits, branch@),
    {
        assert(av.take(i + 1).drop_last() =~= av.take(i as int));
        assert(av.take(i + 1).last() == attrs@[i as int]@);
        let a = &attrs[i];
        if bytes_are(a.key.as_slice(), "number") {
            number = value_u64(&a.value);
        } else if bytes_are(a.key.as_slice(), "hits") {
            hits = value_u64(&a.value);
        } else if bytes_are(a.key.as_slice(), "branch") {
            branch = a.value.clone();
        }
    }
    assert(av.take(n as int) =~= av);
    CoverageLine { number, hits, branch }
}

impl FilterState {
    /// The state before the first event, keeping the class whose file name
    /// ends with `target_suffix` (or with `analysis.rs`).
    pub fn new(target_suffix: &str) -> (r: Self)
        ensures
            r@ == filter_init(target_suffix@),
    {
        let r = FilterState {
            suffix: target_suffix.to_owned(),
            source: String::new(),
            in_source: false,
            timestamp: String::new(),
            version: String::new(),
            complexity: "0".to_owned(),
            in_target_class: false,
            in_methods: false,
            in_class_lines: false,
            class_filename: "crates/envs/ce-security/src/analysis.rs".to_owned(),
            class_name: "analysis.rs".to_owned(),
            class_complexity: "0".to_owned(),
            class_branch_rate: String::new(),
            class_branches_valid: 0,
            class_branches_covered: 0,
            lines: Vec::new(),
        };
        assert(line_views(r.lines@) =~= Seq::<(u64, u64, Seq<char>)>::empty());
        assert(r@ =~= filter_init(target_suffix@));
        r
    }

    /// Whether `step` reads the attributes of an element named `name`:
    /// those of a start tag `coverage` or `class`, and those of an empty
    /// `line` tag among the lines of the kept class.
    pub fn wants_attributes(&self, start: bool, name: &Vec<u8>) -> (r: bool)
        ensures
            r == if start {
                name@ == ascii_bytes("coverage"@) || name@ == ascii_bytes("class"@)
            } else {
                self@.in_target_class && self@.in_class_lines && name@ == ascii_bytes("line"@)
            },
    {
        if start {
            bytes_are(name.as_slice(), "coverage") || bytes_are(name.as_slice(), "class")
        } else {
            self.in_target_class && self.in_class_lines && bytes_are(name.as_slice(), "line")
        }
    }

    /// Whether `step` reads the text of a text event: inside `source`.
    pub fn wants_text(&self) -> (r: bool)
        ensures
            r == self@.in_source,
    {
        self.in_source
    }

    /// Takes one event into account.
    pub fn step(&mut self, item: &XmlItem)
        ensures
            final(self)@ == filter_step(old(self)@, item@),
    {
        match item {
            XmlItem::Start { name, attrs } => {
                if bytes_are(name.as_slice(), "coverage") {
                    let ghost av = attr_views(attrs@);
                    let n = attrs.len();
                    for i in 0..n
                        invariant
                            n == attrs@.len(),
                            av == attr_views(attrs@),
                            meta_attrs(
                                (old(self)@.timestamp, old(self)@.version, old(self)@.complexity),
                                av.take(i as int),
                            ) == (self@.timestamp, self@.version, self@.complexity),
                            self@ == (FilterModel {
                                timestamp: self@.timestamp,
                                version: self@.version,
                                complexity: self@.complexity,
                                ..old(self)@
                            }),
                    {
                        assert(av.take(i + 1).drop_last() =~= av.take(i as int));
                        assert(av.take(i + 1).last() == attrs@[i as int]@);
                        let a = &attrs[i];
                        if bytes_are(a.key.as_slice(), "timestamp") {
                            self.timestamp = a.value.clone();
                        } else if bytes_are(a.key.as_slice(), "version") {
                            self.version = a.value.clone();
                        } else if bytes_are(a.key.as_slice(), "complexity") {
                            self.complexity = a.value.clone();
                        }
                    }
                    assert(av.take(n as int) =~= av);
                } else if bytes_are(name.as_slice(), "source") {
                    self.in_source = true;
                } else if bytes_are(name.as_slice(), "class") {
                    let c = read_class(attrs);
                    let fc = chars_of(c.0.as_str());
                    let target = ends_with(fc.as_slice(), chars_of(self.suffix.as_str()).as_slice())
                        || ends_with(fc.as_slice(), chars_of("analysis.rs").as_slice());
                    if target {
                        self.in_target_class = true;
                        self.class_filename = c.0;
                        self.class_name = c.1;
                        self.class_complexity = c.2;
                        self.class_branch_rate = c.3;
                        self.class_branches_valid = c.4;
                        self.class_branches_covered = c.5;
                    }
                } else if self.in_target_class && bytes_are(name.as_slice(), "methods") {
                    self.in_methods = true;
                } else if self.in_target_class && bytes_are(name.as_slice(), "lines")
                    && !self.in_methods {
                    self.in_class_lines = true;
                }
            },
            XmlItem::Empty { name, attrs } => {
                if self.in_target_class && self.in_class_lines && bytes_are(name.as_slice(), "line") {
                    let l = read_line(attrs);
                    if l.number > 0 {
                        self.lines.push(l);
                        assert(line_views(self.lines@) =~= line_views(old(self).lines@).push(l@));
                    }
                }
            },
            XmlItem::Text(t) => {
                if self.in_source {
                    self.source = t.clone();
                }
            },
            XmlItem::End { name } => {
                if bytes_are(name.as_slice(), "source") {
                    self.in_source = false;
                } else if self.in_target_class && bytes_are(name.as_slice(), "methods") {
                    self.in_methods = false;
                } else if self.in_target_class && bytes_are(name.as_slice(), "lines")
                    && !self.in_methods {
                    self.in_class_lines = false;
                } else if bytes_are(name.as_slice(), "class") {
                    self.in_target_class = false;
                    self.in_methods = false;
                    self.in_class_lines = false;
                }
            },
        }
    }
}


/// The number of lines with at least one hit.
pub open spec fn count_covered(ls: Seq<(u64, u64, Seq<char>)>) -> nat
    decreases ls.len(),
{
    if ls.len() == 0 {
        0
    } else {
        count_covered(ls.drop_last()) + if ls.last().1 > 0 {
            1nat
        } else {
            0nat
        }
    }
}

/// What filtering keeps of a coverage report: the report's metadata, the
/// kept class and its lines, and the line counts. The branch rate is kept
/// as written.
pub struct FilteredCoverage {
    pub source: String,
    pub timestamp: String,
    pub version: String,
    pub complexity: String,
    pub class_name: String,
    pub class_filename: String,
    pub class_complexity: String,
    pub class_branch_rate: String,
    pub branches_valid: u64,
    pub branches_covered: u64,
    pub lines: Vec<CoverageLine>,
    pub lines_valid: u64,
    pub lines_covered: u64,
}

/// Whether `f` is what the filtering state `m` ends with.
pub open spec fn finished(m: FilterModel, f: FilteredCoverage) -> bool {
    &&& f.source@ == m.source
    &&& f.timestamp@ == m.timestamp
    &&& f.version@ == m.version
    &&& f.complexity@ == m.complexity
    &&& f.class_name@ == m.class.name
    &&& f.class_filename@ == m.class.filename
    &&& f.class_complexity@ == m.class.complexity
    &&& f.class_branch_rate@ == m.class.branch_rate
    &&& f.branches_valid == m.class.branches_valid
    &&& f.branches_covered == m.class.branches_covered
    &&& line_views(f.lines@) == m.lines
    &&& f.lines_valid == m.lines.len()
    &&& f.lines_covered == count_covered(m.lines)
}

impl FilterState {
    /// What the filtering kept, once all events are taken into account.
    pub fn finish(self) -> (r: FilteredCoverage)
        ensures
            finished(self@, r),
    {
        let ghost lv = line_views(self.lines@);
        let n = self.lines.len();
        let mut covered: u64 = 0;
        for i in 0..n
            invariant
                n == self.lines@.len(),
                lv == line_views(self.lines@),
                covered == count_covered(lv.take(i as int)),
                covered <= i,
        {
            assert(lv.take(i + 1).drop_last() =~= lv.take(i as int));
            assert(lv.take(i + 1).last() == self.lines@[i as int]@);
            if self.lines[i].hits > 0 {
                covered = covered + 1;
            }
        }
        assert(lv.take(n as int) =~= lv);
        FilteredCoverage {
            source: self.source,
            timestamp: self.timestamp,
            version: self.version,
            complexity: self.complexity,
            class_name: self.class_name,
            class_filename: self.class_filename,
            class_complexity: self.class_complexity,
            class_branch_rate: self.class_branch_rate,
            branches_valid: self.class_branches_valid,
            branches_covered: self.class_branches_covered,
            lines: self.lines,
            lines_valid: n as u64,
            lines_covered: covered,
        }
    }
}

/// The attributes of the `k`-th event of `xml` read from the `j`-th on,
/// after those in `acc`: all of them in order, or `None` when reading one
/// or its value fails.
pub open spec fn attrs_from(xml: Seq<char>, k: nat, j: nat, acc: Seq<AttrView>) -> Option<Seq<AttrView>>
    decreases xml.len() - j,
{
    match xml_attribute(xml, k, j) {
        None => None,
        Some(None) => Some(acc),
        Some(Some(key)) => if j >= xml.len() {
            Some(acc)
        } else {
            match xml_attribute_value(xml, k, j) {
                None => None,
                Some(v) => attrs_from(xml, k, j + 1, acc.push((key, v))),
            }
        },
    }
}

/// The attributes of the `k`-th event of `xml`, a tag: `None` when reading
/// one of them fails.
pub open spec fn element_attrs(xml: Seq<char>, k: nat) -> Option<Seq<AttrView>> {
    attrs_from(xml, k, 0, Seq::empty())
}

/// Reads the attributes of a tag, stopping at the first malformed one.
fn read_attrs(e: &XmlTag, n: usize) -> (r: Result<Vec<Attr>, CoverageError>)
    requires
        n == e@.0.len(),
    ensures
        match element_attrs(e@.0, e@.1) {
            Some(a) => r matches Ok(v) && attr_views(v@) == a,
            None => r is Err,
        },
{
    let ghost xml = e@.0;
    let ghost k = e@.1;
    let mut it = attributes(e);
    let mut out: Vec<Attr> = Vec::new();
    assert(attr_views(out@) =~= Seq::<AttrView>::empty());
    loop
        invariant
            xml == e@.0,
            k == e@.1,
            n == xml.len(),
            it@.0 == xml,
            it@.1 == k,
            it@.2 <= n,
            element_attrs(xml, k) == attrs_from(xml, k, it@.2, attr_views(out@)),
            forall|i: nat| i < it@.2 ==> #[trigger] xml_attribute(xml, k, i) matches Some(Some(_)),
        decreases n - it@.2,
    {
        let ghost j = it@.2;
        let ghost before = attr_views(out@);
        match next_attribute(&mut it) {
            None => {
                assert(attrs_from(xml, k, j, before) == Some(before));
                return Ok(out);
            },
            Some(Err(err)) => {
                assert(attrs_from(xml, k, j, before) is None);
                return Err(CoverageError::Attr(err));
            },
            Some(Ok((key, a))) => {
                match attribute_value(&a) {
                    Ok(value) => {
                        let ghost kv = key@;
                        out.push(Attr { key, value });
                        proof {
                            assert(attr_views(out@) =~= before.push((kv, value@)));
                            assert forall|i: nat| i < j + 1 implies #[trigger] xml_attribute(
                                xml,
                                k,
                                i,
                            ) matches Some(Some(_)) by {
                                if i == j {
                                    assert(xml_attribute(xml, k, j) == Some(Some(kv)));
                                }
                            }
                        }
                    },
                    Err(err) => {
                        assert(attrs_from(xml, k, j, before) is None);
                        return Err(CoverageError::Xml(err));
                    },
                }
            },
        }
    }
}

/// Whether filtering in state `s` reads the attributes of a tag named
/// `name` (a start tag when `start`, an empty tag otherwise).
pub open spec fn wants_attrs(s: FilterModel, start: bool, name: Seq<u8>) -> bool {
    if start {
        name == ascii_bytes("coverage"@) || name == ascii_bytes("class"@)
    } else {
        s.in_target_class && s.in_class_lines && name == ascii_bytes("line"@)
    }
}

/// The item that filtering in state `s` takes from the `k`-th event of
/// `xml`, which is `h`: `None` when reading what it needs of the event
/// fails, `Some(None)` for an event it passes over. Attributes and text it
/// does not need are left empty, unread.
pub open spec fn item_of(xml: Seq<char>, k: nat, s: FilterModel, h: XmlHead) -> Option<Option<XmlItemView>> {
    match h {
        XmlHead::Start(n) => if wants_attrs(s, true, n) {
            match element_attrs(xml, k) {
                Some(a) => Some(Some(XmlItemView::Start { name: n, attrs: a })),
                None => None,
            }
        } else {
            Some(Some(XmlItemView::Start { name: n, attrs: Seq::empty() }))
        },
        XmlHead::Empty(n) => if wants_attrs(s, false, n) {
            match element_attrs(xml, k) {
                Some(a) => Some(Some(XmlItemView::Empty { name: n, attrs: a })),
                None => None,
            }
        } else {
            Some(Some(XmlItemView::Empty { name: n, attrs: Seq::empty() }))
        },
        XmlHead::End(n) => Some(Some(XmlItemView::End { name: n })),
        XmlHead::Text => if s.in_source {
            match xml_text(xml, k) {
                Some(t) => Some(Some(XmlItemView::Text(t))),
                None => None,
            }
        } else {
            Some(Some(XmlItemView::Text(Seq::empty())))
        },
        _ => Some(None),
    }
}

/// The state filtering ends in when it goes on in state `s` from the
/// `k`-th event of `xml`: `None` when reading fails before the end.
pub open spec fn filter_from(xml: Seq<char>, s: FilterModel, k: nat) -> Option<FilterModel>
    decreases xml.len() - k,
{
    match xml_event(xml, k) {
        None => None,
        Some(XmlHead::Eof) => Some(s),
        Some(h) => if k >= xml.len() {
            Some(s)
        } else {
            match item_of(xml, k, s, h) {
                None => None,
                Some(None) => filter_from(xml, s, k + 1),
                Some(Some(it)) => filter_from(xml, filter_step(s, it), k + 1),
            }
        },
    }
}

/// The state filtering `xml` for the class whose file name ends with
/// `suffix` ends in: `None` when reading the report fails.
pub open spec fn filter_outcome(xml: Seq<char>, suffix: Seq<char>) -> Option<FilterModel> {
    filter_from(xml, filter_init(suffix), 0)
}

/// Reads a Cobertura coverage report and keeps the class whose file name
/// ends with `target_suffix` (or with `analysis.rs`), with its lines. It
/// fails exactly when the XML reader fails, or reading attributes or a
/// text that filtering needs fails, before the end of the report.
pub fn filter_coverage(xml: &str, target_suffix: &str) -> (r: Result<FilteredCoverage, CoverageError>)
    ensures
        match filter_outcome(xml@, target_suffix@) {
            Some(m) => r matches Ok(f) && finished(m, f),
            None => r is Err,
        },
{
    let mut state = FilterState::new(target_suffix);
    let mut reader = open_xml(xml);
    let n = chars_of(xml).len();
    loop
        invariant
            n == xml@.len(),
            reader@.0 == xml@,
            reader@.1 <= n,
            events_go_on(xml@, reader@.1),
            filter_outcome(xml@, target_suffix@) == filter_from(xml@, state@, reader@.1),
        decreases n - reader@.1,
    {
        let ghost k = reader@.1;
        let ghost s0 = state@;
        let ev = read_event(&mut reader);
        let item = match ev {
            Err(err) => {
                return Err(CoverageError::Xml(err));
            },
            Ok(XmlEvent::Eof) => {
                return Ok(state.finish());
            },
            Ok(XmlEvent::Other) => None,
            Ok(XmlEvent::Start(name, tag)) => {
                let attrs = if state.wants_attributes(true, &name) {
                    match read_attrs(&tag, n) {
                        Ok(a) => a,
                        Err(err) => {
                            return Err(err);
                        },
                    }
                } else {
                    Vec::new()
                };
                Some(XmlItem::Start { name, attrs })
            },
            Ok(XmlEvent::Empty(name, tag)) => {
                let attrs = if state.wants_attributes(false, &name) {
                    match read_attrs(&tag, n) {
                        Ok(a) => a,
                        Err(err) => {
                            return Err(err);
                        },
                    }
                } else {
                    Vec::new()
                };
                Some(XmlItem::Empty { name, attrs })
            },
            Ok(XmlEvent::End(name)) => Some(XmlItem::End { name }),
            Ok(XmlEvent::Text(t)) => {
                if state.wants_text() {
                    match text_value(&t) {
                        Ok(v) => Some(XmlItem::Text(v)),
                        Err(err) => {
                            return Err(CoverageError::Xml(err));
                        },
                    }
                } else {
                    Some(XmlItem::Text(String::new()))
                }
            },
        };
        if let Some(it) = item {
            state.step(&it);
        }
        proof {
            assert forall|i: nat| i < k + 1 implies goes_on(#[trigger] xml_event(xml@, i)) by {
                if i == k {
                    assert(goes_on(xml_event(xml@, k)));
                }
            }
        }
    }
}

/// The XML line of one covered line.
pub open spec fn line_xml(l: (u64, u64, Seq<char>)) -> Seq<char> {
    "            <line number=\""@ + nat_dec(l.0 as nat) + "\" hits=\""@ + nat_dec(l.1 as nat)
        + "\" branch=\""@ + esc_spec(l.2) + "\" />\n"@
}

/// The XML lines of all covered lines, in order.
pub open spec fn lines_xml(ls: Seq<(u64, u64, Seq<char>)>) -> Seq<char>
    decreases ls.len(),
{
    if ls.len() == 0 {
        Seq::empty()
    } else {
        lines_xml(ls.drop_last()) + line_xml(ls.last())
    }
}

/// The report that holds only the kept class, with the rates written as
/// `line_rate` and `branch_rate`.
pub open spec fn render_spec(f: FilteredCoverage, line_rate: Seq<char>, branch_rate: Seq<char>) -> Seq<char> {
    "<?xml version=\"1.0\" encoding=\"utf-8\"?>\n<coverage line-rate=\""@ + line_rate
        + "\" branch-rate=\""@ + branch_rate + "\" lines-covered=\""@ + nat_dec(
        f.lines_covered as nat,
    ) + "\" lines-valid=\""@ + nat_dec(f.lines_valid as nat) + "\" branches-covered=\""@
        + nat_dec(f.branches_covered as nat) + "\" branches-valid=\""@ + nat_dec(
        f.branches_valid as nat,
    ) + "\" complexity=\""@ + esc_spec(f.complexity@) + "\" timestamp=\""@ + esc_spec(
        f.timestamp@,
    ) + "\" version=\""@ + esc_spec(f.version@) + "\">\n  <sources>\n    <source>"@ + esc_spec(
        f.source@,
    ) + "</source>\n  </sources>\n  <packages>\n    <package name=\"crates.envs.ce-security.src\" line-rate=\""@
        + line_rate + "\" branch-rate=\""@ + branch_rate + "\" complexity=\""@ + esc_spec(
        f.class_complexity@,
    ) + "\">\n      <classes>\n        <class name=\""@ + esc_spec(f.class_name@)
        + "\" filename=\""@ + esc_spec(replace_char(f.class_filename@, '/', '\\'))
        + "\" line-rate=\""@ + line_rate + "\" branch-rate=\""@ + branch_rate
        + "\" complexity=\""@ + esc_spec(f.class_complexity@)
        + "\">\n          <methods />\n          <lines>\n"@ + lines_xml(line_views(f.lines@))
        + "          </lines>\n        </class>\n      </classes>\n    </package>\n  </packages>\n</coverage>\n"@
}

fn push_str(out: &mut Vec<char>, s: &str)
    ensures
        final(out)@ == old(out)@ + s@,
{
    push_all(out, chars_of(s).as_slice());
}

fn push_esc(out: &mut Vec<char>, s: &str)
    ensures
        final(out)@ == old(out)@ + esc_spec(s@),
{
    let e = esc(s);
    push_all(out, chars_of(e.as_str()).as_slice());
}

/// Writes the report that holds only the kept class; `line_rate` and
/// `branch_rate` are the rates as they are to be written.
pub fn render_filtered(f: &FilteredCoverage, line_rate: &str, branch_rate: &str) -> (r: String)
    ensures
        r@ == render_spec(*f, line_rate@, branch_rate@),
{
    let mut out: Vec<char> = Vec::new();
    push_str(&mut out, "<?xml version=\"1.0\" encoding=\"utf-8\"?>\n<coverage line-rate=\"");
    push_str(&mut out, line_rate);
    push_str(&mut out, "\" branch-rate=\"");
    push_str(&mut out, branch_rate);
    push_str(&mut out, "\" lines-covered=\"");
    push_nat_dec(&mut out, f.lines_covered);
    push_str(&mut out, "\" lines-valid=\"");
    push_nat_dec(&mut out, f.lines_valid);
    push_str(&mut out, "\" branches-covered=\"");
    push_nat_dec(&mut out, f.branches_covered);
    push_str(&mut out, "\" branches-valid=\"");
    push_nat_dec(&mut out, f.branches_valid);
    push_str(&mut out, "\" complexity=\"");
    push_esc(&mut out, f.complexity.as_str());
    push_str(&mut out, "\" timestamp=\"");
    push_esc(&mut out, f.timestamp.as_str());
    push_str(&mut out, "\" version=\"");
    push_esc(&mut out, f.version.as_str());
    push_str(&mut out, "\">\n  <sources>\n    <source>");
    push_esc(&mut out, f.source.as_str());
    push_str(
        &mut out,
        "</source>\n  </sources>\n  <packages>\n    <package name=\"crates.envs.ce-security.src\" line-rate=\"",
    );
    push_str(&mut out, line_rate);
    push_str(&mut out, "\" branch-rate=\"");
    push_str(&mut out, branch_rate);
    push_str(&mut out, "\" complexity=\"");
    push_esc(&mut out, f.class_complexity.as_str());
    push_str(&mut out, "\">\n      <classes>\n        <class name=\"");
    push_esc(&mut out, f.class_name.as_str());
    push_str(&mut out, "\" filename=\"");
    let fixed = replace_chars(chars_of(f.class_filename.as_str()).as_slice(), '/', '\\');
    push_esc(&mut out, string_of(fixed.as_slice()).as_str());
    push_str(&mut out, "\" line-rate=\"");
    push_str(&mut out, line_rate);
    push_str(&mut out, "\" branch-rate=\"");
    push_str(&mut out, branch_rate);
    push_str(&mut out, "\" complexity=\"");
    push_esc(&mut out, f.class_complexity.as_str());
    push_str(&mut out, "\">\n          <methods />\n          <lines>\n");
    let ghost head = out@;
    let ghost lv = line_views(f.lines@);
    let n = f.lines.len();
    for i in 0..n
        invariant
            n == f.lines@.len(),
            lv == line_views(f.lines@),
            out@ == head + lines_xml(lv.take(i as int)),
    {
        assert(lv.take(i + 1).drop_last() =~= lv.take(i as int));
        assert(lv.take(i + 1).last() == f.lines@[i as int]@);
        let ghost before = out@;
        let l = &f.lines[i];
        push_str(&mut out, "            <line number=\"");
        push_nat_dec(&mut out, l.number);
        push_str(&mut out, "\" hits=\"");
        push_nat_dec(&mut out, l.hits);
        push_str(&mut out, "\" branch=\"");
        push_esc(&mut out, l.branch.as_str());
        push_str(&mut out, "\" />\n");
        assert(out@ =~= before + line_xml(l@));
    }
    assert(lv.take(n as int) =~= lv);
    push_str(
        &mut out,
        "          </lines>\n        </class>\n      </classes>\n    </package>\n  </packages>\n</coverage>\n",
    );
    assert(out@ =~= render_spec(*f, line_rate@, branch_rate@));
    string_of(out.as_slice())
}


/// The totals of a coverage report. The rates are kept as written.
pub struct CoverageCounts {
    pub line_rate: String,
    pub branch_rate: String,
    pub lines_valid: u64,
    pub lines_covered: u64,
    pub branches_valid: u64,
    pub branches_covered: u64,
}

/// The totals as plain values: the two rate texts and the four counts.
pub type CountsView = (Seq<char>, Seq<char>, u64, u64, u64, u64);

impl View for CoverageCounts {
    type V = CountsView;

    open spec fn view(&self) -> CountsView {
        (
            self.line_rate@,
            self.branch_rate@,
            self.lines_valid,
            self.lines_covered,
            self.branches_valid,
            self.branches_covered,
        )
    }
}

/// The totals after reading the attributes of a `coverage` element in
/// order: no rates and zero counts to begin with; counts that are not
/// numbers read as 0.
pub open spec fn counts_attrs(attrs: Seq<AttrView>) -> CountsView
    decreases attrs.len(),
{
    if attrs.len() == 0 {
        (Seq::empty(), Seq::empty(), 0, 0, 0, 0)
    } else {
        let c = counts_attrs(attrs.drop_last());
        let a = attrs.last();
        if a.0 == ascii_bytes("line-rate"@) {
            (a.1, c.1, c.2, c.3, c.4, c.5)
        } else if a.0 == ascii_bytes("branch-rate"@) {
            (c.0, a.1, c.2, c.3, c.4, c.5)
        } else if a.0 == ascii_bytes("lines-valid"@) {
            (c.0, c.1, u64_or_zero(a.1), c.3, c.4, c.5)
        } else if a.0 == ascii_bytes("lines-covered"@) {
            (c.0, c.1, c.2, u64_or_zero(a.1), c.4, c.5)
        } else if a.0 == ascii_bytes("branches-valid"@) {
            (c.0, c.1, c.2, c.3, u64_or_zero(a.1), c.5)
        } else if a.0 == ascii_bytes("branches-covered"@) {
            (c.0, c.1, c.2, c.3, c.4, u64_or_zero(a.1))
        } else {
            c
        }
    }
}

/// The totals the attributes of a `coverage` element give.
pub fn counts_from_attrs(attrs: &Vec<Attr>) -> (r: CoverageCounts)
    ensures
        r@ == counts_attrs(attr_views(attrs@)),
{
    let ghost av = attr_views(attrs@);
    let mut r = CoverageCounts {
        line_rate: String::new(),
        branch_rate: String::new(),
        lines_valid: 0,
        lines_covered: 0,
        branches_valid: 0,
        branches_covered: 0,
    };
    let n = attrs.len();
    for i in 0..n
        invariant
            n == attrs@.len(),
            av == attr_views(attrs@),
            r@ == counts_attrs(av.take(i as int)),
    {
        assert(av.take(i + 1).drop_last() =~= av.take(i as int));
        assert(av.take(i + 1).last() == attrs@[i as int]@);
        let a = &attrs[i];
        if bytes_are(a.key.as_slice(), "line-rate") {
            r.line_rate = a.value.clone();
        } else if bytes_are(a.key.as_slice(), "branch-rate") {
            r.branch_rate = a.value.clone();
        } else if bytes_are(a.key.as_slice(), "lines-valid") {
            r.lines_valid = value_u64(&a.value);
        } else if bytes_are(a.key.as_slice(), "lines-covered") {
            r.lines_covered = value_u64(&a.value);
        } else if bytes_are(a.key.as_slice(), "branches-valid") {
            r.branches_valid = value_u64(&a.value);
        } else if bytes_are(a.key.as_slice(), "branches-covered") {
            r.branches_covered = value_u64(&a.value);
        }
    }
    assert(av.take(n as int) =~= av);
    r
}

/// The totals of the coverage report `xml` read from the `k`-th event on:
/// those of the first `coverage` start or empty tag, all zero when there is
/// none, `None` when reading fails before.
pub open spec fn counts_from(xml: Seq<char>, k: nat) -> Option<CountsView>
    decreases xml.len() - k,
{
    match xml_event(xml, k) {
        None => None,
        Some(XmlHead::Eof) => Some(counts_attrs(Seq::empty())),
        Some(h) => if (h matches XmlHead::Start(n) && n == ascii_bytes("coverage"@)) || (
        h matches XmlHead::Empty(n) && n == ascii_bytes("coverage"@)) {
            match element_attrs(xml, k) {
                Some(a) => Some(counts_attrs(a)),
                None => None,
            }
        } else if k >= xml.len() {
            Some(counts_attrs(Seq::empty()))
        } else {
            counts_from(xml, k + 1)
        },
    }
}

/// Reads the totals of a Cobertura coverage report from the attributes of
/// its first `coverage` element (all zero when there is none). It fails
/// exactly when the XML reader fails before that element, or reading one
/// of its attributes fails.
pub fn coverage_counts(xml: &str) -> (r: Result<CoverageCounts, CoverageError>)
    ensures
        match counts_from(xml@, 0) {
            Some(c) => r matches Ok(v) && v@ == c,
            None => r is Err,
        },
{
    let mut reader = open_xml(xml);
    let n = chars_of(xml).len();
    loop
        invariant
            n == xml@.len(),
            reader@.0 == xml@,
            reader@.1 <= n,
            events_go_on(xml@, reader@.1),
            counts_from(xml@, 0) == counts_from(xml@, reader@.1),
        decreases n - reader@.1,
    {
        let ghost k = reader@.1;
        let ev = read_event(&mut reader);
        let tag = match ev {
            Err(err) => {
                return Err(CoverageError::Xml(err));
            },
            Ok(XmlEvent::Eof) => {
                let r = counts_from_attrs(&Vec::new());
                assert(attr_views(Seq::<Attr>::empty()) =~= Seq::<AttrView>::empty());
                return Ok(r);
            },
            Ok(XmlEvent::Start(name, t)) => Some((name, t)),
            Ok(XmlEvent::Empty(name, t)) => Some((name, t)),
            Ok(_) => None,
        };
        if let Some((name, t)) = tag {
            if bytes_are(name.as_slice(), "coverage") {
                return match read_attrs(&t, n) {
                    Ok(attrs) => Ok(counts_from_attrs(&attrs)),
                    Err(err) => Err(err),
                };
            }
        }
        proof {
            assert forall|i: nat| i < k + 1 implies goes_on(#[trigger] xml_event(xml@, i)) by {
                if i == k {
                    assert(goes_on(xml_event(xml@, k)));
                }
            }
        }
    }
}

} // verus!
