use vstd::prelude::*;

verus! {

/// Unicode `White_Space`: the characters that `char::is_whitespace` accepts.
pub open spec fn is_ws(c: char) -> bool {
    let u = c as u32;
    ||| 0x09 <= u <= 0x0d
    ||| u == 0x20
    ||| u == 0x85
    ||| u == 0xa0
    ||| u == 0x1680
    ||| 0x2000 <= u <= 0x200a
    ||| u == 0x2028
    ||| u == 0x2029
    ||| u == 0x202f
    ||| u == 0x205f
    ||| u == 0x3000
}

/// Whether `c` is a whitespace character.
pub fn is_whitespace(c: char) -> (r: bool)
    ensures
        r == is_ws(c),
{
    let u = c as u32;
    (0x09 <= u && u <= 0x0d) || u == 0x20 || u == 0x85 || u == 0xa0 || u == 0x1680 || (0x2000 <= u
        && u <= 0x200a) || u == 0x2028 || u == 0x2029 || u == 0x202f || u == 0x205f || u == 0x3000
}


/// The characters of `s`, in order.
pub fn chars_of(s: &str) -> (r: Vec<char>)
    ensures
        r@ == s@,
{
    broadcast use vstd::string::group_string_axioms;
    let mut r: Vec<char> = Vec::new();
    for c in it: s.chars()
        invariant
            r@ == it.seq().take(it.index() as int),
    {
        r.push(c);
    }
    r
}


/// Builds a `String` with `String::from_iter` over the characters of `v`,
/// which std documents as keeping each character in order.
#[verifier::external_body]
pub(crate) fn string_of(v: &[char]) -> (r: String)
    ensures
        r@ == v@,
{
    String::from_iter(v.iter())
}

/// Appends the characters of `src` to `dst`.
pub fn push_all(dst: &mut Vec<char>, src: &[char])
    ensures
        final(dst)@ == old(dst)@ + src@,
{
    let n = src.len();
    for i in 0..n
        invariant
            n == src@.len(),
            dst@ == old(dst)@ + src@.take(i as int),
    {
        dst.push(src[i]);
        assert(src@.take(i as int).push(src@[i as int]) =~= src@.take(i + 1));
    }
    assert(src@.take(n as int) =~= src@);
}

/// `s` without its leading whitespace.
pub open spec fn trim_start(s: Seq<char>) -> Seq<char>
    decreases s.len(),
{
    if s.len() > 0 && is_ws(s[0]) {
        trim_start(s.drop_first())
    } else {
        s
    }
}

/// `s` without its trailing whitespace.
pub open spec fn trim_end(s: Seq<char>) -> Seq<char>
    decreases s.len(),
{
    if s.len() > 0 && is_ws(s.last()) {
        trim_end(s.drop_last())
    } else {
        s
    }
}

/// `s` without leading and trailing whitespace (`str::trim`).
pub open spec fn trim(s: Seq<char>) -> Seq<char> {
    trim_end(trim_start(s))
}

proof fn lemma_trim_start_skip(s: Seq<char>, lo: int)
    requires
        0 <= lo <= s.len(),
        forall|i: int| 0 <= i < lo ==> is_ws(#[trigger] s[i]),
        lo == s.len() || !is_ws(s[lo]),
    ensures
        trim_start(s) == s.skip(lo),
    decreases lo,
{
    if lo == 0 {
        assert(s.skip(0) =~= s);
    } else {
        assert(is_ws(s[0]));
        let t = s.drop_first();
        assert forall|i: int| 0 <= i < lo - 1 implies is_ws(#[trigger] t[i]) by {
            assert(t[i] == s[i + 1]);
        }
        lemma_trim_start_skip(t, lo - 1);
        assert(t.skip(lo - 1) =~= s.skip(lo));
    }
}

proof fn lemma_trim_end_take(s: Seq<char>, hi: int)
    requires
        0 <= hi <= s.len(),
        forall|i: int| hi <= i < s.len() ==> is_ws(#[trigger] s[i]),
        hi == 0 || !is_ws(s[hi - 1]),
    ensures
        trim_end(s) == s.take(hi),
    decreases s.len() - hi,
{
    if hi == s.len() {
        assert(s.take(hi) =~= s);
    } else {
        assert(is_ws(s.last()));
        let t = s.drop_last();
        lemma_trim_end_take(t, hi);
        assert(t.take(hi) =~= s.take(hi));
    }
}

/// `s` with leading and trailing whitespace removed.
pub fn trim_chars(s: &[char]) -> (r: Vec<char>)
    ensures
        r@ == trim(s@),
{
    let n = s.len();
    let mut lo: usize = 0;
    while lo < n && is_whitespace(s[lo])
        invariant
            n == s@.len(),
            lo <= n,
            forall|i: int| 0 <= i < lo ==> is_ws(#[trigger] s@[i]),
        decreases n - lo,
    {
        lo = lo + 1;
    }
    let mut hi: usize = n;
    while hi > lo && is_whitespace(s[hi - 1])
        invariant
            n == s@.len(),
            lo <= hi <= n,
            forall|i: int| hi <= i < n ==> is_ws(#[trigger] s@[i]),
        decreases hi,
    {
        hi = hi - 1;
    }
    let mut r: Vec<char> = Vec::new();
    let mut k: usize = lo;
    while k < hi
        invariant
            n == s@.len(),
            lo <= k <= hi <= n,
            r@ == s@.subrange(lo as int, k as int),
        decreases hi - k,
    {
        r.push(s[k]);
        assert(s@.subrange(lo as int, k as int).push(s@[k as int]) =~= s@.subrange(
            lo as int,
            k + 1,
        ));
        k = k + 1;
    }
    proof {
        lemma_trim_start_skip(s@, lo as int);
        let t = s@.skip(lo as int);
        if hi == lo && lo < n {
            assert(!is_ws(s@[lo as int]));
            assert(false);
        }
        assert forall|i: int| hi - lo <= i < t.len() implies is_ws(#[trigger] t[i]) by {
            assert(t[i] == s@[i + lo]);
        }
        if hi > lo {
            assert(t[hi - lo - 1] == s@[hi - 1]);
        }
        lemma_trim_end_take(t, hi - lo);
        assert(t.take(hi - lo) =~= s@.subrange(lo as int, hi as int));
    }
    r
}

/// One step of splitting on whitespace: the words finished so far and the
/// word being read, after reading `c`.
pub open spec fn split_step(st: (Seq<Seq<char>>, Seq<char>), c: char) -> (
    Seq<Seq<char>>,
    Seq<char>,
) {
    if is_ws(c) {
        if st.1.len() > 0 {
            (st.0.push(st.1), Seq::empty())
        } else {
            st
        }
    } else {
        (st.0, st.1.push(c))
    }
}

/// The state of splitting `s` on whitespace after reading all of it.
pub open spec fn split_state(s: Seq<char>) -> (Seq<Seq<char>>, Seq<char>)
    decreases s.len(),
{
    if s.len() == 0 {
        (Seq::empty(), Seq::empty())
    } else {
        split_step(split_state(s.drop_last()), s.last())
    }
}

/// The maximal runs of non-whitespace characters of `s`, in order
/// (`str::split_whitespace`).
pub open spec fn words(s: Seq<char>) -> Seq<Seq<char>> {
    let st = split_state(s);
    if st.1.len() > 0 {
        st.0.push(st.1)
    } else {
        st.0
    }
}

/// The character sequences held by a sequence of vectors.
pub open spec fn views(v: Seq<Vec<char>>) -> Seq<Seq<char>> {
    v.map_values(|w: Vec<char>| w@)
}

/// The whitespace-separated words of `s`.
pub fn split_words(s: &[char]) -> (r: Vec<Vec<char>>)
    ensures
        views(r@) == words(s@),
{
    let n = s.len();
    let mut done: Vec<Vec<char>> = Vec::new();
    let mut cur: Vec<char> = Vec::new();
    for i in 0..n
        invariant
            n == s@.len(),
            views(done@) == split_state(s@.take(i as int)).0,
            cur@ == split_state(s@.take(i as int)).1,
    {
        assert(s@.take(i + 1).drop_last() =~= s@.take(i as int));
        let c = s[i];
        if is_whitespace(c) {
            if cur.len() > 0 {
                let w = cur;
                cur = Vec::new();
                done.push(w);
                assert(views(done@) =~= split_state(s@.take(i as int)).0.push(w@));
            }
        } else {
            cur.push(c);
        }
    }
    assert(s@.take(n as int) =~= s@);
    if cur.len() > 0 {
        done.push(cur);
        assert(views(done@) =~= words(s@));
    }
    done
}

/// The words `ws` joined with `sep` between each two neighbours.
pub open spec fn join(ws: Seq<Seq<char>>, sep: Seq<char>) -> Seq<char>
    decreases ws.len(),
{
    if ws.len() == 0 {
        Seq::empty()
    } else if ws.len() == 1 {
        ws[0]
    } else {
        join(ws.drop_last(), sep) + sep + ws.last()
    }
}

/// The words `ws` joined with `sep`.
pub fn join_chars(ws: &Vec<Vec<char>>, sep: &[char]) -> (r: Vec<char>)
    ensures
        r@ == join(views(ws@), sep@),
{
    let n = ws.len();
    let mut r: Vec<char> = Vec::new();
    for i in 0..n
        invariant
            n == ws@.len(),
            r@ == join(views(ws@).take(i as int), sep@),
    {
        let ghost before = views(ws@).take(i as int);
        assert(views(ws@).take(i + 1).drop_last() =~= before);
        if i > 0 {
            push_all(&mut r, sep);
        }
        push_all(&mut r, ws[i].as_slice());
        proof {
            let after = views(ws@).take(i + 1);
            assert(after.last() == ws@[i as int]@);
            if i == 0 {
                assert(before.len() == 0);
                assert(r@ =~= after[0]);
            }
        }
    }
    assert(views(ws@).take(n as int) =~= views(ws@));
    r
}


/// The ASCII digit for `d`, for `0 <= d < 10`.
pub open spec fn digit_char(d: int) -> char {
    if d == 0 {
        '0'
    } else if d == 1 {
        '1'
    } else if d == 2 {
        '2'
    } else if d == 3 {
        '3'
    } else if d == 4 {
        '4'
    } else if d == 5 {
        '5'
    } else if d == 6 {
        '6'
    } else if d == 7 {
        '7'
    } else if d == 8 {
        '8'
    } else {
        '9'
    }
}

/// The decimal digits of `n`, most significant first, without leading zeros.
pub open spec fn nat_dec(n: nat) -> Seq<char>
    decreases n,
{
    if n < 10 {
        seq![digit_char(n as int)]
    } else {
        nat_dec(n / 10).push(digit_char((n % 10) as int))
    }
}

/// The decimal text of `n` as `Display` writes it.
pub open spec fn int_dec(n: int) -> Seq<char> {
    if n < 0 {
        seq!['-'] + nat_dec((-n) as nat)
    } else {
        nat_dec(n as nat)
    }
}

fn digit(d: u64) -> (c: char)
    requires
        d < 10,
    ensures
        c == digit_char(d as int),
{
    if d == 0 {
        '0'
    } else if d == 1 {
        '1'
    } else if d == 2 {
        '2'
    } else if d == 3 {
        '3'
    } else if d == 4 {
        '4'
    } else if d == 5 {
        '5'
    } else if d == 6 {
        '6'
    } else if d == 7 {
        '7'
    } else if d == 8 {
        '8'
    } else {
        '9'
    }
}

/// Appends the decimal digits of `n` to `out`.
pub fn push_nat_dec(out: &mut Vec<char>, n: u64)
    ensures
        final(out)@ == old(out)@ + nat_dec(n as nat),
    decreases n,
{
    if n >= 10 {
        push_nat_dec(out, n / 10);
    }
    out.push(digit(n % 10));
    assert(final(out)@ =~= old(out)@ + nat_dec(n as nat));
}

/// Appends the decimal text of `n` to `out`.
pub fn push_int_dec(out: &mut Vec<char>, n: i64)
    requires
        n > i64::MIN,
    ensures
        final(out)@ == old(out)@ + int_dec(n as int),
{
    if n < 0 {
        out.push('-');
        let m: i64 = -n;
        push_nat_dec(out, m as u64);
        assert(final(out)@ =~= old(out)@ + int_dec(n as int));
    } else {
        push_nat_dec(out, n as u64);
    }
}

/// Whether `c` is an ASCII decimal digit.
pub open spec fn is_digit(c: char) -> bool {
    '0' <= c <= '9'
}

/// The value of the ASCII digit `c`.
pub open spec fn digit_value(c: char) -> int {
    c as int - '0' as int
}

/// The value of a run of ASCII digits.
pub open spec fn dec_value(ds: Seq<char>) -> nat
    decreases ds.len(),
{
    if ds.len() == 0 {
        0
    } else {
        (dec_value(ds.drop_last()) * 10 + digit_value(ds.last())) as nat
    }
}

/// Whether `s` has a leading sign character.
pub open spec fn has_sign(s: Seq<char>) -> bool {
    s.len() > 0 && (s[0] == '-' || s[0] == '+')
}

/// `s` without its leading sign character, if any.
pub open spec fn unsigned_part(s: Seq<char>) -> Seq<char> {
    if has_sign(s) {
        s.drop_first()
    } else {
        s
    }
}

/// Whether every character of `ds` is an ASCII digit.
pub open spec fn all_digits(ds: Seq<char>) -> bool {
    forall|i: int| 0 <= i < ds.len() ==> is_digit(#[trigger] ds[i])
}

/// What `str::parse::<i8>` returns for `s`: an optional `+` or `-`, then
/// one or more ASCII digits whose value fits in an `i8`; anything else
/// is an error.
pub open spec fn parse_i8(s: Seq<char>) -> Option<i8> {
    let ds = unsigned_part(s);
    if ds.len() == 0 || !all_digits(ds) {
        None
    } else {
        let v: int = if s[0] == '-' {
            -dec_value(ds)
        } else {
            dec_value(ds) as int
        };
        if -128 <= v <= 127 {
            Some(v as i8)
        } else {
            None
        }
    }
}

proof fn lemma_dec_value_step(ds: Seq<char>, k: int)
    requires
        0 <= k < ds.len(),
        is_digit(ds[k]),
    ensures
        dec_value(ds.take(k + 1)) == dec_value(ds.take(k)) * 10 + digit_value(ds[k]),
{
    assert(ds.take(k + 1).drop_last() =~= ds.take(k));
}

/// Parses `s` as `str::parse::<i8>` does.
pub fn parse_i8_chars(s: &[char]) -> (r: Option<i8>)
    ensures
        r == parse_i8(s@),
{
    let n = s.len();
    let neg = n > 0 && s[0] == '-';
    let signed = n > 0 && (s[0] == '-' || s[0] == '+');
    let start: usize = if signed {
        1
    } else {
        0
    };
    let ghost ds = if signed {
        s@.drop_first()
    } else {
        s@
    };
    assert(ds =~= s@.skip(start as int));
    if start == n {
        return None;
    }
    // `acc` is the value read so far, held at 200 once it passes 128
    let mut acc: u32 = 0;
    let mut i: usize = start;
    while i < n
        invariant
            n == s@.len(),
            start <= i <= n,
            ds == s@.skip(start as int),
            signed == has_sign(s@),
            neg == (s@.len() > 0 && s@[0] == '-'),
            ds == unsigned_part(s@),
            forall|j: int| 0 <= j < i - start ==> is_digit(#[trigger] ds[j]),
            acc == if dec_value(ds.take(i - start)) <= 128 {
                dec_value(ds.take(i - start))
            } else {
                200
            },
        decreases n - i,
    {
        let c = s[i];
        if !('0' <= c && c <= '9') {
            assert(ds[i - start] == s@[i as int]);
            assert(!is_digit(ds[i - start]));
            return None;
        }
        let d = (c as u32) - ('0' as u32);
        proof {
            assert(ds[i - start] == s@[i as int]);
            assert(is_digit(ds[i - start]));
            lemma_dec_value_step(ds, i - start);
        }
        if acc > 128 {
            acc = 200;
        } else {
            let next = acc * 10 + d;
            acc = if next > 128 {
                200
            } else {
                next
            };
        }
        i = i + 1;
    }
    assert(ds.take(n - start) =~= ds);
    if neg {
        if acc <= 128 {
            let v: i32 = -(acc as i32);
            Some(v as i8)
        } else {
            None
        }
    } else {
        if acc <= 127 {
            Some(acc as i8)
        } else {
            None
        }
    }
}


/// Whether `p` is a prefix of `s`.
pub open spec fn has_prefix(s: Seq<char>, p: Seq<char>) -> bool {
    p.len() <= s.len() && s.take(p.len() as int) == p
}

/// Whether `s` starts with `p`.
pub fn starts_with(s: &[char], p: &[char]) -> (r: bool)
    ensures
        r == has_prefix(s@, p@),
{
    let m = p.len();
    if m > s.len() {
        return false;
    }
    for i in 0..m
        invariant
            m == p@.len(),
            m <= s@.len(),
            forall|j: int| 0 <= j < i ==> s@[j] == p@[j],
    {
        if s[i] != p[i] {
            assert(s@.take(m as int)[i as int] != p@[i as int]);
            return false;
        }
    }
    assert(s@.take(m as int) =~= p@);
    true
}

/// `s` after its first `n` characters; empty when `s` is shorter.
pub open spec fn drop_chars(s: Seq<char>, n: int) -> Seq<char> {
    if n <= s.len() {
        s.skip(n)
    } else {
        Seq::empty()
    }
}

/// The characters of `s` after the first `n`.
pub fn skip_chars(s: &[char], n: usize) -> (r: Vec<char>)
    ensures
        r@ == drop_chars(s@, n as int),
{
    let mut r: Vec<char> = Vec::new();
    let len = s.len();
    if n > len {
        return r;
    }
    let mut k = n;
    while k < len
        invariant
            len == s@.len(),
            n <= k <= len,
            r@ == s@.subrange(n as int, k as int),
        decreases len - k,
    {
        r.push(s[k]);
        assert(s@.subrange(n as int, k as int).push(s@[k as int]) =~= s@.subrange(
            n as int,
            k + 1,
        ));
        k = k + 1;
    }
    assert(s@.subrange(n as int, len as int) =~= s@.skip(n as int));
    r
}


/// Joining one more word adds the separator and the word.
pub proof fn lemma_join_step(ws: Seq<Seq<char>>, sep: Seq<char>, i: int)
    requires
        0 <= i < ws.len(),
    ensures
        join(ws.take(i + 1), sep) == if i == 0 {
            ws[0]
        } else {
            join(ws.take(i), sep) + sep + ws[i]
        },
{
    assert(ws.take(i + 1).drop_last() =~= ws.take(i));
    assert(ws.take(i + 1).last() == ws[i]);
}


/// `s` without one trailing carriage return, if it has one.
pub open spec fn strip_cr(s: Seq<char>) -> Seq<char> {
    if s.len() > 0 && s.last() == '\r' {
        s.drop_last()
    } else {
        s
    }
}

/// The state of splitting `s` into lines: the lines finished so far and
/// the line being read.
pub open spec fn line_state(s: Seq<char>) -> (Seq<Seq<char>>, Seq<char>)
    decreases s.len(),
{
    if s.len() == 0 {
        (Seq::empty(), Seq::empty())
    } else {
        let st = line_state(s.drop_last());
        if s.last() == '\n' {
            (st.0.push(strip_cr(st.1)), Seq::empty())
        } else {
            (st.0, st.1.push(s.last()))
        }
    }
}

/// The lines of `s` as `str::lines` gives them: split at `\n`, a `\r`
/// just before a `\n` dropped, and no empty line after a final `\n`.
pub open spec fn lines(s: Seq<char>) -> Seq<Seq<char>> {
    let st = line_state(s);
    if st.1.len() > 0 {
        st.0.push(st.1)
    } else {
        st.0
    }
}

/// The lines of `s`.
pub fn split_lines(s: &[char]) -> (r: Vec<Vec<char>>)
    ensures
        views(r@) == lines(s@),
{
    let n = s.len();
    let mut done: Vec<Vec<char>> = Vec::new();
    let mut cur: Vec<char> = Vec::new();
    for i in 0..n
        invariant
            n == s@.len(),
            views(done@) == line_state(s@.take(i as int)).0,
            cur@ == line_state(s@.take(i as int)).1,
    {
        assert(s@.take(i + 1).drop_last() =~= s@.take(i as int));
        let c = s[i];
        if c == '\n' {
            let mut w = cur;
            cur = Vec::new();
            if w.len() > 0 && w[w.len() - 1] == '\r' {
                w.pop();
            }
            done.push(w);
            assert(views(done@) =~= line_state(s@.take(i as int)).0.push(w@));
        } else {
            cur.push(c);
        }
    }
    assert(s@.take(n as int) =~= s@);
    if cur.len() > 0 {
        done.push(cur);
        assert(views(done@) =~= lines(s@));
    }
    done
}


/// `s` without a leading `+`, if it has one.
pub open spec fn plus_stripped(s: Seq<char>) -> Seq<char> {
    if s.len() > 0 && s[0] == '+' {
        s.drop_first()
    } else {
        s
    }
}

/// What `str::parse::<u64>` returns for `s`: an optional `+`, then one or
/// more ASCII digits whose value fits in a `u64`; anything else is an error.
pub open spec fn parse_u64(s: Seq<char>) -> Option<u64> {
    let ds = plus_stripped(s);
    if ds.len() == 0 || !all_digits(ds) || dec_value(ds) > u64::MAX {
        None
    } else {
        Some(dec_value(ds) as u64)
    }
}

/// Parses `s` as `str::parse::<u64>` does.
pub fn parse_u64_chars(s: &[char]) -> (r: Option<u64>)
    ensures
        r == parse_u64(s@),
{
    let n = s.len();
    let start: usize = if n > 0 && s[0] == '+' {
        1
    } else {
        0
    };
    let ghost ds = plus_stripped(s@);
    assert(ds =~= s@.skip(start as int));
    if start == n {
        return None;
    }
    let mut acc: u64 = 0;
    let mut i: usize = start;
    while i < n
        invariant
            n == s@.len(),
            start <= i <= n,
            ds == s@.skip(start as int),
            ds == plus_stripped(s@),
            forall|j: int| 0 <= j < i - start ==> is_digit(#[trigger] ds[j]),
            acc == dec_value(ds.take(i - start)),
        decreases n - i,
    {
        let c = s[i];
        assert(ds[i - start] == s@[i as int]);
        if !('0' <= c && c <= '9') {
            assert(!is_digit(ds[i - start]));
            return None;
        }
        let d = (c as u32) - ('0' as u32);
        proof {
            lemma_dec_value_step(ds, i - start);
            lemma_dec_value_mono(ds, i - start + 1);
        }
        if acc > (u64::MAX - d as u64) / 10 {
            assert(dec_value(ds.take(i + 1 - start)) > u64::MAX);
            return None;
        }
        acc = acc * 10 + d as u64;
        i = i + 1;
    }
    assert(ds.take(n - start) =~= ds);
    Some(acc)
}

/// A longer run of digits is worth at least as much as its prefix.
proof fn lemma_dec_value_mono(ds: Seq<char>, k: int)
    requires
        0 <= k <= ds.len(),
    ensures
        dec_value(ds.take(k)) <= dec_value(ds) || !all_digits(ds),
    decreases ds.len() - k,
{
    if k < ds.len() && all_digits(ds) {
        lemma_dec_value_mono(ds, k + 1);
        lemma_dec_value_step(ds, k);
    } else if k == ds.len() {
        assert(ds.take(k) =~= ds);
    }
}

/// The value of `s` read as a `u64`, or 0 when it is not one
/// (`s.parse().unwrap_or(0)`).
pub open spec fn u64_or_zero(s: Seq<char>) -> u64 {
    match parse_u64(s) {
        Some(v) => v,
        None => 0,
    }
}

/// Whether `p` is a suffix of `s`.
pub open spec fn has_suffix(s: Seq<char>, p: Seq<char>) -> bool {
    p.len() <= s.len() && s.skip(s.len() - p.len()) == p
}

/// Whether `s` ends with `p`.
pub fn ends_with(s: &[char], p: &[char]) -> (r: bool)
    ensures
        r == has_suffix(s@, p@),
{
    let m = p.len();
    let n = s.len();
    if m > n {
        return false;
    }
    for i in 0..m
        invariant
            m == p@.len(),
            n == s@.len(),
            m <= n,
            forall|j: int| 0 <= j < i ==> s@[n - m + j] == p@[j],
    {
        if s[n - m + i] != p[i] {
            assert(s@.skip(n - m)[i as int] != p@[i as int]);
            return false;
        }
    }
    assert(s@.skip(n - m) =~= p@);
    true
}

/// `s` with every `from` replaced by `to`.
pub open spec fn replace_char(s: Seq<char>, from: char, to: char) -> Seq<char> {
    s.map_values(|c: char| if c == from { to } else { c })
}

/// `s` with every `from` replaced by `to`.
pub fn replace_chars(s: &[char], from: char, to: char) -> (r: Vec<char>)
    ensures
        r@ == replace_char(s@, from, to),
{
    let mut r: Vec<char> = Vec::new();
    let n = s.len();
    for i in 0..n
        invariant
            n == s@.len(),
            r@ == replace_char(s@, from, to).take(i as int),
    {
        let c = s[i];
        r.push(if c == from { to } else { c });
        assert(r@ =~= replace_char(s@, from, to).take(i + 1));
    }
    assert(replace_char(s@, from, to).take(n as int) =~= replace_char(s@, from, to));
    r
}

/// The bytes of an ASCII text.
pub open spec fn ascii_bytes(s: Seq<char>) -> Seq<u8> {
    s.map_values(|c: char| c as u8)
}

/// Whether the bytes `b` spell the ASCII text `s`.
pub fn bytes_are(b: &[u8], s: &str) -> (r: bool)
    ensures
        r == (b@ == ascii_bytes(s@)),
{
    let cs = chars_of(s);
    let n = cs.len();
    if b.len() != n {
        assert(b@.len() != ascii_bytes(s@).len());
        return false;
    }
    for i in 0..n
        invariant
            n == cs@.len(),
            cs@ == s@,
            b@.len() == n,
            forall|j: int| 0 <= j < i ==> b@[j] == ascii_bytes(s@)[j],
    {
        if b[i] != cs[i] as u8 {
            assert(b@[i as int] != ascii_bytes(s@)[i as int]);
            return false;
        }
    }
    assert(b@ =~= ascii_bytes(s@));
    true
}

/// The order of texts that `String` comparison follows: by the characters'
/// code points, position by position, and a proper prefix first.
pub open spec fn text_lt(a: Seq<char>, b: Seq<char>) -> bool
    decreases a.len(),
{
    if b.len() == 0 {
        false
    } else if a.len() == 0 {
        true
    } else if a[0] != b[0] {
        a[0] < b[0]
    } else {
        text_lt(a.drop_first(), b.drop_first())
    }
}

/// No text comes before itself.
pub proof fn lemma_text_lt_irreflexive(a: Seq<char>)
    ensures
        !text_lt(a, a),
    decreases a.len(),
{
    if a.len() > 0 {
        lemma_text_lt_irreflexive(a.drop_first());
    }
}

/// The order of texts is transitive.
pub proof fn lemma_text_lt_transitive(a: Seq<char>, b: Seq<char>, c: Seq<char>)
    requires
        text_lt(a, b),
        text_lt(b, c),
    ensures
        text_lt(a, c),
    decreases a.len(),
{
    if a.len() > 0 && a[0] == b[0] && b[0] == c[0] {
        lemma_text_lt_transitive(a.drop_first(), b.drop_first(), c.drop_first());
    }
}

/// Of two different texts, one comes before the other.
pub proof fn lemma_text_lt_total(a: Seq<char>, b: Seq<char>)
    requires
        a != b,
    ensures
        text_lt(a, b) || text_lt(b, a),
    decreases a.len(),
{
    if a.len() > 0 && b.len() > 0 && a[0] == b[0] {
        if a.drop_first() == b.drop_first() {
            assert(a =~= seq![a[0]] + a.drop_first());
            assert(b =~= seq![b[0]] + b.drop_first());
        }
        lemma_text_lt_total(a.drop_first(), b.drop_first());
    } else if a.len() == 0 && b.len() == 0 {
        assert(a =~= b);
    } else if a.len() > 0 && b.len() > 0 {
        assert(a[0] != b[0]);
    }
}

/// Whether `a` comes before `b` in the order of texts.
pub fn text_less(a: &[char], b: &[char]) -> (r: bool)
    ensures
        r == text_lt(a@, b@),
{
    let mut i: usize = 0;
    assert(a@.skip(0) =~= a@);
    assert(b@.skip(0) =~= b@);
    while i < a.len() && i < b.len() && a[i] == b[i]
        invariant
            i <= a@.len(),
            i <= b@.len(),
            text_lt(a@, b@) == text_lt(a@.skip(i as int), b@.skip(i as int)),
        decreases a@.len() - i,
    {
        assert(a@.skip(i as int).drop_first() =~= a@.skip(i + 1));
        assert(b@.skip(i as int).drop_first() =~= b@.skip(i + 1));
        i = i + 1;
    }
    if i == b.len() {
        false
    } else if i == a.len() {
        true
    } else {
        assert(a@.skip(i as int)[0] == a@[i as int]);
        assert(b@.skip(i as int)[0] == b@[i as int]);
        a[i] < b[i]
    }
}

} // verus!
