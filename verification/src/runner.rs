use vstd::prelude::*;

use std::path::PathBuf;

use crate::text::{chars_of, digit_char, nat_dec, push_all, push_nat_dec, string_of};

verus! {

#[verifier::external_type_specification]
#[verifier::external_body]
pub struct ExPathBuf(PathBuf);

/// Which input generator a coverage run draws its inputs from.
#[derive(Clone, Copy, Debug, PartialEq, Eq, Structural)]
pub enum GeneratorMode {
    New,
    Old,
}

/// Where a batch of coverage runs writes its files, and with which generator.
pub struct RunConfig {
    pub output_dir: PathBuf,
    pub mode: GeneratorMode,
}

/// `s` padded on the left with `'0'` up to `width` characters; longer text
/// is kept whole.
pub open spec fn zero_pad(s: Seq<char>, width: nat) -> Seq<char> {
    if s.len() >= width {
        s
    } else {
        Seq::new((width - s.len()) as nat, |i: int| '0') + s
    }
}

/// The directory name of one iteration: `iter_` and the number in at least
/// five digits.
pub open spec fn iteration_dir_spec(iter: nat) -> Seq<char> {
    seq!['i', 't', 'e', 'r', '_'] + zero_pad(nat_dec(iter), 5)
}

/// The decimal text of a number has at least one digit, and at least two
/// from ten on; it starts with `0` only for zero.
proof fn lemma_nat_dec_shape(n: nat)
    ensures
        nat_dec(n).len() >= 1,
        n >= 10 ==> nat_dec(n).len() >= 2,
        nat_dec(n)[0] == '0' ==> n == 0,
    decreases n,
{
    if n >= 10 {
        lemma_nat_dec_shape(n / 10);
        assert(nat_dec(n)[0] == nat_dec(n / 10)[0]);
    }
}

/// Different digits are different characters.
proof fn lemma_digit_char_injective(x: int, y: int)
    requires
        0 <= x < 10,
        0 <= y < 10,
        digit_char(x) == digit_char(y),
    ensures
        x == y,
{
}

/// Different numbers have different decimal texts.
proof fn lemma_nat_dec_injective(a: nat, b: nat)
    requires
        nat_dec(a) == nat_dec(b),
    ensures
        a == b,
    decreases a,
{
    lemma_nat_dec_shape(a);
    lemma_nat_dec_shape(b);
    if a >= 10 && b >= 10 {
        assert(nat_dec(a / 10) =~= nat_dec(a).drop_last());
        assert(nat_dec(b / 10) =~= nat_dec(b).drop_last());
        lemma_nat_dec_injective(a / 10, b / 10);
        assert(nat_dec(a) == nat_dec(a / 10).push(digit_char((a % 10) as int)));
        assert(nat_dec(b) == nat_dec(b / 10).push(digit_char((b % 10) as int)));
        assert(nat_dec(a).last() == digit_char((a % 10) as int));
        assert(nat_dec(b).last() == digit_char((b % 10) as int));
        lemma_digit_char_injective((a % 10) as int, (b % 10) as int);
    } else if a < 10 && b < 10 {
        lemma_digit_char_injective(a as int, b as int);
    }
}

/// Different iterations write to different directories.
pub proof fn law_iteration_dirs_distinct(i: nat, j: nat)
    requires
        i != j,
    ensures
        iteration_dir_spec(i) != iteration_dir_spec(j),
{
    let a = nat_dec(i);
    let b = nat_dec(j);
    lemma_nat_dec_shape(i);
    lemma_nat_dec_shape(j);
    if iteration_dir_spec(i) == iteration_dir_spec(j) {
        let pa = zero_pad(a, 5);
        let pb = zero_pad(b, 5);
        assert(pa =~= iteration_dir_spec(i).skip(5));
        assert(pb =~= iteration_dir_spec(j).skip(5));
        assert(pa == pb);
        if a.len() >= 5 && b.len() >= 5 {
            lemma_nat_dec_injective(i, j);
        } else if a.len() < 5 && b.len() < 5 {
            if a.len() == b.len() {
                assert(a =~= pa.skip(5 - a.len()));
                assert(b =~= pb.skip(5 - b.len()));
                lemma_nat_dec_injective(i, j);
            } else if a.len() < b.len() {
                assert(pb[5 - b.len()] == b[0]);
                assert(pa[5 - b.len()] == '0');
            } else {
                assert(pa[5 - a.len()] == a[0]);
                assert(pb[5 - a.len()] == '0');
            }
        } else if a.len() >= 5 {
            assert(pb[0] == '0');
            assert(pa[0] == a[0]);
        } else {
            assert(pa[0] == '0');
            assert(pb[0] == b[0]);
        }
    }
}

/// The name of the directory that iteration `iter` of a batch writes to.
pub fn iteration_dir_name(iter: usize) -> (r: String)
    ensures
        r@ == iteration_dir_spec(iter as nat),
{
    let mut digits: Vec<char> = Vec::new();
    push_nat_dec(&mut digits, iter as u64);
    assert(digits@ =~= nat_dec(iter as nat));
    let mut out: Vec<char> = vec!['i', 't', 'e', 'r', '_'];
    let ghost head = out@;
    let mut k: usize = digits.len();
    while k < 5
        invariant
            digits.len() <= k,
            k <= 5 || k == digits.len(),
            out@ == head + Seq::new((k - digits.len()) as nat, |i: int| '0'),
        decreases 5 - k,
    {
        out.push('0');
        assert(out@ =~= head + Seq::new((k + 1 - digits.len()) as nat, |i: int| '0'));
        k = k + 1;
    }
    push_all(&mut out, digits.as_slice());
    proof {
        if digits.len() >= 5 {
            assert(Seq::new((k - digits.len()) as nat, |i: int| '0') =~= Seq::<char>::empty());
        }
        assert(out@ =~= iteration_dir_spec(iter as nat));
    }
    string_of(out.as_slice())
}

/// The results directory under the crate directory `dir`: `dir`, a `/`
/// unless `dir` is empty or already ends with one, and
/// `src/Coverage/results`, as joining the three parts as paths gives it.
pub open spec fn results_dir_spec(dir: Seq<char>) -> Seq<char> {
    let sep = if dir.len() == 0 || dir.last() == '/' {
        Seq::<char>::empty()
    } else {
        seq!['/']
    };
    dir + sep + "src/Coverage/results"@
}

/// The directory where coverage results go by default, under the crate
/// directory `manifest_dir`.
pub fn results_dir(manifest_dir: &str) -> (r: String)
    ensures
        r@ == results_dir_spec(manifest_dir@),
{
    let mut out = chars_of(manifest_dir);
    let n = out.len();
    if n > 0 && out[n - 1] != '/' {
        out.push('/');
    }
    push_all(&mut out, chars_of("src/Coverage/results").as_slice());
    string_of(out.as_slice())
}

/// Whether a program lies in a Cargo build directory: the directory that
/// holds it is named `release` or `debug`, and that one's parent `target`.
/// The workspace is then the parent of `target`.
pub fn in_cargo_build_dir(dir_name: &str, parent_name: &str) -> (r: bool)
    ensures
        r == ((dir_name@ == "release"@ || dir_name@ == "debug"@) && parent_name@ == "target"@),
{
    let d = dir_name.to_owned();
    let p = parent_name.to_owned();
    (d == "release".to_owned() || d == "debug".to_owned()) && p == "target".to_owned()
}

/// Whether a file with this extension holds profile data of an earlier
/// run, to be cleared before the next one.
pub fn is_profile_extension(ext: &str) -> (r: bool)
    ensures
        r == (ext@ == "profraw"@ || ext@ == "profdata"@),
{
    let e = ext.to_owned();
    e == "profraw".to_owned() || e == "profdata".to_owned()
}

} // verus!
