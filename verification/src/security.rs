use vstd::prelude::*;

verus! {

/// A flow of information from one variable or class into another.
#[derive(Debug, Default, Clone, PartialEq, Eq, PartialOrd, Ord, Hash)]
pub struct Flow {
    pub from: String,
    pub into: String,
}

/// A flow, as the pair of its texts.
pub type FlowView = (Seq<char>, Seq<char>);

impl View for Flow {
    type V = FlowView;

    open spec fn view(&self) -> FlowView {
        (self.from@, self.into@)
    }
}

/// The flows of a sequence, as pairs of texts.
pub open spec fn flow_views(fs: Seq<Flow>) -> Seq<FlowView> {
    fs.map_values(|f: Flow| f@)
}

/// The flow from `from` into `to`.
pub fn flow(from: &str, to: &str) -> (r: Flow)
    ensures
        r@ == (from@, to@),
{
    Flow { from: from.to_owned(), into: to.to_owned() }
}

/// A copy of `f`.
pub fn copy_flow(f: &Flow) -> (r: Flow)
    ensures
        r@ == f@,
{
    Flow { from: f.from.clone(), into: f.into.clone() }
}

/// Whether two flows are the same.
pub fn same_flow(a: &Flow, b: &Flow) -> (r: bool)
    ensures
        r == (a@ == b@),
{
    a.from == b.from && a.into == b.into
}

/// The rules of a security lattice: each allows a class to flow into another.
pub struct SecurityLatticeInput {
    pub rules: Vec<Flow>,
}

/// The result of a security analysis: the flows a program has, the flows
/// its classification allows, the flows it has that are not allowed, and
/// whether there are none of those.
pub struct Output {
    pub actual: Vec<Flow>,
    pub allowed: Vec<Flow>,
    pub violations: Vec<Flow>,
    pub is_secure: bool,
}

/// The flows of `actual` that `allowed` does not hold, in their order.
pub open spec fn not_allowed(actual: Seq<FlowView>, allowed: Seq<FlowView>) -> Seq<FlowView>
    decreases actual.len(),
{
    if actual.len() == 0 {
        Seq::empty()
    } else {
        let r = not_allowed(actual.drop_last(), allowed);
        if allowed.contains(actual.last()) {
            r
        } else {
            r.push(actual.last())
        }
    }
}

/// Whether `fs` holds the flow `f`.
pub fn contains_flow(fs: &Vec<Flow>, f: &Flow) -> (r: bool)
    ensures
        r == flow_views(fs@).contains(f@),
{
    let n = fs.len();
    for i in 0..n
        invariant
            n == fs@.len(),
            forall|j: int| 0 <= j < i ==> fs@[j]@ != f@,
    {
        if same_flow(&fs[i], f) {
            assert(flow_views(fs@)[i as int] == f@);
            return true;
        }
    }
    proof {
        if flow_views(fs@).contains(f@) {
            let j = choose|j: int| 0 <= j < n && flow_views(fs@)[j] == f@;
            assert(fs@[j]@ == f@);
        }
    }
    false
}

impl Output {
    /// The analysis result for a program whose flows are `actual` under a
    /// classification that allows `allowed`: the violations are the flows
    /// of `actual` missing from `allowed`, in order, and the program is
    /// secure when there are none.
    pub fn from_flows(actual: Vec<Flow>, allowed: Vec<Flow>) -> (r: Output)
        ensures
            r.actual@ == actual@,
            r.allowed@ == allowed@,
            flow_views(r.violations@) == not_allowed(flow_views(actual@), flow_views(allowed@)),
            r.is_secure == (r.violations@.len() == 0),
    {
        let ghost av = flow_views(actual@);
        let ghost lv = flow_views(allowed@);
        let mut violations: Vec<Flow> = Vec::new();
        let n = actual.len();
        for i in 0..n
            invariant
                n == actual@.len(),
                av == flow_views(actual@),
                lv == flow_views(allowed@),
                flow_views(violations@) == not_allowed(av.take(i as int), lv),
        {
            assert(av.take(i + 1).drop_last() =~= av.take(i as int));
            assert(av.take(i + 1).last() == actual@[i as int]@);
            if !contains_flow(&allowed, &actual[i]) {
                let f = copy_flow(&actual[i]);
                violations.push(f);
                assert(flow_views(violations@) =~= not_allowed(av.take(i as int), lv).push(f@));
            }
        }
        assert(av.take(n as int) =~= av);
        let is_secure = violations.len() == 0;
        Output { actual, allowed, violations, is_secure }
    }
}

/// The verdict on a submitted analysis.
pub enum ValidationResult {
    Correct,
    Mismatch { reason: String },
}

/// Whether two lists hold the same flows, ignoring order and repetition.
pub open spec fn same_flows(a: Seq<Flow>, b: Seq<Flow>) -> bool {
    flow_views(a).to_set() == flow_views(b).to_set()
}

/// Whether `a` and `b` hold the same flows, ignoring order and repetition.
pub fn compare_sets(a: &Vec<Flow>, b: &Vec<Flow>) -> (r: bool)
    ensures
        r == same_flows(a@, b@),
{
    let ghost av = flow_views(a@);
    let ghost bv = flow_views(b@);
    let n = a.len();
    for i in 0..n
        invariant
            n == a@.len(),
            av == flow_views(a@),
            bv == flow_views(b@),
            forall|j: int| 0 <= j < i ==> bv.contains(#[trigger] av[j]),
    {
        if !contains_flow(b, &a[i]) {
            proof {
                assert(av[i as int] == a@[i as int]@);
                assert(av.to_set().contains(av[i as int]));
                assert(!bv.to_set().contains(av[i as int]));
            }
            return false;
        }
    }
    let m = b.len();
    for i in 0..m
        invariant
            n == a@.len(),
            m == b@.len(),
            av == flow_views(a@),
            bv == flow_views(b@),
            forall|j: int| 0 <= j < n ==> bv.contains(#[trigger] av[j]),
            forall|j: int| 0 <= j < i ==> av.contains(#[trigger] bv[j]),
    {
        if !contains_flow(a, &b[i]) {
            proof {
                assert(bv[i as int] == b@[i as int]@);
                assert(bv.to_set().contains(bv[i as int]));
                assert(!av.to_set().contains(bv[i as int]));
            }
            return false;
        }
    }
    proof {
        assert forall|x: FlowView| av.to_set().contains(x) <==> bv.to_set().contains(x) by {
            if av.contains(x) {
                let j = choose|j: int| 0 <= j < av.len() && av[j] == x;
                assert(bv.contains(av[j]));
            }
            if bv.contains(x) {
                let j = choose|j: int| 0 <= j < bv.len() && bv[j] == x;
                assert(av.contains(bv[j]));
            }
        }
        assert(av.to_set() =~= bv.to_set());
    }
    true
}

/// The verdict on `output` against the `reference` analysis of the same
/// input: the first of the flow lists (actual, allowed, violations) whose
/// flows differ from the reference's is reported, then a wrong
/// `is_secure`.
pub open spec fn validation_spec(reference: Output, output: Output) -> Result<(), Seq<char>> {
    if !same_flows(output.actual@, reference.actual@) {
        Err("actual flows does not match reference"@)
    } else if !same_flows(output.allowed@, reference.allowed@) {
        Err("allowed flows does not match reference"@)
    } else if !same_flows(output.violations@, reference.violations@) {
        Err("violations does not match reference"@)
    } else if output.is_secure != reference.is_secure {
        if reference.is_secure {
            Err("expected secure, but got insecure"@)
        } else {
            Err("expected insecure, but got secure"@)
        }
    } else {
        Ok(())
    }
}

/// A judgement as a `Result`: `Ok` when correct, the reason otherwise.
pub open spec fn verdict_view(v: ValidationResult) -> Result<(), Seq<char>> {
    match v {
        ValidationResult::Correct => Ok(()),
        ValidationResult::Mismatch { reason } => Err(reason@),
    }
}

/// Judges `output` against the `reference` analysis of the same input.
pub fn validate_output(reference: &Output, output: &Output) -> (r: ValidationResult)
    ensures
        verdict_view(r) == validation_spec(*reference, *output),
{
    if !compare_sets(&output.actual, &reference.actual) {
        return ValidationResult::Mismatch { reason: "actual flows does not match reference".to_owned() };
    }
    if !compare_sets(&output.allowed, &reference.allowed) {
        return ValidationResult::Mismatch { reason: "allowed flows does not match reference".to_owned() };
    }
    if !compare_sets(&output.violations, &reference.violations) {
        return ValidationResult::Mismatch { reason: "violations does not match reference".to_owned() };
    }
    if output.is_secure != reference.is_secure {
        if reference.is_secure {
            return ValidationResult::Mismatch { reason: "expected secure, but got insecure".to_owned() };
        } else {
            return ValidationResult::Mismatch { reason: "expected insecure, but got secure".to_owned() };
        }
    }
    ValidationResult::Correct
}

/// Whether every flow of `a` is a flow of `b` and every flow of `b` one of
/// `a`.
pub open spec fn hold_the_same(a: Seq<Flow>, b: Seq<Flow>) -> bool {
    forall|f: FlowView| flow_views(a).contains(f) <==> flow_views(b).contains(f)
}

proof fn lemma_same_flows_iff(a: Seq<Flow>, b: Seq<Flow>)
    ensures
        same_flows(a, b) <==> hold_the_same(a, b),
{
    if hold_the_same(a, b) {
        assert(flow_views(a).to_set() =~= flow_views(b).to_set());
    }
    if same_flows(a, b) {
        assert forall|f: FlowView| flow_views(a).contains(f) <==> flow_views(b).contains(f) by {
            assert(flow_views(a).to_set().contains(f) == flow_views(b).to_set().contains(f));
        }
    }
}

/// A submitted analysis is judged correct exactly when its actual flows,
/// its allowed flows and its violations each hold the same flows as the
/// reference's (in any order, with any repetition) and it agrees on being
/// secure; otherwise the first list that differs, or else the wrong
/// verdict on security (what the reference expected), is named.
pub proof fn law_validation_verdict(reference: Output, output: Output)
    ensures
        validation_spec(reference, output) == Ok::<(), Seq<char>>(()) <==> {
            &&& hold_the_same(output.actual@, reference.actual@)
            &&& hold_the_same(output.allowed@, reference.allowed@)
            &&& hold_the_same(output.violations@, reference.violations@)
            &&& output.is_secure == reference.is_secure
        },
        !hold_the_same(output.actual@, reference.actual@) ==> validation_spec(reference, output)
            == Err::<(), Seq<char>>("actual flows does not match reference"@),
        hold_the_same(output.actual@, reference.actual@) && !hold_the_same(
            output.allowed@,
            reference.allowed@,
        ) ==> validation_spec(reference, output) == Err::<(), Seq<char>>(
            "allowed flows does not match reference"@,
        ),
        hold_the_same(output.actual@, reference.actual@) && hold_the_same(
            output.allowed@,
            reference.allowed@,
        ) && !hold_the_same(output.violations@, reference.violations@) ==> validation_spec(
            reference,
            output,
        ) == Err::<(), Seq<char>>("violations does not match reference"@),
        hold_the_same(output.actual@, reference.actual@) && hold_the_same(
            output.allowed@,
            reference.allowed@,
        ) && hold_the_same(output.violations@, reference.violations@) && output.is_secure
            != reference.is_secure ==> validation_spec(reference, output) == Err::<(), Seq<char>>(
            if reference.is_secure {
                "expected secure, but got insecure"@
            } else {
                "expected insecure, but got secure"@
            },
        ),
{
    lemma_same_flows_iff(output.actual@, reference.actual@);
    lemma_same_flows_iff(output.allowed@, reference.allowed@);
    lemma_same_flows_iff(output.violations@, reference.violations@);
}

/// Every analysis agrees with itself: an output judged against itself is
/// correct.
pub proof fn law_validate_self(o: Output)
    ensures
        validation_spec(o, o) == Ok::<(), Seq<char>>(()),
{
}

/// The violations are exactly the flows of `actual` that `allowed` lacks:
/// each is such a flow, and each such flow is a violation.
pub proof fn law_violations(actual: Seq<FlowView>, allowed: Seq<FlowView>, f: FlowView)
    ensures
        not_allowed(actual, allowed).contains(f) <==> (actual.contains(f) && !allowed.contains(f)),
    decreases actual.len(),
{
    if actual.len() > 0 {
        let init = actual.drop_last();
        let last = actual.last();
        law_violations(init, allowed, f);
        let r = not_allowed(init, allowed);
        assert(actual =~= init.push(last));
        assert(actual.contains(f) <==> (init.contains(f) || f == last)) by {
            if actual.contains(f) {
                let j = choose|j: int| 0 <= j < actual.len() && actual[j] == f;
                if j < init.len() {
                    assert(init[j] == f);
                }
            }
            if init.contains(f) {
                let j = choose|j: int| 0 <= j < init.len() && init[j] == f;
                assert(actual[j] == f);
            }
            if f == last {
                assert(actual[actual.len() - 1] == f);
            }
        }
        if !allowed.contains(last) {
            assert(not_allowed(actual, allowed) == r.push(last));
            assert(r.push(last).contains(f) <==> (r.contains(f) || f == last)) by {
                if r.push(last).contains(f) {
                    let j = choose|j: int| 0 <= j < r.len() + 1 && r.push(last)[j] == f;
                    if j < r.len() {
                        assert(r[j] == f);
                    }
                }
                if r.contains(f) {
                    let j = choose|j: int| 0 <= j < r.len() && r[j] == f;
                    assert(r.push(last)[j] == f);
                }
                if f == last {
                    assert(r.push(last)[r.len() as int] == f);
                }
            }
        }
    }
}

} // verus!
