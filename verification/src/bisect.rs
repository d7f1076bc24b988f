//! Regression bisection over a linear revision history.
//!
//! Sets of file names are held as vectors of strings in strictly increasing
//! order, so that each name occurs once; membership is by the text of a name. A map from revision to verdict is held as a list of pairs in which
//! a later pair for the same revision replaces an earlier one.
use vstd::prelude::*;

verus! {

/// One revision of the history, in history order.
#[derive(Debug, Clone)]
pub struct RevisionCandidate {
    pub revision: String,
    pub parent: Option<String>,
    pub changed_files: Vec<String>,
    pub environment_hash: String,
}

#[derive(Debug, Clone, Copy, PartialEq, Eq, Structural)]
pub enum ProbeVerdict {
    Good,
    Bad,
    Skip,
    Inconclusive,
}

#[derive(Debug, Clone)]
pub struct BisectProbe {
    pub revision: String,
    pub verdict: ProbeVerdict,
    pub evidence_ids: Vec<String>,
}

#[derive(Debug, Clone)]
pub struct BisectContract {
    pub target: String,
    pub good_revision: String,
    pub bad_revision: String,
    pub environment_hash: String,
    pub relevant_files: Vec<String>,
    pub allow_working_tree: bool,
}

#[derive(Debug, Clone)]
pub struct BisectStep {
    pub revision: String,
    pub reason: String,
}

#[derive(Debug, Clone)]
pub struct BisectResult {
    pub first_bad: Option<String>,
    pub last_good: Option<String>,
    pub culprit_files: Vec<String>,
    pub complete: bool,
    pub reasons: Vec<String>,
}

#[derive(Debug, Clone)]
pub struct PatchStackEntry {
    pub id: String,
    pub base_revision: String,
    pub touched_files: Vec<String>,
}

/// Whether a list of names holds the name `s`.
pub open spec fn has_name(v: Seq<String>, s: Seq<char>) -> bool {
    exists|i: int| 0 <= i < v.len() && (#[trigger] v[i])@ == s
}

/// Whether two lists of names share a name (the sets are not disjoint).
pub open spec fn shares_name(a: Seq<String>, b: Seq<String>) -> bool {
    exists|i: int| 0 <= i < a.len() && has_name(b, (#[trigger] a[i])@)
}

/// The position that a map from revision name to position keeps for `name`:
/// the last place where it occurs.
pub open spec fn last_position(history: Seq<RevisionCandidate>, name: Seq<char>) -> Option<int>
    decreases history.len(),
{
    if history.len() == 0 {
        None
    } else if history.last().revision@ == name {
        Some(history.len() - 1)
    } else {
        last_position(history.drop_last(), name)
    }
}

/// The verdict that a revision-to-verdict map holds for `name`.
pub open spec fn recorded_verdict(probes: Seq<(String, ProbeVerdict)>, name: Seq<char>) -> Option<
    ProbeVerdict,
>
    decreases probes.len(),
{
    if probes.len() == 0 {
        None
    } else if probes.last().0@ == name {
        Some(probes.last().1)
    } else {
        recorded_verdict(probes.drop_last(), name)
    }
}

/// The verdict that the probes give a revision, a later probe replacing an earlier one.
pub open spec fn probe_verdict(probes: Seq<BisectProbe>, name: Seq<char>) -> Option<ProbeVerdict>
    decreases probes.len(),
{
    if probes.len() == 0 {
        None
    } else if probes.last().revision@ == name {
        Some(probes.last().verdict)
    } else {
        probe_verdict(probes.drop_last(), name)
    }
}

/// A revision still to be probed: none recorded, or only a skip or an inconclusive run.
pub open spec fn unresolved(v: Option<ProbeVerdict>) -> bool {
    match v {
        None => true,
        Some(ProbeVerdict::Skip) => true,
        Some(ProbeVerdict::Inconclusive) => true,
        _ => false,
    }
}

/// Whether the planner may propose `r`.
pub open spec fn is_plan_candidate(
    r: RevisionCandidate,
    contract: BisectContract,
    probes: Seq<(String, ProbeVerdict)>,
) -> bool {
    &&& r.environment_hash@ == contract.environment_hash@
    &&& unresolved(recorded_verdict(probes, r.revision@))
    &&& (contract.relevant_files@.len() == 0 || shares_name(
        r.changed_files@,
        contract.relevant_files@,
    ))
}

/// The positions in `lo..hi` of the revisions the planner may propose, in order.
pub open spec fn plan_candidates(
    history: Seq<RevisionCandidate>,
    lo: int,
    hi: int,
    contract: BisectContract,
    probes: Seq<(String, ProbeVerdict)>,
) -> Seq<int>
    decreases hi - lo,
{
    if hi <= lo {
        Seq::empty()
    } else {
        let rest = plan_candidates(history, lo, hi - 1, contract, probes);
        if is_plan_candidate(history[hi - 1], contract, probes) {
            rest.push(hi - 1)
        } else {
            rest
        }
    }
}

/// The positions strictly between the good and the bad revision that the planner may
/// propose; `None` when either revision is missing from the history.
pub open spec fn plan_range(
    history: Seq<RevisionCandidate>,
    contract: BisectContract,
    probes: Seq<(String, ProbeVerdict)>,
) -> Option<Seq<int>> {
    match (
        last_position(history, contract.good_revision@),
        last_position(history, contract.bad_revision@),
    ) {
        (Some(g), Some(b)) => {
            let lo = if g < b {
                g
            } else {
                b
            };
            let hi = if g < b {
                b
            } else {
                g
            };
            Some(plan_candidates(history, lo + 1, hi, contract, probes))
        },
        _ => None,
    }
}

/// The revision the planner proposes: the middle one of the candidates.
pub open spec fn planned_position(
    history: Seq<RevisionCandidate>,
    contract: BisectContract,
    probes: Seq<(String, ProbeVerdict)>,
) -> Option<int> {
    match plan_range(history, contract, probes) {
        Some(c) => if c.len() == 0 {
            None
        } else {
            Some(c[(c.len() / 2) as int])
        },
        None => None,
    }
}

/// A plan is defined unless the good and the bad revision are one and the same entry.
pub open spec fn plan_defined(history: Seq<RevisionCandidate>, contract: BisectContract) -> bool {
    last_position(history, contract.good_revision@) is None || contract.good_revision@
        != contract.bad_revision@
}

pub open spec fn midpoint_reason() -> Seq<char> {
    "midpoint of unresolved revision range"@
}

pub open spec fn impact_reason() -> Seq<char> {
    "impact-aware midpoint touching relevant files"@
}

pub open spec fn no_bad_reason() -> Seq<char> {
    "no verified bad revision in the pinned environment"@
}

pub open spec fn no_good_reason() -> Seq<char> {
    "no verified good predecessor in the pinned environment"@
}

/// The revisions of the history built in the pinned environment, in order.
pub open spec fn pinned(history: Seq<RevisionCandidate>, env: Seq<char>) -> Seq<RevisionCandidate>
    decreases history.len(),
{
    if history.len() == 0 {
        Seq::empty()
    } else {
        let rest = pinned(history.drop_last(), env);
        if history.last().environment_hash@ == env {
            rest.push(history.last())
        } else {
            rest
        }
    }
}

/// The first position at or after `from` whose probe verdict is `v`.
pub open spec fn first_with_verdict(
    s: Seq<RevisionCandidate>,
    probes: Seq<BisectProbe>,
    v: ProbeVerdict,
    from: int,
) -> Option<int>
    decreases s.len() - from,
{
    if from < 0 || from >= s.len() {
        None
    } else if probe_verdict(probes, s[from].revision@) == Some(v) {
        Some(from)
    } else {
        first_with_verdict(s, probes, v, from + 1)
    }
}

/// The last position before `before` whose probe verdict is `v`.
pub open spec fn last_with_verdict_before(
    s: Seq<RevisionCandidate>,
    probes: Seq<BisectProbe>,
    v: ProbeVerdict,
    before: int,
) -> Option<int>
    decreases before,
{
    if before <= 0 || before > s.len() {
        None
    } else if probe_verdict(probes, s[before - 1].revision@) == Some(v) {
        Some(before - 1)
    } else {
        last_with_verdict_before(s, probes, v, before - 1)
    }
}

/// The names of `files` that `relevant` also holds, in the order of `files`.
pub open spec fn kept_files(files: Seq<String>, relevant: Seq<String>) -> Seq<Seq<char>>
    decreases files.len(),
{
    if files.len() == 0 {
        Seq::empty()
    } else {
        let rest = kept_files(files.drop_last(), relevant);
        if has_name(relevant, files.last()@) {
            rest.push(files.last()@)
        } else {
            rest
        }
    }
}

pub open spec fn names(v: Seq<String>) -> Seq<Seq<char>> {
    v.map_values(|s: String| s@)
}

/// A set of names: strictly increasing, so each name occurs once.
pub open spec fn is_name_set(v: Seq<String>) -> bool {
    crate::content_addressed::strictly_sorted(names(v))
}

/// Every revision's changed files, and the contract's relevant files, are sets of names.
pub open spec fn name_sets(history: Seq<RevisionCandidate>, contract: BisectContract) -> bool {
    &&& is_name_set(contract.relevant_files@)
    &&& forall|i: int| 0 <= i < history.len() ==> is_name_set(#[trigger] history[i].changed_files@)
}

/// The names kept from a set are a set, each of them one of the set's names.
proof fn lemma_kept_files_sorted(files: Seq<String>, relevant: Seq<String>)
    requires
        is_name_set(files),
    ensures
        crate::content_addressed::strictly_sorted(kept_files(files, relevant)),
        forall|x: Seq<char>| kept_files(files, relevant).contains(x) ==> names(files).contains(x),
    decreases files.len(),
{
    if files.len() > 0 {
        let init = files.drop_last();
        assert(names(init) == names(files).drop_last());
        lemma_kept_files_sorted(init, relevant);
        let rest = kept_files(init, relevant);
        let last = files.last()@;
        assert(names(files)[files.len() - 1] == last);
        assert forall|x: Seq<char>| rest.contains(x) implies crate::text::seq_lt(x, last) by {
            assert(names(init).contains(x));
            let j = choose|j: int| 0 <= j < names(init).len() && names(init)[j] == x;
            assert(names(files)[j] == x);
        }
        assert forall|x: Seq<char>| kept_files(files, relevant).contains(x) implies names(files).contains(x) by {
            if rest.contains(x) {
                assert(names(init).contains(x));
                let j = choose|j: int| 0 <= j < names(init).len() && names(init)[j] == x;
                assert(names(files)[j] == x);
            } else {
                assert(names(files)[files.len() - 1] == x);
            }
        }
        if has_name(relevant, last) {
            let k = rest.push(last);
            assert forall|a: int, b: int| 0 <= a < b < k.len() implies crate::text::seq_lt(
                #[trigger] k[a],
                #[trigger] k[b],
            ) by {
                if b == k.len() - 1 {
                    assert(rest.contains(k[a]));
                } else {
                    assert(k[a] == rest[a] && k[b] == rest[b]);
                }
            }
        }
    }
}

/// Whether `v` holds the name `s`.
pub fn contains_name(v: &Vec<String>, s: &String) -> (r: bool)
    ensures
        r == has_name(v@, s@),
{
    let mut i: usize = 0;
    while i < v.len()
        invariant
            i <= v@.len(),
            forall|k: int| 0 <= k < i ==> (#[trigger] v@[k])@ != s@,
        decreases v@.len() - i,
    {
        if v[i] == *s {
            return true;
        }
        i += 1;
    }
    false
}

/// Whether `a` and `b` share a name.
pub fn shares_any(a: &Vec<String>, b: &Vec<String>) -> (r: bool)
    ensures
        r == shares_name(a@, b@),
{
    let mut i: usize = 0;
    while i < a.len()
        invariant
            i <= a@.len(),
            forall|k: int| 0 <= k < i ==> !has_name(b@, (#[trigger] a@[k])@),
        decreases a@.len() - i,
    {
        if contains_name(b, &a[i]) {
            return true;
        }
        i += 1;
    }
    false
}

/// The last position of `name` in the history.
fn last_position_of(history: &[RevisionCandidate], name: &String) -> (r: Option<usize>)
    ensures
        match r {
            Some(k) => last_position(history@, name@) == Some(k as int),
            None => last_position(history@, name@) is None,
        },
{
    let mut j: usize = history.len();
    proof {
        assert(history@.take(j as int) == history@);
    }
    while j > 0
        invariant
            j <= history@.len(),
            last_position(history@, name@) == last_position(history@.take(j as int), name@),
        decreases j,
    {
        proof {
            assert(history@.take(j as int).drop_last() == history@.take(j - 1));
        }
        if history[j - 1].revision == *name {
            return Some(j - 1);
        }
        j -= 1;
    }
    None
}

/// The verdict a revision-to-verdict map holds for `name`.
fn lookup_recorded(probes: &[(String, ProbeVerdict)], name: &String) -> (r: Option<ProbeVerdict>)
    ensures
        r == recorded_verdict(probes@, name@),
{
    let mut j: usize = probes.len();
    proof {
        assert(probes@.take(j as int) == probes@);
    }
    while j > 0
        invariant
            j <= probes@.len(),
            recorded_verdict(probes@, name@) == recorded_verdict(probes@.take(j as int), name@),
        decreases j,
    {
        proof {
            assert(probes@.take(j as int).drop_last() == probes@.take(j - 1));
        }
        if probes[j - 1].0 == *name {
            return Some(probes[j - 1].1);
        }
        j -= 1;
    }
    None
}

/// The verdict the probes give `name`, a later probe replacing an earlier one.
fn lookup_probe(probes: &[BisectProbe], name: &String) -> (r: Option<ProbeVerdict>)
    ensures
        r == probe_verdict(probes@, name@),
{
    let mut j: usize = probes.len();
    proof {
        assert(probes@.take(j as int) == probes@);
    }
    while j > 0
        invariant
            j <= probes@.len(),
            probe_verdict(probes@, name@) == probe_verdict(probes@.take(j as int), name@),
        decreases j,
    {
        proof {
            assert(probes@.take(j as int).drop_last() == probes@.take(j - 1));
        }
        if probes[j - 1].revision == *name {
            return Some(probes[j - 1].verdict);
        }
        j -= 1;
    }
    None
}

fn plan_candidate(
    r: &RevisionCandidate,
    contract: &BisectContract,
    probes: &[(String, ProbeVerdict)],
) -> (b: bool)
    ensures
        b == is_plan_candidate(*r, *contract, probes@),
{
    if r.environment_hash != contract.environment_hash {
        return false;
    }
    let open = match lookup_recorded(probes, &r.revision) {
        None => true,
        Some(ProbeVerdict::Skip) => true,
        Some(ProbeVerdict::Inconclusive) => true,
        _ => false,
    };
    if !open {
        return false;
    }
    contract.relevant_files.len() == 0 || shares_any(&r.changed_files, &contract.relevant_files)
}

/// Proposes the next revision to probe: the middle one of the unresolved revisions
/// strictly between the good and the bad revision that were built in the pinned
/// environment and, when the contract names relevant files, touch one of them.
pub fn plan(
    history: &[RevisionCandidate],
    contract: &BisectContract,
    probes: &[(String, ProbeVerdict)],
) -> (r: Option<BisectStep>)
    requires
        plan_defined(history@, *contract),
        name_sets(history@, *contract),
    ensures
        match planned_position(history@, *contract, probes@) {
            Some(k) => r matches Some(step) && step.revision@ == history@[k].revision@
                && step.reason@ == (if contract.relevant_files@.len() == 0 {
                midpoint_reason()
            } else {
                impact_reason()
            }),
            None => r is None,
        },
        r matches Some(step) ==> exists|k: int|
            0 <= k < history@.len() && #[trigger] history@[k].revision@ == step.revision@
                && revision_may_be_probed(history@, *contract, probes@, k),
        r is None ==> forall|k: int|
            0 <= k < history@.len() ==> !#[trigger] revision_may_be_probed(history@, *contract, probes@, k),
{
    proof {
        lemma_planned_revision_may_be_probed(history@, *contract, probes@);
        lemma_no_plan_means_nothing_to_probe(history@, *contract, probes@);
    }
    let good = match last_position_of(history, &contract.good_revision) {
        Some(g) => g,
        None => return None,
    };
    let bad = match last_position_of(history, &contract.bad_revision) {
        Some(b) => b,
        None => return None,
    };
    let (start, end) = if good < bad {
        (good, bad)
    } else {
        (bad, good)
    };
    proof {
        lemma_last_position_names(history@, contract.good_revision@);
        lemma_last_position_names(history@, contract.bad_revision@);
    }
    let mut cands: Vec<usize> = Vec::new();
    let mut i: usize = start + 1;
    while i < end
        invariant
            start < end < history@.len(),
            start + 1 <= i <= end,
            cands@.len() == plan_candidates(history@, start + 1, i as int, *contract, probes@).len(),
            forall|k: int|
                0 <= k < cands@.len() ==> cands@[k] as int == #[trigger] plan_candidates(
                    history@,
                    start + 1,
                    i as int,
                    *contract,
                    probes@,
                )[k],
        decreases end - i,
    {
        if plan_candidate(&history[i], contract, probes) {
            cands.push(i);
        }
        i += 1;
    }
    if cands.len() == 0 {
        return None;
    }
    let middle = cands[cands.len() / 2];
    proof {
        lemma_plan_candidates_range(history@, start + 1, end as int, *contract, probes@);
        assert(plan_candidates(history@, start + 1, end as int, *contract, probes@)[(cands@.len()
            / 2) as int] == middle);
    }
    let reason = if contract.relevant_files.len() == 0 {
        "midpoint of unresolved revision range".to_owned()
    } else {
        "impact-aware midpoint touching relevant files".to_owned()
    };
    Some(BisectStep { revision: history[middle].revision.clone(), reason })
}

/// The position among the pinned revisions of the first one probed bad.
pub open spec fn first_bad_position(
    history: Seq<RevisionCandidate>,
    contract: BisectContract,
    probes: Seq<BisectProbe>,
) -> Option<int> {
    first_with_verdict(pinned(history, contract.environment_hash@), probes, ProbeVerdict::Bad, 0)
}

/// The position among the pinned revisions of the last one probed good before the first bad one.
pub open spec fn last_good_position(
    history: Seq<RevisionCandidate>,
    contract: BisectContract,
    probes: Seq<BisectProbe>,
) -> Option<int> {
    match first_bad_position(history, contract, probes) {
        Some(b) => last_with_verdict_before(
            pinned(history, contract.environment_hash@),
            probes,
            ProbeVerdict::Good,
            b,
        ),
        None => None,
    }
}

/// The reasons a bisection result gives for being incomplete.
pub open spec fn incomplete_reasons(first_bad: Option<int>, last_good: Option<int>) -> Seq<Seq<char>> {
    if first_bad is None {
        seq![no_bad_reason()]
    } else if last_good is None {
        seq![no_good_reason()]
    } else {
        Seq::empty()
    }
}

/// Whether `idx` lists positions of `history` that hold the entries of `s`, in order.
pub open spec fn indexes(history: Seq<RevisionCandidate>, idx: Seq<usize>, s: Seq<RevisionCandidate>) -> bool {
    &&& idx.len() == s.len()
    &&& forall|m: int|
        #![trigger idx[m]]
        0 <= m < idx.len() ==> idx[m] < history.len() && history[idx[m] as int] == s[m]
}

/// The positions in `history` of the revisions built in environment `env`.
fn pinned_positions(history: &[RevisionCandidate], env: &String) -> (r: Vec<usize>)
    ensures
        indexes(history@, r@, pinned(history@, env@)),
{
    let mut out: Vec<usize> = Vec::new();
    let mut i: usize = 0;
    while i < history.len()
        invariant
            i <= history@.len(),
            indexes(history@, out@, pinned(history@.take(i as int), env@)),
            forall|k: int| 0 <= k < out@.len() ==> #[trigger] out@[k] < i,
        decreases history@.len() - i,
    {
        proof {
            assert(history@.take(i + 1).drop_last() == history@.take(i as int));
            assert(history@.take(i + 1).last() == history@[i as int]);
        }
        let ghost before = out@;
        if history[i].environment_hash == *env {
            out.push(i);
            proof {
                assert(out@[before.len() as int] == i);
            }
        }
        i += 1;
    }
    proof {
        assert(history@.take(i as int) == history@);
    }
    out
}

/// The names of `files` that `relevant` also holds, in order.
fn keep_relevant(files: &Vec<String>, relevant: &Vec<String>) -> (r: Vec<String>)
    ensures
        names(r@) == kept_files(files@, relevant@),
{
    let mut out: Vec<String> = Vec::new();
    let mut i: usize = 0;
    while i < files.len()
        invariant
            i <= files@.len(),
            names(out@) == kept_files(files@.take(i as int), relevant@),
        decreases files@.len() - i,
    {
        proof {
            assert(files@.take(i + 1).drop_last() == files@.take(i as int));
        }
        if contains_name(relevant, &files[i]) {
            let ghost before = out@;
            out.push(files[i].clone());
            proof {
                assert(names(out@) == names(before).push(files@[i as int]@));
            }
        }
        i += 1;
    }
    proof {
        assert(files@.take(i as int) == files@);
    }
    out
}

/// The first position among the pinned revisions whose verdict is `v`.
fn first_probed(
    history: &[RevisionCandidate],
    ordered: &Vec<usize>,
    probes: &[BisectProbe],
    v: ProbeVerdict,
    Ghost(pin): Ghost<Seq<RevisionCandidate>>,
) -> (r: Option<usize>)
    requires
        indexes(history@, ordered@, pin),
    ensures
        match r {
            Some(k) => first_with_verdict(pin, probes@, v, 0) == Some(k as int),
            None => first_with_verdict(pin, probes@, v, 0) is None,
        },
{
    let mut k: usize = 0;
    while k < ordered.len()
        invariant
            k <= ordered@.len(),
            indexes(history@, ordered@, pin),
            first_with_verdict(pin, probes@, v, 0) == first_with_verdict(pin, probes@, v, k as int),
        decreases ordered@.len() - k,
    {
        let got = lookup_probe(probes, &history[ordered[k]].revision);
        proof {
            assert(history@[ordered@[k as int] as int] == pin[k as int]);
        }
        if got == Some(v) {
            return Some(k);
        }
        k += 1;
    }
    None
}

/// The last position before `before` among the pinned revisions whose verdict is `v`.
fn last_probed_before(
    history: &[RevisionCandidate],
    ordered: &Vec<usize>,
    probes: &[BisectProbe],
    v: ProbeVerdict,
    before: usize,
    Ghost(pin): Ghost<Seq<RevisionCandidate>>,
) -> (r: Option<usize>)
    requires
        before <= ordered@.len(),
        indexes(history@, ordered@, pin),
    ensures
        match r {
            Some(k) => last_with_verdict_before(pin, probes@, v, before as int) == Some(k as int),
            None => last_with_verdict_before(pin, probes@, v, before as int) is None,
        },
{
    let mut j: usize = before;
    while j > 0
        invariant
            j <= before <= ordered@.len(),
            indexes(history@, ordered@, pin),
            last_with_verdict_before(pin, probes@, v, before as int) == last_with_verdict_before(
                pin,
                probes@,
                v,
                j as int,
            ),
        decreases j,
    {
        let got = lookup_probe(probes, &history[ordered[j - 1]].revision);
        proof {
            assert(history@[ordered@[j - 1] as int] == pin[j - 1]);
        }
        if got == Some(v) {
            return Some(j - 1);
        }
        j -= 1;
    }
    None
}

/// Reads the probes against the history: the first revision probed bad in the
/// pinned environment, the last one probed good before it, the relevant files the
/// bad revision changed, and why the result is incomplete when it is.
pub fn analyze(
    history: &[RevisionCandidate],
    contract: &BisectContract,
    probes: &[BisectProbe],
) -> (r: BisectResult)
    requires
        name_sets(history@, *contract),
    ensures
        is_name_set(r.culprit_files@),
        ({
            let ordered = pinned(history@, contract.environment_hash@);
            &&& match first_bad_position(history@, *contract, probes@) {
                Some(b) => r.first_bad matches Some(s) && s@ == ordered[b].revision@ && names(
                    r.culprit_files@,
                ) == kept_files(ordered[b].changed_files@, contract.relevant_files@),
                None => r.first_bad is None && r.culprit_files@.len() == 0,
            }
            &&& match last_good_position(history@, *contract, probes@) {
                Some(g) => r.last_good matches Some(s) && s@ == ordered[g].revision@,
                None => r.last_good is None,
            }
        }),
        r.complete == (first_bad_position(history@, *contract, probes@) is Some
            && last_good_position(history@, *contract, probes@) is Some),
        names(r.reasons@) == incomplete_reasons(
            first_bad_position(history@, *contract, probes@),
            last_good_position(history@, *contract, probes@),
        ),
{
    let ordered = pinned_positions(history, &contract.environment_hash);
    let ghost pin = pinned(history@, contract.environment_hash@);
    let first_bad = first_probed(history, &ordered, probes, ProbeVerdict::Bad, Ghost(pin));
    let mut reasons: Vec<String> = Vec::new();
    match first_bad {
        None => {
            reasons.push("no verified bad revision in the pinned environment".to_owned());
            proof {
                assert(names(reasons@) == seq![no_bad_reason()]);
            }
            let none: Vec<String> = Vec::new();
            proof {
                assert(names(none@) =~= Seq::<Seq<char>>::empty());
            }
            BisectResult {
                first_bad: None,
                last_good: None,
                culprit_files: none,
                complete: false,
                reasons,
            }
        },
        Some(b) => {
            proof {
                lemma_first_with_verdict_range(pin, probes@, ProbeVerdict::Bad, 0);
            }
            let bad_rev = &history[ordered[b]];
            let culprit_files = keep_relevant(&bad_rev.changed_files, &contract.relevant_files);
            proof {
                assert(is_name_set(history@[ordered@[b as int] as int].changed_files@));
                lemma_kept_files_sorted(bad_rev.changed_files@, contract.relevant_files@);
            }
            let last_good = last_probed_before(
                history,
                &ordered,
                probes,
                ProbeVerdict::Good,
                b,
                Ghost(pin),
            );
            match last_good {
                None => {
                    reasons.push(
                        "no verified good predecessor in the pinned environment".to_owned(),
                    );
                    proof {
                        assert(names(reasons@) == seq![no_good_reason()]);
                    }
                    BisectResult {
                        first_bad: Some(bad_rev.revision.clone()),
                        last_good: None,
                        culprit_files,
                        complete: false,
                        reasons,
                    }
                },
                Some(g) => {
                    proof {
                        lemma_last_with_verdict_range(pin, probes@, ProbeVerdict::Good, b as int);
                        assert(names(reasons@) == Seq::<Seq<char>>::empty());
                    }
                    BisectResult {
                        first_bad: Some(bad_rev.revision.clone()),
                        last_good: Some(history[ordered[g]].revision.clone()),
                        culprit_files,
                        complete: true,
                        reasons,
                    }
                },
            }
        },
    }
}

/// The entries of a patch stack that touch a relevant file, in stack order.
pub open spec fn touching_entries(stack: Seq<PatchStackEntry>, relevant: Seq<String>) -> Seq<
    PatchStackEntry,
>
    decreases stack.len(),
{
    if stack.len() == 0 {
        Seq::empty()
    } else {
        let rest = touching_entries(stack.drop_last(), relevant);
        if shares_name(stack.last().touched_files@, relevant) {
            rest.push(stack.last())
        } else {
            rest
        }
    }
}

/// The entries of a patch stack that touch one of the relevant files, in stack order.
pub fn patch_stack_candidates<'a>(stack: &'a [PatchStackEntry], relevant_files: &Vec<String>) -> (r:
    Vec<&'a PatchStackEntry>)
    requires
        is_name_set(relevant_files@),
        forall|i: int| 0 <= i < stack@.len() ==> is_name_set(#[trigger] stack@[i].touched_files@),
    ensures
        r@.len() == touching_entries(stack@, relevant_files@).len(),
        forall|k: int|
            0 <= k < r@.len() ==> *r@[k] == #[trigger] touching_entries(stack@, relevant_files@)[k],
{
    let mut out: Vec<&'a PatchStackEntry> = Vec::new();
    let mut i: usize = 0;
    while i < stack.len()
        invariant
            i <= stack@.len(),
            out@.len() == touching_entries(stack@.take(i as int), relevant_files@).len(),
            forall|k: int|
                0 <= k < out@.len() ==> *out@[k] == #[trigger] touching_entries(
                    stack@.take(i as int),
                    relevant_files@,
                )[k],
        decreases stack@.len() - i,
    {
        proof {
            assert(stack@.take(i + 1).drop_last() == stack@.take(i as int));
            assert(stack@.take(i + 1).last() == stack@[i as int]);
        }
        if shares_any(&stack[i].touched_files, relevant_files) {
            out.push(&stack[i]);
        }
        i += 1;
    }
    proof {
        assert(stack@.take(i as int) == stack@);
    }
    out
}

proof fn lemma_first_with_verdict_range(
    s: Seq<RevisionCandidate>,
    probes: Seq<BisectProbe>,
    v: ProbeVerdict,
    from: int,
)
    ensures
        first_with_verdict(s, probes, v, from) matches Some(k) ==> from <= k < s.len(),
    decreases s.len() - from,
{
    if 0 <= from < s.len() {
        lemma_first_with_verdict_range(s, probes, v, from + 1);
    }
}

proof fn lemma_last_with_verdict_range(
    s: Seq<RevisionCandidate>,
    probes: Seq<BisectProbe>,
    v: ProbeVerdict,
    before: int,
)
    ensures
        last_with_verdict_before(s, probes, v, before) matches Some(k) ==> 0 <= k < before,
    decreases before,
{
    if 0 < before <= s.len() {
        lemma_last_with_verdict_range(s, probes, v, before - 1);
    }
}

proof fn lemma_plan_candidates_are_candidates(
    history: Seq<RevisionCandidate>,
    lo: int,
    hi: int,
    contract: BisectContract,
    probes: Seq<(String, ProbeVerdict)>,
)
    requires
        0 <= lo,
        hi <= history.len(),
    ensures
        forall|k: int|
            0 <= k < plan_candidates(history, lo, hi, contract, probes).len() ==> is_plan_candidate(
                history[#[trigger] plan_candidates(history, lo, hi, contract, probes)[k]],
                contract,
                probes,
            ),
    decreases hi - lo,
{
    if hi > lo {
        lemma_plan_candidates_are_candidates(history, lo, hi - 1, contract, probes);
        let rest = plan_candidates(history, lo, hi - 1, contract, probes);
        let all = plan_candidates(history, lo, hi, contract, probes);
        assert forall|k: int| 0 <= k < all.len() implies is_plan_candidate(
            history[#[trigger] all[k]],
            contract,
            probes,
        ) by {
            if k < rest.len() {
                assert(all[k] == rest[k]);
            }
        }
    }
}

/// The revision the planner proposes lies strictly between the good and the bad
/// revision, was built in the pinned environment, is still unresolved, and touches
/// a relevant file when the contract names any.
pub proof fn lemma_planned_revision_is_between_and_open(
    history: Seq<RevisionCandidate>,
    contract: BisectContract,
    probes: Seq<(String, ProbeVerdict)>,
)
    ensures
        planned_position(history, contract, probes) matches Some(k) ==> {
            let g = last_position(history, contract.good_revision@)->0;
            let b = last_position(history, contract.bad_revision@)->0;
            &&& (g < k < b || b < k < g)
            &&& is_plan_candidate(history[k], contract, probes)
        },
{
    if planned_position(history, contract, probes) is Some {
        lemma_last_position_names(history, contract.good_revision@);
        lemma_last_position_names(history, contract.bad_revision@);
        let g = last_position(history, contract.good_revision@)->0;
        let b = last_position(history, contract.bad_revision@)->0;
        let lo = if g < b {
            g
        } else {
            b
        };
        let hi = if g < b {
            b
        } else {
            g
        };
        lemma_plan_candidates_range(history, lo + 1, hi, contract, probes);
        lemma_plan_candidates_are_candidates(history, lo + 1, hi, contract, probes);
        let c = plan_candidates(history, lo + 1, hi, contract, probes);
        assert(c[(c.len() / 2) as int] == planned_position(history, contract, probes)->0);
    }
}

proof fn lemma_first_with_verdict_spec(
    s: Seq<RevisionCandidate>,
    probes: Seq<BisectProbe>,
    v: ProbeVerdict,
    from: int,
)
    requires
        0 <= from,
    ensures
        first_with_verdict(s, probes, v, from) matches Some(k) ==> from <= k < s.len()
            && probe_verdict(probes, s[k].revision@) == Some(v) && forall|j: int|
            from <= j < k ==> probe_verdict(probes, (#[trigger] s[j]).revision@) != Some(v),
    decreases s.len() - from,
{
    if from < s.len() {
        lemma_first_with_verdict_spec(s, probes, v, from + 1);
    }
}

proof fn lemma_last_with_verdict_spec(
    s: Seq<RevisionCandidate>,
    probes: Seq<BisectProbe>,
    v: ProbeVerdict,
    before: int,
)
    ensures
        last_with_verdict_before(s, probes, v, before) matches Some(k) ==> 0 <= k < before
            && probe_verdict(probes, s[k].revision@) == Some(v) && forall|j: int|
            k < j < before ==> probe_verdict(probes, (#[trigger] s[j]).revision@) != Some(v),
    decreases before,
{
    if 0 < before <= s.len() {
        lemma_last_with_verdict_spec(s, probes, v, before - 1);
    }
}

/// A bisection result names, among the revisions of the pinned environment, a
/// first bad revision with no bad one before it, and a last good revision before
/// it with no good one in between.
pub proof fn lemma_analysis_brackets_the_regression(
    history: Seq<RevisionCandidate>,
    contract: BisectContract,
    probes: Seq<BisectProbe>,
)
    ensures
        ({
            let ordered = pinned(history, contract.environment_hash@);
            &&& first_bad_position(history, contract, probes) matches Some(b) ==> {
                &&& 0 <= b < ordered.len()
                &&& probe_verdict(probes, ordered[b].revision@) == Some(ProbeVerdict::Bad)
                &&& forall|j: int|
                    0 <= j < b ==> probe_verdict(probes, (#[trigger] ordered[j]).revision@) != Some(
                        ProbeVerdict::Bad,
                    )
            }
            &&& last_good_position(history, contract, probes) matches Some(g) ==> {
                &&& first_bad_position(history, contract, probes) matches Some(b) && 0 <= g < b
                &&& probe_verdict(probes, ordered[g].revision@) == Some(ProbeVerdict::Good)
                &&& forall|j: int|
                    g < j < first_bad_position(history, contract, probes)->0 ==> probe_verdict(
                        probes,
                        (#[trigger] ordered[j]).revision@,
                    ) != Some(ProbeVerdict::Good)
            }
        }),
{
    let ordered = pinned(history, contract.environment_hash@);
    lemma_first_with_verdict_spec(ordered, probes, ProbeVerdict::Bad, 0);
    if first_bad_position(history, contract, probes) is Some {
        let b = first_bad_position(history, contract, probes)->0;
        lemma_last_with_verdict_spec(ordered, probes, ProbeVerdict::Good, b);
    }
}

proof fn lemma_plan_candidates_range(
    history: Seq<RevisionCandidate>,
    lo: int,
    hi: int,
    contract: BisectContract,
    probes: Seq<(String, ProbeVerdict)>,
)
    ensures
        forall|k: int|
            0 <= k < plan_candidates(history, lo, hi, contract, probes).len() ==> lo
                <= #[trigger] plan_candidates(history, lo, hi, contract, probes)[k] < hi
                && is_plan_candidate(history[plan_candidates(history, lo, hi, contract, probes)[k]], contract, probes),
    decreases hi - lo,
{
    if hi > lo {
        lemma_plan_candidates_range(history, lo, hi - 1, contract, probes);
        let rest = plan_candidates(history, lo, hi - 1, contract, probes);
        let all = plan_candidates(history, lo, hi, contract, probes);
        assert forall|k: int| 0 <= k < all.len() implies lo <= #[trigger] all[k] < hi
            && is_plan_candidate(history[all[k]], contract, probes) by {
            if k < rest.len() {
                assert(all[k] == rest[k]);
            }
        }
    }
}

proof fn lemma_last_position_names(history: Seq<RevisionCandidate>, name: Seq<char>)
    ensures
        last_position(history, name) matches Some(k) ==> 0 <= k < history.len()
            && history[k].revision@ == name,
    decreases history.len(),
{
    if history.len() > 0 && history.last().revision@ != name {
        lemma_last_position_names(history.drop_last(), name);
    }
}


/// What a revision the planner proposes must be: built in the contract's
/// environment, strictly between the good and the bad revision, not yet probed
/// good or bad, and touching a relevant file when the contract names any.
pub open spec fn revision_may_be_probed(
    history: Seq<RevisionCandidate>,
    contract: BisectContract,
    probes: Seq<(String, ProbeVerdict)>,
    k: int,
) -> bool {
    &&& history[k].environment_hash@ == contract.environment_hash@
    &&& recorded_verdict(probes, history[k].revision@) != Some(ProbeVerdict::Good)
    &&& recorded_verdict(probes, history[k].revision@) != Some(ProbeVerdict::Bad)
    &&& (contract.relevant_files@.len() > 0 ==> exists|i: int, j: int|
        0 <= i < history[k].changed_files@.len() && 0 <= j < contract.relevant_files@.len()
            && (#[trigger] history[k].changed_files@[i])@ == (#[trigger] contract.relevant_files@[j])@)
    &&& exists|g: int, b: int|
        last_position(history, contract.good_revision@) == Some(g) && last_position(
            history,
            contract.bad_revision@,
        ) == Some(b) && ((g < k < b) || (b < k < g))
}

/// The revision the planner proposes is one that may be probed: in the contract's
/// environment, strictly inside the range, unresolved, and relevant.
pub proof fn lemma_planned_revision_may_be_probed(
    history: Seq<RevisionCandidate>,
    contract: BisectContract,
    probes: Seq<(String, ProbeVerdict)>,
)
    ensures
        planned_position(history, contract, probes) matches Some(k) ==> 0 <= k < history.len()
            && revision_may_be_probed(history, contract, probes, k),
{
    match (
        last_position(history, contract.good_revision@),
        last_position(history, contract.bad_revision@),
    ) {
        (Some(g), Some(b)) => {
            let lo = if g < b { g } else { b };
            let hi = if g < b { b } else { g };
            lemma_last_position_names(history, contract.good_revision@);
            lemma_last_position_names(history, contract.bad_revision@);
            let c = plan_candidates(history, lo + 1, hi, contract, probes);
            lemma_plan_candidates_range(history, lo + 1, hi, contract, probes);
            if c.len() > 0 {
                let m = (c.len() / 2) as int;
                let k = c[m];
                assert(lo + 1 <= k < hi && is_plan_candidate(history[k], contract, probes));
                if contract.relevant_files@.len() > 0 {
                    assert(shares_name(history[k].changed_files@, contract.relevant_files@));
                    let i = choose|i: int|
                        0 <= i < history[k].changed_files@.len() && has_name(
                            contract.relevant_files@,
                            (#[trigger] history[k].changed_files@[i])@,
                        );
                    let j = choose|j: int|
                        0 <= j < contract.relevant_files@.len() && (#[trigger] contract.relevant_files@[j])@
                            == history[k].changed_files@[i]@;
                    assert(history[k].changed_files@[i]@ == contract.relevant_files@[j]@);
                }
            }
        },
        _ => {},
    }
}


proof fn lemma_no_candidates(
    history: Seq<RevisionCandidate>,
    lo: int,
    hi: int,
    contract: BisectContract,
    probes: Seq<(String, ProbeVerdict)>,
)
    requires
        plan_candidates(history, lo, hi, contract, probes).len() == 0,
    ensures
        forall|k: int| lo <= k < hi ==> !is_plan_candidate(#[trigger] history[k], contract, probes),
    decreases hi - lo,
{
    if hi > lo {
        let rest = plan_candidates(history, lo, hi - 1, contract, probes);
        if is_plan_candidate(history[hi - 1], contract, probes) {
            assert(plan_candidates(history, lo, hi, contract, probes).len() == rest.len() + 1);
        }
        lemma_no_candidates(history, lo, hi - 1, contract, probes);
    }
}

/// The planner proposes nothing only when no revision may be probed: every
/// revision of the history is outside the range, in another environment, already
/// probed good or bad, or touching no relevant file.
pub proof fn lemma_no_plan_means_nothing_to_probe(
    history: Seq<RevisionCandidate>,
    contract: BisectContract,
    probes: Seq<(String, ProbeVerdict)>,
)
    ensures
        planned_position(history, contract, probes) is None ==> forall|k: int|
            0 <= k < history.len() ==> !#[trigger] revision_may_be_probed(history, contract, probes, k),
{
    if planned_position(history, contract, probes) is None {
        assert forall|k: int| 0 <= k < history.len() implies !#[trigger] revision_may_be_probed(
            history,
            contract,
            probes,
            k,
        ) by {
            if revision_may_be_probed(history, contract, probes, k) {
                let g = last_position(history, contract.good_revision@)->0;
                let b = last_position(history, contract.bad_revision@)->0;
                let lo = if g < b { g } else { b };
                let hi = if g < b { b } else { g };
                lemma_no_candidates(history, lo + 1, hi, contract, probes);
                assert(lo + 1 <= k < hi);
                assert(!is_plan_candidate(history[k], contract, probes));
                if contract.relevant_files@.len() > 0 {
                    let (i, j) = choose|i: int, j: int|
                        0 <= i < history[k].changed_files@.len() && 0 <= j < contract.relevant_files@.len()
                            && (#[trigger] history[k].changed_files@[i])@ == (
                        #[trigger] contract.relevant_files@[j])@;
                    assert(has_name(contract.relevant_files@, history[k].changed_files@[i]@));
                    assert(shares_name(history[k].changed_files@, contract.relevant_files@));
                }
                assert(unresolved(recorded_verdict(probes, history[k].revision@)));
            }
        }
    }
}

} // verus!
