//! Compiling a set of contracts for autonomous verification: their effective
//! forms, refused when one cannot be compiled or two of the same scope conflict.
//!
//! Whether two predicates conflict is decided by the caller's function: the
//! predicates compare measured values, which this crate does not hold. What is
//! stated here holds of whatever that function answers, each pair being asked at
//! most once.
use vstd::prelude::*;
use crate::contracts::{
    effective_matches, lookup, opt_view, resolve, scope_view, ContractCompileError, texts, AutonomousContractCompileError, ContractConflict,
    ContractRegistry, ContractScope, ContractStrength, ContractVerdict, UxContract,
};
use crate::content_addressed::{sorted_set_of, sorted_unique};
use crate::text::str_eq;

verus! {

/// Two contracts have the same scope: the same routes, regions, personas and
/// viewports.
pub open spec fn same_scope(a: ContractScope, b: ContractScope) -> bool {
    scope_view(a) == scope_view(b)
}

/// `(a, b)` comes before `(c, d)` in the order of rows, then columns.
pub open spec fn pair_before(p: (int, int), q: (int, int)) -> bool {
    p.0 < q.0 || (p.0 == q.0 && p.1 < q.1)
}

/// Every pair of contracts of the same scope, the earlier first, was asked about,
/// and `asked` holds the answer.
pub open spec fn pairs_asked<P, F: Fn(&P, &P) -> bool>(
    cs: Seq<UxContract<P>>,
    conflicting: F,
    asked: Map<(int, int), bool>,
) -> bool {
    forall|i: int, j: int|
        #![trigger same_scope(cs[i].scope, cs[j].scope)]
        0 <= i < j < cs.len() && same_scope(cs[i].scope, cs[j].scope) ==> asked.contains_key((i, j))
            && conflicting.ensures((&cs[i].predicate, &cs[j].predicate), asked[(i, j)])
}

/// `r` lists, in order, a conflict for each pair at `at` of the same scope whose
/// answer in `asked` was yes, with `reason`.
pub open spec fn pairs_listed<P>(
    cs: Seq<UxContract<P>>,
    asked: Map<(int, int), bool>,
    at: Seq<(int, int)>,
    reason: Seq<char>,
    r: Seq<ContractConflict>,
) -> bool {
    &&& at.len() == r.len()
    &&& forall|k: int|
        #![trigger at[k]]
        0 <= k < at.len() ==> 0 <= at[k].0 < at[k].1 < cs.len() && same_scope(
            cs[at[k].0].scope,
            cs[at[k].1].scope,
        ) && asked.contains_key(at[k]) && asked[at[k]] && r[k].left@ == cs[at[k].0].id@ && r[k].right@
            == cs[at[k].1].id@ && r[k].reason@ == reason
    &&& forall|k1: int, k2: int| 0 <= k1 < k2 < at.len() ==> pair_before(#[trigger] at[k1], #[trigger] at[k2])
    &&& forall|i: int, j: int|
        #![trigger asked[(i, j)]]
        0 <= i < j < cs.len() && same_scope(cs[i].scope, cs[j].scope) && asked.contains_key((i, j))
            && asked[(i, j)] ==> exists|k: int| 0 <= k < at.len() && at[k] == (i, j)
}

/// `r` is the list of conflicts among `cs`: one for each pair of contracts of the
/// same scope, the earlier first, whose predicates `conflicting` finds
/// incompatible, in the order of the pairs, with `reason`.
pub open spec fn conflicts_found<P, F: Fn(&P, &P) -> bool>(
    cs: Seq<UxContract<P>>,
    conflicting: F,
    reason: Seq<char>,
    r: Seq<ContractConflict>,
) -> bool {
    exists|asked: Map<(int, int), bool>, at: Seq<(int, int)>|
        #![trigger pairs_listed(cs, asked, at, reason, r)]
        pairs_asked(cs, conflicting, asked) && pairs_listed(cs, asked, at, reason, r)
}

fn same_texts(a: &Vec<String>, b: &Vec<String>) -> (r: bool)
    ensures
        r == (texts(a@) == texts(b@)),
{
    if a.len() != b.len() {
        proof {
            assert(texts(a@).len() != texts(b@).len());
        }
        return false;
    }
    let mut i: usize = 0;
    while i < a.len()
        invariant
            a@.len() == b@.len(),
            i <= a@.len(),
            forall|k: int| 0 <= k < i ==> (#[trigger] a@[k])@ == b@[k]@,
        decreases a@.len() - i,
    {
        if !str_eq(a[i].as_str(), b[i].as_str()) {
            proof {
                assert(texts(a@)[i as int] != texts(b@)[i as int]);
            }
            return false;
        }
        i += 1;
    }
    proof {
        assert(texts(a@) =~= texts(b@));
    }
    true
}

/// Whether two scopes are the same.
pub fn scopes_equal(a: &ContractScope, b: &ContractScope) -> (r: bool)
    ensures
        r == same_scope(*a, *b),
{
    same_texts(&a.routes, &b.routes) && same_texts(&a.regions, &b.regions) && same_texts(
        &a.personas,
        &b.personas,
    ) && same_texts(&a.viewports, &b.viewports)
}

/// The conflicts among `contracts`: for each pair of the same scope, the earlier
/// first, whose predicates `conflicting` finds incompatible, a conflict with
/// `reason`, in the order of the pairs.
pub fn pairwise_conflicts<P, F: Fn(&P, &P) -> bool>(
    contracts: &Vec<UxContract<P>>,
    conflicting: &F,
    reason: &str,
) -> (r: Vec<ContractConflict>)
    requires
        forall|a: &P, b: &P| conflicting.requires((a, b)),
    ensures
        conflicts_found(contracts@, *conflicting, reason@, r@),
{
    let ghost cs = contracts@;
    let n = contracts.len();
    let mut out: Vec<ContractConflict> = Vec::new();
    let ghost mut asked: Map<(int, int), bool> = Map::empty();
    let ghost mut at: Seq<(int, int)> = Seq::empty();
    let mut i: usize = 0;
    while i < n
        invariant
            n == cs.len(),
            cs == contracts@,
            i <= n,
            forall|a: &P, b: &P| conflicting.requires((a, b)),
            forall|a: int, b: int|
                #![trigger same_scope(cs[a].scope, cs[b].scope)]
                0 <= a < b < n && a < i && same_scope(cs[a].scope, cs[b].scope) ==> asked.contains_key(
                    (a, b),
                ) && conflicting.ensures((&cs[a].predicate, &cs[b].predicate), asked[(a, b)]),
            pairs_listed(cs, asked, at, reason@, out@),
            forall|k: int| 0 <= k < at.len() ==> (#[trigger] at[k]).0 < i,
            forall|a: int, b: int| #![trigger asked.contains_key((a, b))] asked.contains_key((a, b)) ==> 0 <= a < i && a < b < n,
        decreases n - i,
    {
        let mut j: usize = i + 1;
        while j < n
            invariant
                n == cs.len(),
                cs == contracts@,
                i < n,
                i + 1 <= j <= n,
                forall|a: &P, b: &P| conflicting.requires((a, b)),
                forall|a: int, b: int|
                    #![trigger same_scope(cs[a].scope, cs[b].scope)]
                    0 <= a < b < n && (a < i || (a == i && b < j)) && same_scope(cs[a].scope, cs[b].scope)
                        ==> asked.contains_key((a, b)) && conflicting.ensures(
                        (&cs[a].predicate, &cs[b].predicate),
                        asked[(a, b)],
                    ),
                pairs_listed(cs, asked, at, reason@, out@),
                forall|k: int| 0 <= k < at.len() ==> pair_before(#[trigger] at[k], (i as int, j as int)),
                forall|a: int, b: int|
                    #![trigger asked.contains_key((a, b))]
                    asked.contains_key((a, b)) ==> 0 <= a < b < n && pair_before((a, b), (i as int, j as int)),
            decreases n - j,
        {
            if scopes_equal(&contracts[i].scope, &contracts[j].scope) {
                let answer = conflicting(&contracts[i].predicate, &contracts[j].predicate);
                let ghost before_asked = asked;
                let ghost before_at = at;
                let ghost before_out = out@;
                proof {
                    asked = asked.insert((i as int, j as int), answer);
                }
                if answer {
                    out.push(
                        ContractConflict {
                            left: contracts[i].id.clone(),
                            right: contracts[j].id.clone(),
                            reason: reason.to_owned(),
                        },
                    );
                    proof {
                        at = at.push((i as int, j as int));
                    }
                }
                proof {
                    lemma_listed_step(cs, before_asked, before_at, reason@, before_out, asked, at, out@, i as int, j as int, answer);
                }
            }
            j += 1;
        }
        i += 1;
    }
    proof {
        assert(pairs_asked(cs, *conflicting, asked));
    }
    out
}

/// Asking about one more pair keeps the listing exact.
proof fn lemma_listed_step<P>(
    cs: Seq<UxContract<P>>,
    asked: Map<(int, int), bool>,
    at: Seq<(int, int)>,
    reason: Seq<char>,
    r: Seq<ContractConflict>,
    asked2: Map<(int, int), bool>,
    at2: Seq<(int, int)>,
    r2: Seq<ContractConflict>,
    i: int,
    j: int,
    answer: bool,
)
    requires
        0 <= i < j < cs.len(),
        same_scope(cs[i].scope, cs[j].scope),
        pairs_listed(cs, asked, at, reason, r),
        forall|k: int| 0 <= k < at.len() ==> pair_before(#[trigger] at[k], (i, j)),
        forall|a: int, b: int|
            #![trigger asked.contains_key((a, b))]
            asked.contains_key((a, b)) ==> 0 <= a < b < cs.len() && pair_before((a, b), (i, j)),
        asked2 == asked.insert((i, j), answer),
        answer ==> at2 == at.push((i, j)) && r2.len() == r.len() + 1 && (forall|k: int|
            0 <= k < r.len() ==> r2[k] == r[k]) && r2[r.len() as int].left@ == cs[i].id@
            && r2[r.len() as int].right@ == cs[j].id@ && r2[r.len() as int].reason@ == reason,
        !answer ==> at2 == at && r2 == r,
    ensures
        pairs_listed(cs, asked2, at2, reason, r2),
        forall|k: int| 0 <= k < at2.len() ==> pair_before(#[trigger] at2[k], (i, j + 1)),
        forall|a: int, b: int|
            #![trigger asked2.contains_key((a, b))]
            asked2.contains_key((a, b)) ==> 0 <= a < b < cs.len() && pair_before((a, b), (i, j + 1)),
{
    assert forall|k: int| 0 <= k < at2.len() implies pair_before(#[trigger] at2[k], (i, j + 1)) by {
        if k < at.len() {
            assert(at2[k] == at[k]);
            assert(pair_before(at[k], (i, j)));
        }
    }
    assert forall|a: int, b: int| #![trigger asked2.contains_key((a, b))] asked2.contains_key((a, b)) implies 0 <= a < b
        < cs.len() && pair_before((a, b), (i, j + 1)) by {
        if (a, b) != (i, j) {
            assert(asked.contains_key((a, b)));
        }
    }
    assert forall|k: int|
        #![trigger at2[k]]
        0 <= k < at2.len() implies 0 <= at2[k].0 < at2[k].1 < cs.len() && same_scope(
            cs[at2[k].0].scope,
            cs[at2[k].1].scope,
        ) && asked2.contains_key(at2[k]) && asked2[at2[k]] && r2[k].left@ == cs[at2[k].0].id@
            && r2[k].right@ == cs[at2[k].1].id@ && r2[k].reason@ == reason by {
        if k < at.len() {
            assert(at2[k] == at[k]);
            assert(r2[k] == r[k]);
            assert(pair_before(at[k], (i, j)));
            assert(at[k] != (i, j));
        }
    }
    assert forall|k1: int, k2: int| 0 <= k1 < k2 < at2.len() implies pair_before(
        #[trigger] at2[k1],
        #[trigger] at2[k2],
    ) by {
        if k2 < at.len() {
            assert(at2[k1] == at[k1] && at2[k2] == at[k2]);
        } else {
            assert(at2[k1] == at[k1]);
        }
    }
    assert forall|a: int, b: int|
        #![trigger asked2[(a, b)]]
        0 <= a < b < cs.len() && same_scope(cs[a].scope, cs[b].scope) && asked2.contains_key((a, b))
            && asked2[(a, b)] implies exists|k: int| 0 <= k < at2.len() && at2[k] == (a, b) by {
        if (a, b) == (i, j) {
            assert(at2[at.len() as int] == (a, b));
        } else {
            assert(asked.contains_key((a, b)) && asked[(a, b)]);
            let k = choose|k: int| 0 <= k < at.len() && at[k] == (a, b);
            assert(at2[k] == (a, b));
        }
    }
}


/// The effective contracts compiled for autonomous verification, and their ids.
#[derive(Debug, Clone)]
pub struct CompiledContractSet<P> {
    pub contracts: Vec<UxContract<P>>,
    pub contract_ids: Vec<String>,
}

/// The ids a compilation covers: every registered id in order when none is
/// requested, else the requested ids sorted, each once.
pub open spec fn compile_ids<P>(reg: Seq<UxContract<P>>, requested: Seq<Seq<char>>, ids: Seq<Seq<char>>) -> bool {
    if requested.len() == 0 {
        ids == reg.map_values(|c: UxContract<P>| c.id@)
    } else {
        sorted_set_of(ids, requested)
    }
}

/// The reason given for a conflict between two effective contracts.
pub open spec fn effective_conflict_reason() -> Seq<char> {
    "effective scope contains incompatible predicates"@
}

/// The contract registered under `id` compiles: it is registered and its
/// inheritance chain ends.
pub open spec fn compiles<P>(reg: Seq<UxContract<P>>, id: Seq<char>) -> bool {
    match lookup(reg, id) {
        None => false,
        Some(c) => resolve(
            reg,
            scope_view(c.scope),
            c.provenance@,
            opt_view(c.inherited_from),
            set![c.id@],
            reg.len(),
        ) is Done,
    }
}

/// `es` are the effective contracts with ids `ids`, in order.
pub open spec fn compiled_as<P>(reg: Seq<UxContract<P>>, ids: Seq<Seq<char>>, es: Seq<UxContract<P>>) -> bool where P: Clone {
    &&& es.len() == ids.len()
    &&& forall|m: int| 0 <= m < ids.len() ==> #[trigger] effective_matches(reg, ids[m], Ok(es[m]))
}

/// The contract with id `ids[k]` is the first that does not compile, with error `e`.
pub open spec fn first_failure<P>(reg: Seq<UxContract<P>>, ids: Seq<Seq<char>>, k: int, e: ContractCompileError) -> bool where P: Clone {
    &&& 0 <= k < ids.len()
    &&& forall|m: int| 0 <= m < k ==> #[trigger] compiles(reg, ids[m])
    &&& effective_matches(reg, ids[k], Err(e))
}

/// The outcome of compiling the contracts with ids `ids`: the first that cannot
/// be compiled refuses the set with its error; else every conflict between two of
/// the same scope refuses it; else the set is the effective contracts, in order.
pub open spec fn compiled<P, F: Fn(&P, &P) -> bool>(
    reg: Seq<UxContract<P>>,
    ids: Seq<Seq<char>>,
    conflicting: F,
    r: Result<CompiledContractSet<P>, AutonomousContractCompileError>,
) -> bool where P: Clone {
    match r {
        Err(AutonomousContractCompileError::Contract(e)) => exists|k: int|
            #[trigger] first_failure(reg, ids, k, e),
        Err(AutonomousContractCompileError::Conflict(list)) => list@.len() > 0 && exists|
            es: Seq<UxContract<P>>,
        |
            #[trigger] compiled_as(reg, ids, es) && conflicts_found(
                es,
                conflicting,
                effective_conflict_reason(),
                list@,
            ),
        Ok(set) => compiled_as(reg, ids, set.contracts@) && texts(set.contract_ids@) == ids
            && conflicts_found(set.contracts@, conflicting, effective_conflict_reason(), Seq::empty()),
    }
}

/// The reason given for a conflict between two registered contracts.
pub open spec fn registered_conflict_reason() -> Seq<char> {
    "same scope contains incompatible predicates"@
}

impl<P: Clone> ContractRegistry<P> {
    /// The conflicts among the registered contracts: each pair of the same scope,
    /// in the order of their ids, whose predicates `conflicting` finds incompatible.
    pub fn conflicts<F: Fn(&P, &P) -> bool>(&self, conflicting: F) -> (r: Vec<ContractConflict>)
        requires
            forall|a: &P, b: &P| conflicting.requires((a, b)),
        ensures
            conflicts_found(self.entries(), conflicting, registered_conflict_reason(), r@),
    {
        pairwise_conflicts(self.contracts(), &conflicting, "same scope contains incompatible predicates")
    }

    /// Compiles the contracts with the requested ids (every registered one when
    /// none is requested) into their effective forms, refusing the set when one
    /// cannot be compiled or when two of the same scope conflict.
    pub fn compile_autonomous_subset<F: Fn(&P, &P) -> bool>(
        &self,
        requested_ids: &Vec<String>,
        conflicting: F,
    ) -> (r: Result<CompiledContractSet<P>, AutonomousContractCompileError>)
        requires
            self.wf(),
            forall|a: &P, b: &P| conflicting.requires((a, b)),
        ensures
            exists|ids: Seq<Seq<char>>|
                compile_ids(self.entries(), texts(requested_ids@), ids) && compiled(
                    self.entries(),
                    ids,
                    conflicting,
                    r,
                ),
    {
        let ghost reg = self.entries();
        let ids: Vec<String> = if requested_ids.len() == 0 {
            let registered = self.contracts();
            let mut all: Vec<String> = Vec::new();
            let mut i: usize = 0;
            while i < registered.len()
                invariant
                    registered@ == reg,
                    i <= reg.len(),
                    texts(all@) == reg.take(i as int).map_values(|c: UxContract<P>| c.id@),
                decreases reg.len() - i,
            {
                all.push(registered[i].id.clone());
                proof {
                    assert(reg.take(i + 1).map_values(|c: UxContract<P>| c.id@) =~= reg.take(
                        i as int,
                    ).map_values(|c: UxContract<P>| c.id@).push(reg[i as int].id@));
                    assert(texts(all@) =~= texts(all@.drop_last()).push(all@.last()@));
                }
                i += 1;
            }
            proof {
                assert(reg.take(i as int) == reg);
                assert(compile_ids(reg, texts(requested_ids@), texts(all@)));
            }
            all
        } else {
            let sorted = sorted_unique(requested_ids);
            proof {
                assert(texts(sorted@) == crate::content_addressed::hashes(sorted@));
                assert(texts(requested_ids@) == crate::content_addressed::hashes(requested_ids@));
                assert(compile_ids(reg, texts(requested_ids@), texts(sorted@)));
            }
            sorted
        };
        let ghost want = texts(ids@);
        let mut contracts: Vec<UxContract<P>> = Vec::new();
        let mut k: usize = 0;
        while k < ids.len()
            invariant
                self.wf(),
                reg == self.entries(),
                want == texts(ids@),
                compile_ids(reg, texts(requested_ids@), want),
                k <= ids@.len(),
                contracts@.len() == k,
                forall|m: int| 0 <= m < k ==> #[trigger] effective_matches(reg, want[m], Ok(contracts@[m])),
            decreases ids@.len() - k,
        {
            match self.effective_contract(ids[k].as_str()) {
                Ok(c) => {
                    contracts.push(c);
                },
                Err(e) => {
                    proof {
                        assert(want[k as int] == ids@[k as int]@);
                        assert forall|m: int| 0 <= m < k implies #[trigger] compiles(reg, want[m]) by {
                            assert(effective_matches(reg, want[m], Ok(contracts@[m])));
                        }
                        assert(first_failure(reg, want, k as int, e));
                        assert(compiled(reg, want, conflicting, Err(AutonomousContractCompileError::Contract(e))));
                    }
                    return Err(AutonomousContractCompileError::Contract(e));
                },
            }
            proof {
                assert(want[k as int] == ids@[k as int]@);
            }
            k += 1;
        }
        let conflicts = pairwise_conflicts(&contracts, &conflicting, "effective scope contains incompatible predicates");
        proof {
            assert(conflicts_found(contracts@, conflicting, effective_conflict_reason(), conflicts@));
            assert(compiled_as(reg, want, contracts@));
        }
        if conflicts.len() > 0 {
            proof {
                assert(compiled(reg, want, conflicting, Err(AutonomousContractCompileError::Conflict(conflicts))));
            }
            return Err(AutonomousContractCompileError::Conflict(conflicts));
        }
        let mut contract_ids: Vec<String> = Vec::new();
        let mut m: usize = 0;
        while m < contracts.len()
            invariant
                m <= contracts@.len(),
                contracts@.len() == want.len(),
                reg == self.entries(),
                forall|q: int| 0 <= q < contracts@.len() ==> #[trigger] effective_matches(reg, want[q], Ok(contracts@[q])),
                contract_ids@.len() == m,
                forall|q: int| 0 <= q < m ==> (#[trigger] contract_ids@[q])@ == want[q],
            decreases contracts@.len() - m,
        {
            proof {
                assert(effective_matches(reg, want[m as int], Ok(contracts@[m as int])));
            }
            contract_ids.push(contracts[m].id.clone());
            m += 1;
        }
        proof {
            assert(texts(contract_ids@) =~= want);
            assert(conflicts@ =~= Seq::<ContractConflict>::empty());
        }
        let set = CompiledContractSet { contracts, contract_ids };
        proof {
            assert(compiled(reg, want, conflicting, Ok(set)));
        }
        Ok(set)
    }
}

/// The outcome of one contract in a compiled set.
#[derive(Debug, Clone)]
pub struct ContractEvaluationRecord {
    pub contract_id: String,
    pub strength: ContractStrength,
    pub verdict: ContractVerdict,
    pub explanation: String,
    pub evidence_ids: Vec<String>,
}

/// The outcomes of a compiled set: every record, the hard failures, hard unknowns
/// and soft warnings by contract id, and the number of passes and of exceptions.
#[derive(Debug, Clone)]
pub struct ContractEvaluationSummary {
    pub evaluated: Vec<ContractEvaluationRecord>,
    pub hard_failures: Vec<String>,
    pub hard_unknowns: Vec<String>,
    pub soft_warnings: Vec<String>,
    pub pass_count: usize,
    pub excepted_count: usize,
}

/// How an outcome is tallied: 0 a pass, 1 an exception, 2 a hard failure, 3 a hard
/// unknown, 4 a soft warning (a soft failure or unknown).
pub open spec fn tally(strength: ContractStrength, verdict: ContractVerdict) -> int {
    match verdict {
        ContractVerdict::Pass => 0,
        ContractVerdict::Excepted => 1,
        ContractVerdict::Fail => if strength == ContractStrength::Hard {
            2
        } else {
            4
        },
        ContractVerdict::Unknown => if strength == ContractStrength::Hard {
            3
        } else {
            4
        },
    }
}

/// The contract ids of the records tallied as `t`, in order.
pub open spec fn tallied(records: Seq<ContractEvaluationRecord>, t: int) -> Seq<Seq<char>>
    decreases records.len(),
{
    if records.len() == 0 {
        Seq::empty()
    } else if tally(records.last().strength, records.last().verdict) == t {
        tallied(records.drop_last(), t).push(records.last().contract_id@)
    } else {
        tallied(records.drop_last(), t)
    }
}

/// Tallies the outcomes of a compiled set, keeping every record in order.
pub fn summarize_evaluations(records: Vec<ContractEvaluationRecord>) -> (r: ContractEvaluationSummary)
    ensures
        r.evaluated@ == records@,
        texts(r.hard_failures@) == tallied(records@, 2),
        texts(r.hard_unknowns@) == tallied(records@, 3),
        texts(r.soft_warnings@) == tallied(records@, 4),
        r.pass_count == tallied(records@, 0).len(),
        r.excepted_count == tallied(records@, 1).len(),
{
    let mut hard_failures: Vec<String> = Vec::new();
    let mut hard_unknowns: Vec<String> = Vec::new();
    let mut soft_warnings: Vec<String> = Vec::new();
    let mut pass_count: usize = 0;
    let mut excepted_count: usize = 0;
    let mut i: usize = 0;
    proof {
        assert(records@.take(0) =~= Seq::<ContractEvaluationRecord>::empty());
    }
    while i < records.len()
        invariant
            i <= records@.len(),
            texts(hard_failures@) == tallied(records@.take(i as int), 2),
            texts(hard_unknowns@) == tallied(records@.take(i as int), 3),
            texts(soft_warnings@) == tallied(records@.take(i as int), 4),
            pass_count == tallied(records@.take(i as int), 0).len(),
            excepted_count == tallied(records@.take(i as int), 1).len(),
            pass_count <= i,
            excepted_count <= i,
        decreases records@.len() - i,
    {
        let ghost t = records@.take(i + 1);
        proof {
            assert(t.drop_last() == records@.take(i as int));
            assert(t.last() == records@[i as int]);
        }
        let record = &records[i];
        let ghost before_f = hard_failures@;
        let ghost before_u = hard_unknowns@;
        let ghost before_w = soft_warnings@;
        match (record.strength, record.verdict) {
            (_, ContractVerdict::Pass) => {
                pass_count += 1;
            },
            (_, ContractVerdict::Excepted) => {
                excepted_count += 1;
            },
            (ContractStrength::Hard, ContractVerdict::Fail) => {
                hard_failures.push(record.contract_id.clone());
                proof {
                    assert(texts(hard_failures@) =~= texts(before_f).push(record.contract_id@));
                }
            },
            (ContractStrength::Hard, ContractVerdict::Unknown) => {
                hard_unknowns.push(record.contract_id.clone());
                proof {
                    assert(texts(hard_unknowns@) =~= texts(before_u).push(record.contract_id@));
                }
            },
            (ContractStrength::Soft, _) => {
                soft_warnings.push(record.contract_id.clone());
                proof {
                    assert(texts(soft_warnings@) =~= texts(before_w).push(record.contract_id@));
                }
            },
        }
        i += 1;
    }
    proof {
        assert(records@.take(i as int) == records@);
    }
    ContractEvaluationSummary {
        evaluated: records,
        hard_failures,
        hard_unknowns,
        soft_warnings,
        pass_count,
        excepted_count,
    }
}

/// Every outcome is tallied once: the passes, exceptions, hard failures, hard
/// unknowns and soft warnings add up to the records.
pub proof fn lemma_tallies_add_up(records: Seq<ContractEvaluationRecord>)
    ensures
        tallied(records, 0).len() + tallied(records, 1).len() + tallied(records, 2).len() + tallied(
            records,
            3,
        ).len() + tallied(records, 4).len() == records.len(),
    decreases records.len(),
{
    if records.len() > 0 {
        lemma_tallies_add_up(records.drop_last());
    }
}
} // verus!
