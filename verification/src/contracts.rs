//! UX contracts: their scopes, the registry that resolves inheritance, and the
//! verdicts they give.
//!
//! A contract's predicate is a type parameter: the registry never reads it, and it
//! is carried through resolution by `Clone`.
use vstd::prelude::*;
use crate::text::{chars_of, seq_eq, seq_lt, text_lt};
use crate::text::{lemma_seq_lt_irreflexive, lemma_seq_lt_total, lemma_seq_lt_transitive};

verus! {

#[derive(Debug, Clone, Copy, PartialEq, Eq, Structural)]
pub enum ContractStrength {
    Hard,
    Soft,
}

#[derive(Debug, Clone, Copy, PartialEq, Eq, PartialOrd, Ord, Structural)]
pub enum ContractCategory {
    Layout,
    Accessibility,
    Interaction,
    Content,
    Responsive,
    Performance,
    Network,
    Visual,
    Safety,
}

/// Where a contract applies; an empty list places no restriction.
#[derive(Debug, Clone)]
pub struct ContractScope {
    pub routes: Vec<String>,
    pub regions: Vec<String>,
    pub personas: Vec<String>,
    pub viewports: Vec<String>,
}

impl ContractScope {
    /// The scope that applies everywhere.
    pub fn global() -> (r: Self)
        ensures
            r.routes@.len() == 0,
            r.regions@.len() == 0,
            r.personas@.len() == 0,
            r.viewports@.len() == 0,
    {
        ContractScope {
            routes: Vec::new(),
            regions: Vec::new(),
            personas: Vec::new(),
            viewports: Vec::new(),
        }
    }
}

#[derive(Debug, Clone)]
pub struct UxContract<P> {
    pub id: String,
    pub title: String,
    pub category: ContractCategory,
    pub strength: ContractStrength,
    pub scope: ContractScope,
    pub predicate: P,
    pub provenance: String,
    pub inherited_from: Option<String>,
}

#[derive(Debug, Clone)]
pub struct ContractException {
    pub contract_id: String,
    pub scope_key: String,
    pub reason: String,
    pub approved_by: String,
    pub expires_revision: Option<String>,
}

#[derive(Debug, Clone, Copy, PartialEq, Eq, Structural)]
pub enum ContractVerdict {
    Pass,
    Fail,
    Excepted,
    Unknown,
}

#[derive(Debug, Clone, PartialEq, Eq)]
pub enum ContractCompileError {
    MissingContract(String),
    MissingParent(String),
    InheritanceCycle(String),
}

#[derive(Debug, Clone, PartialEq, Eq)]
pub struct ContractConflict {
    pub left: String,
    pub right: String,
    pub reason: String,
}

#[derive(Debug, Clone, PartialEq, Eq)]
pub enum AutonomousContractCompileError {
    Contract(ContractCompileError),
    Conflict(Vec<ContractConflict>),
}

/// The verdict and explanation of a yes-or-no check.
pub fn bool_result(pass: bool, pass_message: String, fail_message: String) -> (r: (
    ContractVerdict,
    String,
))
    ensures
        pass ==> r.0 == ContractVerdict::Pass && r.1 == pass_message,
        !pass ==> r.0 == ContractVerdict::Fail && r.1 == fail_message,
{
    if pass {
        (ContractVerdict::Pass, pass_message)
    } else {
        (ContractVerdict::Fail, fail_message)
    }
}

pub open spec fn texts(v: Seq<String>) -> Seq<Seq<char>> {
    v.map_values(|s: String| s@)
}

/// A child's list where it has one, else its parent's.
pub open spec fn chosen(parent: Seq<String>, child: Seq<String>) -> Seq<Seq<char>> {
    if child.len() == 0 {
        texts(parent)
    } else {
        texts(child)
    }
}

/// A scope inherited from `parent`: each restriction of the child where it names
/// one, else the parent's.
pub open spec fn merged(parent: ContractScope, child: ContractScope, r: ContractScope) -> bool {
    &&& texts(r.routes@) == chosen(parent.routes@, child.routes@)
    &&& texts(r.regions@) == chosen(parent.regions@, child.regions@)
    &&& texts(r.personas@) == chosen(parent.personas@, child.personas@)
    &&& texts(r.viewports@) == chosen(parent.viewports@, child.viewports@)
}

fn copy_texts(v: &Vec<String>) -> (r: Vec<String>)
    ensures
        texts(r@) == texts(v@),
{
    let mut out: Vec<String> = Vec::new();
    let mut i: usize = 0;
    while i < v.len()
        invariant
            i <= v@.len(),
            texts(out@) == texts(v@.take(i as int)),
        decreases v@.len() - i,
    {
        out.push(v[i].clone());
        proof {
            assert(texts(v@.take(i + 1)) == texts(v@.take(i as int)).push(v@[i as int]@));
        }
        i += 1;
    }
    proof {
        assert(v@.take(i as int) == v@);
    }
    out
}

/// The child's list where it is not empty, else the parent's.
pub fn choose_list(parent: &Vec<String>, child: &Vec<String>) -> (r: Vec<String>)
    ensures
        texts(r@) == chosen(parent@, child@),
{
    if child.len() == 0 {
        copy_texts(parent)
    } else {
        copy_texts(child)
    }
}

/// The scope a child contract has once it inherits from `parent`.
pub fn merge_scope(parent: &ContractScope, child: &ContractScope) -> (r: ContractScope)
    ensures
        merged(*parent, *child, r),
{
    ContractScope {
        routes: choose_list(&parent.routes, &child.routes),
        regions: choose_list(&parent.regions, &child.regions),
        personas: choose_list(&parent.personas, &child.personas),
        viewports: choose_list(&parent.viewports, &child.viewports),
    }
}

/// The contracts of a project, by id.
#[derive(Debug)]
pub struct ContractRegistry<P> {
    contracts: Vec<UxContract<P>>,
}

/// The contract registered under `id`.
pub open spec fn lookup<P>(reg: Seq<UxContract<P>>, id: Seq<char>) -> Option<UxContract<P>> {
    if exists|i: int| 0 <= i < reg.len() && (#[trigger] reg[i]).id@ == id {
        Some(reg[choose|i: int| 0 <= i < reg.len() && (#[trigger] reg[i]).id@ == id])
    } else {
        None
    }
}

/// Contracts are kept in increasing order of id, so each id is registered once.
pub open spec fn ids_ordered<P>(reg: Seq<UxContract<P>>) -> bool {
    forall|a: int, b: int| 0 <= a < b < reg.len() ==> seq_lt((#[trigger] reg[a]).id@, (#[trigger] reg[b]).id@)
}

/// A scope as the texts of its lists.
pub struct ScopeView {
    pub routes: Seq<Seq<char>>,
    pub regions: Seq<Seq<char>>,
    pub personas: Seq<Seq<char>>,
    pub viewports: Seq<Seq<char>>,
}

pub open spec fn scope_view(s: ContractScope) -> ScopeView {
    ScopeView {
        routes: texts(s.routes@),
        regions: texts(s.regions@),
        personas: texts(s.personas@),
        viewports: texts(s.viewports@),
    }
}

pub open spec fn pick(parent: Seq<Seq<char>>, child: Seq<Seq<char>>) -> Seq<Seq<char>> {
    if child.len() == 0 {
        parent
    } else {
        child
    }
}

pub open spec fn merge_view(parent: ScopeView, child: ScopeView) -> ScopeView {
    ScopeView {
        routes: pick(parent.routes, child.routes),
        regions: pick(parent.regions, child.regions),
        personas: pick(parent.personas, child.personas),
        viewports: pick(parent.viewports, child.viewports),
    }
}

pub open spec fn opt_view(o: Option<String>) -> Option<Seq<char>> {
    match o {
        Some(s) => Some(s@),
        None => None,
    }
}

/// How resolving a contract's inheritance ends.
pub enum Resolution {
    /// The chain ended: the scope and provenance the contract inherits.
    Done(ScopeView, Seq<char>),
    /// The chain names a parent that is not registered.
    MissingParent(Seq<char>),
    /// The chain comes back to a contract it already passed.
    Cycle(Seq<char>),
}

/// Follows the inheritance chain from a contract whose scope, provenance and parent
/// are given, having passed the contracts in `visited`: each parent's scope is the
/// base for the child's, and its provenance fills an empty one. At most `fuel`
/// parents are followed; a chain that stays among registered, unvisited contracts
/// has no more than there are contracts.
pub open spec fn resolve<P>(
    reg: Seq<UxContract<P>>,
    scope: ScopeView,
    provenance: Seq<char>,
    parent: Option<Seq<char>>,
    visited: Set<Seq<char>>,
    fuel: nat,
) -> Resolution
    decreases fuel,
{
    match parent {
        None => Resolution::Done(scope, provenance),
        Some(pid) => if visited.contains(pid) {
            Resolution::Cycle(pid)
        } else {
            match lookup(reg, pid) {
                None => Resolution::MissingParent(pid),
                Some(p) => if fuel == 0 {
                    Resolution::Cycle(pid)
                } else {
                    resolve(
                        reg,
                        merge_view(scope_view(p.scope), scope),
                        if provenance.len() == 0 {
                            p.provenance@
                        } else {
                            provenance
                        },
                        opt_view(p.inherited_from),
                        visited.insert(pid),
                        (fuel - 1) as nat,
                    )
                },
            }
        },
    }
}

pub open spec fn error_text(e: ContractCompileError) -> Seq<char> {
    match e {
        ContractCompileError::MissingContract(s) => s@,
        ContractCompileError::MissingParent(s) => s@,
        ContractCompileError::InheritanceCycle(s) => s@,
    }
}

fn clone_opt(o: &Option<String>) -> (r: Option<String>)
    ensures
        r == *o,
{
    match o {
        Some(s) => Some(s.clone()),
        None => None,
    }
}

fn copy_scope(s: &ContractScope) -> (r: ContractScope)
    ensures
        scope_view(r) == scope_view(*s),
{
    ContractScope {
        routes: copy_texts(&s.routes),
        regions: copy_texts(&s.regions),
        personas: copy_texts(&s.personas),
        viewports: copy_texts(&s.viewports),
    }
}

impl<P> Default for ContractRegistry<P> {
    /// An empty registry.
    fn default() -> (r: Self)
        ensures
            r.wf(),
            r.entries().len() == 0,
    {
        ContractRegistry { contracts: Vec::new() }
    }
}

impl<P> ContractRegistry<P> {
    pub closed spec fn entries(&self) -> Seq<UxContract<P>> {
        self.contracts@
    }

    pub closed spec fn wf(&self) -> bool {
        ids_ordered(self.contracts@)
    }

    /// An empty registry.
    pub fn new() -> (r: Self)
        ensures
            r.wf(),
            r.entries().len() == 0,
    {
        ContractRegistry { contracts: Vec::new() }
    }

    /// The registered contracts, in increasing order of id.

    pub fn contracts(&self) -> (r: &Vec<UxContract<P>>)
        ensures
            r@ == self.entries(),
    {
        &self.contracts
    }

    /// Where `id` stands among the ordered contracts.
    fn slot(&self, id: &Vec<char>) -> (r: (usize, bool))
        requires
            self.wf(),
        ensures
            r.0 <= self.entries().len(),
            forall|j: int| 0 <= j < r.0 ==> seq_lt((#[trigger] self.entries()[j]).id@, id@),
            r.1 ==> r.0 < self.entries().len() && self.entries()[r.0 as int].id@ == id@,
            !r.1 && r.0 < self.entries().len() ==> seq_lt(id@, self.entries()[r.0 as int].id@),
    {
        let mut pos: usize = 0;
        while pos < self.contracts.len()
            invariant
                pos <= self.contracts@.len(),
                forall|j: int| 0 <= j < pos ==> seq_lt((#[trigger] self.contracts@[j]).id@, id@),
            decreases self.contracts@.len() - pos,
        {
            let here = chars_of(self.contracts[pos].id.as_str());
            if !text_lt(here.as_slice(), id.as_slice()) {
                let same = seq_eq(here.as_slice(), id.as_slice());
                proof {
                    lemma_seq_lt_total(here@, id@);
                }
                return (pos, same);
            }
            pos += 1;
        }
        (pos, false)
    }

    /// The position of the contract registered under `id`.
    fn position(&self, id: &Vec<char>) -> (r: Option<usize>)
        requires
            self.wf(),
        ensures
            match r {
                Some(i) => i < self.entries().len() && lookup(self.entries(), id@) == Some(
                    self.entries()[i as int],
                ),
                None => lookup(self.entries(), id@) is None,
            },
    {
        let (pos, found) = self.slot(id);
        let ghost reg = self.contracts@;
        if found {
            proof {
                assert(reg[pos as int].id@ == id@);
                let k = choose|i: int| 0 <= i < reg.len() && (#[trigger] reg[i]).id@ == id@;
                if k < pos {
                    assert(seq_lt(reg[k].id@, reg[pos as int].id@));
                    lemma_seq_lt_irreflexive(id@);
                } else if k > pos {
                    assert(seq_lt(reg[pos as int].id@, reg[k].id@));
                    lemma_seq_lt_irreflexive(id@);
                }
            }
            Some(pos)
        } else {
            proof {
                lemma_seq_lt_irreflexive(id@);
                assert forall|i: int| 0 <= i < reg.len() implies (#[trigger] reg[i]).id@ != id@ by {
                    if i < pos {
                        assert(seq_lt(reg[i].id@, id@));
                    } else {
                        assert(seq_lt(reg[pos as int].id@, reg[i].id@) || i == pos);
                        if i > pos {
                            lemma_seq_lt_transitive(id@, reg[pos as int].id@, reg[i].id@);
                        }
                    }
                }
            }
            None
        }
    }

    /// The contract registered under `id`.
    pub fn get(&self, id: &str) -> (r: Option<&UxContract<P>>)
        requires
            self.wf(),
        ensures
            match r {
                Some(c) => lookup(self.entries(), id@) == Some(*c),
                None => lookup(self.entries(), id@) is None,
            },
    {
        let key = chars_of(id);
        match self.position(&key) {
            Some(i) => Some(&self.contracts[i]),
            None => None,
        }
    }

    /// Registers a contract, replacing the one registered under the same id.
    pub fn insert(&mut self, contract: UxContract<P>)
        requires
            old(self).wf(),
        ensures
            final(self).wf(),
            forall|x: Seq<char>|
                #[trigger] lookup(final(self).entries(), x) == if x == contract.id@ {
                    Some(contract)
                } else {
                    lookup(old(self).entries(), x)
                },
    {
        let key = chars_of(contract.id.as_str());
        let (pos, found) = self.slot(&key);
        let ghost old_reg = self.contracts@;
        let ghost c = contract;
        if found {
            self.contracts.set(pos, contract);
            proof {
                lemma_replace_keeps_order(old_reg, self.contracts@, pos as int);
                lemma_lookup_after_replace(old_reg, self.contracts@, pos as int, c);
            }
        } else {
            self.contracts.insert(pos, contract);
            proof {
                lemma_insert_keeps_order(old_reg, self.contracts@, pos as int, c);
                lemma_lookup_after_insert(old_reg, self.contracts@, pos as int, c);
            }
        }
    }
}

/// How the contract registered under `id` resolves, and what the result must then be.
pub open spec fn effective_matches<P>(
    reg: Seq<UxContract<P>>,
    id: Seq<char>,
    r: Result<UxContract<P>, ContractCompileError>,
) -> bool where P: Clone {
    match lookup(reg, id) {
        None => r matches Err(ContractCompileError::MissingContract(s)) && s@ == id,
        Some(c) => match resolve(
            reg,
            scope_view(c.scope),
            c.provenance@,
            opt_view(c.inherited_from),
            set![c.id@],
            reg.len(),
        ) {
            Resolution::Done(scope, provenance) => r matches Ok(e) && e.id@ == c.id@ && e.title@
                == c.title@ && e.category == c.category && e.strength == c.strength && cloned::<P>(
                c.predicate,
                e.predicate,
            ) && scope_view(e.scope) == scope && e.provenance@ == provenance
                && e.inherited_from is None,
            Resolution::MissingParent(p) => r matches Err(ContractCompileError::MissingParent(s))
                && s@ == p,
            Resolution::Cycle(p) => r matches Err(ContractCompileError::InheritanceCycle(s)) && s@
                == p,
        },
    }
}

pub open spec fn registered_ids<P>(reg: Seq<UxContract<P>>) -> Set<Seq<char>> {
    Set::new(|x: Seq<char>| exists|i: int| 0 <= i < reg.len() && (#[trigger] reg[i]).id@ == x)
}

proof fn lemma_visited_bound<P>(reg: Seq<UxContract<P>>, visited: Seq<Seq<char>>, extra: Seq<char>)
    requires
        ids_ordered(reg),
        visited.no_duplicates(),
        !visited.contains(extra),
        forall|v: Seq<char>| visited.contains(v) ==> registered_ids(reg).contains(v),
        registered_ids(reg).contains(extra),
    ensures
        visited.len() + 1 <= reg.len(),
{
    let ids = reg.map_values(|c: UxContract<P>| c.id@);
    assert forall|a: int, b: int| 0 <= a < ids.len() && 0 <= b < ids.len() && a != b implies ids[a]
        != ids[b] by {
        lemma_seq_lt_irreflexive(ids[a]);
        if a < b {
            assert(seq_lt(reg[a].id@, reg[b].id@));
        } else {
            assert(seq_lt(reg[b].id@, reg[a].id@));
        }
    }
    ids.unique_seq_to_set();
    let grown = visited.push(extra);
    assert(grown.no_duplicates());
    grown.unique_seq_to_set();
    assert forall|v: Seq<char>| grown.to_set().contains(v) implies ids.to_set().contains(v) by {
        assert(grown.contains(v));
        if v == extra {
        } else {
            assert(visited.contains(v)) by {
                let k = choose|k: int| 0 <= k < grown.len() && grown[k] == v;
                assert(visited[k] == v);
            }
        }
        assert(registered_ids(reg).contains(v));
        let i = choose|i: int| 0 <= i < reg.len() && (#[trigger] reg[i]).id@ == v;
        assert(ids[i] == v);
    }
    vstd::set_lib::lemma_len_subset(grown.to_set(), ids.to_set());
}

impl<P: Clone> ContractRegistry<P> {
    /// The contract registered under `id` with its inheritance resolved: following
    /// its parents, each parent's scope is the base for the child's and its
    /// provenance fills an empty one. A missing contract, a missing parent and a
    /// chain that comes back on itself are errors.
    pub fn effective_contract(&self, id: &str) -> (r: Result<UxContract<P>, ContractCompileError>)
        requires
            self.wf(),
        ensures
            effective_matches(self.entries(), id@, r),
    {
        let key = chars_of(id);
        let at = match self.position(&key) {
            Some(i) => i,
            None => {
                return Err(ContractCompileError::MissingContract(id.to_owned()));
            },
        };
        let ghost reg = self.contracts@;
        let c = &self.contracts[at];
        let mut scope = copy_scope(&c.scope);
        let mut provenance = c.provenance.clone();
        let mut parent = clone_opt(&c.inherited_from);
        let mut visited: Vec<String> = Vec::new();
        visited.push(c.id.clone());
        let ghost mut fuel: nat = reg.len();
        proof {
            assert(texts(visited@) == seq![c.id@]);
            assert(texts(visited@).to_set() == set![c.id@]) by {
                assert forall|x: Seq<char>| texts(visited@).to_set().contains(x) <==> set![c.id@].contains(
                    x,
                ) by {
                    if x == c.id@ {
                        assert(texts(visited@)[0] == x);
                    }
                }
                assert(texts(visited@).to_set() =~= set![c.id@]);
            }
            assert(registered_ids(reg).contains(c.id@)) by {
                assert(reg[at as int].id@ == c.id@);
            }
        }
        while parent.is_some()
            invariant
                self.wf(),
                reg == self.entries(),
                lookup(reg, id@) == Some(*c),
                resolve(
                    reg,
                    scope_view(c.scope),
                    c.provenance@,
                    opt_view(c.inherited_from),
                    set![c.id@],
                    reg.len(),
                ) == resolve(
                    reg,
                    scope_view(scope),
                    provenance@,
                    opt_view(parent),
                    texts(visited@).to_set(),
                    fuel,
                ),
                texts(visited@).no_duplicates(),
                forall|v: Seq<char>|
                    texts(visited@).contains(v) ==> registered_ids(reg).contains(v),
                visited@.len() + fuel >= reg.len(),
            decreases fuel,
        {
            let pid = match &parent {
                Some(p) => p.clone(),
                None => {
                    return Err(ContractCompileError::MissingContract(id.to_owned()));
                },
            };
            let seen = crate::bisect::contains_name(&visited, &pid);
            proof {
                assert(seen == texts(visited@).contains(pid@)) by {
                    if seen {
                        let k = choose|k: int| 0 <= k < visited@.len() && (#[trigger] visited@[k])@ == pid@;
                        assert(texts(visited@)[k] == pid@);
                    }
                    if texts(visited@).contains(pid@) {
                        let k = choose|k: int| 0 <= k < texts(visited@).len() && texts(visited@)[k] == pid@;
                        assert(visited@[k]@ == pid@);
                    }
                }
            }
            if seen {
                return Err(ContractCompileError::InheritanceCycle(pid));
            }
            let pk = chars_of(pid.as_str());
            let j = match self.position(&pk) {
                Some(j) => j,
                None => {
                    return Err(ContractCompileError::MissingParent(pid));
                },
            };
            let p = &self.contracts[j];
            proof {
                assert(registered_ids(reg).contains(pid@)) by {
                    lemma_ordered_unique_id(reg, j as int);
                }
                lemma_visited_bound(reg, texts(visited@), pid@);
            }
            let ghost old_visited = texts(visited@);
            visited.push(pid);
            proof {
                assert(texts(visited@) == old_visited.push(pid@));
                assert(texts(visited@).to_set() == old_visited.to_set().insert(pid@)) by {
                    assert(texts(visited@) == old_visited + seq![pid@]);
                    Seq::lemma_to_set_insert_commutes(old_visited, pid@);
                }
                assert forall|v: Seq<char>| texts(visited@).contains(v) implies registered_ids(
                    reg,
                ).contains(v) by {
                    let k = choose|k: int| 0 <= k < texts(visited@).len() && texts(visited@)[k] == v;
                    if k < old_visited.len() {
                        assert(old_visited[k] == v);
                    }
                }
            }
            scope = merge_scope(&p.scope, &scope);
            if provenance.as_str().is_empty() {
                provenance = p.provenance.clone();
            }
            parent = clone_opt(&p.inherited_from);
            proof {
                fuel = (fuel - 1) as nat;
            }
        }
        Ok(UxContract {
            id: c.id.clone(),
            title: c.title.clone(),
            category: c.category,
            strength: c.strength,
            scope,
            predicate: c.predicate.clone(),
            provenance,
            inherited_from: None,
        })
    }
}

proof fn lemma_ordered_unique_id<P>(reg: Seq<UxContract<P>>, j: int)
    requires
        0 <= j < reg.len(),
    ensures
        registered_ids(reg).contains(reg[j].id@),
{
}

/// Registering a contract and then looking up its id gives that contract; other
/// ids keep what they had.
pub proof fn lemma_insert_then_lookup<P>(
    before: Seq<UxContract<P>>,
    after: Seq<UxContract<P>>,
    contract: UxContract<P>,
    other: Seq<char>,
)
    requires
        forall|x: Seq<char>|
            #[trigger] lookup(after, x) == if x == contract.id@ {
                Some(contract)
            } else {
                lookup(before, x)
            },
    ensures
        lookup(after, contract.id@) == Some(contract),
        other != contract.id@ ==> lookup(after, other) == lookup(before, other),
{
    assert(lookup(after, contract.id@) == Some(contract));
    assert(lookup(after, other) == if other == contract.id@ {
        Some(contract)
    } else {
        lookup(before, other)
    });
}

/// A contract that inherits from nothing keeps its own scope and provenance.
pub proof fn lemma_parentless_resolves_to_itself<P>(
    reg: Seq<UxContract<P>>,
    scope: ScopeView,
    provenance: Seq<char>,
    visited: Set<Seq<char>>,
    fuel: nat,
)
    ensures
        resolve(reg, scope, provenance, None, visited, fuel) == Resolution::Done(scope, provenance),
{
}

/// A contract whose parent is itself is a cycle, named by its own id.
pub proof fn lemma_self_parent_is_cycle<P>(
    reg: Seq<UxContract<P>>,
    scope: ScopeView,
    provenance: Seq<char>,
    id: Seq<char>,
    fuel: nat,
)
    ensures
        resolve(reg, scope, provenance, Some(id), set![id], fuel) == Resolution::Cycle(id),
{
}

proof fn lemma_ordered_unique<P>(reg: Seq<UxContract<P>>, i: int, x: Seq<char>)
    requires
        ids_ordered(reg),
        0 <= i < reg.len(),
        reg[i].id@ == x,
    ensures
        lookup(reg, x) == Some(reg[i]),
{
    let k = choose|k: int| 0 <= k < reg.len() && (#[trigger] reg[k]).id@ == x;
    lemma_seq_lt_irreflexive(x);
    if k < i {
        assert(seq_lt(reg[k].id@, reg[i].id@));
    } else if k > i {
        assert(seq_lt(reg[i].id@, reg[k].id@));
    }
}

proof fn lemma_replace_keeps_order<P>(old: Seq<UxContract<P>>, new: Seq<UxContract<P>>, pos: int)
    requires
        ids_ordered(old),
        0 <= pos < old.len(),
        new.len() == old.len(),
        forall|j: int| 0 <= j < old.len() && j != pos ==> #[trigger] new[j] == old[j],
        new[pos].id@ == old[pos].id@,
    ensures
        ids_ordered(new),
{
    assert forall|a: int, b: int| 0 <= a < b < new.len() implies seq_lt(
        (#[trigger] new[a]).id@,
        (#[trigger] new[b]).id@,
    ) by {
        assert(seq_lt(old[a].id@, old[b].id@));
    }
}

proof fn lemma_lookup_after_replace<P>(
    old: Seq<UxContract<P>>,
    new: Seq<UxContract<P>>,
    pos: int,
    c: UxContract<P>,
)
    requires
        ids_ordered(old),
        ids_ordered(new),
        0 <= pos < old.len(),
        new == old.update(pos, c),
        c.id@ == old[pos].id@,
    ensures
        forall|x: Seq<char>|
            #[trigger] lookup(new, x) == if x == c.id@ {
                Some(c)
            } else {
                lookup(old, x)
            },
{
    assert forall|x: Seq<char>| #[trigger] lookup(new, x) == if x == c.id@ {
        Some(c)
    } else {
        lookup(old, x)
    } by {
        if x == c.id@ {
            lemma_ordered_unique(new, pos, x);
        } else if exists|i: int| 0 <= i < old.len() && (#[trigger] old[i]).id@ == x {
            let i = choose|i: int| 0 <= i < old.len() && (#[trigger] old[i]).id@ == x;
            lemma_ordered_unique(old, i, x);
            assert(new[i] == old[i]);
            lemma_ordered_unique(new, i, x);
        } else {
            assert forall|i: int| 0 <= i < new.len() implies (#[trigger] new[i]).id@ != x by {
                if i != pos {
                    assert(new[i] == old[i]);
                }
            }
        }
    }
}

proof fn lemma_insert_keeps_order<P>(
    old: Seq<UxContract<P>>,
    new: Seq<UxContract<P>>,
    pos: int,
    c: UxContract<P>,
)
    requires
        ids_ordered(old),
        0 <= pos <= old.len(),
        forall|j: int| 0 <= j < pos ==> seq_lt((#[trigger] old[j]).id@, c.id@),
        pos < old.len() ==> seq_lt(c.id@, old[pos].id@),
        new == old.insert(pos, c),
    ensures
        ids_ordered(new),
{
    assert forall|j: int| pos < j < old.len() implies seq_lt(c.id@, (#[trigger] old[j]).id@) by {
        assert(seq_lt(old[pos].id@, old[j].id@));
        lemma_seq_lt_transitive(c.id@, old[pos].id@, old[j].id@);
    }
    assert forall|a: int, b: int| 0 <= a < b < new.len() implies seq_lt(
        (#[trigger] new[a]).id@,
        (#[trigger] new[b]).id@,
    ) by {
        if b < pos {
            assert(seq_lt(old[a].id@, old[b].id@));
        } else if b == pos {
            assert(seq_lt(old[a].id@, c.id@));
        } else if a < pos {
            assert(seq_lt(old[a].id@, c.id@));
            assert(seq_lt(c.id@, old[b - 1].id@));
            lemma_seq_lt_transitive(old[a].id@, c.id@, old[b - 1].id@);
        } else if a == pos {
            assert(seq_lt(c.id@, old[b - 1].id@));
        } else {
            assert(seq_lt(old[a - 1].id@, old[b - 1].id@));
        }
    }
}

proof fn lemma_lookup_after_insert<P>(
    old: Seq<UxContract<P>>,
    new: Seq<UxContract<P>>,
    pos: int,
    c: UxContract<P>,
)
    requires
        ids_ordered(old),
        ids_ordered(new),
        0 <= pos <= old.len(),
        new == old.insert(pos, c),
    ensures
        forall|x: Seq<char>|
            #[trigger] lookup(new, x) == if x == c.id@ {
                Some(c)
            } else {
                lookup(old, x)
            },
{
    assert forall|x: Seq<char>| #[trigger] lookup(new, x) == if x == c.id@ {
        Some(c)
    } else {
        lookup(old, x)
    } by {
        if x == c.id@ {
            lemma_ordered_unique(new, pos, x);
        } else if exists|i: int| 0 <= i < old.len() && (#[trigger] old[i]).id@ == x {
            let i = choose|i: int| 0 <= i < old.len() && (#[trigger] old[i]).id@ == x;
            lemma_ordered_unique(old, i, x);
            if i < pos {
                assert(new[i] == old[i]);
                lemma_ordered_unique(new, i, x);
            } else {
                assert(new[i + 1] == old[i]);
                lemma_ordered_unique(new, i + 1, x);
            }
        } else {
            assert forall|i: int| 0 <= i < new.len() implies (#[trigger] new[i]).id@ != x by {
                if i < pos {
                    assert(new[i] == old[i]);
                } else if i > pos {
                    assert(new[i] == old[i - 1]);
                }
            }
        }
    }
}

} // verus!
