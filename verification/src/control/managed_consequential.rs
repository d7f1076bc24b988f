//! Managed consequential actions: the identity checks of a plan and the plans
//! that wait for their explicit confirmation.
use vstd::prelude::*;
use crate::text::{any_control, byte_len, byte_len_within, chars_of, is_ascii_hex, starts_with};

verus! {

pub const MAX_REFERENCE_BYTES: usize = 256;

/// A stable element reference: `@e` followed by hexadecimal digits, at most 256 bytes.
pub open spec fn spec_valid_reference(r: Seq<char>) -> bool {
    starts_with(r, seq!['@', 'e']) && r.len() > 2 && byte_len(r) <= 256 && forall|i: int|
        2 <= i < r.len() ==> is_ascii_hex(#[trigger] r[i])
}

pub fn valid_reference(reference: &str) -> (r: bool)
    ensures
        r == spec_valid_reference(reference@),
{
    let v = chars_of(reference);
    if v.len() < 2 || v[0] != '@' || v[1] != 'e' {
        proof {
            if v@.len() >= 2 {
                assert(v@.take(2)[0] == v@[0]);
                assert(v@.take(2)[1] == v@[1]);
            }
        }
        return false;
    }
    proof {
        assert(v@.take(2) =~= seq!['@', 'e']);
    }
    if v.len() == 2 {
        return false;
    }
    proof {
        assert(v@.subrange(0, v@.len() as int) == v@);
    }
    if byte_len_within(v.as_slice(), 0, v.len(), MAX_REFERENCE_BYTES).is_none() {
        return false;
    }
    let mut i: usize = 2;
    while i < v.len()
        invariant
            2 <= i <= v@.len(),
            v@ == reference@,
            forall|k: int| 2 <= k < i ==> is_ascii_hex(#[trigger] v@[k]),
        decreases v@.len() - i,
    {
        if !crate::text::ascii_hex(v[i]) {
            proof {
                assert(!is_ascii_hex(v@[i as int]));
            }
            return false;
        }
        i += 1;
    }
    true
}

/// The first 512 characters of a detail text.
pub fn bounded_detail(value: &str) -> (r: String)
    ensures
        r@ == value@.take(if value@.len() < 512 { value@.len() as int } else { 512 }),
{
    let v = chars_of(value);
    let n = if v.len() < 512 {
        v.len()
    } else {
        512
    };
    let r = crate::text::string_of(v.as_slice(), 0, n);
    proof {
        assert(v@.subrange(0, n as int) == v@.take(n as int));
    }
    r
}


/// The most plans that may wait for confirmation at once.
pub const MAX_PENDING_MANAGED_CONSEQUENTIAL_PLANS: usize = 64;

/// How long a plan waits for its confirmation, in milliseconds.
pub const CONFIRMATION_TTL_MS: u128 = 30000;

/// A planned action waiting for its explicit confirmation.
#[derive(Debug, Clone)]
pub struct PendingPlan<Q> {
    pub session_id: u128,
    pub confirmation_ref: u128,
    /// The bound action and what it was bound to.
    pub queued: Q,
    /// The moment after which the plan can no longer be confirmed.
    pub expires_at: u128,
}

/// Why a confirmation was refused.
#[derive(Debug, Clone)]
pub enum ConfirmRefusal<Q> {
    /// No plan waits under that action.
    Missing,
    /// The plan belongs to another session.
    SessionMismatch,
    /// The plan expired; it is removed and handed back to be discarded.
    Expired(Q),
    /// The confirmation reference is not the plan's.
    ConfirmationMismatch,
}

/// Which entries a pass over the plans keeps.
#[derive(Debug, Clone, Copy)]
pub enum Keep {
    /// Those that have not expired at this moment.
    LiveAt(u128),
    /// All but the plan of this action.
    AllBut(u128),
    /// Those of other sessions than this one.
    OtherSessions(u128),
}

pub open spec fn keeps<Q>(rule: Keep, e: (u128, PendingPlan<Q>)) -> bool {
    match rule {
        Keep::LiveAt(now) => e.1.expires_at > now,
        Keep::AllBut(id) => e.0 != id,
        Keep::OtherSessions(session) => e.1.session_id != session,
    }
}

/// The entries that a rule keeps, in their order.
pub open spec fn kept<Q>(s: Seq<(u128, PendingPlan<Q>)>, rule: Keep) -> Seq<(u128, PendingPlan<Q>)>
    decreases s.len(),
{
    if s.len() == 0 {
        s
    } else if keeps(rule, s.last()) {
        kept(s.drop_last(), rule).push(s.last())
    } else {
        kept(s.drop_last(), rule)
    }
}

/// The actions of the entries that a rule drops, in their order.
pub open spec fn dropped<Q>(s: Seq<(u128, PendingPlan<Q>)>, rule: Keep) -> Seq<u128>
    decreases s.len(),
{
    if s.len() == 0 {
        Seq::empty()
    } else if keeps(rule, s.last()) {
        dropped(s.drop_last(), rule)
    } else {
        dropped(s.drop_last(), rule).push(s.last().0)
    }
}

/// No action has two entries.
pub open spec fn ids_unique<Q>(s: Seq<(u128, PendingPlan<Q>)>) -> bool {
    forall|i: int, j: int| 0 <= i < s.len() && 0 <= j < s.len() && #[trigger] s[i].0 == #[trigger] s[j].0 ==> i == j
}

pub open spec fn has_id<Q>(s: Seq<(u128, PendingPlan<Q>)>, id: u128) -> bool {
    exists|i: int| 0 <= i < s.len() && #[trigger] s[i].0 == id
}

/// The plan waiting under an action.
pub open spec fn plan_of<Q>(s: Seq<(u128, PendingPlan<Q>)>, id: u128) -> Option<PendingPlan<Q>> {
    if has_id(s, id) {
        Some(s[choose|i: int| 0 <= i < s.len() && #[trigger] s[i].0 == id].1)
    } else {
        None
    }
}

proof fn lemma_plan_at<Q>(s: Seq<(u128, PendingPlan<Q>)>, i: int)
    requires
        ids_unique(s),
        0 <= i < s.len(),
    ensures
        plan_of(s, s[i].0) == Some(s[i].1),
{
    assert(has_id(s, s[i].0));
    let j = choose|j: int| 0 <= j < s.len() && #[trigger] s[j].0 == s[i].0;
    assert(s[j].0 == s[i].0);
}

/// An entry is kept exactly when it was there and the rule keeps it.
proof fn lemma_kept_contains<Q>(s: Seq<(u128, PendingPlan<Q>)>, rule: Keep, e: (u128, PendingPlan<Q>))
    ensures
        kept(s, rule).contains(e) <==> (s.contains(e) && keeps(rule, e)),
    decreases s.len(),
{
    if s.len() > 0 {
        let d = s.drop_last();
        lemma_kept_contains(d, rule, e);
        assert(s == d.push(s.last()));
        if s.contains(e) && e != s.last() {
            let i = choose|i: int| 0 <= i < s.len() && s[i] == e;
            assert(i < s.len() - 1);
            assert(d[i] == e);
        }
        if d.contains(e) {
            let i = choose|i: int| 0 <= i < d.len() && d[i] == e;
            assert(s[i] == e);
        }
        if keeps(rule, s.last()) {
            let k = kept(d, rule);
            assert(kept(s, rule) == k.push(s.last()));
            if k.push(s.last()).contains(e) && e != s.last() {
                let i = choose|i: int| 0 <= i < k.push(s.last()).len() && k.push(s.last())[i] == e;
                assert(k[i] == e);
            }
            if k.contains(e) {
                let i = choose|i: int| 0 <= i < k.len() && k[i] == e;
                assert(k.push(s.last())[i] == e);
            }
            if e == s.last() {
                assert(k.push(s.last())[k.len() as int] == e);
            }
        }
    }
}

/// Keeping entries keeps the actions apart.
proof fn lemma_kept_unique<Q>(s: Seq<(u128, PendingPlan<Q>)>, rule: Keep)
    requires
        ids_unique(s),
    ensures
        ids_unique(kept(s, rule)),
    decreases s.len(),
{
    if s.len() > 0 {
        let d = s.drop_last();
        assert(ids_unique(d)) by {
            assert forall|i: int, j: int| 0 <= i < d.len() && 0 <= j < d.len() && #[trigger] d[i].0 == #[trigger] d[j].0 implies i == j by {
                assert(s[i].0 == s[j].0);
            }
        }
        lemma_kept_unique(d, rule);
        if keeps(rule, s.last()) {
            let k = kept(d, rule);
            let n = k.push(s.last());
            assert forall|i: int, j: int| 0 <= i < n.len() && 0 <= j < n.len() && #[trigger] n[i].0 == #[trigger] n[j].0 implies i == j by {
                if i < k.len() && j == k.len() {
                    lemma_kept_contains(d, rule, k[i]);
                    assert(k.contains(k[i]));
                    let m = choose|m: int| 0 <= m < d.len() && d[m] == k[i];
                    assert(s[m].0 == s[s.len() - 1].0);
                }
                if j < k.len() && i == k.len() {
                    lemma_kept_contains(d, rule, k[j]);
                    assert(k.contains(k[j]));
                    let m = choose|m: int| 0 <= m < d.len() && d[m] == k[j];
                    assert(s[m].0 == s[s.len() - 1].0);
                }
            }
        }
    }
}

/// What a plan lookup gives after a pass: the old plan where the rule keeps it.
proof fn lemma_kept_plan_of<Q>(s: Seq<(u128, PendingPlan<Q>)>, rule: Keep, id: u128)
    requires
        ids_unique(s),
    ensures
        plan_of(kept(s, rule), id) == (match plan_of(s, id) {
            Some(p) => if keeps(rule, (id, p)) {
                Some(p)
            } else {
                None
            },
            None => None,
        }),
{
    let k = kept(s, rule);
    lemma_kept_unique(s, rule);
    if has_id(s, id) {
        let i = choose|i: int| 0 <= i < s.len() && #[trigger] s[i].0 == id;
        lemma_plan_at(s, i);
        lemma_kept_contains(s, rule, s[i]);
        assert(s.contains(s[i]));
        if keeps(rule, s[i]) {
            let j = choose|j: int| 0 <= j < k.len() && k[j] == s[i];
            lemma_plan_at(k, j);
        } else if has_id(k, id) {
            let j = choose|j: int| 0 <= j < k.len() && #[trigger] k[j].0 == id;
            lemma_kept_contains(s, rule, k[j]);
            assert(k.contains(k[j]));
            let m = choose|m: int| 0 <= m < s.len() && s[m] == k[j];
            assert(s[m].0 == s[i].0);
        }
    } else if has_id(k, id) {
        let j = choose|j: int| 0 <= j < k.len() && #[trigger] k[j].0 == id;
        lemma_kept_contains(s, rule, k[j]);
        assert(k.contains(k[j]));
        let m = choose|m: int| 0 <= m < s.len() && s[m] == k[j];
        assert(s[m].0 == id);
    }
}

/// What confirming a plan gives, and the plans after it: a plan of the session,
/// not expired, with the right confirmation reference, is consumed; an expired one
/// is removed; every other refusal leaves the plans as they were.
pub open spec fn confirmed<Q>(
    s: Seq<(u128, PendingPlan<Q>)>,
    id: u128,
    session_id: u128,
    confirmation_ref: u128,
    now: u128,
) -> (Result<PendingPlan<Q>, ConfirmRefusal<Q>>, Seq<(u128, PendingPlan<Q>)>) {
    match plan_of(s, id) {
        None => (Err(ConfirmRefusal::Missing), s),
        Some(p) => if p.session_id != session_id {
            (Err(ConfirmRefusal::SessionMismatch), s)
        } else if p.expires_at <= now {
            (Err(ConfirmRefusal::Expired(p.queued)), kept(s, Keep::AllBut(id)))
        } else if p.confirmation_ref != confirmation_ref {
            (Err(ConfirmRefusal::ConfirmationMismatch), s)
        } else {
            (Ok(p), kept(s, Keep::AllBut(id)))
        },
    }
}

/// The plans waiting for confirmation, one per action.
pub struct PendingPlans<Q> {
    entries: Vec<(u128, PendingPlan<Q>)>,
}

impl<Q> PendingPlans<Q> {
    #[verifier::type_invariant]
    spec fn one_plan_per_action(&self) -> bool {
        ids_unique(self.entries@)
    }

    /// The waiting plans, in the order they were made.
    pub closed spec fn plans(&self) -> Seq<(u128, PendingPlan<Q>)> {
        self.entries@
    }

    pub fn new() -> (r: Self)
        ensures
            r.plans() == Seq::<(u128, PendingPlan<Q>)>::empty(),
            ids_unique(r.plans()),
    {
        PendingPlans { entries: Vec::new() }
    }

    pub fn len(&self) -> (r: usize)
        ensures
            r == self.plans().len(),
    {
        self.entries.len()
    }

    /// Whether another plan may wait.
    pub fn has_capacity(&self) -> (r: bool)
        ensures
            r == (self.plans().len() < MAX_PENDING_MANAGED_CONSEQUENTIAL_PLANS),
    {
        self.entries.len() < MAX_PENDING_MANAGED_CONSEQUENTIAL_PLANS
    }

    fn position(&self, id: u128) -> (r: Option<usize>)
        ensures
            match r {
                Some(i) => i < self.entries@.len() && self.entries@[i as int].0 == id,
                None => !has_id(self.entries@, id),
            },
    {
        let mut i: usize = 0;
        while i < self.entries.len()
            invariant
                i <= self.entries@.len(),
                forall|j: int| 0 <= j < i ==> self.entries@[j].0 != id,
            decreases self.entries@.len() - i,
        {
            if self.entries[i].0 == id {
                return Some(i);
            }
            i += 1;
        }
        None
    }

    /// Splits the plans by a rule: keeps those the rule keeps and gives back the
    /// others, each with its action.
    fn split_off(&mut self, rule: Keep) -> (r: Vec<(u128, PendingPlan<Q>)>)
        ensures
            final(self).plans() == kept(old(self).plans(), rule),
            ids_unique(old(self).plans()),
            ids_unique(final(self).plans()),
            r@.map_values(|e: (u128, PendingPlan<Q>)| e.0) == dropped(old(self).plans(), rule),
            forall|i: int| 0 <= i < r@.len() ==> old(self).plans().contains(#[trigger] r@[i]) && !keeps(rule, r@[i]),
    {
        proof {
            use_type_invariant(&*self);
        }
        let ghost orig = self.entries@;
        let mut rest: Vec<(u128, PendingPlan<Q>)> = Vec::new();
        std::mem::swap(&mut rest, &mut self.entries);
        let mut out: Vec<(u128, PendingPlan<Q>)> = Vec::new();
        let mut gone: Vec<(u128, PendingPlan<Q>)> = Vec::new();
        let ghost mut i: int = 0;
        proof {
            assert(orig.take(0) == Seq::<(u128, PendingPlan<Q>)>::empty());
            assert(rest@ == orig.skip(0));
        }
        while rest.len() > 0
            invariant
                0 <= i <= orig.len(),
                rest@ == orig.skip(i),
                out@ == kept(orig.take(i), rule),
                gone@.map_values(|e: (u128, PendingPlan<Q>)| e.0) == dropped(orig.take(i), rule),
                forall|m: int| 0 <= m < gone@.len() ==> orig.contains(#[trigger] gone@[m]) && !keeps(rule, gone@[m]),
                ids_unique(orig),
            decreases rest@.len(),
        {
            let e = rest.remove(0);
            proof {
                assert(e == orig[i]);
                assert(orig.take(i + 1).drop_last() == orig.take(i));
                assert(orig.take(i + 1).last() == orig[i]);
                assert(rest@ == orig.skip(i + 1));
            }
            let keep = match rule {
                Keep::LiveAt(now) => e.1.expires_at > now,
                Keep::AllBut(id) => e.0 != id,
                Keep::OtherSessions(session) => e.1.session_id != session,
            };
            if keep {
                out.push(e);
            } else {
                let ghost before = gone@;
                gone.push(e);
                proof {
                    assert(gone@.map_values(|x: (u128, PendingPlan<Q>)| x.0) == before.map_values(
                        |x: (u128, PendingPlan<Q>)| x.0,
                    ).push(orig[i].0));
                    assert(orig.contains(orig[i]));
                }
            }
            proof {
                i = i + 1;
            }
        }
        proof {
            assert(orig.take(i) == orig);
            lemma_kept_unique(orig, rule);
        }
        self.entries = out;
        gone
    }

    /// Adds a plan under an action, in place of one it may already have.
    pub fn insert(&mut self, action_id: u128, plan: PendingPlan<Q>)
        ensures
            ids_unique(final(self).plans()),
            plan_of(final(self).plans(), action_id) == Some(plan),
            forall|k: u128| k != action_id ==> plan_of(final(self).plans(), k) == plan_of(old(self).plans(), k),
            final(self).plans().len() == old(self).plans().len() + if has_id(old(self).plans(), action_id) {
                0int
            } else {
                1int
            },
    {
        proof {
            use_type_invariant(&*self);
        }
        let ghost before = self.entries@;
        let _ = self.split_off(Keep::AllBut(action_id));
        let ghost mid = self.entries@;
        proof {
            lemma_kept_unique(before, Keep::AllBut(action_id));
            lemma_kept_plan_of(before, Keep::AllBut(action_id), action_id);
            lemma_kept_len(before, action_id);
        }
        let mut entries: Vec<(u128, PendingPlan<Q>)> = Vec::new();
        std::mem::swap(&mut entries, &mut self.entries);
        entries.push((action_id, plan));
        proof {
            let n = entries@;
            assert(n.drop_last() == mid);
            assert forall|i: int, j: int| 0 <= i < n.len() && 0 <= j < n.len() && #[trigger] n[i].0 == #[trigger] n[j].0 implies i == j by {
                if i < mid.len() && j == mid.len() {
                    assert(plan_of(mid, action_id) is None);
                    assert(mid[i].0 == action_id);
                    assert(has_id(mid, action_id));
                }
                if j < mid.len() && i == mid.len() {
                    assert(mid[j].0 == action_id);
                    assert(has_id(mid, action_id));
                }
            }
            lemma_plan_at(n, mid.len() as int);
            assert forall|k: u128| k != action_id implies plan_of(n, k) == plan_of(before, k) by {
                lemma_kept_plan_of(before, Keep::AllBut(action_id), k);
                if has_id(mid, k) {
                    let i = choose|i: int| 0 <= i < mid.len() && #[trigger] mid[i].0 == k;
                    lemma_plan_at(mid, i);
                    assert(n[i] == mid[i]);
                    lemma_plan_at(n, i);
                } else if has_id(n, k) {
                    let i = choose|i: int| 0 <= i < n.len() && #[trigger] n[i].0 == k;
                    assert(i < mid.len());
                    assert(mid[i].0 == k);
                }
            }
        }
        self.entries = entries;
    }

    /// Confirms the plan of an action: see `confirmed`.
    pub fn confirm(&mut self, action_id: u128, session_id: u128, confirmation_ref: u128, now: u128) -> (r: Result<
        PendingPlan<Q>,
        ConfirmRefusal<Q>,
    >)
        ensures
            (r, final(self).plans()) == confirmed(old(self).plans(), action_id, session_id, confirmation_ref, now),
            ids_unique(final(self).plans()),
    {
        proof {
            use_type_invariant(&*self);
        }
        let ghost before = self.entries@;
        let i = match self.position(action_id) {
            Some(i) => i,
            None => {
                return Err(ConfirmRefusal::Missing);
            },
        };
        proof {
            lemma_plan_at(before, i as int);
        }
        let p = &self.entries[i].1;
        if p.session_id != session_id {
            return Err(ConfirmRefusal::SessionMismatch);
        }
        let expired = p.expires_at <= now;
        if !expired && p.confirmation_ref != confirmation_ref {
            return Err(ConfirmRefusal::ConfirmationMismatch);
        }
        let mut gone = self.split_off(Keep::AllBut(action_id));
        proof {
            lemma_kept_len(before, action_id);
            assert(dropped(before, Keep::AllBut(action_id)).len() == 1);
            assert(gone@.map_values(|e: (u128, PendingPlan<Q>)| e.0).len() == 1);
            assert(before.contains(gone@[0]));
            let m = choose|m: int| 0 <= m < before.len() && before[m] == gone@[0];
            assert(before[m].0 == before[i as int].0);
        }
        let (_, plan) = gone.pop().unwrap();
        if expired {
            Err(ConfirmRefusal::Expired(plan.queued))
        } else {
            Ok(plan)
        }
    }

    /// Removes the expired plans and gives back their actions, to be discarded.
    pub fn prune_expired(&mut self, now: u128) -> (r: Vec<u128>)
        ensures
            final(self).plans() == kept(old(self).plans(), Keep::LiveAt(now)),
            r@ == dropped(old(self).plans(), Keep::LiveAt(now)),
            ids_unique(final(self).plans()),
    {
        let gone = self.split_off(Keep::LiveAt(now));
        let mut ids: Vec<u128> = Vec::new();
        let mut k: usize = 0;
        while k < gone.len()
            invariant
                k <= gone@.len(),
                ids@ == gone@.map_values(|e: (u128, PendingPlan<Q>)| e.0).take(k as int),
            decreases gone@.len() - k,
        {
            ids.push(gone[k].0);
            proof {
                assert(gone@.map_values(|e: (u128, PendingPlan<Q>)| e.0).take(k + 1) == gone@.map_values(
                    |e: (u128, PendingPlan<Q>)| e.0,
                ).take(k as int).push(gone@[k as int].0));
            }
            k += 1;
        }
        proof {
            assert(gone@.map_values(|e: (u128, PendingPlan<Q>)| e.0).take(k as int) == gone@.map_values(
                |e: (u128, PendingPlan<Q>)| e.0,
            ));
        }
        ids
    }

    /// Forgets the plans of a session.
    pub fn release_session(&mut self, session_id: u128)
        ensures
            final(self).plans() == kept(old(self).plans(), Keep::OtherSessions(session_id)),
            ids_unique(final(self).plans()),
    {
        let _ = self.split_off(Keep::OtherSessions(session_id));
    }
}

/// Removing the one entry of an action shortens the plans by one.
proof fn lemma_kept_len<Q>(s: Seq<(u128, PendingPlan<Q>)>, id: u128)
    requires
        ids_unique(s),
    ensures
        has_id(s, id) ==> kept(s, Keep::AllBut(id)).len() == s.len() - 1 && dropped(s, Keep::AllBut(id)).len() == 1,
        !has_id(s, id) ==> kept(s, Keep::AllBut(id)).len() == s.len() && dropped(s, Keep::AllBut(id)).len() == 0,
    decreases s.len(),
{
    if s.len() > 0 {
        let d = s.drop_last();
        assert(ids_unique(d)) by {
            assert forall|i: int, j: int| 0 <= i < d.len() && 0 <= j < d.len() && #[trigger] d[i].0 == #[trigger] d[j].0 implies i == j by {
                assert(s[i].0 == s[j].0);
            }
        }
        lemma_kept_len(d, id);
        if s.last().0 == id {
            assert(has_id(s, id)) by {
                assert(s[s.len() - 1].0 == id);
            }
            if has_id(d, id) {
                let i = choose|i: int| 0 <= i < d.len() && #[trigger] d[i].0 == id;
                assert(s[i].0 == s[s.len() - 1].0);
            }
        } else {
            if has_id(s, id) {
                let i = choose|i: int| 0 <= i < s.len() && #[trigger] s[i].0 == id;
                assert(d[i].0 == id);
            }
            if has_id(d, id) {
                let i = choose|i: int| 0 <= i < d.len() && #[trigger] d[i].0 == id;
                assert(s[i].0 == id);
            }
        }
    }
}

/// A confirmation is consumed once: after a plan is confirmed, confirming it again
/// finds nothing.
pub proof fn lemma_confirmation_is_one_shot<Q>(
    s: Seq<(u128, PendingPlan<Q>)>,
    id: u128,
    session_id: u128,
    confirmation_ref: u128,
    now: u128,
    later: u128,
)
    requires
        ids_unique(s),
        confirmed(s, id, session_id, confirmation_ref, now).0 is Ok,
    ensures
        confirmed(confirmed(s, id, session_id, confirmation_ref, now).1, id, session_id, confirmation_ref, later).0
            matches Err(ConfirmRefusal::Missing),
{
    lemma_kept_plan_of(s, Keep::AllBut(id), id);
}

/// Only a plan of the session, not expired, with its own confirmation reference is
/// confirmed, and such a plan always is.
pub proof fn lemma_confirmation_needs_live_exact_plan<Q>(
    s: Seq<(u128, PendingPlan<Q>)>,
    id: u128,
    session_id: u128,
    confirmation_ref: u128,
    now: u128,
)
    ensures
        confirmed(s, id, session_id, confirmation_ref, now).0 is Ok <==> (plan_of(s, id) matches Some(p)
            && p.session_id == session_id && p.expires_at > now && p.confirmation_ref == confirmation_ref),
{
}

/// After pruning, every waiting plan is live and every live plan still waits.
pub proof fn lemma_prune_keeps_exactly_live_plans<Q>(s: Seq<(u128, PendingPlan<Q>)>, now: u128, id: u128)
    requires
        ids_unique(s),
    ensures
        plan_of(kept(s, Keep::LiveAt(now)), id) == (match plan_of(s, id) {
            Some(p) => if p.expires_at > now {
                Some(p)
            } else {
                None
            },
            None => None,
        }),
{
    lemma_kept_plan_of(s, Keep::LiveAt(now), id);
}


/// How long a reconciliation record is kept after its last change, in milliseconds.
pub const RECONCILIATION_RECORD_TTL_MS: u128 = 300000;

/// Where the reconciliation of a confirmed action stands.
#[derive(Debug, Clone, Copy, PartialEq, Eq, Structural)]
pub enum ReconciliationStatus {
    PendingExecutorCompletion,
    PendingFreshReconciliation,
    ExecutorFailed,
    ReconciliationRequired,
    VerifiedUnexpected,
    VerifiedExpected,
}

impl ReconciliationStatus {
    pub open spec fn spec_code(self) -> Seq<char> {
        match self {
            ReconciliationStatus::PendingExecutorCompletion => "pending_executor_completion"@,
            ReconciliationStatus::PendingFreshReconciliation => "pending_fresh_reconciliation"@,
            ReconciliationStatus::ExecutorFailed => "executor_failed"@,
            ReconciliationStatus::ReconciliationRequired => "reconciliation_required"@,
            ReconciliationStatus::VerifiedUnexpected => "verified_unexpected"@,
            ReconciliationStatus::VerifiedExpected => "verified_expected"@,
        }
    }

    /// The status as the status route names it.
    pub fn code(self) -> (r: &'static str)
        ensures
            r@ == self.spec_code(),
    {
        match self {
            ReconciliationStatus::PendingExecutorCompletion => "pending_executor_completion",
            ReconciliationStatus::PendingFreshReconciliation => "pending_fresh_reconciliation",
            ReconciliationStatus::ExecutorFailed => "executor_failed",
            ReconciliationStatus::ReconciliationRequired => "reconciliation_required",
            ReconciliationStatus::VerifiedUnexpected => "verified_unexpected",
            ReconciliationStatus::VerifiedExpected => "verified_expected",
        }
    }

    /// Whether the status is final: neither of the two pending ones.
    pub fn terminal(self) -> (r: bool)
        ensures
            r == !(self == ReconciliationStatus::PendingExecutorCompletion || self
                == ReconciliationStatus::PendingFreshReconciliation),
    {
        !matches!(
            self,
            ReconciliationStatus::PendingExecutorCompletion | ReconciliationStatus::PendingFreshReconciliation
        )
    }
}

/// The verdict of one expected postcondition on the fresh snapshot.
#[derive(Debug, Clone, Copy, PartialEq, Eq, Structural)]
pub enum PostconditionVerdict {
    VerifiedPass,
    VerifiedFail,
    Unknown,
}

impl PostconditionVerdict {
    pub open spec fn spec_code(self) -> Seq<char> {
        match self {
            PostconditionVerdict::VerifiedPass => "verified_pass"@,
            PostconditionVerdict::VerifiedFail => "verified_fail"@,
            PostconditionVerdict::Unknown => "unknown"@,
        }
    }

    pub fn code(self) -> (r: &'static str)
        ensures
            r@ == self.spec_code(),
    {
        match self {
            PostconditionVerdict::VerifiedPass => "verified_pass",
            PostconditionVerdict::VerifiedFail => "verified_fail",
            PostconditionVerdict::Unknown => "unknown",
        }
    }
}

/// The outcome of a reconciliation: unexpected if any postcondition failed, else
/// unresolved if any is unknown, else as expected.
pub open spec fn outcome_of(verdicts: Seq<PostconditionVerdict>) -> ReconciliationStatus {
    if verdicts.contains(PostconditionVerdict::VerifiedFail) {
        ReconciliationStatus::VerifiedUnexpected
    } else if verdicts.contains(PostconditionVerdict::Unknown) {
        ReconciliationStatus::ReconciliationRequired
    } else {
        ReconciliationStatus::VerifiedExpected
    }
}

proof fn lemma_push_contains<T>(s: Seq<T>, v: T, x: T)
    ensures
        s.push(v).contains(x) <==> (s.contains(x) || v == x),
{
    let t = s.push(v);
    assert(t[s.len() as int] == v);
    if s.contains(x) {
        let j = choose|j: int| 0 <= j < s.len() && s[j] == x;
        assert(t[j] == x);
    }
    if t.contains(x) && v != x {
        let j = choose|j: int| 0 <= j < t.len() && t[j] == x;
        assert(s[j] == x);
    }
}

/// The outcome of a reconciliation from the verdicts of its postconditions.
pub fn reconciliation_outcome(verdicts: &Vec<PostconditionVerdict>) -> (r: ReconciliationStatus)
    ensures
        r == outcome_of(verdicts@),
{
    let mut any_fail = false;
    let mut any_unknown = false;
    let mut i: usize = 0;
    while i < verdicts.len()
        invariant
            i <= verdicts@.len(),
            any_fail == verdicts@.take(i as int).contains(PostconditionVerdict::VerifiedFail),
            any_unknown == verdicts@.take(i as int).contains(PostconditionVerdict::Unknown),
        decreases verdicts@.len() - i,
    {
        let v = verdicts[i];
        proof {
            assert(verdicts@.take(i + 1) == verdicts@.take(i as int).push(v));
            lemma_push_contains(verdicts@.take(i as int), v, PostconditionVerdict::VerifiedFail);
            lemma_push_contains(verdicts@.take(i as int), v, PostconditionVerdict::Unknown);
        }
        match v {
            PostconditionVerdict::VerifiedFail => any_fail = true,
            PostconditionVerdict::Unknown => any_unknown = true,
            PostconditionVerdict::VerifiedPass => {},
        }
        i += 1;
    }
    proof {
        assert(verdicts@.take(i as int) == verdicts@);
    }
    if any_fail {
        ReconciliationStatus::VerifiedUnexpected
    } else if any_unknown {
        ReconciliationStatus::ReconciliationRequired
    } else {
        ReconciliationStatus::VerifiedExpected
    }
}

/// The record of a confirmed action's reconciliation; `A` is the surface authority
/// it was confirmed under.
#[derive(Debug, Clone)]
pub struct ReconciliationRecord<A> {
    pub session_id: u128,
    pub surface_authority: A,
    pub expected_postcondition_contract_refs: Vec<String>,
    pub status: ReconciliationStatus,
    pub proof_ref: Option<String>,
    pub snapshot_version: Option<u64>,
    pub snapshot_route: Option<String>,
    pub detail: Option<String>,
    pub expires_at: u128,
}

/// The first 512 characters of a text, as `bounded_detail` gives them.
pub open spec fn detail_text(s: Seq<char>) -> Seq<char> {
    s.take(if s.len() < 512 { s.len() as int } else { 512 })
}

pub open spec fn opt_view(o: Option<String>) -> Option<Seq<char>> {
    match o {
        Some(s) => Some(s@),
        None => None,
    }
}

impl<A> ReconciliationRecord<A> {
    /// A record for an action just confirmed: waiting for the executor.
    pub fn pending(
        session_id: u128,
        surface_authority: A,
        expected_postcondition_contract_refs: Vec<String>,
        now: u128,
    ) -> (r: Self)
        requires
            now + RECONCILIATION_RECORD_TTL_MS <= u128::MAX,
        ensures
            r.session_id == session_id,
            r.surface_authority == surface_authority,
            r.expected_postcondition_contract_refs@ == expected_postcondition_contract_refs@,
            r.status == ReconciliationStatus::PendingExecutorCompletion,
            r.proof_ref is None,
            r.snapshot_version is None,
            r.snapshot_route is None,
            r.detail is None,
            r.expires_at == now + RECONCILIATION_RECORD_TTL_MS,
    {
        ReconciliationRecord {
            session_id,
            surface_authority,
            expected_postcondition_contract_refs,
            status: ReconciliationStatus::PendingExecutorCompletion,
            proof_ref: None,
            snapshot_version: None,
            snapshot_route: None,
            detail: None,
            expires_at: now + RECONCILIATION_RECORD_TTL_MS,
        }
    }

    /// Records what the executor reported. A failure is final, with its error (at
    /// most 512 characters) as detail; a success waits for a fresh reconciliation.
    /// Gives whether reconciliation goes on.
    pub fn record_executor_result(&mut self, ok: bool, error: Option<&str>, now: u128) -> (r: bool)
        requires
            now + RECONCILIATION_RECORD_TTL_MS <= u128::MAX,
        ensures
            r == ok,
            final(self).expires_at == now + RECONCILIATION_RECORD_TTL_MS,
            final(self).status == if ok {
                ReconciliationStatus::PendingFreshReconciliation
            } else {
                ReconciliationStatus::ExecutorFailed
            },
            !ok ==> opt_view(final(self).detail) == match error {
                Some(e) => Some(detail_text(e@)),
                None => None,
            },
            ok ==> final(self).detail == old(self).detail,
            final(self).session_id == old(self).session_id,
            final(self).surface_authority == old(self).surface_authority,
            final(self).expected_postcondition_contract_refs == old(self).expected_postcondition_contract_refs,
            final(self).proof_ref == old(self).proof_ref,
            final(self).snapshot_version == old(self).snapshot_version,
            final(self).snapshot_route == old(self).snapshot_route,
    {
        self.expires_at = now + RECONCILIATION_RECORD_TTL_MS;
        if !ok {
            self.status = ReconciliationStatus::ExecutorFailed;
            self.detail = match error {
                Some(e) => Some(bounded_detail(e)),
                None => None,
            };
            return false;
        }
        self.status = ReconciliationStatus::PendingFreshReconciliation;
        true
    }

    /// Marks the reconciliation as needing a person, with the reason.
    pub fn require_reconciliation(&mut self, detail: &str, now: u128)
        requires
            now + RECONCILIATION_RECORD_TTL_MS <= u128::MAX,
        ensures
            final(self).status == ReconciliationStatus::ReconciliationRequired,
            opt_view(final(self).detail) == Some(detail@),
            final(self).expires_at == now + RECONCILIATION_RECORD_TTL_MS,
            final(self).session_id == old(self).session_id,
            final(self).surface_authority == old(self).surface_authority,
            final(self).proof_ref == old(self).proof_ref,
            final(self).snapshot_version == old(self).snapshot_version,
            final(self).snapshot_route == old(self).snapshot_route,
    {
        self.status = ReconciliationStatus::ReconciliationRequired;
        self.detail = Some(detail.to_owned());
        self.expires_at = now + RECONCILIATION_RECORD_TTL_MS;
    }

    /// Records the outcome of a fresh reconciliation: its status from the verdicts,
    /// the proof and the snapshot it was read from; an unresolved outcome says so.
    pub fn complete(
        &mut self,
        verdicts: &Vec<PostconditionVerdict>,
        proof_ref: Option<String>,
        snapshot_version: u64,
        snapshot_route: String,
        now: u128,
    )
        requires
            now + RECONCILIATION_RECORD_TTL_MS <= u128::MAX,
        ensures
            final(self).status == outcome_of(verdicts@),
            final(self).proof_ref == proof_ref,
            final(self).snapshot_version == Some(snapshot_version),
            opt_view(final(self).snapshot_route) == Some(snapshot_route@),
            opt_view(final(self).detail) == if outcome_of(verdicts@)
                == ReconciliationStatus::ReconciliationRequired {
                Some("one_or_more_postconditions_unresolved"@)
            } else {
                None
            },
            final(self).expires_at == now + RECONCILIATION_RECORD_TTL_MS,
            final(self).session_id == old(self).session_id,
            final(self).surface_authority == old(self).surface_authority,
    {
        let status = reconciliation_outcome(verdicts);
        self.status = status;
        self.proof_ref = proof_ref;
        self.snapshot_version = Some(snapshot_version);
        self.snapshot_route = Some(snapshot_route);
        self.detail = if status == ReconciliationStatus::ReconciliationRequired {
            Some("one_or_more_postconditions_unresolved".to_owned())
        } else {
            None
        };
        self.expires_at = now + RECONCILIATION_RECORD_TTL_MS;
    }
}

/// What the status route answers: the record of the action when it belongs to the
/// session; 404 when there is none, 409 when it is another session's.
pub fn status_lookup<A>(record: Option<&ReconciliationRecord<A>>, session_id: u128) -> (r: Result<
    &ReconciliationRecord<A>,
    (u16, &'static str),
>)
    ensures
        match record {
            None => r matches Err((status, code)) && status == 404 && code@
                == "managed_consequential_status_not_found"@,
            Some(rec) => if rec.session_id != session_id {
                r matches Err((status, code)) && status == 409 && code@
                    == "managed_consequential_status_session_mismatch"@
            } else {
                r matches Ok(found) && found == rec
            },
        },
{
    match record {
        None => Err((404, "managed_consequential_status_not_found")),
        Some(rec) => if rec.session_id != session_id {
            Err((409, "managed_consequential_status_session_mismatch"))
        } else {
            Ok(rec)
        },
    }
}

/// Why a bound action could not be queued for dispatch.
#[derive(Debug, Clone, Copy, PartialEq, Eq, Structural)]
pub enum BoundCanonicalDispatchError {
    MissingCanonicalEnvelope,
    EnvelopeMismatch,
    ActionIdentityMismatch,
    MissingProviderObservation,
    ProviderIncarnationMismatch,
    TargetIncarnationMismatch,
    InternalCaptureActionUnsupported,
    PublicQueueRejected,
}

pub open spec fn spec_dispatch_error_code(error: BoundCanonicalDispatchError) -> Seq<char> {
    match error {
        BoundCanonicalDispatchError::MissingCanonicalEnvelope => "managed_consequential_binding_missing"@,
        BoundCanonicalDispatchError::EnvelopeMismatch => "managed_consequential_binding_mismatch"@,
        BoundCanonicalDispatchError::ActionIdentityMismatch => "managed_consequential_action_identity_mismatch"@,
        BoundCanonicalDispatchError::MissingProviderObservation => "managed_consequential_observation_authority_missing"@,
        BoundCanonicalDispatchError::ProviderIncarnationMismatch => "managed_consequential_provider_incarnation_stale"@,
        BoundCanonicalDispatchError::TargetIncarnationMismatch => "managed_consequential_target_incarnation_stale"@,
        BoundCanonicalDispatchError::InternalCaptureActionUnsupported => "managed_consequential_internal_action_rejected"@,
        BoundCanonicalDispatchError::PublicQueueRejected => "managed_consequential_dispatch_queue_rejected"@,
    }
}

/// The error code of a refused dispatch.
pub fn dispatch_error_code(error: BoundCanonicalDispatchError) -> (r: &'static str)
    ensures
        r@ == spec_dispatch_error_code(error),
{
    match error {
        BoundCanonicalDispatchError::MissingCanonicalEnvelope => "managed_consequential_binding_missing",
        BoundCanonicalDispatchError::EnvelopeMismatch => "managed_consequential_binding_mismatch",
        BoundCanonicalDispatchError::ActionIdentityMismatch => "managed_consequential_action_identity_mismatch",
        BoundCanonicalDispatchError::MissingProviderObservation => "managed_consequential_observation_authority_missing",
        BoundCanonicalDispatchError::ProviderIncarnationMismatch => "managed_consequential_provider_incarnation_stale",
        BoundCanonicalDispatchError::TargetIncarnationMismatch => "managed_consequential_target_incarnation_stale",
        BoundCanonicalDispatchError::InternalCaptureActionUnsupported => "managed_consequential_internal_action_rejected",
        BoundCanonicalDispatchError::PublicQueueRejected => "managed_consequential_dispatch_queue_rejected",
    }
}


/// The action authority of a session's primary managed surface, as read before
/// and after the fresh snapshot of a plan.
#[derive(Debug, Clone)]
pub struct SurfaceActionAuthority {
    pub authority_ref: String,
    pub provider_incarnation_ref: String,
    pub target_incarnation_ref: String,
    pub generation: u64,
}

/// The provider and target that the session's observation comes from.
#[derive(Debug, Clone)]
pub struct ObservationLineage {
    pub provider_incarnation_ref: String,
    pub target_incarnation_ref: String,
}

pub open spec fn same_authority(a: SurfaceActionAuthority, b: SurfaceActionAuthority) -> bool {
    &&& a.authority_ref@ == b.authority_ref@
    &&& a.provider_incarnation_ref@ == b.provider_incarnation_ref@
    &&& a.target_incarnation_ref@ == b.target_incarnation_ref@
    &&& a.generation == b.generation
}

/// Why a plan is refused once its fresh snapshot is taken, checked in this order:
/// the surface authority changed while the snapshot was taken; no observation
/// lineage; an observation from another provider or target than the authority's;
/// the reference is not in the snapshot; it is not interactive. `node` is whether
/// the referenced node is interactive, where the snapshot holds it.
pub open spec fn spec_plan_refusal(
    before: SurfaceActionAuthority,
    after: SurfaceActionAuthority,
    observation: Option<ObservationLineage>,
    node: Option<bool>,
) -> Option<Seq<char>> {
    if !same_authority(before, after) {
        Some("managed_consequential_surface_authority_changed"@)
    } else {
        match observation {
            None => Some("managed_consequential_observation_authority_missing"@),
            Some(o) => if o.provider_incarnation_ref@ != after.provider_incarnation_ref@
                || o.target_incarnation_ref@ != after.target_incarnation_ref@ {
                Some("managed_consequential_independent_provider_observation"@)
            } else {
                match node {
                    None => Some("managed_consequential_reference_not_in_fresh_snapshot"@),
                    Some(interactive) => if interactive {
                        None
                    } else {
                        Some("managed_consequential_reference_not_interactive"@)
                    },
                }
            },
        }
    }
}

pub open spec fn lineage_of(o: Option<&ObservationLineage>) -> Option<ObservationLineage> {
    match o {
        Some(x) => Some(*x),
        None => None,
    }
}

/// The error code (answered with a conflict) that refuses a plan once its fresh
/// snapshot is taken, or none when the plan may be bound.
pub fn plan_refusal(
    before: &SurfaceActionAuthority,
    after: &SurfaceActionAuthority,
    observation: Option<&ObservationLineage>,
    node: Option<bool>,
) -> (r: Option<&'static str>)
    ensures
        match r {
            Some(code) => spec_plan_refusal(*before, *after, lineage_of(observation), node) == Some(code@),
            None => spec_plan_refusal(*before, *after, lineage_of(observation), node) is None,
        },
{
    if !(crate::text::str_eq(before.authority_ref.as_str(), after.authority_ref.as_str()) && crate::text::str_eq(
        before.provider_incarnation_ref.as_str(),
        after.provider_incarnation_ref.as_str(),
    ) && crate::text::str_eq(before.target_incarnation_ref.as_str(), after.target_incarnation_ref.as_str())
        && before.generation == after.generation) {
        return Some("managed_consequential_surface_authority_changed");
    }
    match observation {
        None => Some("managed_consequential_observation_authority_missing"),
        Some(o) => {
            if !crate::text::str_eq(o.provider_incarnation_ref.as_str(), after.provider_incarnation_ref.as_str())
                || !crate::text::str_eq(o.target_incarnation_ref.as_str(), after.target_incarnation_ref.as_str()) {
                return Some("managed_consequential_independent_provider_observation");
            }
            match node {
                None => Some("managed_consequential_reference_not_in_fresh_snapshot"),
                Some(interactive) => if interactive {
                    None
                } else {
                    Some("managed_consequential_reference_not_interactive")
                },
            }
        },
    }
}


pub const MAX_POSTCONDITION_CONTRACTS: usize = 8;

pub const MAX_POSTCONDITION_CONTRACT_REF_BYTES: usize = 4096;

/// The `i`th expected postcondition contract reference is acceptable: not empty, at
/// most 4096 bytes, without control characters, not a repeat of an earlier one,
/// and one that the postcondition registry decodes as a web-semantic contract
/// (`registered[i]`, which the caller learns from the registry).
pub open spec fn acceptable_contract_ref(refs: Seq<String>, registered: Seq<bool>, i: int) -> bool {
    &&& refs[i]@.len() > 0
    &&& byte_len(refs[i]@) <= MAX_POSTCONDITION_CONTRACT_REF_BYTES
    &&& !any_control(refs[i]@)
    &&& forall|j: int| 0 <= j < i ==> (#[trigger] refs[j])@ != refs[i]@
    &&& registered[i]
}

/// A plan's expected postcondition contracts are acceptable: one to eight of them,
/// each acceptable.
pub open spec fn spec_valid_postcondition_refs(refs: Seq<String>, registered: Seq<bool>) -> bool {
    &&& 0 < refs.len() <= MAX_POSTCONDITION_CONTRACTS
    &&& forall|i: int| 0 <= i < refs.len() ==> #[trigger] acceptable_contract_ref(refs, registered, i)
}

/// Whether a plan's expected postcondition contract references are acceptable;
/// `registered[i]` is whether the registry decodes `refs[i]` as a web-semantic
/// contract.
pub fn valid_postcondition_refs(refs: &Vec<String>, registered: &Vec<bool>) -> (r: bool)
    requires
        refs@.len() == registered@.len(),
    ensures
        r == spec_valid_postcondition_refs(refs@, registered@),
{
    if refs.len() == 0 || refs.len() > MAX_POSTCONDITION_CONTRACTS {
        return false;
    }
    let mut i: usize = 0;
    while i < refs.len()
        invariant
            i <= refs@.len(),
            refs@.len() == registered@.len(),
            forall|k: int| 0 <= k < i ==> #[trigger] acceptable_contract_ref(refs@, registered@, k),
        decreases refs@.len() - i,
    {
        let v = chars_of(refs[i].as_str());
        proof {
            assert(v@.subrange(0, v@.len() as int) == v@);
        }
        if v.len() == 0 || byte_len_within(
            v.as_slice(),
            0,
            v.len(),
            MAX_POSTCONDITION_CONTRACT_REF_BYTES,
        ).is_none() || crate::text::has_control(v.as_slice()) || !registered[i] {
            proof {
                assert(!acceptable_contract_ref(refs@, registered@, i as int));
            }
            return false;
        }
        let mut j: usize = 0;
        while j < i
            invariant
                j <= i < refs@.len(),
                forall|k: int| 0 <= k < j ==> (#[trigger] refs@[k])@ != refs@[i as int]@,
            decreases i - j,
        {
            if crate::text::str_eq(refs[j].as_str(), refs[i].as_str()) {
                proof {
                    assert(!acceptable_contract_ref(refs@, registered@, i as int));
                }
                return false;
            }
            j += 1;
        }
        proof {
            assert(acceptable_contract_ref(refs@, registered@, i as int));
        }
        i += 1;
    }
    true
}

} // verus!
