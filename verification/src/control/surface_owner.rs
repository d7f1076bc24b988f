//! Ownership of native surfaces by client instances that must keep reporting in.
use vstd::prelude::*;

verus! {

/// How long an owner may stay silent before its surfaces are reclaimed, in
/// nanoseconds (15 seconds).
pub const SURFACE_OWNER_TTL_NANOS: u128 = 15_000_000_000;

/// Whether an owner last seen at `last_seen_nanos` has expired at `now_nanos`
/// (both on one monotonic clock): at least the time to live has passed. A
/// `now` before the last sighting never expires it.
pub fn owner_expired(last_seen_nanos: u128, now_nanos: u128) -> (r: bool)
    ensures
        r == (now_nanos >= last_seen_nanos && now_nanos - last_seen_nanos >= SURFACE_OWNER_TTL_NANOS),
{
    match now_nanos.checked_sub(last_seen_nanos) {
        Some(elapsed) => elapsed >= SURFACE_OWNER_TTL_NANOS,
        None => false,
    }
}


pub open spec fn expired(last_seen_nanos: u128, now_nanos: u128) -> bool {
    now_nanos >= last_seen_nanos && now_nanos - last_seen_nanos >= SURFACE_OWNER_TTL_NANOS
}

/// What an owner instance presents with each request.
#[derive(Debug, Clone, Copy, PartialEq, Eq, Structural)]
pub struct SurfaceOwnerProof {
    pub owner_instance_id: u128,
    pub boot_epoch: u128,
    pub owner_lease_id: u128,
}

/// What a registration hands the owner instance.
#[derive(Debug, Clone, Copy, PartialEq, Eq, Structural)]
pub struct SurfaceOwnerRegistration {
    pub owner_instance_id: u128,
    pub boot_epoch: u128,
    pub owner_lease_id: u128,
    pub recovery_required: bool,
}

#[derive(Debug, Clone, Copy, PartialEq, Eq, Structural)]
pub enum SurfaceOwnerError {
    NotRegistered,
    BootEpochMismatch,
    LeaseMismatch,
}

impl SurfaceOwnerError {
    pub open spec fn spec_code(self) -> Seq<char> {
        match self {
            SurfaceOwnerError::NotRegistered => "surface_owner_not_registered"@,
            SurfaceOwnerError::BootEpochMismatch => "surface_owner_boot_epoch_mismatch"@,
            SurfaceOwnerError::LeaseMismatch => "surface_owner_lease_mismatch"@,
        }
    }

    /// The error code with which a surface request is refused.
    pub fn code(self) -> (r: &'static str)
        ensures
            r@ == self.spec_code(),
    {
        match self {
            SurfaceOwnerError::NotRegistered => "surface_owner_not_registered",
            SurfaceOwnerError::BootEpochMismatch => "surface_owner_boot_epoch_mismatch",
            SurfaceOwnerError::LeaseMismatch => "surface_owner_lease_mismatch",
        }
    }
}

/// An owner's current lease and when it was last seen.
#[derive(Debug, Clone, Copy, PartialEq, Eq, Structural)]
pub struct OwnerLease {
    pub owner_lease_id: u128,
    pub last_seen_nanos: u128,
}

pub open spec fn has_owner(s: Seq<(u128, OwnerLease)>, owner: u128) -> bool {
    exists|i: int| 0 <= i < s.len() && #[trigger] s[i].0 == owner
}

/// The lease of an owner.
pub open spec fn lease_of(s: Seq<(u128, OwnerLease)>, owner: u128) -> Option<OwnerLease> {
    if has_owner(s, owner) {
        Some(s[choose|i: int| 0 <= i < s.len() && #[trigger] s[i].0 == owner].1)
    } else {
        None
    }
}

pub open spec fn ascending(s: Seq<(u128, OwnerLease)>) -> bool {
    forall|i: int, j: int| 0 <= i < j < s.len() ==> s[i].0 < s[j].0
}

/// Whether a proof is current: the boot epoch, a registered owner, its lease, and
/// not expired.
pub open spec fn owner_check(
    leases: Seq<(u128, OwnerLease)>,
    boot_epoch: u128,
    proof: SurfaceOwnerProof,
    now_nanos: u128,
) -> Result<(), SurfaceOwnerError> {
    if proof.boot_epoch != boot_epoch {
        Err(SurfaceOwnerError::BootEpochMismatch)
    } else {
        match lease_of(leases, proof.owner_instance_id) {
            None => Err(SurfaceOwnerError::NotRegistered),
            Some(l) => if proof.owner_lease_id != l.owner_lease_id {
                Err(SurfaceOwnerError::LeaseMismatch)
            } else if expired(l.last_seen_nanos, now_nanos) {
                Err(SurfaceOwnerError::NotRegistered)
            } else {
                Ok(())
            },
        }
    }
}

proof fn lemma_lease_at(s: Seq<(u128, OwnerLease)>, i: int)
    requires
        ascending(s),
        0 <= i < s.len(),
    ensures
        lease_of(s, s[i].0) == Some(s[i].1),
{
    assert(has_owner(s, s[i].0));
    let j = choose|j: int| 0 <= j < s.len() && #[trigger] s[j].0 == s[i].0;
    if j < i {
        assert(s[j].0 < s[i].0);
    } else if j > i {
        assert(s[i].0 < s[j].0);
    }
}

/// The owner instances of one daemon run, each with its lease, in ascending order.
pub struct SurfaceOwners {
    boot_epoch: u128,
    leases: Vec<(u128, OwnerLease)>,
}

impl SurfaceOwners {
    #[verifier::type_invariant]
    spec fn ordered(&self) -> bool {
        ascending(self.leases@)
    }

    pub closed spec fn epoch(&self) -> u128 {
        self.boot_epoch
    }

    pub closed spec fn lease_list(&self) -> Seq<(u128, OwnerLease)> {
        self.leases@
    }

    /// The registry of a daemon run, with that run's boot epoch.
    pub fn new(boot_epoch: u128) -> (r: Self)
        ensures
            r.epoch() == boot_epoch,
            r.lease_list().len() == 0,
    {
        SurfaceOwners { boot_epoch, leases: Vec::new() }
    }

    pub fn boot_epoch(&self) -> (r: u128)
        ensures
            r == self.epoch(),
    {
        self.boot_epoch
    }

    /// Where an owner stands, or where it would be inserted.
    fn slot(&self, owner: u128) -> (r: (usize, bool))
        ensures
            r.0 <= self.leases@.len(),
            forall|i: int| 0 <= i < r.0 ==> self.leases@[i].0 < owner,
            r.1 ==> r.0 < self.leases@.len() && self.leases@[r.0 as int].0 == owner,
            !r.1 ==> forall|i: int| r.0 <= i < self.leases@.len() ==> self.leases@[i].0 > owner,
    {
        proof {
            use_type_invariant(self);
        }
        let mut i: usize = 0;
        while i < self.leases.len()
            invariant
                i <= self.leases@.len(),
                ascending(self.leases@),
                forall|k: int| 0 <= k < i ==> self.leases@[k].0 < owner,
            decreases self.leases@.len() - i,
        {
            let k = self.leases[i].0;
            if k == owner {
                return (i, true);
            }
            if k > owner {
                return (i, false);
            }
            i += 1;
        }
        (i, false)
    }

    /// Registers an owner instance under a fresh lease, in place of a lease it may
    /// have had, as seen now.
    pub fn register(&mut self, owner_instance_id: u128, owner_lease_id: u128, now_nanos: u128, recovery_required: bool) -> (r:
        SurfaceOwnerRegistration)
        ensures
            r == (SurfaceOwnerRegistration {
                owner_instance_id,
                boot_epoch: old(self).epoch(),
                owner_lease_id,
                recovery_required,
            }),
            final(self).epoch() == old(self).epoch(),
            lease_of(final(self).lease_list(), owner_instance_id) == Some(
                OwnerLease { owner_lease_id, last_seen_nanos: now_nanos },
            ),
            forall|o: u128| o != owner_instance_id ==> lease_of(final(self).lease_list(), o) == lease_of(
                old(self).lease_list(),
                o,
            ),
    {
        proof {
            use_type_invariant(&*self);
        }
        let ghost before = self.leases@;
        let (at, present) = self.slot(owner_instance_id);
        let lease = OwnerLease { owner_lease_id, last_seen_nanos: now_nanos };
        let mut leases: Vec<(u128, OwnerLease)> = Vec::new();
        std::mem::swap(&mut leases, &mut self.leases);
        if present {
            leases.set(at, (owner_instance_id, lease));
        } else {
            leases.insert(at, (owner_instance_id, lease));
        }
        let ghost after = leases@;
        proof {
            assert(ascending(after)) by {
                assert forall|i: int, j: int| 0 <= i < j < after.len() implies after[i].0 < after[j].0 by {
                    if present {
                        if i != at && j != at {
                            assert(after[i] == before[i] && after[j] == before[j]);
                        }
                    } else {
                        if i < at && j < at {
                            assert(after[i] == before[i] && after[j] == before[j]);
                        } else if i < at && j > at {
                            assert(after[j] == before[j - 1]);
                        } else if i > at {
                            assert(after[i] == before[i - 1] && after[j] == before[j - 1]);
                        } else if i == at {
                            assert(after[j] == before[j - 1]);
                        }
                    }
                }
            }
            lemma_lease_at(after, at as int);
            assert forall|o: u128| o != owner_instance_id implies lease_of(after, o) == lease_of(before, o) by {
                if has_owner(before, o) {
                    let i = choose|i: int| 0 <= i < before.len() && #[trigger] before[i].0 == o;
                    lemma_lease_at(before, i);
                    let ni = if present || i < at { i } else { i + 1 };
                    assert(after[ni] == before[i]);
                    lemma_lease_at(after, ni);
                } else if has_owner(after, o) {
                    let i = choose|i: int| 0 <= i < after.len() && #[trigger] after[i].0 == o;
                    if present {
                        assert(i != at);
                        assert(before[i].0 == o);
                    } else if i < at {
                        assert(before[i].0 == o);
                    } else {
                        assert(i != at);
                        assert(before[i - 1].0 == o);
                    }
                }
            }
        }
        self.leases = leases;
        SurfaceOwnerRegistration { owner_instance_id, boot_epoch: self.boot_epoch, owner_lease_id, recovery_required }
    }

    /// Checks an owner's proof at a moment: see `owner_check`.
    pub fn validate(&self, proof: SurfaceOwnerProof, now_nanos: u128) -> (r: Result<(), SurfaceOwnerError>)
        ensures
            r == owner_check(self.lease_list(), self.epoch(), proof, now_nanos),
    {
        proof {
            use_type_invariant(self);
        }
        if proof.boot_epoch != self.boot_epoch {
            return Err(SurfaceOwnerError::BootEpochMismatch);
        }
        let (at, present) = self.slot(proof.owner_instance_id);
        if !present {
            proof {
                if has_owner(self.leases@, proof.owner_instance_id) {
                    let i = choose|i: int| 0 <= i < self.leases@.len() && #[trigger] self.leases@[i].0 == proof.owner_instance_id;
                    if i >= at as int {
                        assert(self.leases@[i].0 > proof.owner_instance_id);
                    }
                }
            }
            return Err(SurfaceOwnerError::NotRegistered);
        }
        proof {
            lemma_lease_at(self.leases@, at as int);
        }
        let current = self.leases[at].1;
        if proof.owner_lease_id != current.owner_lease_id {
            return Err(SurfaceOwnerError::LeaseMismatch);
        }
        if owner_expired(current.last_seen_nanos, now_nanos) {
            return Err(SurfaceOwnerError::NotRegistered);
        }
        Ok(())
    }

    /// Checks an owner's proof and, where it is current, records that the owner was
    /// seen now.
    pub fn heartbeat(&mut self, proof: SurfaceOwnerProof, now_nanos: u128) -> (r: Result<(), SurfaceOwnerError>)
        ensures
            r == owner_check(old(self).lease_list(), old(self).epoch(), proof, now_nanos),
            final(self).epoch() == old(self).epoch(),
            r is Ok ==> lease_of(final(self).lease_list(), proof.owner_instance_id) == Some(
                OwnerLease { owner_lease_id: proof.owner_lease_id, last_seen_nanos: now_nanos },
            ),
            r is Err ==> final(self).lease_list() == old(self).lease_list(),
            forall|o: u128| o != proof.owner_instance_id ==> lease_of(final(self).lease_list(), o) == lease_of(
                old(self).lease_list(),
                o,
            ),
    {
        let checked = self.validate(proof, now_nanos);
        if checked.is_err() {
            return checked;
        }
        let _ = self.register(proof.owner_instance_id, proof.owner_lease_id, now_nanos, false);
        Ok(())
    }

    /// Forgets every owner that has expired at a moment; gives them in ascending
    /// order.
    pub fn reap_expired(&mut self, now_nanos: u128) -> (r: Vec<u128>)
        ensures
            final(self).epoch() == old(self).epoch(),
            forall|o: u128| lease_of(final(self).lease_list(), o) == match lease_of(old(self).lease_list(), o) {
                Some(l) => if expired(l.last_seen_nanos, now_nanos) {
                    None
                } else {
                    Some(l)
                },
                None => None,
            },
            forall|o: u128| r@.contains(o) <==> (lease_of(old(self).lease_list(), o) matches Some(l) && expired(
                l.last_seen_nanos,
                now_nanos,
            )),
            forall|i: int, j: int| 0 <= i < j < r@.len() ==> r@[i] < r@[j],
    {
        proof {
            use_type_invariant(&*self);
        }
        let ghost orig = self.leases@;
        let mut rest: Vec<(u128, OwnerLease)> = Vec::new();
        std::mem::swap(&mut rest, &mut self.leases);
        let mut kept: Vec<(u128, OwnerLease)> = Vec::new();
        let mut gone: Vec<u128> = Vec::new();
        let ghost mut i: int = 0;
        proof {
            assert(rest@ == orig.skip(0));
        }
        while rest.len() > 0
            invariant
                0 <= i <= orig.len(),
                ascending(orig),
                rest@ == orig.skip(i),
                ascending(kept@),
                forall|k: int, j: int| 0 <= k < kept@.len() && i <= j < orig.len() ==> kept@[k].0 < orig[j].0,
                forall|k: int, j: int| 0 <= k < gone@.len() && i <= j < orig.len() ==> gone@[k] < orig[j].0,
                forall|a: int, b: int| 0 <= a < b < gone@.len() ==> gone@[a] < gone@[b],
                forall|k: int| 0 <= k < kept@.len() ==> orig.contains(#[trigger] kept@[k]) && !expired(kept@[k].1.last_seen_nanos, now_nanos),
                forall|k: int| 0 <= k < i && !expired((#[trigger] orig[k]).1.last_seen_nanos, now_nanos) ==> kept@.contains(orig[k]),
                forall|o: u128| gone@.contains(o) <==> (exists|k: int| 0 <= k < i && (#[trigger] orig[k]).0 == o && expired(orig[k].1.last_seen_nanos, now_nanos)),
            decreases rest@.len(),
        {
            let e = rest.remove(0);
            proof {
                assert(e == orig[i]);
                assert(rest@ == orig.skip(i + 1));
            }
            if owner_expired(e.1.last_seen_nanos, now_nanos) {
                let ghost before = gone@;
                gone.push(e.0);
                proof {
                    assert forall|o: u128| gone@.contains(o) <==> (exists|k: int| 0 <= k < i + 1 && (#[trigger] orig[k]).0 == o && expired(orig[k].1.last_seen_nanos, now_nanos)) by {
                        lemma_push_has(before, e.0, o);
                        if o == e.0 {
                            assert(orig[i].0 == o);
                        }
                    }
                }
            } else {
                let ghost before = kept@;
                kept.push(e);
                proof {
                    assert forall|k: int| 0 <= k < i + 1 && !expired((#[trigger] orig[k]).1.last_seen_nanos, now_nanos) implies kept@.contains(orig[k]) by {
                        lemma_push_has(before, e, orig[k]);
                    }
                    assert forall|k: int| 0 <= k < kept@.len() implies orig.contains(#[trigger] kept@[k]) && !expired(kept@[k].1.last_seen_nanos, now_nanos) by {
                        if k == before.len() {
                            assert(orig[i] == e);
                        }
                    }
                }
            }
            proof {
                i = i + 1;
            }
        }
        proof {
            let k = kept@;
            assert forall|o: u128| lease_of(k, o) == match lease_of(orig, o) {
                Some(l) => if expired(l.last_seen_nanos, now_nanos) { None } else { Some(l) },
                None => None,
            } by {
                if has_owner(orig, o) {
                    let m = choose|m: int| 0 <= m < orig.len() && #[trigger] orig[m].0 == o;
                    lemma_lease_at(orig, m);
                    if !expired(orig[m].1.last_seen_nanos, now_nanos) {
                        assert(k.contains(orig[m]));
                        let n = choose|n: int| 0 <= n < k.len() && k[n] == orig[m];
                        lemma_lease_at(k, n);
                    } else if has_owner(k, o) {
                        let n = choose|n: int| 0 <= n < k.len() && #[trigger] k[n].0 == o;
                        assert(orig.contains(k[n]));
                        let p = choose|p: int| 0 <= p < orig.len() && orig[p] == k[n];
                        if p < m {
                            assert(orig[p].0 < orig[m].0);
                        } else if p > m {
                            assert(orig[m].0 < orig[p].0);
                        }
                    }
                } else if has_owner(k, o) {
                    let n = choose|n: int| 0 <= n < k.len() && #[trigger] k[n].0 == o;
                    assert(orig.contains(k[n]));
                    let p = choose|p: int| 0 <= p < orig.len() && orig[p] == k[n];
                    assert(orig[p].0 == o);
                }
            }
            assert forall|o: u128| gone@.contains(o) <==> (lease_of(orig, o) matches Some(l) && expired(l.last_seen_nanos, now_nanos)) by {
                if gone@.contains(o) {
                    let m = choose|m: int| 0 <= m < i && (#[trigger] orig[m]).0 == o && expired(orig[m].1.last_seen_nanos, now_nanos);
                    lemma_lease_at(orig, m);
                }
                if lease_of(orig, o) matches Some(l) && expired(l.last_seen_nanos, now_nanos) {
                    let m = choose|m: int| 0 <= m < orig.len() && #[trigger] orig[m].0 == o;
                    lemma_lease_at(orig, m);
                }
            }
        }
        self.leases = kept;
        gone
    }
}

proof fn lemma_push_has<T>(s: Seq<T>, v: T, x: T)
    ensures
        s.push(v).contains(x) <==> (s.contains(x) || v == x),
{
    let t = s.push(v);
    assert(t[s.len() as int] == v);
    if s.contains(x) {
        let j = choose|j: int| 0 <= j < s.len() && s[j] == x;
        assert(t[j] == x);
    }
    if t.contains(x) && v != x {
        let j = choose|j: int| 0 <= j < t.len() && t[j] == x;
        assert(s[j] == x);
    }
}

/// A heartbeat keeps an owner current until the time to live has passed since it.
pub proof fn lemma_heartbeat_keeps_owner_current(
    leases: Seq<(u128, OwnerLease)>,
    boot_epoch: u128,
    proof: SurfaceOwnerProof,
    seen_nanos: u128,
    later_nanos: u128,
)
    requires
        lease_of(leases, proof.owner_instance_id) == Some(
            OwnerLease { owner_lease_id: proof.owner_lease_id, last_seen_nanos: seen_nanos },
        ),
        proof.boot_epoch == boot_epoch,
        later_nanos < seen_nanos + SURFACE_OWNER_TTL_NANOS,
    ensures
        owner_check(leases, boot_epoch, proof, later_nanos) is Ok,
{
}

/// A new registration revokes the owner's earlier lease: a proof that carries any
/// other lease is refused.
pub proof fn lemma_registration_revokes_earlier_leases(
    leases: Seq<(u128, OwnerLease)>,
    boot_epoch: u128,
    proof: SurfaceOwnerProof,
    fresh_lease: u128,
    seen_nanos: u128,
    now_nanos: u128,
)
    requires
        lease_of(leases, proof.owner_instance_id) == Some(
            OwnerLease { owner_lease_id: fresh_lease, last_seen_nanos: seen_nanos },
        ),
        proof.boot_epoch == boot_epoch,
        proof.owner_lease_id != fresh_lease,
    ensures
        owner_check(leases, boot_epoch, proof, now_nanos) == Err::<(), SurfaceOwnerError>(SurfaceOwnerError::LeaseMismatch),
{
}

/// Once its time to live has passed, an owner is refused whatever it presents.
pub proof fn lemma_expired_owner_is_refused(
    leases: Seq<(u128, OwnerLease)>,
    boot_epoch: u128,
    proof: SurfaceOwnerProof,
    now_nanos: u128,
)
    requires
        lease_of(leases, proof.owner_instance_id) matches Some(l) && expired(l.last_seen_nanos, now_nanos),
    ensures
        owner_check(leases, boot_epoch, proof, now_nanos) is Err,
{
}

} // verus!
