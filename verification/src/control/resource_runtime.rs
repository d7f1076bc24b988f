//! Native surface resources: validation of requests, and the reservations,
//! activations and live leases of each session's surfaces.
use vstd::prelude::*;
use crate::text::{any_control, byte_len, byte_len_within, chars_of, has_control, seq_lt};

verus! {

pub open spec fn spec_valid_request_id(v: Seq<char>) -> bool {
    v.len() > 0 && byte_len(v) <= 160 && !any_control(v)
}

pub fn valid_request_id(value: &str) -> (r: bool)
    ensures
        r == spec_valid_request_id(value@),
{
    let v = chars_of(value);
    proof {
        assert(v@.subrange(0, v@.len() as int) == v@);
    }
    v.len() > 0 && byte_len_within(v.as_slice(), 0, v.len(), 160).is_some() && !has_control(v.as_slice())
}


/// The most bytes of a surface label.
pub const MAX_SURFACE_LABEL_BYTES: usize = 160;

/// A native surface that a session shows: its kind, its label and its incarnation.
#[derive(Debug, Clone, PartialEq, Eq)]
pub struct LiveSurfaceIdentity {
    pub surface_kind: String,
    pub label: String,
    pub incarnation: u64,
}

/// A surface identity, as a value of the specification.
pub struct IdentityView {
    pub kind: Seq<char>,
    pub label: Seq<char>,
    pub incarnation: u64,
}

pub open spec fn identity_view(i: LiveSurfaceIdentity) -> IdentityView {
    IdentityView { kind: i.surface_kind@, label: i.label@, incarnation: i.incarnation }
}

/// Whether a surface identity may be claimed: a preview window or a workspace child,
/// with a label of 1 to 160 bytes and no control character.
pub open spec fn valid_identity(kind: Seq<char>, label: Seq<char>) -> bool {
    (kind == "preview_window"@ || kind == "workspace_child"@) && label.len() > 0 && byte_len(label)
        <= MAX_SURFACE_LABEL_BYTES && !any_control(label)
}

/// The identity of a surface, where it may be claimed.
pub fn surface_identity(surface_kind: String, label: String, incarnation: u64) -> (r: Option<LiveSurfaceIdentity>)
    ensures
        match r {
            Some(i) => valid_identity(surface_kind@, label@) && identity_view(i) == (IdentityView {
                kind: surface_kind@,
                label: label@,
                incarnation,
            }),
            None => !valid_identity(surface_kind@, label@),
        },
{
    let k = chars_of(surface_kind.as_str());
    if !crate::text::eq_lit(k.as_slice(), "preview_window") && !crate::text::eq_lit(k.as_slice(), "workspace_child") {
        return None;
    }
    let l = chars_of(label.as_str());
    proof {
        assert(l@.subrange(0, l@.len() as int) == l@);
    }
    if l.len() == 0 || byte_len_within(l.as_slice(), 0, l.len(), MAX_SURFACE_LABEL_BYTES).is_none() || has_control(
        l.as_slice(),
    ) {
        return None;
    }
    Some(LiveSurfaceIdentity { surface_kind, label, incarnation })
}

/// A claim on a surface: the owner instance, the session, and the surface.
#[derive(Debug, Clone, PartialEq, Eq)]
pub struct SurfaceClaim {
    pub owner: u128,
    pub session: u128,
    pub identity: LiveSurfaceIdentity,
}

pub struct ClaimView {
    pub owner: u128,
    pub session: u128,
    pub kind: Seq<char>,
    pub label: Seq<char>,
    pub incarnation: u64,
}

pub open spec fn claim_view(c: SurfaceClaim) -> ClaimView {
    ClaimView {
        owner: c.owner,
        session: c.session,
        kind: c.identity.surface_kind@,
        label: c.identity.label@,
        incarnation: c.identity.incarnation,
    }
}

/// A reservation's key: the owner instance, the session and the request.
pub open spec fn reservation_key(k: (u128, u128, String)) -> (u128, u128, Seq<char>) {
    (k.0, k.1, k.2@)
}

/// The entry stored last under a key.
pub open spec fn lookup<K, KV, V>(s: Seq<(K, V)>, kv: spec_fn(K) -> KV, k: KV) -> Option<V>
    decreases s.len(),
{
    if s.len() == 0 {
        None
    } else if kv(s.last().0) == k {
        Some(s.last().1)
    } else {
        lookup(s.drop_last(), kv, k)
    }
}

/// The entries under other keys, in order.
pub open spec fn without<K, KV, V>(s: Seq<(K, V)>, kv: spec_fn(K) -> KV, k: KV) -> Seq<(K, V)>
    decreases s.len(),
{
    if s.len() == 0 {
        s
    } else if kv(s.last().0) == k {
        without(s.drop_last(), kv, k)
    } else {
        without(s.drop_last(), kv, k).push(s.last())
    }
}

pub proof fn lemma_lookup_without<K, KV, V>(s: Seq<(K, V)>, kv: spec_fn(K) -> KV, k: KV, k2: KV)
    ensures
        lookup(without(s, kv, k), kv, k2) == if k2 == k {
            None
        } else {
            lookup(s, kv, k2)
        },
    decreases s.len(),
{
    if s.len() > 0 {
        lemma_lookup_without(s.drop_last(), kv, k, k2);
        if kv(s.last().0) != k {
            assert(without(s, kv, k).drop_last() == without(s.drop_last(), kv, k));
        }
    }
}

/// The surfaces of a session: reservations waiting for activation, claims being
/// activated, and live surfaces with their leases. `R` is a reservation of the
/// resource governor and `L` a live lease.
pub struct SurfaceResources<R, L> {
    pending: Vec<((u128, u128, String), R)>,
    activating: Vec<SurfaceClaim>,
    live: Vec<(SurfaceClaim, L)>,
}

pub open spec fn claims_view(s: Seq<SurfaceClaim>) -> Seq<ClaimView> {
    s.map_values(|c: SurfaceClaim| claim_view(c))
}

pub open spec fn live_claims<L>(s: Seq<(SurfaceClaim, L)>) -> Seq<ClaimView> {
    s.map_values(|e: (SurfaceClaim, L)| claim_view(e.0))
}

/// Whether a claim is on the surface of this session, kind and label.
pub open spec fn on_surface(c: ClaimView, session: u128, kind: Seq<char>, label: Seq<char>) -> bool {
    c.session == session && c.kind == kind && c.label == label
}

impl<R, L> SurfaceResources<R, L> {
    pub closed spec fn pending_entries(&self) -> Seq<((u128, u128, String), R)> {
        self.pending@
    }

    pub closed spec fn activating_claims(&self) -> Seq<ClaimView> {
        claims_view(self.activating@)
    }

    pub closed spec fn live_entries(&self) -> Seq<(SurfaceClaim, L)> {
        self.live@
    }

    /// The reservation waiting under a key.
    pub open spec fn reservation(&self, key: (u128, u128, Seq<char>)) -> Option<R> {
        lookup(self.pending_entries(), rkey(), key)
    }

    /// The lease of a live claim.
    pub open spec fn lease(&self, claim: ClaimView) -> Option<L> {
        lookup(self.live_entries(), ckey(), claim)
    }

    /// Whether the surface is live or being activated, under any owner.
    pub open spec fn claimed(&self, session: u128, kind: Seq<char>, label: Seq<char>) -> bool {
        (exists|i: int| 0 <= i < self.live_entries().len() && on_surface(#[trigger] claim_view(self.live_entries()[i].0), session, kind, label))
            || (exists|i: int| 0 <= i < self.activating_claims().len() && on_surface(#[trigger] self.activating_claims()[i], session, kind, label))
    }

    pub fn new() -> (r: Self)
        ensures
            r.pending_entries().len() == 0,
            r.activating_claims().len() == 0,
            r.live_entries().len() == 0,
    {
        SurfaceResources { pending: Vec::new(), activating: Vec::new(), live: Vec::new() }
    }
}



pub open spec fn rkey() -> spec_fn((u128, u128, String)) -> (u128, u128, Seq<char>) {
    |k: (u128, u128, String)| reservation_key(k)
}

pub open spec fn ckey() -> spec_fn(SurfaceClaim) -> ClaimView {
    |c: SurfaceClaim| claim_view(c)
}

fn same_reservation_key(k: &(u128, u128, String), owner: u128, session: u128, request_id: &str) -> (r: bool)
    ensures
        r == (reservation_key(*k) == (owner, session, request_id@)),
{
    let (o, s, rid) = k;
    let same = crate::text::str_eq(rid.as_str(), request_id);
    proof {
        assert(reservation_key(*k) == (*o, *s, rid@));
    }
    *o == owner && *s == session && same
}

fn copy_claim(c: &SurfaceClaim) -> (r: SurfaceClaim)
    ensures
        claim_view(r) == claim_view(*c),
{
    SurfaceClaim {
        owner: c.owner,
        session: c.session,
        identity: LiveSurfaceIdentity {
            surface_kind: c.identity.surface_kind.clone(),
            label: c.identity.label.clone(),
            incarnation: c.identity.incarnation,
        },
    }
}

fn same_claim(a: &SurfaceClaim, b: &SurfaceClaim) -> (r: bool)
    ensures
        r == (claim_view(*a) == claim_view(*b)),
{
    a.owner == b.owner && a.session == b.session && a.identity.incarnation == b.identity.incarnation
        && crate::text::str_eq(a.identity.surface_kind.as_str(), b.identity.surface_kind.as_str())
        && crate::text::str_eq(a.identity.label.as_str(), b.identity.label.as_str())
}

/// Whether a claim is on the surface of another claim (same session, kind, label).
fn same_surface(a: &SurfaceClaim, session: u128, identity: &LiveSurfaceIdentity) -> (r: bool)
    ensures
        r == on_surface(claim_view(*a), session, identity.surface_kind@, identity.label@),
{
    a.session == session && crate::text::str_eq(a.identity.surface_kind.as_str(), identity.surface_kind.as_str())
        && crate::text::str_eq(a.identity.label.as_str(), identity.label.as_str())
}

/// Live claims ordered as the live map orders them among claims of one session
/// and kind: by owner, then label, then incarnation.
pub open spec fn claim_before(a: ClaimView, b: ClaimView) -> bool {
    a.owner < b.owner || (a.owner == b.owner && (seq_lt(a.label, b.label) || (a.label == b.label
        && a.incarnation < b.incarnation)))
}

/// The first live claim of a session on a surface kind, in the live map's order.
pub open spec fn first_of_kind(live: Seq<ClaimView>, session: u128, kind: Seq<char>, c: ClaimView) -> bool {
    &&& live.contains(c)
    &&& c.session == session
    &&& c.kind == kind
    &&& forall|i: int|
        0 <= i < live.len() && (#[trigger] live[i]).session == session && live[i].kind == kind
            ==> !claim_before(live[i], c)
}

pub open spec fn has_kind(live: Seq<ClaimView>, session: u128, kind: Seq<char>) -> bool {
    exists|i: int| 0 <= i < live.len() && (#[trigger] live[i]).session == session && live[i].kind == kind
}

/// The session's primary live surface: its first preview window, or else its first
/// workspace child.
pub open spec fn is_primary(live: Seq<ClaimView>, session: u128, c: Option<ClaimView>) -> bool {
    match c {
        Some(c) => first_of_kind(live, session, "preview_window"@, c) || (!has_kind(
            live,
            session,
            "preview_window"@,
        ) && first_of_kind(live, session, "workspace_child"@, c)),
        None => !has_kind(live, session, "preview_window"@) && !has_kind(live, session, "workspace_child"@),
    }
}

impl<R, L> SurfaceResources<R, L> {
    /// Whether a reservation waits under a key.
    pub fn has_reservation(&self, owner: u128, session: u128, request_id: &str) -> (r: bool)
        ensures
            r == self.reservation((owner, session, request_id@)) is Some,
    {
        let ghost key = (owner, session, request_id@);
        let mut i: usize = self.pending.len();
        proof {
            assert(self.pending@.take(i as int) == self.pending@);
        }
        while i > 0
            invariant
                i <= self.pending@.len(),
                key == (owner, session, request_id@),
                lookup(self.pending@, rkey(), key) == lookup(self.pending@.take(i as int), rkey(), key),
            decreases i,
        {
            let e = &self.pending[i - 1];
            let ghost t = self.pending@.take(i as int);
            proof {
                assert(t.drop_last() == self.pending@.take(i - 1));
                assert(t.last() == *e);
            }
            proof {
                assert(rkey()(e.0) == reservation_key(e.0));
                assert(t.len() > 0);
                assert(lookup(t, rkey(), key) == if rkey()(t.last().0) == key { Some(t.last().1) } else { lookup(t.drop_last(), rkey(), key) });
            }
            let m = same_reservation_key(&e.0, owner, session, request_id);
            proof {
                assert(m == (rkey()(t.last().0) == key));
            }
            if m {
                return true;
            }
            i -= 1;
        }
        false
    }

    /// Adds a reservation under a key where none waits; gives whether it was added.
    pub fn add_reservation(&mut self, owner: u128, session: u128, request_id: String, reservation: R) -> (added: bool)
        ensures
            added == (old(self).reservation((owner, session, request_id@)) is None),
            added ==> final(self).pending_entries() == old(self).pending_entries().push(
                ((owner, session, request_id), reservation),
            ),
            !added ==> final(self).pending_entries() == old(self).pending_entries(),
            final(self).activating_claims() == old(self).activating_claims(),
            final(self).live_entries() == old(self).live_entries(),
    {
        if self.has_reservation(owner, session, request_id.as_str()) {
            return false;
        }
        self.pending.push(((owner, session, request_id), reservation));
        true
    }

    /// Takes the reservation waiting under a key, if any.
    pub fn take_reservation(&mut self, owner: u128, session: u128, request_id: &str) -> (r: Option<R>)
        ensures
            r == old(self).reservation((owner, session, request_id@)),
            final(self).pending_entries() == without(old(self).pending_entries(), rkey(), (owner, session, request_id@)),
            final(self).activating_claims() == old(self).activating_claims(),
            final(self).live_entries() == old(self).live_entries(),
    {
        let ghost key = (owner, session, request_id@);
        let ghost orig = self.pending@;
        let mut rest: Vec<((u128, u128, String), R)> = Vec::new();
        std::mem::swap(&mut rest, &mut self.pending);
        let mut out: Vec<((u128, u128, String), R)> = Vec::new();
        let mut found: Option<R> = None;
        let ghost mut i: int = 0;
        proof {
            assert(orig.take(0) == Seq::<((u128, u128, String), R)>::empty());
            assert(rest@ == orig.skip(0));
        }
        while rest.len() > 0
            invariant
                0 <= i <= orig.len(),
                key == (owner, session, request_id@),
                rest@ == orig.skip(i),
                out@ == without(orig.take(i), rkey(), key),
                found == lookup(orig.take(i), rkey(), key),
            decreases rest@.len(),
        {
            let e = rest.remove(0);
            proof {
                assert(e == orig[i]);
                assert(orig.take(i + 1).drop_last() == orig.take(i));
                assert(orig.take(i + 1).last() == orig[i]);
                assert(rest@ == orig.skip(i + 1));
            }
            proof {
                assert(rkey()(e.0) == reservation_key(e.0));
            }
            if same_reservation_key(&e.0, owner, session, request_id) {
                found = Some(e.1);
            } else {
                out.push(e);
            }
            proof {
                i = i + 1;
            }
        }
        proof {
            assert(orig.take(i) == orig);
        }
        self.pending = out;
        found
    }

    /// Forgets the reservations of a session; gives how many there were.
    pub fn release_session_reservations(&mut self, session: u128) -> (removed: usize)
        ensures
            final(self).pending_entries().len() + removed == old(self).pending_entries().len(),
            forall|i: int| 0 <= i < final(self).pending_entries().len() ==> (#[trigger] final(self).pending_entries()[i]).0.1 != session,
            forall|i: int| 0 <= i < old(self).pending_entries().len() && (#[trigger] old(self).pending_entries()[i]).0.1 != session
                ==> final(self).pending_entries().contains(old(self).pending_entries()[i]),
            final(self).activating_claims() == old(self).activating_claims(),
            final(self).live_entries() == old(self).live_entries(),
    {
        let ghost orig = self.pending@;
        let n = self.pending.len();
        let mut rest: Vec<((u128, u128, String), R)> = Vec::new();
        std::mem::swap(&mut rest, &mut self.pending);
        let mut out: Vec<((u128, u128, String), R)> = Vec::new();
        let mut removed: usize = 0;
        let ghost mut i: int = 0;
        proof {
            assert(rest@ == orig.skip(0));
        }
        while rest.len() > 0
            invariant
                0 <= i <= orig.len(),
                orig.len() <= usize::MAX,
                rest@ == orig.skip(i),
                out@.len() + removed == i,
                forall|k: int| 0 <= k < out@.len() ==> (#[trigger] out@[k]).0.1 != session,
                forall|k: int| 0 <= k < i && (#[trigger] orig[k]).0.1 != session ==> out@.contains(orig[k]),
            decreases rest@.len(),
        {
            let e = rest.remove(0);
            proof {
                assert(e == orig[i]);
                assert(rest@ == orig.skip(i + 1));
            }
            if e.0.1 == session {
                removed += 1;
            } else {
                let ghost before = out@;
                out.push(e);
                proof {
                    assert forall|k: int| 0 <= k < i + 1 && (#[trigger] orig[k]).0.1 != session implies out@.contains(orig[k]) by {
                        if k < i {
                            let m = choose|m: int| 0 <= m < before.len() && before[m] == orig[k];
                            assert(out@[m] == orig[k]);
                        } else {
                            assert(out@[before.len() as int] == orig[k]);
                        }
                    }
                }
            }
            proof {
                i = i + 1;
            }
        }
        self.pending = out;
        removed
    }

    /// Whether the surface of a session, kind and label is live or being activated,
    /// under any owner.
    pub fn surface_claimed(&self, session: u128, identity: &LiveSurfaceIdentity) -> (r: bool)
        ensures
            r == self.claimed(session, identity.surface_kind@, identity.label@),
    {
        let mut i: usize = 0;
        while i < self.live.len()
            invariant
                i <= self.live@.len(),
                forall|k: int| 0 <= k < i ==> !on_surface(#[trigger] claim_view(self.live@[k].0), session, identity.surface_kind@, identity.label@),
            decreases self.live@.len() - i,
        {
            if same_surface(&self.live[i].0, session, identity) {
                proof {
                    assert(on_surface(claim_view(self.live_entries()[i as int].0), session, identity.surface_kind@, identity.label@));
                }
                return true;
            }
            i += 1;
        }
        let mut j: usize = 0;
        while j < self.activating.len()
            invariant
                j <= self.activating@.len(),
                forall|k: int| 0 <= k < self.live@.len() ==> !on_surface(#[trigger] claim_view(self.live@[k].0), session, identity.surface_kind@, identity.label@),
                forall|k: int| 0 <= k < j ==> !on_surface(#[trigger] claim_view(self.activating@[k]), session, identity.surface_kind@, identity.label@),
            decreases self.activating@.len() - j,
        {
            if same_surface(&self.activating[j], session, identity) {
                proof {
                    assert(claims_view(self.activating@)[j as int] == claim_view(self.activating@[j as int]));
                    assert(on_surface(self.activating_claims()[j as int], session, identity.surface_kind@, identity.label@));
                }
                return true;
            }
            j += 1;
        }
        proof {
            assert forall|k: int| 0 <= k < claims_view(self.activating@).len() implies !on_surface(#[trigger] claims_view(self.activating@)[k], session, identity.surface_kind@, identity.label@) by {
                assert(claims_view(self.activating@)[k] == claim_view(self.activating@[k]));
            }
        }
        false
    }
}


impl<R, L> SurfaceResources<R, L> {
    /// Marks a claim as being activated (once).
    pub fn add_activating(&mut self, claim: SurfaceClaim)
        ensures
            final(self).activating_claims() == if old(self).activating_claims().contains(claim_view(claim)) {
                old(self).activating_claims()
            } else {
                old(self).activating_claims().push(claim_view(claim))
            },
            final(self).pending_entries() == old(self).pending_entries(),
            final(self).live_entries() == old(self).live_entries(),
    {
        let mut i: usize = 0;
        while i < self.activating.len()
            invariant
                i <= self.activating@.len(),
                forall|k: int| 0 <= k < i ==> claim_view(#[trigger] self.activating@[k]) != claim_view(claim),
            decreases self.activating@.len() - i,
        {
            if same_claim(&self.activating[i], &claim) {
                proof {
                    assert(claims_view(self.activating@)[i as int] == claim_view(claim));
                }
                return;
            }
            i += 1;
        }
        proof {
            assert forall|k: int| 0 <= k < claims_view(self.activating@).len() implies claims_view(self.activating@)[k] != claim_view(claim) by {
                assert(claims_view(self.activating@)[k] == claim_view(self.activating@[k]));
            }
        }
        let ghost before = self.activating@;
        self.activating.push(claim);
        proof {
            assert(claims_view(self.activating@) == claims_view(before).push(claim_view(claim)));
        }
    }

    /// Forgets every activation of a claim.
    pub fn remove_activating(&mut self, claim: &SurfaceClaim)
        ensures
            !final(self).activating_claims().contains(claim_view(*claim)),
            forall|c: ClaimView| c != claim_view(*claim) ==> (final(self).activating_claims().contains(c)
                <==> old(self).activating_claims().contains(c)),
            final(self).pending_entries() == old(self).pending_entries(),
            final(self).live_entries() == old(self).live_entries(),
    {
        let ghost orig = claims_view(self.activating@);
        let mut out: Vec<SurfaceClaim> = Vec::new();
        let mut i: usize = 0;
        while i < self.activating.len()
            invariant
                i <= self.activating@.len(),
                orig == claims_view(self.activating@),
                forall|k: int| 0 <= k < out@.len() ==> claim_view(#[trigger] out@[k]) != claim_view(*claim),
                forall|c: ClaimView| c != claim_view(*claim) ==> (claims_view(out@).contains(c) <==> orig.take(i as int).contains(c)),
                forall|c: ClaimView| claims_view(out@).contains(c) ==> orig.contains(c),
            decreases self.activating@.len() - i,
        {
            let c = &self.activating[i];
            let ghost before = claims_view(out@);
            proof {
                assert(orig.take(i + 1) == orig.take(i as int).push(claim_view(*c)));
                assert(orig[i as int] == claim_view(*c));
            }
            if !same_claim(c, claim) {
                out.push(copy_claim(c));
                proof {
                    assert(claims_view(out@) == before.push(claim_view(*c)));
                }
            }
            proof {
                assert forall|x: ClaimView| x != claim_view(*claim) implies (claims_view(out@).contains(x) <==> orig.take(i + 1).contains(x)) by {
                    lemma_contains_push(before, claim_view(*c), x);
                    lemma_contains_push(orig.take(i as int), claim_view(*c), x);
                }
                assert forall|x: ClaimView| claims_view(out@).contains(x) implies orig.contains(x) by {
                    lemma_contains_push(before, claim_view(*c), x);
                }
            }
            i += 1;
        }
        proof {
            assert(orig.take(i as int) == orig);
            if claims_view(out@).contains(claim_view(*claim)) {
                let k = choose|k: int| 0 <= k < claims_view(out@).len() && claims_view(out@)[k] == claim_view(*claim);
                assert(claim_view(out@[k]) == claim_view(*claim));
            }
        }
        self.activating = out;
    }

    /// The lease of a live claim, if it is live.
    pub fn live_lease(&self, claim: &SurfaceClaim) -> (r: Option<&L>)
        ensures
            match r {
                Some(l) => self.lease(claim_view(*claim)) == Some(*l),
                None => self.lease(claim_view(*claim)) is None,
            },
    {
        let ghost key = claim_view(*claim);
        let mut i: usize = self.live.len();
        proof {
            assert(self.live@.take(i as int) == self.live@);
        }
        while i > 0
            invariant
                i <= self.live@.len(),
                key == claim_view(*claim),
                lookup(self.live@, ckey(), key) == lookup(self.live@.take(i as int), ckey(), key),
            decreases i,
        {
            let e = &self.live[i - 1];
            let ghost t = self.live@.take(i as int);
            proof {
                assert(t.drop_last() == self.live@.take(i - 1));
                assert(t.last() == *e);
                assert(ckey()(e.0) == claim_view(e.0));
            }
            if same_claim(&e.0, claim) {
                return Some(&e.1);
            }
            i -= 1;
        }
        None
    }

    /// Makes a claim live with its lease, in place of a lease it may have had, and
    /// ends its activation.
    pub fn finish_activation(&mut self, claim: SurfaceClaim, lease: L)
        ensures
            final(self).live_entries() == without(old(self).live_entries(), ckey(), claim_view(claim)).push((claim, lease)),
            !final(self).activating_claims().contains(claim_view(claim)),
            forall|c: ClaimView| c != claim_view(claim) ==> (final(self).activating_claims().contains(c)
                <==> old(self).activating_claims().contains(c)),
            final(self).pending_entries() == old(self).pending_entries(),
    {
        self.remove_activating(&claim);
        let _ = self.take_live(&claim);
        self.live.push((claim, lease));
    }

    /// Takes a claim out of the live surfaces, with its lease.
    fn take_live(&mut self, claim: &SurfaceClaim) -> (r: Option<L>)
        ensures
            r == old(self).lease(claim_view(*claim)),
            final(self).live_entries() == without(old(self).live_entries(), ckey(), claim_view(*claim)),
            final(self).activating_claims() == old(self).activating_claims(),
            final(self).pending_entries() == old(self).pending_entries(),
    {
        let ghost key = claim_view(*claim);
        let ghost orig = self.live@;
        let mut rest: Vec<(SurfaceClaim, L)> = Vec::new();
        std::mem::swap(&mut rest, &mut self.live);
        let mut out: Vec<(SurfaceClaim, L)> = Vec::new();
        let mut found: Option<L> = None;
        let ghost mut i: int = 0;
        proof {
            assert(orig.take(0) == Seq::<(SurfaceClaim, L)>::empty());
            assert(rest@ == orig.skip(0));
        }
        while rest.len() > 0
            invariant
                0 <= i <= orig.len(),
                key == claim_view(*claim),
                rest@ == orig.skip(i),
                out@ == without(orig.take(i), ckey(), key),
                found == lookup(orig.take(i), ckey(), key),
            decreases rest@.len(),
        {
            let e = rest.remove(0);
            proof {
                assert(e == orig[i]);
                assert(orig.take(i + 1).drop_last() == orig.take(i));
                assert(orig.take(i + 1).last() == orig[i]);
                assert(rest@ == orig.skip(i + 1));
                assert(ckey()(e.0) == claim_view(e.0));
            }
            if same_claim(&e.0, claim) {
                found = Some(e.1);
            } else {
                out.push(e);
            }
            proof {
                i = i + 1;
            }
        }
        proof {
            assert(orig.take(i) == orig);
        }
        self.live = out;
        found
    }

    /// Whether another owner holds the same surface of the session live.
    pub open spec fn owned_by_other(&self, owner: u128, session: u128, kind: Seq<char>, label: Seq<char>) -> bool {
        exists|i: int|
            0 <= i < self.live_entries().len() && (#[trigger] claim_view(self.live_entries()[i].0)).owner != owner
                && on_surface(claim_view(self.live_entries()[i].0), session, kind, label)
    }

    /// Why a request names no live surface of its owner: another owner holds the
    /// surface, or the incarnation does not match.
    pub fn mismatch_code(&self, claim: &SurfaceClaim) -> (r: &'static str)
        ensures
            r@ == if self.owned_by_other(claim.owner, claim.session, claim.identity.surface_kind@, claim.identity.label@) {
                "surface_owner_fence_mismatch"@
            } else {
                "surface_owner_incarnation_mismatch"@
            },
    {
        let mut i: usize = 0;
        while i < self.live.len()
            invariant
                i <= self.live@.len(),
                forall|k: int| 0 <= k < i ==> !((#[trigger] claim_view(self.live@[k].0)).owner != claim.owner
                    && on_surface(claim_view(self.live@[k].0), claim.session, claim.identity.surface_kind@, claim.identity.label@)),
            decreases self.live@.len() - i,
        {
            let c = &self.live[i].0;
            if c.owner != claim.owner && same_surface(c, claim.session, &claim.identity) {
                proof {
                    assert(claim_view(self.live_entries()[i as int].0).owner != claim.owner);
                }
                return "surface_owner_fence_mismatch";
            }
            i += 1;
        }
        "surface_owner_incarnation_mismatch"
    }
}

proof fn lemma_contains_push<T>(s: Seq<T>, v: T, x: T)
    ensures
        s.push(v).contains(x) <==> (s.contains(x) || v == x),
{
    let t = s.push(v);
    assert(t[s.len() as int] == v);
    if s.contains(x) {
        let j = choose|j: int| 0 <= j < s.len() && s[j] == x;
        assert(t[j] == x);
    }
    if t.contains(x) && v != x {
        let j = choose|j: int| 0 <= j < t.len() && t[j] == x;
        assert(s[j] == x);
    }
}


proof fn lemma_claim_before_transitive(a: ClaimView, b: ClaimView, c: ClaimView)
    requires
        claim_before(a, b),
        claim_before(b, c),
    ensures
        claim_before(a, c),
{
    if a.owner == b.owner && b.owner == c.owner {
        if seq_lt(a.label, b.label) && seq_lt(b.label, c.label) {
            crate::text::lemma_seq_lt_transitive(a.label, b.label, c.label);
        }
    }
}

fn claim_is_before(a: &SurfaceClaim, b: &SurfaceClaim) -> (r: bool)
    ensures
        r == claim_before(claim_view(*a), claim_view(*b)),
{
    if a.owner != b.owner {
        return a.owner < b.owner;
    }
    let la = chars_of(a.identity.label.as_str());
    let lb = chars_of(b.identity.label.as_str());
    if crate::text::text_lt(la.as_slice(), lb.as_slice()) {
        return true;
    }
    crate::text::seq_eq(la.as_slice(), lb.as_slice()) && a.identity.incarnation < b.identity.incarnation
}

fn kind_is(c: &SurfaceClaim, session: u128, kind: &str) -> (r: bool)
    ensures
        r == (claim_view(*c).session == session && claim_view(*c).kind == kind@),
{
    c.session == session && crate::text::str_eq(c.identity.surface_kind.as_str(), kind)
}

impl<R, L> SurfaceResources<R, L> {
    /// The first live claim of a session on a surface kind, in the live map's order.
    fn first_live_of_kind(&self, session: u128, kind: &str) -> (r: Option<usize>)
        ensures
            match r {
                Some(b) => b < self.live@.len() && first_of_kind(live_claims(self.live@), session, kind@, live_claims(self.live@)[b as int]),
                None => !has_kind(live_claims(self.live@), session, kind@),
            },
    {
        let ghost lv = live_claims(self.live@);
        let mut best: Option<usize> = None;
        let mut i: usize = 0;
        while i < self.live.len()
            invariant
                i <= self.live@.len(),
                lv == live_claims(self.live@),
                match best {
                    Some(b) => b < i && lv[b as int].session == session && lv[b as int].kind == kind@ && forall|k: int|
                        0 <= k < i && (#[trigger] lv[k]).session == session && lv[k].kind == kind@ ==> !claim_before(lv[k], lv[b as int]),
                    None => forall|k: int| 0 <= k < i ==> !((#[trigger] lv[k]).session == session && lv[k].kind == kind@),
                },
            decreases self.live@.len() - i,
        {
            let c = &self.live[i].0;
            proof {
                assert(lv[i as int] == claim_view(*c));
            }
            if kind_is(c, session, kind) {
                match best {
                    None => {
                        proof {
                            crate::text::lemma_seq_lt_irreflexive(lv[i as int].label);
                        }
                        best = Some(i);
                    },
                    Some(b) => {
                        if claim_is_before(c, &self.live[b].0) {
                            proof {
                                assert(lv[b as int] == claim_view(self.live@[b as int].0));
                                assert forall|k: int| 0 <= k < i + 1 && (#[trigger] lv[k]).session == session && lv[k].kind == kind@ implies !claim_before(lv[k], lv[i as int]) by {
                                    if k < i && claim_before(lv[k], lv[i as int]) {
                                        lemma_claim_before_transitive(lv[k], lv[i as int], lv[b as int]);
                                    }
                                    if k == i {
                                        crate::text::lemma_seq_lt_irreflexive(lv[k].label);
                                    }
                                }
                            }
                            best = Some(i);
                        } else {
                            proof {
                                assert(lv[b as int] == claim_view(self.live@[b as int].0));
                            }
                        }
                    },
                }
            }
            i += 1;
        }
        proof {
            if let Some(b) = best {
                assert(lv[b as int] == lv[b as int]);
                assert(lv.contains(lv[b as int]));
            }
        }
        best
    }

    /// The session's primary live surface: its first preview window, or else its
    /// first workspace child.
    pub fn primary_live_surface(&self, session: u128) -> (r: Option<SurfaceClaim>)
        ensures
            is_primary(
                live_claims(self.live_entries()),
                session,
                match r {
                    Some(c) => Some(claim_view(c)),
                    None => None,
                },
            ),
    {
        match self.first_live_of_kind(session, "preview_window") {
            Some(b) => {
                let c = copy_claim(&self.live[b].0);
                proof {
                    assert(live_claims(self.live@)[b as int] == claim_view(self.live@[b as int].0));
                }
                Some(c)
            },
            None => match self.first_live_of_kind(session, "workspace_child") {
                Some(b) => {
                    let c = copy_claim(&self.live[b].0);
                    proof {
                        assert(live_claims(self.live@)[b as int] == claim_view(self.live@[b as int].0));
                    }
                    Some(c)
                },
                None => None,
            },
        }
    }

    /// Checks that a claim is the live, primary surface of its session: otherwise
    /// the incarnation does not match, the session has no surface, or the surface is
    /// not the primary one.
    pub fn validate_primary_action(&self, claim: &SurfaceClaim) -> (r: Result<(), &'static str>)
        ensures
            (r is Ok) == (self.lease(claim_view(*claim)) is Some && is_primary(
                live_claims(self.live_entries()),
                claim.session,
                Some(claim_view(*claim)),
            )),
            match r {
                Ok(_) => true,
                Err(e) => e@ == if self.lease(claim_view(*claim)) is None {
                    "surface_owner_incarnation_mismatch"@
                } else if is_primary(live_claims(self.live_entries()), claim.session, None) {
                    "surface_owner_missing"@
                } else {
                    "surface_not_primary_action_authority"@
                },
            },
    {
        if self.live_lease(claim).is_none() {
            return Err("surface_owner_incarnation_mismatch");
        }
        let primary = self.primary_live_surface(claim.session);
        match primary {
            None => {
                proof {
                    lemma_primary_unique(live_claims(self.live@), claim.session, None, Some(claim_view(*claim)));
                }
                Err("surface_owner_missing")
            },
            Some(p) => if same_claim(&p, claim) {
                Ok(())
            } else {
                proof {
                    lemma_primary_unique(live_claims(self.live@), claim.session, Some(claim_view(p)), Some(claim_view(*claim)));
                    lemma_primary_unique(live_claims(self.live@), claim.session, Some(claim_view(p)), None);
                }
                Err("surface_not_primary_action_authority")
            },
        }
    }

    /// Releases a live claim: gives its lease and whether it was the session's
    /// primary surface; or, where the claim is not live, why.
    pub fn release(&mut self, claim: &SurfaceClaim) -> (r: Result<(L, bool), &'static str>)
        ensures
            match r {
                Ok((lease, was_primary)) => old(self).lease(claim_view(*claim)) == Some(lease)
                    && was_primary == is_primary(live_claims(old(self).live_entries()), claim.session, Some(claim_view(*claim)))
                    && final(self).live_entries() == without(old(self).live_entries(), ckey(), claim_view(*claim)),
                Err(e) => old(self).lease(claim_view(*claim)) is None && e@ == (if old(self).owned_by_other(
                    claim.owner,
                    claim.session,
                    claim.identity.surface_kind@,
                    claim.identity.label@,
                ) {
                    "surface_owner_fence_mismatch"@
                } else {
                    "surface_owner_incarnation_mismatch"@
                }) && final(self).live_entries() == old(self).live_entries(),
            },
            final(self).pending_entries() == old(self).pending_entries(),
            final(self).activating_claims() == old(self).activating_claims(),
    {
        if self.live_lease(claim).is_none() {
            return Err(self.mismatch_code(claim));
        }
        let primary = self.primary_live_surface(claim.session);
        let was_primary = match &primary {
            Some(p) => same_claim(p, claim),
            None => false,
        };
        proof {
            match primary {
                Some(p) => if claim_view(p) != claim_view(*claim) {
                    lemma_primary_unique(live_claims(self.live@), claim.session, Some(claim_view(p)), Some(claim_view(*claim)));
                },
                None => lemma_primary_unique(live_claims(self.live@), claim.session, None, Some(claim_view(*claim))),
            }
        }
        match self.take_live(claim) {
            Some(lease) => Ok((lease, was_primary)),
            None => Err("surface_owner_incarnation_mismatch"),
        }
    }

    /// Reserves activation of a surface: refused where the surface is already live
    /// or being activated under any owner, or where no reservation waits under the
    /// request; otherwise takes the reservation and marks the claim as activating.
    pub fn begin_activation(&mut self, claim: SurfaceClaim, request_id: &str) -> (r: Result<R, &'static str>)
        ensures
            match r {
                Err(e) => if old(self).claimed(claim.session, claim.identity.surface_kind@, claim.identity.label@) {
                    e@ == "surface_owner_already_live"@ && final(self).pending_entries() == old(self).pending_entries()
                        && final(self).activating_claims() == old(self).activating_claims()
                        && final(self).live_entries() == old(self).live_entries()
                } else {
                    old(self).reservation((claim.owner, claim.session, request_id@)) is None && e@
                        == "surface_reservation_missing"@ && final(self).pending_entries() == old(self).pending_entries()
                        && final(self).activating_claims() == old(self).activating_claims()
                        && final(self).live_entries() == old(self).live_entries()
                },
                Ok(res) => !old(self).claimed(claim.session, claim.identity.surface_kind@, claim.identity.label@)
                    && old(self).reservation((claim.owner, claim.session, request_id@)) == Some(res)
                    && final(self).pending_entries() == without(
                    old(self).pending_entries(),
                    rkey(),
                    (claim.owner, claim.session, request_id@),
                ) && final(self).activating_claims() == old(self).activating_claims().push(claim_view(claim))
                    && final(self).live_entries() == old(self).live_entries(),
            },
    {
        if self.surface_claimed(claim.session, &claim.identity) {
            return Err("surface_owner_already_live");
        }
        let reservation = match self.take_reservation(claim.owner, claim.session, request_id) {
            Some(r) => r,
            None => {
                proof {
                    lemma_without_absent(old(self).pending_entries(), rkey(), (claim.owner, claim.session, request_id@));
                }
                return Err("surface_reservation_missing");
            },
        };
        proof {
            if self.activating_claims().contains(claim_view(claim)) {
                let k = choose|k: int| 0 <= k < self.activating_claims().len() && self.activating_claims()[k] == claim_view(claim);
                assert(on_surface(self.activating_claims()[k], claim.session, claim.identity.surface_kind@, claim.identity.label@));
            }
        }
        self.add_activating(claim);
        Ok(reservation)
    }
}

/// The primary surface is unique: one answer of `is_primary` excludes another.
proof fn lemma_primary_unique(live: Seq<ClaimView>, session: u128, a: Option<ClaimView>, b: Option<ClaimView>)
    requires
        is_primary(live, session, a),
        a != b,
    ensures
        !is_primary(live, session, b),
{
    if is_primary(live, session, b) {
        match (a, b) {
            (Some(x), Some(y)) => {
                let i = choose|i: int| 0 <= i < live.len() && live[i] == x;
                let j = choose|j: int| 0 <= j < live.len() && live[j] == y;
                if x.kind == y.kind {
                    assert(!claim_before(live[i], y));
                    assert(!claim_before(live[j], x));
                    lemma_claim_order_total(x, y);
                } else if x.kind == "preview_window"@ {
                    assert(has_kind(live, session, "preview_window"@));
                } else {
                    assert(has_kind(live, session, "preview_window"@));
                }
            },
            (Some(x), None) => {
                let i = choose|i: int| 0 <= i < live.len() && live[i] == x;
                assert(live[i].session == session);
            },
            (None, Some(y)) => {
                let j = choose|j: int| 0 <= j < live.len() && live[j] == y;
                assert(live[j].session == session);
            },
            (None, None) => {},
        }
    }
}

/// Two distinct claims of one session and kind are ordered one way or the other.
proof fn lemma_claim_order_total(x: ClaimView, y: ClaimView)
    requires
        x.session == y.session,
        x.kind == y.kind,
        x != y,
    ensures
        claim_before(x, y) || claim_before(y, x),
{
    if x.owner == y.owner && x.label != y.label {
        crate::text::lemma_seq_lt_total(x.label, y.label);
    }
}

proof fn lemma_without_absent<K, KV, V>(s: Seq<(K, V)>, kv: spec_fn(K) -> KV, k: KV)
    requires
        lookup(s, kv, k) is None,
    ensures
        without(s, kv, k) == s,
    decreases s.len(),
{
    if s.len() > 0 {
        lemma_without_absent(s.drop_last(), kv, k);
        assert(s.drop_last().push(s.last()) == s);
    }
}


impl<R, L> SurfaceResources<R, L> {
    /// Forgets everything an owner instance holds: its reservations, activations
    /// and live surfaces. Gives how many reservations and live surfaces it held.
    pub fn release_owner(&mut self, owner: u128) -> (removed: usize)
        ensures
            forall|i: int| 0 <= i < final(self).pending_entries().len() ==> (#[trigger] final(self).pending_entries()[i]).0.0 != owner,
            forall|i: int| 0 <= i < final(self).activating_claims().len() ==> (#[trigger] final(self).activating_claims()[i]).owner != owner,
            forall|i: int| 0 <= i < final(self).live_entries().len() ==> (#[trigger] final(self).live_entries()[i]).0.owner != owner,
            forall|i: int| 0 <= i < old(self).pending_entries().len() && (#[trigger] old(self).pending_entries()[i]).0.0 != owner
                ==> final(self).pending_entries().contains(old(self).pending_entries()[i]),
            forall|i: int| 0 <= i < old(self).activating_claims().len() && (#[trigger] old(self).activating_claims()[i]).owner != owner
                ==> final(self).activating_claims().contains(old(self).activating_claims()[i]),
            forall|i: int| 0 <= i < old(self).live_entries().len() && (#[trigger] old(self).live_entries()[i]).0.owner != owner
                ==> final(self).live_entries().contains(old(self).live_entries()[i]),
            removed == vstd::math::min(
                (old(self).pending_entries().len() - final(self).pending_entries().len()) + (old(self).live_entries().len()
                    - final(self).live_entries().len()),
                usize::MAX as int,
            ),
    {
        let ghost op = self.pending@;
        let ghost ol = self.live@;
        let np = self.pending.len();
        let nl = self.live.len();
        let mut pending: Vec<((u128, u128, String), R)> = Vec::new();
        std::mem::swap(&mut pending, &mut self.pending);
        let mut kept_p: Vec<((u128, u128, String), R)> = Vec::new();
        let ghost mut i: int = 0;
        proof {
            assert(pending@ == op.skip(0));
        }
        while pending.len() > 0
            invariant
                0 <= i <= op.len(),
                pending@ == op.skip(i),
                kept_p@.len() <= i,
                forall|k: int| 0 <= k < kept_p@.len() ==> (#[trigger] kept_p@[k]).0.0 != owner,
                forall|k: int| 0 <= k < i && (#[trigger] op[k]).0.0 != owner ==> kept_p@.contains(op[k]),
            decreases pending@.len(),
        {
            let e = pending.remove(0);
            proof {
                assert(e == op[i]);
                assert(pending@ == op.skip(i + 1));
            }
            if e.0.0 != owner {
                let ghost before = kept_p@;
                kept_p.push(e);
                proof {
                    assert forall|k: int| 0 <= k < i + 1 && (#[trigger] op[k]).0.0 != owner implies kept_p@.contains(op[k]) by {
                        lemma_contains_push(before, op[i], op[k]);
                    }
                }
            }
            proof {
                i = i + 1;
            }
        }
        self.pending = kept_p;
        let mut live: Vec<(SurfaceClaim, L)> = Vec::new();
        std::mem::swap(&mut live, &mut self.live);
        let mut kept_l: Vec<(SurfaceClaim, L)> = Vec::new();
        let ghost mut j: int = 0;
        proof {
            assert(live@ == ol.skip(0));
        }
        while live.len() > 0
            invariant
                0 <= j <= ol.len(),
                live@ == ol.skip(j),
                kept_l@.len() <= j,
                forall|k: int| 0 <= k < kept_l@.len() ==> (#[trigger] kept_l@[k]).0.owner != owner,
                forall|k: int| 0 <= k < j && (#[trigger] ol[k]).0.owner != owner ==> kept_l@.contains(ol[k]),
            decreases live@.len(),
        {
            let e = live.remove(0);
            proof {
                assert(e == ol[j]);
                assert(live@ == ol.skip(j + 1));
            }
            if e.0.owner != owner {
                let ghost before = kept_l@;
                kept_l.push(e);
                proof {
                    assert forall|k: int| 0 <= k < j + 1 && (#[trigger] ol[k]).0.owner != owner implies kept_l@.contains(ol[k]) by {
                        lemma_contains_push(before, ol[j], ol[k]);
                    }
                }
            }
            proof {
                j = j + 1;
            }
        }
        self.live = kept_l;
        let ghost oa = claims_view(self.activating@);
        let mut kept_a: Vec<SurfaceClaim> = Vec::new();
        let mut k: usize = 0;
        while k < self.activating.len()
            invariant
                k <= self.activating@.len(),
                oa == claims_view(self.activating@),
                forall|m: int| 0 <= m < claims_view(kept_a@).len() ==> (#[trigger] claims_view(kept_a@)[m]).owner != owner,
                forall|m: int| 0 <= m < k && (#[trigger] oa[m]).owner != owner ==> claims_view(kept_a@).contains(oa[m]),
            decreases self.activating@.len() - k,
        {
            let c = &self.activating[k];
            proof {
                assert(oa[k as int] == claim_view(*c));
            }
            if c.owner != owner {
                let ghost before = claims_view(kept_a@);
                kept_a.push(copy_claim(c));
                proof {
                    assert(claims_view(kept_a@) == before.push(claim_view(*c)));
                    assert forall|m: int| 0 <= m < k + 1 && (#[trigger] oa[m]).owner != owner implies claims_view(kept_a@).contains(oa[m]) by {
                        lemma_contains_push(before, oa[k as int], oa[m]);
                    }
                }
            }
            k += 1;
        }
        self.activating = kept_a;
        (np - self.pending.len()).saturating_add(nl - self.live.len())
    }
}

/// A successful activation makes its claim the only live or activating claim on
/// the surface: no other owner, label duplicate or incarnation can hold it at the
/// same time.
pub proof fn lemma_activation_is_exclusive(
    live: Seq<ClaimView>,
    activating: Seq<ClaimView>,
    claim: ClaimView,
)
    requires
        !(exists|i: int| 0 <= i < live.len() && on_surface(#[trigger] live[i], claim.session, claim.kind, claim.label)),
        !(exists|i: int| 0 <= i < activating.len() && on_surface(#[trigger] activating[i], claim.session, claim.kind, claim.label)),
    ensures
        forall|i: int| 0 <= i < live.len() ==> !on_surface(#[trigger] live[i], claim.session, claim.kind, claim.label),
        forall|i: int|
            0 <= i < activating.push(claim).len() && on_surface(#[trigger] activating.push(claim)[i], claim.session, claim.kind, claim.label)
                ==> activating.push(claim)[i] == claim,
{
    assert forall|i: int|
        0 <= i < activating.push(claim).len() && on_surface(#[trigger] activating.push(claim)[i], claim.session, claim.kind, claim.label)
            implies activating.push(claim)[i] == claim by {
        if i < activating.len() {
            assert(activating.push(claim)[i] == activating[i]);
        }
    }
}

} // verus!
