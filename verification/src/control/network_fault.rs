//! The decisions of the network fault preview: which acknowledgement installs a
//! lease, what a failed install cleans up, and when a lease is cleared.
use vstd::prelude::*;

verus! {

/// The largest fault plan accepted, in bytes.
pub const MAX_INSTALL_BODY_BYTES: usize = 16384;

/// The largest preview invalidation accepted, in bytes.
pub const MAX_INVALIDATION_BODY_BYTES: usize = 1024;

/// How long to wait for the preview to acknowledge a control, in milliseconds.
pub const CONTROL_ACK_TIMEOUT_MS: u64 = 2500;

/// How many private controls are handed out at once.
pub const MAX_PRIVATE_CONTROL_DRAIN: usize = 8;

/// Whether a fault plan body is small enough to read.
pub fn install_body_fits(len: usize) -> (r: bool)
    ensures
        r == (len <= MAX_INSTALL_BODY_BYTES),
{
    len <= MAX_INSTALL_BODY_BYTES
}

/// What the preview acknowledged for an install: `active`, `fingerprint` and
/// `rule_count` where present with the right type; the `remaining_ms` field (or,
/// where it is absent, `expires_in_ms`) as read: absent, not a count, or a count;
/// and `surface_incarnation`.
#[derive(Debug, Clone)]
pub struct InstallAck {
    pub active: Option<bool>,
    pub fingerprint: Option<String>,
    pub rule_count: Option<u64>,
    pub remaining_ms: Option<Option<u64>>,
    pub expires_in_ms: Option<Option<u64>>,
    pub surface_incarnation: Option<u64>,
}

/// The remaining lease time an acknowledgement gives: `remaining_ms` where the
/// field is there, else `expires_in_ms`.
pub open spec fn remaining_of(ack: InstallAck) -> Option<u64> {
    match ack.remaining_ms {
        Some(v) => v,
        None => match ack.expires_in_ms {
            Some(v) => v,
            None => None,
        },
    }
}

/// An install is acknowledged when the preview reports the fault active, with the
/// canonical plan's fingerprint and rule count, a remaining time in
/// `1..=lease_ms`, and a surface incarnation above zero; it then gives that time
/// and incarnation.
pub open spec fn spec_install_ack(
    ack: InstallAck,
    fingerprint: Seq<char>,
    rule_count: nat,
    lease_ms: u64,
) -> Option<(u64, u64)> {
    if ack.active == Some(true) && (match ack.fingerprint {
        Some(f) => f@ == fingerprint,
        None => false,
    }) && (match ack.rule_count {
        Some(n) => n == rule_count,
        None => false,
    }) && (match remaining_of(ack) {
        Some(r) => 0 < r && r <= lease_ms,
        None => false,
    }) && (match ack.surface_incarnation {
        Some(s) => s > 0,
        None => false,
    }) {
        Some((remaining_of(ack)->0, ack.surface_incarnation->0))
    } else {
        None
    }
}

/// Checks an install acknowledgement against the canonical plan.
pub fn accepted_install(ack: &InstallAck, fingerprint: &str, rule_count: usize, lease_ms: u64) -> (r: Option<
    (u64, u64),
>)
    ensures
        r == spec_install_ack(*ack, fingerprint@, rule_count as nat, lease_ms),
{
    if ack.active != Some(true) {
        return None;
    }
    let fingerprint_matches = match &ack.fingerprint {
        Some(f) => crate::text::str_eq(f.as_str(), fingerprint),
        None => false,
    };
    if !fingerprint_matches {
        return None;
    }
    let count_matches = match ack.rule_count {
        Some(n) => n as u128 == rule_count as u128,
        None => false,
    };
    if !count_matches {
        return None;
    }
    let remaining = match ack.remaining_ms {
        Some(v) => v,
        None => match ack.expires_in_ms {
            Some(v) => v,
            None => None,
        },
    };
    let remaining = match remaining {
        Some(r) => if 0 < r && r <= lease_ms {
            r
        } else {
            return None;
        },
        None => {
            return None;
        },
    };
    match ack.surface_incarnation {
        Some(s) => if s > 0 {
            Some((remaining, s))
        } else {
            None
        },
        None => None,
    }
}

/// What a failed install cleans up: the new lease's token always; the previous
/// lease's token too where the failure may have reached the page; and the previous
/// lease's record in any case.
pub struct InstallCleanup {
    pub clear_tokens: Vec<u128>,
    pub drop_lease: Option<u128>,
}

/// The previous lease of a session: its id and its token.
#[derive(Debug, Clone, Copy, PartialEq, Eq, Structural)]
pub struct LeaseRef {
    pub lease_id: u128,
    pub lease_token: u128,
}

pub fn failed_install_cleanup(lease_token: u128, previous: Option<LeaseRef>, clear_previous_runtime: bool) -> (r:
    InstallCleanup)
    ensures
        r.clear_tokens@ == match previous {
            Some(p) => if clear_previous_runtime {
                seq![lease_token, p.lease_token]
            } else {
                seq![lease_token]
            },
            None => seq![lease_token],
        },
        r.drop_lease == match previous {
            Some(p) => Some(p.lease_id),
            None => None,
        },
{
    let mut clear_tokens: Vec<u128> = Vec::new();
    clear_tokens.push(lease_token);
    let drop_lease = match previous {
        Some(p) => {
            if clear_previous_runtime {
                clear_tokens.push(p.lease_token);
            }
            Some(p.lease_id)
        },
        None => None,
    };
    InstallCleanup { clear_tokens, drop_lease }
}

/// Whether a lease is still live at a moment: it expires strictly later.
pub fn lease_live(expires_at_ms: i64, now_ms: i64) -> (r: bool)
    ensures
        r == (expires_at_ms > now_ms),
{
    expires_at_ms > now_ms
}

/// Whether the preview acknowledged the clearing of a lease: the control succeeded,
/// the fault is no longer active, and the surface is the lease's.
pub fn clear_acknowledged(ok: bool, active: Option<bool>, surface_incarnation: Option<u64>, lease_incarnation: u64) -> (r:
    bool)
    ensures
        r == (ok && active == Some(false) && surface_incarnation == Some(lease_incarnation)),
{
    ok && active == Some(false) && surface_incarnation == Some(lease_incarnation)
}

/// What a preview invalidation does: a zero incarnation is refused; otherwise the
/// current lease (if any) is cleared exactly when it belongs to that incarnation.
pub fn invalidation_clears(invalidated: u64, lease_incarnation: Option<u64>) -> (r: Result<bool, ()>)
    ensures
        invalidated == 0 ==> r is Err,
        invalidated != 0 ==> r == Ok::<bool, ()>(lease_incarnation == Some(invalidated)),
{
    if invalidated == 0 {
        return Err(());
    }
    Ok(lease_incarnation == Some(invalidated))
}

} // verus!
