//! Gathering the latest readiness events of a page before a capture.
use vstd::prelude::*;
use crate::capture::SettleObservation;

verus! {

/// Keeps the later of the recorded time and a candidate time.
pub fn update_latest(slot: &mut Option<i64>, candidate: i64)
    ensures
        *final(slot) == match *old(slot) {
            Some(current) => if candidate > current {
                Some(candidate)
            } else {
                Some(current)
            },
            None => Some(candidate),
        },
{
    let replace = match *slot {
        Some(current) => candidate > current,
        None => true,
    };
    if replace {
        *slot = Some(candidate);
    }
}

/// The kinds of events the page observer reports.
#[derive(Debug, Clone, Copy, PartialEq, Eq, Structural)]
pub enum ObserverEventKind {
    SemanticSnapshot,
    DomMutation,
    Layout,
    Network,
    Route,
    Focus,
    Scroll,
    Console,
    RuntimeError,
    Performance,
    Hmr,
}

/// What the settle check reads of an observer event.
#[derive(Debug, Clone, Copy, PartialEq, Eq, Structural)]
pub struct ObservedEvent {
    pub kind: ObserverEventKind,
    pub captured_at_ms: i64,
}

/// The readiness fields of a fresh snapshot: its `readyState`, and the `fonts`,
/// `pendingImages` and `inflightRequests` of its `readiness`, where present with
/// the right type.
#[derive(Debug, Clone)]
pub struct FreshReadiness {
    pub ready_state: Option<String>,
    pub fonts: Option<String>,
    pub pending_images: Option<u64>,
    pub inflight_requests: Option<u64>,
}

/// The latest time of an event of a kind.
pub open spec fn latest_of(events: Seq<ObservedEvent>, kind: ObserverEventKind) -> Option<i64>
    decreases events.len(),
{
    if events.len() == 0 {
        None
    } else {
        let before = latest_of(events.drop_last(), kind);
        let e = events.last();
        if e.kind != kind {
            before
        } else {
            match before {
                Some(current) => if e.captured_at_ms > current {
                    Some(e.captured_at_ms)
                } else {
                    Some(current)
                },
                None => Some(e.captured_at_ms),
            }
        }
    }
}

pub open spec fn count_u32(v: Option<u64>) -> Option<u32> {
    match v {
        Some(n) => if n <= u32::MAX {
            Some(n as u32)
        } else {
            None
        },
        None => None,
    }
}

fn to_u32(v: Option<u64>) -> (r: Option<u32>)
    ensures
        r == count_u32(v),
{
    match v {
        Some(n) => if n <= u32::MAX as u64 {
            Some(n as u32)
        } else {
            None
        },
        None => None,
    }
}

pub open spec fn opt_text(o: Option<String>) -> Option<Seq<char>> {
    match o {
        Some(s) => Some(s@),
        None => None,
    }
}

fn clone_text(o: &Option<String>) -> (r: Option<String>)
    ensures
        opt_text(r) == opt_text(*o),
{
    match o {
        Some(s) => Some(s.clone()),
        None => None,
    }
}

/// What the settle check observes: the fresh snapshot's readiness, read only from
/// that snapshot and stamped with the current time, and the latest HMR, DOM
/// mutation, layout and network events.
pub open spec fn observation_of(
    events: Seq<ObservedEvent>,
    fresh: Option<FreshReadiness>,
    now_unix_ms: i64,
    o: SettleObservation,
) -> bool {
    &&& o.now_unix_ms == now_unix_ms
    &&& o.latest_semantic_at_unix_ms == if fresh is Some { Some(now_unix_ms) } else { None }
    &&& opt_text(o.ready_state) == match fresh { Some(f) => opt_text(f.ready_state), None => None }
    &&& opt_text(o.fonts_status) == match fresh { Some(f) => opt_text(f.fonts), None => None }
    &&& o.pending_images == match fresh { Some(f) => count_u32(f.pending_images), None => None }
    &&& o.inflight_network_requests == match fresh { Some(f) => count_u32(f.inflight_requests), None => None }
    &&& o.latest_hmr_at_unix_ms == latest_of(events, ObserverEventKind::Hmr)
    &&& o.latest_dom_mutation_at_unix_ms == latest_of(events, ObserverEventKind::DomMutation)
    &&& o.latest_layout_at_unix_ms == latest_of(events, ObserverEventKind::Layout)
    &&& o.latest_network_at_unix_ms == latest_of(events, ObserverEventKind::Network)
}

/// What the settle check observes of a page.
pub fn settle_observation(events: &Vec<ObservedEvent>, fresh: Option<&FreshReadiness>, now_unix_ms: i64) -> (r:
    SettleObservation)
    ensures
        observation_of(events@, match fresh {
            Some(f) => Some(*f),
            None => None,
        }, now_unix_ms, r),
{
    let mut hmr: Option<i64> = None;
    let mut dom: Option<i64> = None;
    let mut layout: Option<i64> = None;
    let mut network: Option<i64> = None;
    let mut i: usize = 0;
    while i < events.len()
        invariant
            i <= events@.len(),
            hmr == latest_of(events@.take(i as int), ObserverEventKind::Hmr),
            dom == latest_of(events@.take(i as int), ObserverEventKind::DomMutation),
            layout == latest_of(events@.take(i as int), ObserverEventKind::Layout),
            network == latest_of(events@.take(i as int), ObserverEventKind::Network),
        decreases events@.len() - i,
    {
        let e = events[i];
        proof {
            assert(events@.take(i + 1).drop_last() == events@.take(i as int));
            assert(events@.take(i + 1).last() == e);
        }
        match e.kind {
            ObserverEventKind::Hmr => update_latest(&mut hmr, e.captured_at_ms),
            ObserverEventKind::DomMutation => update_latest(&mut dom, e.captured_at_ms),
            ObserverEventKind::Layout => update_latest(&mut layout, e.captured_at_ms),
            ObserverEventKind::Network => update_latest(&mut network, e.captured_at_ms),
            _ => {},
        }
        i += 1;
    }
    proof {
        assert(events@.take(i as int) == events@);
    }
    let (semantic, ready_state, fonts_status, pending_images, inflight) = match fresh {
        Some(f) => (
            Some(now_unix_ms),
            clone_text(&f.ready_state),
            clone_text(&f.fonts),
            to_u32(f.pending_images),
            to_u32(f.inflight_requests),
        ),
        None => (None, None, None, None, None),
    };
    SettleObservation {
        now_unix_ms,
        latest_semantic_at_unix_ms: semantic,
        ready_state,
        fonts_status,
        pending_images,
        latest_hmr_at_unix_ms: hmr,
        latest_dom_mutation_at_unix_ms: dom,
        latest_layout_at_unix_ms: layout,
        latest_network_at_unix_ms: network,
        inflight_network_requests: inflight,
    }
}

} // verus!
