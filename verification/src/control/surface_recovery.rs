//! The journal of native surfaces to recover after a restart.
//!
//! The journal is a file of JSON lines, one event per line. Replaying it gives the
//! set of outstanding surfaces: an activation adds a surface, a release or a
//! reattachment removes it. The file is bounded in bytes and in events, and each
//! event in bytes.
use vstd::prelude::*;
use crate::text::{any_control, byte_len, byte_len_within, chars_of, has_control, split, str_eq, segments, string_of};

verus! {

#[verifier::external_type_specification]
#[verifier::external_body]
pub struct ExIoError(std::io::Error);

/// The name of the journal file.
pub const SURFACE_RECOVERY_JOURNAL_FILE: &'static str = "surface-recovery.jsonl";

/// The largest event line, its line feed included, in bytes.
pub const MAX_EVENT_BYTES: usize = 2048;

/// The largest journal, in bytes.
pub const MAX_JOURNAL_BYTES: u64 = 4194304;

/// The most events a journal holds.
pub const MAX_JOURNAL_EVENTS: usize = 8192;

/// The longest surface label, in bytes.
pub const MAX_LABEL_BYTES: usize = 160;

/// Why the surface recovery journal refused or failed an operation.
#[derive(Debug)]
pub enum SurfaceRecoveryError {
    Io(std::io::Error),
    CorruptJournal,
    InvalidKey,
    EventTooLarge,
    JournalFull,
}

/// One native surface: the session and owner instance (UUIDs as numbers, nil is
/// zero), the kind of surface, its label and its incarnation.
#[derive(Debug)]
pub struct SurfaceRecoveryKey {
    pub session_id: u128,
    pub surface_kind: String,
    pub label: String,
    pub incarnation: u64,
    pub owner_instance_id: u128,
}

/// What identifies a key.
pub type KeyView = (u128, Seq<char>, Seq<char>, u64, u128);

pub open spec fn key_view(k: SurfaceRecoveryKey) -> KeyView {
    (k.session_id, k.surface_kind@, k.label@, k.incarnation, k.owner_instance_id)
}

/// A key the journal accepts: no nil identifier, a positive incarnation, a known
/// kind of surface, and a label of 1 to 160 bytes without control characters.
pub open spec fn valid_key(k: KeyView) -> bool {
    &&& k.0 != 0
    &&& k.4 != 0
    &&& k.3 != 0
    &&& (k.1 == "preview_window"@ || k.1 == "workspace_child"@)
    &&& k.2.len() > 0
    &&& byte_len(k.2) <= MAX_LABEL_BYTES
    &&& !any_control(k.2)
}

impl SurfaceRecoveryKey {
    /// A key, if it is valid.
    pub fn new(
        session_id: u128,
        surface_kind: String,
        label: String,
        incarnation: u64,
        owner_instance_id: u128,
    ) -> (r: Result<Self, SurfaceRecoveryError>)
        ensures
            r is Ok <==> valid_key((session_id, surface_kind@, label@, incarnation, owner_instance_id)),
            r matches Ok(k) ==> key_view(k) == (session_id, surface_kind@, label@, incarnation, owner_instance_id),
            r matches Err(e) ==> e is InvalidKey,
    {
        let key = SurfaceRecoveryKey { session_id, surface_kind, label, incarnation, owner_instance_id };
        match key.validate() {
            Ok(()) => Ok(key),
            Err(e) => Err(e),
        }
    }

    /// `Ok` for a valid key, `InvalidKey` otherwise.
    pub fn validate(&self) -> (r: Result<(), SurfaceRecoveryError>)
        ensures
            r is Ok <==> valid_key(key_view(*self)),
            r matches Err(e) ==> e is InvalidKey,
    {
        if self.session_id == 0 || self.owner_instance_id == 0 || self.incarnation == 0 {
            return Err(SurfaceRecoveryError::InvalidKey);
        }
        if !str_eq(self.surface_kind.as_str(), "preview_window") && !str_eq(
            self.surface_kind.as_str(),
            "workspace_child",
        ) {
            return Err(SurfaceRecoveryError::InvalidKey);
        }
        let label = chars_of(self.label.as_str());
        if label.len() == 0 {
            return Err(SurfaceRecoveryError::InvalidKey);
        }
        match byte_len_within(label.as_slice(), 0, label.len(), MAX_LABEL_BYTES) {
            None => {
                proof {
                    assert(label@.subrange(0, label@.len() as int) == label@);
                }
                return Err(SurfaceRecoveryError::InvalidKey);
            },
            Some(_) => {
                proof {
                    assert(label@.subrange(0, label@.len() as int) == label@);
                }
            },
        }
        if has_control(label.as_slice()) {
            return Err(SurfaceRecoveryError::InvalidKey);
        }
        Ok(())
    }
}

/// A journal event.
#[derive(Debug)]
pub enum SurfaceRecoveryEvent {
    Activated { key: SurfaceRecoveryKey },
    Released { key: SurfaceRecoveryKey },
    Reattached { key: SurfaceRecoveryKey },
}

pub open spec fn event_key(e: SurfaceRecoveryEvent) -> SurfaceRecoveryKey {
    match e {
        SurfaceRecoveryEvent::Activated { key } => key,
        SurfaceRecoveryEvent::Released { key } => key,
        SurfaceRecoveryEvent::Reattached { key } => key,
    }
}

/// The outstanding surfaces after an event: an activation adds its surface, a
/// release or reattachment removes it.
pub open spec fn apply_event(outstanding: Set<KeyView>, e: SurfaceRecoveryEvent) -> Set<KeyView> {
    match e {
        SurfaceRecoveryEvent::Activated { key } => outstanding.insert(key_view(key)),
        _ => outstanding.remove(key_view(event_key(e))),
    }
}

impl SurfaceRecoveryEvent {
    /// The surface the event is about.
    pub fn key(&self) -> (r: &SurfaceRecoveryKey)
        ensures
            *r == event_key(*self),
    {
        match self {
            SurfaceRecoveryEvent::Activated { key } => key,
            SurfaceRecoveryEvent::Released { key } => key,
            SurfaceRecoveryEvent::Reattached { key } => key,
        }
    }
}


fn copy_key(k: &SurfaceRecoveryKey) -> (r: SurfaceRecoveryKey)
    ensures
        key_view(r) == key_view(*k),
{
    SurfaceRecoveryKey {
        session_id: k.session_id,
        surface_kind: k.surface_kind.clone(),
        label: k.label.clone(),
        incarnation: k.incarnation,
        owner_instance_id: k.owner_instance_id,
    }
}

fn same_key(a: &SurfaceRecoveryKey, b: &SurfaceRecoveryKey) -> (r: bool)
    ensures
        r == (key_view(*a) == key_view(*b)),
{
    a.session_id == b.session_id && a.incarnation == b.incarnation && a.owner_instance_id
        == b.owner_instance_id && str_eq(a.surface_kind.as_str(), b.surface_kind.as_str())
        && str_eq(a.label.as_str(), b.label.as_str())
}

pub open spec fn key_views(v: Seq<SurfaceRecoveryKey>) -> Seq<KeyView> {
    v.map_values(|k: SurfaceRecoveryKey| key_view(k))
}

/// Where a key stands in a list, if it does.
fn find_key(v: &Vec<SurfaceRecoveryKey>, k: &SurfaceRecoveryKey) -> (r: Option<usize>)
    ensures
        r matches Some(i) ==> i < v@.len() && key_view(v@[i as int]) == key_view(*k),
        r is None ==> !key_views(v@).contains(key_view(*k)),
{
    let mut i: usize = 0;
    while i < v.len()
        invariant
            i <= v@.len(),
            forall|j: int| 0 <= j < i ==> key_view(#[trigger] v@[j]) != key_view(*k),
        decreases v@.len() - i,
    {
        if same_key(&v[i], k) {
            return Some(i);
        }
        i += 1;
    }
    proof {
        if key_views(v@).contains(key_view(*k)) {
            let j = choose|j: int| 0 <= j < key_views(v@).len() && key_views(v@)[j] == key_view(*k);
            assert(key_view(v@[j]) == key_views(v@)[j]);
        }
    }
    None
}

/// Applies an event to a list of distinct keys.
fn apply_to(outstanding: &mut Vec<SurfaceRecoveryKey>, e: &SurfaceRecoveryEvent)
    requires
        key_views(old(outstanding)@).no_duplicates(),
    ensures
        key_views(final(outstanding)@).no_duplicates(),
        key_views(final(outstanding)@).to_set() == apply_event(key_views(old(outstanding)@).to_set(), *e),
{
    let ghost before = key_views(outstanding@);
    let k = e.key();
    let found = find_key(outstanding, k);
    match e {
        SurfaceRecoveryEvent::Activated { key } => {
            match found {
                Some(i) => {
                    proof {
                        assert(before[i as int] == key_view(*key));
                        assert(before.to_set().insert(key_view(*key)) =~= before.to_set());
                    }
                },
                None => {
                    outstanding.push(copy_key(key));
                    proof {
                        let after = key_views(outstanding@);
                        assert(after =~= before.push(key_view(*key)));
                        assert(after.to_set() =~= before.to_set().insert(key_view(*key))) by {
                            assert forall|x: KeyView| after.to_set().contains(x) <==> before.to_set().insert(
                                key_view(*key),
                            ).contains(x) by {
                                if after.contains(x) {
                                    let j = choose|j: int| 0 <= j < after.len() && after[j] == x;
                                    if j < before.len() {
                                        assert(before[j] == x);
                                    }
                                }
                                if before.contains(x) {
                                    let j = choose|j: int| 0 <= j < before.len() && before[j] == x;
                                    assert(after[j] == x);
                                }
                                if x == key_view(*key) {
                                    assert(after[before.len() as int] == x);
                                }
                            }
                        }
                    }
                },
            }
        },
        _ => {
            match found {
                Some(i) => {
                    outstanding.remove(i);
                    proof {
                        let after = key_views(outstanding@);
                        let x0 = key_view(*k);
                        assert(after =~= before.remove(i as int));
                        assert forall|a: int, b: int| 0 <= a < after.len() && 0 <= b < after.len() && a != b
                            implies after[a] != after[b] by {
                            let a2 = if a < i { a } else { a + 1 };
                            let b2 = if b < i { b } else { b + 1 };
                            assert(after[a] == before[a2] && after[b] == before[b2]);
                        }
                        assert(after.to_set() =~= before.to_set().remove(x0)) by {
                            assert forall|x: KeyView| after.to_set().contains(x) <==> before.to_set().remove(
                                x0,
                            ).contains(x) by {
                                if after.contains(x) {
                                    let j = choose|j: int| 0 <= j < after.len() && after[j] == x;
                                    let j2 = if j < i { j } else { j + 1 };
                                    assert(before[j2] == x);
                                    assert(before[i as int] == x0);
                                }
                                if before.contains(x) && x != x0 {
                                    let j = choose|j: int| 0 <= j < before.len() && before[j] == x;
                                    assert(j != i);
                                    if j < i {
                                        assert(after[j] == x);
                                    } else {
                                        assert(after[j - 1] == x);
                                    }
                                }
                            }
                        }
                    }
                },
                None => {
                    proof {
                        assert(before.to_set().remove(key_view(*k)) =~= before.to_set());
                    }
                },
            }
        },
    }
}

/// Which error a value is.
pub open spec fn error_kind(e: SurfaceRecoveryError) -> int {
    match e {
        SurfaceRecoveryError::Io(_) => 0,
        SurfaceRecoveryError::CorruptJournal => 1,
        SurfaceRecoveryError::InvalidKey => 2,
        SurfaceRecoveryError::EventTooLarge => 3,
        SurfaceRecoveryError::JournalFull => 4,
    }
}

/// Replaying journal lines, each its text and the event parsed from it (`None`
/// where it does not parse): the outstanding surfaces, or why the journal is
/// refused. A line is refused when it is empty or longer than an event may be,
/// when it is one event too many, when it does not parse and when its key is not
/// valid, in that order.
pub open spec fn replay_lines(lines: Seq<(String, Option<SurfaceRecoveryEvent>)>) -> Result<
    Set<KeyView>,
    SurfaceRecoveryError,
>
    decreases lines.len(),
{
    if lines.len() == 0 {
        Ok(Set::empty())
    } else {
        match replay_lines(lines.drop_last()) {
            Err(e) => Err(e),
            Ok(set) => {
                let text = lines.last().0@;
                if text.len() == 0 || byte_len(text) > MAX_EVENT_BYTES {
                    Err(SurfaceRecoveryError::CorruptJournal)
                } else if lines.len() > MAX_JOURNAL_EVENTS {
                    Err(SurfaceRecoveryError::JournalFull)
                } else {
                    match lines.last().1 {
                        None => Err(SurfaceRecoveryError::CorruptJournal),
                        Some(e) => if !valid_key(key_view(event_key(e))) {
                            Err(SurfaceRecoveryError::InvalidKey)
                        } else {
                            Ok(apply_event(set, e))
                        },
                    }
                }
            },
        }
    }
}

/// The journal's state: the outstanding surfaces, and the events and bytes that
/// the journal holds.
#[derive(Debug)]
pub struct SurfaceRecoveryState {
    outstanding: Vec<SurfaceRecoveryKey>,
    event_count: usize,
    byte_count: u64,
}

impl SurfaceRecoveryState {
    #[verifier::type_invariant]
    spec fn wf(&self) -> bool {
        &&& key_views(self.outstanding@).no_duplicates()
        &&& self.event_count <= MAX_JOURNAL_EVENTS
        &&& self.byte_count <= MAX_JOURNAL_BYTES
    }

    /// The outstanding surfaces.
    pub closed spec fn outstanding_set(&self) -> Set<KeyView> {
        key_views(self.outstanding@).to_set()
    }

    /// The number of events in the journal.
    pub closed spec fn events(&self) -> nat {
        self.event_count as nat
    }

    /// The size of the journal in bytes.
    pub closed spec fn bytes(&self) -> nat {
        self.byte_count as nat
    }

    /// An event of `encoded_len` bytes (its line feed included) may be appended:
    /// its key is valid, it is not too large, and the journal has room for it.
    pub open spec fn accepts(&self, e: SurfaceRecoveryEvent, encoded_len: nat) -> bool {
        &&& valid_key(key_view(event_key(e)))
        &&& encoded_len <= MAX_EVENT_BYTES
        &&& self.events() < MAX_JOURNAL_EVENTS
        &&& self.bytes() + encoded_len <= MAX_JOURNAL_BYTES
    }

    /// An empty journal.
    pub fn new() -> (r: Self)
        ensures
            r.outstanding_set() == Set::<KeyView>::empty(),
            r.events() == 0,
            r.bytes() == 0,
    {
        let r = SurfaceRecoveryState { outstanding: Vec::new(), event_count: 0, byte_count: 0 };
        proof {
            assert(key_views(r.outstanding@).to_set() =~= Set::<KeyView>::empty());
        }
        r
    }

    /// `JournalFull` for a journal larger than a journal may be.
    pub fn check_journal_size(journal_len: u64) -> (r: Result<(), SurfaceRecoveryError>)
        ensures
            r is Ok <==> journal_len <= MAX_JOURNAL_BYTES,
            r matches Err(e) ==> e is JournalFull,
    {
        if journal_len > MAX_JOURNAL_BYTES {
            Err(SurfaceRecoveryError::JournalFull)
        } else {
            Ok(())
        }
    }

    /// Replays a journal of `journal_len` bytes whose lines are `lines`.
    pub fn replay(journal_len: u64, lines: &Vec<(String, Option<SurfaceRecoveryEvent>)>) -> (r: Result<
        Self,
        SurfaceRecoveryError,
    >)
        ensures
            r is Ok <==> journal_len <= MAX_JOURNAL_BYTES && replay_lines(lines@) is Ok,
            r matches Ok(s) ==> s.outstanding_set() == replay_lines(lines@)->Ok_0 && s.events()
                == lines@.len() && s.bytes() == journal_len,
            r matches Err(e) ==> if journal_len > MAX_JOURNAL_BYTES {
                e is JournalFull
            } else {
                replay_lines(lines@) matches Err(f) && error_kind(e) == error_kind(f)
            },
    {
        if journal_len > MAX_JOURNAL_BYTES {
            return Err(SurfaceRecoveryError::JournalFull);
        }
        let mut outstanding: Vec<SurfaceRecoveryKey> = Vec::new();
        let mut i: usize = 0;
        proof {
            assert(lines@.take(0) =~= Seq::<(String, Option<SurfaceRecoveryEvent>)>::empty());
            assert(key_views(outstanding@).to_set() =~= Set::<KeyView>::empty());
        }
        while i < lines.len()
            invariant
                i <= lines@.len(),
                i <= MAX_JOURNAL_EVENTS,
                journal_len <= MAX_JOURNAL_BYTES,
                key_views(outstanding@).no_duplicates(),
                replay_lines(lines@.take(i as int)) == Ok::<Set<KeyView>, SurfaceRecoveryError>(
                    key_views(outstanding@).to_set(),
                ),
            decreases lines@.len() - i,
        {
            let ghost t = lines@.take(i + 1);
            proof {
                assert(t.drop_last() == lines@.take(i as int));
                assert(t.last() == lines@[i as int]);
            }
            let text = chars_of(lines[i].0.as_str());
            let too_long = match byte_len_within(text.as_slice(), 0, text.len(), MAX_EVENT_BYTES) {
                None => true,
                Some(_) => false,
            };
            proof {
                assert(text@.subrange(0, text@.len() as int) == text@);
            }
            if text.len() == 0 || too_long {
                proof {
                    lemma_replay_stops(lines@, i + 1);
                }
                return Err(SurfaceRecoveryError::CorruptJournal);
            }
            if i + 1 > MAX_JOURNAL_EVENTS {
                proof {
                    lemma_replay_stops(lines@, i + 1);
                }
                return Err(SurfaceRecoveryError::JournalFull);
            }
            match &lines[i].1 {
                None => {
                    proof {
                        lemma_replay_stops(lines@, i + 1);
                    }
                    return Err(SurfaceRecoveryError::CorruptJournal);
                },
                Some(e) => {
                    match e.key().validate() {
                        Err(_) => {
                            proof {
                                lemma_replay_stops(lines@, i + 1);
                            }
                            return Err(SurfaceRecoveryError::InvalidKey);
                        },
                        Ok(()) => {
                            apply_to(&mut outstanding, e);
                        },
                    }
                },
            }
            i += 1;
        }
        proof {
            assert(lines@.take(i as int) == lines@);
        }
        Ok(SurfaceRecoveryState { outstanding, event_count: i, byte_count: journal_len })
    }

    /// Whether `encoded_len` bytes of `event` (its line feed included) may be
    /// appended: `InvalidKey`, then `EventTooLarge`, then `JournalFull` where not.
    pub fn check_append(&self, event: &SurfaceRecoveryEvent, encoded_len: usize) -> (r: Result<(), SurfaceRecoveryError>)
        ensures
            r is Ok <==> self.accepts(*event, encoded_len as nat),
            r matches Err(e) ==> if !valid_key(key_view(event_key(*event))) {
                e is InvalidKey
            } else if encoded_len > MAX_EVENT_BYTES {
                e is EventTooLarge
            } else {
                e is JournalFull
            },
    {
        proof {
            use_type_invariant(self);
        }
        match event.key().validate() {
            Err(e) => return Err(e),
            Ok(()) => {},
        }
        if encoded_len > MAX_EVENT_BYTES {
            return Err(SurfaceRecoveryError::EventTooLarge);
        }
        if self.event_count >= MAX_JOURNAL_EVENTS || encoded_len as u64 > MAX_JOURNAL_BYTES - self.byte_count {
            return Err(SurfaceRecoveryError::JournalFull);
        }
        Ok(())
    }

    /// Records an accepted event once it is appended to the journal.
    pub fn commit(&mut self, event: &SurfaceRecoveryEvent, encoded_len: usize)
        requires
            old(self).accepts(*event, encoded_len as nat),
        ensures
            final(self).outstanding_set() == apply_event(old(self).outstanding_set(), *event),
            final(self).events() == old(self).events() + 1,
            final(self).bytes() == old(self).bytes() + encoded_len,
    {
        proof {
            use_type_invariant(&*self);
        }
        let mut outstanding: Vec<SurfaceRecoveryKey> = Vec::new();
        std::mem::swap(&mut outstanding, &mut self.outstanding);
        apply_to(&mut outstanding, event);
        self.outstanding = outstanding;
        self.event_count = self.event_count + 1;
        self.byte_count = self.byte_count + encoded_len as u64;
    }

    /// Whether the surface is outstanding.
    pub fn outstanding_exact(&self, key: &SurfaceRecoveryKey) -> (r: bool)
        ensures
            r == self.outstanding_set().contains(key_view(*key)),
    {
        match find_key(&self.outstanding, key) {
            Some(i) => {
                proof {
                    assert(key_views(self.outstanding@)[i as int] == key_view(*key));
                }
                true
            },
            None => false,
        }
    }

    /// Whether a surface of the owner instance is outstanding.
    pub fn has_outstanding_for_owner(&self, owner_instance_id: u128) -> (r: bool)
        ensures
            r == exists|k: KeyView| #[trigger] self.outstanding_set().contains(k) && k.4 == owner_instance_id,
    {
        let mut i: usize = 0;
        while i < self.outstanding.len()
            invariant
                i <= self.outstanding@.len(),
                forall|j: int| 0 <= j < i ==> (#[trigger] self.outstanding@[j]).owner_instance_id != owner_instance_id,
            decreases self.outstanding@.len() - i,
        {
            if self.outstanding[i].owner_instance_id == owner_instance_id {
                proof {
                    let k = key_views(self.outstanding@)[i as int];
                    assert(self.outstanding_set().contains(k));
                }
                return true;
            }
            i += 1;
        }
        proof {
            assert forall|k: KeyView| #[trigger] self.outstanding_set().contains(k) implies k.4 != owner_instance_id by {
                let j = choose|j: int| 0 <= j < key_views(self.outstanding@).len() && key_views(self.outstanding@)[j] == k;
                assert(k == key_view(self.outstanding@[j]));
            }
        }
        false
    }

    /// The number of outstanding surfaces.
    pub fn outstanding_len(&self) -> (r: usize)
        ensures
            r == self.outstanding_set().len(),
    {
        proof {
            use_type_invariant(self);
            key_views(self.outstanding@).unique_seq_to_set();
        }
        self.outstanding.len()
    }
}

/// Once a line is refused, the replay stays refused.
proof fn lemma_replay_stops(lines: Seq<(String, Option<SurfaceRecoveryEvent>)>, n: int)
    requires
        0 < n <= lines.len(),
        replay_lines(lines.take(n)) is Err,
    ensures
        replay_lines(lines) is Err,
        error_kind(replay_lines(lines)->Err_0) == error_kind(replay_lines(lines.take(n))->Err_0),
    decreases lines.len() - n,
{
    if n < lines.len() {
        let t = lines.take(n + 1);
        assert(t.drop_last() == lines.take(n));
        lemma_replay_stops(lines, n + 1);
    } else {
        assert(lines.take(n) == lines);
    }
}

/// A line without the carriage return that ended it.
pub open spec fn strip_cr(l: Seq<char>) -> Seq<char> {
    if l.len() > 0 && l.last() == '\r' {
        l.drop_last()
    } else {
        l
    }
}

/// The lines of a text (`str::lines`): the pieces between line feeds, each ended
/// piece without a final carriage return, and no last piece where the text ends
/// with a line feed.
pub open spec fn text_lines(t: Seq<char>) -> Seq<Seq<char>> {
    let parts = split(t, '\n');
    let ended = parts.drop_last().map_values(|l: Seq<char>| strip_cr(l));
    if parts.last().len() == 0 {
        ended
    } else {
        ended.push(parts.last())
    }
}

pub open spec fn line_texts(v: Seq<String>) -> Seq<Seq<char>> {
    v.map_values(|s: String| s@)
}

/// The lines of a journal's text.
pub fn journal_lines(text: &str) -> (r: Vec<String>)
    ensures
        line_texts(r@) == text_lines(text@),
{
    let v = chars_of(text);
    let segs = segments(v.as_slice(), '\n');
    let ghost parts = split(v@, '\n');
    proof {
        crate::text::lemma_split_nonempty(v@, '\n');
    }
    let n = segs.len();
    let mut out: Vec<String> = Vec::new();
    let mut i: usize = 0;
    while i + 1 < n
        invariant
            n == segs@.len(),
            n == parts.len(),
            n >= 1,
            i + 1 <= n,
            parts == split(v@, '\n'),
            forall|k: int| 0 <= k < segs@.len() ==> (#[trigger] segs@[k]).0 <= segs@[k].1 <= v@.len(),
            forall|k: int|
                0 <= k < segs@.len() ==> (v@.subrange(segs@[k].0 as int, segs@[k].1 as int)
                    == #[trigger] parts[k]),
            line_texts(out@) == parts.take(i as int).map_values(|l: Seq<char>| strip_cr(l)),
        decreases n - i,
    {
        let (s, e) = segs[i];
        let end = if e > s && v[e - 1] == '\r' {
            e - 1
        } else {
            e
        };
        let line = string_of(v.as_slice(), s, end);
        let ghost before = out@;
        out.push(line);
        proof {
            let piece = v@.subrange(s as int, e as int);
            assert(piece == parts[i as int]);
            if e > s && v@[e - 1] == '\r' {
                assert(piece.drop_last() == v@.subrange(s as int, e - 1));
            }
            assert(strip_cr(parts[i as int]) == line@);
            assert(line_texts(out@) =~= line_texts(before).push(line@));
            assert(parts.take(i + 1) == parts.take(i as int).push(parts[i as int]));
            assert(parts.take(i + 1).map_values(|l: Seq<char>| strip_cr(l)) =~= parts.take(
                i as int,
            ).map_values(|l: Seq<char>| strip_cr(l)).push(strip_cr(parts[i as int])));
        }
        i += 1;
    }
    proof {
        assert(parts.take(i as int) == parts.drop_last());
    }
    let (s, e) = segs[n - 1];
    if e > s {
        let ghost before = out@;
        out.push(string_of(v.as_slice(), s, e));
        proof {
            assert(line_texts(out@) =~= line_texts(before).push(parts.last()));
        }
    }
    out
}

/// The surfaces left outstanding by applying events in order to an empty journal.
pub open spec fn apply_all(events: Seq<SurfaceRecoveryEvent>) -> Set<KeyView>
    decreases events.len(),
{
    if events.len() == 0 {
        Set::empty()
    } else {
        apply_event(apply_all(events.drop_last()), events.last())
    }
}

/// Replaying a journal of well-formed lines, each holding an event with a valid
/// key, gives the surfaces that applying its events in order leaves outstanding:
/// what the journal reads back is what was recorded in it.
pub proof fn lemma_replay_applies_events(
    lines: Seq<(String, Option<SurfaceRecoveryEvent>)>,
    events: Seq<SurfaceRecoveryEvent>,
)
    requires
        lines.len() == events.len(),
        lines.len() <= MAX_JOURNAL_EVENTS,
        forall|i: int|
            0 <= i < lines.len() ==> (#[trigger] lines[i]).0@.len() > 0 && byte_len(lines[i].0@)
                <= MAX_EVENT_BYTES && lines[i].1 == Some(events[i]) && valid_key(
                key_view(event_key(events[i])),
            ),
    ensures
        replay_lines(lines) == Ok::<Set<KeyView>, SurfaceRecoveryError>(apply_all(events)),
    decreases lines.len(),
{
    if lines.len() > 0 {
        let l = lines.drop_last();
        let e = events.drop_last();
        assert forall|i: int| 0 <= i < l.len() implies (#[trigger] l[i]).0@.len() > 0 && byte_len(l[i].0@)
            <= MAX_EVENT_BYTES && l[i].1 == Some(e[i]) && valid_key(key_view(event_key(e[i]))) by {
            assert(l[i] == lines[i] && e[i] == events[i]);
        }
        lemma_replay_applies_events(l, e);
        let n = lines.len() - 1;
        assert(lines[n] == lines.last());
    }
}
} // verus!
