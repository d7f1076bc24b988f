//! The accounting of a bounded, content-addressed artifact store.
//!
//! The store keeps an index of retained artifacts, an eviction order (oldest
//! first) and the number of bytes it retains. Reading and writing the files is
//! done by the caller, which reports each step here; the decisions (what a put
//! would cost, what to evict next, in which order restored files count) are made
//! here.
use vstd::prelude::*;
use core::hash::{Hash, Hasher};
use std::collections::hash_map::DefaultHasher;
use crate::text::{chars_of, eq_lit, has_prefix, is_ascii_hex, is_lower_hex, push_char, seq_lt, text_lt};

verus! {

#[derive(Debug, Clone)]
pub struct ArtifactMeta {
    pub id: String,
    pub kind: String,
    pub bytes: u64,
    pub path: String,
}

#[derive(Debug, Clone)]
pub struct CanonicalArtifactMeta {
    pub physical: ArtifactMeta,
    pub canonical_hash: String,
}

/// Why a put cannot be accounted for.
#[derive(Debug, Clone, Copy, PartialEq, Eq, Structural)]
pub enum ProjectionError {
    /// The artifact alone is larger than the store.
    ExceedsLimit { incoming: u64, max_bytes: u64 },
    /// Evicting every retained artifact would still not make room.
    CannotFit { max_bytes: u64 },
}

/// The next step of garbage collection.
#[derive(Debug, Clone)]
pub enum GcStep {
    /// The store is within its limit, or has nothing left to evict.
    Done,
    /// The oldest entry of the eviction order is no longer indexed: drop it.
    DropStale,
    /// Delete this artifact's file, then report the eviction.
    Evict(ArtifactMeta),
}

/// A file found in the store's directory when it is opened.
#[derive(Debug, Clone)]
pub struct RestoredEntry {
    pub modified_nanos: u128,
    pub meta: ArtifactMeta,
}

pub struct ArtifactStore {
    root: String,
    max_bytes: u64,
    index: Vec<ArtifactMeta>,
    lru: Vec<String>,
    used: u64,
}

pub open spec fn sat_add(a: u64, b: u64) -> u64 {
    if a + b > u64::MAX {
        u64::MAX
    } else {
        (a + b) as u64
    }
}

pub open spec fn sat_sub(a: u64, b: u64) -> u64 {
    if a >= b {
        (a - b) as u64
    } else {
        0
    }
}

/// Each id is indexed once.
pub open spec fn unique_ids(index: Seq<ArtifactMeta>) -> bool {
    forall|a: int, b: int|
        0 <= a < index.len() && 0 <= b < index.len() && a != b ==> (#[trigger] index[a]).id@
            != (#[trigger] index[b]).id@
}

/// The artifact indexed under `id`.
pub open spec fn indexed(index: Seq<ArtifactMeta>, id: Seq<char>) -> Option<ArtifactMeta> {
    if exists|i: int| 0 <= i < index.len() && (#[trigger] index[i]).id@ == id {
        Some(index[choose|i: int| 0 <= i < index.len() && (#[trigger] index[i]).id@ == id])
    } else {
        None
    }
}

/// An eviction order without the entries for `id`.
pub open spec fn without(lru: Seq<String>, id: Seq<char>) -> Seq<String>
    decreases lru.len(),
{
    if lru.len() == 0 {
        lru
    } else if lru.last()@ == id {
        without(lru.drop_last(), id)
    } else {
        without(lru.drop_last(), id).push(lru.last())
    }
}

/// The usage left after evicting, oldest first, until usage is within `max`.
pub open spec fn evicted_usage(p: u64, lru: Seq<String>, index: Seq<ArtifactMeta>, max: u64) -> u64
    decreases lru.len(),
{
    if lru.len() == 0 || p <= max {
        p
    } else {
        let q = match indexed(index, lru[0]@) {
            Some(m) => sat_sub(p, m.bytes),
            None => p,
        };
        evicted_usage(q, lru.drop_first(), index, max)
    }
}

/// The usage a store would retain after putting `incoming` bytes under `id`: the
/// same usage when the id is already retained, else the usage after evicting the
/// oldest artifacts to make room, or why there is no room.
pub open spec fn projection(
    used: u64,
    max: u64,
    index: Seq<ArtifactMeta>,
    lru: Seq<String>,
    id: Seq<char>,
    incoming: u64,
) -> Result<u64, ProjectionError> {
    if indexed(index, id) is Some {
        Ok(used)
    } else if incoming > max {
        Err(ProjectionError::ExceedsLimit { incoming, max_bytes: max })
    } else {
        let p = evicted_usage(sat_add(used, incoming), lru, index, max);
        if p > max {
            Err(ProjectionError::CannotFit { max_bytes: max })
        } else {
            Ok(p)
        }
    }
}

/// A canonical hash: `sha256:` and 64 hexadecimal digits.
pub open spec fn is_canonical_hash(s: Seq<char>) -> bool {
    &&& s.len() == 71
    &&& s.take(7) == "sha256:"@
    &&& forall|i: int| 7 <= i < 71 ==> is_ascii_hex(#[trigger] s[i])
}

/// A physical artifact id: `lv-` and 16 hexadecimal digits.
pub open spec fn is_content_id_text(s: Seq<char>) -> bool {
    &&& s.len() == 19
    &&& s.take(3) == "lv-"@
    &&& forall|i: int| 3 <= i < 19 ==> is_ascii_hex(#[trigger] s[i])
}

/// Whether a text is a canonical hash.
pub fn valid_canonical_hash(value: &str) -> (r: bool)
    ensures
        r == is_canonical_hash(value@),
{
    let v = chars_of(value);
    let p = chars_of("sha256:");
    proof {
        reveal_strlit("sha256:");
    }
    if v.len() != 71 || !has_prefix(v.as_slice(), p.as_slice()) {
        return false;
    }
    let mut i: usize = 7;
    while i < 71
        invariant
            v@ == value@,
            v@.len() == 71,
            7 <= i <= 71,
            forall|k: int| 7 <= k < i ==> is_ascii_hex(#[trigger] v@[k]),
        decreases 71 - i,
    {
        if !crate::text::ascii_hex(v[i]) {
            return false;
        }
        i += 1;
    }
    true
}

/// Whether a text is a physical artifact id.
pub fn is_content_id(value: &str) -> (r: bool)
    ensures
        r == is_content_id_text(value@),
{
    let v = chars_of(value);
    let p = chars_of("lv-");
    proof {
        reveal_strlit("lv-");
    }
    if v.len() != 19 || !has_prefix(v.as_slice(), p.as_slice()) {
        return false;
    }
    let mut i: usize = 3;
    while i < 19
        invariant
            v@ == value@,
            v@.len() == 19,
            3 <= i <= 19,
            forall|k: int| 3 <= k < i ==> is_ascii_hex(#[trigger] v@[k]),
        decreases 19 - i,
    {
        if !crate::text::ascii_hex(v[i]) {
            return false;
        }
        i += 1;
    }
    true
}

/// Feeds a byte slice to a hasher (`<[u8] as Hash>::hash`).
#[verifier::external_body]
fn hash_slice(bytes: &[u8], state: &mut DefaultHasher) {
    bytes.hash(state);
}

/// The lower-case hexadecimal digit of a value below 16.
pub open spec fn hex_digit(d: u64) -> char {
    if d < 10 {
        ((d + 48) as u8) as char
    } else {
        ((d + 87) as u8) as char
    }
}

fn hex_char(d: u64) -> (c: char)
    requires
        d < 16,
    ensures
        c == hex_digit(d),
        crate::text::is_lower_hex(c),
{
    if d < 10 {
        ((d + 48) as u8) as char
    } else {
        ((d + 87) as u8) as char
    }
}

/// `16` to the power `n`.
pub open spec fn pow16(n: nat) -> nat
    decreases n,
{
    if n == 0 {
        1
    } else {
        16 * pow16((n - 1) as nat)
    }
}

/// The 16 lower-case hexadecimal digits of `x`, most significant first
/// (`format!("{:016x}", x)`).
pub open spec fn hex16(x: u64) -> Seq<char> {
    Seq::new(16, |i: int| hex_digit(((x as nat / pow16((15 - i) as nat)) % 16) as u64))
}

/// The physical id whose hash is `x`.
pub open spec fn content_id_text_of(x: u64) -> Seq<char> {
    "lv-"@ + hex16(x)
}

proof fn lemma_pow16_positive(n: nat)
    ensures
        pow16(n) >= 1,
    decreases n,
{
    if n > 0 {
        lemma_pow16_positive((n - 1) as nat);
    }
}

/// Every id that `content_id_text_of` gives has the shape of a physical id.
pub proof fn lemma_content_id_text_shape(x: u64)
    ensures
        is_content_id_text(content_id_text_of(x)),
{
    reveal_strlit("lv-");
    let s = content_id_text_of(x);
    assert(s.take(3) =~= "lv-"@);
    assert forall|i: int| 3 <= i < 19 implies is_ascii_hex(#[trigger] s[i]) by {
        let j = i - 3;
        lemma_pow16_positive((15 - j) as nat);
        let d = (x as nat / pow16((15 - j) as nat)) % 16;
        assert(d < 16);
        assert(s[i] == hex16(x)[j]);
    }
}

/// The physical id of a hash: `lv-` and the 16 lower-case hexadecimal digits of
/// `x`, most significant first.
pub fn content_id_of_hash(x: u64) -> (r: String)
    ensures
        r@ == content_id_text_of(x),
{
    let mut out = String::new();
    push_char(&mut out, 'l');
    push_char(&mut out, 'v');
    push_char(&mut out, '-');
    proof {
        reveal_strlit("lv-");
        assert(out@ =~= "lv-"@);
        reveal_with_fuel(pow16, 16);
        assert(pow16(15) == 0x1000_0000_0000_0000);
    }
    let mut p: u64 = 0x1000_0000_0000_0000;
    let mut i: usize = 0;
    while i < 16
        invariant
            i <= 16,
            i < 16 ==> p as nat == pow16((15 - i) as nat),
            out@ == "lv-"@ + hex16(x).take(i as int),
        decreases 16 - i,
    {
        proof {
            lemma_pow16_positive((15 - i) as nat);
        }
        let d: u64 = (x / p) % 16;
        let c = hex_char(d);
        let ghost before = out@;
        push_char(&mut out, c);
        proof {
            assert(c == hex16(x)[i as int]);
            assert(hex16(x).take(i + 1) =~= hex16(x).take(i as int).push(c));
            assert(out@ =~= "lv-"@ + hex16(x).take(i + 1));
        }
        if i < 15 {
            proof {
                assert(pow16((15 - i) as nat) == 16 * pow16((15 - i - 1) as nat));
            }
            p = p / 16;
        }
        i += 1;
    }
    proof {
        assert(hex16(x).take(16) =~= hex16(x));
    }
    out
}

/// The physical id of an artifact's bytes: `lv-` and the 16 lower-case hexadecimal
/// digits of their `DefaultHasher` hash. The hash itself depends on the hasher
/// that std ships, so what is stated is that the id is the physical id of some
/// 64-bit hash.
pub fn content_id(bytes: &[u8]) -> (r: String)
    ensures
        exists|x: u64| r@ == content_id_text_of(x),
        is_content_id_text(r@),
{
    let mut h = DefaultHasher::new();
    hash_slice(bytes, &mut h);
    let x: u64 = h.finish();
    let r = content_id_of_hash(x);
    proof {
        lemma_content_id_text_shape(x);
    }
    r
}

fn clone_meta(m: &ArtifactMeta) -> (r: ArtifactMeta)
    ensures
        r == *m,
{
    ArtifactMeta { id: m.id.clone(), kind: m.kind.clone(), bytes: m.bytes, path: m.path.clone() }
}

proof fn lemma_indexed_at(index: Seq<ArtifactMeta>, i: int)
    requires
        unique_ids(index),
        0 <= i < index.len(),
    ensures
        indexed(index, index[i].id@) == Some(index[i]),
{
    let k = choose|k: int| 0 <= k < index.len() && (#[trigger] index[k]).id@ == index[i].id@;
    assert(k == i);
}

impl ArtifactStore {
    pub closed spec fn spec_used(&self) -> u64 {
        self.used
    }

    pub closed spec fn spec_max(&self) -> u64 {
        self.max_bytes
    }

    pub closed spec fn spec_index(&self) -> Seq<ArtifactMeta> {
        self.index@
    }

    pub closed spec fn spec_lru(&self) -> Seq<String> {
        self.lru@
    }

    pub closed spec fn spec_root(&self) -> Seq<char> {
        self.root@
    }

    /// Each id is indexed once.
    pub closed spec fn wf(&self) -> bool {
        unique_ids(self.index@)
    }

    /// An empty store rooted at `root` that retains at most `max_bytes`.
    pub fn new(root: String, max_bytes: u64) -> (r: Self)
        ensures
            r.wf(),
            r.spec_root() == root@,
            r.spec_max() == max_bytes,
            r.spec_used() == 0,
            r.spec_index().len() == 0,
            r.spec_lru().len() == 0,
    {
        ArtifactStore { root, max_bytes, index: Vec::new(), lru: Vec::new(), used: 0 }
    }

    /// The directory the store keeps its files in.
    pub fn root(&self) -> (r: &String)
        ensures
            r@ == self.spec_root(),
    {
        &self.root
    }

    /// The bytes the store retains.
    pub fn used_bytes(&self) -> (r: u64)
        ensures
            r == self.spec_used(),
    {
        self.used
    }

    /// The most bytes the store retains.
    pub fn max_bytes(&self) -> (r: u64)
        ensures
            r == self.spec_max(),
    {
        self.max_bytes
    }

    /// The ids in eviction order, oldest first.
    pub fn eviction_order(&self) -> (r: &Vec<String>)
        ensures
            r@ == self.spec_lru(),
    {
        &self.lru
    }

    fn find(&self, id: &String) -> (r: Option<usize>)
        requires
            self.wf(),
        ensures
            match r {
                Some(i) => i < self.spec_index().len() && indexed(self.spec_index(), id@) == Some(
                    self.spec_index()[i as int],
                ),
                None => indexed(self.spec_index(), id@) is None,
            },
    {
        let mut i: usize = 0;
        while i < self.index.len()
            invariant
                i <= self.index@.len(),
                unique_ids(self.index@),
                forall|k: int| 0 <= k < i ==> (#[trigger] self.index@[k]).id@ != id@,
            decreases self.index@.len() - i,
        {
            if self.index[i].id == *id {
                proof {
                    lemma_indexed_at(self.index@, i as int);
                }
                return Some(i);
            }
            i += 1;
        }
        None
    }

    /// The artifact retained under `id`.
    pub fn get(&self, id: &String) -> (r: Option<&ArtifactMeta>)
        requires
            self.wf(),
        ensures
            match r {
                Some(m) => indexed(self.spec_index(), id@) == Some(*m),
                None => indexed(self.spec_index(), id@) is None,
            },
    {
        match self.find(id) {
            Some(i) => Some(&self.index[i]),
            None => None,
        }
    }

    /// The usage the store would retain after putting `incoming` bytes under `id`.
    pub fn projected_used_bytes_for(&self, id: &String, incoming: u64) -> (r: Result<
        u64,
        ProjectionError,
    >)
        requires
            self.wf(),
        ensures
            r == projection(
                self.spec_used(),
                self.spec_max(),
                self.spec_index(),
                self.spec_lru(),
                id@,
                incoming,
            ),
    {
        if self.find(id).is_some() {
            return Ok(self.used);
        }
        if incoming > self.max_bytes {
            return Err(ProjectionError::ExceedsLimit { incoming, max_bytes: self.max_bytes });
        }
        let mut projected: u64 = self.used.saturating_add(incoming);
        let mut i: usize = 0;
        proof {
            assert(self.lru@.skip(0) == self.lru@);
        }
        while i < self.lru.len() && projected > self.max_bytes
            invariant
                self.wf(),
                i <= self.lru@.len(),
                evicted_usage(
                    sat_add(self.used, incoming),
                    self.lru@,
                    self.index@,
                    self.max_bytes,
                ) == evicted_usage(projected, self.lru@.skip(i as int), self.index@, self.max_bytes),
            decreases self.lru@.len() - i,
        {
            proof {
                assert(self.lru@.skip(i as int).drop_first() == self.lru@.skip(i + 1));
                assert(self.lru@.skip(i as int)[0] == self.lru@[i as int]);
            }
            match self.find(&self.lru[i]) {
                Some(k) => {
                    projected = projected.saturating_sub(self.index[k].bytes);
                },
                None => {},
            }
            i += 1;
        }
        if projected > self.max_bytes {
            return Err(ProjectionError::CannotFit { max_bytes: self.max_bytes });
        }
        Ok(projected)
    }

    /// The usage the store would retain after putting `bytes`, under the physical id
    /// that their hash gives them.
    pub fn projected_used_bytes_after_put(&self, bytes: &[u8]) -> (r: Result<u64, ProjectionError>)
        requires
            self.wf(),
        ensures
            exists|id: Seq<char>|
                is_content_id_text(id) && r == projection(
                    self.spec_used(),
                    self.spec_max(),
                    self.spec_index(),
                    self.spec_lru(),
                    id,
                    bytes@.len() as u64,
                ),
    {
        let id = content_id(bytes);
        self.projected_used_bytes_for(&id, bytes.len() as u64)
    }

    /// Records an artifact whose file was just written.
    pub fn record_stored(&mut self, meta: ArtifactMeta)
        requires
            old(self).wf(),
        ensures
            final(self).wf(),
            final(self).spec_used() == sat_add(old(self).spec_used(), meta.bytes),
            final(self).spec_max() == old(self).spec_max(),
            final(self).spec_root() == old(self).spec_root(),
            final(self).spec_lru() == old(self).spec_lru().push(meta.id),
            stored_after(*old(self), *final(self), meta),
            forall|x: Seq<char>|
                #[trigger] indexed(final(self).spec_index(), x) == if x == meta.id@ {
                    Some(meta)
                } else {
                    indexed(old(self).spec_index(), x)
                },
    {
        let ghost old_index = self.index@;
        let id = meta.id.clone();
        self.used = self.used.saturating_add(meta.bytes);
        match self.find(&id) {
            Some(i) => {
                self.index.set(i, meta);
                proof {
                    lemma_replace_indexed(old_index, self.index@, i as int);
                }
            },
            None => {
                self.index.push(meta);
                proof {
                    lemma_push_indexed(old_index, self.index@);
                }
            },
        }
        self.lru.push(id);
    }

    /// The artifact already retained under `id`, its kind taken from `kind` when it
    /// was only known as retained from an earlier run.
    pub fn adopt_existing(&mut self, id: &String, kind: &String) -> (r: Option<ArtifactMeta>)
        requires
            old(self).wf(),
        ensures
            final(self).wf(),
            final(self).spec_used() == old(self).spec_used(),
            final(self).spec_max() == old(self).spec_max(),
            final(self).spec_root() == old(self).spec_root(),
            final(self).spec_lru() == old(self).spec_lru(),
            match indexed(old(self).spec_index(), id@) {
                None => r is None && final(self).spec_index() == old(self).spec_index(),
                Some(m) => r matches Some(n) && n.id == m.id && n.bytes == m.bytes && n.path == m.path
                    && n.kind@ == (if m.kind@ == "retained"@ {
                    kind@
                } else {
                    m.kind@
                }) && forall|x: Seq<char>|
                    #[trigger] indexed(final(self).spec_index(), x) == if x == id@ {
                        Some(n)
                    } else {
                        indexed(old(self).spec_index(), x)
                    },
            },
    {
        let ghost old_index = self.index@;
        match self.find(id) {
            None => None,
            Some(i) => {
                let existing = &self.index[i];
                let k = chars_of(existing.kind.as_str());
                let adopted = if eq_lit(k.as_slice(), "retained") {
                    ArtifactMeta {
                        id: existing.id.clone(),
                        kind: kind.clone(),
                        bytes: existing.bytes,
                        path: existing.path.clone(),
                    }
                } else {
                    clone_meta(existing)
                };
                let out = clone_meta(&adopted);
                self.index.set(i, adopted);
                proof {
                    lemma_replace_indexed(old_index, self.index@, i as int);
                }
                Some(out)
            },
        }
    }

    /// What garbage collection does next.
    pub fn next_gc_step(&self) -> (r: GcStep)
        requires
            self.wf(),
        ensures
            match r {
                GcStep::Done => self.spec_used() <= self.spec_max() || self.spec_lru().len() == 0,
                GcStep::DropStale => self.spec_used() > self.spec_max() && self.spec_lru().len() > 0
                    && indexed(self.spec_index(), self.spec_lru()[0]@) is None,
                GcStep::Evict(m) => self.spec_used() > self.spec_max() && self.spec_lru().len() > 0
                    && indexed(self.spec_index(), self.spec_lru()[0]@) == Some(m),
            },
    {
        if self.used <= self.max_bytes || self.lru.len() == 0 {
            return GcStep::Done;
        }
        match self.find(&self.lru[0]) {
            None => GcStep::DropStale,
            Some(i) => GcStep::Evict(clone_meta(&self.index[i])),
        }
    }

    /// Records that the oldest entry of the eviction order was dropped.
    pub fn record_dropped(&mut self)
        requires
            old(self).wf(),
            old(self).spec_lru().len() > 0,
        ensures
            final(self).wf(),
            final(self).spec_lru() == old(self).spec_lru().drop_first(),
            final(self).spec_index() == old(self).spec_index(),
            final(self).spec_used() == old(self).spec_used(),
            final(self).spec_max() == old(self).spec_max(),
            final(self).spec_root() == old(self).spec_root(),
            old(self).spec_used() > old(self).spec_max() && indexed(
                old(self).spec_index(),
                old(self).spec_lru()[0]@,
            ) is None ==> gc_step_after(*old(self), *final(self)),
    {
        self.lru.remove(0);
        proof {
            assert(self.lru@ == old(self).lru@.drop_first());
        }
    }

    /// Records a verified read of the artifact retained under `id`: it becomes the
    /// most recently used, last in the eviction order. An id that is not retained
    /// leaves the store as it was.
    pub fn record_read(&mut self, id: &String)
        requires
            old(self).wf(),
        ensures
            final(self).wf(),
            final(self).spec_used() == old(self).spec_used(),
            final(self).spec_max() == old(self).spec_max(),
            final(self).spec_root() == old(self).spec_root(),
            final(self).spec_index() == old(self).spec_index(),
            final(self).spec_lru() == (if indexed(old(self).spec_index(), id@) is Some {
                without(old(self).spec_lru(), id@).push(*id)
            } else {
                old(self).spec_lru()
            }),
    {
        if self.find(id).is_none() {
            return;
        }
        let mut kept: Vec<String> = Vec::new();
        let mut i: usize = 0;
        while i < self.lru.len()
            invariant
                i <= self.lru@.len(),
                kept@ == without(self.lru@.take(i as int), id@),
            decreases self.lru@.len() - i,
        {
            let ghost before = kept@;
            proof {
                let t = self.lru@.take(i + 1);
                assert(t.drop_last() == self.lru@.take(i as int));
                assert(t.last() == self.lru@[i as int]);
            }
            if !crate::text::str_eq(self.lru[i].as_str(), id.as_str()) {
                kept.push(self.lru[i].clone());
            }
            i += 1;
        }
        proof {
            assert(self.lru@.take(i as int) == self.lru@);
        }
        kept.push(id.clone());
        self.lru = kept;
    }

    /// Records that the oldest artifact was evicted: it leaves the eviction order and
    /// the index, and its bytes are no longer retained.
    pub fn record_evicted(&mut self)
        requires
            old(self).wf(),
            old(self).spec_lru().len() > 0,
        ensures
            final(self).wf(),
            final(self).spec_lru() == old(self).spec_lru().drop_first(),
            final(self).spec_max() == old(self).spec_max(),
            final(self).spec_root() == old(self).spec_root(),
            match indexed(old(self).spec_index(), old(self).spec_lru()[0]@) {
                Some(m) => final(self).spec_used() == sat_sub(old(self).spec_used(), m.bytes),
                None => final(self).spec_used() == old(self).spec_used(),
            },
            old(self).spec_used() > old(self).spec_max() ==> gc_step_after(*old(self), *final(self)),
            forall|x: Seq<char>|
                #[trigger] indexed(final(self).spec_index(), x) == if x == old(self).spec_lru()[0]@ {
                    None
                } else {
                    indexed(old(self).spec_index(), x)
                },
    {
        let id = self.lru.remove(0);
        proof {
            assert(self.lru@ == old(self).lru@.drop_first());
        }
        let ghost old_index = self.index@;
        match self.find(&id) {
            Some(i) => {
                let bytes = self.index[i].bytes;
                self.index.remove(i);
                self.used = self.used.saturating_sub(bytes);
                proof {
                    lemma_remove_indexed(old_index, self.index@, i as int);
                }
            },
            None => {},
        }
    }
}

/// `a` is restored before `b`: older first, then by id.
pub open spec fn restored_before(a: RestoredEntry, b: RestoredEntry) -> bool {
    a.modified_nanos < b.modified_nanos || (a.modified_nanos == b.modified_nanos && seq_lt(
        a.meta.id@,
        b.meta.id@,
    ))
}

/// `s` lists restored entries oldest first, then by id.
pub open spec fn restore_ordered(s: Seq<RestoredEntry>) -> bool {
    forall|a: int, b: int| 0 <= a < b < s.len() ==> !restored_before(#[trigger] s[b], #[trigger] s[a])
}

proof fn lemma_restored_before_transitive(a: RestoredEntry, b: RestoredEntry, c: RestoredEntry)
    requires
        restored_before(a, b),
        restored_before(b, c),
    ensures
        restored_before(a, c),
{
    if a.modified_nanos == b.modified_nanos && b.modified_nanos == c.modified_nanos {
        crate::text::lemma_seq_lt_transitive(a.meta.id@, b.meta.id@, c.meta.id@);
    }
}

fn clone_restored(e: &RestoredEntry) -> (r: RestoredEntry)
    ensures
        r == *e,
{
    RestoredEntry { modified_nanos: e.modified_nanos, meta: clone_meta(&e.meta) }
}

fn restored_lt(a: &RestoredEntry, b: &RestoredEntry) -> (r: bool)
    ensures
        r == restored_before(*a, *b),
{
    if a.modified_nanos != b.modified_nanos {
        return a.modified_nanos < b.modified_nanos;
    }
    let x = chars_of(a.meta.id.as_str());
    let y = chars_of(b.meta.id.as_str());
    text_lt(x.as_slice(), y.as_slice())
}

/// The files found when the store is opened, oldest first and then by id, each
/// entry kept (a stable sort).
pub fn order_restored(found: &Vec<RestoredEntry>) -> (r: Vec<RestoredEntry>)
    ensures
        restore_ordered(r@),
        r@.to_multiset() == found@.to_multiset(),
{
    broadcast use vstd::seq_lib::to_multiset_insert;

    let mut out: Vec<RestoredEntry> = Vec::new();
    let mut i: usize = 0;
    proof {
        assert(out@ == found@.take(0));
    }
    while i < found.len()
        invariant
            i <= found@.len(),
            restore_ordered(out@),
            out@.to_multiset() == found@.take(i as int).to_multiset(),
        decreases found@.len() - i,
    {
        let x = clone_restored(&found[i]);
        let mut pos: usize = 0;
        while pos < out.len() && !restored_lt(&x, &out[pos])
            invariant
                pos <= out@.len(),
                forall|k: int| 0 <= k < pos ==> !restored_before(x, #[trigger] out@[k]),
            decreases out@.len() - pos,
        {
            pos += 1;
        }
        let ghost old_out = out@;
        out.insert(pos, x);
        proof {
            assert(found@.take(i + 1) == found@.take(i as int).push(found@[i as int]));
            vstd::seq_lib::to_multiset_build(found@.take(i as int), found@[i as int]);
            vstd::seq_lib::to_multiset_insert(old_out, pos as int, x);
            assert(out@ == old_out.insert(pos as int, x));
            assert(out@[pos as int] == x);
            assert forall|a: int, b: int| 0 <= a < b < out@.len() implies !restored_before(
                #[trigger] out@[b],
                #[trigger] out@[a],
            ) by {
                if b < pos {
                    assert(out@[a] == old_out[a] && out@[b] == old_out[b]);
                } else if b == pos {
                    assert(out@[a] == old_out[a]);
                } else if a < pos {
                    assert(out@[a] == old_out[a] && out@[b] == old_out[b - 1]);
                    if restored_before(old_out[b - 1], old_out[a]) {
                    }
                } else if a == pos {
                    assert(out@[b] == old_out[b - 1]);
                    assert(restored_before(x, old_out[pos as int]));
                    if restored_before(old_out[b - 1], x) {
                        lemma_restored_before_transitive(old_out[b - 1], x, old_out[pos as int]);
                        if b - 1 > pos {
                            assert(!restored_before(old_out[b - 1], old_out[pos as int]));
                        } else {
                            crate::text::lemma_seq_lt_irreflexive(old_out[pos as int].meta.id@);
                        }
                    }
                } else {
                    assert(out@[a] == old_out[a - 1] && out@[b] == old_out[b - 1]);
                }
            }
        }
        i += 1;
    }
    proof {
        assert(found@.take(i as int) == found@);
    }
    out
}

/// The usage after recording each entry in turn.
pub open spec fn used_after(used: u64, es: Seq<RestoredEntry>) -> u64
    decreases es.len(),
{
    if es.len() == 0 {
        used
    } else {
        sat_add(used_after(used, es.drop_last()), es.last().meta.bytes)
    }
}

/// What the index holds for `x` after recording each entry in turn.
pub open spec fn indexed_after(index: Seq<ArtifactMeta>, es: Seq<RestoredEntry>, x: Seq<char>) -> Option<
    ArtifactMeta,
>
    decreases es.len(),
{
    if es.len() == 0 {
        indexed(index, x)
    } else if es.last().meta.id@ == x {
        Some(es.last().meta)
    } else {
        indexed_after(index, es.drop_last(), x)
    }
}

pub open spec fn restored_ids(es: Seq<RestoredEntry>) -> Seq<String> {
    es.map_values(|e: RestoredEntry| e.meta.id)
}

impl ArtifactStore {
    /// Records the files found when the store is opened, oldest first and then by
    /// id: each joins the index and the end of the eviction order, and counts
    /// toward the usage.
    pub fn restore_existing(&mut self, found: &Vec<RestoredEntry>)
        requires
            old(self).wf(),
        ensures
            final(self).wf(),
            final(self).spec_max() == old(self).spec_max(),
            final(self).spec_root() == old(self).spec_root(),
            exists|ordered: Seq<RestoredEntry>|
                {
                    &&& restore_ordered(ordered)
                    &&& ordered.to_multiset() == found@.to_multiset()
                    &&& final(self).spec_lru() == old(self).spec_lru() + restored_ids(ordered)
                    &&& final(self).spec_used() == used_after(old(self).spec_used(), ordered)
                    &&& forall|x: Seq<char>|
                        #[trigger] indexed(final(self).spec_index(), x) == indexed_after(
                            old(self).spec_index(),
                            ordered,
                            x,
                        )
                },
    {
        let ordered = order_restored(found);
        let ghost lru0 = self.lru@;
        let ghost used0 = self.used;
        let ghost index0 = self.index@;
        let mut i: usize = 0;
        proof {
            assert(lru0 + restored_ids(ordered@.take(0)) == lru0);
        }
        while i < ordered.len()
            invariant
                i <= ordered@.len(),
                self.wf(),
                self.max_bytes == old(self).max_bytes,
                self.root@ == old(self).root@,
                self.lru@ == lru0 + restored_ids(ordered@.take(i as int)),
                self.used == used_after(used0, ordered@.take(i as int)),
                forall|x: Seq<char>|
                    #[trigger] indexed(self.index@, x) == indexed_after(
                        index0,
                        ordered@.take(i as int),
                        x,
                    ),
            decreases ordered@.len() - i,
        {
            let e = clone_restored(&ordered[i]);
            proof {
                assert(ordered@.take(i + 1).drop_last() == ordered@.take(i as int));
                assert(ordered@.take(i + 1).last() == ordered@[i as int]);
                assert(restored_ids(ordered@.take(i + 1)) == restored_ids(ordered@.take(i as int)).push(
                    ordered@[i as int].meta.id,
                ));
            }
            self.record_stored(e.meta);
            i += 1;
        }
        proof {
            assert(ordered@.take(i as int) == ordered@);
        }
    }
}

proof fn lemma_replace_indexed(old: Seq<ArtifactMeta>, new: Seq<ArtifactMeta>, i: int)
    requires
        unique_ids(old),
        0 <= i < old.len(),
        new == old.update(i, new[i]),
        new[i].id@ == old[i].id@,
    ensures
        unique_ids(new),
        forall|x: Seq<char>|
            #[trigger] indexed(new, x) == if x == new[i].id@ {
                Some(new[i])
            } else {
                indexed(old, x)
            },
{
    assert forall|a: int, b: int|
        0 <= a < new.len() && 0 <= b < new.len() && a != b implies (#[trigger] new[a]).id@
            != (#[trigger] new[b]).id@ by {
        assert(old[a].id@ != old[b].id@);
    }
    assert forall|x: Seq<char>| #[trigger] indexed(new, x) == if x == new[i].id@ {
        Some(new[i])
    } else {
        indexed(old, x)
    } by {
        if x == new[i].id@ {
            lemma_indexed_at(new, i);
        } else if exists|k: int| 0 <= k < old.len() && (#[trigger] old[k]).id@ == x {
            let k = choose|k: int| 0 <= k < old.len() && (#[trigger] old[k]).id@ == x;
            lemma_indexed_at(old, k);
            assert(new[k] == old[k]);
            lemma_indexed_at(new, k);
        } else {
            assert forall|k: int| 0 <= k < new.len() implies (#[trigger] new[k]).id@ != x by {
                if k != i {
                    assert(new[k] == old[k]);
                }
            }
        }
    }
}

proof fn lemma_push_indexed(old: Seq<ArtifactMeta>, new: Seq<ArtifactMeta>)
    requires
        unique_ids(old),
        new.len() == old.len() + 1,
        new == old.push(new.last()),
        indexed(old, new.last().id@) is None,
    ensures
        unique_ids(new),
        forall|x: Seq<char>|
            #[trigger] indexed(new, x) == if x == new.last().id@ {
                Some(new.last())
            } else {
                indexed(old, x)
            },
{
    let n = old.len() as int;
    assert forall|a: int, b: int|
        0 <= a < new.len() && 0 <= b < new.len() && a != b implies (#[trigger] new[a]).id@
            != (#[trigger] new[b]).id@ by {
        if a < n && b < n {
            assert(old[a].id@ != old[b].id@);
        } else if a == n {
            assert(new[b] == old[b]);
        } else {
            assert(new[a] == old[a]);
        }
    }
    assert forall|x: Seq<char>| #[trigger] indexed(new, x) == if x == new.last().id@ {
        Some(new.last())
    } else {
        indexed(old, x)
    } by {
        if x == new.last().id@ {
            lemma_indexed_at(new, n);
        } else if exists|k: int| 0 <= k < old.len() && (#[trigger] old[k]).id@ == x {
            let k = choose|k: int| 0 <= k < old.len() && (#[trigger] old[k]).id@ == x;
            lemma_indexed_at(old, k);
            assert(new[k] == old[k]);
            lemma_indexed_at(new, k);
        } else {
            assert forall|k: int| 0 <= k < new.len() implies (#[trigger] new[k]).id@ != x by {
                if k < n {
                    assert(new[k] == old[k]);
                }
            }
        }
    }
}

proof fn lemma_remove_indexed(old: Seq<ArtifactMeta>, new: Seq<ArtifactMeta>, i: int)
    requires
        unique_ids(old),
        0 <= i < old.len(),
        new == old.remove(i),
    ensures
        unique_ids(new),
        forall|x: Seq<char>|
            #[trigger] indexed(new, x) == if x == old[i].id@ {
                None
            } else {
                indexed(old, x)
            },
{
    assert forall|a: int, b: int|
        0 <= a < new.len() && 0 <= b < new.len() && a != b implies (#[trigger] new[a]).id@
            != (#[trigger] new[b]).id@ by {
        let oa = if a < i {
            a
        } else {
            a + 1
        };
        let ob = if b < i {
            b
        } else {
            b + 1
        };
        assert(new[a] == old[oa]);
        assert(new[b] == old[ob]);
        assert(old[oa].id@ != old[ob].id@);
    }
    assert forall|x: Seq<char>| #[trigger] indexed(new, x) == if x == old[i].id@ {
        None
    } else {
        indexed(old, x)
    } by {
        if x == old[i].id@ {
            assert forall|k: int| 0 <= k < new.len() implies (#[trigger] new[k]).id@ != x by {
                let ok = if k < i {
                    k
                } else {
                    k + 1
                };
                assert(new[k] == old[ok]);
                assert(old[ok].id@ != old[i].id@);
            }
        } else if exists|k: int| 0 <= k < old.len() && (#[trigger] old[k]).id@ == x {
            let k = choose|k: int| 0 <= k < old.len() && (#[trigger] old[k]).id@ == x;
            lemma_indexed_at(old, k);
            let nk = if k < i {
                k
            } else {
                k - 1
            };
            assert(new[nk] == old[k]);
            lemma_indexed_at(new, nk);
        } else {
            assert forall|k: int| 0 <= k < new.len() implies (#[trigger] new[k]).id@ != x by {
                let ok = if k < i {
                    k
                } else {
                    k + 1
                };
                assert(new[k] == old[ok]);
            }
        }
    }
}


/// The bytes retained under each indexed id.
pub open spec fn sizes(index: Seq<ArtifactMeta>) -> Map<Seq<char>, u64> {
    Map::new(|x: Seq<char>| indexed(index, x) is Some, |x: Seq<char>| indexed(index, x)->Some_0.bytes)
}

/// The ids of an eviction order.
pub open spec fn id_texts(lru: Seq<String>) -> Seq<Seq<char>> {
    lru.map_values(|s: String| s@)
}

/// The usage that garbage collection ends with: while over the limit, the oldest
/// entry leaves the eviction order, and when it is indexed its bytes leave the
/// usage and its id the index.
pub open spec fn collected_usage(used: u64, lru: Seq<Seq<char>>, sizes: Map<Seq<char>, u64>, max: u64) -> u64
    decreases lru.len(),
{
    if lru.len() == 0 || used <= max {
        used
    } else if sizes.contains_key(lru[0]) {
        collected_usage(sat_sub(used, sizes[lru[0]]), lru.drop_first(), sizes.remove(lru[0]), max)
    } else {
        collected_usage(used, lru.drop_first(), sizes, max)
    }
}

/// Collecting over the eviction order with one more id at its end agrees with the
/// projection's eviction over the order itself, wherever that projection fits.
proof fn lemma_collect_matches_evict(
    u: u64,
    lru: Seq<String>,
    index: Seq<ArtifactMeta>,
    s: Map<Seq<char>, u64>,
    id: Seq<char>,
    max: u64,
)
    requires
        id_texts(lru).no_duplicates(),
        !id_texts(lru).contains(id),
        forall|k: int|
            0 <= k < lru.len() ==> (s.contains_key((#[trigger] lru[k])@) <==> indexed(index, lru[k]@) is Some),
        forall|k: int|
            0 <= k < lru.len() && s.contains_key((#[trigger] lru[k])@) ==> s[lru[k]@] == indexed(
                index,
                lru[k]@,
            )->Some_0.bytes,
        evicted_usage(u, lru, index, max) <= max,
    ensures
        collected_usage(u, id_texts(lru).push(id), s, max) == evicted_usage(u, lru, index, max),
    decreases lru.len(),
{
    let l = id_texts(lru).push(id);
    if lru.len() == 0 {
        assert(l == seq![id]);
    } else if u > max {
        let x = lru[0]@;
        let rest = lru.drop_first();
        assert(l[0] == x);
        assert(l.drop_first() == id_texts(rest).push(id));
        assert(id_texts(rest) == id_texts(lru).drop_first());
        assert(id_texts(rest).no_duplicates());
        assert(!id_texts(rest).contains(id)) by {
            if id_texts(rest).contains(id) {
                let k = choose|k: int| 0 <= k < id_texts(rest).len() && id_texts(rest)[k] == id;
                assert(id_texts(lru)[k + 1] == id);
            }
        }
        assert forall|k: int| 0 <= k < rest.len() implies (#[trigger] rest[k])@ != x by {
            assert(id_texts(lru)[k + 1] == rest[k]@);
            assert(id_texts(lru)[0] == x);
        }
        if s.contains_key(x) {
            let s2 = s.remove(x);
            assert forall|k: int| 0 <= k < rest.len() implies (s2.contains_key((#[trigger] rest[k])@)
                <==> indexed(index, rest[k]@) is Some) by {
                assert(rest[k] == lru[k + 1]);
            }
            assert forall|k: int| 0 <= k < rest.len() && s2.contains_key((#[trigger] rest[k])@) implies s2[rest[k]@]
                == indexed(index, rest[k]@)->Some_0.bytes by {
                assert(rest[k] == lru[k + 1]);
            }
            lemma_collect_matches_evict(sat_sub(u, s[x]), rest, index, s2, id, max);
        } else {
            assert forall|k: int| 0 <= k < rest.len() implies (s.contains_key((#[trigger] rest[k])@)
                <==> indexed(index, rest[k]@) is Some) by {
                assert(rest[k] == lru[k + 1]);
            }
            assert forall|k: int| 0 <= k < rest.len() && s.contains_key((#[trigger] rest[k])@) implies s[rest[k]@]
                == indexed(index, rest[k]@)->Some_0.bytes by {
                assert(rest[k] == lru[k + 1]);
            }
            lemma_collect_matches_evict(u, rest, index, s, id, max);
        }
    }
}

/// A put's projection is what the store retains after the put and its garbage
/// collection: storing `incoming` bytes under an id that is neither indexed nor in
/// the eviction order, then collecting, ends with the projected usage. (The
/// eviction order lists each id once.)
pub proof fn lemma_projection_matches_collection(
    used: u64,
    max: u64,
    index: Seq<ArtifactMeta>,
    lru: Seq<String>,
    id: Seq<char>,
    incoming: u64,
    projected: u64,
)
    requires
        unique_ids(index),
        id_texts(lru).no_duplicates(),
        !id_texts(lru).contains(id),
        indexed(index, id) is None,
        projection(used, max, index, lru, id, incoming) == Ok::<u64, ProjectionError>(projected),
    ensures
        projected <= max,
        collected_usage(sat_add(used, incoming), id_texts(lru).push(id), sizes(index).insert(id, incoming), max)
            == projected,
{
    let s = sizes(index).insert(id, incoming);
    assert forall|k: int| 0 <= k < lru.len() implies (#[trigger] lru[k])@ != id by {
        assert(id_texts(lru)[k] == lru[k]@);
    }
    lemma_collect_matches_evict(sat_add(used, incoming), lru, index, s, id, max);
}

/// A step of garbage collection keeps the usage that collection ends with: while
/// over the limit, evicting the oldest artifact (or dropping the oldest entry when
/// it is not indexed) leaves `collected_usage` as it was; and a store within its
/// limit or with an empty eviction order is collected already.
pub proof fn lemma_gc_step_keeps_collected_usage(
    used: u64,
    lru: Seq<String>,
    index: Seq<ArtifactMeta>,
    max: u64,
    next_used: u64,
    next_index: Seq<ArtifactMeta>,
)
    requires
        used > max,
        lru.len() > 0,
        match indexed(index, lru[0]@) {
            Some(m) => next_used == sat_sub(used, m.bytes),
            None => next_used == used,
        },
        forall|x: Seq<char>|
            #[trigger] indexed(next_index, x) == if x == lru[0]@ {
                None
            } else {
                indexed(index, x)
            },
    ensures
        collected_usage(used, id_texts(lru), sizes(index), max) == collected_usage(
            next_used,
            id_texts(lru.drop_first()),
            sizes(next_index),
            max,
        ),
{
    let x = lru[0]@;
    assert(id_texts(lru)[0] == x);
    assert(id_texts(lru.drop_first()) == id_texts(lru).drop_first());
    if indexed(index, x) is Some {
        assert(sizes(next_index) =~= sizes(index).remove(x));
    } else {
        assert(sizes(next_index) =~= sizes(index));
    }
}

/// A store within its limit, or with nothing left in its eviction order, is
/// collected already.
pub proof fn lemma_collection_done(used: u64, lru: Seq<Seq<char>>, sizes: Map<Seq<char>, u64>, max: u64)
    requires
        used <= max || lru.len() == 0,
    ensures
        collected_usage(used, lru, sizes, max) == used,
{
}

/// `b` is `a` after `record_stored(meta)`.
pub open spec fn stored_after(a: ArtifactStore, b: ArtifactStore, meta: ArtifactMeta) -> bool {
    &&& b.spec_used() == sat_add(a.spec_used(), meta.bytes)
    &&& b.spec_max() == a.spec_max()
    &&& b.spec_lru() == a.spec_lru().push(meta.id)
    &&& forall|x: Seq<char>|
        #[trigger] indexed(b.spec_index(), x) == if x == meta.id@ {
            Some(meta)
        } else {
            indexed(a.spec_index(), x)
        }
}

/// `b` is `a` after one step of garbage collection over the limit: the oldest entry
/// of the eviction order is evicted (`record_evicted`), or dropped when it is not
/// indexed (`record_dropped`).
pub open spec fn gc_step_after(a: ArtifactStore, b: ArtifactStore) -> bool {
    &&& a.spec_used() > a.spec_max()
    &&& a.spec_lru().len() > 0
    &&& b.spec_max() == a.spec_max()
    &&& b.spec_lru() == a.spec_lru().drop_first()
    &&& match indexed(a.spec_index(), a.spec_lru()[0]@) {
        Some(m) => b.spec_used() == sat_sub(a.spec_used(), m.bytes),
        None => b.spec_used() == a.spec_used(),
    }
    &&& forall|x: Seq<char>|
        #[trigger] indexed(b.spec_index(), x) == if x == a.spec_lru()[0]@ {
            None
        } else {
            indexed(a.spec_index(), x)
        }
}

/// One step of a store's life: an artifact is recorded as stored, or garbage
/// collection takes one step.
pub open spec fn store_step(a: ArtifactStore, b: ArtifactStore) -> bool {
    (exists|meta: ArtifactMeta| stored_after(a, b, meta)) || gc_step_after(a, b)
}

/// The byte limit a store was opened with stays its limit across any sequence of
/// stores and collection steps.
pub proof fn lemma_limit_is_kept(stores: Seq<ArtifactStore>, max_bytes: u64)
    requires
        stores.len() > 0,
        stores[0].spec_max() == max_bytes,
        forall|i: int| 0 <= i < stores.len() - 1 ==> store_step(#[trigger] stores[i], stores[i + 1]),
    ensures
        forall|i: int| 0 <= i < stores.len() ==> (#[trigger] stores[i]).spec_max() == max_bytes,
    decreases stores.len(),
{
    if stores.len() > 1 {
        let init = stores.drop_last();
        assert forall|i: int| 0 <= i < init.len() - 1 implies store_step(#[trigger] init[i], init[i + 1]) by {
            assert(init[i] == stores[i] && init[i + 1] == stores[i + 1]);
        }
        lemma_limit_is_kept(init, max_bytes);
        let n = stores.len() - 1;
        assert(init[n - 1] == stores[n - 1]);
        assert(store_step(stores[n - 1], stores[n]));
        assert forall|i: int| 0 <= i < stores.len() implies (#[trigger] stores[i]).spec_max() == max_bytes by {
            if i < n {
                assert(init[i] == stores[i]);
            }
        }
    }
}

/// The usage that collection ends with, for a store.
pub open spec fn store_collected_usage(a: ArtifactStore) -> u64 {
    collected_usage(a.spec_used(), id_texts(a.spec_lru()), sizes(a.spec_index()), a.spec_max())
}

proof fn lemma_steps_keep_collected_usage(steps: Seq<ArtifactStore>)
    requires
        steps.len() > 0,
        forall|i: int| 0 <= i < steps.len() - 1 ==> gc_step_after(#[trigger] steps[i], steps[i + 1]),
    ensures
        store_collected_usage(steps.last()) == store_collected_usage(steps[0]),
        steps.last().spec_max() == steps[0].spec_max(),
    decreases steps.len(),
{
    if steps.len() > 1 {
        let init = steps.drop_last();
        assert forall|i: int| 0 <= i < init.len() - 1 implies gc_step_after(#[trigger] init[i], init[i + 1]) by {
            assert(init[i] == steps[i] && init[i + 1] == steps[i + 1]);
        }
        lemma_steps_keep_collected_usage(init);
        let n = steps.len() - 1;
        let a = steps[n - 1];
        let b = steps[n];
        assert(init.last() == a);
        assert(gc_step_after(a, b));
        lemma_gc_step_keeps_collected_usage(
            a.spec_used(),
            a.spec_lru(),
            a.spec_index(),
            a.spec_max(),
            b.spec_used(),
            b.spec_index(),
        );
    }
}

/// Storing an artifact and collecting garbage until collection is done leaves the
/// store retaining exactly the usage that the put's projection gave, within the
/// store's unchanged limit. The artifact's id is new to the index and to the
/// eviction order, which lists each id once.
pub proof fn lemma_store_retains_projection(
    before: ArtifactStore,
    meta: ArtifactMeta,
    steps: Seq<ArtifactStore>,
    projected: u64,
)
    requires
        before.wf(),
        id_texts(before.spec_lru()).no_duplicates(),
        !id_texts(before.spec_lru()).contains(meta.id@),
        indexed(before.spec_index(), meta.id@) is None,
        projection(
            before.spec_used(),
            before.spec_max(),
            before.spec_index(),
            before.spec_lru(),
            meta.id@,
            meta.bytes,
        ) == Ok::<u64, ProjectionError>(projected),
        steps.len() > 0,
        stored_after(before, steps[0], meta),
        forall|i: int| 0 <= i < steps.len() - 1 ==> gc_step_after(#[trigger] steps[i], steps[i + 1]),
        steps.last().spec_used() <= steps.last().spec_max() || steps.last().spec_lru().len() == 0,
    ensures
        steps.last().spec_used() == projected,
        projected <= before.spec_max(),
        steps.last().spec_max() == before.spec_max(),
{
    let first = steps[0];
    assert(sizes(first.spec_index()) =~= sizes(before.spec_index()).insert(meta.id@, meta.bytes));
    assert(id_texts(first.spec_lru()) =~= id_texts(before.spec_lru()).push(meta.id@));
    lemma_projection_matches_collection(
        before.spec_used(),
        before.spec_max(),
        before.spec_index(),
        before.spec_lru(),
        meta.id@,
        meta.bytes,
        projected,
    );
    lemma_steps_keep_collected_usage(steps);
    let last = steps.last();
    lemma_collection_done(last.spec_used(), id_texts(last.spec_lru()), sizes(last.spec_index()), last.spec_max());
}

/// Putting bytes whose id the store already retains costs nothing: the projected
/// usage is the usage the store has.
pub proof fn lemma_repeat_put_is_free(store: ArtifactStore, id: Seq<char>, incoming: u64)
    requires
        indexed(store.spec_index(), id) is Some,
    ensures
        projection(store.spec_used(), store.spec_max(), store.spec_index(), store.spec_lru(), id, incoming)
            == Ok::<u64, ProjectionError>(store.spec_used()),
{
}

} // verus!
