//! Content-addressed runtime objects: baselines, region Merkle nodes and the
//! difference of two sets of object hashes.
//!
//! Sets of hashes are vectors of strings. A normalised set is strictly increasing
//! in the order of `String`, which leaves no duplicate.
use vstd::prelude::*;
use crate::text::{chars_of, seq_eq, seq_lt, text_lt};
use crate::text::{lemma_seq_lt_irreflexive, lemma_seq_lt_total, lemma_seq_lt_transitive};
use crate::canonical_json::{
    append, decimal, optional_string, push_decimal, push_optional_string, push_quoted,
    push_string_array, quoted, string_array, text_of,
};
use crate::digest::{canonical_hash, canonical_hash_text};
use crate::text::push_char;
use vstd::utf8::encode_utf8;

verus! {

#[derive(Debug, Clone, Copy, PartialEq, Eq, Hash, Structural)]
pub enum RuntimeObjectKind {
    Semantic,
    Layout,
    Visual,
    Region,
    Evidence,
    Proof,
    Contract,
    State,
    Asset,
    Report,
    Baseline,
    Attestation,
}

/// The reference state a visual baseline was taken in.
#[derive(Debug)]
pub struct BaselineEnvelope {
    pub schema_version: u32,
    pub state_identity: String,
    pub route: String,
    pub viewport: (u32, u32),
    pub evidence_hashes: Vec<String>,
    pub design_baseline_hash: Option<String>,
    pub created_revision: Option<String>,
    pub provenance: Vec<(String, String)>,
}

#[derive(Debug, Clone)]
pub struct RegionMerkleNode {
    pub region_id: String,
    pub semantic_hash: Option<String>,
    pub layout_hash: Option<String>,
    pub visual_hash: Option<String>,
    pub children: Vec<String>,
}

/// How a set of object hashes changed.
#[derive(Debug, Clone)]
pub struct RuntimeDelta {
    pub unchanged: Vec<String>,
    pub added: Vec<String>,
    pub removed: Vec<String>,
}

pub open spec fn hashes(v: Seq<String>) -> Seq<Seq<char>> {
    v.map_values(|s: String| s@)
}

/// The name a kind is written with.
pub open spec fn kind_text(kind: RuntimeObjectKind) -> Seq<char> {
    match kind {
        RuntimeObjectKind::Semantic => "semantic"@,
        RuntimeObjectKind::Layout => "layout"@,
        RuntimeObjectKind::Visual => "visual"@,
        RuntimeObjectKind::Region => "region"@,
        RuntimeObjectKind::Evidence => "evidence"@,
        RuntimeObjectKind::Proof => "proof"@,
        RuntimeObjectKind::Contract => "contract"@,
        RuntimeObjectKind::State => "state"@,
        RuntimeObjectKind::Asset => "asset"@,
        RuntimeObjectKind::Report => "report"@,
        RuntimeObjectKind::Baseline => "baseline"@,
        RuntimeObjectKind::Attestation => "attestation"@,
    }
}

fn kind_name(kind: RuntimeObjectKind) -> (r: &'static str)
    ensures
        r@ == kind_text(kind),
{
    match kind {
        RuntimeObjectKind::Semantic => "semantic",
        RuntimeObjectKind::Layout => "layout",
        RuntimeObjectKind::Visual => "visual",
        RuntimeObjectKind::Region => "region",
        RuntimeObjectKind::Evidence => "evidence",
        RuntimeObjectKind::Proof => "proof",
        RuntimeObjectKind::Contract => "contract",
        RuntimeObjectKind::State => "state",
        RuntimeObjectKind::Asset => "asset",
        RuntimeObjectKind::Report => "report",
        RuntimeObjectKind::Baseline => "baseline",
        RuntimeObjectKind::Attestation => "attestation",
    }
}

/// A content-addressed object: its kind, the version of its schema, its payload as
/// canonical JSON text (object keys sorted, no white space) and the hashes of the
/// objects it depends on.
#[derive(Debug)]
pub struct RuntimeObject {
    pub kind: RuntimeObjectKind,
    pub schema_version: u32,
    pub payload: String,
    pub dependencies: Vec<String>,
}

/// The hashes an object depends on.
pub open spec fn deps_of(o: RuntimeObject) -> Seq<Seq<char>> {
    hashes(o.dependencies@)
}

/// The canonical JSON text of an object: its fields in the order of their names.
pub open spec fn object_json(o: RuntimeObject) -> Seq<char> {
    "{\"dependencies\":"@ + string_array(deps_of(o)) + ",\"kind\":"@ + quoted(kind_text(o.kind))
        + ",\"payload\":"@ + o.payload@ + ",\"schema_version\":"@ + decimal(
        o.schema_version as nat,
    ) + "}"@
}

/// The content address of an object: the canonical hash of the UTF-8 bytes of its
/// canonical JSON text.
pub open spec fn object_hash_text(o: RuntimeObject) -> Seq<char> {
    canonical_hash_text(encode_utf8(object_json(o)))
}

impl RuntimeObject {
    /// The object's content address.
    pub fn hash(&self) -> (r: String)
        ensures
            r@ == object_hash_text(*self),
            crate::digest::is_sha256_hash_text(r@),
    {
        let mut text = String::new();
        append(&mut text, "{\"dependencies\":");
        push_string_array(&mut text, &self.dependencies);
        append(&mut text, ",\"kind\":");
        push_quoted(&mut text, kind_name(self.kind));
        append(&mut text, ",\"payload\":");
        append(&mut text, self.payload.as_str());
        append(&mut text, ",\"schema_version\":");
        push_decimal(&mut text, self.schema_version as u64);
        append(&mut text, "}");
        canonical_hash(text.as_str().as_bytes())
    }
}

/// The canonical JSON text of a region node: its fields in the order of their names.
pub open spec fn region_node_json(n: RegionMerkleNode) -> Seq<char> {
    "{\"children\":"@ + string_array(hashes(n.children@)) + ",\"layout_hash\":"@
        + optional_string(text_of(n.layout_hash)) + ",\"region_id\":"@ + quoted(n.region_id@)
        + ",\"semantic_hash\":"@ + optional_string(text_of(n.semantic_hash))
        + ",\"visual_hash\":"@ + optional_string(text_of(n.visual_hash)) + "}"@
}

impl RegionMerkleNode {
    /// The node's content address: the canonical hash of the UTF-8 bytes of its
    /// canonical JSON text.
    pub fn root_hash(&self) -> (r: String)
        ensures
            r@ == canonical_hash_text(encode_utf8(region_node_json(*self))),
            crate::digest::is_sha256_hash_text(r@),
    {
        let mut text = String::new();
        append(&mut text, "{\"children\":");
        push_string_array(&mut text, &self.children);
        append(&mut text, ",\"layout_hash\":");
        push_optional_string(&mut text, &self.layout_hash);
        append(&mut text, ",\"region_id\":");
        push_quoted(&mut text, self.region_id.as_str());
        append(&mut text, ",\"semantic_hash\":");
        push_optional_string(&mut text, &self.semantic_hash);
        append(&mut text, ",\"visual_hash\":");
        push_optional_string(&mut text, &self.visual_hash);
        append(&mut text, "}");
        canonical_hash(text.as_str().as_bytes())
    }
}

/// Strictly increasing in the order of texts.
pub open spec fn strictly_sorted(s: Seq<Seq<char>>) -> bool {
    forall|a: int, b: int| 0 <= a < b < s.len() ==> seq_lt(#[trigger] s[a], #[trigger] s[b])
}

/// `r` is the sorted set of the texts of `v`.
pub open spec fn sorted_set_of(r: Seq<Seq<char>>, v: Seq<Seq<char>>) -> bool {
    &&& strictly_sorted(r)
    &&& forall|x: Seq<char>| r.contains(x) <==> v.contains(x)
}

/// Where `x` stands in a strictly increasing list: the number of entries before it,
/// and whether the entry there is `x`.
fn slot_of(v: &Vec<String>, x: &Vec<char>) -> (r: (usize, bool))
    requires
        strictly_sorted(hashes(v@)),
    ensures
        r.0 <= v@.len(),
        forall|j: int| 0 <= j < r.0 ==> seq_lt((#[trigger] v@[j])@, x@),
        r.1 ==> r.0 < v@.len() && v@[r.0 as int]@ == x@,
        !r.1 && r.0 < v@.len() ==> seq_lt(x@, v@[r.0 as int]@),
{
    let mut pos: usize = 0;
    while pos < v.len()
        invariant
            pos <= v@.len(),
            forall|j: int| 0 <= j < pos ==> seq_lt((#[trigger] v@[j])@, x@),
        decreases v@.len() - pos,
    {
        let here = chars_of(v[pos].as_str());
        if !text_lt(here.as_slice(), x.as_slice()) {
            let same = seq_eq(here.as_slice(), x.as_slice());
            proof {
                lemma_seq_lt_total(here@, x@);
            }
            return (pos, same);
        }
        pos += 1;
    }
    (pos, false)
}

proof fn lemma_insert_sorted(old: Seq<String>, new: Seq<String>, pos: int, x: Seq<char>)
    requires
        strictly_sorted(hashes(old)),
        0 <= pos <= old.len(),
        forall|j: int| 0 <= j < pos ==> seq_lt((#[trigger] old[j])@, x),
        pos < old.len() ==> seq_lt(x, old[pos]@),
        new == old.insert(pos, new[pos]),
        new[pos]@ == x,
    ensures
        strictly_sorted(hashes(new)),
        forall|y: Seq<char>| hashes(new).contains(y) <==> hashes(old).contains(y) || y == x,
{
    let o = hashes(old);
    let n = hashes(new);
    assert forall|j: int| pos < j < old.len() implies seq_lt(x, #[trigger] o[j]) by {
        assert(seq_lt(o[pos], o[j]));
        lemma_seq_lt_transitive(x, o[pos], o[j]);
    }
    assert forall|a: int, b: int| 0 <= a < b < n.len() implies seq_lt(#[trigger] n[a], #[trigger] n[b]) by {
        if b < pos {
            assert(seq_lt(o[a], o[b]));
        } else if b == pos {
            assert(seq_lt(old[a]@, x));
        } else if a < pos {
            assert(seq_lt(old[a]@, x));
            assert(seq_lt(x, o[b - 1]));
            lemma_seq_lt_transitive(o[a], x, o[b - 1]);
        } else if a == pos {
            assert(seq_lt(x, o[b - 1]));
        } else {
            assert(seq_lt(o[a - 1], o[b - 1]));
        }
    }
    assert forall|y: Seq<char>| n.contains(y) <==> o.contains(y) || y == x by {
        if n.contains(y) {
            let k = choose|k: int| 0 <= k < n.len() && n[k] == y;
            if k < pos {
                assert(o[k] == y);
            } else if k > pos {
                assert(o[k - 1] == y);
            }
        }
        if o.contains(y) {
            let k = choose|k: int| 0 <= k < o.len() && o[k] == y;
            if k < pos {
                assert(n[k] == y);
            } else {
                assert(n[k + 1] == y);
            }
        }
        if y == x {
            assert(n[pos] == y);
        }
    }
}

/// The hashes of `v` sorted, each once.
pub fn sorted_unique(v: &Vec<String>) -> (r: Vec<String>)
    ensures
        sorted_set_of(hashes(r@), hashes(v@)),
{
    let mut out: Vec<String> = Vec::new();
    let mut i: usize = 0;
    while i < v.len()
        invariant
            i <= v@.len(),
            sorted_set_of(hashes(out@), hashes(v@.take(i as int))),
        decreases v@.len() - i,
    {
        let x = chars_of(v[i].as_str());
        let (pos, found) = slot_of(&out, &x);
        let ghost pre = hashes(v@.take(i as int));
        let ghost post = hashes(v@.take(i + 1));
        proof {
            assert(post == pre.push(x@));
            assert forall|y: Seq<char>| post.contains(y) <==> pre.contains(y) || y == x@ by {
                if post.contains(y) {
                    let k = choose|k: int| 0 <= k < post.len() && post[k] == y;
                    if k < pre.len() {
                        assert(pre[k] == y);
                    }
                }
                if pre.contains(y) {
                    let k = choose|k: int| 0 <= k < pre.len() && pre[k] == y;
                    assert(post[k] == y);
                }
                if y == x@ {
                    assert(post[pre.len() as int] == y);
                }
            }
        }
        if !found {
            let ghost old = out@;
            out.insert(pos, v[i].clone());
            proof {
                lemma_insert_sorted(old, out@, pos as int, x@);
            }
        } else {
            proof {
                assert(hashes(out@)[pos as int] == x@);
                assert(hashes(out@).contains(x@));
            }
        }
        i += 1;
    }
    proof {
        assert(v@.take(i as int) == v@);
    }
    out
}

/// The entries of a strictly increasing `v` that `other` holds (`present`) or does
/// not hold (`!present`), in order.
fn keep_where(v: &Vec<String>, other: &Vec<String>, present: bool) -> (r: Vec<String>)
    requires
        strictly_sorted(hashes(v@)),
    ensures
        strictly_sorted(hashes(r@)),
        forall|y: Seq<char>|
            hashes(r@).contains(y) <==> (hashes(v@).contains(y) && hashes(other@).contains(y)
                == present),
{
    let mut out: Vec<String> = Vec::new();
    let mut i: usize = 0;
    while i < v.len()
        invariant
            i <= v@.len(),
            strictly_sorted(hashes(v@)),
            forall|a: int, b: int|
                0 <= a < out@.len() && 0 <= b < v@.len() && b >= i ==> seq_lt(
                    #[trigger] hashes(out@)[a],
                    #[trigger] hashes(v@)[b],
                ),
            strictly_sorted(hashes(out@)),
            forall|y: Seq<char>|
                hashes(out@).contains(y) <==> (hashes(v@.take(i as int)).contains(y) && hashes(
                    other@,
                ).contains(y) == present),
        decreases v@.len() - i,
    {
        let there = crate::bisect::contains_name(other, &v[i]);
        let ghost x = v@[i as int]@;
        let ghost pre = hashes(v@.take(i as int));
        let ghost post = hashes(v@.take(i + 1));
        let ghost before = out@;
        proof {
            assert(post == pre.push(x));
            assert(there == hashes(other@).contains(x)) by {
                if there {
                    let k = choose|k: int| 0 <= k < other@.len() && (#[trigger] other@[k])@ == x;
                    assert(hashes(other@)[k] == x);
                }
                if hashes(other@).contains(x) {
                    let k = choose|k: int| 0 <= k < hashes(other@).len() && hashes(other@)[k] == x;
                    assert(other@[k]@ == x);
                }
            }
            assert forall|y: Seq<char>| post.contains(y) <==> pre.contains(y) || y == x by {
                if post.contains(y) {
                    let k = choose|k: int| 0 <= k < post.len() && post[k] == y;
                    if k < pre.len() {
                        assert(pre[k] == y);
                    }
                }
                if pre.contains(y) {
                    let k = choose|k: int| 0 <= k < pre.len() && pre[k] == y;
                    assert(post[k] == y);
                }
                if y == x {
                    assert(post[pre.len() as int] == y);
                }
            }
        }
        if there == present {
            out.push(v[i].clone());
            proof {
                assert(hashes(out@) == hashes(before).push(x));
                assert forall|y: Seq<char>| hashes(out@).contains(y) <==> hashes(before).contains(y)
                    || y == x by {
                    if hashes(out@).contains(y) {
                        let k = choose|k: int| 0 <= k < hashes(out@).len() && hashes(out@)[k] == y;
                        if k < before.len() {
                            assert(hashes(before)[k] == y);
                        }
                    }
                    if hashes(before).contains(y) {
                        let k = choose|k: int| 0 <= k < hashes(before).len() && hashes(before)[k] == y;
                        assert(hashes(out@)[k] == y);
                    }
                    if y == x {
                        assert(hashes(out@)[before.len() as int] == y);
                    }
                }
                assert forall|a: int, b: int|
                    0 <= a < out@.len() && 0 <= b < v@.len() && b >= i + 1 implies seq_lt(
                    #[trigger] hashes(out@)[a],
                    #[trigger] hashes(v@)[b],
                ) by {
                    if a < before.len() {
                        assert(hashes(out@)[a] == hashes(before)[a]);
                    } else {
                        assert(hashes(v@)[i as int] == x);
                        assert(seq_lt(hashes(v@)[i as int], hashes(v@)[b]));
                    }
                }
                assert forall|a: int, b: int| 0 <= a < b < out@.len() implies seq_lt(
                    #[trigger] hashes(out@)[a],
                    #[trigger] hashes(out@)[b],
                ) by {
                    if b < before.len() {
                        assert(hashes(out@)[a] == hashes(before)[a]);
                        assert(hashes(out@)[b] == hashes(before)[b]);
                    } else {
                        assert(hashes(out@)[a] == hashes(before)[a]);
                        assert(hashes(v@)[i as int] == x);
                        assert(seq_lt(hashes(before)[a], hashes(v@)[i as int]));
                    }
                }
            }
        } else {
            proof {
                if hashes(out@).contains(x) {
                    let k = choose|k: int| 0 <= k < hashes(out@).len() && hashes(out@)[k] == x;
                    assert(hashes(v@)[i as int] == x);
                    assert(seq_lt(hashes(out@)[k], hashes(v@)[i as int]));
                    lemma_seq_lt_irreflexive(x);
                }
                assert(hashes(out@) == hashes(before));
            }
        }
        proof {
            assert forall|y: Seq<char>|
                hashes(out@).contains(y) <==> (post.contains(y) && hashes(other@).contains(y)
                    == present) by {
                if there == present {
                    assert(hashes(out@).contains(y) <==> hashes(before).contains(y) || y == x);
                } else {
                    assert(hashes(out@) == hashes(before));
                }
                assert(hashes(before).contains(y) <==> (pre.contains(y) && hashes(other@).contains(
                    y,
                ) == present));
                assert(post.contains(y) <==> pre.contains(y) || y == x);
                if y == x {
                    if there != present && hashes(out@).contains(x) {
                        let k = choose|k: int| 0 <= k < hashes(out@).len() && hashes(out@)[k] == x;
                        assert(seq_lt(hashes(out@)[k], hashes(v@)[i as int]));
                        lemma_seq_lt_irreflexive(x);
                    }
                }
            }
        }
        i += 1;
    }
    proof {
        assert(v@.take(i as int) == v@);
    }
    out
}

/// How a set of object hashes changed: the hashes in both, those only after and
/// those only before, each sorted and listed once.
pub fn diff_hash_sets(before: &Vec<String>, after: &Vec<String>) -> (r: RuntimeDelta)
    ensures
        strictly_sorted(hashes(r.unchanged@)),
        strictly_sorted(hashes(r.added@)),
        strictly_sorted(hashes(r.removed@)),
        forall|y: Seq<char>|
            hashes(r.unchanged@).contains(y) <==> (hashes(before@).contains(y) && hashes(
                after@,
            ).contains(y)),
        forall|y: Seq<char>|
            hashes(r.added@).contains(y) <==> (hashes(after@).contains(y) && !hashes(
                before@,
            ).contains(y)),
        forall|y: Seq<char>|
            hashes(r.removed@).contains(y) <==> (hashes(before@).contains(y) && !hashes(
                after@,
            ).contains(y)),
{
    let b = sorted_unique(before);
    let a = sorted_unique(after);
    let unchanged = keep_where(&b, &a, true);
    let added = keep_where(&a, &b, false);
    let removed = keep_where(&b, &a, false);
    RuntimeDelta { unchanged, added, removed }
}


/// The keys of a list of pairs.
pub open spec fn pair_keys(v: Seq<(String, String)>) -> Seq<Seq<char>> {
    v.map_values(|p: (String, String)| p.0@)
}

/// The map a list of pairs stands for: of two pairs with one key, the later wins.
pub open spec fn pair_map(v: Seq<(String, String)>) -> Map<Seq<char>, Seq<char>>
    decreases v.len(),
{
    if v.len() == 0 {
        Map::empty()
    } else {
        pair_map(v.drop_last()).insert(v.last().0@, v.last().1@)
    }
}

/// With keys in increasing order, the map holds exactly the listed keys, each
/// with its pair's value.
proof fn lemma_pair_map_sorted(v: Seq<(String, String)>)
    requires
        strictly_sorted(pair_keys(v)),
    ensures
        forall|k: Seq<char>| pair_map(v).contains_key(k) <==> pair_keys(v).contains(k),
        forall|a: int| 0 <= a < v.len() ==> pair_map(v)[(#[trigger] v[a]).0@] == v[a].1@,
    decreases v.len(),
{
    if v.len() > 0 {
        let d = v.drop_last();
        let n = v.len() - 1;
        assert forall|a: int, b: int| 0 <= a < b < d.len() implies seq_lt(
            #[trigger] pair_keys(d)[a],
            #[trigger] pair_keys(d)[b],
        ) by {
            assert(pair_keys(d)[a] == pair_keys(v)[a] && pair_keys(d)[b] == pair_keys(v)[b]);
        }
        lemma_pair_map_sorted(d);
        assert forall|k: Seq<char>| pair_map(v).contains_key(k) <==> pair_keys(v).contains(k) by {
            if pair_keys(d).contains(k) {
                let a = choose|a: int| 0 <= a < pair_keys(d).len() && pair_keys(d)[a] == k;
                assert(pair_keys(v)[a] == k);
            }
            if pair_keys(v).contains(k) {
                let a = choose|a: int| 0 <= a < pair_keys(v).len() && pair_keys(v)[a] == k;
                if a < n {
                    assert(pair_keys(d)[a] == k);
                }
            }
            if k == v[n].0@ {
                assert(pair_keys(v)[n] == k);
            }
        }
        assert forall|a: int| 0 <= a < v.len() implies pair_map(v)[(#[trigger] v[a]).0@] == v[a].1@ by {
            if a < n {
                assert(d[a] == v[a]);
                assert(seq_lt(pair_keys(v)[a], pair_keys(v)[n]));
                lemma_seq_lt_irreflexive(pair_keys(v)[a]);
                assert(pair_map(d)[d[a].0@] == d[a].1@);
            }
        }
    }
}

/// Inserting a key between its neighbours keeps the keys increasing.
proof fn lemma_keys_insert_sorted(ks: Seq<Seq<char>>, pos: int, x: Seq<char>)
    requires
        strictly_sorted(ks),
        0 <= pos <= ks.len(),
        forall|j: int| 0 <= j < pos ==> seq_lt(#[trigger] ks[j], x),
        pos < ks.len() ==> seq_lt(x, ks[pos]),
    ensures
        strictly_sorted(ks.insert(pos, x)),
{
    let n = ks.insert(pos, x);
    assert forall|j: int| pos < j < ks.len() implies seq_lt(x, #[trigger] ks[j]) by {
        assert(seq_lt(ks[pos], ks[j]));
        lemma_seq_lt_transitive(x, ks[pos], ks[j]);
    }
    assert forall|a: int, b: int| 0 <= a < b < n.len() implies seq_lt(#[trigger] n[a], #[trigger] n[b]) by {
        if b < pos {
            assert(seq_lt(ks[a], ks[b]));
        } else if b == pos {
            assert(seq_lt(ks[a], x));
        } else if a < pos {
            assert(seq_lt(ks[a], x));
            assert(seq_lt(x, ks[b - 1]));
            lemma_seq_lt_transitive(ks[a], x, ks[b - 1]);
        } else if a == pos {
            assert(seq_lt(x, ks[b - 1]));
        } else {
            assert(seq_lt(ks[a - 1], ks[b - 1]));
        }
    }
}

/// Where key `x` stands among the increasing keys of `v`: the number of pairs
/// before it, and whether the pair there has key `x`.
fn key_slot(v: &Vec<(String, String)>, x: &Vec<char>) -> (r: (usize, bool))
    requires
        strictly_sorted(pair_keys(v@)),
    ensures
        r.0 <= v@.len(),
        forall|j: int| 0 <= j < r.0 ==> seq_lt((#[trigger] v@[j]).0@, x@),
        r.1 ==> r.0 < v@.len() && v@[r.0 as int].0@ == x@,
        !r.1 && r.0 < v@.len() ==> seq_lt(x@, v@[r.0 as int].0@),
{
    let mut pos: usize = 0;
    while pos < v.len()
        invariant
            pos <= v@.len(),
            forall|j: int| 0 <= j < pos ==> seq_lt((#[trigger] v@[j]).0@, x@),
        decreases v@.len() - pos,
    {
        let here = chars_of(v[pos].0.as_str());
        if !text_lt(here.as_slice(), x.as_slice()) {
            let same = seq_eq(here.as_slice(), x.as_slice());
            proof {
                lemma_seq_lt_total(here@, x@);
            }
            return (pos, same);
        }
        pos += 1;
    }
    (pos, false)
}

/// The pairs of `v` as a map: keys in increasing order, each once, with the value
/// of the last pair that has it.
pub fn sorted_pairs(v: &Vec<(String, String)>) -> (r: Vec<(String, String)>)
    ensures
        strictly_sorted(pair_keys(r@)),
        pair_map(r@) == pair_map(v@),
{
    let mut out: Vec<(String, String)> = Vec::new();
    let mut i: usize = 0;
    proof {
        assert(pair_keys(out@) =~= Seq::<Seq<char>>::empty());
        assert(v@.take(0) =~= Seq::<(String, String)>::empty());
        assert(pair_map(out@) =~= pair_map(v@.take(0)));
    }
    while i < v.len()
        invariant
            i <= v@.len(),
            strictly_sorted(pair_keys(out@)),
            pair_map(out@) == pair_map(v@.take(i as int)),
        decreases v@.len() - i,
    {
        let x = chars_of(v[i].0.as_str());
        let (pos, found) = key_slot(&out, &x);
        let pair = (v[i].0.clone(), v[i].1.clone());
        let ghost old = out@;
        proof {
            let t = v@.take(i + 1);
            assert(t.drop_last() == v@.take(i as int));
            assert(pair_map(v@.take(i + 1)) == pair_map(v@.take(i as int)).insert(x@, v@[i as int].1@));
            lemma_pair_map_sorted(old);
        }
        if found {
            out.set(pos, pair);
            proof {
                assert(pair_keys(out@) =~= pair_keys(old));
                lemma_pair_map_sorted(out@);
                assert forall|k: Seq<char>| #[trigger] pair_map(out@).contains_key(k) <==> pair_map(
                    old,
                ).insert(x@, v@[i as int].1@).contains_key(k) by {
                    if pair_keys(old).contains(k) {
                        let a = choose|a: int| 0 <= a < pair_keys(old).len() && pair_keys(old)[a] == k;
                        assert(pair_keys(out@)[a] == k);
                    }
                    if k == x@ {
                        assert(pair_keys(old)[pos as int] == k);
                    }
                }
                assert forall|k: Seq<char>| #[trigger] pair_map(out@).contains_key(k) implies pair_map(
                    out@,
                )[k] == pair_map(old).insert(x@, v@[i as int].1@)[k] by {
                    assert(pair_keys(out@).contains(k));
                    let a = choose|a: int| 0 <= a < pair_keys(out@).len() && pair_keys(out@)[a] == k;
                    assert(pair_keys(out@)[a] == out@[a].0@);
                    assert(out@[a].0@ == k);
                    if a != pos {
                        assert(out@[a] == old[a]);
                        assert(pair_keys(old)[pos as int] == x@);
                        assert(pair_keys(old)[a] == k);
                        if a < pos {
                            assert(seq_lt(pair_keys(old)[a], pair_keys(old)[pos as int]));
                        } else {
                            assert(seq_lt(pair_keys(old)[pos as int], pair_keys(old)[a]));
                        }
                        lemma_seq_lt_irreflexive(k);
                        assert(k != x@);
                        assert(pair_map(old)[old[a].0@] == old[a].1@);
                    }
                }
                assert(pair_map(out@) =~= pair_map(old).insert(x@, v@[i as int].1@));
            }
        } else {
            out.insert(pos, pair);
            proof {
                assert(pair_keys(out@) =~= pair_keys(old).insert(pos as int, x@));
                lemma_keys_insert_sorted(pair_keys(old), pos as int, x@);
                lemma_pair_map_sorted(out@);
                assert forall|k: Seq<char>| #[trigger] pair_map(out@).contains_key(k) <==> pair_map(
                    old,
                ).insert(x@, v@[i as int].1@).contains_key(k) by {
                    if pair_keys(old).contains(k) {
                        let a = choose|a: int| 0 <= a < pair_keys(old).len() && pair_keys(old)[a] == k;
                        if a < pos {
                            assert(pair_keys(out@)[a] == k);
                        } else {
                            assert(pair_keys(out@)[a + 1] == k);
                        }
                    }
                    if pair_keys(out@).contains(k) {
                        let a = choose|a: int| 0 <= a < pair_keys(out@).len() && pair_keys(out@)[a] == k;
                        if a < pos {
                            assert(pair_keys(old)[a] == k);
                        } else if a > pos {
                            assert(pair_keys(old)[a - 1] == k);
                        }
                    }
                    if k == x@ {
                        assert(pair_keys(out@)[pos as int] == k);
                    }
                }
                assert forall|k: Seq<char>| #[trigger] pair_map(out@).contains_key(k) implies pair_map(
                    out@,
                )[k] == pair_map(old).insert(x@, v@[i as int].1@)[k] by {
                    assert(pair_keys(out@).contains(k));
                    let a = choose|a: int| 0 <= a < pair_keys(out@).len() && pair_keys(out@)[a] == k;
                    assert(pair_keys(out@)[a] == out@[a].0@);
                    assert(out@[a].0@ == k);
                    if a < pos {
                        assert(out@[a] == old[a]);
                        assert(seq_lt(k, x@));
                        lemma_seq_lt_irreflexive(k);
                    } else if a > pos {
                        assert(out@[a] == old[a - 1]);
                        assert(seq_lt(x@, k)) by {
                            if a - 1 > pos {
                                assert(seq_lt(pair_keys(old)[pos as int], pair_keys(old)[a - 1]));
                                lemma_seq_lt_transitive(x@, pair_keys(old)[pos as int], k);
                            }
                        }
                        lemma_seq_lt_irreflexive(k);
                    }
                }
                assert(pair_map(out@) =~= pair_map(old).insert(x@, v@[i as int].1@));
            }
        }
        i += 1;
    }
    proof {
        assert(v@.take(i as int) == v@);
    }
    out
}

fn clone_strings(v: &Vec<String>) -> (r: Vec<String>)
    ensures
        r@ == v@,
{
    let mut out: Vec<String> = Vec::new();
    let mut i: usize = 0;
    while i < v.len()
        invariant
            i <= v@.len(),
            out@ == v@.take(i as int),
        decreases v@.len() - i,
    {
        out.push(v[i].clone());
        proof {
            assert(v@.take(i + 1) == v@.take(i as int).push(v@[i as int]));
        }
        i += 1;
    }
    proof {
        assert(v@.take(i as int) == v@);
    }
    out
}

fn clone_pairs(v: &Vec<(String, String)>) -> (r: Vec<(String, String)>)
    ensures
        r@ == v@,
{
    let mut out: Vec<(String, String)> = Vec::new();
    let mut i: usize = 0;
    while i < v.len()
        invariant
            i <= v@.len(),
            out@ == v@.take(i as int),
        decreases v@.len() - i,
    {
        out.push((v[i].0.clone(), v[i].1.clone()));
        proof {
            assert(v@.take(i + 1) == v@.take(i as int).push(v@[i as int]));
        }
        i += 1;
    }
    proof {
        assert(v@.take(i as int) == v@);
    }
    out
}

fn clone_opt(o: &Option<String>) -> (r: Option<String>)
    ensures
        r == *o,
{
    match o {
        Some(s) => Some(s.clone()),
        None => None,
    }
}

impl Clone for BaselineEnvelope {
    fn clone(&self) -> (r: Self)
        ensures
            r.schema_version == self.schema_version,
            r.state_identity == self.state_identity,
            r.route == self.route,
            r.viewport == self.viewport,
            r.evidence_hashes@ == self.evidence_hashes@,
            r.design_baseline_hash == self.design_baseline_hash,
            r.created_revision == self.created_revision,
            r.provenance@ == self.provenance@,
    {
        BaselineEnvelope {
            schema_version: self.schema_version,
            state_identity: self.state_identity.clone(),
            route: self.route.clone(),
            viewport: self.viewport,
            evidence_hashes: clone_strings(&self.evidence_hashes),
            design_baseline_hash: clone_opt(&self.design_baseline_hash),
            created_revision: clone_opt(&self.created_revision),
            provenance: clone_pairs(&self.provenance),
        }
    }
}

impl BaselineEnvelope {
    /// The envelope with its evidence hashes sorted and each kept once.
    pub fn normalized(self) -> (r: Self)
        ensures
            sorted_set_of(hashes(r.evidence_hashes@), hashes(self.evidence_hashes@)),
            r.schema_version == self.schema_version,
            r.state_identity == self.state_identity,
            r.route == self.route,
            r.viewport == self.viewport,
            r.design_baseline_hash == self.design_baseline_hash,
            r.created_revision == self.created_revision,
            r.provenance == self.provenance,
    {
        let evidence_hashes = sorted_unique(&self.evidence_hashes);
        BaselineEnvelope {
            schema_version: self.schema_version,
            state_identity: self.state_identity,
            route: self.route,
            viewport: self.viewport,
            evidence_hashes,
            design_baseline_hash: self.design_baseline_hash,
            created_revision: self.created_revision,
            provenance: self.provenance,
        }
    }
}


/// `"key":"value"` for each pair, comma-separated.
pub open spec fn pair_items(v: Seq<(String, String)>) -> Seq<char>
    decreases v.len(),
{
    if v.len() == 0 {
        Seq::empty()
    } else if v.len() == 1 {
        quoted(v[0].0@) + seq![':'] + quoted(v[0].1@)
    } else {
        pair_items(v.drop_last()) + seq![','] + quoted(v.last().0@) + seq![':'] + quoted(v.last().1@)
    }
}

/// A list of pairs as a JSON object, in the order of the list.
pub open spec fn pairs_object(v: Seq<(String, String)>) -> Seq<char> {
    seq!['{'] + pair_items(v) + seq!['}']
}

/// Appends a list of pairs as a JSON object.
fn push_pairs_object(out: &mut String, v: &Vec<(String, String)>)
    ensures
        final(out)@ == old(out)@ + pairs_object(v@),
{
    let ghost start = out@;
    push_char(out, '{');
    let mut i: usize = 0;
    while i < v.len()
        invariant
            i <= v@.len(),
            out@ == start + seq!['{'] + pair_items(v@.take(i as int)),
        decreases v@.len() - i,
    {
        if i > 0 {
            push_char(out, ',');
        }
        push_quoted(out, v[i].0.as_str());
        push_char(out, ':');
        push_quoted(out, v[i].1.as_str());
        proof {
            let t = v@.take(i + 1);
            assert(t.drop_last() == v@.take(i as int));
            assert(t.last() == v@[i as int]);
            if i == 0 {
                assert(pair_items(v@.take(0)) == Seq::<char>::empty());
                assert(t[0] == v@[0]);
            }
        }
        i += 1;
    }
    proof {
        assert(v@.take(i as int) == v@);
    }
    push_char(out, '}');
}

/// The design baseline's hash, as a list of at most one hash.
pub open spec fn design_list(o: Option<String>) -> Seq<Seq<char>> {
    match o {
        Some(s) => seq![s@],
        None => Seq::empty(),
    }
}

/// The canonical JSON text of an envelope whose evidence hashes are `evidence`
/// and whose provenance is `provenance`: its fields in the order of their names.
pub open spec fn envelope_json(
    e: BaselineEnvelope,
    evidence: Seq<Seq<char>>,
    provenance: Seq<(String, String)>,
) -> Seq<char> {
    "{\"created_revision\":"@ + optional_string(text_of(e.created_revision))
        + ",\"design_baseline_hash\":"@ + optional_string(text_of(e.design_baseline_hash))
        + ",\"evidence_hashes\":"@ + string_array(evidence) + ",\"provenance\":"@ + pairs_object(
        provenance,
    ) + ",\"route\":"@ + quoted(e.route@) + ",\"schema_version\":"@ + decimal(
        e.schema_version as nat,
    ) + ",\"state_identity\":"@ + quoted(e.state_identity@) + ",\"viewport\":["@ + decimal(
        e.viewport.0 as nat,
    ) + seq![','] + decimal(e.viewport.1 as nat) + "]}"@
}

/// `o` is the runtime object of envelope `e`: a baseline object with the
/// envelope's schema version, depending on its evidence and design baseline
/// hashes (sorted, each once), whose payload is the normalised envelope (evidence
/// hashes sorted and each once, provenance in the order of its keys).
pub open spec fn baseline_object(e: BaselineEnvelope, o: RuntimeObject) -> bool {
    &&& o.kind == RuntimeObjectKind::Baseline
    &&& o.schema_version == e.schema_version
    &&& sorted_set_of(deps_of(o), hashes(e.evidence_hashes@) + design_list(e.design_baseline_hash))
    &&& exists|ev: Seq<Seq<char>>, pv: Seq<(String, String)>|
        #![trigger envelope_json(e, ev, pv)]
        sorted_set_of(ev, hashes(e.evidence_hashes@)) && strictly_sorted(pair_keys(pv)) && pair_map(pv)
            == pair_map(e.provenance@) && o.payload@ == envelope_json(e, ev, pv)
}

impl BaselineEnvelope {
    /// The envelope as a runtime object.
    #[verifier::spinoff_prover]
    pub fn object(&self) -> (r: RuntimeObject)
        ensures
            baseline_object(*self, r),
    {
        let evidence = sorted_unique(&self.evidence_hashes);
        let mut all = clone_strings(&evidence);
        match &self.design_baseline_hash {
            Some(design) => all.push(design.clone()),
            None => {},
        }
        let dependencies = sorted_unique(&all);
        let provenance = sorted_pairs(&self.provenance);
        let mut payload = String::new();
        append(&mut payload, "{\"created_revision\":");
        push_optional_string(&mut payload, &self.created_revision);
        append(&mut payload, ",\"design_baseline_hash\":");
        push_optional_string(&mut payload, &self.design_baseline_hash);
        append(&mut payload, ",\"evidence_hashes\":");
        push_string_array(&mut payload, &evidence);
        append(&mut payload, ",\"provenance\":");
        push_pairs_object(&mut payload, &provenance);
        append(&mut payload, ",\"route\":");
        push_quoted(&mut payload, self.route.as_str());
        append(&mut payload, ",\"schema_version\":");
        push_decimal(&mut payload, self.schema_version as u64);
        append(&mut payload, ",\"state_identity\":");
        push_quoted(&mut payload, self.state_identity.as_str());
        append(&mut payload, ",\"viewport\":[");
        push_decimal(&mut payload, self.viewport.0 as u64);
        push_char(&mut payload, ',');
        push_decimal(&mut payload, self.viewport.1 as u64);
        append(&mut payload, "]}");
        let ghost wanted = hashes(self.evidence_hashes@) + design_list(self.design_baseline_hash);
        proof {
            let h = hashes(all@);
            assert forall|x: Seq<char>| h.contains(x) <==> wanted.contains(x) by {
                let ev = hashes(evidence@);
                let n = ev.len();
                if h.contains(x) {
                    let k = choose|k: int| 0 <= k < h.len() && h[k] == x;
                    if k < n {
                        assert(ev[k] == x);
                        assert(ev.contains(x));
                        let j = choose|j: int| 0 <= j < hashes(self.evidence_hashes@).len() && hashes(
                            self.evidence_hashes@,
                        )[j] == x;
                        assert(wanted[j] == x);
                    } else {
                        assert(wanted[hashes(self.evidence_hashes@).len() as int] == x);
                    }
                }
                if wanted.contains(x) {
                    let k = choose|k: int| 0 <= k < wanted.len() && wanted[k] == x;
                    if k < hashes(self.evidence_hashes@).len() {
                        assert(hashes(self.evidence_hashes@)[k] == x);
                        assert(ev.contains(x));
                        let j = choose|j: int| 0 <= j < ev.len() && ev[j] == x;
                        assert(h[j] == x);
                    } else {
                        assert(h[n as int] == x);
                    }
                }
            }
            assert(envelope_json(*self, hashes(evidence@), provenance@) == payload@);
        }
        RuntimeObject {
            kind: RuntimeObjectKind::Baseline,
            schema_version: self.schema_version,
            payload,
            dependencies,
        }
    }

    /// The content address of the envelope's runtime object.
    pub fn canonical_hash(&self) -> (r: String)
        ensures
            exists|o: RuntimeObject| baseline_object(*self, o) && r@ == object_hash_text(o),
            crate::digest::is_sha256_hash_text(r@),
    {
        let o = self.object();
        o.hash()
    }
}

/// Two pair lists with increasing keys that stand for the same map are the same
/// list of keys and values.
proof fn lemma_sorted_pairs_unique(a: Seq<(String, String)>, b: Seq<(String, String)>)
    requires
        strictly_sorted(pair_keys(a)),
        strictly_sorted(pair_keys(b)),
        pair_map(a) == pair_map(b),
    ensures
        pairs_object(a) == pairs_object(b),
{
    lemma_pair_map_sorted(a);
    lemma_pair_map_sorted(b);
    lemma_sorted_set_unique(pair_keys(a), pair_keys(b));
    assert forall|i: int| 0 <= i < a.len() implies (#[trigger] a[i]).0@ == b[i].0@ && a[i].1@ == b[i].1@ by {
        assert(pair_keys(a)[i] == a[i].0@);
        assert(pair_keys(b)[i] == b[i].0@);
    }
    lemma_pair_items_views(a, b);
}

proof fn lemma_pair_items_views(a: Seq<(String, String)>, b: Seq<(String, String)>)
    requires
        a.len() == b.len(),
        forall|i: int| 0 <= i < a.len() ==> (#[trigger] a[i]).0@ == b[i].0@ && a[i].1@ == b[i].1@,
    ensures
        pair_items(a) == pair_items(b),
    decreases a.len(),
{
    if a.len() > 1 {
        assert forall|i: int| 0 <= i < a.drop_last().len() implies (#[trigger] a.drop_last()[i]).0@
            == b.drop_last()[i].0@ && a.drop_last()[i].1@ == b.drop_last()[i].1@ by {
            assert(a.drop_last()[i] == a[i] && b.drop_last()[i] == b[i]);
        }
        lemma_pair_items_views(a.drop_last(), b.drop_last());
    }
    if a.len() == 1 {
        assert(a[0].0@ == b[0].0@);
    }
}

/// The canonical hash of an envelope is reproducible: it depends on the set of its
/// evidence hashes, not their order or repetition, and on its provenance as a map,
/// not the order of its entries.
#[verifier::spinoff_prover]
pub proof fn lemma_baseline_hash_is_reproducible(
    a: BaselineEnvelope,
    b: BaselineEnvelope,
    oa: RuntimeObject,
    ob: RuntimeObject,
)
    requires
        baseline_object(a, oa),
        baseline_object(b, ob),
        a.schema_version == b.schema_version,
        a.state_identity@ == b.state_identity@,
        a.route@ == b.route@,
        a.viewport == b.viewport,
        text_of(a.design_baseline_hash) == text_of(b.design_baseline_hash),
        text_of(a.created_revision) == text_of(b.created_revision),
        forall|x: Seq<char>| hashes(a.evidence_hashes@).contains(x) <==> hashes(b.evidence_hashes@).contains(x),
        pair_map(a.provenance@) == pair_map(b.provenance@),
    ensures
        object_hash_text(oa) == object_hash_text(ob),
{
    let (eva, pva) = choose|ev: Seq<Seq<char>>, pv: Seq<(String, String)>|
        #![trigger envelope_json(a, ev, pv)]
        sorted_set_of(ev, hashes(a.evidence_hashes@)) && strictly_sorted(pair_keys(pv)) && pair_map(pv)
            == pair_map(a.provenance@) && oa.payload@ == envelope_json(a, ev, pv);
    let (evb, pvb) = choose|ev: Seq<Seq<char>>, pv: Seq<(String, String)>|
        #![trigger envelope_json(b, ev, pv)]
        sorted_set_of(ev, hashes(b.evidence_hashes@)) && strictly_sorted(pair_keys(pv)) && pair_map(pv)
            == pair_map(b.provenance@) && ob.payload@ == envelope_json(b, ev, pv);
    lemma_sorted_set_unique(eva, evb);
    lemma_sorted_pairs_unique(pva, pvb);
    assert(design_list(a.design_baseline_hash) == design_list(b.design_baseline_hash));
    assert forall|x: Seq<char>| deps_of(oa).contains(x) <==> deps_of(ob).contains(x) by {
        let wa = hashes(a.evidence_hashes@) + design_list(a.design_baseline_hash);
        let wb = hashes(b.evidence_hashes@) + design_list(b.design_baseline_hash);
        let na = hashes(a.evidence_hashes@).len();
        let nb = hashes(b.evidence_hashes@).len();
        if wa.contains(x) {
            let k = choose|k: int| 0 <= k < wa.len() && wa[k] == x;
            if k < na {
                assert(hashes(a.evidence_hashes@)[k] == x);
                assert(hashes(b.evidence_hashes@).contains(x));
                let j = choose|j: int| 0 <= j < nb && hashes(b.evidence_hashes@)[j] == x;
                assert(wb[j] == x);
            } else {
                assert(wb[nb + (k - na)] == x);
            }
        }
        if wb.contains(x) {
            let k = choose|k: int| 0 <= k < wb.len() && wb[k] == x;
            if k < nb {
                assert(hashes(b.evidence_hashes@)[k] == x);
                assert(hashes(a.evidence_hashes@).contains(x));
                let j = choose|j: int| 0 <= j < na && hashes(a.evidence_hashes@)[j] == x;
                assert(wa[j] == x);
            } else {
                assert(wa[na + (k - nb)] == x);
            }
        }
    }
    lemma_sorted_set_unique(deps_of(oa), deps_of(ob));
    assert(quoted(a.route@) == quoted(b.route@));
    assert(quoted(a.state_identity@) == quoted(b.state_identity@));
    assert(oa.payload@ == ob.payload@);
    assert(object_json(oa) == object_json(ob));
}

/// A sorted set is determined by its members: two strictly increasing lists with
/// the same members are the same list.
pub proof fn lemma_sorted_set_unique(a: Seq<Seq<char>>, b: Seq<Seq<char>>)
    requires
        strictly_sorted(a),
        strictly_sorted(b),
        forall|x: Seq<char>| a.contains(x) <==> b.contains(x),
    ensures
        a == b,
    decreases a.len() + b.len(),
{
    if a.len() == 0 || b.len() == 0 {
        if a.len() > 0 {
            assert(a.contains(a[0]));
        }
        if b.len() > 0 {
            assert(b.contains(b[0]));
        }
        assert(a =~= b);
    } else {
        assert(a.contains(a[0]));
        assert(b.contains(b[0]));
        let ia = choose|k: int| 0 <= k < b.len() && b[k] == a[0];
        let ib = choose|k: int| 0 <= k < a.len() && a[k] == b[0];
        lemma_seq_lt_irreflexive(a[0]);
        lemma_seq_lt_irreflexive(b[0]);
        if ia > 0 {
            assert(seq_lt(b[0], b[ia]));
            if ib > 0 {
                assert(seq_lt(a[0], a[ib]));
                lemma_seq_lt_transitive(a[0], b[0], a[0]);
            }
        }
        assert(a[0] == b[0]) by {
            if ia > 0 && ib == 0 {
                assert(seq_lt(b[0], a[0]));
            }
            if ia == 0 {
            }
        }
        let a2 = a.drop_first();
        let b2 = b.drop_first();
        assert forall|x: Seq<char>| a2.contains(x) <==> b2.contains(x) by {
            if a2.contains(x) {
                let k = choose|k: int| 0 <= k < a2.len() && a2[k] == x;
                assert(seq_lt(a[0], a[k + 1]));
                assert(b.contains(x));
                let m = choose|m: int| 0 <= m < b.len() && b[m] == x;
                if m == 0 {
                    lemma_seq_lt_irreflexive(x);
                }
                assert(b2[m - 1] == x);
            }
            if b2.contains(x) {
                let k = choose|k: int| 0 <= k < b2.len() && b2[k] == x;
                assert(seq_lt(b[0], b[k + 1]));
                assert(a.contains(x));
                let m = choose|m: int| 0 <= m < a.len() && a[m] == x;
                if m == 0 {
                    lemma_seq_lt_irreflexive(x);
                }
                assert(a2[m - 1] == x);
            }
        }
        assert forall|p: int, q: int| 0 <= p < q < a2.len() implies seq_lt(#[trigger] a2[p], #[trigger] a2[q]) by {
            assert(seq_lt(a[p + 1], a[q + 1]));
        }
        assert forall|p: int, q: int| 0 <= p < q < b2.len() implies seq_lt(#[trigger] b2[p], #[trigger] b2[q]) by {
            assert(seq_lt(b[p + 1], b[q + 1]));
        }
        lemma_sorted_set_unique(a2, b2);
        assert(a =~= b) by {
            assert forall|k: int| 0 <= k < a.len() implies a[k] == b[k] by {
                if k > 0 {
                    assert(a[k] == a2[k - 1]);
                    assert(b[k] == b2[k - 1]);
                }
            }
        }
    }
}

/// Normalising a baseline twice gives what normalising once gives: the sorted set
/// of a sorted set is itself.
pub proof fn lemma_normalized_idempotent(once: Seq<Seq<char>>, twice: Seq<Seq<char>>, original: Seq<Seq<char>>)
    requires
        sorted_set_of(once, original),
        sorted_set_of(twice, once),
    ensures
        twice == once,
{
    lemma_sorted_set_unique(twice, once);
}

/// The difference of two hash sets partitions them: what was before is unchanged
/// or removed, what is after is unchanged or added, and nothing is both added and
/// removed or both unchanged and changed.
pub proof fn lemma_diff_partitions(
    before: Seq<Seq<char>>,
    after: Seq<Seq<char>>,
    unchanged: Seq<Seq<char>>,
    added: Seq<Seq<char>>,
    removed: Seq<Seq<char>>,
)
    requires
        forall|y: Seq<char>| unchanged.contains(y) <==> (before.contains(y) && after.contains(y)),
        forall|y: Seq<char>| added.contains(y) <==> (after.contains(y) && !before.contains(y)),
        forall|y: Seq<char>| removed.contains(y) <==> (before.contains(y) && !after.contains(y)),
    ensures
        forall|y: Seq<char>| before.contains(y) <==> (unchanged.contains(y) || removed.contains(y)),
        forall|y: Seq<char>| after.contains(y) <==> (unchanged.contains(y) || added.contains(y)),
        forall|y: Seq<char>| !(added.contains(y) && removed.contains(y)),
        forall|y: Seq<char>| !(unchanged.contains(y) && (added.contains(y) || removed.contains(y))),
{
}

} // verus!
