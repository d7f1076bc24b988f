//! A store of runtime objects keyed by their content address, with the
//! dependency closure of an object and garbage collection from a set of roots.
//!
//! The store is a map from hashes to objects. An object `k` reaches `x` when every
//! set of hashes that holds `k` and is closed under the dependencies of the stored
//! objects holds `x`: the dependency closure of `k` is the least such set.
use vstd::prelude::*;
use crate::content_addressed::{
    deps_of, hashes, object_hash_text, object_json, sorted_set_of, sorted_unique, strictly_sorted,
    RuntimeObject,
};
use crate::text::str_eq;

verus! {

/// The map that a list of keyed entries stands for (a later entry wins).
pub open spec fn stored(e: Seq<(String, RuntimeObject)>) -> Map<Seq<char>, RuntimeObject>
    decreases e.len(),
{
    if e.len() == 0 {
        Map::empty()
    } else {
        stored(e.drop_last()).insert(e.last().0@, e.last().1)
    }
}

/// No two entries share a key.
pub open spec fn keys_unique(e: Seq<(String, RuntimeObject)>) -> bool {
    forall|i: int, j: int| 0 <= i < j < e.len() ==> (#[trigger] e[i]).0@ != (#[trigger] e[j]).0@
}

/// `s` holds the dependencies of every stored object it holds.
pub open spec fn closed_under(m: Map<Seq<char>, RuntimeObject>, s: Set<Seq<char>>) -> bool {
    forall|k: Seq<char>, d: Seq<char>|
        #![trigger s.contains(k), deps_of(m[k]).contains(d)]
        s.contains(k) && m.contains_key(k) && deps_of(m[k]).contains(d) ==> s.contains(d)
}

/// `x` is in the dependency closure of `root`: every closed set that holds `root`
/// holds `x`.
pub open spec fn reaches(m: Map<Seq<char>, RuntimeObject>, root: Seq<char>, x: Seq<char>) -> bool {
    forall|s: Set<Seq<char>>| #![trigger closed_under(m, s)]
        s.contains(root) && closed_under(m, s) ==> s.contains(x)
}

/// The hashes that some root reaches.
pub open spec fn kept(m: Map<Seq<char>, RuntimeObject>, roots: Seq<Seq<char>>) -> Set<Seq<char>> {
    Set::new(|x: Seq<char>| exists|j: int| 0 <= j < roots.len() && reaches(m, #[trigger] roots[j], x))
}

/// The dependencies in `v` that `m` does not hold, in order.
pub open spec fn absent_from(m: Map<Seq<char>, RuntimeObject>, v: Seq<Seq<char>>) -> Seq<Seq<char>>
    decreases v.len(),
{
    if v.len() == 0 {
        Seq::empty()
    } else if m.contains_key(v.last()) {
        absent_from(m, v.drop_last())
    } else {
        absent_from(m, v.drop_last()).push(v.last())
    }
}

/// The objects `o` is normalised into before it is stored: its dependencies sorted
/// and each kept once.
pub open spec fn normalized_object(o: RuntimeObject, n: RuntimeObject) -> bool {
    &&& n.kind == o.kind
    &&& n.schema_version == o.schema_version
    &&& n.payload@ == o.payload@
    &&& sorted_set_of(deps_of(n), deps_of(o))
}

/// Storing `o` in `before` gives `after` under the address `address`: the address
/// of the normalised object, which is added unless that address is taken.
pub open spec fn inserted(
    before: Map<Seq<char>, RuntimeObject>,
    o: RuntimeObject,
    address: Seq<char>,
    after: Map<Seq<char>, RuntimeObject>,
) -> bool {
    exists|n: RuntimeObject|
        #![trigger normalized_object(o, n)]
        normalized_object(o, n) && address == object_hash_text(n) && after == (if before.contains_key(
            address,
        ) {
            before
        } else {
            before.insert(address, n)
        })
}

/// Runtime objects keyed by their content address, each stored once.
pub struct ContentStore {
    objects: Vec<(String, RuntimeObject)>,
}

impl View for ContentStore {
    type V = Map<Seq<char>, RuntimeObject>;

    closed spec fn view(&self) -> Map<Seq<char>, RuntimeObject> {
        stored(self.objects@)
    }
}

proof fn lemma_stored_key(e: Seq<(String, RuntimeObject)>, k: Seq<char>)
    ensures
        stored(e).contains_key(k) <==> exists|i: int| 0 <= i < e.len() && (#[trigger] e[i]).0@ == k,
    decreases e.len(),
{
    if e.len() > 0 {
        lemma_stored_key(e.drop_last(), k);
        if stored(e).contains_key(k) && e.last().0@ != k {
            let i = choose|i: int| 0 <= i < e.drop_last().len() && (#[trigger] e.drop_last()[i]).0@ == k;
            assert(e[i] == e.drop_last()[i]);
        }
        if exists|i: int| 0 <= i < e.len() && (#[trigger] e[i]).0@ == k {
            let i = choose|i: int| 0 <= i < e.len() && (#[trigger] e[i]).0@ == k;
            if i < e.len() - 1 {
                assert(e.drop_last()[i] == e[i]);
            }
        }
    }
}

proof fn lemma_stored_value(e: Seq<(String, RuntimeObject)>, i: int)
    requires
        keys_unique(e),
        0 <= i < e.len(),
    ensures
        stored(e).contains_key(e[i].0@),
        stored(e)[e[i].0@] == e[i].1,
    decreases e.len(),
{
    if i < e.len() - 1 {
        let d = e.drop_last();
        assert(d[i] == e[i]);
        assert(keys_unique(d)) by {
            assert forall|a: int, b: int| 0 <= a < b < d.len() implies (#[trigger] d[a]).0@ != (
            #[trigger] d[b]).0@ by {
                assert(d[a] == e[a] && d[b] == e[b]);
            }
        }
        lemma_stored_value(d, i);
        assert(e[i].0@ != e[e.len() - 1].0@);
    }
}

proof fn lemma_stored_len(e: Seq<(String, RuntimeObject)>)
    requires
        keys_unique(e),
    ensures
        stored(e).dom().finite(),
        stored(e).dom().len() == e.len(),
    decreases e.len(),
{
    if e.len() > 0 {
        let d = e.drop_last();
        assert(keys_unique(d)) by {
            assert forall|a: int, b: int| 0 <= a < b < d.len() implies (#[trigger] d[a]).0@ != (
            #[trigger] d[b]).0@ by {
                assert(d[a] == e[a] && d[b] == e[b]);
            }
        }
        lemma_stored_len(d);
        lemma_stored_key(d, e.last().0@);
        if stored(d).contains_key(e.last().0@) {
            let i = choose|i: int| 0 <= i < d.len() && (#[trigger] d[i]).0@ == e.last().0@;
            assert(e[i] == d[i]);
        }
    }
}

/// Every hash that some stored object depends on.
pub open spec fn dependency_universe(e: Seq<(String, RuntimeObject)>) -> Set<Seq<char>>
    decreases e.len(),
{
    if e.len() == 0 {
        Set::empty()
    } else {
        dependency_universe(e.drop_last()).union(deps_of(e.last().1).to_set())
    }
}

proof fn lemma_universe(e: Seq<(String, RuntimeObject)>)
    ensures
        dependency_universe(e).finite(),
        forall|i: int, d: Seq<char>|
            0 <= i < e.len() && #[trigger] deps_of(e[i].1).contains(d) ==> dependency_universe(
                e,
            ).contains(d),
    decreases e.len(),
{
    if e.len() > 0 {
        let p = e.drop_last();
        lemma_universe(p);
        vstd::seq_lib::seq_to_set_is_finite(deps_of(e.last().1));
        assert forall|i: int, d: Seq<char>|
            0 <= i < e.len() && #[trigger] deps_of(e[i].1).contains(d) implies dependency_universe(
            e,
        ).contains(d) by {
            if i < e.len() - 1 {
                assert(p[i] == e[i]);
            } else {
                assert(deps_of(e.last().1).to_set().contains(d));
            }
        }
    }
}

/// A dependency of an object in the closure of `root` is in that closure too.
proof fn lemma_reaches_step(m: Map<Seq<char>, RuntimeObject>, root: Seq<char>, x: Seq<char>, d: Seq<char>)
    requires
        reaches(m, root, x),
        m.contains_key(x),
        deps_of(m[x]).contains(d),
    ensures
        reaches(m, root, d),
{
    assert forall|s: Set<Seq<char>>| s.contains(root) && closed_under(m, s) implies s.contains(d) by {
        assert(s.contains(x));
    }
}

/// `x` stands in `q` at or after position `from`.
pub open spec fn listed_from(q: Seq<String>, from: int, x: Seq<char>) -> bool {
    exists|p: int| from <= p < q.len() && (#[trigger] q[p])@ == x
}

/// Appends copies of every string of `v`.
fn push_all(out: &mut Vec<String>, v: &Vec<String>)
    ensures
        final(out)@.len() == old(out)@.len() + v@.len(),
        forall|p: int| 0 <= p < old(out)@.len() ==> #[trigger] final(out)@[p] == old(out)@[p],
        forall|p: int| 0 <= p < v@.len() ==> (#[trigger] final(out)@[old(out)@.len() + p])@ == v@[p]@,
{
    let ghost start = out@;
    let mut k: usize = 0;
    while k < v.len()
        invariant
            k <= v@.len(),
            out@.len() == start.len() + k,
            forall|p: int| 0 <= p < start.len() ==> #[trigger] out@[p] == start[p],
            forall|p: int| 0 <= p < k ==> (#[trigger] out@[start.len() + p])@ == v@[p]@,
        decreases v@.len() - k,
    {
        out.push(v[k].clone());
        k += 1;
    }
}

/// The step that pops a hash that was visited already.
proof fn lemma_skip_visited(
    m: Map<Seq<char>, RuntimeObject>,
    visited: Seq<String>,
    queue: Seq<String>,
    old_head: int,
    root: Seq<char>,
    x: Seq<char>,
)
    requires
        0 <= old_head < queue.len(),
        queue[old_head]@ == x,
        listed_from(visited, 0, x),
        listed_from(visited, 0, root) || listed_from(queue, old_head, root),
        forall|p: int, d: Seq<char>|
            0 <= p < visited.len() && m.contains_key((#[trigger] visited[p])@)
                && #[trigger] deps_of(m[visited[p]@]).contains(d) ==> listed_from(visited, 0, d)
                || listed_from(queue, old_head, d),
    ensures
        listed_from(visited, 0, root) || listed_from(queue, old_head + 1, root),
        forall|p: int, d: Seq<char>|
            0 <= p < visited.len() && m.contains_key((#[trigger] visited[p])@)
                && #[trigger] deps_of(m[visited[p]@]).contains(d) ==> listed_from(visited, 0, d)
                || listed_from(queue, old_head + 1, d),
{
    assert forall|d: Seq<char>| listed_from(queue, old_head, d) implies listed_from(visited, 0, d)
        || listed_from(queue, old_head + 1, d) by {
        let p = choose|p: int| old_head <= p < queue.len() && (#[trigger] queue[p])@ == d;
        if p > old_head {
            assert(listed_from(queue, old_head + 1, d));
        }
    }
}

/// The step that visits a hash with no stored object: nothing joins the queue.
proof fn lemma_skip_absent(
    m: Map<Seq<char>, RuntimeObject>,
    old_visited: Seq<String>,
    visited: Seq<String>,
    queue: Seq<String>,
    old_head: int,
    root: Seq<char>,
    x: Seq<char>,
)
    requires
        0 <= old_head < queue.len(),
        queue[old_head]@ == x,
        !m.contains_key(x),
        visited.len() == old_visited.len() + 1,
        forall|p: int| 0 <= p < old_visited.len() ==> #[trigger] visited[p] == old_visited[p],
        visited[old_visited.len() as int]@ == x,
        forall|p: int| 0 <= p < queue.len() ==> reaches(m, root, (#[trigger] queue[p])@),
        forall|p: int| 0 <= p < old_visited.len() ==> reaches(m, root, (#[trigger] old_visited[p])@),
        listed_from(old_visited, 0, root) || listed_from(queue, old_head, root),
        forall|p: int, d: Seq<char>|
            0 <= p < old_visited.len() && m.contains_key((#[trigger] old_visited[p])@)
                && #[trigger] deps_of(m[old_visited[p]@]).contains(d) ==> listed_from(old_visited, 0, d)
                || listed_from(queue, old_head, d),
    ensures
        forall|p: int| 0 <= p < visited.len() ==> reaches(m, root, (#[trigger] visited[p])@),
        listed_from(visited, 0, root) || listed_from(queue, old_head + 1, root),
        forall|p: int, d: Seq<char>|
            0 <= p < visited.len() && m.contains_key((#[trigger] visited[p])@)
                && #[trigger] deps_of(m[visited[p]@]).contains(d) ==> listed_from(visited, 0, d)
                || listed_from(queue, old_head + 1, d),
{
    let n = old_visited.len() as int;
    assert forall|p: int| 0 <= p < visited.len() implies reaches(m, root, (#[trigger] visited[p])@) by {
        if p < n {
            assert(visited[p] == old_visited[p]);
        } else {
            assert(reaches(m, root, queue[old_head]@));
        }
    }
    assert forall|d: Seq<char>| listed_from(queue, old_head, d) implies listed_from(visited, 0, d)
        || listed_from(queue, old_head + 1, d) by {
        let p = choose|p: int| old_head <= p < queue.len() && (#[trigger] queue[p])@ == d;
        if p == old_head {
            assert(visited[n]@ == d);
        } else {
            assert(listed_from(queue, old_head + 1, d));
        }
    }
    assert forall|d: Seq<char>| listed_from(old_visited, 0, d) implies listed_from(visited, 0, d) by {
        let p = choose|p: int| 0 <= p < old_visited.len() && (#[trigger] old_visited[p])@ == d;
        assert(visited[p] == old_visited[p]);
    }
    assert forall|p: int, d: Seq<char>|
        0 <= p < visited.len() && m.contains_key((#[trigger] visited[p])@)
            && #[trigger] deps_of(m[visited[p]@]).contains(d) implies listed_from(visited, 0, d)
            || listed_from(queue, old_head + 1, d) by {
        if p < n {
            assert(visited[p] == old_visited[p]);
            assert(listed_from(old_visited, 0, d) || listed_from(queue, old_head, d));
        }
    }
}

/// Keeping the entries whose key is wanted, one entry more.
proof fn lemma_restrict_step(e: Seq<(String, RuntimeObject)>, i: int, wanted: Set<Seq<char>>)
    requires
        0 <= i < e.len(),
    ensures
        stored(e.take(i + 1)).restrict(wanted) == (if wanted.contains(e[i].0@) {
            stored(e.take(i)).restrict(wanted).insert(e[i].0@, e[i].1)
        } else {
            stored(e.take(i)).restrict(wanted)
        }),
{
    let t = e.take(i + 1);
    assert(t.drop_last() == e.take(i));
    assert(t.last() == e[i]);
    if wanted.contains(e[i].0@) {
        assert(stored(t).restrict(wanted) =~= stored(e.take(i)).restrict(wanted).insert(e[i].0@, e[i].1));
    } else {
        assert(stored(t).restrict(wanted) =~= stored(e.take(i)).restrict(wanted));
    }
}

/// Whether `v` holds `x`.
fn holds(v: &Vec<String>, x: &str) -> (r: bool)
    ensures
        r == listed_from(v@, 0, x@),
{
    let mut i: usize = 0;
    while i < v.len()
        invariant
            i <= v@.len(),
            forall|p: int| 0 <= p < i ==> (#[trigger] v@[p])@ != x@,
        decreases v@.len() - i,
    {
        if str_eq(v[i].as_str(), x) {
            return true;
        }
        i += 1;
    }
    false
}

impl ContentStore {
    #[verifier::type_invariant]
    spec fn keys_are_unique(&self) -> bool {
        keys_unique(self.objects@)
    }

    /// Where the entry with key `hash` stands, if there is one.
    fn position(&self, hash: &str) -> (r: Option<usize>)
        ensures
            r matches Some(i) ==> i < self.objects@.len() && self.objects@[i as int].0@ == hash@,
            r is None ==> forall|i: int|
                0 <= i < self.objects@.len() ==> (#[trigger] self.objects@[i]).0@ != hash@,
    {
        let mut i: usize = 0;
        while i < self.objects.len()
            invariant
                i <= self.objects@.len(),
                forall|j: int| 0 <= j < i ==> (#[trigger] self.objects@[j]).0@ != hash@,
            decreases self.objects@.len() - i,
        {
            if str_eq(self.objects[i].0.as_str(), hash) {
                return Some(i);
            }
            i += 1;
        }
        None
    }

    /// The object stored under `hash`.
    pub fn get(&self, hash: &str) -> (r: Option<&RuntimeObject>)
        ensures
            r is Some <==> self@.contains_key(hash@),
            r matches Some(o) ==> *o == self@[hash@],
    {
        proof {
            use_type_invariant(self);
            lemma_stored_key(self.objects@, hash@);
        }
        match self.position(hash) {
            Some(i) => {
                proof {
                    lemma_stored_value(self.objects@, i as int);
                }
                Some(&self.objects[i].1)
            },
            None => None,
        }
    }

    /// Stores an object under its content address, with its dependencies sorted and
    /// each kept once; where an object is stored under that address already, the
    /// store stays as it was. Returns the address.
    pub fn insert(&mut self, object: RuntimeObject) -> (r: String)
        ensures
            inserted(old(self)@, object, r@, final(self)@),
    {
        proof {
            use_type_invariant(&*self);
        }
        let dependencies = sorted_unique(&object.dependencies);
        let normalized = RuntimeObject {
            kind: object.kind,
            schema_version: object.schema_version,
            payload: object.payload,
            dependencies,
        };
        let hash = normalized.hash();
        let ghost n = normalized;
        let ghost before = self.objects@;
        proof {
            lemma_stored_key(before, hash@);
            assert(normalized_object(object, n));
        }
        match self.position(hash.as_str()) {
            Some(_) => {},
            None => {
                let key = hash.clone();
                let mut entries: Vec<(String, RuntimeObject)> = Vec::new();
                std::mem::swap(&mut entries, &mut self.objects);
                entries.push((key, normalized));
                proof {
                    let after = entries@;
                    assert(after.drop_last() == before);
                    assert(keys_unique(after)) by {
                        assert forall|a: int, b: int| 0 <= a < b < after.len() implies (
                        #[trigger] after[a]).0@ != (#[trigger] after[b]).0@ by {
                            if b < before.len() {
                                assert(after[a] == before[a] && after[b] == before[b]);
                            } else {
                                assert(after[a] == before[a]);
                            }
                        }
                    }
                }
                self.objects = entries;
            },
        }
        hash
    }

    /// The dependency closure of `root`, sorted and each hash listed once: `root`
    /// itself, and every hash that a stored object in the closure depends on.
    #[verifier::spinoff_prover]
    #[verifier::rlimit(40)]
    pub fn dependency_closure(&self, root: &str) -> (r: Vec<String>)
        ensures
            strictly_sorted(hashes(r@)),
            forall|x: Seq<char>| #[trigger] hashes(r@).contains(x) <==> reaches(self@, root@, x),
    {
        proof {
            use_type_invariant(self);
            lemma_universe(self.objects@);
        }
        let ghost e = self.objects@;
        let ghost m = self@;
        let ghost universe = dependency_universe(e).insert(root@);
        let mut visited: Vec<String> = Vec::new();
        let mut queue: Vec<String> = Vec::new();
        queue.push(root.to_owned());
        let mut head: usize = 0;
        proof {
            assert(queue@[0]@ == root@);
            assert(hashes(visited@) =~= Seq::<Seq<char>>::empty());
        }
        while head < queue.len()
            invariant
                head <= queue@.len(),
                e == self.objects@,
                m == self@,
                m == stored(e),
                keys_unique(e),
                universe == dependency_universe(e).insert(root@),
                universe.finite(),
                forall|i: int, d: Seq<char>|
                    0 <= i < e.len() && #[trigger] deps_of(e[i].1).contains(d) ==> universe.contains(d),
                forall|p: int| 0 <= p < queue@.len() ==> universe.contains((#[trigger] queue@[p])@),
                forall|p: int| 0 <= p < visited@.len() ==> universe.contains((#[trigger] visited@[p])@),
                hashes(visited@).no_duplicates(),
                visited@.len() <= universe.len(),
                forall|p: int| 0 <= p < queue@.len() ==> reaches(m, root@, (#[trigger] queue@[p])@),
                forall|p: int| 0 <= p < visited@.len() ==> reaches(m, root@, (#[trigger] visited@[p])@),
                listed_from(visited@, 0, root@) || listed_from(queue@, head as int, root@),
                forall|p: int, d: Seq<char>|
                    0 <= p < visited@.len() && m.contains_key((#[trigger] visited@[p])@)
                        && #[trigger] deps_of(m[visited@[p]@]).contains(d) ==> listed_from(visited@, 0, d)
                        || listed_from(queue@, head as int, d),
            decreases universe.len() - visited@.len(), queue@.len() - head,
        {
            let x = queue[head].clone();
            let ghost old_visited = visited@;
            let ghost old_queue = queue@;
            let ghost old_head = head as int;
            head += 1;
            if !holds(&visited, x.as_str()) {
                visited.push(x.clone());
                proof {
                    self.lemma_visit(old_visited, visited@, universe, x@);
                }
                match self.position(x.as_str()) {
                    Some(i) => {
                        push_all(&mut queue, &self.objects[i].1.dependencies);
                        proof {
                            self.lemma_expand(
                                old_visited,
                                visited@,
                                old_queue,
                                queue@,
                                old_head,
                                root@,
                                universe,
                                i as int,
                            );
                        }
                    },
                    None => {
                        proof {
                            lemma_stored_key(e, x@);
                            lemma_skip_absent(m, old_visited, visited@, queue@, old_head, root@, x@);
                        }
                    },
                }
            } else {
                proof {
                    lemma_skip_visited(m, visited@, queue@, old_head, root@, x@);
                }
            }
        }
        let r = sorted_unique(&visited);
        proof {
            let s = hashes(visited@).to_set();
            assert(closed_under(m, s)) by {
                assert forall|k: Seq<char>, d: Seq<char>|
                    s.contains(k) && m.contains_key(k) && deps_of(m[k]).contains(d) implies s.contains(d) by {
                    let p = choose|p: int| 0 <= p < hashes(visited@).len() && hashes(visited@)[p] == k;
                    assert(visited@[p]@ == k);
                    assert(listed_from(visited@, 0, d));
                    let q = choose|q: int| 0 <= q < visited@.len() && (#[trigger] visited@[q])@ == d;
                    assert(hashes(visited@)[q] == d);
                }
            }
            assert(listed_from(visited@, 0, root@));
            let w = choose|q: int| 0 <= q < visited@.len() && (#[trigger] visited@[q])@ == root@;
            assert(hashes(visited@)[w] == root@);
            assert(s.contains(root@));
            assert forall|x: Seq<char>| #[trigger] hashes(r@).contains(x) <==> reaches(m, root@, x) by {
                if hashes(r@).contains(x) {
                    assert(hashes(visited@).contains(x));
                    let p = choose|p: int| 0 <= p < hashes(visited@).len() && hashes(visited@)[p] == x;
                    assert(visited@[p]@ == x);
                }
                if reaches(m, root@, x) {
                    assert(s.contains(x));
                }
            }
        }
        r
    }

    /// Drops every object that no root reaches. Returns how many were dropped.
    pub fn collect_garbage(&mut self, roots: &Vec<String>) -> (r: usize)
        ensures
            final(self)@ == old(self)@.restrict(kept(old(self)@, hashes(roots@))),
            r == old(self)@.len() - final(self)@.len(),
    {
        proof {
            use_type_invariant(&*self);
        }
        let ghost m = self@;
        let ghost e = self.objects@;
        let ghost wanted = kept(m, hashes(roots@));
        let mut keep: Vec<String> = Vec::new();
        let mut j: usize = 0;
        while j < roots.len()
            invariant
                j <= roots@.len(),
                m == self@,
                forall|x: Seq<char>|
                    listed_from(keep@, 0, x) <==> exists|t: int|
                        0 <= t < j && reaches(m, (#[trigger] roots@[t])@, x),
            decreases roots@.len() - j,
        {
            let closure = self.dependency_closure(roots[j].as_str());
            let ghost before = keep@;
            push_all(&mut keep, &closure);
            proof {
                assert forall|x: Seq<char>|
                    listed_from(keep@, 0, x) <==> exists|t: int|
                        0 <= t < j + 1 && reaches(m, (#[trigger] roots@[t])@, x) by {
                    if listed_from(keep@, 0, x) {
                        let p = choose|p: int| 0 <= p < keep@.len() && (#[trigger] keep@[p])@ == x;
                        if p < before.len() {
                            assert(keep@[p] == before[p]);
                            assert(listed_from(before, 0, x));
                        } else {
                            let q = p - before.len();
                            assert(keep@[before.len() + q]@ == closure@[q]@);
                            assert(hashes(closure@)[q] == x);
                            assert(hashes(closure@).contains(x));
                            assert(reaches(m, roots@[j as int]@, x));
                        }
                    }
                    if exists|t: int| 0 <= t < j + 1 && reaches(m, (#[trigger] roots@[t])@, x) {
                        let t = choose|t: int| 0 <= t < j + 1 && reaches(m, (#[trigger] roots@[t])@, x);
                        if t < j {
                            assert(listed_from(before, 0, x));
                            let p = choose|p: int| 0 <= p < before.len() && (#[trigger] before[p])@ == x;
                            assert(keep@[p] == before[p]);
                        } else {
                            assert(hashes(closure@).contains(x));
                            let q = choose|q: int| 0 <= q < hashes(closure@).len() && hashes(closure@)[q] == x;
                            assert(keep@[before.len() + q]@ == x);
                        }
                    }
                }
            }
            j += 1;
        }
        proof {
            assert forall|x: Seq<char>| listed_from(keep@, 0, x) <==> wanted.contains(x) by {
                if listed_from(keep@, 0, x) {
                    let t = choose|t: int| 0 <= t < j && reaches(m, (#[trigger] roots@[t])@, x);
                    assert(hashes(roots@)[t] == roots@[t]@);
                }
                if wanted.contains(x) {
                    let t = choose|t: int| 0 <= t < hashes(roots@).len() && reaches(m, #[trigger] hashes(roots@)[t], x);
                    assert(hashes(roots@)[t] == roots@[t]@);
                }
            }
        }
        let mut rest: Vec<(String, RuntimeObject)> = Vec::new();
        std::mem::swap(&mut rest, &mut self.objects);
        let mut out: Vec<(String, RuntimeObject)> = Vec::new();
        let total = rest.len();
        proof {
            assert(rest@ == e.subrange(0, e.len() as int));
            assert(e.take(0) == Seq::<(String, RuntimeObject)>::empty());
            assert(stored(out@) =~= stored(e.take(0)).restrict(wanted));
        }
        while rest.len() > 0
            invariant
                total == e.len(),
                rest@.len() <= total,
                rest@ == e.subrange(total - rest@.len(), total as int),
                keys_unique(e),
                keys_unique(out@),
                out@.len() <= total - rest@.len(),
                forall|a: int|
                    0 <= a < out@.len() ==> exists|b: int|
                        0 <= b < total - rest@.len() && (#[trigger] out@[a]).0@ == (#[trigger] e[b]).0@,
                stored(out@) == stored(e.take(total - rest@.len())).restrict(wanted),
                forall|x: Seq<char>| listed_from(keep@, 0, x) <==> wanted.contains(x),
            decreases rest@.len(),
        {
            let ghost i = total - rest@.len();
            let entry = rest.remove(0);
            proof {
                assert(entry == e[i]);
                lemma_restrict_step(e, i, wanted);
            }
            if holds(&keep, entry.0.as_str()) {
                let ghost before = out@;
                out.push(entry);
                proof {
                    assert(out@.drop_last() == before);
                    assert forall|a: int| 0 <= a < before.len() implies (#[trigger] before[a]).0@ != e[i].0@ by {
                        let b = choose|b: int| 0 <= b < i && (#[trigger] before[a]).0@ == (#[trigger] e[b]).0@;
                    }
                    assert(keys_unique(out@)) by {
                        assert forall|a: int, b: int| 0 <= a < b < out@.len() implies (
                        #[trigger] out@[a]).0@ != (#[trigger] out@[b]).0@ by {
                            assert(out@[a] == before[a]);
                            if b < before.len() {
                                assert(out@[b] == before[b]);
                            }
                        }
                    }
                    assert forall|a: int| 0 <= a < out@.len() implies exists|b: int|
                        0 <= b < i + 1 && (#[trigger] out@[a]).0@ == (#[trigger] e[b]).0@ by {
                        if a < before.len() {
                            assert(out@[a] == before[a]);
                            let b = choose|b: int| 0 <= b < i && (#[trigger] before[a]).0@ == (#[trigger] e[b]).0@;
                            assert(out@[a].0@ == e[b].0@);
                        } else {
                            assert(out@[a].0@ == e[i].0@);
                        }
                    }
                }
            } else {
                proof {
                    assert forall|a: int| 0 <= a < out@.len() implies exists|b: int|
                        0 <= b < i + 1 && (#[trigger] out@[a]).0@ == (#[trigger] e[b]).0@ by {
                        let b = choose|b: int| 0 <= b < i && (#[trigger] out@[a]).0@ == (#[trigger] e[b]).0@;
                        assert(out@[a].0@ == e[b].0@);
                    }
                }
            }
            proof {
                assert(rest@ == e.subrange(total - rest@.len(), total as int));
            }
        }
        let removed = total - out.len();
        proof {
            assert(e.take(total as int) == e);
            lemma_stored_len(e);
            lemma_stored_len(out@);
        }
        self.objects = out;
        removed
    }

    /// The dependencies of the object stored under `root` that the store does not
    /// hold, in order; `root` alone where no object is stored under it.
    pub fn validate_dependencies(&self, root: &str) -> (r: Vec<String>)
        ensures
            !self@.contains_key(root@) ==> hashes(r@) == seq![root@],
            self@.contains_key(root@) ==> hashes(r@) == absent_from(self@, deps_of(self@[root@])),
    {
        proof {
            use_type_invariant(self);
            lemma_stored_key(self.objects@, root@);
        }
        let ghost m = self@;
        match self.position(root) {
            None => {
                let mut r: Vec<String> = Vec::new();
                r.push(root.to_owned());
                proof {
                    assert(hashes(r@) =~= seq![root@]);
                }
                r
            },
            Some(i) => {
                proof {
                    lemma_stored_value(self.objects@, i as int);
                }
                let deps = &self.objects[i].1.dependencies;
                let ghost ds = deps_of(self.objects@[i as int].1);
                let mut r: Vec<String> = Vec::new();
                let mut k: usize = 0;
                while k < deps.len()
                    invariant
                        k <= deps@.len(),
                        m == self@,
                        m == stored(self.objects@),
                        ds == hashes(deps@),
                        hashes(r@) == absent_from(m, ds.take(k as int)),
                    decreases deps@.len() - k,
                {
                    let ghost before = r@;
                    proof {
                        lemma_stored_key(self.objects@, deps@[k as int]@);
                        let t = ds.take(k + 1);
                        assert(t.drop_last() == ds.take(k as int));
                        assert(t.last() == deps@[k as int]@);
                    }
                    if self.position(deps[k].as_str()).is_none() {
                        r.push(deps[k].clone());
                        proof {
                            assert(hashes(r@) =~= hashes(before).push(deps@[k as int]@));
                        }
                    }
                    k += 1;
                }
                proof {
                    assert(ds.take(k as int) == ds);
                }
                r
            },
        }
    }

    proof fn lemma_visit(
        &self,
        old_visited: Seq<String>,
        visited: Seq<String>,
        universe: Set<Seq<char>>,
        x: Seq<char>,
    )
        requires
            universe.finite(),
            visited.len() == old_visited.len() + 1,
            forall|p: int| 0 <= p < old_visited.len() ==> #[trigger] visited[p] == old_visited[p],
            visited[old_visited.len() as int]@ == x,
            !listed_from(old_visited, 0, x),
            universe.contains(x),
            forall|p: int| 0 <= p < old_visited.len() ==> universe.contains((#[trigger] old_visited[p])@),
            hashes(old_visited).no_duplicates(),
        ensures
            hashes(visited).no_duplicates(),
            forall|p: int| 0 <= p < visited.len() ==> universe.contains((#[trigger] visited[p])@),
            visited.len() <= universe.len(),
    {
        let h = hashes(visited);
        assert forall|a: int, b: int| 0 <= a < h.len() && 0 <= b < h.len() && a != b implies h[a] != h[b] by {
            if a < old_visited.len() && b < old_visited.len() {
                assert(hashes(old_visited)[a] == h[a] && hashes(old_visited)[b] == h[b]);
            } else if a < old_visited.len() {
                assert(old_visited[a]@ == h[a]);
            } else {
                assert(old_visited[b]@ == h[b]);
            }
        }
        assert forall|p: int| 0 <= p < visited.len() implies universe.contains((#[trigger] visited[p])@) by {
            if p < old_visited.len() {
                assert(visited[p] == old_visited[p]);
            }
        }
        h.unique_seq_to_set();
        assert(h.to_set().subset_of(universe)) by {
            assert forall|y: Seq<char>| h.to_set().contains(y) implies universe.contains(y) by {
                let p = choose|p: int| 0 <= p < h.len() && h[p] == y;
                assert(visited[p]@ == y);
            }
        }
        vstd::set_lib::lemma_len_subset(h.to_set(), universe);
    }

    /// The step that expands a newly visited object: its dependencies join the queue.
    #[verifier::spinoff_prover]
    #[verifier::rlimit(40)]
    proof fn lemma_expand(
        &self,
        old_visited: Seq<String>,
        visited: Seq<String>,
        old_queue: Seq<String>,
        queue: Seq<String>,
        old_head: int,
        root: Seq<char>,
        universe: Set<Seq<char>>,
        i: int,
    )
        requires
            keys_unique(self.objects@),
            0 <= i < self.objects@.len(),
            0 <= old_head < old_queue.len(),
            self.objects@[i].0@ == old_queue[old_head]@,
            visited.len() == old_visited.len() + 1,
            forall|p: int| 0 <= p < old_visited.len() ==> #[trigger] visited[p] == old_visited[p],
            visited[old_visited.len() as int]@ == old_queue[old_head]@,
            queue.len() == old_queue.len() + self.objects@[i].1.dependencies@.len(),
            forall|p: int| 0 <= p < old_queue.len() ==> #[trigger] queue[p] == old_queue[p],
            forall|p: int|
                0 <= p < self.objects@[i].1.dependencies@.len() ==> (#[trigger] queue[old_queue.len() + p])@
                    == self.objects@[i].1.dependencies@[p]@,
            forall|i2: int, d: Seq<char>|
                0 <= i2 < self.objects@.len() && #[trigger] deps_of(self.objects@[i2].1).contains(d)
                    ==> universe.contains(d),
            forall|p: int| 0 <= p < old_queue.len() ==> universe.contains((#[trigger] old_queue[p])@),
            forall|p: int| 0 <= p < old_queue.len() ==> reaches(self@, root, (#[trigger] old_queue[p])@),
            forall|p: int| 0 <= p < old_visited.len() ==> reaches(self@, root, (#[trigger] old_visited[p])@),
            listed_from(old_visited, 0, root) || listed_from(old_queue, old_head, root),
            forall|p: int, d: Seq<char>|
                0 <= p < old_visited.len() && self@.contains_key((#[trigger] old_visited[p])@)
                    && #[trigger] deps_of(self@[old_visited[p]@]).contains(d) ==> listed_from(old_visited, 0, d)
                    || listed_from(old_queue, old_head, d),
        ensures
            forall|p: int| 0 <= p < queue.len() ==> universe.contains((#[trigger] queue[p])@),
            forall|p: int| 0 <= p < queue.len() ==> reaches(self@, root, (#[trigger] queue[p])@),
            forall|p: int| 0 <= p < visited.len() ==> reaches(self@, root, (#[trigger] visited[p])@),
            listed_from(visited, 0, root) || listed_from(queue, old_head + 1, root),
            forall|p: int, d: Seq<char>|
                0 <= p < visited.len() && self@.contains_key((#[trigger] visited[p])@)
                    && #[trigger] deps_of(self@[visited[p]@]).contains(d) ==> listed_from(visited, 0, d)
                    || listed_from(queue, old_head + 1, d),
    {
        let e = self.objects@;
        let m = self@;
        let x = old_queue[old_head]@;
        let deps = e[i].1.dependencies@;
        let n = old_visited.len() as int;
        lemma_stored_value(e, i);
        assert(m[x] == e[i].1);
        assert forall|q: int| 0 <= q < deps.len() implies #[trigger] deps_of(e[i].1).contains(deps[q]@) by {
            assert(deps_of(e[i].1)[q] == deps[q]@);
        }
        assert forall|p: int| 0 <= p < queue.len() implies universe.contains((#[trigger] queue[p])@) by {
            if p >= old_queue.len() {
                let q = p - old_queue.len();
                assert(queue[old_queue.len() + q]@ == deps[q]@);
                assert(deps_of(e[i].1).contains(deps[q]@));
            } else {
                assert(queue[p] == old_queue[p]);
            }
        }
        assert(reaches(m, root, x));
        assert forall|p: int| 0 <= p < queue.len() implies reaches(m, root, (#[trigger] queue[p])@) by {
            if p >= old_queue.len() {
                let q = p - old_queue.len();
                assert(queue[old_queue.len() + q]@ == deps[q]@);
                assert(deps_of(m[x]).contains(deps[q]@));
                lemma_reaches_step(m, root, x, deps[q]@);
            } else {
                assert(queue[p] == old_queue[p]);
            }
        }
        assert forall|p: int| 0 <= p < visited.len() implies reaches(m, root, (#[trigger] visited[p])@) by {
            if p < n {
                assert(visited[p] == old_visited[p]);
            }
        }
        // Whatever stood at or after the old head is now visited (the head) or still
        // waiting in the queue.
        assert forall|d: Seq<char>| listed_from(old_queue, old_head, d) implies listed_from(visited, 0, d)
            || listed_from(queue, old_head + 1, d) by {
            let p = choose|p: int| old_head <= p < old_queue.len() && (#[trigger] old_queue[p])@ == d;
            if p == old_head {
                assert(visited[n]@ == d);
            } else {
                assert(queue[p] == old_queue[p]);
            }
        }
        assert forall|d: Seq<char>| listed_from(old_visited, 0, d) implies listed_from(visited, 0, d) by {
            let p = choose|p: int| 0 <= p < old_visited.len() && (#[trigger] old_visited[p])@ == d;
            assert(visited[p] == old_visited[p]);
        }
        assert forall|p: int, d: Seq<char>|
            0 <= p < visited.len() && m.contains_key((#[trigger] visited[p])@)
                && #[trigger] deps_of(m[visited[p]@]).contains(d) implies listed_from(visited, 0, d)
                || listed_from(queue, old_head + 1, d) by {
            if p < n {
                assert(visited[p] == old_visited[p]);
                assert(listed_from(old_visited, 0, d) || listed_from(old_queue, old_head, d));
            } else {
                assert(visited[p]@ == x);
                let q = choose|q: int| 0 <= q < deps_of(e[i].1).len() && deps_of(e[i].1)[q] == d;
                assert(deps[q]@ == d);
                assert(queue[old_queue.len() + q]@ == d);
            }
        }
    }

    /// The number of stored objects.
    pub fn len(&self) -> (r: usize)
        ensures
            r == self@.len(),
    {
        proof {
            use_type_invariant(self);
            lemma_stored_len(self.objects@);
        }
        self.objects.len()
    }

    /// Whether the store holds no object.
    pub fn is_empty(&self) -> (r: bool)
        ensures
            r == (self@.len() == 0),
    {
        proof {
            use_type_invariant(self);
            lemma_stored_len(self.objects@);
        }
        self.objects.len() == 0
    }
}

impl Default for ContentStore {
    fn default() -> (r: Self)
        ensures
            r@ == Map::<Seq<char>, RuntimeObject>::empty(),
    {
        ContentStore { objects: Vec::new() }
    }
}

/// The dependency closure of a hash holds that hash.
pub proof fn lemma_closure_holds_root(m: Map<Seq<char>, RuntimeObject>, root: Seq<char>)
    ensures
        reaches(m, root, root),
{
}

/// The dependency closure is closed: the dependencies of a stored object in the
/// closure of `root` are in it too.
pub proof fn lemma_closure_is_closed(
    m: Map<Seq<char>, RuntimeObject>,
    root: Seq<char>,
    x: Seq<char>,
    d: Seq<char>,
)
    requires
        reaches(m, root, x),
        m.contains_key(x),
        deps_of(m[x]).contains(d),
    ensures
        reaches(m, root, d),
{
    lemma_reaches_step(m, root, x, d);
}

/// Storing an object a second time gives the same address and leaves the store as
/// the first time left it.
pub proof fn lemma_insert_deduplicates(
    before: Map<Seq<char>, RuntimeObject>,
    o: RuntimeObject,
    first: Seq<char>,
    middle: Map<Seq<char>, RuntimeObject>,
    second: Seq<char>,
    after: Map<Seq<char>, RuntimeObject>,
)
    requires
        inserted(before, o, first, middle),
        inserted(middle, o, second, after),
    ensures
        middle.contains_key(first),
        second == first,
        after == middle,
{
    let n1 = choose|n: RuntimeObject| #![trigger normalized_object(o, n)]
        normalized_object(o, n) && first == object_hash_text(n) && middle == (if before.contains_key(
            first,
        ) {
            before
        } else {
            before.insert(first, n)
        });
    let n2 = choose|n: RuntimeObject| #![trigger normalized_object(o, n)]
        normalized_object(o, n) && second == object_hash_text(n) && after == (if middle.contains_key(
            second,
        ) {
            middle
        } else {
            middle.insert(second, n)
        });
    crate::content_addressed::lemma_sorted_set_unique(deps_of(n1), deps_of(n2));
    assert(object_json(n1) == object_json(n2));
}

/// Garbage collection keeps every root's dependency closure as it was: in the
/// collected store each root reaches exactly what it reached before.
pub proof fn lemma_collection_keeps_closures(
    m: Map<Seq<char>, RuntimeObject>,
    roots: Seq<Seq<char>>,
    j: int,
    x: Seq<char>,
)
    requires
        0 <= j < roots.len(),
    ensures
        reaches(m.restrict(kept(m, roots)), roots[j], x) <==> reaches(m, roots[j], x),
{
    let wanted = kept(m, roots);
    let c = m.restrict(wanted);
    let r = roots[j];
    if reaches(m, r, x) {
        let closure = Set::new(|y: Seq<char>| reaches(m, r, y));
        assert forall|s: Set<Seq<char>>| s.contains(r) && closed_under(c, s) implies s.contains(x) by {
            let t = s.intersect(closure);
            assert(closed_under(m, t)) by {
                assert forall|k: Seq<char>, d: Seq<char>|
                    t.contains(k) && m.contains_key(k) && deps_of(m[k]).contains(d) implies t.contains(d) by {
                    assert(reaches(m, r, k));
                    assert(wanted.contains(k));
                    assert(c.contains_key(k) && c[k] == m[k]);
                    assert(s.contains(k));
                    assert(s.contains(d));
                    lemma_reaches_step(m, r, k, d);
                }
            }
            assert(t.contains(r));
        }
    }
    if reaches(c, r, x) {
        assert forall|s: Set<Seq<char>>| s.contains(r) && closed_under(m, s) implies s.contains(x) by {
            assert(closed_under(c, s)) by {
                assert forall|k: Seq<char>, d: Seq<char>|
                    s.contains(k) && c.contains_key(k) && deps_of(c[k]).contains(d) implies s.contains(d) by {
                    assert(m.contains_key(k) && c[k] == m[k]);
                }
            }
        }
    }
}

} // verus!
