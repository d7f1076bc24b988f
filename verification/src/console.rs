//! Grouping of browser console entries by a whitespace-insensitive fingerprint.
use vstd::prelude::*;
use crate::text::{chars_of, is_ws, push_char, seq_lt, unicode_ws, text_lt};
use crate::text::{lemma_seq_lt_irreflexive, lemma_seq_lt_total, lemma_seq_lt_transitive};

verus! {

#[derive(Debug, Clone, Copy, PartialEq, Eq, PartialOrd, Ord, Structural)]
pub enum ConsoleLevel {
    Debug,
    Info,
    Warning,
    Error,
}

#[derive(Debug, Clone)]
pub struct ConsoleEntry {
    pub level: ConsoleLevel,
    pub message: String,
    pub stack: Option<String>,
    pub source: Option<String>,
    pub action_ref: Option<String>,
}

#[derive(Debug, Clone)]
pub struct ConsoleGroup {
    pub fingerprint: String,
    pub level: ConsoleLevel,
    pub message: String,
    pub count: u32,
    pub first_source: Option<String>,
    pub related_action: Option<String>,
}

/// The whitespace-separated words of a text (`str::split_whitespace`).
pub open spec fn words(s: Seq<char>) -> Seq<Seq<char>>
    decreases s.len(),
{
    if s.len() == 0 {
        Seq::empty()
    } else {
        let init = s.drop_last();
        let w = words(init);
        if is_ws(s.last()) {
            w
        } else if init.len() > 0 && !is_ws(init.last()) {
            w.update(w.len() - 1, w.last().push(s.last()))
        } else {
            w.push(seq![s.last()])
        }
    }
}

/// Words joined by single spaces.
pub open spec fn join_words(w: Seq<Seq<char>>) -> Seq<char>
    decreases w.len(),
{
    if w.len() == 0 {
        Seq::empty()
    } else if w.len() == 1 {
        w[0]
    } else {
        join_words(w.drop_last()) + seq![' '] + w.last()
    }
}

pub open spec fn opt_text(o: Option<String>) -> Option<Seq<char>> {
    match o {
        Some(s) => Some(s@),
        None => None,
    }
}

/// The fingerprint of a message from a source: the message's words joined by single
/// spaces, a bar, and the source (empty when there is none).
pub open spec fn fingerprint_text(message: Seq<char>, source: Option<Seq<char>>) -> Seq<char> {
    join_words(words(message)) + seq!['|'] + match source {
        Some(s) => s,
        None => Seq::empty(),
    }
}

pub open spec fn entry_fingerprint(e: ConsoleEntry) -> Seq<char> {
    fingerprint_text(e.message@, opt_text(e.source))
}

/// How many entries carry the fingerprint `fp`.
pub open spec fn count_with(entries: Seq<ConsoleEntry>, fp: Seq<char>) -> nat
    decreases entries.len(),
{
    if entries.len() == 0 {
        0
    } else {
        count_with(entries.drop_last(), fp) + if entry_fingerprint(entries.last()) == fp {
            1nat
        } else {
            0nat
        }
    }
}

/// The position of the first entry that carries the fingerprint `fp`.
pub open spec fn first_with(entries: Seq<ConsoleEntry>, fp: Seq<char>) -> Option<int>
    decreases entries.len(),
{
    if entries.len() == 0 {
        None
    } else {
        match first_with(entries.drop_last(), fp) {
            Some(k) => Some(k),
            None => if entry_fingerprint(entries.last()) == fp {
                Some(entries.len() - 1)
            } else {
                None
            },
        }
    }
}

/// A group takes its level, message, source and action from the entry that opened it.
pub open spec fn opened_by(g: ConsoleGroup, e: ConsoleEntry) -> bool {
    &&& g.level == e.level
    &&& g.message@ == e.message@
    &&& opt_text(g.first_source) == opt_text(e.source)
    &&& opt_text(g.related_action) == opt_text(e.action_ref)
}

/// The groups are ordered by fingerprint, strictly.
pub open spec fn ordered_groups(groups: Seq<ConsoleGroup>) -> bool {
    forall|a: int, b: int|
        0 <= a < b < groups.len() ==> seq_lt(
            (#[trigger] groups[a]).fingerprint@,
            (#[trigger] groups[b]).fingerprint@,
        )
}

/// `groups` is the grouping of `entries`: one group per fingerprint, in fingerprint
/// order, each opened by the first entry that carries its fingerprint and counting
/// every entry that does.
pub open spec fn groups_entries(entries: Seq<ConsoleEntry>, groups: Seq<ConsoleGroup>) -> bool {
    &&& ordered_groups(groups)
    &&& forall|k: int|
        0 <= k < entries.len() ==> exists|g: int|
            0 <= g < groups.len() && (#[trigger] groups[g]).fingerprint@ == entry_fingerprint(
                #[trigger] entries[k],
            )
    &&& forall|g: int|
        0 <= g < groups.len() ==> {
            &&& first_with(entries, (#[trigger] groups[g]).fingerprint@) matches Some(k)
                && 0 <= k < entries.len() && opened_by(groups[g], entries[k])
            &&& groups[g].count == count_with(entries, groups[g].fingerprint@)
        }
}

/// The fingerprint of an entry.
fn fingerprint(message: &String, source: &Option<String>) -> (r: String)
    ensures
        r@ == fingerprint_text(message@, opt_text(*source)),
{
    let v = chars_of(message.as_str());
    let mut out = String::new();
    let mut have_word = false;
    let mut i: usize = 0;
    while i < v.len()
        invariant
            i <= v@.len(),
            out@ == join_words(words(v@.take(i as int))),
            have_word == (words(v@.take(i as int)).len() > 0),
        decreases v@.len() - i,
    {
        let c = v[i];
        let ghost pre = v@.take(i as int);
        let ghost w = words(pre);
        proof {
            assert(v@.take(i + 1).drop_last() == pre);
            assert(v@.take(i + 1).last() == c);
        }
        if unicode_ws(c) {
        } else if i > 0 && !unicode_ws(v[i - 1]) {
            proof {
                assert(pre.last() == v@[i - 1]);
                lemma_words_extend_nonempty(pre);
                lemma_join_extend(w, c);
            }
            push_char(&mut out, c);
        } else {
            if have_word {
                push_char(&mut out, ' ');
            }
            push_char(&mut out, c);
            proof {
                let w2 = w.push(seq![c]);
                assert(w2.drop_last() == w);
                if w.len() == 0 {
                    assert(out@ == seq![c]);
                } else {
                    assert(out@ == join_words(w) + seq![' '] + seq![c]);
                }
            }
            have_word = true;
        }
        i += 1;
    }
    proof {
        assert(v@.take(i as int) == v@);
    }
    push_char(&mut out, '|');
    match source {
        Some(s) => {
            let sv = chars_of(s.as_str());
            let mut j: usize = 0;
            let ghost head = out@;
            while j < sv.len()
                invariant
                    j <= sv@.len(),
                    out@ == head + sv@.take(j as int),
                decreases sv@.len() - j,
            {
                push_char(&mut out, sv[j]);
                proof {
                    assert(sv@.take(j + 1) == sv@.take(j as int).push(sv@[j as int]));
                }
                j += 1;
            }
            proof {
                assert(sv@.take(j as int) == sv@);
            }
        },
        None => {
            proof {
                assert(out@ == out@ + Seq::<char>::empty());
            }
        },
    }
    out
}

fn clone_opt(o: &Option<String>) -> (r: Option<String>)
    ensures
        opt_text(r) == opt_text(*o),
{
    match o {
        Some(s) => Some(s.clone()),
        None => None,
    }
}

/// Where the fingerprint `fp` stands among the ordered groups: the number of groups
/// before it, and whether the group there carries it.
fn find_slot(groups: &Vec<ConsoleGroup>, fp: &Vec<char>) -> (r: (usize, bool))
    requires
        ordered_groups(groups@),
    ensures
        r.0 <= groups@.len(),
        forall|j: int| 0 <= j < r.0 ==> seq_lt((#[trigger] groups@[j]).fingerprint@, fp@),
        r.1 ==> r.0 < groups@.len() && groups@[r.0 as int].fingerprint@ == fp@,
        !r.1 && r.0 < groups@.len() ==> seq_lt(fp@, groups@[r.0 as int].fingerprint@),
{
    let mut pos: usize = 0;
    while pos < groups.len()
        invariant
            pos <= groups@.len(),
            forall|j: int| 0 <= j < pos ==> seq_lt((#[trigger] groups@[j]).fingerprint@, fp@),
        decreases groups@.len() - pos,
    {
        let here = chars_of(groups[pos].fingerprint.as_str());
        if !text_lt(here.as_slice(), fp.as_slice()) {
            let same = crate::text::seq_eq(here.as_slice(), fp.as_slice());
            proof {
                lemma_seq_lt_total(here@, fp@);
            }
            return (pos, same);
        }
        pos += 1;
    }
    (pos, false)
}

/// Groups console entries by fingerprint: one group per fingerprint, in fingerprint
/// order, taking its level, message, source and action from the first entry that
/// carries the fingerprint and counting the entries that do.
#[verifier::spinoff_prover]
#[verifier::rlimit(40)]
pub fn group(entries: &[ConsoleEntry]) -> (r: Vec<ConsoleGroup>)
    requires
        entries@.len() <= u32::MAX,
    ensures
        groups_entries(entries@, r@),
{
    let mut groups: Vec<ConsoleGroup> = Vec::new();
    let mut i: usize = 0;
    proof {
        assert(entries@.take(0) == Seq::<ConsoleEntry>::empty());
    }
    while i < entries.len()
        invariant
            i <= entries@.len() <= u32::MAX,
            groups_entries(entries@.take(i as int), groups@),
            forall|g: int| 0 <= g < groups@.len() ==> (#[trigger] groups@[g]).count <= i,
        decreases entries@.len() - i,
    {
        let e = &entries[i];
        let fp = fingerprint(&e.message, &e.source);
        let fpv = chars_of(fp.as_str());
        let (pos, found) = find_slot(&groups, &fpv);
        let ghost old_groups = groups@;
        if found {
            let old = &groups[pos];
            let updated = ConsoleGroup {
                fingerprint: old.fingerprint.clone(),
                level: old.level,
                message: old.message.clone(),
                count: old.count + 1,
                first_source: clone_opt(&old.first_source),
                related_action: clone_opt(&old.related_action),
            };
            groups.set(pos, updated);
            proof {
                lemma_group_found(entries@, i as int, old_groups, groups@, pos as int);
            }
        } else {
            let fresh = ConsoleGroup {
                fingerprint: fp,
                level: e.level,
                message: e.message.clone(),
                count: 1,
                first_source: clone_opt(&e.source),
                related_action: clone_opt(&e.action_ref),
            };
            groups.insert(pos, fresh);
            proof {
                lemma_group_inserted(entries@, i as int, old_groups, groups@, pos as int);
            }
        }
        i += 1;
    }
    proof {
        assert(entries@.take(i as int) == entries@);
    }
    groups
}

proof fn lemma_take_step(entries: Seq<ConsoleEntry>, i: int)
    requires
        0 <= i < entries.len(),
    ensures
        forall|x: Seq<char>|
            #[trigger] count_with(entries.take(i + 1), x) == count_with(entries.take(i), x) + if entry_fingerprint(entries[i]) == x {
                1nat
            } else {
                0nat
            },
        forall|x: Seq<char>|
            #[trigger] first_with(entries.take(i + 1), x) == match first_with(entries.take(i), x) {
                Some(k) => Some(k),
                None => if entry_fingerprint(entries[i]) == x {
                    Some(i)
                } else {
                    None
                },
            },
{
    assert(entries.take(i + 1).drop_last() == entries.take(i));
    assert(entries.take(i + 1).last() == entries[i]);
}

proof fn lemma_first_with_names(s: Seq<ConsoleEntry>, x: Seq<char>)
    ensures
        first_with(s, x) matches Some(k) ==> 0 <= k < s.len() && entry_fingerprint(s[k]) == x,
        first_with(s, x) is None ==> count_with(s, x) == 0,
    decreases s.len(),
{
    if s.len() > 0 {
        lemma_first_with_names(s.drop_last(), x);
    }
}

#[verifier::spinoff_prover]
proof fn lemma_group_found(
    entries: Seq<ConsoleEntry>,
    i: int,
    old: Seq<ConsoleGroup>,
    new: Seq<ConsoleGroup>,
    pos: int,
)
    requires
        0 <= i < entries.len(),
        groups_entries(entries.take(i), old),
        forall|g: int| 0 <= g < old.len() ==> (#[trigger] old[g]).count <= i,
        0 <= pos < old.len(),
        old[pos].fingerprint@ == entry_fingerprint(entries[i]),
        new.len() == old.len(),
        forall|j: int| 0 <= j < old.len() && j != pos ==> #[trigger] new[j] == old[j],
        new[pos].fingerprint@ == old[pos].fingerprint@,
        new[pos].level == old[pos].level,
        new[pos].message@ == old[pos].message@,
        opt_text(new[pos].first_source) == opt_text(old[pos].first_source),
        opt_text(new[pos].related_action) == opt_text(old[pos].related_action),
        new[pos].count == old[pos].count + 1,
    ensures
        groups_entries(entries.take(i + 1), new),
        forall|g: int| 0 <= g < new.len() ==> (#[trigger] new[g]).count <= i + 1,
{
    let fp = entry_fingerprint(entries[i]);
    let pre = entries.take(i);
    let post = entries.take(i + 1);
    lemma_take_step(entries, i);
    assert forall|a: int, b: int| 0 <= a < b < new.len() implies seq_lt(
        (#[trigger] new[a]).fingerprint@,
        (#[trigger] new[b]).fingerprint@,
    ) by {
        assert(seq_lt(old[a].fingerprint@, old[b].fingerprint@));
    }
    assert forall|j: int| 0 <= j < new.len() && j != pos implies (#[trigger] new[j]).fingerprint@
        != fp by {
        if j < pos {
            assert(seq_lt(old[j].fingerprint@, old[pos].fingerprint@));
        } else {
            assert(seq_lt(old[pos].fingerprint@, old[j].fingerprint@));
        }
        lemma_seq_lt_irreflexive(fp);
    }
    assert forall|k: int| 0 <= k < post.len() implies exists|g: int|
        0 <= g < new.len() && (#[trigger] new[g]).fingerprint@ == entry_fingerprint(
            #[trigger] post[k],
        ) by {
        if k < i {
            assert(post[k] == pre[k]);
            let g = choose|g: int|
                0 <= g < old.len() && (#[trigger] old[g]).fingerprint@ == entry_fingerprint(
                    pre[k],
                );
            assert(new[g].fingerprint@ == old[g].fingerprint@);
        } else {
            assert(post[k] == entries[i]);
            assert(new[pos].fingerprint@ == fp);
        }
    }
    assert forall|g: int| 0 <= g < new.len() implies {
        &&& first_with(post, (#[trigger] new[g]).fingerprint@) matches Some(k) && 0 <= k
            < post.len() && opened_by(new[g], post[k])
        &&& new[g].count == count_with(post, new[g].fingerprint@)
    } by {
        let x = old[g].fingerprint@;
        assert(first_with(pre, x) matches Some(k) && 0 <= k < pre.len() && opened_by(old[g], pre[k]));
        let k = first_with(pre, x)->0;
        assert(post[k] == pre[k]);
    }
}

#[verifier::spinoff_prover]
proof fn lemma_inserted_order(old: Seq<ConsoleGroup>, new: Seq<ConsoleGroup>, pos: int, fp: Seq<char>)
    requires
        ordered_groups(old),
        0 <= pos <= old.len(),
        forall|j: int| 0 <= j < pos ==> seq_lt((#[trigger] old[j]).fingerprint@, fp),
        pos < old.len() ==> seq_lt(fp, old[pos].fingerprint@),
        new.len() == old.len() + 1,
        forall|j: int| 0 <= j < pos ==> #[trigger] new[j] == old[j],
        forall|j: int| pos < j < new.len() ==> #[trigger] new[j] == old[j - 1],
        new[pos].fingerprint@ == fp,
    ensures
        ordered_groups(new),
        forall|j: int| 0 <= j < old.len() ==> (#[trigger] old[j]).fingerprint@ != fp,
{
    lemma_seq_lt_irreflexive(fp);
    assert forall|j: int| pos < j < old.len() implies seq_lt(fp, (#[trigger] old[j]).fingerprint@) by {
        assert(seq_lt(old[pos].fingerprint@, old[j].fingerprint@));
        lemma_seq_lt_transitive(fp, old[pos].fingerprint@, old[j].fingerprint@);
    }
    assert forall|j: int| 0 <= j < old.len() implies (#[trigger] old[j]).fingerprint@ != fp by {
        if j < pos {
            assert(seq_lt(old[j].fingerprint@, fp));
        } else {
            assert(seq_lt(fp, old[j].fingerprint@));
        }
    }
    assert forall|a: int, b: int| 0 <= a < b < new.len() implies seq_lt(
        (#[trigger] new[a]).fingerprint@,
        (#[trigger] new[b]).fingerprint@,
    ) by {
        if b < pos {
            assert(new[a] == old[a]);
            assert(new[b] == old[b]);
            assert(seq_lt(old[a].fingerprint@, old[b].fingerprint@));
        } else if b == pos {
            assert(new[a] == old[a]);
            assert(seq_lt(old[a].fingerprint@, fp));
        } else if a < pos {
            assert(new[a] == old[a]);
            assert(new[b] == old[b - 1]);
            assert(seq_lt(fp, old[b - 1].fingerprint@));
            lemma_seq_lt_transitive(old[a].fingerprint@, fp, old[b - 1].fingerprint@);
        } else if a == pos {
            assert(new[b] == old[b - 1]);
            assert(seq_lt(fp, old[b - 1].fingerprint@));
        } else {
            assert(new[a] == old[a - 1]);
            assert(new[b] == old[b - 1]);
            assert(seq_lt(old[a - 1].fingerprint@, old[b - 1].fingerprint@));
        }
    }
}

#[verifier::spinoff_prover]
proof fn lemma_inserted_absent(pre: Seq<ConsoleEntry>, old: Seq<ConsoleGroup>, fp: Seq<char>)
    requires
        groups_entries(pre, old),
        forall|j: int| 0 <= j < old.len() ==> (#[trigger] old[j]).fingerprint@ != fp,
    ensures
        first_with(pre, fp) is None,
        count_with(pre, fp) == 0,
{
    lemma_first_with_names(pre, fp);
    if first_with(pre, fp) is Some {
        let k = first_with(pre, fp)->0;
        let g = choose|g: int|
            0 <= g < old.len() && (#[trigger] old[g]).fingerprint@ == entry_fingerprint(pre[k]);
        assert(old[g].fingerprint@ != fp);
    }
}

#[verifier::spinoff_prover]
proof fn lemma_inserted_coverage(
    entries: Seq<ConsoleEntry>,
    i: int,
    old: Seq<ConsoleGroup>,
    new: Seq<ConsoleGroup>,
    pos: int,
)
    requires
        0 <= i < entries.len(),
        groups_entries(entries.take(i), old),
        0 <= pos <= old.len(),
        new.len() == old.len() + 1,
        forall|j: int| 0 <= j < pos ==> #[trigger] new[j] == old[j],
        forall|j: int| pos < j < new.len() ==> #[trigger] new[j] == old[j - 1],
        new[pos].fingerprint@ == entry_fingerprint(entries[i]),
    ensures
        forall|k: int|
            0 <= k < entries.take(i + 1).len() ==> exists|g: int|
                0 <= g < new.len() && (#[trigger] new[g]).fingerprint@ == entry_fingerprint(
                    #[trigger] entries.take(i + 1)[k],
                ),
{
    let pre = entries.take(i);
    let post = entries.take(i + 1);
    assert forall|k: int| 0 <= k < post.len() implies exists|g: int|
        0 <= g < new.len() && (#[trigger] new[g]).fingerprint@ == entry_fingerprint(
            #[trigger] post[k],
        ) by {
        if k < i {
            assert(post[k] == pre[k]);
            let g = choose|g: int|
                0 <= g < old.len() && (#[trigger] old[g]).fingerprint@ == entry_fingerprint(
                    pre[k],
                );
            if g < pos {
                assert(new[g] == old[g]);
            } else {
                assert(new[g + 1] == old[g]);
            }
        } else {
            assert(post[k] == entries[i]);
            assert(new[pos].fingerprint@ == entry_fingerprint(post[k]));
        }
    }
}

#[verifier::spinoff_prover]
proof fn lemma_inserted_groups(
    entries: Seq<ConsoleEntry>,
    i: int,
    old: Seq<ConsoleGroup>,
    new: Seq<ConsoleGroup>,
    pos: int,
)
    requires
        0 <= i < entries.len(),
        groups_entries(entries.take(i), old),
        forall|g: int| 0 <= g < old.len() ==> (#[trigger] old[g]).count <= i,
        forall|j: int| 0 <= j < old.len() ==> (#[trigger] old[j]).fingerprint@ != entry_fingerprint(entries[i]),
        first_with(entries.take(i), entry_fingerprint(entries[i])) is None,
        count_with(entries.take(i), entry_fingerprint(entries[i])) == 0,
        0 <= pos <= old.len(),
        new.len() == old.len() + 1,
        forall|j: int| 0 <= j < pos ==> #[trigger] new[j] == old[j],
        forall|j: int| pos < j < new.len() ==> #[trigger] new[j] == old[j - 1],
        new[pos].fingerprint@ == entry_fingerprint(entries[i]),
        opened_by(new[pos], entries[i]),
        new[pos].count == 1,
    ensures
        forall|g: int|
            0 <= g < new.len() ==> {
                &&& first_with(entries.take(i + 1), (#[trigger] new[g]).fingerprint@) matches Some(k)
                    && 0 <= k < entries.take(i + 1).len() && opened_by(new[g], entries.take(i + 1)[k])
                &&& new[g].count == count_with(entries.take(i + 1), new[g].fingerprint@)
            },
        forall|g: int| 0 <= g < new.len() ==> (#[trigger] new[g]).count <= i + 1,
{
    let pre = entries.take(i);
    let post = entries.take(i + 1);
    lemma_take_step(entries, i);
    assert forall|g: int| 0 <= g < new.len() implies {
        &&& first_with(post, (#[trigger] new[g]).fingerprint@) matches Some(k) && 0 <= k
            < post.len() && opened_by(new[g], post[k])
        &&& new[g].count == count_with(post, new[g].fingerprint@)
    } by {
        if g == pos {
            assert(post[i] == entries[i]);
        } else {
            let og = if g < pos {
                g
            } else {
                g - 1
            };
            assert(new[g] == old[og]);
            let x = old[og].fingerprint@;
            assert(first_with(pre, x) matches Some(k) && 0 <= k < pre.len() && opened_by(
                old[og],
                pre[k],
            ));
            let k = first_with(pre, x)->0;
            assert(post[k] == pre[k]);
        }
    }
    assert forall|g: int| 0 <= g < new.len() implies (#[trigger] new[g]).count <= i + 1 by {
        if g < pos {
            assert(new[g] == old[g]);
        } else if g > pos {
            assert(new[g] == old[g - 1]);
        }
    }
}

#[verifier::spinoff_prover]
proof fn lemma_group_inserted(
    entries: Seq<ConsoleEntry>,
    i: int,
    old: Seq<ConsoleGroup>,
    new: Seq<ConsoleGroup>,
    pos: int,
)
    requires
        0 <= i < entries.len(),
        groups_entries(entries.take(i), old),
        forall|g: int| 0 <= g < old.len() ==> (#[trigger] old[g]).count <= i,
        0 <= pos <= old.len(),
        forall|j: int|
            0 <= j < pos ==> seq_lt((#[trigger] old[j]).fingerprint@, entry_fingerprint(entries[i])),
        pos < old.len() ==> seq_lt(entry_fingerprint(entries[i]), old[pos].fingerprint@),
        new.len() == old.len() + 1,
        forall|j: int| 0 <= j < pos ==> #[trigger] new[j] == old[j],
        forall|j: int| pos < j < new.len() ==> #[trigger] new[j] == old[j - 1],
        new[pos].fingerprint@ == entry_fingerprint(entries[i]),
        opened_by(new[pos], entries[i]),
        new[pos].count == 1,
    ensures
        groups_entries(entries.take(i + 1), new),
        forall|g: int| 0 <= g < new.len() ==> (#[trigger] new[g]).count <= i + 1,
{
    let fp = entry_fingerprint(entries[i]);
    lemma_inserted_order(old, new, pos, fp);
    lemma_inserted_absent(entries.take(i), old, fp);
    lemma_inserted_coverage(entries, i, old, new, pos);
    lemma_inserted_groups(entries, i, old, new, pos);
}

/// The counts of the groups, added up.
pub open spec fn total_count(groups: Seq<ConsoleGroup>) -> int
    decreases groups.len(),
{
    if groups.len() == 0 {
        0
    } else {
        total_count(groups.drop_last()) + groups.last().count
    }
}

/// The entries carrying each of the fingerprints, added up.
pub open spec fn counts_of(fps: Seq<Seq<char>>, entries: Seq<ConsoleEntry>) -> int
    decreases fps.len(),
{
    if fps.len() == 0 {
        0
    } else {
        counts_of(fps.drop_last(), entries) + count_with(entries, fps.last())
    }
}

/// How many of the fingerprints are `x`.
pub open spec fn occurrences(fps: Seq<Seq<char>>, x: Seq<char>) -> int
    decreases fps.len(),
{
    if fps.len() == 0 {
        0
    } else {
        occurrences(fps.drop_last(), x) + if fps.last() == x {
            1int
        } else {
            0int
        }
    }
}

proof fn lemma_counts_step(fps: Seq<Seq<char>>, entries: Seq<ConsoleEntry>)
    requires
        entries.len() > 0,
    ensures
        counts_of(fps, entries) == counts_of(fps, entries.drop_last()) + occurrences(
            fps,
            entry_fingerprint(entries.last()),
        ),
    decreases fps.len(),
{
    if fps.len() > 0 {
        lemma_counts_step(fps.drop_last(), entries);
    }
}

proof fn lemma_occurs_once(fps: Seq<Seq<char>>, x: Seq<char>)
    requires
        fps.no_duplicates(),
        fps.contains(x),
    ensures
        occurrences(fps, x) == 1,
    decreases fps.len(),
{
    let init = fps.drop_last();
    if fps.last() == x {
        lemma_occurs_never(init, x);
    } else {
        let k = choose|k: int| 0 <= k < fps.len() && fps[k] == x;
        assert(init[k] == x);
        lemma_occurs_once(init, x);
    }
}

proof fn lemma_occurs_never(fps: Seq<Seq<char>>, x: Seq<char>)
    requires
        !fps.contains(x),
    ensures
        occurrences(fps, x) == 0,
    decreases fps.len(),
{
    if fps.len() > 0 {
        assert(fps[fps.len() - 1] == fps.last());
        assert(!fps.drop_last().contains(x)) by {
            if fps.drop_last().contains(x) {
                let k = choose|k: int| 0 <= k < fps.drop_last().len() && fps.drop_last()[k] == x;
                assert(fps[k] == x);
            }
        }
        lemma_occurs_never(fps.drop_last(), x);
    }
}

proof fn lemma_counts_cover(fps: Seq<Seq<char>>, entries: Seq<ConsoleEntry>)
    requires
        fps.no_duplicates(),
        forall|k: int| 0 <= k < entries.len() ==> fps.contains(entry_fingerprint(#[trigger] entries[k])),
    ensures
        counts_of(fps, entries) == entries.len(),
    decreases entries.len(),
{
    if entries.len() == 0 {
        lemma_counts_empty(fps, entries);
    } else {
        let init = entries.drop_last();
        assert forall|k: int| 0 <= k < init.len() implies fps.contains(entry_fingerprint(#[trigger] init[k])) by {
            assert(init[k] == entries[k]);
        }
        lemma_counts_cover(fps, init);
        lemma_counts_step(fps, entries);
        assert(fps.contains(entry_fingerprint(entries[entries.len() - 1])));
        lemma_occurs_once(fps, entry_fingerprint(entries.last()));
    }
}

proof fn lemma_counts_empty(fps: Seq<Seq<char>>, entries: Seq<ConsoleEntry>)
    requires
        entries.len() == 0,
    ensures
        counts_of(fps, entries) == 0,
    decreases fps.len(),
{
    if fps.len() > 0 {
        lemma_counts_empty(fps.drop_last(), entries);
    }
}

proof fn lemma_total_is_counts(groups: Seq<ConsoleGroup>, entries: Seq<ConsoleEntry>)
    requires
        forall|g: int| 0 <= g < groups.len() ==> (#[trigger] groups[g]).count == count_with(entries, groups[g].fingerprint@),
    ensures
        total_count(groups) == counts_of(groups.map_values(|g: ConsoleGroup| g.fingerprint@), entries),
    decreases groups.len(),
{
    if groups.len() > 0 {
        let init = groups.drop_last();
        assert forall|g: int| 0 <= g < init.len() implies (#[trigger] init[g]).count == count_with(entries, init[g].fingerprint@) by {
            assert(init[g] == groups[g]);
        }
        lemma_total_is_counts(init, entries);
        assert(groups.map_values(|g: ConsoleGroup| g.fingerprint@).drop_last() == init.map_values(
            |g: ConsoleGroup| g.fingerprint@,
        ));
    }
}

/// Grouping loses and invents no entry: the group counts add up to the number of
/// entries.
pub proof fn lemma_group_counts_add_up(entries: Seq<ConsoleEntry>, groups: Seq<ConsoleGroup>)
    requires
        groups_entries(entries, groups),
    ensures
        total_count(groups) == entries.len(),
{
    let fps = groups.map_values(|g: ConsoleGroup| g.fingerprint@);
    assert(fps.no_duplicates()) by {
        assert forall|a: int, b: int| 0 <= a < fps.len() && 0 <= b < fps.len() && a != b implies fps[a] != fps[b] by {
            lemma_seq_lt_irreflexive(fps[a]);
            if a < b {
                assert(seq_lt(groups[a].fingerprint@, groups[b].fingerprint@));
            } else {
                assert(seq_lt(groups[b].fingerprint@, groups[a].fingerprint@));
            }
        }
    }
    assert forall|k: int| 0 <= k < entries.len() implies fps.contains(entry_fingerprint(#[trigger] entries[k])) by {
        let g = choose|g: int| 0 <= g < groups.len() && (#[trigger] groups[g]).fingerprint@ == entry_fingerprint(entries[k]);
        assert(fps[g] == entry_fingerprint(entries[k]));
    }
    assert forall|g: int| 0 <= g < groups.len() implies (#[trigger] groups[g]).count == count_with(entries, groups[g].fingerprint@) by {
    }
    lemma_total_is_counts(groups, entries);
    lemma_counts_cover(fps, entries);
}

proof fn lemma_words_extend_nonempty(s: Seq<char>)
    requires
        s.len() > 0,
        !is_ws(s.last()),
    ensures
        words(s).len() > 0,
    decreases s.len(),
{
    let init = s.drop_last();
    if init.len() > 0 && !is_ws(init.last()) {
        lemma_words_extend_nonempty(init);
    }
}

proof fn lemma_join_extend(w: Seq<Seq<char>>, c: char)
    requires
        w.len() > 0,
    ensures
        join_words(w.update(w.len() - 1, w.last().push(c))) == join_words(w).push(c),
{
    let w2 = w.update(w.len() - 1, w.last().push(c));
    if w.len() > 1 {
        assert(w2.drop_last() == w.drop_last());
        assert(join_words(w2) == join_words(w.drop_last()) + seq![' '] + w.last().push(c));
        assert(join_words(w.drop_last()) + seq![' '] + w.last().push(c) == (join_words(
            w.drop_last(),
        ) + seq![' '] + w.last()).push(c));
    }
}

} // verus!
