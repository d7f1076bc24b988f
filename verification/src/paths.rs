//! Unix path arithmetic on text: the pieces of a path, their joining and prefixes.
//!
//! A path is read as `Path::components` reads it on Unix: an optional root, then the
//! pieces between slashes, without empty pieces and without `.` pieces.
use vstd::prelude::*;
use crate::text::{chars_of, segments, split, starts_with, string_of};

verus! {

pub open spec fn is_dot(p: Seq<char>) -> bool {
    p == seq!['.']
}

pub open spec fn is_dotdot(p: Seq<char>) -> bool {
    p == seq!['.', '.']
}

/// Keeps the pieces that are neither empty nor `.`.
pub open spec fn keep_pieces(segs: Seq<Seq<char>>) -> Seq<Seq<char>>
    decreases segs.len(),
{
    if segs.len() == 0 {
        Seq::empty()
    } else {
        let init = keep_pieces(segs.drop_last());
        if segs.last().len() == 0 || is_dot(segs.last()) {
            init
        } else {
            init.push(segs.last())
        }
    }
}

/// The named pieces of a path.
pub open spec fn pieces(s: Seq<char>) -> Seq<Seq<char>> {
    keep_pieces(split(s, '/'))
}

pub open spec fn is_absolute(s: Seq<char>) -> bool {
    starts_with(s, seq!['/'])
}

/// Pieces joined by `/`.
pub open spec fn join(ps: Seq<Seq<char>>) -> Seq<char>
    decreases ps.len(),
{
    if ps.len() == 0 {
        Seq::empty()
    } else if ps.len() == 1 {
        ps[0]
    } else {
        join(ps.drop_last()) + seq!['/'] + ps.last()
    }
}

/// Whether `prefix` is a leading run of `s`.
pub open spec fn is_prefix_of<A>(prefix: Seq<A>, s: Seq<A>) -> bool {
    prefix.len() <= s.len() && s.take(prefix.len() as int) == prefix
}

/// `Path::starts_with`: same rootedness and the pieces of `root` lead those of `path`.
pub open spec fn path_starts_with(path: Seq<char>, root: Seq<char>) -> bool {
    is_absolute(path) == is_absolute(root) && is_prefix_of(pieces(root), pieces(path))
}

/// `Path::strip_prefix`: the pieces of `path` after those of `root`.
pub open spec fn path_strip_prefix(path: Seq<char>, root: Seq<char>) -> Option<Seq<Seq<char>>> {
    if path_starts_with(path, root) {
        Some(pieces(path).skip(pieces(root).len() as int))
    } else {
        None
    }
}

/// The named pieces of a path, each as a run of its characters.
pub fn path_pieces(v: &[char]) -> (r: Vec<(usize, usize)>)
    ensures
        r@.len() == pieces(v@).len(),
        forall|i: int| 0 <= i < r@.len() ==> (#[trigger] r@[i]).0 <= r@[i].1 <= v@.len(),
        forall|i: int|
            0 <= i < r@.len() ==> (v@.subrange(r@[i].0 as int, r@[i].1 as int) == #[trigger] pieces(
                v@,
            )[i]),
{
    let segs = segments(v, '/');
    let ghost all = split(v@, '/');
    let mut out: Vec<(usize, usize)> = Vec::new();
    let mut i: usize = 0;
    proof {
        assert(all.take(0) =~= Seq::<Seq<char>>::empty());
    }
    while i < segs.len()
        invariant
            i <= segs@.len(),
            all == split(v@, '/'),
            segs@.len() == all.len(),
            forall|k: int| 0 <= k < segs@.len() ==> (#[trigger] segs@[k]).0 <= segs@[k].1 <= v@.len(),
            forall|k: int|
                0 <= k < segs@.len() ==> (v@.subrange(segs@[k].0 as int, segs@[k].1 as int)
                    == #[trigger] all[k]),
            out@.len() == keep_pieces(all.take(i as int)).len(),
            forall|k: int| 0 <= k < out@.len() ==> (#[trigger] out@[k]).0 <= out@[k].1 <= v@.len(),
            forall|k: int|
                0 <= k < out@.len() ==> (v@.subrange(out@[k].0 as int, out@[k].1 as int)
                    == #[trigger] keep_pieces(all.take(i as int))[k]),
        decreases segs@.len() - i,
    {
        let (a, b) = segs[i];
        let ghost prev = keep_pieces(all.take(i as int));
        let ghost old_out = out@;
        proof {
            assert(all.take(i + 1).drop_last() == all.take(i as int));
            assert(all.take(i + 1).last() == all[i as int]);
            assert(v@.subrange(a as int, b as int) == all[i as int]);
        }
        let dot = b - a == 1 && v[a] == '.';
        proof {
            if dot {
                assert(all[i as int] =~= seq!['.']);
            } else if b - a == 1 {
                assert(all[i as int][0] == v@[a as int]);
            }
        }
        if b > a && !dot {
            out.push((a, b));
        }
        i += 1;
        proof {
            let cur = keep_pieces(all.take(i as int));
            assert forall|k: int| 0 <= k < out@.len() implies (v@.subrange(
                out@[k].0 as int,
                out@[k].1 as int,
            ) == #[trigger] keep_pieces(all.take(i as int))[k]) by {
                if k < old_out.len() {
                    assert(out@[k] == old_out[k]);
                    assert(cur[k] == prev[k]);
                }
            }
            assert forall|k: int| 0 <= k < out@.len() implies (#[trigger] out@[k]).0 <= out@[k].1
                <= v@.len() by {
                if k < old_out.len() {
                    assert(out@[k] == old_out[k]);
                }
            }
        }
    }
    proof {
        assert(all.take(i as int) == all);
    }
    out
}

/// `Path::starts_with` on Unix paths.
pub fn starts_with_path(path: &[char], root: &[char]) -> (r: bool)
    ensures
        r == path_starts_with(path@, root@),
{
    let pa = path.len() > 0 && path[0] == '/';
    let ra = root.len() > 0 && root[0] == '/';
    proof {
        assert(pa == is_absolute(path@)) by {
            if path@.len() > 0 {
                assert(path@.take(1)[0] == path@[0]);
                if path@[0] == '/' {
                    assert(path@.take(1) =~= seq!['/']);
                }
            }
        }
        assert(ra == is_absolute(root@)) by {
            if root@.len() > 0 {
                assert(root@.take(1)[0] == root@[0]);
                if root@[0] == '/' {
                    assert(root@.take(1) =~= seq!['/']);
                }
            }
        }
    }
    if pa != ra {
        return false;
    }
    let pp = path_pieces(path);
    let rp = path_pieces(root);
    if rp.len() > pp.len() {
        return false;
    }
    let mut i: usize = 0;
    while i < rp.len()
        invariant
            i <= rp@.len() <= pp@.len(),
            pp@.len() == pieces(path@).len(),
            rp@.len() == pieces(root@).len(),
            forall|k: int| 0 <= k < pp@.len() ==> (#[trigger] pp@[k]).0 <= pp@[k].1 <= path@.len(),
            forall|k: int|
                0 <= k < pp@.len() ==> (path@.subrange(pp@[k].0 as int, pp@[k].1 as int)
                    == #[trigger] pieces(path@)[k]),
            forall|k: int| 0 <= k < rp@.len() ==> (#[trigger] rp@[k]).0 <= rp@[k].1 <= root@.len(),
            forall|k: int|
                0 <= k < rp@.len() ==> (root@.subrange(rp@[k].0 as int, rp@[k].1 as int)
                    == #[trigger] pieces(root@)[k]),
            forall|k: int| 0 <= k < i ==> pieces(path@)[k] == pieces(root@)[k],
        decreases rp@.len() - i,
    {
        let (a, b) = pp[i];
        let (c, d) = rp[i];
        if !crate::text::seq_eq(&path[a..b], &root[c..d]) {
            proof {
                assert(pieces(path@).take(pieces(root@).len() as int)[i as int] == pieces(path@)[i as int]);
            }
            return false;
        }
        i += 1;
    }
    proof {
        assert(pieces(path@).take(pieces(root@).len() as int) =~= pieces(root@));
    }
    true
}

/// The text of pieces `ps[from..]` of `v`, joined by `/`.
pub fn join_pieces(v: &[char], ps: &Vec<(usize, usize)>, from: usize, ghost_all: Ghost<Seq<Seq<char>>>) -> (r: Vec<char>)
    requires
        from <= ps@.len() == ghost_all@.len(),
        forall|k: int| 0 <= k < ps@.len() ==> (#[trigger] ps@[k]).0 <= ps@[k].1 <= v@.len(),
        forall|k: int|
            0 <= k < ps@.len() ==> (v@.subrange(ps@[k].0 as int, ps@[k].1 as int) == #[trigger] ghost_all@[k]),
    ensures
        r@ == join(ghost_all@.skip(from as int)),
{
    let mut out: Vec<char> = Vec::new();
    let mut i = from;
    proof {
        assert(ghost_all@.skip(from as int).take(0) =~= Seq::<Seq<char>>::empty());
    }
    while i < ps.len()
        invariant
            from <= i <= ps@.len() == ghost_all@.len(),
            forall|k: int| 0 <= k < ps@.len() ==> (#[trigger] ps@[k]).0 <= ps@[k].1 <= v@.len(),
            forall|k: int|
                0 <= k < ps@.len() ==> (v@.subrange(ps@[k].0 as int, ps@[k].1 as int)
                    == #[trigger] ghost_all@[k]),
            out@ == join(ghost_all@.skip(from as int).take(i - from)),
        decreases ps@.len() - i,
    {
        let (a, b) = ps[i];
        let ghost rest = ghost_all@.skip(from as int);
        proof {
            assert(rest.take(i + 1 - from).drop_last() == rest.take(i - from));
            assert(rest.take(i + 1 - from).last() == ghost_all@[i as int]);
        }
        if i > from {
            out.push('/');
        }
        let mut j = a;
        let ghost base = out@;
        while j < b
            invariant
                a <= j <= b <= v@.len(),
                out@ == base + v@.subrange(a as int, j as int),
            decreases b - j,
        {
            out.push(v[j]);
            proof {
                assert(v@.subrange(a as int, j + 1) == v@.subrange(a as int, j as int).push(v@[j as int]));
            }
            j += 1;
        }
        proof {
            if i > from {
                assert(out@ == join(rest.take(i - from)) + seq!['/'] + ghost_all@[i as int]);
            } else {
                assert(out@ =~= ghost_all@[i as int]);
                assert(rest.take(1) =~= seq![ghost_all@[i as int]]);
            }
        }
        i += 1;
    }
    proof {
        assert(ghost_all@.skip(from as int).take(ps@.len() - from) == ghost_all@.skip(from as int));
    }
    out
}

/// The relative normalized form of a project path: its named pieces joined by `/`,
/// or `None` for an absolute path, a path with `..`, or no named piece.
pub open spec fn normalized_relative(s: Seq<char>) -> Option<Seq<char>> {
    if is_absolute(s) || (exists|i: int| 0 <= i < pieces(s).len() && is_dotdot(#[trigger] pieces(s)[i]))
        || pieces(s).len() == 0 {
        None
    } else {
        Some(join(pieces(s)))
    }
}

pub fn normalize_relative(v: &[char]) -> (r: Option<Vec<char>>)
    ensures
        match r {
            Some(n) => normalized_relative(v@) == Some(n@),
            None => normalized_relative(v@) is None,
        },
{
    if v.len() > 0 && v[0] == '/' {
        proof {
            assert(v@.take(1) =~= seq!['/']);
        }
        return None;
    }
    let ps = path_pieces(v);
    if ps.len() == 0 {
        return None;
    }
    let mut i: usize = 0;
    while i < ps.len()
        invariant
            i <= ps@.len() == pieces(v@).len(),
            forall|k: int| 0 <= k < ps@.len() ==> (#[trigger] ps@[k]).0 <= ps@[k].1 <= v@.len(),
            forall|k: int|
                0 <= k < ps@.len() ==> (v@.subrange(ps@[k].0 as int, ps@[k].1 as int)
                    == #[trigger] pieces(v@)[k]),
            forall|k: int| 0 <= k < i ==> !is_dotdot(#[trigger] pieces(v@)[k]),
        decreases ps@.len() - i,
    {
        let (a, b) = ps[i];
        if b - a == 2 && v[a] == '.' && v[a + 1] == '.' {
            proof {
                assert(pieces(v@)[i as int] =~= seq!['.', '.']);
            }
            return None;
        }
        proof {
            if pieces(v@)[i as int] == seq!['.', '.'] {
                assert(v@.subrange(a as int, b as int)[0] == v@[a as int]);
                assert(v@.subrange(a as int, b as int)[1] == v@[a + 1]);
            }
        }
        i += 1;
    }
    proof {
        if v@.len() > 0 {
            assert(v@.take(1)[0] == v@[0]);
        }
        assert(!is_absolute(v@));
        assert(pieces(v@).skip(0) == pieces(v@));
    }
    Some(join_pieces(v, &ps, 0, Ghost(pieces(v@))))
}


/// `\` replaced by `/`.
pub open spec fn forward_slashes(s: Seq<char>) -> Seq<char> {
    s.map_values(|c: char| if c == '\\' { '/' } else { c })
}

pub fn to_forward_slashes(v: &[char]) -> (r: Vec<char>)
    ensures
        r@ == forward_slashes(v@),
{
    let mut out: Vec<char> = Vec::new();
    let mut i: usize = 0;
    while i < v.len()
        invariant
            i <= v@.len(),
            out@ == forward_slashes(v@.take(i as int)),
        decreases v@.len() - i,
    {
        let c = v[i];
        out.push(if c == '\\' { '/' } else { c });
        proof {
            assert(forward_slashes(v@.take(i + 1)) == forward_slashes(v@.take(i as int)).push(
                if c == '\\' { '/' } else { c },
            ));
        }
        i += 1;
    }
    proof {
        assert(v@.take(v@.len() as int) == v@);
    }
    out
}

/// The relative pieces of `path` under `root`, joined by `/` with backslashes turned to
/// slashes (`strip_prefix`, `to_str`, `replace`).
pub open spec fn relative_display(path: Seq<char>, root: Seq<char>) -> Option<Seq<char>> {
    match path_strip_prefix(path, root) {
        None => None,
        Some(rel) => Some(forward_slashes(join(rel))),
    }
}

pub fn relative_display_of(root: &[char], path: &[char]) -> (r: Option<Vec<char>>)
    ensures
        match r {
            Some(n) => relative_display(path@, root@) == Some(n@),
            None => relative_display(path@, root@) is None,
        },
{
    if !starts_with_path(path, root) {
        return None;
    }
    let pp = path_pieces(path);
    let rp = path_pieces(root);
    let joined = join_pieces(path, &pp, rp.len(), Ghost(pieces(path@)));
    Some(to_forward_slashes(joined.as_slice()))
}

/// Whether some relative piece of `path` under `root` is `..`.
pub open spec fn relative_has_parent(path: Seq<char>, root: Seq<char>) -> bool {
    let rel = pieces(path).skip(pieces(root).len() as int);
    exists|i: int| 0 <= i < rel.len() && is_dotdot(#[trigger] rel[i])
}

pub fn relative_has_parent_of(root: &[char], path: &[char]) -> (r: bool)
    requires
        path_starts_with(path@, root@),
    ensures
        r == relative_has_parent(path@, root@),
{
    let pp = path_pieces(path);
    let rp = path_pieces(root);
    let ghost rel = pieces(path@).skip(pieces(root@).len() as int);
    let mut i = rp.len();
    while i < pp.len()
        invariant
            rp@.len() <= i <= pp@.len() == pieces(path@).len(),
            rp@.len() == pieces(root@).len(),
            rel == pieces(path@).skip(pieces(root@).len() as int),
            forall|k: int| 0 <= k < pp@.len() ==> (#[trigger] pp@[k]).0 <= pp@[k].1 <= path@.len(),
            forall|k: int|
                0 <= k < pp@.len() ==> (path@.subrange(pp@[k].0 as int, pp@[k].1 as int)
                    == #[trigger] pieces(path@)[k]),
            forall|k: int| 0 <= k < i - rp@.len() ==> !is_dotdot(#[trigger] rel[k]),
        decreases pp@.len() - i,
    {
        let (a, b) = pp[i];
        proof {
            assert(rel[i - rp@.len()] == pieces(path@)[i as int]);
        }
        if b - a == 2 && path[a] == '.' && path[a + 1] == '.' {
            proof {
                assert(pieces(path@)[i as int] =~= seq!['.', '.']);
            }
            return true;
        }
        proof {
            if pieces(path@)[i as int] == seq!['.', '.'] {
                assert(path@.subrange(a as int, b as int)[0] == path@[a as int]);
                assert(path@.subrange(a as int, b as int)[1] == path@[a + 1]);
            }
        }
        i += 1;
    }
    false
}

} // verus!
