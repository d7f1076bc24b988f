//! Character-level helpers shared by the validators and parsers of the library.
//!
//! Text is modelled by its sequence of Unicode scalar values (`s@`). Byte lengths
//! are the UTF-8 encoded lengths of those scalars.
use vstd::prelude::*;

verus! {

/// `char::is_ascii_whitespace`.
pub open spec fn is_ascii_ws(c: char) -> bool {
    c == ' ' || c == '\t' || c == '\n' || c == '\x0C' || c == '\r'
}

/// `char::is_whitespace`: the Unicode `White_Space` property.
pub open spec fn is_ws(c: char) -> bool {
    let u = c as u32;
    (0x09 <= u && u <= 0x0D) || u == 0x20 || u == 0x85 || u == 0xA0 || u == 0x1680 || (0x2000
        <= u && u <= 0x200A) || u == 0x2028 || u == 0x2029 || u == 0x202F || u == 0x205F || u
        == 0x3000
}

/// `char::is_control`: the general category `Cc`.
pub open spec fn is_control(c: char) -> bool {
    let u = c as u32;
    u <= 0x1F || (0x7F <= u && u <= 0x9F)
}

pub open spec fn is_ascii_digit(c: char) -> bool {
    '0' <= c && c <= '9'
}

pub open spec fn is_ascii_alpha(c: char) -> bool {
    ('a' <= c && c <= 'z') || ('A' <= c && c <= 'Z')
}

pub open spec fn is_ascii_alnum(c: char) -> bool {
    is_ascii_digit(c) || is_ascii_alpha(c)
}

pub open spec fn is_ascii_hex(c: char) -> bool {
    is_ascii_digit(c) || ('a' <= c && c <= 'f') || ('A' <= c && c <= 'F')
}

pub open spec fn is_lower_hex(c: char) -> bool {
    is_ascii_digit(c) || ('a' <= c && c <= 'f')
}

/// `char::to_ascii_lowercase`.
pub open spec fn lower(c: char) -> char {
    if 'A' <= c && c <= 'Z' {
        ((c as u32) + 32) as char
    } else {
        c
    }
}

pub open spec fn lower_seq(s: Seq<char>) -> Seq<char> {
    s.map_values(|c: char| lower(c))
}

/// Number of bytes of the UTF-8 encoding of one scalar.
pub open spec fn utf8_width(c: char) -> nat {
    let u = c as u32;
    if u < 0x80 {
        1
    } else if u < 0x800 {
        2
    } else if u < 0x10000 {
        3
    } else {
        4
    }
}

/// Number of UTF-16 code units of one scalar.
pub open spec fn utf16_width(c: char) -> nat {
    if (c as u32) < 0x10000 {
        1
    } else {
        2
    }
}

/// Number of bytes of the UTF-8 encoding of a text.
pub open spec fn byte_len(s: Seq<char>) -> nat
    decreases s.len(),
{
    if s.len() == 0 {
        0
    } else {
        byte_len(s.drop_last()) + utf8_width(s.last())
    }
}

pub open spec fn leading_ws(s: Seq<char>) -> nat
    decreases s.len(),
{
    if s.len() > 0 && is_ws(s[0]) {
        1 + leading_ws(s.drop_first())
    } else {
        0
    }
}

pub open spec fn trailing_ws(s: Seq<char>) -> nat
    decreases s.len(),
{
    if s.len() > 0 && is_ws(s.last()) {
        1 + trailing_ws(s.drop_last())
    } else {
        0
    }
}

/// `str::trim`: the text without leading and trailing Unicode whitespace.
pub open spec fn trim(s: Seq<char>) -> Seq<char> {
    if leading_ws(s) == s.len() {
        Seq::empty()
    } else {
        s.subrange(leading_ws(s) as int, s.len() - trailing_ws(s))
    }
}

pub open spec fn all_ws(s: Seq<char>) -> bool {
    forall|i: int| 0 <= i < s.len() ==> is_ws(#[trigger] s[i])
}

pub open spec fn contains_char(s: Seq<char>, c: char) -> bool {
    exists|i: int| 0 <= i < s.len() && s[i] == c
}

pub open spec fn any_control(s: Seq<char>) -> bool {
    exists|i: int| 0 <= i < s.len() && is_control(#[trigger] s[i])
}

pub open spec fn starts_with(s: Seq<char>, p: Seq<char>) -> bool {
    p.len() <= s.len() && s.take(p.len() as int) == p
}

pub open spec fn ends_with(s: Seq<char>, p: Seq<char>) -> bool {
    p.len() <= s.len() && s.skip(s.len() - p.len()) == p
}

/// `str::split` on one separator character, built from left to right.
pub open spec fn split(s: Seq<char>, sep: char) -> Seq<Seq<char>>
    decreases s.len(),
{
    if s.len() == 0 {
        seq![Seq::empty()]
    } else {
        let init = split(s.drop_last(), sep);
        if s.last() == sep {
            init.push(Seq::empty())
        } else {
            init.update(init.len() - 1, init.last().push(s.last()))
        }
    }
}

/// Strict lexicographic order of texts (the order of `String`).
pub open spec fn seq_lt(a: Seq<char>, b: Seq<char>) -> bool
    decreases a.len(),
{
    if a.len() == 0 {
        b.len() > 0
    } else if b.len() == 0 {
        false
    } else if a[0] == b[0] {
        seq_lt(a.drop_first(), b.drop_first())
    } else {
        a[0] < b[0]
    }
}

/// No text is before itself.
pub proof fn lemma_seq_lt_irreflexive(a: Seq<char>)
    ensures
        !seq_lt(a, a),
    decreases a.len(),
{
    if a.len() > 0 {
        lemma_seq_lt_irreflexive(a.drop_first());
    }
}

/// The order of texts is transitive.
pub proof fn lemma_seq_lt_transitive(a: Seq<char>, b: Seq<char>, c: Seq<char>)
    requires
        seq_lt(a, b),
        seq_lt(b, c),
    ensures
        seq_lt(a, c),
    decreases a.len(),
{
    if a.len() > 0 && b.len() > 0 && c.len() > 0 && a[0] == b[0] && b[0] == c[0] {
        lemma_seq_lt_transitive(a.drop_first(), b.drop_first(), c.drop_first());
    }
}

/// Of two different texts, one is before the other.
pub proof fn lemma_seq_lt_total(a: Seq<char>, b: Seq<char>)
    ensures
        a == b || seq_lt(a, b) || seq_lt(b, a),
    decreases a.len(),
{
    if a.len() > 0 && b.len() > 0 {
        if a[0] == b[0] {
            lemma_seq_lt_total(a.drop_first(), b.drop_first());
            if a.drop_first() == b.drop_first() {
                assert(a == seq![a[0]] + a.drop_first());
                assert(b == seq![b[0]] + b.drop_first());
            }
        } else {

        }
    } else if a.len() == 0 && b.len() == 0 {
        assert(a == b);
    }
}

/// Whether the text `a` comes strictly before `b` (`String`'s `<`).
pub fn text_lt(a: &[char], b: &[char]) -> (r: bool)
    ensures
        r == seq_lt(a@, b@),
{
    let mut i: usize = 0;
    proof {
        assert(a@.skip(0) == a@);
        assert(b@.skip(0) == b@);
    }
    while i < a.len() && i < b.len()
        invariant
            i <= a@.len(),
            i <= b@.len(),
            seq_lt(a@, b@) == seq_lt(a@.skip(i as int), b@.skip(i as int)),
        decreases a@.len() - i,
    {
        proof {
            assert(a@.skip(i as int).drop_first() == a@.skip(i + 1));
            assert(b@.skip(i as int).drop_first() == b@.skip(i + 1));
            assert(a@.skip(i as int)[0] == a@[i as int]);
            assert(b@.skip(i as int)[0] == b@[i as int]);
        }
        if a[i] != b[i] {
            return a[i] < b[i];
        }
        i += 1;
    }
    proof {
        assert(a@.skip(i as int).len() == a@.len() - i);
        assert(b@.skip(i as int).len() == b@.len() - i);
    }
    i == a.len() && i < b.len()
}

pub proof fn lemma_split_nonempty(s: Seq<char>, sep: char)
    ensures
        split(s, sep).len() >= 1,
    decreases s.len(),
{
    if s.len() > 0 {
        lemma_split_nonempty(s.drop_last(), sep);
    }
}

/// Appends one character to a string (`String::push`).
#[verifier::external_body]
pub(crate) fn push_char(s: &mut String, c: char)
    ensures
        final(s)@ == old(s)@.push(c),
{
    s.push(c);
}

/// The characters of a string slice, in order.
pub fn chars_of(s: &str) -> (r: Vec<char>)
    ensures
        r@ == s@,
{
    let mut r: Vec<char> = Vec::new();
    for c in it: s.chars()
        invariant
            r@ == it.seq().take(it.index() as int),
    {
        r.push(c);
    }
    r
}

/// The string made of a run of characters.
pub fn string_of(v: &[char], start: usize, end: usize) -> (r: String)
    requires
        start <= end <= v@.len(),
    ensures
        r@ == v@.subrange(start as int, end as int),
{
    let mut r = String::new();
    let mut i = start;
    while i < end
        invariant
            start <= i <= end <= v@.len(),
            r@ == v@.subrange(start as int, i as int),
        decreases end - i,
    {
        push_char(&mut r, v[i]);
        proof {
            assert(v@.subrange(start as int, i + 1) == v@.subrange(start as int, i as int).push(
                v@[i as int],
            ));
        }
        i += 1;
    }
    r
}

pub fn ascii_ws(c: char) -> (r: bool)
    ensures
        r == is_ascii_ws(c),
{
    c == ' ' || c == '\t' || c == '\n' || c == '\x0C' || c == '\r'
}

pub fn unicode_ws(c: char) -> (r: bool)
    ensures
        r == is_ws(c),
{
    let u = c as u32;
    (0x09 <= u && u <= 0x0D) || u == 0x20 || u == 0x85 || u == 0xA0 || u == 0x1680 || (0x2000
        <= u && u <= 0x200A) || u == 0x2028 || u == 0x2029 || u == 0x202F || u == 0x205F || u
        == 0x3000
}

pub fn control(c: char) -> (r: bool)
    ensures
        r == is_control(c),
{
    let u = c as u32;
    u <= 0x1F || (0x7F <= u && u <= 0x9F)
}

pub fn ascii_digit(c: char) -> (r: bool)
    ensures
        r == is_ascii_digit(c),
{
    '0' <= c && c <= '9'
}

pub fn ascii_alpha(c: char) -> (r: bool)
    ensures
        r == is_ascii_alpha(c),
{
    ('a' <= c && c <= 'z') || ('A' <= c && c <= 'Z')
}

pub fn ascii_alnum(c: char) -> (r: bool)
    ensures
        r == is_ascii_alnum(c),
{
    ascii_digit(c) || ascii_alpha(c)
}

pub fn ascii_hex(c: char) -> (r: bool)
    ensures
        r == is_ascii_hex(c),
{
    ascii_digit(c) || ('a' <= c && c <= 'f') || ('A' <= c && c <= 'F')
}

pub fn lower_char(c: char) -> (r: char)
    ensures
        r == lower(c),
{
    if 'A' <= c && c <= 'Z' {
        let u = (c as u32) + 32;
        proof {
            assert(u < 0xD800);
        }
        char_from_ascii_code(u)
    } else {
        c
    }
}

fn char_from_ascii_code(u: u32) -> (r: char)
    requires
        u < 0x80,
    ensures
        r == u as char,
{
    let b = u as u8;
    b as char
}

pub fn width8(c: char) -> (r: usize)
    ensures
        r == utf8_width(c),
{
    let u = c as u32;
    if u < 0x80 {
        1
    } else if u < 0x800 {
        2
    } else if u < 0x10000 {
        3
    } else {
        4
    }
}

/// UTF-8 length of a run of characters, or `None` when it exceeds `limit`.
pub fn byte_len_within(v: &[char], start: usize, end: usize, limit: usize) -> (r: Option<usize>)
    requires
        start <= end <= v@.len(),
    ensures
        match r {
            Some(n) => n == byte_len(v@.subrange(start as int, end as int)) && n <= limit,
            None => byte_len(v@.subrange(start as int, end as int)) > limit,
        },
{
    let mut n: usize = 0;
    let mut i = start;
    while i < end
        invariant
            start <= i <= end <= v@.len(),
            n == byte_len(v@.subrange(start as int, i as int)),
            n <= limit,
        decreases end - i,
    {
        let w = width8(v[i]);
        proof {
            assert(v@.subrange(start as int, i + 1).drop_last() == v@.subrange(
                start as int,
                i as int,
            ));
        }
        if w > limit - n {
            proof {
                lemma_byte_len_mono(v@.subrange(start as int, end as int), (i + 1 - start) as nat);
                assert(v@.subrange(start as int, end as int).take(i + 1 - start) == v@.subrange(
                    start as int,
                    i + 1,
                ));
            }
            return None;
        }
        n = n + w;
        i += 1;
    }
    Some(n)
}

/// Byte length never shrinks when a text grows.
pub proof fn lemma_byte_len_mono(s: Seq<char>, k: nat)
    requires
        k <= s.len(),
    ensures
        byte_len(s.take(k as int)) <= byte_len(s),
    decreases s.len(),
{
    if k < s.len() {
        assert(s.drop_last().take(k as int) == s.take(k as int));
        lemma_byte_len_mono(s.drop_last(), k);
    } else {
        assert(s.take(k as int) == s);
    }
}

pub fn lower_seq_eq(v: &[char], lit: &[char]) -> (r: bool)
    ensures
        r == (lower_seq(v@) == lit@),
{
    if v.len() != lit.len() {
        proof {
            assert(lower_seq(v@).len() == v@.len());
        }
        return false;
    }
    let mut i: usize = 0;
    while i < v.len()
        invariant
            v@.len() == lit@.len(),
            i <= v@.len(),
            forall|k: int| 0 <= k < i ==> lower(#[trigger] v@[k]) == lit@[k],
        decreases v@.len() - i,
    {
        if lower_char(v[i]) != lit[i] {
            proof {
                assert(lower_seq(v@)[i as int] != lit@[i as int]);
            }
            return false;
        }
        i += 1;
    }
    proof {
        assert(lower_seq(v@) =~= lit@);
    }
    true
}

/// Length of the run of Unicode whitespace that starts a text.
pub fn leading_ws_len(v: &[char]) -> (r: usize)
    ensures
        r == leading_ws(v@),
{
    let mut i: usize = 0;
    proof {
        assert(v@.skip(0) == v@);
    }
    while i < v.len() && unicode_ws(v[i])
        invariant
            i <= v@.len(),
            leading_ws(v@) == i + leading_ws(v@.skip(i as int)),
        decreases v@.len() - i,
    {
        proof {
            assert(v@.skip(i as int).drop_first() == v@.skip(i + 1));
        }
        i += 1;
    }
    proof {
        lemma_leading_ws_le(v@);
    }
    i
}

/// Length of the run of Unicode whitespace that ends a text.
pub fn trailing_ws_len(v: &[char]) -> (r: usize)
    ensures
        r == trailing_ws(v@),
{
    let mut n: usize = 0;
    proof {
        assert(v@.take(v@.len() as int) == v@);
    }
    while n < v.len() && unicode_ws(v[v.len() - 1 - n])
        invariant
            n <= v@.len(),
            trailing_ws(v@) == n + trailing_ws(v@.take(v@.len() - n)),
        decreases v@.len() - n,
    {
        proof {
            let t = v@.take(v@.len() - n);
            assert(t.last() == v@[v@.len() - 1 - n]);
            assert(t.drop_last() == v@.take(v@.len() - n - 1));
        }
        n += 1;
    }
    proof {
        lemma_trailing_ws_le(v@);
    }
    n
}

pub proof fn lemma_leading_ws_le(s: Seq<char>)
    ensures
        leading_ws(s) <= s.len(),
    decreases s.len(),
{
    if s.len() > 0 && is_ws(s[0]) {
        lemma_leading_ws_le(s.drop_first());
    }
}

pub proof fn lemma_trailing_ws_le(s: Seq<char>)
    ensures
        trailing_ws(s) <= s.len(),
    decreases s.len(),
{
    if s.len() > 0 && is_ws(s.last()) {
        lemma_trailing_ws_le(s.drop_last());
    }
}

/// A text is blank exactly when every character is whitespace.
pub proof fn lemma_leading_ws_all(s: Seq<char>)
    ensures
        (leading_ws(s) == s.len()) == all_ws(s),
    decreases s.len(),
{
    if s.len() > 0 {
        lemma_leading_ws_all(s.drop_first());
        if is_ws(s[0]) && all_ws(s.drop_first()) {
            assert forall|i: int| 0 <= i < s.len() implies is_ws(#[trigger] s[i]) by {
                if i > 0 {
                    assert(s[i] == s.drop_first()[i - 1]);
                }
            }
        }
        if all_ws(s) {
            assert forall|i: int| 0 <= i < s.drop_first().len() implies is_ws(
                #[trigger] s.drop_first()[i],
            ) by {
                assert(s.drop_first()[i] == s[i + 1]);
            }
        }
    }
}

/// Start and end of the trimmed part of a text (`str::trim`).
pub fn trim_bounds(v: &[char]) -> (r: (usize, usize))
    ensures
        r.0 <= r.1 <= v@.len(),
        v@.subrange(r.0 as int, r.1 as int) == trim(v@),
{
    let lead = leading_ws_len(v);
    if lead == v.len() {
        return (lead, lead);
    }
    let trail = trailing_ws_len(v);
    proof {
        lemma_leading_ws_le(v@);
        lemma_trim_disjoint(v@);
    }
    (lead, v.len() - trail)
}

/// When a text is not all whitespace, its leading and trailing runs do not overlap.
pub proof fn lemma_trim_disjoint(s: Seq<char>)
    requires
        leading_ws(s) < s.len(),
    ensures
        leading_ws(s) + trailing_ws(s) < s.len(),
{
    lemma_leading_ws_prefix(s);
    lemma_trailing_ws_suffix(s);
    lemma_trailing_ws_le(s);
    let k = leading_ws(s) as int;
    assert(!is_ws(s[k]));
    if leading_ws(s) + trailing_ws(s) >= s.len() {
        assert(s.len() - trailing_ws(s) <= k);
        assert(is_ws(s[k]));
    }
}

pub proof fn lemma_leading_ws_prefix(s: Seq<char>)
    ensures
        forall|i: int| 0 <= i < leading_ws(s) ==> is_ws(#[trigger] s[i]),
        leading_ws(s) < s.len() ==> !is_ws(s[leading_ws(s) as int]),
    decreases s.len(),
{
    lemma_leading_ws_le(s);
    if s.len() > 0 && is_ws(s[0]) {
        lemma_leading_ws_prefix(s.drop_first());
        assert forall|i: int| 0 <= i < leading_ws(s) implies is_ws(#[trigger] s[i]) by {
            if i > 0 {
                assert(s[i] == s.drop_first()[i - 1]);
            }
        }
    }
}

pub proof fn lemma_trailing_ws_suffix(s: Seq<char>)
    ensures
        forall|i: int| s.len() - trailing_ws(s) <= i < s.len() ==> is_ws(#[trigger] s[i]),
    decreases s.len(),
{
    lemma_trailing_ws_le(s);
    if s.len() > 0 && is_ws(s.last()) {
        lemma_trailing_ws_suffix(s.drop_last());
        assert forall|i: int| s.len() - trailing_ws(s) <= i < s.len() implies is_ws(
            #[trigger] s[i],
        ) by {
            if i < s.len() - 1 {
                assert(s[i] == s.drop_last()[i]);
            }
        }
    }
}

/// Whether a text is empty after `str::trim`.
pub fn is_blank(v: &[char]) -> (r: bool)
    ensures
        r == (trim(v@).len() == 0),
        r == all_ws(v@),
{
    let lead = leading_ws_len(v);
    proof {
        lemma_leading_ws_all(v@);
        lemma_leading_ws_le(v@);
        lemma_trailing_ws_le(v@);
        if lead < v@.len() {
            lemma_trim_disjoint(v@);
        }
    }
    lead == v.len()
}


/// Start and end of each piece of `v` between occurrences of `sep` (`str::split`).
pub fn segments(v: &[char], sep: char) -> (r: Vec<(usize, usize)>)
    ensures
        r@.len() == split(v@, sep).len(),
        forall|i: int| 0 <= i < r@.len() ==> (#[trigger] r@[i]).0 <= r@[i].1 <= v@.len(),
        forall|i: int|
            0 <= i < r@.len() ==> (v@.subrange(r@[i].0 as int, r@[i].1 as int) == #[trigger] split(
                v@,
                sep,
            )[i]),
{
    let mut done: Vec<(usize, usize)> = Vec::new();
    let mut seg_start: usize = 0;
    let mut i: usize = 0;
    proof {
        assert(v@.take(0) =~= Seq::<char>::empty());
    }
    while i < v.len()
        invariant
            seg_start <= i <= v@.len(),
            split(v@.take(i as int), sep).len() == done@.len() + 1,
            split(v@.take(i as int), sep).last() == v@.subrange(seg_start as int, i as int),
            forall|k: int| 0 <= k < done@.len() ==> (#[trigger] done@[k]).0 <= done@[k].1 <= v@.len(),
            forall|k: int|
                0 <= k < done@.len() ==> (v@.subrange(done@[k].0 as int, done@[k].1 as int)
                    == #[trigger] split(v@.take(i as int), sep)[k]),
        decreases v@.len() - i,
    {
        let ghost prev = split(v@.take(i as int), sep);
        proof {
            assert(v@.take(i + 1).drop_last() == v@.take(i as int));
            assert(v@.take(i + 1).last() == v@[i as int]);
            lemma_split_nonempty(v@.take(i as int), sep);
        }
        let ghost old_done = done@;
        let ghost old_start = seg_start;
        let ghost old_i = i;
        if v[i] == sep {
            done.push((seg_start, i));
            seg_start = i + 1;
            i += 1;
            proof {
                assert(split(v@.take(i as int), sep) == prev.push(Seq::empty()));
                assert(v@.subrange(seg_start as int, i as int) =~= Seq::<char>::empty());
                assert forall|k: int| 0 <= k < done@.len() implies (v@.subrange(
                    done@[k].0 as int,
                    done@[k].1 as int,
                ) == #[trigger] split(v@.take(i as int), sep)[k]) by {
                    if k < old_done.len() {
                        assert(done@[k] == old_done[k]);
                        assert(split(v@.take(i as int), sep)[k] == prev[k]);
                    } else {
                        assert(done@[k] == (old_start, old_i));
                        assert(split(v@.take(i as int), sep)[k] == prev.last());
                    }
                }
                assert forall|k: int| 0 <= k < done@.len() implies (#[trigger] done@[k]).0
                    <= done@[k].1 <= v@.len() by {
                    if k < old_done.len() {
                        assert(done@[k] == old_done[k]);
                    }
                }
            }
        } else {
            i += 1;
            proof {
                assert(split(v@.take(i as int), sep) == prev.update(
                    prev.len() - 1,
                    prev.last().push(v@[i - 1]),
                ));
                assert(v@.subrange(seg_start as int, i as int) == v@.subrange(
                    seg_start as int,
                    i - 1,
                ).push(v@[i - 1]));
                assert forall|k: int| 0 <= k < done@.len() implies (v@.subrange(
                    done@[k].0 as int,
                    done@[k].1 as int,
                ) == #[trigger] split(v@.take(i as int), sep)[k]) by {
                    assert(split(v@.take(i as int), sep)[k] == prev[k]);
                }
            }
        }
    }
    let ghost old_done = done@;
    done.push((seg_start, i));
    proof {
        assert(v@.take(i as int) == v@);
        assert forall|k: int| 0 <= k < done@.len() implies (v@.subrange(
            done@[k].0 as int,
            done@[k].1 as int,
        ) == #[trigger] split(v@, sep)[k]) by {
            if k < old_done.len() {
                assert(done@[k] == old_done[k]);
                assert(split(v@.take(i as int), sep)[k] == split(v@, sep)[k]);
            }
        }
        assert forall|k: int| 0 <= k < done@.len() implies (#[trigger] done@[k]).0 <= done@[k].1
            <= v@.len() by {
            if k < old_done.len() {
                assert(done@[k] == old_done[k]);
            }
        }
    }
    done
}

/// Whether a text has a character satisfying `control`.
pub fn has_control(v: &[char]) -> (r: bool)
    ensures
        r == any_control(v@),
{
    let mut i: usize = 0;
    while i < v.len()
        invariant
            i <= v@.len(),
            forall|k: int| 0 <= k < i ==> !is_control(#[trigger] v@[k]),
        decreases v@.len() - i,
    {
        if control(v[i]) {
            return true;
        }
        i += 1;
    }
    false
}

/// Whether a text contains a character.
pub fn has_char(v: &[char], c: char) -> (r: bool)
    ensures
        r == contains_char(v@, c),
{
    let mut i: usize = 0;
    while i < v.len()
        invariant
            i <= v@.len(),
            forall|k: int| 0 <= k < i ==> v@[k] != c,
        decreases v@.len() - i,
    {
        if v[i] == c {
            return true;
        }
        i += 1;
    }
    false
}

/// Whether `v` equals `lit` exactly.
pub fn seq_eq(v: &[char], lit: &[char]) -> (r: bool)
    ensures
        r == (v@ == lit@),
{
    if v.len() != lit.len() {
        return false;
    }
    let mut i: usize = 0;
    while i < v.len()
        invariant
            v@.len() == lit@.len(),
            i <= v@.len(),
            forall|k: int| 0 <= k < i ==> v@[k] == lit@[k],
        decreases v@.len() - i,
    {
        if v[i] != lit[i] {
            return false;
        }
        i += 1;
    }
    proof {
        assert(v@ =~= lit@);
    }
    true
}

/// Whether `v` begins with `p`.
pub fn has_prefix(v: &[char], p: &[char]) -> (r: bool)
    ensures
        r == starts_with(v@, p@),
{
    if p.len() > v.len() {
        return false;
    }
    let r = seq_eq(&v[0..p.len()], p);
    proof {
        assert(v@.subrange(0, p@.len() as int) == v@.take(p@.len() as int));
    }
    r
}

/// Whether `v` ends with `p`.
pub fn has_suffix(v: &[char], p: &[char]) -> (r: bool)
    ensures
        r == ends_with(v@, p@),
{
    if p.len() > v.len() {
        return false;
    }
    let r = seq_eq(&v[v.len() - p.len()..v.len()], p);
    proof {
        assert(v@.subrange(v@.len() - p@.len(), v@.len() as int) == v@.skip(v@.len() - p@.len()));
    }
    r
}

/// Whether two strings are equal.
pub fn str_eq(a: &str, b: &str) -> (r: bool)
    ensures
        r == (a@ == b@),
{
    let x = chars_of(a);
    let y = chars_of(b);
    seq_eq(x.as_slice(), y.as_slice())
}


/// Whether `v` holds `pat` as a contiguous piece.
pub open spec fn contains_seq(v: Seq<char>, pat: Seq<char>) -> bool {
    exists|i: int| 0 <= i && i + pat.len() <= v.len() && #[trigger] v.subrange(i, i + pat.len()) == pat
}

/// Whether `v` equals the text of a literal.
pub fn eq_lit(v: &[char], lit: &str) -> (r: bool)
    ensures
        r == (v@ == lit@),
{
    let l = chars_of(lit);
    seq_eq(v, l.as_slice())
}

/// Whether `v` holds `pat` as a contiguous piece (`str::contains`).
pub fn find_seq(v: &[char], pat: &[char]) -> (r: bool)
    ensures
        r == contains_seq(v@, pat@),
{
    if pat.len() > v.len() {
        return false;
    }
    if pat.len() == 0 {
        proof {
            assert(v@.subrange(0, 0 + pat@.len() as int) =~= pat@);
        }
        return true;
    }
    let mut i: usize = 0;
    while i <= v.len() - pat.len()
        invariant
            pat@.len() <= v@.len(),
            i <= v@.len() - pat@.len() + 1,
            pat@.len() > 0,
            forall|k: int| 0 <= k < i ==> #[trigger] v@.subrange(k, k + pat@.len()) != pat@,
        decreases v@.len() - i,
    {
        if seq_eq(&v[i..i + pat.len()], pat) {
            return true;
        }
        i += 1;
    }
    proof {
        assert forall|k: int| 0 <= k && k + pat@.len() <= v@.len() implies #[trigger] v@.subrange(
            k,
            k + pat@.len(),
        ) != pat@ by {}
    }
    false
}

/// The text with every ASCII capital replaced by its lower-case letter.
pub fn lowercase_ascii(v: &[char]) -> (r: Vec<char>)
    ensures
        r@ == lower_seq(v@),
{
    let mut out: Vec<char> = Vec::new();
    let mut j: usize = 0;
    while j < v.len()
        invariant
            j <= v@.len(),
            out@ == lower_seq(v@.take(j as int)),
        decreases v@.len() - j,
    {
        out.push(lower_char(v[j]));
        proof {
            assert(lower_seq(v@.take(j + 1)) == lower_seq(v@.take(j as int)).push(lower(v@[j as int])));
        }
        j += 1;
    }
    proof {
        assert(v@.take(v@.len() as int) == v@);
    }
    out
}

} // verus!
