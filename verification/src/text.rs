//! Byte-string utilities: prefix tests, literal search and replacement.
//!
//! All source text in this library is modelled as a sequence of bytes.
//! Replacement scans left to right and replaces non-overlapping occurrences
//! of a literal pattern, which is exactly what the textual pre-processor
//! needs.

use vstd::prelude::*;

verus! {

/// A pattern matches the text at position `i`.
pub open spec fn match_at(t: Seq<u8>, p: Seq<u8>, i: int) -> bool {
    0 <= i && i + p.len() <= t.len() && t.subrange(i, i + p.len() as int) == p
}

/// The text starts with the given prefix.
pub open spec fn has_prefix(t: Seq<u8>, p: Seq<u8>) -> bool {
    p.len() <= t.len() && t.subrange(0, p.len() as int) == p
}

/// Left-to-right replacement of non-overlapping occurrences of `p` by `r`.
/// An empty pattern never matches, so the text is returned unchanged.
pub open spec fn spec_replace_all(t: Seq<u8>, p: Seq<u8>, r: Seq<u8>) -> Seq<u8>
    decreases t.len(),
{
    if p.len() == 0 || t.len() == 0 {
        t
    } else if has_prefix(t, p) {
        r + spec_replace_all(t.subrange(p.len() as int, t.len() as int), p, r)
    } else {
        seq![t[0]] + spec_replace_all(t.subrange(1, t.len() as int), p, r)
    }
}

/// Appends all bytes of `src` to `dst`.
pub fn push_all(dst: &mut Vec<u8>, src: &Vec<u8>)
    ensures
        final(dst)@ == old(dst)@ + src@,
{
    let mut k: usize = 0;
    while k < src.len()
        invariant
            0 <= k <= src@.len(),
            dst@ == old(dst)@ + src@.subrange(0, k as int),
        decreases src@.len() - k,
    {
        proof {
            assert(old(dst)@ + src@.subrange(0, k + 1) =~= (old(dst)@ + src@.subrange(
                0,
                k as int,
            )).push(src@[k as int]));
        }
        dst.push(src[k]);
        k += 1;
    }
    proof {
        assert(src@.subrange(0, src@.len() as int) =~= src@);
    }
}

/// Compares `t[i .. i + p.len()]` with `p`.
pub fn is_match_at(t: &Vec<u8>, p: &Vec<u8>, i: usize) -> (b: bool)
    requires
        i <= t@.len(),
    ensures
        b == match_at(t@, p@, i as int),
{
    let n = t.len();
    if p.len() > n - i {
        proof {
            assert(!match_at(t@, p@, i as int));
        }
        return false;
    }
    let mut j: usize = 0;
    while j < p.len()
        invariant
            n == t@.len(),
            i + p@.len() <= n,
            0 <= j <= p@.len(),
            forall|k: int| 0 <= k < j ==> t@[i + k] == p@[k],
        decreases p@.len() - j,
    {
        if t[i + j] != p[j] {
            proof {
                assert(t@.subrange(i as int, i + p@.len() as int)[j as int] != p@[j as int]);
            }
            return false;
        }
        j += 1;
    }
    proof {
        assert(t@.subrange(i as int, i + p@.len() as int) =~= p@);
    }
    true
}

/// Replaces every non-overlapping occurrence of `p` in `t` by `r`,
/// scanning left to right.
pub fn replace_all(t: &Vec<u8>, p: &Vec<u8>, r: &Vec<u8>) -> (res: Vec<u8>)
    requires
        p@.len() > 0,
    ensures
        res@ == spec_replace_all(t@, p@, r@),
{
    let mut out: Vec<u8> = Vec::new();
    let mut i: usize = 0;
    proof {
        assert(t@.subrange(0, t@.len() as int) =~= t@);
        assert(Seq::<u8>::empty() + spec_replace_all(t@, p@, r@) =~= spec_replace_all(
            t@,
            p@,
            r@,
        ));
    }
    while i < t.len()
        invariant
            p@.len() > 0,
            0 <= i <= t@.len(),
            spec_replace_all(t@, p@, r@) == out@ + spec_replace_all(
                t@.subrange(i as int, t@.len() as int),
                p@,
                r@,
            ),
        decreases t@.len() - i,
    {
        let ghost rest = t@.subrange(i as int, t@.len() as int);
        let ghost out0 = out@;
        if is_match_at(t, p, i) {
            proof {
                assert(rest.subrange(0, p@.len() as int) =~= t@.subrange(
                    i as int,
                    i + p@.len() as int,
                ));
                assert(has_prefix(rest, p@));
                assert(rest.subrange(p@.len() as int, rest.len() as int) =~= t@.subrange(
                    i + p@.len(),
                    t@.len() as int,
                ));
            }
            push_all(&mut out, r);
            i = i + p.len();
            proof {
                let tail = spec_replace_all(t@.subrange(i as int, t@.len() as int), p@, r@);
                assert(spec_replace_all(rest, p@, r@) == r@ + tail);
                assert((out0 + r@) + tail =~= out0 + (r@ + tail));
            }
        } else {
            proof {
                assert(!has_prefix(rest, p@)) by {
                    if has_prefix(rest, p@) {
                        assert(rest.subrange(0, p@.len() as int) =~= t@.subrange(
                            i as int,
                            i + p@.len() as int,
                        ));
                        assert(match_at(t@, p@, i as int));
                    }
                }
                assert(rest[0] == t@[i as int]);
                assert(rest.subrange(1, rest.len() as int) =~= t@.subrange(i + 1, t@.len() as int));
            }
            out.push(t[i]);
            i += 1;
            proof {
                let tail = spec_replace_all(t@.subrange(i as int, t@.len() as int), p@, r@);
                assert(spec_replace_all(rest, p@, r@) == seq![rest[0]] + tail);
                assert(out0.push(rest[0]) + tail =~= out0 + (seq![rest[0]] + tail));
            }
        }
    }
    proof {
        assert(t@.subrange(i as int, t@.len() as int) =~= Seq::<u8>::empty());
        assert(out@ + spec_replace_all(Seq::<u8>::empty(), p@, r@) =~= out@);
    }
    out
}

/// View of a vector of byte vectors as a sequence of byte sequences.
pub open spec fn view2(v: Seq<Vec<u8>>) -> Seq<Seq<u8>> {
    Seq::new(v.len(), |i: int| v[i]@)
}

/// Byte-wise equality of two vectors.
pub fn eq_bytes(a: &Vec<u8>, b: &Vec<u8>) -> (r: bool)
    ensures
        r == (a@ == b@),
{
    if a.len() != b.len() {
        proof {
            assert(a@ != b@) by {
                if a@ == b@ {
                    assert(a@.len() == b@.len());
                }
            }
        }
        return false;
    }
    let mut i: usize = 0;
    while i < a.len()
        invariant
            a@.len() == b@.len(),
            0 <= i <= a@.len(),
            forall|k: int| 0 <= k < i ==> a@[k] == b@[k],
        decreases a@.len() - i,
    {
        if a[i] != b[i] {
            return false;
        }
        i += 1;
    }
    proof {
        assert(a@ =~= b@);
    }
    true
}

/// Whether `t` starts with `p`.
pub fn starts_with(t: &Vec<u8>, p: &Vec<u8>) -> (r: bool)
    ensures
        r == has_prefix(t@, p@),
{
    if p.len() > t.len() {
        return false;
    }
    let mut i: usize = 0;
    while i < p.len()
        invariant
            p@.len() <= t@.len(),
            0 <= i <= p@.len(),
            forall|k: int| 0 <= k < i ==> t@[k] == p@[k],
        decreases p@.len() - i,
    {
        if t[i] != p[i] {
            proof {
                assert(t@.subrange(0, p@.len() as int)[i as int] != p@[i as int]);
            }
            return false;
        }
        i += 1;
    }
    proof {
        assert(t@.subrange(0, p@.len() as int) =~= p@);
    }
    true
}

/// Copies `v[a .. b]`.
pub fn slice_range(v: &Vec<u8>, a: usize, b: usize) -> (res: Vec<u8>)
    requires
        a <= b <= v@.len(),
    ensures
        res@ == v@.subrange(a as int, b as int),
{
    let mut out: Vec<u8> = Vec::new();
    let mut i: usize = a;
    while i < b
        invariant
            a <= i <= b <= v@.len(),
            out@ == v@.subrange(a as int, i as int),
        decreases b - i,
    {
        out.push(v[i]);
        i += 1;
        proof {
            assert(out@ =~= v@.subrange(a as int, i as int));
        }
    }
    proof {
        assert(out@ =~= v@.subrange(a as int, b as int));
    }
    out
}

/// Index of the first newline byte, or the length when there is none.
pub open spec fn first_nl(t: Seq<u8>) -> int
    decreases t.len(),
{
    if t.len() == 0 {
        0
    } else if t[0] == 10u8 {
        0
    } else {
        1 + first_nl(t.subrange(1, t.len() as int))
    }
}

pub proof fn lemma_first_nl_bounds(t: Seq<u8>)
    ensures
        0 <= first_nl(t) <= t.len(),
        first_nl(t) < t.len() ==> t[first_nl(t)] == 10u8,
        forall|j: int| 0 <= j < first_nl(t) ==> t[j] != 10u8,
    decreases t.len(),
{
    if t.len() == 0 {
    } else if t[0] == 10u8 {
    } else {
        let t1 = t.subrange(1, t.len() as int);
        lemma_first_nl_bounds(t1);
        assert(forall|j: int| 0 <= j < t1.len() ==> t1[j] == t[j + 1]);
        assert forall|j: int| 0 <= j < first_nl(t) implies t[j] != 10u8 by {
            if j >= 1 {
                assert(t1[j - 1] != 10u8);
                assert(t1[j - 1] == t[j]);
            }
        }
    }
}

/// The first newline of a text whose bytes before `m` are not newlines and
/// whose byte at `m` (if any) is one.
pub proof fn lemma_first_nl_at(t: Seq<u8>, m: int)
    requires
        0 <= m <= t.len(),
        forall|j: int| 0 <= j < m ==> t[j] != 10u8,
        m < t.len() ==> t[m] == 10u8,
        m == t.len() ==> !t.contains(10u8),
    ensures
        first_nl(t) == m,
    decreases m,
{
    if t.len() == 0 {
    } else if m == 0 {
        if t[0] != 10u8 {
            assert(!t.contains(10u8));
            lemma_first_nl_bounds(t);
            if first_nl(t) < t.len() {
                assert(t.contains(10u8)) by {
                    assert(t[first_nl(t)] == 10u8);
                }
            }
        }
    } else {
        let t1 = t.subrange(1, t.len() as int);
        assert(forall|j: int| 0 <= j < t1.len() ==> t1[j] == t[j + 1]);
        assert(m - 1 == t1.len() ==> !t1.contains(10u8)) by {
            if m - 1 == t1.len() && t1.contains(10u8) {
                let k = choose|k: int| 0 <= k < t1.len() && t1[k] == 10u8;
                assert(t[k + 1] == 10u8);
            }
        }
        lemma_first_nl_at(t1, m - 1);
    }
}

/// The lines of a text: maximal newline-free segments; a trailing segment
/// without a final newline still counts as a line, and a trailing newline
/// does not produce an empty final line.
pub open spec fn spec_split_lines(t: Seq<u8>) -> Seq<Seq<u8>>
    decreases t.len(),
    via split_lines_decreases
{
    if t.len() == 0 {
        Seq::empty()
    } else if first_nl(t) < t.len() {
        seq![t.subrange(0, first_nl(t))] + spec_split_lines(
            t.subrange(first_nl(t) + 1, t.len() as int),
        )
    } else {
        seq![t]
    }
}

#[via_fn]
proof fn split_lines_decreases(t: Seq<u8>) {
    lemma_first_nl_bounds(t);
}

/// The text of a line list: every line followed by a newline.
pub open spec fn spec_join_lines(ls: Seq<Seq<u8>>) -> Seq<u8>
    decreases ls.len(),
{
    if ls.len() == 0 {
        Seq::empty()
    } else {
        ls[0] + seq![10u8] + spec_join_lines(ls.subrange(1, ls.len() as int))
    }
}

pub proof fn lemma_join_lines_singleton(l: Seq<u8>)
    ensures
        spec_join_lines(seq![l]) == l + seq![10u8],
{
    let s = seq![l];
    assert(s.len() == 1);
    assert(s[0] == l);
    assert(s.subrange(1, 1) =~= Seq::<Seq<u8>>::empty());
    assert(spec_join_lines(s) == l + seq![10u8] + spec_join_lines(s.subrange(1, 1)));
    assert(l + seq![10u8] + Seq::<u8>::empty() =~= l + seq![10u8]);
}

pub proof fn lemma_join_lines_append(a: Seq<Seq<u8>>, b: Seq<Seq<u8>>)
    ensures
        spec_join_lines(a + b) == spec_join_lines(a) + spec_join_lines(b),
    decreases a.len(),
{
    if a.len() == 0 {
        assert(a + b =~= b);
        assert(Seq::<u8>::empty() + spec_join_lines(b) =~= spec_join_lines(b));
    } else {
        let a1 = a.subrange(1, a.len() as int);
        lemma_join_lines_append(a1, b);
        assert((a + b).subrange(1, (a + b).len() as int) =~= a1 + b);
        assert((a + b)[0] == a[0]);
        assert(a[0] + seq![10u8] + (spec_join_lines(a1) + spec_join_lines(b)) =~= (a[0]
            + seq![10u8] + spec_join_lines(a1)) + spec_join_lines(b));
    }
}

/// Splitting the joined text recovers the lines, provided no line contains a
/// newline.
pub proof fn lemma_split_join_lines(ls: Seq<Seq<u8>>)
    requires
        forall|i: int| 0 <= i < ls.len() ==> !(#[trigger] ls[i]).contains(10u8),
    ensures
        spec_split_lines(spec_join_lines(ls)) == ls,
    decreases ls.len(),
{
    if ls.len() == 0 {
    } else {
        let l0 = ls[0];
        let rest = ls.subrange(1, ls.len() as int);
        let t = spec_join_lines(ls);
        assert(t == l0 + seq![10u8] + spec_join_lines(rest));
        assert(forall|j: int| 0 <= j < l0.len() ==> t[j] == l0[j] && t[j] != 10u8) by {
            assert(forall|j: int| 0 <= j < l0.len() ==> t[j] == l0[j]);
            assert forall|j: int| 0 <= j < l0.len() implies t[j] != 10u8 by {
                if l0[j] == 10u8 {
                    assert(l0.contains(10u8));
                }
            }
        }
        assert(t[l0.len() as int] == 10u8);
        lemma_first_nl_at(t, l0.len() as int);
        assert(t.subrange(0, l0.len() as int) =~= l0);
        assert(t.subrange(l0.len() as int + 1, t.len() as int) =~= spec_join_lines(rest));
        lemma_split_join_lines(rest);
        assert(seq![l0] + rest =~= ls);
    }
}

/// Splits a text into its lines.
pub fn split_lines(t: &Vec<u8>) -> (ls: Vec<Vec<u8>>)
    ensures
        view2(ls@) == spec_split_lines(t@),
{
    let mut out: Vec<Vec<u8>> = Vec::new();
    let mut cur: Vec<u8> = Vec::new();
    let mut start: usize = 0;
    let mut i: usize = 0;
    proof {
        assert(t@.subrange(0, t@.len() as int) =~= t@);
        assert(view2(out@) =~= Seq::<Seq<u8>>::empty());
        assert(Seq::<Seq<u8>>::empty() + spec_split_lines(t@) =~= spec_split_lines(t@));
        assert(cur@ =~= t@.subrange(0, 0));
    }
    while i < t.len()
        invariant
            0 <= start <= i <= t@.len(),
            cur@ == t@.subrange(start as int, i as int),
            forall|j: int| start <= j < i ==> t@[j] != 10u8,
            spec_split_lines(t@) == view2(out@) + spec_split_lines(
                t@.subrange(start as int, t@.len() as int),
            ),
        decreases t@.len() - i,
    {
        let ghost seg = t@.subrange(start as int, t@.len() as int);
        if t[i] == 10 {
            proof {
                assert(forall|j: int| 0 <= j < i - start ==> seg[j] == t@[start + j]);
                assert(seg[i - start] == 10u8);
                lemma_first_nl_at(seg, i - start);
                assert(seg.subrange(0, i - start) =~= t@.subrange(start as int, i as int));
                assert(seg.subrange(i - start + 1, seg.len() as int) =~= t@.subrange(
                    i + 1,
                    t@.len() as int,
                ));
                assert(view2(out@.push(cur)) =~= view2(out@).push(cur@));
                assert(view2(out@) + (seq![cur@] + spec_split_lines(
                    t@.subrange(i + 1, t@.len() as int),
                )) =~= view2(out@).push(cur@) + spec_split_lines(
                    t@.subrange(i + 1, t@.len() as int),
                ));
            }
            out.push(cur);
            cur = Vec::new();
            i += 1;
            start = i;
            proof {
                assert(cur@ =~= t@.subrange(start as int, i as int));
            }
        } else {
            cur.push(t[i]);
            i += 1;
            proof {
                assert(cur@ =~= t@.subrange(start as int, i as int));
            }
        }
    }
    let ghost seg = t@.subrange(start as int, t@.len() as int);
    if cur.len() > 0 {
        proof {
            assert(forall|j: int| 0 <= j < seg.len() ==> seg[j] == t@[start + j]);
            assert(!seg.contains(10u8)) by {
                if seg.contains(10u8) {
                    let k = choose|k: int| 0 <= k < seg.len() && seg[k] == 10u8;
                    assert(t@[start + k] == 10u8);
                }
            }
            lemma_first_nl_at(seg, seg.len() as int);
            assert(seg =~= cur@);
            assert(view2(out@.push(cur)) =~= view2(out@).push(cur@));
            assert(view2(out@) + seq![seg] =~= view2(out@).push(cur@));
        }
        out.push(cur);
    } else {
        proof {
            assert(seg =~= Seq::<u8>::empty());
            assert(view2(out@) + Seq::<Seq<u8>>::empty() =~= view2(out@));
        }
    }
    out
}

pub proof fn lemma_view2_push(v: Seq<Vec<u8>>, x: Vec<u8>)
    ensures
        view2(v.push(x)) == view2(v).push(x@),
{
    assert(view2(v.push(x)) =~= view2(v).push(x@));
}

/// Appends all elements of `src` to `dst`.
pub fn append_lines(dst: &mut Vec<Vec<u8>>, src: Vec<Vec<u8>>)
    ensures
        final(dst)@ == old(dst)@ + src@,
{
    let mut s = src;
    let ghost sv = src@;
    let total: usize = s.len();
    let mut taken: usize = 0;
    while s.len() > 0
        invariant
            total == sv.len(),
            taken + s@.len() == sv.len(),
            dst@ == old(dst)@ + sv.subrange(0, taken as int),
            s@ == sv.subrange(taken as int, sv.len() as int),
        decreases s@.len(),
    {
        let ghost s_old = s@;
        let x = s.remove(0);
        proof {
            assert(x == sv.subrange(taken as int, sv.len() as int)[0]);
            assert(x == sv[taken as int]);
            assert((old(dst)@ + sv.subrange(0, taken as int)).push(x) =~= old(dst)@ + sv.subrange(
                0,
                taken + 1,
            ));
            assert(s@ =~= s_old.subrange(1, s_old.len() as int));
            assert(s@ =~= sv.subrange(taken + 1, sv.len() as int));
        }
        dst.push(x);
        taken += 1;
    }
    proof {
        assert(sv.subrange(0, sv.len() as int) =~= sv);
    }
}

/// A text without any occurrence of a single-byte pattern is left unchanged
/// by replacement.
pub proof fn lemma_replace_no_byte_identity(t: Seq<u8>, p: Seq<u8>, r: Seq<u8>)
    requires
        p.len() == 1,
        !t.contains(p[0]),
    ensures
        spec_replace_all(t, p, r) == t,
    decreases t.len(),
{
    if t.len() == 0 {
    } else {
        assert(t[0] != p[0]);
        assert(!has_prefix(t, p)) by {
            if has_prefix(t, p) {
                assert(t.subrange(0, 1)[0] == p[0]);
            }
        }
        let t1 = t.subrange(1, t.len() as int);
        assert(!t1.contains(p[0])) by {
            if t1.contains(p[0]) {
                let i = choose|i: int| 0 <= i < t1.len() && t1[i] == p[0];
                assert(t[i + 1] == p[0]);
            }
        }
        lemma_replace_no_byte_identity(t1, p, r);
        assert(seq![t[0]] + t1 =~= t);
    }
}

/// Replacement of a single-byte pattern never leaves behind a byte that
/// neither survives from the text nor occurs in the replacement: if `c` is
/// the pattern byte itself, or absent from the text, and absent from the
/// replacement, then it is absent from the result.
pub proof fn lemma_replace_byte_absent(t: Seq<u8>, p: Seq<u8>, r: Seq<u8>, c: u8)
    requires
        p.len() == 1,
        !r.contains(c),
        c == p[0] || !t.contains(c),
    ensures
        !spec_replace_all(t, p, r).contains(c),
    decreases t.len(),
{
    if t.len() == 0 {
    } else {
        let t1s = t.subrange(1, t.len() as int);
        let tp = t.subrange(p.len() as int, t.len() as int);
        assert(c != p[0] ==> !t1s.contains(c) && !tp.contains(c)) by {
            if c != p[0] {
                assert(!t.contains(c));
                if t1s.contains(c) {
                    let i = choose|i: int| 0 <= i < t1s.len() && t1s[i] == c;
                    assert(t[i + 1] == c);
                }
            }
        }
        assert(tp =~= t1s);
        if has_prefix(t, p) {
            lemma_replace_byte_absent(tp, p, r, c);
            let rec = spec_replace_all(tp, p, r);
            assert(!(r + rec).contains(c)) by {
                if (r + rec).contains(c) {
                    let i = choose|i: int| 0 <= i < (r + rec).len() && (r + rec)[i] == c;
                    if i < r.len() {
                        assert(r[i] == c);
                    } else {
                        assert(rec[i - r.len()] == c);
                    }
                }
            }
        } else {
            assert(t[0] != c) by {
                if c == p[0] {
                    if t[0] == c {
                        assert(t.subrange(0, 1) =~= p);
                    }
                } else {
                    assert(!t.contains(c));
                }
            }
            lemma_replace_byte_absent(t1s, p, r, c);
            let rec = spec_replace_all(t1s, p, r);
            assert(!(seq![t[0]] + rec).contains(c)) by {
                if (seq![t[0]] + rec).contains(c) {
                    let i = choose|i: int|
                        0 <= i < (seq![t[0]] + rec).len() && (seq![t[0]] + rec)[i] == c;
                    if i >= 1 {
                        assert(rec[i - 1] == c);
                    }
                }
            }
        }
    }
}

} // verus!
