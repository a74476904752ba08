//! Character-level helpers: splitting text at a separator.

use vstd::prelude::*;

verus! {

/// The characters of `s`, in order.
pub fn chars_of(s: &str) -> (v: Vec<char>)
    ensures
        v@ == s@,
{
    broadcast use vstd::string::group_string_axioms;
    let mut v: Vec<char> = Vec::new();
    for c in it: s.chars()
        invariant
            v@ == it.seq().take(it.index()),
    {
        v.push(c);
    }
    v
}

/// The pieces of `s` between occurrences of `sep`, in order; `n` separators
/// give `n + 1` pieces, some of which may be empty.
pub open spec fn split(s: Seq<char>, sep: char) -> Seq<Seq<char>>
    decreases s.len(),
{
    if s.len() == 0 {
        seq![Seq::empty()]
    } else {
        let p = split(s.drop_last(), sep);
        if s.last() == sep {
            p.push(Seq::empty())
        } else {
            p.update(p.len() - 1, p.last().push(s.last()))
        }
    }
}

/// The text that each index range of `ranges` covers in `s`.
pub open spec fn covered(s: Seq<char>, ranges: Seq<(usize, usize)>) -> Seq<Seq<char>> {
    ranges.map_values(|r: (usize, usize)| s.subrange(r.0 as int, r.1 as int))
}

/// Every range of `ranges` is an ordered pair of positions within `lo..=hi`.
pub open spec fn ranges_within(ranges: Seq<(usize, usize)>, lo: int, hi: int) -> bool {
    forall|i: int| 0 <= i < ranges.len() ==> lo <= (#[trigger] ranges[i]).0 <= ranges[i].1 <= hi
}

/// There is always at least one piece, and no piece holds the separator.
pub proof fn lemma_split_pieces(s: Seq<char>, sep: char)
    ensures
        split(s, sep).len() >= 1,
        forall|i: int, k: int|
            0 <= i < split(s, sep).len() && 0 <= k < split(s, sep)[i].len()
                ==> split(s, sep)[i][k] != sep,
    decreases s.len(),
{
    if s.len() > 0 {
        lemma_split_pieces(s.drop_last(), sep);
    }
}

/// The words `ws` with `sep` between each two of them.
pub open spec fn join(ws: Seq<Seq<char>>, sep: char) -> Seq<char>
    decreases ws.len(),
{
    if ws.len() == 0 {
        Seq::empty()
    } else if ws.len() == 1 {
        ws[0]
    } else {
        join(ws.drop_last(), sep).push(sep) + ws.last()
    }
}

/// Joining the pieces of a split with the separator gives back the text.
pub proof fn lemma_join_split(s: Seq<char>, sep: char)
    ensures
        join(split(s, sep), sep) == s,
    decreases s.len(),
{
    if s.len() == 0 {
        assert(join(split(s, sep), sep) =~= s);
    } else {
        let t = s.drop_last();
        let c = s.last();
        let p = split(t, sep);
        lemma_join_split(t, sep);
        lemma_split_pieces(t, sep);
        let q = split(s, sep);
        if c == sep {
            assert(q.drop_last() =~= p);
            assert(join(q, sep) =~= s);
        } else if p.len() == 1 {
            assert(q.len() == 1);
            assert(q[0] == p[0].push(c));
            assert(join(p, sep) == p[0]);
            assert(s =~= t.push(c));
            assert(join(q, sep) == q[0]);
            assert(q[0] =~= s);
        } else {
            assert(q.drop_last() =~= p.drop_last());
            let j = join(p.drop_last(), sep).push(sep);
            assert(q.last() == p.last().push(c));
            assert(join(q, sep) == j + p.last().push(c));
            assert(join(p, sep) == j + p.last());
            assert(j + p.last().push(c) =~= (j + p.last()).push(c));
            assert(s =~= t.push(c));
        }
    }
}

/// Splitting `a`, a separator and `b` gives the pieces of `a` followed by
/// those of `b`.
pub proof fn lemma_split_concat(a: Seq<char>, b: Seq<char>, sep: char)
    ensures
        split(a.push(sep) + b, sep) == split(a, sep) + split(b, sep),
    decreases b.len(),
{
    let ab = a.push(sep) + b;
    lemma_split_pieces(a, sep);
    if b.len() == 0 {
        assert(ab =~= a.push(sep));
        assert(a.push(sep).drop_last() =~= a);
        assert(split(a, sep) + split(b, sep) =~= split(a, sep).push(Seq::empty()));
    } else {
        let b1 = b.drop_last();
        lemma_split_concat(a, b1, sep);
        lemma_split_pieces(b1, sep);
        assert(ab.drop_last() =~= a.push(sep) + b1);
        assert(ab.last() == b.last());
        if b.last() == sep {
            assert(split(ab, sep) =~= split(a, sep) + split(b, sep));
        } else {
            assert(split(ab, sep) =~= split(a, sep) + split(b, sep));
        }
    }
}

/// A text without the separator is a single piece.
pub proof fn lemma_split_single(t: Seq<char>, sep: char)
    requires
        forall|i: int| 0 <= i < t.len() ==> t[i] != sep,
    ensures
        split(t, sep) == seq![t],
    decreases t.len(),
{
    if t.len() == 0 {
        assert(t =~= Seq::<char>::empty());
        assert(split(t, sep) =~= seq![t]);
    } else {
        lemma_split_single(t.drop_last(), sep);
        assert(t.drop_last().push(t.last()) =~= t);
        assert(split(t, sep) =~= seq![t]);
    }
}

/// Splitting words joined with a separator that none of them holds gives the
/// words back.
pub proof fn lemma_split_join(ws: Seq<Seq<char>>, sep: char)
    requires
        ws.len() >= 1,
        forall|i: int, k: int| 0 <= i < ws.len() && 0 <= k < ws[i].len() ==> ws[i][k] != sep,
    ensures
        split(join(ws, sep), sep) == ws,
    decreases ws.len(),
{
    if ws.len() == 1 {
        lemma_split_single(ws[0], sep);
        assert(seq![ws[0]] =~= ws);
    } else {
        let w = ws.last();
        let rest = ws.drop_last();
        lemma_split_join(rest, sep);
        lemma_split_concat(join(rest, sep), w, sep);
        assert forall|k: int| 0 <= k < w.len() implies w[k] != sep by {
            assert(ws[ws.len() - 1][k] != sep);
        }
        lemma_split_single(w, sep);
        assert(rest + seq![w] =~= ws);
    }
}

/// `w` ends with a carriage return.
pub open spec fn ends_with_cr(w: Seq<char>) -> bool {
    w.len() > 0 && w.last() == '\r'
}

/// Law: lines written one after the other, separated by `\n`, are read back
/// as the same lines, with or without a final `\n`, and also when each of them
/// ends in `\r\n`; this holds for any lines that hold no `\n`, do not end in
/// `\r`, and the last of which is not empty.
pub proof fn lemma_lines_read_back(ws: Seq<Seq<char>>)
    requires
        ws.len() >= 1,
        ws.last().len() > 0,
        forall|i: int, k: int| 0 <= i < ws.len() && 0 <= k < ws[i].len() ==> ws[i][k] != '\n',
        forall|i: int| 0 <= i < ws.len() ==> !ends_with_cr(#[trigger] ws[i]),
    ensures
        lines(join(ws, '\n')) == ws,
        lines(join(ws, '\n').push('\n')) == ws,
        lines(join(ws.map_values(|w: Seq<char>| w.push('\r')), '\n').push('\n')) == ws,
{
    lemma_split_join(ws, '\n');
    let s = join(ws, '\n');
    if ws.len() == 1 {
        assert(s == ws[0]);
    } else {
        assert(s == join(ws.drop_last(), '\n').push('\n') + ws.last());
    }
    assert(s.len() > 0 && s.last() == ws.last().last());
    assert(ws.last().last() == ws.last()[ws.last().len() - 1]);
    assert forall|i: int| 0 <= i < ws.len() implies strip_cr(#[trigger] ws[i]) == ws[i] by {}
    assert(lines(s) =~= ws);
    let t = s.push('\n');
    assert(t.drop_last() =~= s);
    assert(split(t, '\n') == ws.push(Seq::empty()));
    assert(lines(t) =~= ws);
    let cr = ws.map_values(|w: Seq<char>| w.push('\r'));
    assert forall|i: int, k: int| 0 <= i < cr.len() && 0 <= k < cr[i].len() implies cr[i][k] != '\n' by {
        if k < ws[i].len() {
            assert(cr[i][k] == ws[i][k]);
        }
    }
    lemma_split_join(cr, '\n');
    let u = join(cr, '\n').push('\n');
    assert(u.drop_last() =~= join(cr, '\n'));
    assert(split(u, '\n') == cr.push(Seq::empty()));
    assert forall|i: int| 0 <= i < cr.len() implies strip_cr(#[trigger] cr[i]) == ws[i] by {
        assert(cr[i].drop_last() =~= ws[i]);
    }
    assert(lines(u) =~= ws);
}

/// Index ranges, within `start..end` of `cs`, of the pieces of that text
/// between occurrences of `sep`.
pub fn split_ranges(cs: &Vec<char>, start: usize, end: usize, sep: char) -> (r: Vec<(usize, usize)>)
    requires
        start <= end <= cs.len(),
    ensures
        covered(cs@, r@) == split(cs@.subrange(start as int, end as int), sep),
        ranges_within(r@, start as int, end as int),
{
    let mut ranges: Vec<(usize, usize)> = Vec::new();
    let mut cur: usize = start;
    let mut j: usize = start;
    assert(cs@.subrange(start as int, start as int) =~= Seq::<char>::empty());
    assert(covered(cs@, ranges@).push(cs@.subrange(cur as int, j as int)) =~= split(
        cs@.subrange(start as int, j as int),
        sep,
    ));
    while j < end
        invariant
            start <= cur <= j <= end <= cs.len(),
            ranges_within(ranges@, start as int, cur as int),
            covered(cs@, ranges@).push(cs@.subrange(cur as int, j as int)) == split(
                cs@.subrange(start as int, j as int),
                sep,
            ),
        decreases end - j,
    {
        let ghost t = cs@.subrange(start as int, j as int);
        let ghost t1 = cs@.subrange(start as int, j + 1);
        assert(t1.drop_last() =~= t);
        assert(t1.last() == cs@[j as int]);
        let ghost old_ranges = ranges@;
        if cs[j] == sep {
            ranges.push((cur, j));
            cur = j + 1;
            assert(covered(cs@, ranges@) =~= covered(cs@, old_ranges).push(
                cs@.subrange(ranges@.last().0 as int, j as int),
            ));
            assert(cs@.subrange(cur as int, j + 1) =~= Seq::<char>::empty());
        } else {
            assert(cs@.subrange(cur as int, j + 1) =~= cs@.subrange(cur as int, j as int).push(
                cs@[j as int],
            ));
        }
        j = j + 1;
        assert(covered(cs@, ranges@).push(cs@.subrange(cur as int, j as int)) =~= split(
            cs@.subrange(start as int, j as int),
            sep,
        ));
    }
    let ghost before = ranges@;
    ranges.push((cur, end));
    assert(covered(cs@, ranges@) =~= covered(cs@, before).push(cs@.subrange(cur as int, end as int)));
    ranges
}

/// `t` without one trailing carriage return, if it ends with one.
pub open spec fn strip_cr(t: Seq<char>) -> Seq<char> {
    if t.len() > 0 && t.last() == '\r' {
        t.drop_last()
    } else {
        t
    }
}

/// The lines of a text as `str::lines` yields them: split at `\n`, a `\r`
/// directly before a `\n` dropped, and no empty line after a final `\n`.
pub open spec fn lines(s: Seq<char>) -> Seq<Seq<char>> {
    let p = split(s, '\n');
    let n: nat = if s.len() > 0 && s.last() != '\n' { p.len() } else { (p.len() - 1) as nat };
    Seq::new(n, |i: int| if i < p.len() - 1 { strip_cr(p[i]) } else { p[i] })
}

/// Index ranges of the lines of `cs`, as `lines` gives them.
pub fn line_ranges(cs: &Vec<char>) -> (r: Vec<(usize, usize)>)
    ensures
        covered(cs@, r@) == lines(cs@),
        ranges_within(r@, 0, cs.len() as int),
{
    let n = cs.len();
    let pieces = split_ranges(cs, 0, n, '\n');
    assert(cs@.subrange(0, n as int) =~= cs@);
    proof {
        lemma_split_pieces(cs@, '\n');
    }
    let count = if n > 0 && cs[n - 1] != '\n' {
        pieces.len()
    } else {
        pieces.len() - 1
    };
    let ghost want = lines(cs@);
    assert(want.len() == count);
    let mut r: Vec<(usize, usize)> = Vec::new();
    let mut i: usize = 0;
    while i < count
        invariant
            i <= count <= pieces.len(),
            n == cs.len(),
            want == lines(cs@),
            want.len() == count,
            covered(cs@, pieces@) == split(cs@, '\n'),
            ranges_within(pieces@, 0, n as int),
            ranges_within(r@, 0, n as int),
            covered(cs@, r@) == want.take(i as int),
        decreases count - i,
    {
        let (a, b) = pieces[i];
        let ghost piece = cs@.subrange(a as int, b as int);
        assert(covered(cs@, pieces@)[i as int] == piece);
        let ghost before = r@;
        if i + 1 < pieces.len() && b > a && cs[b - 1] == '\r' {
            r.push((a, b - 1));
            assert(cs@.subrange(a as int, b - 1) =~= strip_cr(piece));
        } else {
            r.push((a, b));
        }
        assert(covered(cs@, r@) =~= covered(cs@, before).push(want[i as int]));
        assert(want.take(i + 1) =~= want.take(i as int).push(want[i as int]));
        i = i + 1;
    }
    assert(want.take(count as int) =~= want);
    r
}

} // verus!
