//! Byte-level text model shared by the rules: cutting content into
//! segments and logical lines, joining lines back together, stripping
//! trailing terminator runs, and trimming trailing whitespace — each with
//! a verified executable counterpart.

use vstd::prelude::*;

verus! {

/// Whether `p` is a suffix of `s`.
pub open spec fn ends_with(s: Seq<u8>, p: Seq<u8>) -> bool {
    p.len() <= s.len() && s.subrange(s.len() - p.len(), s.len() as int) == p
}

/// The segments of `s` cut at every occurrence of `sep`: one more segment
/// than there are separators, in order, none containing `sep`.
pub open spec fn segs(s: Seq<u8>, sep: u8) -> Seq<Seq<u8>>
    decreases s.len(),
{
    if s.len() == 0 {
        seq![Seq::<u8>::empty()]
    } else if s.last() == sep {
        segs(s.drop_last(), sep).push(Seq::<u8>::empty())
    } else {
        let g = segs(s.drop_last(), sep);
        g.update(g.len() - 1, g.last().push(s.last()))
    }
}

/// `l` with a single trailing carriage return removed, if present.
pub open spec fn strip_cr(l: Seq<u8>) -> Seq<u8> {
    if l.len() > 0 && l.last() == 13u8 {
        l.drop_last()
    } else {
        l
    }
}

/// The logical lines of `s`: content between terminators, terminators
/// stripped, a final unterminated fragment counting as a line, and empty
/// content having no lines.
pub open spec fn lines_of(s: Seq<u8>) -> Seq<Seq<u8>> {
    let g = segs(s, 10u8);
    let m = g.drop_last().map_values(|l: Seq<u8>| strip_cr(l));
    if g.last().len() == 0 {
        m
    } else {
        m.push(g.last())
    }
}

/// The elements of `ls` joined with the separator sequence `e` between
/// consecutive elements.
pub open spec fn join(ls: Seq<Seq<u8>>, e: Seq<u8>) -> Seq<u8>
    decreases ls.len(),
{
    if ls.len() == 0 {
        Seq::<u8>::empty()
    } else if ls.len() == 1 {
        ls[0]
    } else {
        join(ls.drop_last(), e) + e + ls.last()
    }
}

/// Whether `b` counts as trailing whitespace on a line: a space, a tab,
/// or a carriage return (one that is not part of a terminator, since
/// line splitting already consumed those).
pub open spec fn is_ws(b: u8) -> bool {
    b == 32u8 || b == 9u8 || b == 13u8
}

/// `l` with every trailing space, tab and carriage return removed.
pub open spec fn trim_end(l: Seq<u8>) -> Seq<u8>
    decreases l.len(),
{
    if l.len() > 0 && is_ws(l.last()) {
        trim_end(l.drop_last())
    } else {
        l
    }
}

/// `s` with its maximal trailing run of copies of `e` removed.
pub open spec fn strip_trailing_runs(s: Seq<u8>, e: Seq<u8>) -> Seq<u8>
    decreases s.len(),
{
    if e.len() > 0 && ends_with(s, e) {
        strip_trailing_runs(s.subrange(0, s.len() - e.len()), e)
    } else {
        s
    }
}

/// Appends every byte of `src` to `dst`, in order.
pub fn append_bytes(dst: &mut Vec<u8>, src: &[u8])
    ensures
        final(dst)@ == old(dst)@ + src@,
{
    let n = src.len();
    let mut i: usize = 0;
    while i < n
        invariant
            n == src@.len(),
            i <= n,
            dst@ == old(dst)@ + src@.take(i as int),
        decreases n - i,
    {
        dst.push(src[i]);
        proof {
            assert(old(dst)@ + src@.take(i + 1) =~= (old(dst)@ + src@.take(i as int)).push(
                src@[i as int],
            ));
        }
        i += 1;
    }
    proof {
        assert(old(dst)@ + src@.take(n as int) =~= old(dst)@ + src@);
    }
}

/// Whether two byte slices hold the same bytes.
pub fn bytes_eq(a: &[u8], b: &[u8]) -> (r: bool)
    ensures
        r == (a@ == b@),
{
    if a.len() != b.len() {
        return false;
    }
    let n = a.len();
    let mut i: usize = 0;
    while i < n
        invariant
            n == a@.len(),
            n == b@.len(),
            i <= n,
            forall|j: int| 0 <= j < i ==> a@[j] == #[trigger] b@[j],
        decreases n - i,
    {
        if a[i] != b[i] {
            return false;
        }
        i += 1;
    }
    proof {
        assert(a@ =~= b@);
    }
    true
}

/// Whether slice `s` ends with `p`, byte for byte.
pub fn ends_with_bytes(s: &[u8], p: &[u8]) -> (r: bool)
    ensures
        r == ends_with(s@, p@),
{
    let n = s.len();
    let m = p.len();
    if m > n {
        return false;
    }
    let mut i: usize = 0;
    while i < m
        invariant
            m <= n,
            n == s@.len(),
            m == p@.len(),
            i <= m,
            forall|j: int| 0 <= j < i ==> s@[n - m + j] == #[trigger] p@[j],
        decreases m - i,
    {
        if s[n - m + i] != p[i] {
            proof {
                if ends_with(s@, p@) {
                    assert(s@.subrange(n - m, n as int)[i as int] == s@[n - m + i]);
                }
            }
            return false;
        }
        i += 1;
    }
    proof {
        assert(s@.subrange(n - m, n as int) =~= p@);
    }
    true
}

/// Splits `content` at every occurrence of `sep`.
pub fn split_segments(content: &[u8], sep: u8) -> (r: Vec<Vec<u8>>)
    ensures
        r@.map_values(|l: Vec<u8>| l@) == segs(content@, sep),
{
    let ghost s = content@;
    let n = content.len();
    let mut done: Vec<Vec<u8>> = Vec::new();
    let mut cur: Vec<u8> = Vec::new();
    let mut i: usize = 0;
    while i < n
        invariant
            n == s.len(),
            s == content@,
            i <= n,
            segs(s.take(i as int), sep) == done@.map_values(|l: Vec<u8>| l@).push(cur@),
        decreases n - i,
    {
        let b = content[i];
        proof {
            assert(s.take(i + 1) =~= s.take(i as int).push(s[i as int]));
            assert(s.take(i + 1).drop_last() =~= s.take(i as int));
        }
        if b == sep {
            let ghost prev = done@;
            let fin = cur.clone();
            done.push(fin);
            cur.clear();
            proof {
                assert(segs(s.take(i + 1), sep) =~= done@.map_values(
                    |l: Vec<u8>| l@,
                ).push(cur@)) by {
                    assert(done@.map_values(|l: Vec<u8>| l@) =~= prev.map_values(
                        |l: Vec<u8>| l@,
                    ).push(fin@));
                }
            }
        } else {
            let ghost oldcur = cur@;
            cur.push(b);
            proof {
                let g = segs(s.take(i as int), sep);
                assert(g.last() == oldcur);
                assert(segs(s.take(i + 1), sep) =~= done@.map_values(|l: Vec<u8>| l@).push(cur@));
            }
        }
        i += 1;
    }
    proof {
        assert(s.take(n as int) =~= s);
    }
    done.push(cur);
    proof {
        assert(done@.map_values(|l: Vec<u8>| l@) =~= segs(s, sep));
    }
    done
}

/// Splits `content` into its logical lines.
pub fn split_lines(content: &[u8]) -> (r: Vec<Vec<u8>>)
    ensures
        r@.map_values(|l: Vec<u8>| l@) == lines_of(content@),
{
    let g = split_segments(content, 10u8);
    let k = g.len();
    proof {
        assert(g@.map_values(|l: Vec<u8>| l@).len() == segs(content@, 10u8).len());
        assert(segs(content@, 10u8).len() > 0) by {
            lemma_segs_len(content@, 10u8);
        }
    }
    let mut out: Vec<Vec<u8>> = Vec::new();
    let mut i: usize = 0;
    while i < k - 1
        invariant
            k == g@.len(),
            k >= 1,
            g@.map_values(|l: Vec<u8>| l@) == segs(content@, 10u8),
            i <= k - 1,
            out@.map_values(|l: Vec<u8>| l@) == segs(content@, 10u8).drop_last().map_values(
                |l: Seq<u8>| strip_cr(l),
            ).take(i as int),
        decreases k - i,
    {
        let mut line = g[i].clone();
        if line.len() > 0 && line[line.len() - 1] == 13u8 {
            line.pop();
        }
        proof {
            assert(line@ == strip_cr(g@[i as int]@));
        }
        let ghost prev = out@;
        out.push(line);
        proof {
            assert(out@.map_values(|l: Vec<u8>| l@) =~= prev.map_values(|l: Vec<u8>| l@).push(
                line@,
            ));
            assert(out@.map_values(|l: Vec<u8>| l@) =~= segs(content@, 10u8).drop_last().map_values(
                |l: Seq<u8>| strip_cr(l),
            ).take(i + 1));
        }
        i += 1;
    }
    proof {
        assert(segs(content@, 10u8).drop_last().map_values(|l: Seq<u8>| strip_cr(l)).take(
            k - 1,
        ) =~= segs(content@, 10u8).drop_last().map_values(|l: Seq<u8>| strip_cr(l)));
    }
    let last = g[k - 1].clone();
    if last.len() > 0 {
        out.push(last);
        proof {
            assert(out@.map_values(|l: Vec<u8>| l@) =~= lines_of(content@));
        }
    } else {
        proof {
            assert(out@.map_values(|l: Vec<u8>| l@) =~= lines_of(content@));
        }
    }
    out
}

/// Every cut of `s` yields at least one segment.
pub proof fn lemma_segs_len(s: Seq<u8>, sep: u8)
    ensures
        segs(s, sep).len() >= 1,
    decreases s.len(),
{
    if s.len() > 0 {
        lemma_segs_len(s.drop_last(), sep);
    }
}

/// Joins `lines` with the separator `e`.
pub fn join_with(lines: &Vec<Vec<u8>>, e: &[u8]) -> (r: Vec<u8>)
    ensures
        r@ == join(lines@.map_values(|l: Vec<u8>| l@), e@),
{
    let ghost ls = lines@.map_values(|l: Vec<u8>| l@);
    let mut r: Vec<u8> = Vec::new();
    let mut i: usize = 0;
    while i < lines.len()
        invariant
            ls == lines@.map_values(|l: Vec<u8>| l@),
            i <= lines@.len(),
            r@ == join(ls.take(i as int), e@),
        decreases lines@.len() - i,
    {
        if i > 0 {
            append_bytes(&mut r, e);
        }
        append_bytes(&mut r, lines[i].as_slice());
        proof {
            assert(ls.take(i + 1).drop_last() =~= ls.take(i as int));
            if i > 0 {
                assert(r@ == join(ls.take(i + 1), e@));
            } else {
                assert(r@ =~= ls[0]);
            }
        }
        i += 1;
    }
    proof {
        assert(ls.take(lines@.len() as int) =~= ls);
    }
    r
}

/// `l` with trailing spaces, tabs and carriage returns removed.
pub fn trim_end_bytes(l: &[u8]) -> (r: Vec<u8>)
    ensures
        r@ == trim_end(l@),
{
    let n = l.len();
    let mut j: usize = n;
    proof {
        assert(l@.take(n as int) =~= l@);
    }
    while j > 0 && (l[j - 1] == 32u8 || l[j - 1] == 9u8 || l[j - 1] == 13u8)
        invariant
            n == l@.len(),
            j <= n,
            trim_end(l@) == trim_end(l@.take(j as int)),
        decreases j,
    {
        proof {
            assert(l@.take(j as int).drop_last() =~= l@.take(j - 1));
        }
        j -= 1;
    }
    proof {
        assert(trim_end(l@.take(j as int)) == l@.take(j as int));
    }
    let mut r: Vec<u8> = Vec::new();
    let mut i: usize = 0;
    while i < j
        invariant
            j <= n,
            n == l@.len(),
            i <= j,
            r@ == l@.take(j as int).take(i as int),
        decreases j - i,
    {
        r.push(l[i]);
        proof {
            assert(l@.take(j as int).take(i + 1) =~= l@.take(j as int).take(i as int).push(
                l@[i as int],
            ));
        }
        i += 1;
    }
    proof {
        assert(l@.take(j as int).take(j as int) =~= l@.take(j as int));
    }
    r
}

/// `content` with its maximal trailing run of copies of `e` removed.
pub fn strip_trailing(content: &[u8], e: &[u8]) -> (r: Vec<u8>)
    requires
        e@.len() > 0,
    ensures
        r@ == strip_trailing_runs(content@, e@),
{
    let mut v: Vec<u8> = Vec::new();
    append_bytes(&mut v, content);
    proof {
        assert(v@ =~= content@);
    }
    while ends_with_bytes(v.as_slice(), e)
        invariant
            e@.len() > 0,
            strip_trailing_runs(content@, e@) == strip_trailing_runs(v@, e@),
        decreases v@.len(),
    {
        let m = v.len() - e.len();
        v.truncate(m);
    }
    v
}

} // verus!
