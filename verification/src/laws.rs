//! The library's laws. Each rule on its own resolves everything it
//! flags: checking a rule's own format output reports nothing, for any
//! content and policy. With the default rule set, formatting is
//! idempotent and freshly formatted content checks clean — proved for
//! carriage-return-free content under a Unix or auto-resolved ending,
//! outside the one tail shape on which the two rules interact.

use crate::line::{contains_crlf, resolved_ending, unix_ending, LineEnding};
use crate::text::{ends_with, is_ws, join, lines_of, segs, strip_cr, strip_trailing_runs, trim_end};
use vstd::prelude::*;

verus! {

/// Whether `s` contains no occurrence of the byte `b`.
pub open spec fn free_of(s: Seq<u8>, b: u8) -> bool {
    forall|i: int| 0 <= i < s.len() ==> s[i] != b
}

/// Whether `s` contains no carriage return.
pub open spec fn no_cr(s: Seq<u8>) -> bool {
    free_of(s, 13u8)
}

/// Content without a carriage return resolves to the Unix ending under
/// any policy but the fixed Windows one.
pub proof fn lemma_no_cr_resolves_unix(policy: LineEnding, s: Seq<u8>)
    requires
        no_cr(s),
        policy != LineEnding::Windows,
    ensures
        resolved_ending(policy, s) == unix_ending(),
{
    assert(!contains_crlf(s));
}

/// A sequence ends with the Unix ending exactly when its last byte is a
/// line feed.
pub proof fn lemma_ends_with_lf(s: Seq<u8>)
    ensures
        ends_with(s, unix_ending()) <==> (s.len() >= 1 && s.last() == 10u8),
{
    assert(unix_ending().len() == 1);
    if s.len() >= 1 {
        assert(s.subrange(s.len() - 1, s.len() as int) =~= seq![s.last()]);
        if s.last() == 10u8 {
            assert(s.subrange(s.len() - 1, s.len() as int) =~= unix_ending());
        }
        if ends_with(s, unix_ending()) {
            assert(seq![s.last()][0] == unix_ending()[0]);
        }
    }
}

/// A sequence ends with a doubled Unix ending exactly when its last two
/// bytes are line feeds.
pub proof fn lemma_ends_with_double_lf(s: Seq<u8>)
    ensures
        ends_with(s, unix_ending() + unix_ending()) <==> (s.len() >= 2 && s[s.len() - 1] == 10u8
            && s[s.len() - 2] == 10u8),
{
    assert((unix_ending() + unix_ending()).len() == 2);
    if s.len() >= 2 {
        assert(s.subrange(s.len() - 2, s.len() as int) =~= seq![s[s.len() - 2], s[s.len() - 1]]);
        if s[s.len() - 1] == 10u8 && s[s.len() - 2] == 10u8 {
            assert(s.subrange(s.len() - 2, s.len() as int) =~= unix_ending() + unix_ending());
        } else {
            assert(s.subrange(s.len() - 2, s.len() as int) != unix_ending() + unix_ending());
        }
    }
}

/// No segment of a cut contains the separator.
pub proof fn lemma_segs_elems_free(s: Seq<u8>, sep: u8)
    ensures
        forall|k: int|
            0 <= k < segs(s, sep).len() ==> free_of(#[trigger] segs(s, sep)[k], sep),
    decreases s.len(),
{
    if s.len() > 0 {
        lemma_segs_elems_free(s.drop_last(), sep);
        crate::text::lemma_segs_len(s.drop_last(), sep);
        let g = segs(s.drop_last(), sep);
        if s.last() == sep {
            assert forall|k: int| 0 <= k < segs(s, sep).len() implies free_of(
                #[trigger] segs(s, sep)[k],
                sep,
            ) by {
                if k < g.len() {
                    assert(segs(s, sep)[k] == g[k]);
                }
            }
        } else {
            assert forall|k: int| 0 <= k < segs(s, sep).len() implies free_of(
                #[trigger] segs(s, sep)[k],
                sep,
            ) by {
                if k < g.len() - 1 {
                    assert(segs(s, sep)[k] == g[k]);
                } else {
                    assert(segs(s, sep)[k] == g.last().push(s.last()));
                }
            }
        }
    }
}

/// A byte absent from the content is absent from every segment.
pub proof fn lemma_segs_elems_exclude(s: Seq<u8>, sep: u8, b: u8)
    requires
        free_of(s, b),
    ensures
        forall|k: int| 0 <= k < segs(s, sep).len() ==> free_of(#[trigger] segs(s, sep)[k], b),
    decreases s.len(),
{
    if s.len() > 0 {
        assert(free_of(s.drop_last(), b)) by {
            assert(forall|i: int| 0 <= i < s.len() - 1 ==> s.drop_last()[i] == #[trigger] s[i]);
        }
        lemma_segs_elems_exclude(s.drop_last(), sep, b);
        crate::text::lemma_segs_len(s.drop_last(), sep);
        let g = segs(s.drop_last(), sep);
        assert forall|k: int| 0 <= k < segs(s, sep).len() implies free_of(
            #[trigger] segs(s, sep)[k],
            b,
        ) by {
            if s.last() == sep {
                if k < g.len() {
                    assert(segs(s, sep)[k] == g[k]);
                }
            } else {
                if k < g.len() - 1 {
                    assert(segs(s, sep)[k] == g[k]);
                } else {
                    assert(segs(s, sep)[k] == g.last().push(s.last()));
                    assert(s.last() != b);
                }
            }
        }
    }
}

/// Content that does not end with the separator has a non-empty final
/// segment.
pub proof fn lemma_segs_last_nonempty(s: Seq<u8>, sep: u8)
    requires
        s.len() > 0,
        s.last() != sep,
    ensures
        segs(s, sep).last().len() > 0,
{
    crate::text::lemma_segs_len(s.drop_last(), sep);
    crate::text::lemma_segs_len(s, sep);
    let g = segs(s.drop_last(), sep);
    assert(segs(s, sep).last() == g.last().push(s.last()));
}

/// Appending separator-free bytes only extends the final segment.
pub proof fn lemma_segs_append_free(a: Seq<u8>, b: Seq<u8>, sep: u8)
    requires
        free_of(b, sep),
    ensures
        segs(a + b, sep) == segs(a, sep).drop_last().push(segs(a, sep).last() + b),
    decreases b.len(),
{
    crate::text::lemma_segs_len(a, sep);
    if b.len() == 0 {
        assert(a + b =~= a);
        assert(segs(a, sep).drop_last().push(segs(a, sep).last() + b) =~= segs(a, sep));
    } else {
        let b0 = b.drop_last();
        let c = b.last();
        assert(free_of(b0, sep));
        lemma_segs_append_free(a, b0, sep);
        assert(a + b =~= (a + b0).push(c));
        let g = segs(a + b0, sep);
        assert(segs((a + b0).push(c), sep) == g.update(g.len() - 1, g.last().push(c))) by {
            assert((a + b0).push(c).drop_last() =~= a + b0);
        }
        assert(g.update(g.len() - 1, g.last().push(c)) =~= segs(a, sep).drop_last().push(
            segs(a, sep).last() + b,
        )) by {
            assert(g.last().push(c) =~= segs(a, sep).last() + b);
        }
    }
}

/// Separator-free content is a single segment.
pub proof fn lemma_segs_of_free(x: Seq<u8>, sep: u8)
    requires
        free_of(x, sep),
    ensures
        segs(x, sep) == seq![x],
{
    lemma_segs_append_free(Seq::<u8>::empty(), x, sep);
    assert(Seq::<u8>::empty() + x =~= x);
    assert(segs(Seq::<u8>::empty(), sep).drop_last().push(
        segs(Seq::<u8>::empty(), sep).last() + x,
    ) =~= seq![x]) by {
        assert(segs(Seq::<u8>::empty(), sep).last() + x =~= x);
    }
}

/// Appending a separator closes the final segment and opens an empty one.
pub proof fn lemma_segs_push_sep(a: Seq<u8>, sep: u8)
    ensures
        segs(a + seq![sep], sep) == segs(a, sep).push(Seq::<u8>::empty()),
{
    assert(a + seq![sep] =~= a.push(sep));
    assert(a.push(sep).drop_last() =~= a);
}

/// Joining the segments of `s` with the separator gives back `s`.
pub proof fn lemma_join_segs(s: Seq<u8>, sep: u8)
    ensures
        join(segs(s, sep), seq![sep]) == s,
    decreases s.len(),
{
    if s.len() == 0 {
        assert(join(segs(s, sep), seq![sep]) =~= s);
    } else {
        let t = s.drop_last();
        let c = s.last();
        lemma_join_segs(t, sep);
        crate::text::lemma_segs_len(t, sep);
        let g = segs(t, sep);
        assert(s =~= t.push(c));
        assert(t.push(c).drop_last() =~= t);
        if c == sep {
            assert(segs(s, sep) == g.push(Seq::<u8>::empty()));
            assert(g.push(Seq::<u8>::empty()).drop_last() =~= g);
            assert(join(g.push(Seq::<u8>::empty()), seq![sep]) =~= join(g, seq![sep]) + seq![sep]
                + Seq::<u8>::empty());
            assert(join(g, seq![sep]) + seq![sep] + Seq::<u8>::empty() =~= t.push(c));
        } else {
            let u = g.update(g.len() - 1, g.last().push(c));
            assert(segs(s, sep) == u);
            if g.len() == 1 {
                assert(join(u, seq![sep]) == u[0]);
                assert(u[0] =~= join(g, seq![sep]).push(c));
            } else {
                assert(u.drop_last() =~= g.drop_last());
                assert(join(u, seq![sep]) =~= join(g.drop_last(), seq![sep]) + seq![sep]
                    + g.last().push(c));
                assert(join(g.drop_last(), seq![sep]) + seq![sep] + g.last().push(c) =~= (join(
                    g.drop_last(),
                    seq![sep],
                ) + seq![sep] + g.last()).push(c));
            }
            assert(join(u, seq![sep]) =~= t.push(c));
        }
    }
}

/// Cutting a separator-terminated join of separator-free pieces gives
/// back the pieces, plus the final empty segment.
pub proof fn lemma_segs_join_free(tl: Seq<Seq<u8>>, sep: u8)
    requires
        tl.len() >= 1,
        forall|k: int| 0 <= k < tl.len() ==> free_of(#[trigger] tl[k], sep),
    ensures
        segs(join(tl, seq![sep]) + seq![sep], sep) == tl.push(Seq::<u8>::empty()),
    decreases tl.len(),
{
    if tl.len() == 1 {
        assert(join(tl, seq![sep]) == tl[0]);
        lemma_segs_push_sep(tl[0], sep);
        lemma_segs_of_free(tl[0], sep);
        assert(seq![tl[0]].push(Seq::<u8>::empty()) =~= tl.push(Seq::<u8>::empty()));
    } else {
        let u = tl.drop_last();
        let y = tl.last();
        assert(forall|k: int| 0 <= k < u.len() ==> free_of(#[trigger] u[k], sep));
        lemma_segs_join_free(u, sep);
        let a = join(u, seq![sep]) + seq![sep];
        lemma_segs_append_free(a, y, sep);
        assert(segs(a + y, sep) =~= u.push(y)) by {
            assert(segs(a, sep).drop_last() =~= u);
            assert(segs(a, sep).last() + y =~= y);
        }
        lemma_segs_push_sep(a + y, sep);
        assert(a + y =~= join(tl, seq![sep]));
        assert(u.push(y).push(Seq::<u8>::empty()) =~= tl.push(Seq::<u8>::empty()));
    }
}

/// A trimmed line does not end in whitespace.
pub proof fn lemma_trim_last(l: Seq<u8>)
    ensures
        trim_end(l).len() == 0 || !is_ws(trim_end(l).last()),
    decreases l.len(),
{
    if l.len() > 0 && is_ws(l.last()) {
        lemma_trim_last(l.drop_last());
    }
}

/// Trimming is idempotent.
pub proof fn lemma_trim_idempotent(l: Seq<u8>)
    ensures
        trim_end(trim_end(l)) == trim_end(l),
{
    lemma_trim_last(l);
}

/// A trimmed line is a prefix of the line.
pub proof fn lemma_trim_prefix(l: Seq<u8>)
    ensures
        trim_end(l).len() <= l.len(),
        trim_end(l) == l.take(trim_end(l).len() as int),
    decreases l.len(),
{
    if l.len() > 0 && is_ws(l.last()) {
        lemma_trim_prefix(l.drop_last());
        assert(l.drop_last().take(trim_end(l).len() as int) =~= l.take(
            trim_end(l).len() as int,
        ));
    } else {
        assert(l.take(l.len() as int) =~= l);
    }
}

/// A byte absent from a line is absent from its trimmed form.
pub proof fn lemma_trim_free(l: Seq<u8>, b: u8)
    requires
        free_of(l, b),
    ensures
        free_of(trim_end(l), b),
{
    lemma_trim_prefix(l);
    assert forall|i: int| 0 <= i < trim_end(l).len() implies trim_end(l)[i] != b by {
        assert(trim_end(l)[i] == l[i]);
    }
}

/// A byte absent from every piece and from the separator is absent from
/// their join.
pub proof fn lemma_join_excludes(ls: Seq<Seq<u8>>, e: Seq<u8>, b: u8)
    requires
        forall|k: int| 0 <= k < ls.len() ==> free_of(#[trigger] ls[k], b),
        free_of(e, b),
    ensures
        free_of(join(ls, e), b),
    decreases ls.len(),
{
    if ls.len() <= 1 {
    } else {
        assert(forall|k: int|
            0 <= k < ls.drop_last().len() ==> free_of(#[trigger] ls.drop_last()[k], b));
        lemma_join_excludes(ls.drop_last(), e, b);
        let j = join(ls.drop_last(), e) + e + ls.last();
        assert(free_of(ls.last(), b));
        assert forall|i: int| 0 <= i < j.len() implies j[i] != b by {}
    }
}

/// A join ends with the last byte of its non-empty final piece.
pub proof fn lemma_join_last(tl: Seq<Seq<u8>>, e: Seq<u8>)
    requires
        tl.len() >= 1,
        tl.last().len() > 0,
    ensures
        join(tl, e).len() > 0,
        join(tl, e).last() == tl.last().last(),
{
    if tl.len() == 1 {
    } else {
        let j = join(tl.drop_last(), e) + e + tl.last();
        assert(j.last() == tl.last().last());
    }
}

/// Lines of carriage-return-free, line-feed-terminated content: the
/// segments of the content short of its final line feed.
pub proof fn lemma_lines_terminated(s: Seq<u8>)
    requires
        no_cr(s),
        s.len() > 0,
        s.last() == 10u8,
    ensures
        lines_of(s) == segs(s.drop_last(), 10u8),
{
    let g0 = segs(s.drop_last(), 10u8);
    crate::text::lemma_segs_len(s.drop_last(), 10u8);
    assert(segs(s, 10u8) == g0.push(Seq::<u8>::empty()));
    assert(free_of(s.drop_last(), 13u8)) by {
        assert(forall|i: int| 0 <= i < s.len() - 1 ==> s.drop_last()[i] == #[trigger] s[i]);
    }
    lemma_segs_elems_exclude(s.drop_last(), 10u8, 13u8);
    assert(g0.push(Seq::<u8>::empty()).drop_last() =~= g0);
    assert(lines_of(s) =~= g0) by {
        assert forall|k: int| 0 <= k < g0.len() implies g0.map_values(|l: Seq<u8>| strip_cr(l))[k]
            == g0[k] by {
            assert(free_of(g0[k], 13u8));
            assert(strip_cr(g0[k]) == g0[k]);
        }
    }
}

/// Lines of carriage-return-free content with no final terminator: the
/// segments themselves.
pub proof fn lemma_lines_unterminated(s: Seq<u8>)
    requires
        no_cr(s),
        s.len() > 0,
        s.last() != 10u8,
    ensures
        lines_of(s) == segs(s, 10u8),
{
    let g = segs(s, 10u8);
    crate::text::lemma_segs_len(s, 10u8);
    lemma_segs_last_nonempty(s, 10u8);
    lemma_segs_elems_exclude(s, 10u8, 13u8);
    assert(lines_of(s) =~= g) by {
        assert forall|k: int|
            0 <= k < g.drop_last().len() implies g.drop_last().map_values(
            |l: Seq<u8>| strip_cr(l),
        )[k] == g[k] by {
            assert(g.drop_last()[k] == g[k]);
            assert(free_of(g[k], 13u8));
            assert(strip_cr(g[k]) == g[k]);
        }
    }
}

/// Stripping trailing line-feed runs leaves a prefix that does not end
/// with a line feed.
pub proof fn lemma_strip_lf(s: Seq<u8>)
    ensures
        strip_trailing_runs(s, unix_ending()).len() <= s.len(),
        strip_trailing_runs(s, unix_ending()) == s.take(
            strip_trailing_runs(s, unix_ending()).len() as int,
        ),
        strip_trailing_runs(s, unix_ending()).len() == 0 || strip_trailing_runs(
            s,
            unix_ending(),
        ).last() != 10u8,
    decreases s.len(),
{
    lemma_ends_with_lf(s);
    if ends_with(s, unix_ending()) {
        let t = s.subrange(0, s.len() - 1);
        lemma_strip_lf(t);
        let r = strip_trailing_runs(s, unix_ending());
        assert(r == strip_trailing_runs(t, unix_ending()));
        assert(t.take(r.len() as int) =~= s.take(r.len() as int));
    } else {
        assert(s.take(s.len() as int) =~= s);
    }
}

/// Two sequences that are equal after pushing the same element were
/// equal before.
pub proof fn lemma_push_cancel(a: Seq<Seq<u8>>, b: Seq<Seq<u8>>, x: Seq<u8>)
    requires
        a.push(x) == b.push(x),
    ensures
        a == b,
{
    assert(a.len() == b.len()) by {
        assert(a.push(x).len() == a.len() + 1);
        assert(b.push(x).len() == b.len() + 1);
    }
    assert forall|q: int| 0 <= q < a.len() implies a[q] == b[q] by {
        assert(a.push(x)[q] == a[q]);
        assert(b.push(x)[q] == b[q]);
    }
    assert(a =~= b);
}

/// Fully formatted content: empty, or terminated by exactly one line
/// feed, with every logical line already free of trailing whitespace.
pub open spec fn normal(s: Seq<u8>) -> bool {
    s.len() == 0 || (s.last() == 10u8 && (s.len() < 2 || s[s.len() - 2] != 10u8) && (forall|
        k: int,
    |
        0 <= k < lines_of(s).len() ==> trim_end(#[trigger] lines_of(s)[k]) == lines_of(s)[k]))
}

/// Whether the two rules leave each other's work alone on the tail of
/// `s`: once the trailing line-feed run is stripped, a whitespace-only
/// final line directly after a line that trims to nothing would collapse
/// into a doubled terminator when rejoined.
pub open spec fn independent_tail(s: Seq<u8>) -> bool {
    let ls = lines_of(strip_trailing_runs(s, unix_ending()));
    ls.len() < 2 || trim_end(ls[ls.len() - 1]).len() > 0 || trim_end(ls[ls.len() - 2]).len() > 0
}

/// The line-ending rule returns fully formatted content unchanged.
pub proof fn lemma_le_format_normal_id(policy: LineEnding, s: Seq<u8>)
    requires
        no_cr(s),
        normal(s),
        policy != LineEnding::Windows,
    ensures
        crate::line_end_lint::line_end_formatted(policy, s) == s,
{
    if s.len() > 0 {
        lemma_no_cr_resolves_unix(policy, s);
        lemma_ends_with_lf(s);
        let t = s.subrange(0, s.len() - 1);
        lemma_ends_with_lf(t);
        if s.len() >= 2 {
            assert(t.last() == s[s.len() - 2]);
        }
        assert(!ends_with(t, unix_ending()));
        assert(strip_trailing_runs(s, unix_ending()) == strip_trailing_runs(t, unix_ending()));
        assert(strip_trailing_runs(t, unix_ending()) == t);
        assert(t + unix_ending() =~= s);
    }
}

/// The trailing-whitespace rule returns fully formatted content
/// unchanged.
pub proof fn lemma_tw_format_normal_id(policy: LineEnding, s: Seq<u8>)
    requires
        no_cr(s),
        normal(s),
        policy != LineEnding::Windows,
    ensures
        crate::trailing_ws_lint::trailing_ws_formatted(policy, s) == s,
{
    if s.len() > 0 {
        lemma_no_cr_resolves_unix(policy, s);
        lemma_lines_terminated(s);
        let y = s.drop_last();
        let ls = lines_of(s);
        assert(ls == segs(y, 10u8));
        assert(ls.map_values(|l: Seq<u8>| trim_end(l)) =~= ls) by {
            assert(forall|k: int|
                0 <= k < ls.len() ==> trim_end(#[trigger] ls[k]) == ls[k]);
        }
        lemma_join_segs(y, 10u8);
        assert(unix_ending() =~= seq![10u8]);
        let j = join(ls.map_values(|l: Seq<u8>| trim_end(l)), unix_ending());
        assert(j == y);
        lemma_ends_with_lf(y);
        if s.len() >= 2 {
            assert(y.last() == s[s.len() - 2]);
        }
        assert(!ends_with(y, unix_ending()));
        assert(y + unix_ending() =~= s);
    }
}

/// No trailing-whitespace issues arise among lines none of which is
/// flagged.
pub proof fn lemma_tw_upto_clean(filename: Seq<char>, ls: Seq<Seq<u8>>, k: int)
    requires
        forall|j: int| 0 <= j < k ==> !crate::trailing_ws_lint::ws_flagged(#[trigger] ls[j]),
    ensures
        crate::trailing_ws_lint::trailing_ws_issues_upto(filename, ls, k).len() == 0,
    decreases k,
{
    if k > 0 {
        lemma_tw_upto_clean(filename, ls, k - 1);
    }
}

/// Neither rule reports an issue on fully formatted content.
pub proof fn lemma_checks_clean_normal(policy: LineEnding, filename: Seq<char>, s: Seq<u8>)
    requires
        no_cr(s),
        normal(s),
        policy != LineEnding::Windows,
    ensures
        crate::line_end_lint::line_end_issues(policy, filename, s).len() == 0,
        crate::trailing_ws_lint::trailing_ws_issues(filename, s).len() == 0,
{
    let ls = lines_of(s);
    if s.len() == 0 {
        assert(segs(s, 10u8) =~= seq![Seq::<u8>::empty()]);
        assert(ls.len() == 0);
        lemma_tw_upto_clean(filename, ls, 0);
    } else {
        lemma_no_cr_resolves_unix(policy, s);
        lemma_ends_with_lf(s);
        lemma_ends_with_double_lf(s);
        assert(crate::line_end_lint::line_end_issues(policy, filename, s).len() == 0);
        lemma_tw_upto_clean(filename, ls, ls.len() as int);
    }
}

/// Formatting with both rules in order yields fully formatted,
/// carriage-return-free content.
pub proof fn lemma_format_normal(policy: LineEnding, s: Seq<u8>)
    requires
        no_cr(s),
        independent_tail(s),
        policy != LineEnding::Windows,
    ensures
        normal(
            crate::trailing_ws_lint::trailing_ws_formatted(
                policy,
                crate::line_end_lint::line_end_formatted(policy, s),
            ),
        ),
        no_cr(
            crate::trailing_ws_lint::trailing_ws_formatted(
                policy,
                crate::line_end_lint::line_end_formatted(policy, s),
            ),
        ),
{
    if s.len() == 0 {
        assert(crate::line_end_lint::line_end_formatted(policy, s) == s);
        assert(crate::trailing_ws_lint::trailing_ws_formatted(policy, s) == s);
    } else {
        lemma_no_cr_resolves_unix(policy, s);
        lemma_strip_lf(s);
        let p = strip_trailing_runs(s, unix_ending());
        assert(no_cr(p)) by {
            assert(forall|i: int| 0 <= i < p.len() ==> p[i] == #[trigger] s[i]);
        }
        let x = crate::line_end_lint::line_end_formatted(policy, s);
        assert(x == p + unix_ending());
        assert(no_cr(x)) by {
            assert(forall|i: int|
                p.len() <= i < x.len() ==> x[i] == unix_ending()[i - p.len()]);
        }
        assert(x.len() > 0 && x.last() == 10u8);
        lemma_no_cr_resolves_unix(policy, x);
        lemma_lines_terminated(x);
        assert(x.drop_last() =~= p);
        let ls = segs(p, 10u8);
        assert(lines_of(x) == ls);
        crate::text::lemma_segs_len(p, 10u8);
        lemma_segs_elems_free(p, 10u8);
        lemma_segs_elems_exclude(p, 10u8, 13u8);
        let k = ls.len() as int;
        let tl = ls.map_values(|l: Seq<u8>| trim_end(l));
        assert forall|q: int| 0 <= q < tl.len() implies free_of(#[trigger] tl[q], 10u8) && free_of(
            tl[q],
            13u8,
        ) && trim_end(tl[q]) == tl[q] by {
            assert(tl[q] == trim_end(ls[q]));
            lemma_trim_free(ls[q], 10u8);
            lemma_trim_free(ls[q], 13u8);
            lemma_trim_idempotent(ls[q]);
        }
        assert(free_of(unix_ending(), 13u8));
        let j = join(tl, unix_ending());
        let r = crate::trailing_ws_lint::trailing_ws_formatted(policy, x);
        if trim_end(ls[k - 1]).len() > 0 {
            assert(tl.last() == trim_end(ls[k - 1]));
            lemma_join_last(tl, unix_ending());
            assert(j.last() == tl.last().last());
            assert(j.last() != 10u8);
            lemma_ends_with_lf(j);
            assert(r == j + unix_ending());
            lemma_join_excludes(tl, unix_ending(), 13u8);
            assert(no_cr(r)) by {
                assert(forall|i: int| 0 <= i < j.len() ==> r[i] == #[trigger] j[i]);
                assert(r[r.len() - 1] == 10u8);
            }
            lemma_segs_join_free(tl, 10u8);
            assert(unix_ending() =~= seq![10u8]);
            lemma_segs_push_sep(j, 10u8);
            assert(segs(j, 10u8).push(Seq::<u8>::empty()) == tl.push(Seq::<u8>::empty())) by {
                assert(j == join(tl, seq![10u8]));
                assert(j + seq![10u8] == join(tl, seq![10u8]) + seq![10u8]);
            }
            lemma_push_cancel(segs(j, 10u8), tl, Seq::<u8>::empty());
            assert(r.len() > 0 && r.last() == 10u8);
            lemma_lines_terminated(r);
            assert(r.drop_last() =~= j);
            assert(lines_of(r) == tl);
            assert(r.len() >= 2 ==> r[r.len() - 2] != 10u8) by {
                if j.len() > 0 {
                    assert(r[r.len() - 2] == j.last());
                }
            }
            assert(normal(r));
        } else if k == 1 {
            assert(j == tl[0]);
            assert(tl[0] == trim_end(ls[0]));
            assert(j.len() == 0);
            lemma_ends_with_lf(j);
            assert(r == j + unix_ending());
            assert(r =~= unix_ending());
            assert(no_cr(r));
            assert(r.last() == 10u8);
            lemma_lines_terminated(r);
            assert(r.drop_last() =~= Seq::<u8>::empty());
            assert(segs(Seq::<u8>::empty(), 10u8) =~= seq![Seq::<u8>::empty()]);
            assert(lines_of(r) =~= seq![Seq::<u8>::empty()]);
            assert(trim_end(Seq::<u8>::empty()) == Seq::<u8>::empty());
            assert(normal(r));
        } else {
            assert(p.len() > 0) by {
                if p.len() == 0 {
                    assert(segs(p, 10u8) =~= seq![Seq::<u8>::empty()]);
                }
            }
            lemma_lines_unterminated(p);
            assert(lines_of(p) == ls);
            assert(trim_end(ls[k - 2]).len() > 0);
            let u = tl.drop_last();
            assert(j == join(u, unix_ending()) + unix_ending() + tl.last());
            assert(tl.last() == trim_end(ls[k - 1]));
            assert(tl.last() =~= Seq::<u8>::empty());
            let j0 = join(u, unix_ending());
            assert(j =~= j0 + unix_ending());
            assert(j.last() == 10u8);
            lemma_ends_with_lf(j);
            assert(r == j);
            assert(u.last() == tl[k - 2]);
            assert(u.last().len() > 0);
            lemma_join_last(u, unix_ending());
            assert(j0.last() == u.last().last());
            assert(forall|q: int| 0 <= q < u.len() ==> u[q] == #[trigger] tl[q]);
            assert(j0.last() != 10u8);
            lemma_segs_join_free(u, 10u8);
            assert(unix_ending() =~= seq![10u8]);
            lemma_segs_push_sep(j0, 10u8);
            assert(segs(j0, 10u8).push(Seq::<u8>::empty()) == u.push(Seq::<u8>::empty())) by {
                assert(j0 == join(u, seq![10u8]));
                assert(j0 + seq![10u8] == join(u, seq![10u8]) + seq![10u8]);
            }
            lemma_push_cancel(segs(j0, 10u8), u, Seq::<u8>::empty());
            lemma_join_excludes(u, unix_ending(), 13u8);
            assert(no_cr(r)) by {
                assert(forall|i: int| 0 <= i < j0.len() ==> r[i] == #[trigger] j0[i]);
                assert(r[r.len() - 1] == 10u8);
            }
            assert(r.len() > 0 && r.last() == 10u8);
            lemma_lines_terminated(r);
            assert(r.drop_last() =~= j0);
            assert(lines_of(r) == u);
            assert(r.len() >= 2 ==> r[r.len() - 2] != 10u8) by {
                if j0.len() > 0 {
                    assert(r[r.len() - 2] == j0.last());
                }
            }
            assert(normal(r));
        }
    }
}

/// Non-empty content has at least one logical line.
pub proof fn lemma_lines_nonempty(s: Seq<u8>)
    requires
        s.len() > 0,
    ensures
        lines_of(s).len() >= 1,
{
    crate::text::lemma_segs_len(s.drop_last(), 10u8);
    crate::text::lemma_segs_len(s, 10u8);
    if s.last() != 10u8 {
        lemma_segs_last_nonempty(s, 10u8);
    }
}

/// No logical line contains a line feed.
pub proof fn lemma_lines_elems_free(s: Seq<u8>)
    ensures
        forall|k: int| 0 <= k < lines_of(s).len() ==> free_of(#[trigger] lines_of(s)[k], 10u8),
{
    lemma_segs_elems_free(s, 10u8);
    crate::text::lemma_segs_len(s, 10u8);
    let g = segs(s, 10u8);
    assert forall|k: int| 0 <= k < lines_of(s).len() implies free_of(
        #[trigger] lines_of(s)[k],
        10u8,
    ) by {
        if k < g.len() - 1 {
            assert(lines_of(s)[k] == strip_cr(g[k]));
            assert(free_of(g[k], 10u8));
            assert(forall|i: int|
                0 <= i < strip_cr(g[k]).len() ==> strip_cr(g[k])[i] == #[trigger] g[k][i]);
        } else {
            assert(lines_of(s)[k] == g.last());
        }
    }
}

/// A sequence ends with the Windows ending exactly when its last two
/// bytes are a carriage return and a line feed.
pub proof fn lemma_ends_with_crlf(s: Seq<u8>)
    ensures
        ends_with(s, crate::line::windows_ending()) <==> (s.len() >= 2 && s[s.len() - 2] == 13u8
            && s[s.len() - 1] == 10u8),
{
    let e = crate::line::windows_ending();
    assert(e.len() == 2);
    if s.len() >= 2 {
        assert(s.subrange(s.len() - 2, s.len() as int) =~= seq![s[s.len() - 2], s[s.len() - 1]]);
        if s[s.len() - 2] == 13u8 && s[s.len() - 1] == 10u8 {
            assert(s.subrange(s.len() - 2, s.len() as int) =~= e);
        } else {
            assert(s.subrange(s.len() - 2, s.len() as int) != e);
        }
    }
}

/// Cutting a Windows-terminated join of line-feed-free pieces: each
/// piece reappears with the carriage return attached, then one empty
/// segment.
pub proof fn lemma_segs_join_crlf(tl: Seq<Seq<u8>>)
    requires
        tl.len() >= 1,
        forall|q: int| 0 <= q < tl.len() ==> free_of(#[trigger] tl[q], 10u8),
    ensures
        segs(join(tl, crate::line::windows_ending()) + crate::line::windows_ending(), 10u8).len()
            == tl.len() + 1,
        forall|q: int|
            0 <= q < tl.len() ==> segs(
                join(tl, crate::line::windows_ending()) + crate::line::windows_ending(),
                10u8,
            )[q] == #[trigger] tl[q].push(13u8),
        segs(join(tl, crate::line::windows_ending()) + crate::line::windows_ending(), 10u8).last()
            == Seq::<u8>::empty(),
    decreases tl.len(),
{
    let e = crate::line::windows_ending();
    if tl.len() == 1 {
        assert(join(tl, e) == tl[0]);
        assert(free_of(tl[0].push(13u8), 10u8)) by {
            assert(forall|i: int|
                0 <= i < tl[0].len() ==> tl[0].push(13u8)[i] == #[trigger] tl[0][i]);
        }
        lemma_segs_of_free(tl[0].push(13u8), 10u8);
        lemma_segs_push_sep(tl[0].push(13u8), 10u8);
        assert(tl[0].push(13u8) + seq![10u8] =~= tl[0] + e);
        assert(segs(tl[0] + e, 10u8) == seq![tl[0].push(13u8)].push(Seq::<u8>::empty()));
    } else {
        let u = tl.drop_last();
        let y = tl.last();
        assert(forall|q: int| 0 <= q < u.len() ==> free_of(#[trigger] u[q], 10u8));
        lemma_segs_join_crlf(u);
        let a = join(u, e) + e;
        let ga = segs(a, 10u8);
        let y13 = y.push(13u8);
        assert(free_of(y13, 10u8)) by {
            assert(forall|i: int| 0 <= i < y.len() ==> y13[i] == #[trigger] y[i]);
        }
        lemma_segs_append_free(a, y13, 10u8);
        let gb = segs(a + y13, 10u8);
        assert(gb == ga.drop_last().push(ga.last() + y13));
        assert(ga.last() + y13 =~= y13);
        lemma_segs_push_sep(a + y13, 10u8);
        assert(join(tl, e) + e =~= (a + y13) + seq![10u8]) by {
            assert(join(tl, e) == join(u, e) + e + y);
        }
        let g = segs(join(tl, e) + e, 10u8);
        assert(g == gb.push(Seq::<u8>::empty()));
        assert(g.len() == tl.len() + 1);
        assert forall|q: int| 0 <= q < tl.len() implies g[q] == #[trigger] tl[q].push(13u8) by {
            if q < u.len() {
                assert(g[q] == gb[q]);
                assert(gb[q] == ga.drop_last()[q]);
                assert(ga.drop_last()[q] == ga[q]);
                assert(ga[q] == u[q].push(13u8));
            } else {
                assert(g[q] == gb[q]);
                assert(gb[q] == y13);
            }
        }
    }
}

/// The logical lines of a terminator-joined, terminator-closed list of
/// clean pieces are exactly the pieces.
pub proof fn lemma_lines_of_terminated_join(tl: Seq<Seq<u8>>, e: Seq<u8>)
    requires
        tl.len() >= 1,
        forall|q: int|
            0 <= q < tl.len() ==> free_of(#[trigger] tl[q], 10u8) && (tl[q].len() == 0
                || tl[q].last() != 13u8),
        e == unix_ending() || e == crate::line::windows_ending(),
    ensures
        lines_of(join(tl, e) + e) == tl,
{
    let r = join(tl, e) + e;
    let g = segs(r, 10u8);
    if e == unix_ending() {
        lemma_segs_join_free(tl, 10u8);
        assert(r =~= join(tl, seq![10u8]) + seq![10u8]);
        assert(g == tl.push(Seq::<u8>::empty()));
        assert(g.last().len() == 0);
        assert(g.drop_last() =~= tl);
        assert(lines_of(r) =~= tl) by {
            assert forall|q: int|
                0 <= q < tl.len() implies g.drop_last().map_values(|l: Seq<u8>| strip_cr(l))[q]
                == #[trigger] tl[q] by {
                assert(strip_cr(tl[q]) == tl[q]);
            }
        }
    } else {
        lemma_segs_join_crlf(tl);
        assert(g.last().len() == 0);
        assert(lines_of(r) =~= tl) by {
            assert(g.drop_last().len() == tl.len());
            assert forall|q: int|
                0 <= q < tl.len() implies g.drop_last().map_values(|l: Seq<u8>| strip_cr(l))[q]
                == #[trigger] tl[q] by {
                assert(g.drop_last()[q] == g[q]);
                assert(g[q] == tl[q].push(13u8));
                assert(strip_cr(tl[q].push(13u8)) =~= tl[q]);
            }
        }
    }
}

/// Law: the trailing-whitespace rule resolves everything it flags. For
/// any content and any policy, no logical line of its format's output
/// carries trailing whitespace, and its own check of that output
/// reports nothing.
pub proof fn lemma_trailing_ws_self_clean(policy: LineEnding, filename: Seq<char>, s: Seq<u8>)
    ensures
        forall|k: int|
            0 <= k < lines_of(crate::trailing_ws_lint::trailing_ws_formatted(policy, s)).len()
                ==> trim_end(
                #[trigger] lines_of(crate::trailing_ws_lint::trailing_ws_formatted(policy, s))[k],
            ) == lines_of(crate::trailing_ws_lint::trailing_ws_formatted(policy, s))[k],
        crate::trailing_ws_lint::trailing_ws_issues(
            filename,
            crate::trailing_ws_lint::trailing_ws_formatted(policy, s),
        ).len() == 0,
{
    let r = crate::trailing_ws_lint::trailing_ws_formatted(policy, s);
    if s.len() == 0 {
        assert(segs(r, 10u8) =~= seq![Seq::<u8>::empty()]);
        assert(lines_of(r).len() == 0);
    } else {
        let e = resolved_ending(policy, s);
        assert(e == unix_ending() || e == crate::line::windows_ending());
        let ls = lines_of(s);
        let tl = ls.map_values(|l: Seq<u8>| trim_end(l));
        lemma_lines_nonempty(s);
        lemma_lines_elems_free(s);
        assert forall|q: int| 0 <= q < tl.len() implies free_of(#[trigger] tl[q], 10u8)
            && trim_end(tl[q]) == tl[q] && (tl[q].len() == 0 || !is_ws(tl[q].last())) by {
            assert(tl[q] == trim_end(ls[q]));
            lemma_trim_free(ls[q], 10u8);
            lemma_trim_idempotent(ls[q]);
            lemma_trim_last(ls[q]);
        }
        let j = join(tl, e);
        let k = tl.len() as int;
        if k >= 2 && tl.last().len() == 0 {
            let u = tl.drop_last();
            assert(j == join(u, e) + e + tl.last());
            assert(j =~= join(u, e) + e);
            assert(ends_with(j, e)) by {
                assert(j.subrange(j.len() - e.len(), j.len() as int) =~= e);
            }
            assert(r == j);
            assert(forall|q: int| 0 <= q < u.len() ==> u[q] == #[trigger] tl[q]);
            lemma_lines_of_terminated_join(u, e);
            assert(lines_of(r) == u);
        } else {
            assert(!ends_with(j, e)) by {
                if tl.last().len() == 0 {
                    assert(k == 1);
                    assert(j == tl[0]);
                    assert(j.len() == 0);
                } else {
                    lemma_join_last(tl, e);
                    assert(j.last() != 10u8);
                }
                lemma_ends_with_lf(j);
                lemma_ends_with_crlf(j);
            }
            assert(r == j + e);
            lemma_lines_of_terminated_join(tl, e);
            assert(lines_of(r) == tl);
        }
        lemma_tw_upto_clean(filename, lines_of(r), lines_of(r).len() as int);
    }
}

/// Stripping trailing runs of `e` leaves something that does not end
/// with `e`.
pub proof fn lemma_strip_no_suffix(s: Seq<u8>, e: Seq<u8>)
    requires
        e.len() > 0,
    ensures
        !ends_with(strip_trailing_runs(s, e), e),
    decreases s.len(),
{
    if ends_with(s, e) {
        lemma_strip_no_suffix(s.subrange(0, s.len() - e.len()), e);
    }
}

/// Appending `e` makes `e` a suffix.
pub proof fn lemma_ends_append(p: Seq<u8>, e: Seq<u8>)
    ensures
        ends_with(p + e, e),
{
    assert((p + e).subrange(p.len() as int, (p + e).len() as int) =~= e);
}

/// If `p + e` ends with `e` doubled, `p` already ended with `e`.
pub proof fn lemma_double_suffix(p: Seq<u8>, e: Seq<u8>)
    requires
        ends_with(p + e, e + e),
    ensures
        ends_with(p, e),
{
    let x = p + e;
    assert(p.subrange(p.len() - e.len(), p.len() as int) =~= e) by {
        assert forall|q: int| 0 <= q < e.len() implies p[p.len() - e.len() + q] == e[q] by {
            assert(x.subrange(x.len() - 2 * e.len(), x.len() as int)[q] == x[x.len() - 2 * e.len()
                + q]);
            assert((e + e)[q] == e[q]);
        }
    }
}

/// Law: the line-ending rule resolves everything it flags. For any
/// content and any policy — the auto-detected ending of the output
/// included — its check of its own format's output reports nothing.
pub proof fn lemma_line_end_self_clean(policy: LineEnding, filename: Seq<char>, s: Seq<u8>)
    ensures
        crate::line_end_lint::line_end_issues(
            policy,
            filename,
            crate::line_end_lint::line_end_formatted(policy, s),
        ).len() == 0,
{
    let x = crate::line_end_lint::line_end_formatted(policy, s);
    if s.len() > 0 {
        let e = resolved_ending(policy, s);
        let p = strip_trailing_runs(s, e);
        crate::line_end_lint::lemma_resolved_ending_nonempty(policy, s);
        lemma_strip_no_suffix(s, e);
        assert(x == p + e);
        let e2 = resolved_ending(policy, x);
        if e == crate::line::windows_ending() {
            assert(contains_crlf(x)) by {
                assert(x[p.len() as int] == 13u8 && x[p.len() as int + 1] == 10u8);
            }
            assert(e2 == e);
        }
        if e2 == e {
            lemma_ends_append(p, e);
            if ends_with(x, e + e) {
                lemma_double_suffix(p, e);
            }
        } else {
            assert(policy == LineEnding::Auto);
            assert(e == unix_ending() && e2 == crate::line::windows_ending());
            assert(!contains_crlf(s) && contains_crlf(x));
            lemma_strip_lf(s);
            assert(!contains_crlf(p)) by {
                if contains_crlf(p) {
                    let i = choose|i: int|
                        0 <= i && i + 2 <= p.len() && #[trigger] p[i] == 13u8 && p[i + 1] == 10u8;
                    assert(p[i] == s[i] && p[i + 1] == s[i + 1]);
                    assert(contains_crlf(s));
                }
            }
            assert(x.len() == p.len() + 1 && x.last() == 10u8);
            assert(p.len() >= 1 && p.last() == 13u8) by {
                let i = choose|i: int|
                    0 <= i && i + 2 <= x.len() && #[trigger] x[i] == 13u8 && x[i + 1] == 10u8;
                if i + 2 <= p.len() {
                    assert(p[i] == 13u8 && p[i + 1] == 10u8);
                    assert(contains_crlf(p));
                }
            }
            lemma_ends_with_crlf(x);
            assert(x[x.len() - 2] == 13u8);
            assert(ends_with(x, e2));
            if ends_with(x, e2 + e2) {
                assert((e2 + e2).len() == 4);
                assert(p.len() >= 3);
                assert(p[p.len() - 3] == 13u8 && p[p.len() - 2] == 10u8) by {
                    assert(x.subrange(x.len() - 4, x.len() as int)[0] == x[x.len() - 4]);
                    assert(x.subrange(x.len() - 4, x.len() as int)[1] == x[x.len() - 3]);
                    assert((e2 + e2)[0] == 13u8 && (e2 + e2)[1] == 10u8);
                }
                assert(contains_crlf(p));
            }
        }
    }
}

/// The default rule list: the line-ending rule, then the
/// trailing-whitespace rule.
pub open spec fn default_rules() -> Seq<crate::rule::Rule> {
    seq![
        crate::rule::Rule::LineEnd(crate::line_end_lint::LineEndLint {  }),
        crate::rule::Rule::TrailingWhitespace(crate::trailing_ws_lint::TrailingWhitespaceLint {  }),
    ]
}

/// With the default rules, the rule-set rewrite is the two rules'
/// composition, line-ending first.
pub proof fn lemma_default_formatted(policy: LineEnding, s: Seq<u8>)
    ensures
        crate::linter::formatted(default_rules(), policy, s)
            == crate::trailing_ws_lint::trailing_ws_formatted(
            policy,
            crate::line_end_lint::line_end_formatted(policy, s),
        ),
{
    let rules = default_rules();
    assert(crate::linter::formatted_upto(rules, policy, s, 0) == s);
    assert(crate::linter::formatted_upto(rules, policy, s, 1)
        == crate::line_end_lint::line_end_formatted(policy, s));
    assert(crate::linter::formatted_upto(rules, policy, s, 2)
        == crate::trailing_ws_lint::trailing_ws_formatted(
        policy,
        crate::line_end_lint::line_end_formatted(policy, s),
    ));
}

/// With the default rules, checking reports the line-ending issues
/// followed by the trailing-whitespace issues.
pub proof fn lemma_default_check(policy: LineEnding, filename: Seq<char>, s: Seq<u8>)
    ensures
        crate::linter::check_issues(default_rules(), policy, filename, s)
            == crate::line_end_lint::line_end_issues(policy, filename, s)
            + crate::trailing_ws_lint::trailing_ws_issues(filename, s),
{
    let rules = default_rules();
    assert(crate::linter::check_issues_upto(rules, policy, filename, s, 0)
        == Seq::<crate::issue::IssueModel>::empty());
    assert(rules[0] == crate::rule::Rule::LineEnd(crate::line_end_lint::LineEndLint {  }));
    assert(rules[1] == crate::rule::Rule::TrailingWhitespace(
        crate::trailing_ws_lint::TrailingWhitespaceLint {  },
    ));
    assert(crate::linter::check_issues_upto(rules, policy, filename, s, 1)
        =~= crate::line_end_lint::line_end_issues(policy, filename, s));
    assert(crate::linter::check_issues_upto(rules, policy, filename, s, 2)
        =~= crate::line_end_lint::line_end_issues(policy, filename, s)
        + crate::trailing_ws_lint::trailing_ws_issues(filename, s));
}

/// Law: formatting is idempotent. With the default rules, formatting
/// already-formatted content returns it byte-identically — for
/// carriage-return-free content under a Unix or auto-resolved ending,
/// whenever the two rules do not interact on the tail.
pub proof fn lemma_format_idempotent(policy: LineEnding, s: Seq<u8>)
    requires
        no_cr(s),
        independent_tail(s),
        policy != LineEnding::Windows,
    ensures
        crate::linter::formatted(
            default_rules(),
            policy,
            crate::linter::formatted(default_rules(), policy, s),
        ) == crate::linter::formatted(default_rules(), policy, s),
{
    lemma_default_formatted(policy, s);
    let r = crate::linter::formatted(default_rules(), policy, s);
    lemma_format_normal(policy, s);
    lemma_default_formatted(policy, r);
    lemma_le_format_normal_id(policy, r);
    lemma_tw_format_normal_id(policy, r);
}

/// Law: formatting fully resolves what checking flags. With the default
/// rules, freshly formatted content reports no issue from either rule —
/// under the same hypotheses as idempotence.
pub proof fn lemma_format_then_check_clean(policy: LineEnding, filename: Seq<char>, s: Seq<u8>)
    requires
        no_cr(s),
        independent_tail(s),
        policy != LineEnding::Windows,
    ensures
        crate::linter::check_issues(
            default_rules(),
            policy,
            filename,
            crate::linter::formatted(default_rules(), policy, s),
        ).len() == 0,
{
    lemma_default_formatted(policy, s);
    let r = crate::linter::formatted(default_rules(), policy, s);
    lemma_format_normal(policy, s);
    lemma_default_check(policy, filename, r);
    lemma_checks_clean_normal(policy, filename, r);
}

} // verus!
