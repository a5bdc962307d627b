//! Laws of the README injector.
//!
//! The central laws: rewriting an already rewritten README with the same
//! live block and the same stamp gives it back (a fixed point), for every
//! marked block without carriage return whose end line is no banner line;
//! with another stamp, a later rewrite sees nothing of the block content
//! and only refreshes the banner lines around the block; and a first
//! rewrite of a README without markers leaves exactly one live block.

use vstd::prelude::*;
use crate::production::report::{
    banner_marks, begin_mark, end_mark, forecast_header, has_marker_prefix, last_run_prefix,
    lemma_line_end, line_end, live_block, new_mark, next_level2, old_mark, readme_rewrite, replace_from,
    replace_lines, rule_sep, splice_live_block, strip_cr, swap_line, ReadmeError,
};
use crate::production::text::{first_occ, lemma_first_occ, lemma_first_occ_is, occurs_at, starts_with};

verus! {

broadcast use vstd::string::group_string_axioms;

/// `c` does not occur in `t`.
pub open spec fn free_of(t: Seq<char>, c: char) -> bool {
    forall|k: int| 0 <= k < t.len() ==> t[k] != c
}

/// A stamp that keeps the banner a single plain line.
pub open spec fn clean_stamp(stamp: Seq<char>) -> bool {
    &&& free_of(stamp, '\n')
    &&& free_of(stamp, '\r')
    &&& free_of(stamp, '<')
    &&& free_of(stamp, '#')
}

/// A line starts at index `i` of `t`.
pub open spec fn is_line_start(t: Seq<char>, i: int) -> bool {
    i == 0 || (0 < i <= t.len() && t[i - 1] == '\n')
}

/// No carriage return stands directly before a newline.
pub open spec fn cr_clean(t: Seq<char>) -> bool {
    forall|k: int| 0 < k < t.len() && #[trigger] t[k] == '\n' ==> t[k - 1] != '\r'
}

/// No doubled carriage return stands directly before a newline.
pub open spec fn no_double_cr(t: Seq<char>) -> bool {
    forall|k: int| 1 < k < t.len() && #[trigger] t[k] == '\n' ==> !(t[k - 1] == '\r' && t[k - 2] == '\r')
}

/// `t` is left unchanged by the banner replacement with line `nl`: no
/// carriage return before a newline, no trailing newline, and every line
/// that starts with a banner marker is exactly `nl`.
pub open spec fn settled(t: Seq<char>, nl: Seq<char>) -> bool {
    &&& cr_clean(t)
    &&& (t.len() == 0 || t.last() != '\n')
    &&& forall|i: int|
        #![trigger is_line_start(t, i)]
        is_line_start(t, i) && i < t.len() && has_marker_prefix(
            t.subrange(i, t.len() as int),
            banner_marks(),
        ) ==> starts_with(t.subrange(i, t.len() as int), nl) && (i + nl.len() == t.len() || t[i
            + nl.len()] == '\n')
}

/// A marked block: it begins with the begin marker and ends with the
/// end marker, and holds neither marker anywhere else.
pub open spec fn marked_block(n: Seq<char>) -> bool {
    &&& starts_with(n, begin_mark())
    &&& n.len() >= begin_mark().len() + end_mark().len()
    &&& n.subrange(n.len() - end_mark().len(), n.len() as int) == end_mark()
    &&& forall|j: int| 0 < j ==> !occurs_at(n, begin_mark(), j)
    &&& forall|j: int| 0 <= j < n.len() - end_mark().len() ==> !occurs_at(n, end_mark(), j)
}

/// The line of `n` that holds its end does not start with a banner
/// marker.
pub open spec fn end_line_plain(n: Seq<char>) -> bool {
    !has_marker_prefix(n.subrange(line_start_of(n, n.len() as int), n.len() as int), banner_marks())
}

/// A live block: a marked block without carriage return, none of whose
/// lines after the first starts with a banner marker.
pub open spec fn well_formed_block(n: Seq<char>) -> bool {
    &&& marked_block(n)
    &&& free_of(n, '\r')
    &&& forall|j: int|
        0 < j < n.len() && n[j - 1] == '\n' ==> !has_marker_prefix(
            #[trigger] n.subrange(j, n.len() as int),
            banner_marks(),
        )
}

/// `s` ends with an empty line: a newline, then an empty line ended by
/// `"\n"` or `"\r\n"`.
pub open spec fn ends_with_blank_line(s: Seq<char>) -> bool {
    &&& s.len() >= 2
    &&& s[s.len() - 1] == '\n'
    &&& (s[s.len() - 2] == '\n' || (s.len() >= 3 && s[s.len() - 2] == '\r' && s[s.len() - 3]
        == '\n'))
}

/// Characters of the begin marker.
pub proof fn lemma_begin_mark_chars()
    ensures
        begin_mark().len() == 31,
        begin_mark()[0] == '<',
        forall|k: int| 1 <= k < begin_mark().len() ==> begin_mark()[k] != '<',
        free_of(begin_mark(), '\n'),
{
    reveal_strlit("<!-- BEGIN:LIVE_PREDICTIONS -->");
}

/// Characters of the end marker.
pub proof fn lemma_end_mark_chars()
    ensures
        end_mark().len() == 29,
        end_mark()[0] == '<',
        end_mark()[28] == '>',
        forall|k: int| 1 <= k < end_mark().len() ==> end_mark()[k] != '<',
        free_of(end_mark(), '\n'),
{
    reveal_strlit("<!-- END:LIVE_PREDICTIONS -->");
}

/// Characters of the banner markers and of the banner prefix.
pub proof fn lemma_banner_chars()
    ensures
        banner_marks().len() == 2,
        forall|j: int|
            0 <= j < 2 ==> {
                &&& (#[trigger] banner_marks()[j]).len() > 0
                &&& banner_marks()[j][0] == '>'
                &&& free_of(banner_marks()[j], '\n')
                &&& free_of(banner_marks()[j], '<')
                &&& free_of(banner_marks()[j], '#')
            },
        starts_with(last_run_prefix(), new_mark()),
        free_of(last_run_prefix(), '\n'),
        free_of(last_run_prefix(), '\r'),
        free_of(last_run_prefix(), '<'),
        free_of(last_run_prefix(), '#'),
        last_run_prefix().len() > 0,
{
    reveal_strlit("> Auto-updated daily at 06:00 UTC");
    reveal_strlit("> Auto-updated every 3 h");
    reveal_strlit("> Auto-updated every 3 h via GitHub Actions | Last run: ");
    assert(banner_marks()[0] == old_mark());
    assert(banner_marks()[1] == new_mark());
    assert(last_run_prefix().subrange(0, new_mark().len() as int) =~= new_mark());
}

/// Characters of the migration anchors.
pub proof fn lemma_anchor_chars()
    ensures
        forecast_header().len() > 0,
        forecast_header()[0] == '#',
        next_level2().len() == 4,
        next_level2()[0] == '\n',
        rule_sep() == seq!['\n', '\n', '-', '-', '-', '\n'],
{
    reveal_strlit("### 24-Hour, 48-Hour & 72-Hour Forecast");
    reveal_strlit("\n## ");
    reveal_strlit("\n\n---\n");
    assert(rule_sep() =~= seq!['\n', '\n', '-', '-', '-', '\n']);
}

/// A text that is empty or starts with a character other than `'>'`
/// has no banner-marker prefix.
pub proof fn lemma_no_marker_first(x: Seq<char>)
    requires
        x.len() == 0 || x[0] != '>',
    ensures
        !has_marker_prefix(x, banner_marks()),
{
    lemma_banner_chars();
    if has_marker_prefix(x, banner_marks()) {
        let j = choose|j: int| 0 <= j < banner_marks().len() && starts_with(x, #[trigger] banner_marks()[j]);
        assert(x.subrange(0, banner_marks()[j].len() as int)[0] == banner_marks()[j][0]);
    }
}

/// A banner-marker prefix of `x` ends before any newline, `'<'` or `'#'`
/// of `x`.
pub proof fn lemma_marker_before(x: Seq<char>, p: int)
    requires
        0 <= p < x.len(),
        x[p] == '\n' || x[p] == '<' || x[p] == '#',
        has_marker_prefix(x, banner_marks()),
    ensures
        has_marker_prefix(x.subrange(0, p), banner_marks()),
{
    lemma_banner_chars();
    let j = choose|j: int| 0 <= j < banner_marks().len() && starts_with(x, #[trigger] banner_marks()[j]);
    let m = banner_marks()[j];
    if m.len() > p {
        assert(x.subrange(0, m.len() as int)[p] == m[p]);
    }
    assert(x.subrange(0, p).subrange(0, m.len() as int) =~= m);
    assert(starts_with(x.subrange(0, p), banner_marks()[j]));
}

/// A banner-marker prefix of a prefix of `x` is one of `x`.
pub proof fn lemma_marker_extend(x: Seq<char>, p: int)
    requires
        0 <= p <= x.len(),
        has_marker_prefix(x.subrange(0, p), banner_marks()),
    ensures
        has_marker_prefix(x, banner_marks()),
{
    let j = choose|j: int|
        0 <= j < banner_marks().len() && starts_with(x.subrange(0, p), #[trigger] banner_marks()[j]);
    let m = banner_marks()[j];
    assert(x.subrange(0, m.len() as int) =~= x.subrange(0, p).subrange(0, m.len() as int));
    assert(starts_with(x, banner_marks()[j]));
}


/// The banner line written with `stamp`.
pub open spec fn banner_line(stamp: Seq<char>) -> Seq<char> {
    last_run_prefix() + stamp
}

/// Characters of the banner line.
pub proof fn lemma_banner_line(stamp: Seq<char>)
    requires
        clean_stamp(stamp),
    ensures
        banner_line(stamp).len() > 0,
        free_of(banner_line(stamp), '\n'),
        free_of(banner_line(stamp), '\r'),
        free_of(banner_line(stamp), '<'),
        free_of(banner_line(stamp), '#'),
{
    lemma_banner_chars();
    let l = banner_line(stamp);
    let p = last_run_prefix();
    assert forall|k: int| 0 <= k < l.len() implies l[k] != '\n' && l[k] != '\r' && l[k] != '<'
        && l[k] != '#' by {
        if k < p.len() {
            assert(l[k] == p[k]);
        } else {
            assert(l[k] == stamp[k - p.len()]);
        }
    }
}

/// The line of `t` starting at line start `i`, as the replacement sees it.
proof fn lemma_line_piece(t: Seq<char>, i: int)
    requires
        0 <= i < t.len(),
        cr_clean(t),
    ensures
        ({
            let e = line_end(t, i);
            &&& i <= e <= t.len()
            &&& e < t.len() ==> t[e] == '\n'
            &&& free_of(t.subrange(i, e), '\n')
            &&& e >= t.len() ==> t.subrange(i, t.len() as int) == t.subrange(i, e)
            &&& e < t.len() ==> strip_cr(t.subrange(i, e)) == t.subrange(i, e)
        }),
{
    lemma_line_end(t, i);
    let e = line_end(t, i);
    if e < t.len() && e > i {
        assert(t.subrange(i, e).last() == t[e - 1]);
    }
}

/// Output of the banner replacement from line start `i`: no carriage
/// return before a newline, no trailing newline, and every line that
/// starts with a marker is the banner line.
pub proof fn lemma_replace_from_settled(t: Seq<char>, i: int, nl: Seq<char>)
    requires
        0 <= i < t.len(),
        is_line_start(t, i),
        no_double_cr(t),
        !ends_with_blank_line(t),
        nl.len() > 0,
        free_of(nl, '\n'),
        free_of(nl, '\r'),
    ensures
        settled(replace_from(t, i, banner_marks(), nl), nl),
        i > 0 ==> replace_from(t, i, banner_marks(), nl).len() > 0,
    decreases t.len() - i,
{
    let ms = banner_marks();
    let out = replace_from(t, i, ms, nl);
    lemma_line_end(t, i);
    let e = line_end(t, i);
    let line = t.subrange(i, e);
    let raw = if e >= t.len() {
        t.subrange(i, t.len() as int)
    } else {
        strip_cr(line)
    };
    let piece = swap_line(raw, ms, nl);
    assert(free_of(raw, '\n')) by {
        assert forall|k: int| 0 <= k < raw.len() implies raw[k] != '\n' by {
            assert(raw[k] == t[i + k]);
        }
    }
    assert(free_of(piece, '\n'));
    lemma_replace_from_banner(t, i, nl);
    if e + 1 >= t.len() {
        assert(out == piece);
        if i > 0 && piece.len() == 0 {
            assert(raw.len() == 0);
            assert(e == t.len() - 1);
            assert(t[i - 1] == '\n');
            if line.len() == 0 {
                assert(i == e);
            } else {
                assert(line.len() == 1);
                assert(line[0] == '\r');
                assert(t[i] == line[0]);
                assert(i == e - 1);
            }
            assert(ends_with_blank_line(t));
        }
        assert forall|k: int| 0 < k < out.len() && #[trigger] out[k] == '\n' implies out[k - 1] != '\r' by {}
    } else {
        let rest = replace_from(t, e + 1, ms, nl);
        assert(out == piece + seq!['\n'] + rest);
        lemma_replace_from_settled(t, e + 1, nl);
        let pl = piece.len() as int;
        assert(pl > 0 ==> piece.last() != '\r') by {
            if pl > 0 && piece != nl {
                assert(piece == raw);
                if line.len() > 0 && line.last() == '\r' {
                    assert(raw =~= line.drop_last());
                    if raw.last() == '\r' {
                        assert(line[line.len() - 2] == '\r');
                        assert(t[e - 1] == line.last());
                        assert(t[e - 2] == line[line.len() - 2]);
                    }
                } else {
                    assert(raw == line);
                }
            } else if pl > 0 {
                assert(piece.last() == nl[nl.len() - 1]);
            }
        }
        assert forall|k: int| 0 < k < out.len() && #[trigger] out[k] == '\n' implies out[k - 1] != '\r' by {
            if k < pl {
                assert(out[k] == piece[k]);
            } else if k == pl {
                assert(out[k - 1] == piece[pl - 1]);
            } else if k == pl + 1 {
                assert(out[k - 1] == '\n');
            } else {
                assert(out[k] == rest[k - pl - 1]);
                assert(out[k - 1] == rest[k - pl - 2]);
            }
        }
        assert(out.last() == rest.last());
    }
}


/// A settled text is a fixed point of the banner replacement, from any
/// of its line starts on.
pub proof fn lemma_settled_fixed(t: Seq<char>, i: int, nl: Seq<char>)
    requires
        settled(t, nl),
        free_of(nl, '\n'),
        0 <= i < t.len(),
        is_line_start(t, i),
    ensures
        replace_from(t, i, banner_marks(), nl) == t.subrange(i, t.len() as int),
    decreases t.len() - i,
{
    let ms = banner_marks();
    lemma_line_piece(t, i);
    let e = line_end(t, i);
    let line = t.subrange(i, e);
    let suffix = t.subrange(i, t.len() as int);
    if has_marker_prefix(line, ms) {
        assert(line =~= suffix.subrange(0, e - i));
        lemma_marker_extend(suffix, e - i);
        assert(starts_with(suffix, nl));
        let k = i + nl.len();
        assert forall|q: int| i <= q < k implies t[q] != '\n' by {
            assert(t[q] == suffix.subrange(0, nl.len() as int)[q - i]);
        }
        if e < k {
            assert(t[e] == '\n');
        }
        if k < e {
            assert(t[k] == '\n');
            assert(line[k - i] == t[k]);
        }
        assert(line =~= nl);
    }
    assert(swap_line(line, ms, nl) == line);
    if e >= t.len() {
    } else if e + 1 >= t.len() {
        assert(t.last() == '\n');
    } else {
        lemma_settled_fixed(t, e + 1, nl);
        assert(suffix =~= line + seq!['\n'] + t.subrange(e + 1, t.len() as int));
    }
}

/// A settled text is unchanged by the banner replacement.
pub proof fn lemma_settled_replace_lines(t: Seq<char>, nl: Seq<char>)
    requires
        settled(t, nl),
        free_of(nl, '\n'),
    ensures
        replace_lines(t, banner_marks(), nl) == t,
{
    if t.len() > 0 {
        lemma_settled_fixed(t, 0, nl);
        assert(t.subrange(0, t.len() as int) =~= t);
    } else {
        assert(t =~= Seq::<char>::empty());
    }
}


/// Replacing the middle `y` of a settled text `pre + y + q` by a block
/// `z` that starts with `'<'` keeps the text settled, provided no line
/// that starts inside `z` starts with a banner marker.
pub proof fn lemma_splice_settled(pre: Seq<char>, y: Seq<char>, z: Seq<char>, q: Seq<char>, nl: Seq<char>)
    requires
        settled(pre + y + q, nl),
        nl.len() > 0,
        free_of(nl, '\n'),
        free_of(nl, '<'),
        free_of(nl, '#'),
        y.len() > 0,
        y[0] == '<' || y[0] == '#',
        z.len() > 0,
        z[0] == '<',
        free_of(z, '\r'),
        forall|j: int|
            0 < j <= z.len() && z[j - 1] == '\n' ==> !has_marker_prefix(
                #[trigger] (z + q).subrange(j, (z + q).len() as int),
                banner_marks(),
            ),
        q.len() == 0 ==> z.last() != '\n',
    ensures
        settled(pre + z + q, nl),
{
    let ms = banner_marks();
    let u = pre + y + q;
    let r = pre + z + q;
    let pl = pre.len() as int;
    let zl = z.len() as int;
    let yl = y.len() as int;
    assert forall|k: int| 0 < k < r.len() && #[trigger] r[k] == '\n' implies r[k - 1] != '\r' by {
        if k < pl {
            assert(r[k] == u[k]);
            assert(r[k - 1] == u[k - 1]);
        } else if k == pl {
            assert(r[k] == z[0]);
        } else if k <= pl + zl {
            assert(r[k - 1] == z[k - 1 - pl]);
        } else {
            assert(r[k] == u[k - zl + yl]);
            assert(r[k - 1] == u[k - 1 - zl + yl]);
        }
    }
    if q.len() > 0 {
        assert(r.last() == u.last());
    } else {
        assert(r.last() == z.last());
    }
    assert forall|k: int|
        #![trigger is_line_start(r, k)]
        is_line_start(r, k) && k < r.len() && has_marker_prefix(r.subrange(k, r.len() as int), ms)
            implies starts_with(r.subrange(k, r.len() as int), nl) && (k + nl.len() == r.len()
        || r[k + nl.len()] == '\n') by {
        let x = r.subrange(k, r.len() as int);
        if k < pl {
            if k > 0 {
                assert(u[k - 1] == r[k - 1]);
            }
            assert(is_line_start(u, k));
            let xu = u.subrange(k, u.len() as int);
            let d = pl - k;
            assert(x[d] == z[0]);
            lemma_marker_before(x, d);
            assert(x.subrange(0, d) =~= xu.subrange(0, d));
            lemma_marker_extend(xu, d);
            assert(starts_with(xu, nl));
            if nl.len() > d {
                assert(xu[d] == y[0]);
                assert(nl[d] == xu.subrange(0, nl.len() as int)[d]);
            }
            if nl.len() == d {
                assert(u[k + nl.len()] == y[0]);
            }
            assert(x.subrange(0, nl.len() as int) =~= xu.subrange(0, nl.len() as int));
            assert(r[k + nl.len()] == u[k + nl.len()]);
        } else if k == pl {
            assert(x[0] == z[0]);
            lemma_no_marker_first(x);
        } else if k < pl + zl {
            let j = k - pl;
            assert(r[k - 1] == z[j - 1]);
            assert(x =~= (z + q).subrange(j, (z + q).len() as int));
        } else if k == pl + zl {
            assert(r[k - 1] == z[zl - 1]);
            assert(x =~= (z + q).subrange(zl, (z + q).len() as int));
        } else {
            let qi = k - pl - zl;
            let ku = pl + yl + qi;
            assert(r[k - 1] == q[qi - 1]);
            assert(u[ku - 1] == q[qi - 1]);
            assert(is_line_start(u, ku));
            let xu = u.subrange(ku, u.len() as int);
            assert(x =~= xu);
            if k + nl.len() < r.len() {
                assert(r[k + nl.len()] == u[ku + nl.len()]);
            }
        }
    }
}


/// In `pre + n + w`, where `pre` holds neither marker and `n` is a
/// marked block, the first markers are those of `n`, so splicing a block
/// `b` in puts `b` in the place of `n`.
pub proof fn lemma_splice_again(pre: Seq<char>, n: Seq<char>, w: Seq<char>, b: Seq<char>)
    requires
        marked_block(n),
        forall|j: int| 0 <= j && j + begin_mark().len() <= pre.len() ==> !occurs_at(pre, begin_mark(), j),
        forall|j: int| 0 <= j && j + end_mark().len() <= pre.len() ==> !occurs_at(pre, end_mark(), j),
    ensures
        splice_live_block(pre + n + w, b) == Ok::<Seq<char>, ReadmeError>(pre + b + w),
{
    lemma_begin_mark_chars();
    lemma_end_mark_chars();
    let bm = begin_mark();
    let em = end_mark();
    let r = pre + n + w;
    let pl = pre.len() as int;
    let nl = n.len() as int;
    let el = em.len() as int;
    let bl = bm.len() as int;
    let e2 = pl + nl - el;
    assert(r.subrange(pl, pl + bl) =~= n.subrange(0, bl));
    assert(r[pl] == n[0]);
    assert(n[0] == n.subrange(0, bl)[0]);
    assert forall|j: int| 0 <= j < pl implies !occurs_at(r, bm, j) by {
        if j + bl <= pl {
            assert(!occurs_at(pre, bm, j));
            assert(r.subrange(j, j + bl) =~= pre.subrange(j, j + bl));
        } else if occurs_at(r, bm, j) {
            assert(r.subrange(j, j + bl)[pl - j] == r[pl]);
            assert(bm[pl - j] == '<');
        }
    }
    lemma_first_occ_is(r, bm, pl);
    assert(r.subrange(e2, e2 + el) =~= n.subrange(nl - el, nl));
    assert(r[e2] == n[nl - el]);
    assert(n[nl - el] == n.subrange(nl - el, nl)[0]);
    assert forall|j: int| 0 <= j < e2 implies !occurs_at(r, em, j) by {
        if j + el <= pl {
            assert(!occurs_at(pre, em, j));
            assert(r.subrange(j, j + el) =~= pre.subrange(j, j + el));
        } else if j < pl {
            if occurs_at(r, em, j) {
                assert(r.subrange(j, j + el)[pl - j] == r[pl]);
                assert(em[pl - j] == '<');
            }
        } else if j + el <= pl + nl {
            assert(!occurs_at(n, em, j - pl));
            assert(r.subrange(j, j + el) =~= n.subrange(j - pl, j - pl + el));
        } else if occurs_at(r, em, j) {
            assert(r.subrange(j, j + el)[e2 - j] == r[e2]);
            assert(em[e2 - j] == '<');
        }
    }
    lemma_first_occ_is(r, em, e2);
    assert(r.subrange(0, pl) =~= pre);
    assert(r.subrange(e2 + el, r.len() as int) =~= w);
}


/// No line starting inside a well-formed block starts with a banner
/// marker, whatever follows the block.
pub proof fn lemma_block_lines(n: Seq<char>, tail: Seq<char>, j: int)
    requires
        well_formed_block(n),
        0 < j < n.len(),
        n[j - 1] == '\n',
    ensures
        !has_marker_prefix((n + tail).subrange(j, (n + tail).len() as int), banner_marks()),
{
    lemma_end_mark_chars();
    let ms = banner_marks();
    let el = end_mark().len() as int;
    let nl = n.len() as int;
    let x = (n + tail).subrange(j, (n + tail).len() as int);
    if j - 1 >= nl - el {
        assert(n[j - 1] == n.subrange(nl - el, nl)[j - 1 - (nl - el)]);
    }
    let d = nl - el - j;
    assert(x[d] == n[nl - el]);
    assert(n[nl - el] == n.subrange(nl - el, nl)[0]);
    if has_marker_prefix(x, ms) {
        lemma_marker_before(x, d);
        assert(x.subrange(0, d) =~= n.subrange(j, nl).subrange(0, d));
        lemma_marker_extend(n.subrange(j, nl), d);
        assert(!has_marker_prefix(n.subrange(j, nl), ms));
    }
}

/// The last character of a well-formed block is `'>'`.
pub proof fn lemma_block_last(n: Seq<char>)
    requires
        well_formed_block(n),
    ensures
        n.len() > 0,
        n[0] == '<',
        n.last() == '>',
{
    lemma_end_mark_chars();
    lemma_begin_mark_chars();
    let el = end_mark().len() as int;
    assert(n.last() == n.subrange(n.len() - el, n.len() as int)[el - 1]);
    assert(n[0] == n.subrange(0, begin_mark().len() as int)[0]);
}

/// Shape of a successful rewrite: the block stands between a prefix that
/// holds neither marker and the rest, and the result is settled with
/// respect to its banner line.  Returns the prefix and the rest.
#[verifier::rlimit(40)]
#[verifier::spinoff_prover]
pub proof fn lemma_rewrite_shape(source: Seq<char>, stamp: Seq<char>, block: Seq<char>) -> (pw: (
    Seq<char>,
    Seq<char>,
))
    requires
        clean_stamp(stamp),
        well_formed_block(block),
        no_double_cr(source),
        !ends_with_blank_line(source),
    ensures
        readme_rewrite(source, stamp, block) matches Ok(r) ==> {
            &&& r == pw.0 + block + pw.1
            &&& absent(pw.0, begin_mark())
            &&& absent(pw.0, end_mark())
            &&& settled(r, banner_line(stamp))
        },
{
    let ms = banner_marks();
    let nl = banner_line(stamp);
    lemma_banner_line(stamp);
    lemma_begin_mark_chars();
    lemma_end_mark_chars();
    lemma_anchor_chars();
    lemma_block_last(block);
    let bm = begin_mark();
    let em = end_mark();
    let bl = bm.len() as int;
    let el = em.len() as int;
    let u = replace_lines(source, ms, nl);
    if source.len() > 0 {
        lemma_replace_from_settled(source, 0, nl);
    } else {
        assert(u =~= Seq::<char>::empty());
    }
    assert(settled(u, nl));
    lemma_first_occ(u, bm);
    lemma_first_occ(u, em);
    match (first_occ(u, bm), first_occ(u, em)) {
        (Some(b), Some(e)) => {
            if e > b {
                let pre = u.subrange(0, b);
                let y = u.subrange(b, e + el);
                let q = u.subrange(e + el, u.len() as int);
                let r = pre + block + q;
                assert(u =~= pre + y + q);
                assert(y[0] == u.subrange(b, b + bl)[0]);
                assert forall|j: int|
                    0 < j <= block.len() && block[j - 1] == '\n' implies !has_marker_prefix(
                    #[trigger] (block + q).subrange(j, (block + q).len() as int),
                    ms,
                ) by {
                    lemma_block_lines(block, q, j);
                }
                lemma_splice_settled(pre, y, block, q, nl);
                assert forall|j: int| !occurs_at(pre, bm, j) by {
                    if occurs_at(pre, bm, j) {
                        assert(pre.subrange(j, j + bl) =~= u.subrange(j, j + bl));
                        assert(occurs_at(u, bm, j));
                    }
                }
                assert forall|j: int| !occurs_at(pre, em, j) by {
                    if occurs_at(pre, em, j) {
                        assert(pre.subrange(j, j + el) =~= u.subrange(j, j + el));
                        assert(occurs_at(u, em, j));
                    }
                }
                return (pre, q);
            }
        },
        (None, None) => {
            lemma_first_occ(u, forecast_header());
            match first_occ(u, forecast_header()) {
                None => {},
                Some(start) => {
                    let tail = u.subrange(start, u.len() as int);
                    lemma_first_occ(tail, next_level2());
                    match first_occ(tail, next_level2()) {
                        None => {},
                        Some(off) => {
                            let rs = rule_sep();
                            let pre = u.subrange(0, start);
                            let y = u.subrange(start, start + off);
                            let q = u.subrange(start + off, u.len() as int);
                            let z = block + rs;
                            let r = pre + block + rs + q;
                            assert(tail[0] == u.subrange(start, start + forecast_header().len())[0]);
                            assert(tail[off] == tail.subrange(off, off + 4)[0]);
                            assert(off != 0);
                            assert(u =~= pre + y + q);
                            assert(y[0] == tail[0]);
                            assert(q[0] == tail[off]);
                            assert(z[0] == block[0]);
                            assert forall|k: int| 0 <= k < z.len() implies z[k] != '\r' by {
                                if k >= block.len() {
                                    assert(z[k] == rs[k - block.len()]);
                                }
                            }
                            let bn = block.len() as int;
                            assert forall|j: int|
                                0 < j <= z.len() && z[j - 1] == '\n' implies !has_marker_prefix(
                                #[trigger] (z + q).subrange(j, (z + q).len() as int),
                                ms,
                            ) by {
                                let x = (z + q).subrange(j, (z + q).len() as int);
                                if j < bn {
                                    assert(z + q =~= block + (rs + q));
                                    lemma_block_lines(block, rs + q, j);
                                } else if j == bn {
                                    assert(z[j - 1] == block.last());
                                } else if j < bn + 6 {
                                    assert(z[j - 1] == rs[j - 1 - bn]);
                                    assert(x[0] == z[j]);
                                    if j < bn + 6 {
                                        assert(z[j] == rs[j - bn]);
                                    }
                                    lemma_no_marker_first(x);
                                } else {
                                    assert(x[0] == q[0]);
                                    lemma_no_marker_first(x);
                                }
                            }
                            lemma_splice_settled(pre, y, z, q, nl);
                            assert(pre + z + q =~= r);
                            assert forall|j: int| !occurs_at(pre, bm, j) by {
                                assert(!occurs_at(u, bm, j));
                                if occurs_at(pre, bm, j) {
                                    assert(pre.subrange(j, j + bl) =~= u.subrange(j, j + bl));
                                }
                            }
                            assert forall|j: int| !occurs_at(pre, em, j) by {
                                assert(!occurs_at(u, em, j));
                                if occurs_at(pre, em, j) {
                                    assert(pre.subrange(j, j + el) =~= u.subrange(j, j + el));
                                }
                            }
                            assert(pre + block + (rs + q) =~= r);
                            return (pre, rs + q);
                        },
                    }
                },
            }
        },
        _ => {},
    }
    (Seq::empty(), Seq::empty())
}

/// Idempotence of the README rewrite: with the same stamp and the same
/// well-formed live block, rewriting the result of a successful rewrite
/// gives that result back.  The source must not hold two carriage
/// returns before a newline and must not end with an empty line (the
/// first run turns the former into one carriage return before a newline
/// and the latter into a trailing newline, which the second run drops).
pub proof fn lemma_rewrite_idempotent(source: Seq<char>, stamp: Seq<char>, block: Seq<char>)
    requires
        clean_stamp(stamp),
        well_formed_block(block),
        no_double_cr(source),
        !ends_with_blank_line(source),
    ensures
        readme_rewrite(source, stamp, block) matches Ok(r) ==> readme_rewrite(r, stamp, block)
            == Ok::<Seq<char>, ReadmeError>(r),
{
    let (pre, w) = lemma_rewrite_shape(source, stamp, block);
    if readme_rewrite(source, stamp, block) is Ok {
        let r = readme_rewrite(source, stamp, block)->Ok_0;
        lemma_banner_line(stamp);
        lemma_settled_replace_lines(r, banner_line(stamp));
        lemma_splice_again(pre, block, w, block);
    }
}

/// Sections fit to stand between the live-block markers: no carriage
/// return, no occurrence of either marker, and no line that starts with
/// a banner marker.
pub open spec fn clean_sections(p: Seq<char>) -> bool {
    &&& free_of(p, '\r')
    &&& forall|j: int| !occurs_at(p, begin_mark(), j)
    &&& forall|j: int| !occurs_at(p, end_mark(), j)
    &&& forall|k: int|
        #![trigger is_line_start(p, k)]
        is_line_start(p, k) && k < p.len() ==> !has_marker_prefix(
            p.subrange(k, p.len() as int),
            banner_marks(),
        )
}

/// The two markers differ in their sixth character and hold no carriage
/// return.
proof fn lemma_marks_differ()
    ensures
        begin_mark()[5] == 'B',
        end_mark()[5] == 'E',
        free_of(begin_mark(), '\r'),
        free_of(end_mark(), '\r'),
{
    reveal_strlit("<!-- BEGIN:LIVE_PREDICTIONS -->");
    reveal_strlit("<!-- END:LIVE_PREDICTIONS -->");
}

/// A marker `m` (free of newlines) cannot occur across the newline at
/// index `c` of `n`, nor start at a position whose character differs
/// from the marker's first one.
proof fn lemma_no_occ_at(n: Seq<char>, m: Seq<char>, j: int, c: int)
    requires
        free_of(m, '\n'),
        m.len() > 0,
        0 <= j <= c < j + m.len(),
        c < n.len(),
        n[c] == '\n',
    ensures
        !occurs_at(n, m, j),
{
    if occurs_at(n, m, j) {
        assert(n.subrange(j, j + m.len())[c - j] == n[c]);
    }
}

/// A live block built from sections without carriage return and without
/// either marker is a marked block without carriage return, and its end
/// line (the end marker alone) is no banner line.
pub proof fn lemma_live_block_marked(summary: Seq<char>, hourly: Seq<char>, performance: Seq<
    char,
>)
    requires
        free_of(summary + hourly + performance, '\r'),
        marker_free(summary + hourly + performance),
    ensures
        marked_block(live_block(summary, hourly, performance)),
        free_of(live_block(summary, hourly, performance), '\r'),
        end_line_plain(live_block(summary, hourly, performance)),
{
    lemma_begin_mark_chars();
    lemma_end_mark_chars();
    lemma_marks_differ();
    lemma_banner_chars();
    reveal_strlit("\n");
    let p = summary + hourly + performance;
    let bm = begin_mark();
    let em = end_mark();
    let n = live_block(summary, hourly, performance);
    let pl = p.len() as int;
    assert(n =~= bm + seq!['\n'] + p + seq!['\n'] + em);
    assert(n.len() == 62 + pl);
    assert forall|k: int| 0 <= k < 31 implies n[k] == bm[k] by {}
    assert(n[31] == '\n');
    assert forall|k: int| 0 <= k < pl implies n[32 + k] == p[k] by {}
    assert(n[32 + pl] == '\n');
    assert forall|k: int| 0 <= k < 29 implies n[33 + pl + k] == em[k] by {}
    assert(n.subrange(0, 31) =~= bm);
    assert(n.subrange(n.len() - 29, n.len() as int) =~= em);
    // no begin marker after the first position
    assert forall|j: int| 0 < j implies !occurs_at(n, bm, j) by {
        if occurs_at(n, bm, j) {
            assert(n.subrange(j, j + 31)[0] == bm[0]);
            if j < 31 {
                assert(n[j] == bm[j]);
            } else if j == 31 {
            } else if j + 31 <= 32 + pl {
                assert(n.subrange(j, j + 31) =~= p.subrange(j - 32, j - 32 + 31));
                assert(occurs_at(p, bm, j - 32));
            } else {
                lemma_no_occ_at(n, bm, j, 32 + pl);
            }
        }
    }
    // no end marker before the final one
    assert forall|j: int| 0 <= j < n.len() - em.len() implies !occurs_at(n, em, j) by {
        if occurs_at(n, em, j) {
            assert(n.subrange(j, j + 29)[0] == em[0]);
            if j == 0 {
                assert(n.subrange(0, 29)[5] == em[5]);
                assert(n[5] == bm[5]);
            } else if j < 31 {
                assert(n[j] == bm[j]);
            } else if j == 31 {
            } else if j + 29 <= 32 + pl {
                assert(n.subrange(j, j + 29) =~= p.subrange(j - 32, j - 32 + 29));
                assert(occurs_at(p, em, j - 32));
            } else {
                lemma_no_occ_at(n, em, j, 32 + pl);
            }
        }
    }
    assert forall|k: int| 0 <= k < n.len() implies n[k] != '\r' by {
        if k < 31 {
        } else if 32 <= k < 32 + pl {
            assert(n[k] == p[k - 32]);
        } else if k > 32 + pl {
            assert(n[k] == em[k - 33 - pl]);
        }
    }
    lemma_line_start_of(n, n.len() as int);
    let ls = line_start_of(n, n.len() as int);
    assert(ls == 33 + pl) by {
        if ls <= 32 + pl {
            assert(n[32 + pl] == '\n');
        }
        if ls > 33 + pl {
            assert(n[ls - 1] == em[ls - 1 - 33 - pl]);
        }
    }
    assert(n.subrange(ls, n.len() as int)[0] == em[0]);
    lemma_no_marker_first(n.subrange(ls, n.len() as int));
}

/// A live block built from clean sections is well formed.
pub proof fn lemma_live_block_well_formed(summary: Seq<char>, hourly: Seq<char>, performance: Seq<
    char,
>)
    requires
        clean_sections(summary + hourly + performance),
    ensures
        well_formed_block(live_block(summary, hourly, performance)),
{
    lemma_begin_mark_chars();
    lemma_end_mark_chars();
    lemma_banner_chars();
    reveal_strlit("\n");
    let p = summary + hourly + performance;
    let bm = begin_mark();
    let em = end_mark();
    let n = live_block(summary, hourly, performance);
    let pl = p.len() as int;
    lemma_live_block_marked(summary, hourly, performance);
    assert(n =~= bm + seq!['\n'] + p + seq!['\n'] + em);
    assert(n.len() == 62 + pl);
    assert forall|k: int| 0 <= k < 31 implies n[k] == bm[k] by {}
    assert(n[31] == '\n');
    assert forall|k: int| 0 <= k < pl implies n[32 + k] == p[k] by {}
    assert(n[32 + pl] == '\n');
    assert forall|k: int| 0 <= k < 29 implies n[33 + pl + k] == em[k] by {}

    // no line inside the block starts with a banner marker
    assert forall|j: int|
        0 < j < n.len() && n[j - 1] == '\n' implies !has_marker_prefix(
        #[trigger] n.subrange(j, n.len() as int),
        banner_marks(),
    ) by {
        let x = n.subrange(j, n.len() as int);
        if j - 1 < 31 {
            assert(n[j - 1] == bm[j - 1]);
        } else if j - 1 > 32 + pl {
            assert(n[j - 1] == em[j - 1 - 33 - pl]);
        } else if j == 33 + pl {
            assert(x[0] == em[0]);
            lemma_no_marker_first(x);
        } else {
            let k = j - 32;
            assert(0 <= k <= pl);
            if k == pl {
                assert(x[0] == '\n');
                lemma_no_marker_first(x);
            } else {
                assert(is_line_start(p, k)) by {
                    if k > 0 {
                        assert(p[k - 1] == n[j - 1]);
                    }
                }
                assert(!has_marker_prefix(p.subrange(k, pl), banner_marks()));
                assert(x[pl - k] == '\n');
                if has_marker_prefix(x, banner_marks()) {
                    lemma_marker_before(x, pl - k);
                    assert(x.subrange(0, pl - k) =~= p.subrange(k, pl));
                }
            }
        }
    }
}

/// Rewriting with a live block built from clean sections: a later
/// rewrite of the result, with the same sections and any stamp `t2`,
/// changes nothing but the banner lines, which take `t2`.
pub proof fn lemma_live_rewrite_restamp(
    source: Seq<char>,
    t1: Seq<char>,
    t2: Seq<char>,
    summary: Seq<char>,
    hourly: Seq<char>,
    performance: Seq<char>,
)
    requires
        clean_stamp(t1),
        clean_stamp(t2),
        clean_sections(summary + hourly + performance),
    ensures
        ({
            let block = live_block(summary, hourly, performance);
            readme_rewrite(source, t1, block) matches Ok(r) ==> readme_rewrite(r, t2, block)
                == Ok::<Seq<char>, ReadmeError>(replace_lines(r, banner_marks(), banner_line(t2)))
        }),
{
    lemma_live_block_well_formed(summary, hourly, performance);
    lemma_rewrite_restamp(source, t1, t2, live_block(summary, hourly, performance));
}

/// `p` occurs nowhere in `t`.
pub open spec fn absent(t: Seq<char>, p: Seq<char>) -> bool {
    forall|j: int| !occurs_at(t, p, j)
}

/// `r` holds exactly one begin marker and exactly one end marker, the
/// begin marker first.
pub open spec fn single_live_block(r: Seq<char>) -> bool {
    exists|b: int, e: int|
        {
            &&& b < e
            &&& occurs_at(r, begin_mark(), b)
            &&& occurs_at(r, end_mark(), e)
            &&& forall|j: int| #[trigger] occurs_at(r, begin_mark(), j) ==> j == b
            &&& forall|j: int| #[trigger] occurs_at(r, end_mark(), j) ==> j == e
        }
}

/// An occurrence in a subrange is one in the whole text.
proof fn lemma_occ_sub(t: Seq<char>, p: Seq<char>, a: int, b: int, j: int)
    requires
        0 <= a <= b <= t.len(),
        occurs_at(t.subrange(a, b), p, j),
    ensures
        occurs_at(t, p, a + j),
{
    assert(t.subrange(a + j, a + j + p.len()) =~= t.subrange(a, b).subrange(j, j + p.len()));
}

/// The banner replacement introduces no occurrence of a newline-free
/// pattern that occurs neither in the text nor in the new line.
proof fn lemma_replace_from_absent(t: Seq<char>, i: int, ms: Seq<Seq<char>>, nl: Seq<char>, p: Seq<char>)
    requires
        0 <= i,
        p.len() > 0,
        free_of(p, '\n'),
        absent(t, p),
        absent(nl, p),
    ensures
        absent(replace_from(t, i, ms, nl), p),
    decreases t.len() - i,
{
    if i < t.len() {
        lemma_line_end(t, i);
        let e = line_end(t, i);
        let r = replace_from(t, i, ms, nl);
        let raw = if e >= t.len() {
            t.subrange(i, t.len() as int)
        } else {
            strip_cr(t.subrange(i, e))
        };
        let piece = swap_line(raw, ms, nl);
        // the piece holds no occurrence
        assert(raw.len() <= t.len() - i);
        assert forall|j: int| !occurs_at(raw, p, j) by {
            if occurs_at(raw, p, j) {
                let end = i + raw.len();
                assert(raw =~= t.subrange(i, end));
                lemma_occ_sub(t, p, i, end, j);
            }
        }
        assert(absent(piece, p));
        if e >= t.len() || e + 1 >= t.len() {
            assert(r == piece);
        } else {
            let rest = replace_from(t, e + 1, ms, nl);
            lemma_replace_from_absent(t, e + 1, ms, nl, p);
            assert(r == piece + seq!['\n'] + rest);
            let pl = piece.len() as int;
            assert forall|j: int| !occurs_at(r, p, j) by {
                if occurs_at(r, p, j) {
                    if j + p.len() <= pl {
                        assert(r.subrange(j, j + p.len()) =~= piece.subrange(j, j + p.len()));
                        assert(occurs_at(piece, p, j));
                    } else if j > pl {
                        assert(r.subrange(j, j + p.len()) =~= rest.subrange(
                            j - pl - 1,
                            j - pl - 1 + p.len(),
                        ));
                        assert(occurs_at(rest, p, j - pl - 1));
                    } else {
                        assert(r[pl] == '\n');
                        assert(r.subrange(j, j + p.len())[pl - j] == r[pl]);
                    }
                }
            }
        }
    }
}

/// A well-formed block between two texts free of both markers leaves
/// exactly one begin and one end marker in the whole.
pub proof fn lemma_only_block_markers(pre: Seq<char>, n: Seq<char>, w: Seq<char>)
    requires
        marked_block(n),
        absent(pre, begin_mark()),
        absent(pre, end_mark()),
        absent(w, begin_mark()),
        absent(w, end_mark()),
    ensures
        single_live_block(pre + n + w),
{
    lemma_begin_mark_chars();
    lemma_end_mark_chars();
    lemma_marks_differ();
    let bm = begin_mark();
    let em = end_mark();
    let r = pre + n + w;
    let pl = pre.len() as int;
    let nl = n.len() as int;
    let bl = 31int;
    let el = 29int;
    let b = pl;
    let e = pl + nl - el;
    assert forall|k: int| 0 <= k < nl implies r[pl + k] == n[k] by {}
    assert(n[0] == n.subrange(0, bl)[0]);
    assert(n[nl - el] == n.subrange(nl - el, nl)[0]);
    assert forall|i: int| nl - el < i < nl implies n[i] != '<' by {
        assert(n[i] == n.subrange(nl - el, nl)[i - (nl - el)]);
    }
    assert(n[nl - el + 5] == n.subrange(nl - el, nl)[5]);
    assert(r.subrange(b, b + bl) =~= n.subrange(0, bl));
    assert(occurs_at(r, bm, b));
    assert(r.subrange(e, e + el) =~= n.subrange(nl - el, nl));
    assert(occurs_at(r, em, e));
    assert forall|j: int| #[trigger] occurs_at(r, bm, j) implies j == b by {
        let x = r.subrange(j, j + bl);
        assert(x[0] == '<');
        if j + bl <= pl {
            assert(x =~= pre.subrange(j, j + bl));
            assert(occurs_at(pre, bm, j));
        } else if j < pl {
            assert(x[pl - j] == r[pl]);
        } else if j >= pl + nl {
            assert(x =~= w.subrange(j - pl - nl, j - pl - nl + bl));
            assert(occurs_at(w, bm, j - pl - nl));
        } else if j + bl <= pl + nl {
            assert(x =~= n.subrange(j - pl, j - pl + bl));
            assert(occurs_at(n, bm, j - pl));
        } else if j - pl < nl - el {
            assert(x[e - j] == r[e]);
        } else if j - pl == nl - el {
            assert(x[5] == r[e + 5]);
        } else {
            assert(r[j] == n[j - pl]);
            assert(n[j - pl] != '<');
        }
    }
    assert forall|j: int| #[trigger] occurs_at(r, em, j) implies j == e by {
        let x = r.subrange(j, j + el);
        assert(x[0] == '<');
        if j + el <= pl {
            assert(x =~= pre.subrange(j, j + el));
            assert(occurs_at(pre, em, j));
        } else if j < pl {
            assert(x[pl - j] == r[pl]);
        } else if j >= pl + nl {
            assert(x =~= w.subrange(j - pl - nl, j - pl - nl + el));
            assert(occurs_at(w, em, j - pl - nl));
        } else if j + el <= pl + nl {
            assert(x =~= n.subrange(j - pl, j - pl + el));
            if j - pl < nl - el {
                assert(occurs_at(n, em, j - pl));
            }
        } else {
            assert(r[j] == n[j - pl]);
            assert(n[j - pl] != '<');
        }
    }
}

/// A subrange of a text free of `p` is free of `p`.
proof fn lemma_absent_sub(t: Seq<char>, p: Seq<char>, a: int, b: int)
    requires
        0 <= a <= b <= t.len(),
        absent(t, p),
    ensures
        absent(t.subrange(a, b), p),
{
    assert forall|j: int| !occurs_at(t.subrange(a, b), p, j) by {
        if occurs_at(t.subrange(a, b), p, j) {
            lemma_occ_sub(t, p, a, b, j);
        }
    }
}

/// A text of which no character is `'<'` holds neither marker.
proof fn lemma_no_lt_absent(t: Seq<char>)
    requires
        free_of(t, '<'),
    ensures
        absent(t, begin_mark()),
        absent(t, end_mark()),
{
    lemma_begin_mark_chars();
    lemma_end_mark_chars();
    assert forall|j: int| !occurs_at(t, begin_mark(), j) by {
        if occurs_at(t, begin_mark(), j) {
            assert(t.subrange(j, j + 31)[0] == t[j]);
        }
    }
    assert forall|j: int| !occurs_at(t, end_mark(), j) by {
        if occurs_at(t, end_mark(), j) {
            assert(t.subrange(j, j + 29)[0] == t[j]);
        }
    }
}

/// First rewrite of a README without live-block markers: when it
/// succeeds, the result holds exactly one live block (one begin marker,
/// then one end marker).  By idempotence, later rewrites with the same
/// stamp and block keep that result.
pub proof fn lemma_first_rewrite_single_block(source: Seq<char>, stamp: Seq<char>, block: Seq<char>)
    requires
        clean_stamp(stamp),
        well_formed_block(block),
        absent(source, begin_mark()),
        absent(source, end_mark()),
    ensures
        readme_rewrite(source, stamp, block) matches Ok(r) ==> single_live_block(r),
{
    lemma_begin_mark_chars();
    lemma_end_mark_chars();
    lemma_anchor_chars();
    let ms = banner_marks();
    let nl = banner_line(stamp);
    lemma_banner_line(stamp);
    lemma_no_lt_absent(nl);
    let u = replace_lines(source, ms, nl);
    lemma_replace_from_absent(source, 0, ms, nl, begin_mark());
    lemma_replace_from_absent(source, 0, ms, nl, end_mark());
    lemma_first_occ(u, begin_mark());
    lemma_first_occ(u, end_mark());
    assert(first_occ(u, begin_mark()) is None);
    assert(first_occ(u, end_mark()) is None);
    lemma_first_occ(u, forecast_header());
    match first_occ(u, forecast_header()) {
        None => {},
        Some(start) => {
            let tail = u.subrange(start, u.len() as int);
            lemma_first_occ(tail, next_level2());
            match first_occ(tail, next_level2()) {
                None => {},
                Some(off) => {
                    let pre = u.subrange(0, start);
                    let q = u.subrange(start + off, u.len() as int);
                    let rs = rule_sep();
                    let w = rs + q;
                    lemma_absent_sub(u, begin_mark(), 0, start);
                    lemma_absent_sub(u, end_mark(), 0, start);
                    lemma_absent_sub(u, begin_mark(), start + off, u.len() as int);
                    lemma_absent_sub(u, end_mark(), start + off, u.len() as int);
                    assert forall|k: int| 0 <= k < rs.len() implies rs[k] != '<' by {}
                    lemma_no_lt_absent(rs);
                    assert(rs.len() == 6);
                    assert forall|j: int| !occurs_at(w, begin_mark(), j) by {
                        if occurs_at(w, begin_mark(), j) {
                            let x = w.subrange(j, j + 31);
                            if j >= 6 {
                                assert(x =~= q.subrange(j - 6, j - 6 + 31));
                                assert(occurs_at(q, begin_mark(), j - 6));
                            } else {
                                assert(x[0] == w[j]);
                                assert(w[j] == rs[j]);
                            }
                        }
                    }
                    assert forall|j: int| !occurs_at(w, end_mark(), j) by {
                        if occurs_at(w, end_mark(), j) {
                            let x = w.subrange(j, j + 29);
                            if j >= 6 {
                                assert(x =~= q.subrange(j - 6, j - 6 + 29));
                                assert(occurs_at(q, end_mark(), j - 6));
                            } else {
                                assert(x[0] == w[j]);
                                assert(w[j] == rs[j]);
                            }
                        }
                    }
                    lemma_only_block_markers(pre, block, w);
                    assert(pre + block + rs + q =~= pre + block + w);
                },
            }
        },
    }
}


/// Start of the line of `t` that holds position `c`.
pub open spec fn line_start_of(t: Seq<char>, c: int) -> int
    decreases c,
{
    if c <= 0 {
        0
    } else if t[c - 1] == '\n' {
        c
    } else {
        line_start_of(t, c - 1)
    }
}

/// `line_start_of` is a line start at or before `c`, with no newline
/// between it and `c`.
proof fn lemma_line_start_of(t: Seq<char>, c: int)
    requires
        0 <= c <= t.len(),
    ensures
        0 <= line_start_of(t, c) <= c,
        is_line_start(t, line_start_of(t, c)),
        forall|k: int| line_start_of(t, c) <= k < c ==> t[k] != '\n',
    decreases c,
{
    if c > 0 && t[c - 1] != '\n' {
        lemma_line_start_of(t, c - 1);
    }
}

/// Two texts free of `p` joined by a newline are free of `p`, when `p`
/// holds no newline.
proof fn lemma_absent_around_nl(a: Seq<char>, b: Seq<char>, p: Seq<char>)
    requires
        absent(a, p),
        absent(b, p),
        p.len() > 0,
        free_of(p, '\n'),
    ensures
        absent(a + seq!['\n'] + b, p),
{
    let z = a + seq!['\n'] + b;
    let al = a.len() as int;
    assert forall|j: int| !occurs_at(z, p, j) by {
        if occurs_at(z, p, j) {
            if j + p.len() <= al {
                assert(z.subrange(j, j + p.len()) =~= a.subrange(j, j + p.len()));
                assert(occurs_at(a, p, j));
            } else if j > al {
                assert(z.subrange(j, j + p.len()) =~= b.subrange(j - al - 1, j - al - 1 + p.len()));
                assert(occurs_at(b, p, j - al - 1));
            } else {
                assert(z[al] == '\n');
                assert(z.subrange(j, j + p.len())[al - j] == z[al]);
            }
        }
    }
}

/// A text free of `p` that is empty or ends with a newline, followed by
/// a text free of `p`, is free of `p`.
proof fn lemma_absent_after_nl(x: Seq<char>, y: Seq<char>, p: Seq<char>)
    requires
        absent(x, p),
        absent(y, p),
        p.len() > 0,
        free_of(p, '\n'),
        x.len() == 0 || x.last() == '\n',
    ensures
        absent(x + y, p),
{
    let z = x + y;
    let xl = x.len() as int;
    assert forall|j: int| !occurs_at(z, p, j) by {
        if occurs_at(z, p, j) {
            if j >= xl {
                assert(z.subrange(j, j + p.len()) =~= y.subrange(j - xl, j - xl + p.len()));
                assert(occurs_at(y, p, j - xl));
            } else if j + p.len() <= xl {
                assert(z.subrange(j, j + p.len()) =~= x.subrange(j, j + p.len()));
                assert(occurs_at(x, p, j));
            } else {
                assert(z[xl - 1] == '\n');
                assert(z.subrange(j, j + p.len())[xl - 1 - j] == z[xl - 1]);
            }
        }
    }
}

/// Neither marker occurs in `t`.
pub open spec fn marker_free(t: Seq<char>) -> bool {
    absent(t, begin_mark()) && absent(t, end_mark())
}

/// Every line of `t` that starts with a banner marker is exactly `nl`.
pub open spec fn banner_lines_are(t: Seq<char>, nl: Seq<char>) -> bool {
    forall|i: int|
        #![trigger is_line_start(t, i)]
        is_line_start(t, i) && i < t.len() && has_marker_prefix(
            t.subrange(i, t.len() as int),
            banner_marks(),
        ) ==> starts_with(t.subrange(i, t.len() as int), nl) && (i + nl.len() == t.len() || t[i
            + nl.len()] == '\n')
}

/// In the output of the banner replacement, whatever the input, every
/// line that starts with a banner marker is the banner line.
proof fn lemma_replace_from_banner(t: Seq<char>, i: int, nl: Seq<char>)
    requires
        0 <= i,
        free_of(nl, '\n'),
    ensures
        banner_lines_are(replace_from(t, i, banner_marks(), nl), nl),
    decreases t.len() - i,
{
    let ms = banner_marks();
    let out = replace_from(t, i, ms, nl);
    if i >= t.len() {
        assert(out.len() == 0);
    } else {
        lemma_line_end(t, i);
        let e = line_end(t, i);
        let raw = if e >= t.len() {
            t.subrange(i, t.len() as int)
        } else {
            strip_cr(t.subrange(i, e))
        };
        let piece = swap_line(raw, ms, nl);
        assert(free_of(raw, '\n')) by {
            assert forall|k: int| 0 <= k < raw.len() implies raw[k] != '\n' by {
                assert(raw[k] == t[i + k]);
            }
        }
        assert(free_of(piece, '\n'));
        let pl = piece.len() as int;
        if e >= t.len() || e + 1 >= t.len() {
            assert(out == piece);
            assert forall|k: int|
                #![trigger is_line_start(out, k)]
                is_line_start(out, k) && k < out.len() && has_marker_prefix(
                    out.subrange(k, out.len() as int),
                    ms,
                ) implies starts_with(out.subrange(k, out.len() as int), nl) && (k + nl.len()
                == out.len() || out[k + nl.len()] == '\n') by {
                if k > 0 {
                    assert(out[k - 1] == piece[k - 1]);
                }
                assert(out.subrange(0, out.len() as int) =~= out);
                assert(piece =~= nl);
                assert(nl.subrange(0, nl.len() as int) =~= nl);
            }
        } else {
            let rest = replace_from(t, e + 1, ms, nl);
            assert(out == piece + seq!['\n'] + rest);
            lemma_replace_from_banner(t, e + 1, nl);
            assert forall|k: int|
                #![trigger is_line_start(out, k)]
                is_line_start(out, k) && k < out.len() && has_marker_prefix(
                    out.subrange(k, out.len() as int),
                    ms,
                ) implies starts_with(out.subrange(k, out.len() as int), nl) && (k + nl.len()
                == out.len() || out[k + nl.len()] == '\n') by {
                if k == 0 {
                    assert(out.subrange(0, out.len() as int) =~= out);
                    assert(out[pl] == '\n');
                    lemma_marker_before(out, pl);
                    assert(out.subrange(0, pl) =~= piece);
                    assert(piece == nl);
                    assert(out.subrange(0, nl.len() as int) =~= nl);
                } else {
                    if k <= pl {
                        assert(out[k - 1] == piece[k - 1]);
                    }
                    let k2 = k - pl - 1;
                    assert(out.subrange(k, out.len() as int) =~= rest.subrange(
                        k2,
                        rest.len() as int,
                    ));
                    if k2 > 0 {
                        assert(rest[k2 - 1] == out[k - 1]);
                    }
                    assert(is_line_start(rest, k2));
                    if k + nl.len() < out.len() {
                        assert(out[k + nl.len()] == rest[k2 + nl.len()]);
                    }
                }
            }
        }
    }
}

/// The output of the line replacement for the lines of `s` from line
/// start `i` on, each ended by a newline.
spec fn prefix_text(s: Seq<char>, i: int, nl: Seq<char>) -> Seq<char> {
    if i >= s.len() {
        Seq::empty()
    } else {
        replace_from(s, i, banner_marks(), nl) + seq!['\n']
    }
}

/// The first newline at or after `i` is at `e`.
proof fn lemma_line_end_at(t: Seq<char>, i: int, e: int)
    requires
        0 <= i <= e < t.len(),
        t[e] == '\n',
        forall|k: int| i <= k < e ==> t[k] != '\n',
    ensures
        line_end(t, i) == e,
    decreases e - i,
{
    if i < e {
        lemma_line_end_at(t, i + 1, e);
    }
}

/// The replacement output of the lines from line start `i` up to line
/// start `p0`, in a region free of markers, is free of markers and ends
/// with a newline (or is empty); it depends only on the text before
/// `p0`.  Returns that output.
#[verifier::rlimit(30)]
proof fn lemma_replace_prefix(t: Seq<char>, i: int, p0: int, nl: Seq<char>) -> (x: Seq<char>)
    requires
        0 <= i <= p0 < t.len(),
        is_line_start(t, i),
        is_line_start(t, p0),
        marker_free(t.subrange(i, p0)),
        free_of(nl, '<'),
    ensures
        replace_from(t, i, banner_marks(), nl) == x + replace_from(t, p0, banner_marks(), nl),
        marker_free(x),
        x.len() == 0 || x.last() == '\n',
        x == prefix_text(t.subrange(0, p0), i, nl),
    decreases p0 - i,
{
    let ms = banner_marks();
    let s = t.subrange(0, p0);
    lemma_begin_mark_chars();
    lemma_end_mark_chars();
    if i == p0 {
        let x = Seq::<char>::empty();
        assert(x + replace_from(t, p0, ms, nl) =~= replace_from(t, p0, ms, nl));
        x
    } else {
        lemma_line_end(t, i);
        let e = line_end(t, i);
        assert(t[p0 - 1] == '\n');
        assert(e <= p0 - 1);
        let line = t.subrange(i, e);
        let raw = strip_cr(line);
        let piece = swap_line(raw, ms, nl);
        assert(replace_from(t, i, ms, nl) == piece + seq!['\n'] + replace_from(t, e + 1, ms, nl));
        let re = i + raw.len();
        let g = t.subrange(i, p0);
        assert(raw =~= g.subrange(0, re - i));
        lemma_absent_sub(g, begin_mark(), 0, re - i);
        lemma_absent_sub(g, end_mark(), 0, re - i);
        lemma_no_lt_absent(nl);
        assert(marker_free(piece));
        lemma_absent_sub(g, begin_mark(), e + 1 - i, p0 - i);
        lemma_absent_sub(g, end_mark(), e + 1 - i, p0 - i);
        assert(g.subrange(e + 1 - i, p0 - i) =~= t.subrange(e + 1, p0));
        let x2 = lemma_replace_prefix(t, e + 1, p0, nl);
        lemma_absent_around_nl(piece, x2, begin_mark());
        lemma_absent_around_nl(piece, x2, end_mark());
        let x = piece + seq!['\n'] + x2;
        assert(replace_from(t, i, ms, nl) =~= x + replace_from(t, p0, ms, nl));
        if x2.len() > 0 {
            assert(x.last() == x2.last());
        }
        lemma_line_end(s, i);
        assert(line_end(s, i) == e) by {
            assert(s[e] == t[e]);
            lemma_line_end_at(s, i, e);
        }
        assert(s.subrange(i, e) =~= line);
        if e + 1 < p0 {
            assert(replace_from(s, i, ms, nl) == piece + seq!['\n'] + replace_from(s, e + 1, ms, nl));
            assert(x =~= prefix_text(s, i, nl));
        } else {
            assert(replace_from(s, i, ms, nl) == piece);
            assert(x2.len() == 0);
            assert(x =~= prefix_text(s, i, nl));
        }
        x
    }
}

/// From a line start `i` before `m`, where no line starting in `[i, m)`
/// starts with a banner marker, the replacement output begins with
/// `t[i..m]` unchanged.  The region `[c, m)` holds no carriage return and
/// ends with a character other than a newline, and when `i <= c` the
/// line from `i` runs past `c`.  Returns the rest of the output.
proof fn lemma_replace_inert(t: Seq<char>, i: int, c: int, m: int, nl: Seq<char>) -> (z: Seq<char>)
    requires
        0 <= i < m <= t.len(),
        c < m,
        is_line_start(t, i),
        forall|k: int| c <= k < m ==> t[k] != '\r',
        t[m - 1] != '\n',
        i <= c ==> forall|k: int| i <= k <= c ==> t[k] != '\n',
        forall|k: int|
            #![trigger is_line_start(t, k)]
            i <= k < m && is_line_start(t, k) ==> !has_marker_prefix(
                t.subrange(k, t.len() as int),
                banner_marks(),
            ),
    ensures
        replace_from(t, i, banner_marks(), nl) == t.subrange(i, m) + z,
    decreases m - i,
{
    let ms = banner_marks();
    lemma_line_end(t, i);
    let e = line_end(t, i);
    assert(is_line_start(t, i));
    let line = t.subrange(i, e);
    if e >= m {
        let raw = if e >= t.len() {
            line
        } else {
            strip_cr(line)
        };
        assert(raw.len() >= m - i) by {
            if e < t.len() && line.len() > 0 && line.last() == '\r' {
                assert(line.last() == t[e - 1]);
                assert(e - 1 >= m);
            }
        }
        assert(raw.subrange(0, m - i) =~= t.subrange(i, m));
        if has_marker_prefix(raw, ms) {
            assert(raw =~= t.subrange(i, t.len() as int).subrange(0, raw.len() as int));
            lemma_marker_extend(t.subrange(i, t.len() as int), raw.len() as int);
        }
        assert(swap_line(raw, ms, nl) == raw);
        let rest: Seq<char> = if e >= t.len() || e + 1 >= t.len() {
            Seq::empty()
        } else {
            seq!['\n'] + replace_from(t, e + 1, ms, nl)
        };
        assert(replace_from(t, i, ms, nl) == raw + rest);
        let z = raw.subrange(m - i, raw.len() as int) + rest;
        assert(raw + rest =~= t.subrange(i, m) + z);
        z
    } else {
        assert(t[e] == '\n');
        assert(e > c) by {
            if i <= c && e <= c {
                assert(t[e] != '\n');
            }
        }
        assert(t[e - 1] != '\r') by {
            if e - 1 < i {
                assert(line.len() == 0);
            } else {
                assert(c <= e - 1 || e - 1 >= i);
            }
        }
        assert(strip_cr(line) == line) by {
            if line.len() > 0 {
                assert(line.last() == t[e - 1]);
                if e - 1 < c {
                    assert(i <= c);
                }
            }
        }
        if has_marker_prefix(line, ms) {
            assert(line =~= t.subrange(i, t.len() as int).subrange(0, e - i));
            lemma_marker_extend(t.subrange(i, t.len() as int), e - i);
        }
        assert(swap_line(line, ms, nl) == line);
        assert(e + 1 < m);
        assert(is_line_start(t, e + 1));
        let z2 = lemma_replace_inert(t, e + 1, c, m, nl);
        assert(replace_from(t, i, ms, nl) == line + seq!['\n'] + replace_from(t, e + 1, ms, nl));
        assert(line + seq!['\n'] + (t.subrange(e + 1, m) + z2) =~= t.subrange(i, m) + z2);
        z2
    }
}

/// Refreshing the banner lines of a text that holds a well-formed block
/// after a marker-free prefix, where the line holding the start of the
/// block is no banner line, keeps the block in place, so splicing the
/// block in again changes nothing.
pub proof fn lemma_restamp_splice(pre: Seq<char>, n: Seq<char>, w: Seq<char>, nl2: Seq<char>)
    requires
        well_formed_block(n),
        marker_free(pre),
        free_of(nl2, '<'),
        !has_marker_prefix(
            (pre + n + w).subrange(line_start_of(pre + n + w, pre.len() as int), (pre + n + w).len() as int),
            banner_marks(),
        ),
    ensures
        splice_live_block(replace_lines(pre + n + w, banner_marks(), nl2), n) == Ok::<
            Seq<char>,
            ReadmeError,
        >(replace_lines(pre + n + w, banner_marks(), nl2)),
{
    let ms = banner_marks();
    let t = pre + n + w;
    let pl = pre.len() as int;
    let m = pl + n.len();
    lemma_block_last(n);
    lemma_begin_mark_chars();
    lemma_end_mark_chars();
    assert(t[pl] == n[0]);
    assert(t[m - 1] == n.last());
    assert forall|k: int| pl <= k < m implies t[k] != '\r' by {
        assert(t[k] == n[k - pl]);
    }
    lemma_line_start_of(t, pl);
    let p0 = line_start_of(t, pl);
    assert forall|k: int|
        #![trigger is_line_start(t, k)]
        p0 <= k < m && is_line_start(t, k) implies !has_marker_prefix(
        t.subrange(k, t.len() as int),
        ms,
    ) by {
        if k <= pl {
            if k > p0 {
                assert(t[k - 1] == '\n');
            }
            assert(k == p0);
        } else {
            let j = k - pl;
            assert(n[j - 1] == t[k - 1]);
            lemma_block_lines(n, w, j);
            assert(t.subrange(k, t.len() as int) =~= (n + w).subrange(j, (n + w).len() as int));
        }
    }
    assert(pre.subrange(0, p0) =~= t.subrange(0, p0));
    lemma_absent_sub(pre, begin_mark(), 0, p0);
    lemma_absent_sub(pre, end_mark(), 0, p0);
    let x = lemma_replace_prefix(t, 0, p0, nl2);
    let z = lemma_replace_inert(t, p0, pl, m, nl2);
    let h = t.subrange(p0, pl);
    assert(h =~= pre.subrange(p0, pl));
    lemma_absent_sub(pre, begin_mark(), p0, pl);
    lemma_absent_sub(pre, end_mark(), p0, pl);
    lemma_absent_after_nl(x, h, begin_mark());
    lemma_absent_after_nl(x, h, end_mark());
    let a = x + h;
    assert(t.subrange(p0, m) =~= h + n);
    assert(replace_lines(t, ms, nl2) =~= a + n + z);
    lemma_splice_again(a, n, z, n);
}

/// The line of `u` that holds position `c`, where `u[c]` is `'<'` or
/// `'#'` and every banner line of `u` is a line free of both, is no
/// banner line; nor is it once the text from `c` on is replaced by any
/// text starting with `'<'`.
proof fn lemma_cut_line_plain(u: Seq<char>, c: int, nl: Seq<char>, rest: Seq<char>)
    requires
        0 <= c < u.len(),
        u[c] == '<' || u[c] == '#',
        banner_lines_are(u, nl),
        free_of(nl, '<'),
        free_of(nl, '#'),
        rest.len() > 0,
        rest[0] == '<',
    ensures
        line_start_of(u.subrange(0, c) + rest, c) == line_start_of(u, c),
        !has_marker_prefix(
            (u.subrange(0, c) + rest).subrange(line_start_of(u, c), (u.subrange(0, c) + rest).len() as int),
            banner_marks(),
        ),
    decreases c,
{
    let t = u.subrange(0, c) + rest;
    lemma_line_start_of(u, c);
    let p0 = line_start_of(u, c);
    assert(line_start_of(t, c) == line_start_of(u, c)) by {
        lemma_line_start_agree(u, t, c);
    }
    let x = t.subrange(p0, t.len() as int);
    if has_marker_prefix(x, banner_marks()) {
        assert(x[c - p0] == rest[0]);
        lemma_marker_before(x, c - p0);
        assert(x.subrange(0, c - p0) =~= u.subrange(p0, u.len() as int).subrange(0, c - p0));
        lemma_marker_extend(u.subrange(p0, u.len() as int), c - p0);
        assert(is_line_start(u, p0));
        let su = u.subrange(p0, u.len() as int);
        assert(starts_with(su, nl));
        let d = p0 + nl.len();
        if d > c {
            assert(u[c] == su.subrange(0, nl.len() as int)[c - p0]);
        } else if d < c {
            assert(u[d] == '\n');
        } else {
            assert(d < u.len());
        }
    }
}

/// Two texts that agree before `c` have the same line start for `c`.
proof fn lemma_line_start_agree(u: Seq<char>, t: Seq<char>, c: int)
    requires
        0 <= c <= u.len(),
        c <= t.len(),
        forall|k: int| 0 <= k < c ==> u[k] == t[k],
    ensures
        line_start_of(u, c) == line_start_of(t, c),
    decreases c,
{
    if c > 0 {
        lemma_line_start_agree(u, t, c - 1);
    }
}

/// Shape of a successful rewrite, for any source: the block stands after
/// a marker-free prefix, and the line holding the start of the block is
/// no banner line.  The rewrite with any `other` block succeeds alike and
/// puts `other` in the same place.  Returns the prefix and the rest.
pub proof fn lemma_rewrite_cut(source: Seq<char>, stamp: Seq<char>, block: Seq<char>, other: Seq<char>) -> (pw: (
    Seq<char>,
    Seq<char>,
))
    requires
        clean_stamp(stamp),
        well_formed_block(block),
    ensures
        readme_rewrite(source, stamp, block) is Ok <==> readme_rewrite(source, stamp, other) is Ok,
        readme_rewrite(source, stamp, block) matches Ok(r) ==> {
            &&& r == pw.0 + block + pw.1
            &&& readme_rewrite(source, stamp, other) == Ok::<Seq<char>, ReadmeError>(pw.0 + other + pw.1)
            &&& marker_free(pw.0)
            &&& !has_marker_prefix(
                r.subrange(line_start_of(r, pw.0.len() as int), r.len() as int),
                banner_marks(),
            )
        },
{
    let ms = banner_marks();
    let nl = banner_line(stamp);
    lemma_banner_line(stamp);
    lemma_begin_mark_chars();
    lemma_end_mark_chars();
    lemma_anchor_chars();
    lemma_block_last(block);
    let bm = begin_mark();
    let em = end_mark();
    let bl = bm.len() as int;
    let el = em.len() as int;
    let u = replace_lines(source, ms, nl);
    lemma_replace_from_banner(source, 0, nl);
    lemma_first_occ(u, bm);
    lemma_first_occ(u, em);
    match (first_occ(u, bm), first_occ(u, em)) {
        (Some(b), Some(e)) => {
            if e > b {
                let pre = u.subrange(0, b);
                let q = u.subrange(e + el, u.len() as int);
                let r = pre + block + q;
                assert(u[b] == u.subrange(b, b + bl)[0]);
                assert forall|j: int| !occurs_at(pre, bm, j) by {
                    if occurs_at(pre, bm, j) {
                        assert(pre.subrange(j, j + bl) =~= u.subrange(j, j + bl));
                        assert(occurs_at(u, bm, j));
                    }
                }
                assert forall|j: int| !occurs_at(pre, em, j) by {
                    if occurs_at(pre, em, j) {
                        assert(pre.subrange(j, j + el) =~= u.subrange(j, j + el));
                        assert(occurs_at(u, em, j));
                    }
                }
                lemma_cut_line_plain(u, b, nl, block + q);
                assert(u.subrange(0, b) + (block + q) =~= r);
                return (pre, q);
            }
        },
        (None, None) => {
            lemma_first_occ(u, forecast_header());
            match first_occ(u, forecast_header()) {
                None => {},
                Some(start) => {
                    let tail = u.subrange(start, u.len() as int);
                    lemma_first_occ(tail, next_level2());
                    match first_occ(tail, next_level2()) {
                        None => {},
                        Some(off) => {
                            let rs = rule_sep();
                            let pre = u.subrange(0, start);
                            let q = u.subrange(start + off, u.len() as int);
                            let r = pre + block + rs + q;
                            assert(u[start] == u.subrange(start, start + forecast_header().len())[0]);
                            assert forall|j: int| !occurs_at(pre, bm, j) by {
                                assert(!occurs_at(u, bm, j));
                                if occurs_at(pre, bm, j) {
                                    assert(pre.subrange(j, j + bl) =~= u.subrange(j, j + bl));
                                }
                            }
                            assert forall|j: int| !occurs_at(pre, em, j) by {
                                assert(!occurs_at(u, em, j));
                                if occurs_at(pre, em, j) {
                                    assert(pre.subrange(j, j + el) =~= u.subrange(j, j + el));
                                }
                            }
                            lemma_cut_line_plain(u, start, nl, block + (rs + q));
                            assert(u.subrange(0, start) + (block + (rs + q)) =~= r);
                            assert(pre + block + (rs + q) =~= r);
                            assert(pre + other + rs + q =~= pre + other + (rs + q));
                            return (pre, rs + q);
                        },
                    }
                },
            }
        },
        _ => {},
    }
    (Seq::empty(), Seq::empty())
}

/// A later rewrite changes nothing but the banner lines: for any README,
/// rewriting the result of a successful rewrite with stamp `t2` and the
/// same well-formed block gives that result with its lines re-split and
/// every banner line refreshed to `t2`.
pub proof fn lemma_rewrite_restamp(
    source: Seq<char>,
    t1: Seq<char>,
    t2: Seq<char>,
    block: Seq<char>,
)
    requires
        clean_stamp(t1),
        clean_stamp(t2),
        well_formed_block(block),
    ensures
        readme_rewrite(source, t1, block) matches Ok(r) ==> readme_rewrite(r, t2, block) == Ok::<
            Seq<char>,
            ReadmeError,
        >(replace_lines(r, banner_marks(), banner_line(t2))),
{
    let (pre, w) = lemma_rewrite_cut(source, t1, block, block);
    if readme_rewrite(source, t1, block) is Ok {
        lemma_banner_line(t2);
        lemma_restamp_splice(pre, block, w, banner_line(t2));
    }
}


/// The lines of `t` from line start `i` on, split at every newline, each
/// replaced by `swap_line` and joined with `'\n'`: the banner lines are
/// refreshed and every other character stays where it is.
pub open spec fn swap_lines_from(t: Seq<char>, i: int, ms: Seq<Seq<char>>, nl: Seq<char>) -> Seq<
    char,
>
    decreases t.len() - i,
{
    if i < 0 || i > t.len() {
        Seq::empty()
    } else {
        let e = line_end(t, i);
        if e >= t.len() {
            swap_line(t.subrange(i, t.len() as int), ms, nl)
        } else {
            proof {
                lemma_line_end(t, i);
            }
            swap_line(t.subrange(i, e), ms, nl) + seq!['\n'] + swap_lines_from(t, e + 1, ms, nl)
        }
    }
}

/// `t` with each of its banner lines replaced by `nl`.
pub open spec fn swap_banner_lines(t: Seq<char>, nl: Seq<char>) -> Seq<char> {
    swap_lines_from(t, 0, banner_marks(), nl)
}

/// On a text with no carriage return before a newline and no trailing
/// newline, the banner replacement only swaps banner lines.
proof fn lemma_replace_is_swap(t: Seq<char>, i: int, ms: Seq<Seq<char>>, nl: Seq<char>)
    requires
        0 <= i < t.len(),
        is_line_start(t, i),
        cr_clean(t),
        t.last() != '\n',
    ensures
        replace_from(t, i, ms, nl) == swap_lines_from(t, i, ms, nl),
    decreases t.len() - i,
{
    lemma_line_piece(t, i);
    let e = line_end(t, i);
    if e < t.len() {
        assert(e + 1 < t.len());
        lemma_replace_is_swap(t, e + 1, ms, nl);
    }
}

/// Repeating a rewrite changes nothing but the banner lines: for a
/// source without two carriage returns before a newline and not ending
/// with an empty line, rewriting the result of a successful rewrite with
/// any stamp `t2` gives that result with each banner line replaced by
/// the banner line of `t2` (and, with the first stamp, the result
/// itself).
pub proof fn lemma_rewrite_repeat(
    source: Seq<char>,
    t1: Seq<char>,
    t2: Seq<char>,
    block: Seq<char>,
)
    requires
        clean_stamp(t1),
        clean_stamp(t2),
        well_formed_block(block),
        no_double_cr(source),
        !ends_with_blank_line(source),
    ensures
        readme_rewrite(source, t1, block) matches Ok(r) ==> {
            &&& readme_rewrite(r, t2, block) == Ok::<Seq<char>, ReadmeError>(
                swap_banner_lines(r, banner_line(t2)),
            )
            &&& swap_banner_lines(r, banner_line(t1)) == r
        },
{
    let (pre, w) = lemma_rewrite_shape(source, t1, block);
    if readme_rewrite(source, t1, block) is Ok {
        let r = readme_rewrite(source, t1, block)->Ok_0;
        lemma_block_last(block);
        assert(r.len() > 0) by {
            assert(r[pre.len() as int] == block[0]);
        }
        lemma_rewrite_restamp(source, t1, t2, block);
        lemma_rewrite_restamp(source, t1, t1, block);
        lemma_rewrite_idempotent(source, t1, block);
        lemma_replace_is_swap(r, 0, banner_marks(), banner_line(t2));
        lemma_replace_is_swap(r, 0, banner_marks(), banner_line(t1));
    }
}


/// Line ends are found at the same place after a prefix.
proof fn lemma_line_end_shift(p: Seq<char>, r: Seq<char>, j: int)
    requires
        0 <= j,
    ensures
        line_end(p + r, p.len() + j) == p.len() + line_end(r, j),
    decreases r.len() - j,
{
    let x = p + r;
    if j < r.len() && r[j] != '\n' {
        assert(x[p.len() + j] == r[j]);
        lemma_line_end_shift(p, r, j + 1);
    } else if j < r.len() {
        assert(x[p.len() + j] == r[j]);
    }
}

/// The line replacement from a position after a prefix only sees the
/// text after the prefix.
proof fn lemma_replace_from_shift(p: Seq<char>, r: Seq<char>, j: int, ms: Seq<Seq<char>>, nl: Seq<char>)
    requires
        0 <= j,
    ensures
        replace_from(p + r, p.len() + j, ms, nl) == replace_from(r, j, ms, nl),
    decreases r.len() - j,
{
    let x = p + r;
    let pl = p.len() as int;
    if j < r.len() {
        lemma_line_end_shift(p, r, j);
        lemma_line_end(r, j);
        let e = line_end(r, j);
        assert(x.subrange(pl + j, pl + e) =~= r.subrange(j, e));
        assert(x.subrange(pl + j, x.len() as int) =~= r.subrange(j, r.len() as int));
        if e + 1 < r.len() {
            lemma_replace_from_shift(p, r, e + 1, ms, nl);
        }
    }
}

/// Some line of the output is nonempty when the text does not end with
/// an empty line: the output from a later line start is not empty.
proof fn lemma_replace_nonempty(t: Seq<char>, i: int, ms: Seq<Seq<char>>, nl: Seq<char>)
    requires
        0 < i < t.len(),
        t[i - 1] == '\n',
        !ends_with_blank_line(t),
        nl.len() > 0,
    ensures
        replace_from(t, i, ms, nl).len() > 0,
{
    lemma_line_end(t, i);
    let e = line_end(t, i);
    if e + 1 >= t.len() {
        let raw = if e >= t.len() {
            t.subrange(i, t.len() as int)
        } else {
            strip_cr(t.subrange(i, e))
        };
        if raw.len() == 0 && !has_marker_prefix(raw, ms) {
            let line = t.subrange(i, e);
            assert(e == t.len() - 1);
            if line.len() == 0 {
                assert(i == e);
            } else {
                assert(line.len() == 1);
                assert(t[i] == line[0]);
            }
            assert(ends_with_blank_line(t));
        }
    }
}

/// Replacing marker lines is idempotent for any marker list, when the new
/// line is a nonempty single line that itself starts with a marker and
/// the text has no carriage return and does not end with an empty line:
/// replacing again leaves the output unchanged.
pub proof fn lemma_replace_lines_idempotent(t: Seq<char>, ms: Seq<Seq<char>>, nl: Seq<char>)
    requires
        free_of(t, '\r'),
        !ends_with_blank_line(t),
        nl.len() > 0,
        free_of(nl, '\n'),
        free_of(nl, '\r'),
        has_marker_prefix(nl, ms),
    ensures
        replace_lines(replace_lines(t, ms, nl), ms, nl) == replace_lines(t, ms, nl),
{
    if t.len() == 0 {
        assert(replace_lines(t, ms, nl) == Seq::<char>::empty());
    } else {
        lemma_replace_fixed(t, 0, ms, nl);
    }
}

/// The output of the line replacement from line start `i` is a fixed
/// point of the replacement.
proof fn lemma_replace_fixed(t: Seq<char>, i: int, ms: Seq<Seq<char>>, nl: Seq<char>)
    requires
        0 <= i < t.len(),
        i == 0 || t[i - 1] == '\n',
        free_of(t, '\r'),
        !ends_with_blank_line(t),
        nl.len() > 0,
        free_of(nl, '\n'),
        free_of(nl, '\r'),
        has_marker_prefix(nl, ms),
    ensures
        replace_lines(replace_from(t, i, ms, nl), ms, nl) == replace_from(t, i, ms, nl),
    decreases t.len() - i,
{
    let u = replace_from(t, i, ms, nl);
    lemma_line_end(t, i);
    let e = line_end(t, i);
    let line = t.subrange(i, e);
    let raw = if e >= t.len() {
        t.subrange(i, t.len() as int)
    } else {
        strip_cr(line)
    };
    if e < t.len() && line.len() > 0 {
        assert(line.last() == t[e - 1]);
    }
    assert(raw =~= t.subrange(i, i + raw.len()));
    let piece = swap_line(raw, ms, nl);
    assert(free_of(piece, '\n') && free_of(piece, '\r')) by {
        assert forall|k: int| 0 <= k < raw.len() implies raw[k] != '\n' && raw[k] != '\r' by {
            assert(raw[k] == t[i + k]);
        }
    }
    assert(swap_line(piece, ms, nl) == piece);
    assert(strip_cr(piece) == piece) by {
        if piece.len() > 0 {
            assert(piece.last() == piece[piece.len() - 1]);
        }
    }
    let pl = piece.len() as int;
    lemma_line_end_shift(Seq::<char>::empty(), piece, 0);
    if e + 1 >= t.len() {
        assert(u == piece);
        if pl > 0 {
            assert forall|k: int| 0 <= k < pl implies piece[k] != '\n' by {}
            lemma_line_end(piece, 0);
            assert(line_end(piece, 0) == pl) by {
                if line_end(piece, 0) < pl {
                    assert(piece[line_end(piece, 0)] == '\n');
                }
            }
            assert(piece.subrange(0, pl) =~= piece);
        }
    } else {
        let rest = replace_from(t, e + 1, ms, nl);
        assert(u == piece + seq!['\n'] + rest);
        lemma_replace_nonempty(t, e + 1, ms, nl);
        lemma_replace_fixed(t, e + 1, ms, nl);
        let head = piece + seq!['\n'];
        assert(u =~= head + rest);
        lemma_line_end(u, 0);
        assert(line_end(u, 0) == pl) by {
            assert(u[pl] == '\n');
            if line_end(u, 0) < pl {
                assert(u[line_end(u, 0)] == piece[line_end(u, 0)]);
            }
        }
        assert(u.subrange(0, pl) =~= piece);
        lemma_replace_from_shift(head, rest, 0, ms, nl);
        assert(replace_from(u, pl + 1, ms, nl) == replace_from(rest, 0, ms, nl));
    }
}

/// The live block with nothing between its markers.
pub open spec fn bare_block() -> Seq<char> {
    begin_mark() + end_mark()
}

/// The bare block is a well-formed block whose end line is plain.
pub proof fn lemma_bare_block()
    ensures
        well_formed_block(bare_block()),
        end_line_plain(bare_block()),
{
    lemma_begin_mark_chars();
    lemma_end_mark_chars();
    lemma_marks_differ();
    let bm = begin_mark();
    let em = end_mark();
    let n = bare_block();
    assert(n.len() == 60);
    assert(n.subrange(0, 31) =~= bm);
    assert(n.subrange(31, 60) =~= em);
    assert forall|k: int| 0 <= k < 60 implies n[k] != '\n' && n[k] != '\r' by {
        if k >= 31 {
            assert(n[k] == em[k - 31]);
        }
    }
    assert forall|j: int| 0 < j implies !occurs_at(n, bm, j) by {
        if occurs_at(n, bm, j) {
            assert(n.subrange(j, j + 31)[0] == bm[0]);
            assert(n[j] == bm[j]);
        }
    }
    assert forall|j: int| 0 <= j < n.len() - em.len() implies !occurs_at(n, em, j) by {
        if occurs_at(n, em, j) {
            assert(n.subrange(j, j + 29)[0] == em[0]);
            if j == 0 {
                assert(n.subrange(0, 29)[5] == em[5]);
                assert(n[5] == bm[5]);
            } else {
                assert(n[j] == bm[j]);
            }
        }
    }
    lemma_line_start_of(n, 60);
    let ls = line_start_of(n, 60);
    assert(ls == 0);
    assert(n.subrange(0, 60)[0] == '<');
    lemma_no_marker_first(n.subrange(0, 60));
}

/// A line that is no banner line and does not end with a carriage
/// return, followed by a newline and more text, is copied as it is.
proof fn lemma_replace_keep_line(t: Seq<char>, i: int, nl: Seq<char>)
    requires
        0 <= i < t.len(),
        line_end(t, i) + 1 < t.len(),
        line_end(t, i) > i ==> t[line_end(t, i) - 1] != '\r',
        !has_marker_prefix(t.subrange(i, t.len() as int), banner_marks()),
    ensures
        replace_from(t, i, banner_marks(), nl) == t.subrange(i, line_end(t, i)) + seq!['\n']
            + replace_from(t, line_end(t, i) + 1, banner_marks(), nl),
{
    let ms = banner_marks();
    lemma_line_end(t, i);
    let e = line_end(t, i);
    let line = t.subrange(i, e);
    if line.len() > 0 {
        assert(line.last() == t[e - 1]);
    }
    assert(strip_cr(line) == line);
    if has_marker_prefix(line, ms) {
        assert(line =~= t.subrange(i, t.len() as int).subrange(0, e - i));
        lemma_marker_extend(t.subrange(i, t.len() as int), e - i);
    }
}

/// The replacement output of a text `w` that continues a line which is
/// no banner line and whose last character before `w` is no carriage
/// return.
spec fn tail_out(w: Seq<char>, nl: Seq<char>) -> Seq<char> {
    let e = line_end(w, 0);
    if e >= w.len() {
        w
    } else if e + 1 >= w.len() {
        strip_cr(w.subrange(0, e))
    } else {
        strip_cr(w.subrange(0, e)) + seq!['\n'] + replace_from(w, e + 1, banner_marks(), nl)
    }
}

/// From a line start `i` of a line that is no banner line and holds no
/// newline before `m`, the replacement output is `t[i..m]` followed by
/// the output for the rest of the text.
#[verifier::rlimit(30)]
proof fn lemma_replace_tail(t: Seq<char>, i: int, m: int, nl: Seq<char>)
    requires
        0 <= i < m <= t.len(),
        forall|k: int| i <= k < m ==> t[k] != '\n',
        t[m - 1] != '\r',
        !has_marker_prefix(t.subrange(i, t.len() as int), banner_marks()),
    ensures
        replace_from(t, i, banner_marks(), nl) == t.subrange(i, m) + tail_out(
            t.subrange(m, t.len() as int),
            nl,
        ),
{
    let ms = banner_marks();
    let p = t.subrange(0, m);
    let w = t.subrange(m, t.len() as int);
    assert(t =~= p + w);
    lemma_line_end(w, 0);
    let ew = line_end(w, 0);
    let e = m + ew;
    lemma_line_end(t, i);
    if ew < w.len() {
        assert(t[e] == w[ew]);
        assert forall|k: int| i <= k < e implies t[k] != '\n' by {
            if k >= m {
                assert(t[k] == w[k - m]);
            }
        }
        lemma_line_end_at(t, i, e);
        let line = t.subrange(i, e);
        let raw = strip_cr(line);
        let wl = w.subrange(0, ew);
        if ew > 0 {
            assert(line.last() == wl.last());
            assert(line =~= t.subrange(i, m) + wl);
            if wl.last() == '\r' {
                assert(raw =~= t.subrange(i, m) + strip_cr(wl));
            } else {
                assert(raw =~= t.subrange(i, m) + strip_cr(wl));
            }
        } else {
            assert(line.last() == t[m - 1]);
            assert(raw =~= t.subrange(i, m) + strip_cr(wl));
        }
        if has_marker_prefix(raw, ms) {
            assert(raw =~= t.subrange(i, t.len() as int).subrange(0, raw.len() as int));
            lemma_marker_extend(t.subrange(i, t.len() as int), raw.len() as int);
        }
        assert(swap_line(raw, ms, nl) == raw);
        if e + 1 < t.len() {
            lemma_replace_from_shift(p, w, ew + 1, ms, nl);
            assert(replace_from(t, i, ms, nl) == raw + seq!['\n'] + replace_from(t, e + 1, ms, nl));
            assert(replace_from(t, i, ms, nl) =~= t.subrange(i, m) + tail_out(w, nl));
        } else {
            assert(replace_from(t, i, ms, nl) =~= t.subrange(i, m) + tail_out(w, nl));
        }
    } else {
        assert forall|k: int| i <= k < t.len() implies t[k] != '\n' by {
            if k >= m {
                assert(t[k] == w[k - m]);
            }
        }
        assert(line_end(t, i) == t.len()) by {
            if line_end(t, i) < t.len() {
                assert(t[line_end(t, i)] == '\n');
            }
        }
        assert(replace_from(t, i, ms, nl) == swap_line(t.subrange(i, t.len() as int), ms, nl));
        assert(t.subrange(i, t.len() as int) =~= t.subrange(i, m) + w);
    }
}


/// A marked block keeps its markers when the lines strictly between its
/// first line and its last line are replaced by marker-free lines.
#[verifier::rlimit(30)]
proof fn lemma_marked_rebuild(n: Seq<char>, f: int, ls: int, m2: Seq<char>)
    requires
        marked_block(n),
        0 <= f < ls <= n.len(),
        n[f] == '\n',
        forall|k: int| 0 <= k < f ==> n[k] != '\n',
        n[ls - 1] == '\n',
        forall|k: int| ls <= k < n.len() ==> n[k] != '\n',
        marker_free(m2),
        m2.len() == 0 || m2.last() == '\n',
    ensures
        marked_block(n.subrange(0, f + 1) + m2 + n.subrange(ls, n.len() as int)),
{
    lemma_begin_mark_chars();
    lemma_end_mark_chars();
    let bm = begin_mark();
    let em = end_mark();
    let nn = n.len() as int;
    let fl = n.subrange(0, f + 1);
    let ll = n.subrange(ls, nn);
    let z = fl + m2 + ll;
    let a = f + 1;
    let b = m2.len() as int;
    let zl = z.len() as int;
    assert(f >= 31) by {
        if f < 31 {
            assert(n[f] == n.subrange(0, 31)[f]);
        }
    }
    assert(ls <= nn - 29) by {
        if ls - 1 >= nn - 29 {
            assert(n[ls - 1] == n.subrange(nn - 29, nn)[ls - 1 - (nn - 29)]);
        }
    }
    assert(z.subrange(0, 31) =~= n.subrange(0, 31));
    assert(z.subrange(zl - 29, zl) =~= n.subrange(nn - 29, nn));
    assert(z[a - 1] == '\n');
    if b > 0 {
        assert(z[a + b - 1] == m2.last());
    }
    assert forall|j: int| 0 < j implies !occurs_at(z, bm, j) by {
        if occurs_at(z, bm, j) {
            if j + 31 <= a {
                assert(z.subrange(j, j + 31) =~= n.subrange(j, j + 31));
                assert(occurs_at(n, bm, j));
            } else if j < a {
                lemma_no_occ_at(z, bm, j, a - 1);
            } else if j + 31 <= a + b {
                assert(z.subrange(j, j + 31) =~= m2.subrange(j - a, j - a + 31));
                assert(occurs_at(m2, bm, j - a));
            } else if j < a + b {
                lemma_no_occ_at(z, bm, j, a + b - 1);
            } else {
                let q = ls + j - a - b;
                assert(z.subrange(j, j + 31) =~= n.subrange(q, q + 31));
                assert(occurs_at(n, bm, q));
            }
        }
    }
    assert forall|j: int| 0 <= j < zl - 29 implies !occurs_at(z, em, j) by {
        if occurs_at(z, em, j) {
            if j + 29 <= a {
                assert(z.subrange(j, j + 29) =~= n.subrange(j, j + 29));
                assert(occurs_at(n, em, j));
            } else if j < a {
                lemma_no_occ_at(z, em, j, a - 1);
            } else if j + 29 <= a + b {
                assert(z.subrange(j, j + 29) =~= m2.subrange(j - a, j - a + 29));
                assert(occurs_at(m2, em, j - a));
            } else if j < a + b {
                lemma_no_occ_at(z, em, j, a + b - 1);
            } else {
                let q = ls + j - a - b;
                assert(z.subrange(j, j + 29) =~= n.subrange(q, q + 29));
                assert(occurs_at(n, em, q));
            }
        }
    }
}

/// The text kept before the block by a later rewrite: the lines before
/// the line holding the block start, replaced and each ended by a
/// newline, then the start of that line as it stands.
spec fn head_out(pre: Seq<char>, nl: Seq<char>) -> Seq<char> {
    let p0 = line_start_of(pre, pre.len() as int);
    prefix_text(pre.subrange(0, p0), 0, nl) + pre.subrange(p0, pre.len() as int)
}

/// Rewriting `pre + n + w` again, for a marked block `n` without carriage
/// return whose end line is plain, after a marker-free `pre`, where the
/// line holding the start of `n` is no banner line: the banner
/// replacement may change lines inside `n`, but the markers of `n` stay,
/// so splicing any block `b` in gives `b` between a head that depends only
/// on `pre` and a tail that depends only on `w`.
#[verifier::rlimit(30)]
proof fn lemma_again_splice(pre: Seq<char>, n: Seq<char>, w: Seq<char>, nl: Seq<char>, b: Seq<char>)
    requires
        marked_block(n),
        free_of(n, '\r'),
        end_line_plain(n),
        marker_free(pre),
        free_of(nl, '<'),
        free_of(nl, '\n'),
        !has_marker_prefix(
            (pre + n + w).subrange(line_start_of(pre + n + w, pre.len() as int), (pre + n + w).len() as int),
            banner_marks(),
        ),
    ensures
        marker_free(head_out(pre, nl)),
        splice_live_block(replace_lines(pre + n + w, banner_marks(), nl), b) == Ok::<
            Seq<char>,
            ReadmeError,
        >(head_out(pre, nl) + b + tail_out(w, nl)),
{
    let ms = banner_marks();
    lemma_begin_mark_chars();
    lemma_end_mark_chars();
    let bm = begin_mark();
    let em = end_mark();
    let t = pre + n + w;
    let pl = pre.len() as int;
    let nn = n.len() as int;
    let m = pl + nn;
    assert(n[nn - 1] == n.subrange(nn - 29, nn)[28]);
    assert(n[0] == n.subrange(0, 31)[0]);
    lemma_line_start_of(t, pl);
    lemma_line_start_agree(t, pre, pl);
    let p0 = line_start_of(t, pl);
    assert(pre.subrange(0, p0) =~= t.subrange(0, p0));
    lemma_absent_sub(pre, bm, 0, p0);
    lemma_absent_sub(pre, em, 0, p0);
    let x = lemma_replace_prefix(t, 0, p0, nl);
    let h = pre.subrange(p0, pl);
    assert(h =~= t.subrange(p0, pl));
    lemma_absent_sub(pre, bm, p0, pl);
    lemma_absent_sub(pre, em, p0, pl);
    lemma_absent_after_nl(x, h, bm);
    lemma_absent_after_nl(x, h, em);
    let head = x + h;
    assert(head =~= head_out(pre, nl));
    assert(t.subrange(m, t.len() as int) =~= w);
    let tl = tail_out(w, nl);
    assert forall|k: int| p0 <= k < pl implies t[k] != '\n' by {}
    let n2 = lemma_replace_block(pre, n, w, nl, p0);
    assert(replace_lines(t, ms, nl) =~= head + n2 + tl);
    lemma_splice_again(head, n2, tl, b);
}

/// The replacement output from the line start `p0` of the line that
/// holds the start of the block `n` in `pre + n + w`: the start of that
/// line as it stands, then the block with its markers kept (lines inside
/// it may be refreshed), then the output for `w`.  Returns that block.
proof fn lemma_replace_block(pre: Seq<char>, n: Seq<char>, w: Seq<char>, nl: Seq<char>, p0: int) -> (n2: Seq<char>)
    requires
        marked_block(n),
        free_of(n, '\r'),
        end_line_plain(n),
        free_of(nl, '<'),
        free_of(nl, '\n'),
        0 <= p0 <= pre.len(),
        is_line_start(pre + n + w, p0),
        forall|k: int| p0 <= k < pre.len() ==> (pre + n + w)[k] != '\n',
        !has_marker_prefix((pre + n + w).subrange(p0, (pre + n + w).len() as int), banner_marks()),
    ensures
        marked_block(n2),
        replace_from(pre + n + w, p0, banner_marks(), nl) == (pre + n + w).subrange(p0, pre.len() as int)
            + n2 + tail_out(w, nl),
{
    let nn = n.len() as int;
    lemma_line_start_of(n, nn);
    if line_start_of(n, nn) == 0 {
        lemma_replace_block_one_line(pre, n, w, nl, p0);
        n
    } else {
        lemma_replace_block_lines(pre, n, w, nl, p0)
    }
}

/// `lemma_replace_block` for a block on one line.
proof fn lemma_replace_block_one_line(pre: Seq<char>, n: Seq<char>, w: Seq<char>, nl: Seq<char>, p0: int)
    requires
        marked_block(n),
        line_start_of(n, n.len() as int) == 0,
        0 <= p0 <= pre.len(),
        forall|k: int| p0 <= k < pre.len() ==> (pre + n + w)[k] != '\n',
        !has_marker_prefix((pre + n + w).subrange(p0, (pre + n + w).len() as int), banner_marks()),
    ensures
        replace_from(pre + n + w, p0, banner_marks(), nl) == (pre + n + w).subrange(p0, pre.len() as int)
            + n + tail_out(w, nl),
{
    lemma_end_mark_chars();
    let t = pre + n + w;
    let pl = pre.len() as int;
    let nn = n.len() as int;
    let m = pl + nn;
    assert(n[nn - 1] == n.subrange(nn - 29, nn)[28]);
    lemma_line_start_of(n, nn);
    assert forall|k: int| p0 <= k < m implies t[k] != '\n' by {
        if k >= pl {
            assert(t[k] == n[k - pl]);
        }
    }
    assert(t[m - 1] == n[nn - 1]);
    lemma_replace_tail(t, p0, m, nl);
    assert(t.subrange(m, t.len() as int) =~= w);
    assert(t.subrange(p0, m) =~= t.subrange(p0, pl) + n);
}

/// `lemma_replace_block` for a block over several lines.
#[verifier::rlimit(30)]
#[verifier::spinoff_prover]
proof fn lemma_replace_block_lines(pre: Seq<char>, n: Seq<char>, w: Seq<char>, nl: Seq<char>, p0: int) -> (n2: Seq<char>)
    requires
        marked_block(n),
        free_of(n, '\r'),
        end_line_plain(n),
        free_of(nl, '<'),
        free_of(nl, '\n'),
        line_start_of(n, n.len() as int) > 0,
        0 <= p0 <= pre.len(),
        is_line_start(pre + n + w, p0),
        forall|k: int| p0 <= k < pre.len() ==> (pre + n + w)[k] != '\n',
        !has_marker_prefix((pre + n + w).subrange(p0, (pre + n + w).len() as int), banner_marks()),
    ensures
        marked_block(n2),
        replace_from(pre + n + w, p0, banner_marks(), nl) == (pre + n + w).subrange(p0, pre.len() as int)
            + n2 + tail_out(w, nl),
{
    let ms = banner_marks();
    lemma_begin_mark_chars();
    lemma_end_mark_chars();
    let bm = begin_mark();
    let em = end_mark();
    let t = pre + n + w;
    let pl = pre.len() as int;
    let nn = n.len() as int;
    let m = pl + nn;
    let h = t.subrange(p0, pl);
    let tl = tail_out(w, nl);
    assert(n[nn - 1] == n.subrange(nn - 29, nn)[28]);
    assert(t.subrange(m, t.len() as int) =~= w);
    lemma_line_start_of(n, nn);
    let lsn = line_start_of(n, nn);
    lemma_line_end(n, 0);
    let f = line_end(n, 0);
    assert(f < lsn) by {
        if f >= lsn {
            assert(n[lsn - 1] != '\n');
        }
    }
    assert(n[f] == '\n');
    assert(t[pl + f] == n[f]);
    assert forall|k: int| p0 <= k < pl + f implies t[k] != '\n' by {
        if k >= pl {
            assert(t[k] == n[k - pl]);
        }
    }
    lemma_line_end_at(t, p0, pl + f);
    assert(t[pl + f - 1] == n[f - 1]);
    lemma_replace_keep_line(t, p0, nl);
    // the lines strictly inside the block
    let g = n.subrange(f + 1, lsn);
    assert(g =~= t.subrange(pl + f + 1, pl + lsn));
    assert forall|j: int| !occurs_at(g, bm, j) by {
        if occurs_at(g, bm, j) {
            lemma_occ_sub(n, bm, f + 1, lsn, j);
        }
    }
    assert forall|j: int| !occurs_at(g, em, j) by {
        if occurs_at(g, em, j) {
            lemma_occ_sub(n, em, f + 1, lsn, j);
        }
    }
    assert(t[pl + lsn - 1] == n[lsn - 1]);
    let x2 = lemma_replace_prefix(t, pl + f + 1, pl + lsn, nl);
    // the line holding the end marker
    let xe = t.subrange(pl + lsn, t.len() as int);
    let ne = n.subrange(lsn, nn);
    let d = nn - 29 - lsn;
    assert(d >= 0) by {
        if lsn > nn - 29 {
            assert(n[lsn - 1] == n.subrange(nn - 29, nn)[lsn - 1 - (nn - 29)]);
        }
    }
    if has_marker_prefix(xe, ms) {
        assert(xe[d] == n[nn - 29]);
        assert(n[nn - 29] == n.subrange(nn - 29, nn)[0]);
        lemma_marker_before(xe, d);
        assert(xe.subrange(0, d) =~= ne.subrange(0, d));
        lemma_marker_extend(ne, d);
    }
    assert forall|k: int| pl + lsn <= k < m implies t[k] != '\n' by {
        assert(t[k] == n[k - pl]);
    }
    assert(t[m - 1] == n[nn - 1]);
    lemma_replace_tail(t, pl + lsn, m, nl);
    lemma_marked_rebuild(n, f, lsn, x2);
    let n2 = n.subrange(0, f + 1) + x2 + ne;
    assert(t.subrange(p0, pl + f) + seq!['\n'] =~= h + n.subrange(0, f + 1));
    assert(t.subrange(pl + lsn, m) =~= ne);
    assert(replace_from(t, p0, ms, nl) =~= h + n2 + tl);
    n2
}


/// Whether the line that holds position `pre.len()` starts with a banner
/// marker does not depend on what follows `pre`, when it starts with
/// `'<'`.
proof fn lemma_plain_line_swap(pre: Seq<char>, a: Seq<char>, b: Seq<char>)
    requires
        a.len() > 0,
        a[0] == '<',
        b.len() > 0,
        b[0] == '<',
        !has_marker_prefix(
            (pre + a).subrange(line_start_of(pre + a, pre.len() as int), (pre + a).len() as int),
            banner_marks(),
        ),
    ensures
        !has_marker_prefix(
            (pre + b).subrange(line_start_of(pre + b, pre.len() as int), (pre + b).len() as int),
            banner_marks(),
        ),
{
    let ta = pre + a;
    let tb = pre + b;
    let pl = pre.len() as int;
    lemma_line_start_agree(ta, tb, pl);
    lemma_line_start_of(ta, pl);
    let p0 = line_start_of(ta, pl);
    let xa = ta.subrange(p0, ta.len() as int);
    let xb = tb.subrange(p0, tb.len() as int);
    if has_marker_prefix(xb, banner_marks()) {
        assert(xb[pl - p0] == b[0]);
        lemma_marker_before(xb, pl - p0);
        assert(xb.subrange(0, pl - p0) =~= xa.subrange(0, pl - p0));
        lemma_marker_extend(xa, pl - p0);
    }
}

/// `r` with the content of its live block removed: the bare block in
/// place of the block.
pub open spec fn collapsed(r: Seq<char>) -> Result<Seq<char>, ReadmeError> {
    splice_live_block(r, bare_block())
}

/// The rewrite is a fixed point, for any marked live block without
/// carriage return whose end line is no banner line: with the same stamp
/// and the same block, rewriting the result of a successful rewrite
/// gives that result back.  Lines of the block that start with a banner
/// marker are refreshed by the second banner replacement and then put
/// back by the splice.  The source must not hold two carriage returns
/// before a newline and must not end with an empty line.
#[verifier::rlimit(30)]
pub proof fn lemma_rewrite_fixed_point(source: Seq<char>, stamp: Seq<char>, block: Seq<char>)
    requires
        clean_stamp(stamp),
        marked_block(block),
        free_of(block, '\r'),
        end_line_plain(block),
        no_double_cr(source),
        !ends_with_blank_line(source),
    ensures
        readme_rewrite(source, stamp, block) matches Ok(r) ==> readme_rewrite(r, stamp, block)
            == Ok::<Seq<char>, ReadmeError>(r),
{
    lemma_bare_block();
    lemma_begin_mark_chars();
    let n0 = bare_block();
    let (pre, w) = lemma_rewrite_cut(source, stamp, n0, block);
    if readme_rewrite(source, stamp, block) is Ok {
        let nl = banner_line(stamp);
        lemma_banner_line(stamp);
        let r0 = pre + n0 + w;
        assert(block[0] == block.subrange(0, 31)[0]);
        assert(n0[0] == n0.subrange(0, 31)[0]);
        assert(pre + n0 + w =~= pre + (n0 + w));
        assert(pre + block + w =~= pre + (block + w));
        lemma_plain_line_swap(pre, n0 + w, block + w);
        lemma_rewrite_idempotent(source, stamp, n0);
        lemma_again_splice(pre, block, w, nl, block);
        lemma_again_splice(pre, n0, w, nl, n0);
        let hd = head_out(pre, nl);
        let tl = tail_out(w, nl);
        assert(hd + n0 + tl == r0);
        lemma_splice_again(hd, n0, tl, block);
        lemma_splice_again(pre, n0, w, block);
    }
}

/// A later rewrite, with any stamp `t2`, sees nothing of the content of
/// the live block that the first rewrite wrote, for any marked block
/// without carriage return whose end line is no banner line: it gives
/// what rewriting the README with its block emptied gives, which is that
/// README with every banner line refreshed to `t2` and the block put
/// back between the markers.
#[verifier::rlimit(30)]
pub proof fn lemma_rewrite_again_any_stamp(source: Seq<char>, t1: Seq<char>, t2: Seq<char>, block: Seq<char>)
    requires
        clean_stamp(t1),
        clean_stamp(t2),
        marked_block(block),
        free_of(block, '\r'),
        end_line_plain(block),
    ensures
        readme_rewrite(source, t1, block) matches Ok(r) ==> {
            &&& collapsed(r) is Ok
            &&& readme_rewrite(r, t2, block) == readme_rewrite(collapsed(r)->Ok_0, t2, block)
            &&& readme_rewrite(collapsed(r)->Ok_0, t2, bare_block()) == Ok::<Seq<char>, ReadmeError>(
                replace_lines(collapsed(r)->Ok_0, banner_marks(), banner_line(t2)),
            )
            &&& readme_rewrite(r, t2, block) is Ok
        },
{
    lemma_bare_block();
    lemma_begin_mark_chars();
    let n0 = bare_block();
    let (pre, w) = lemma_rewrite_cut(source, t1, n0, block);
    if readme_rewrite(source, t1, block) is Ok {
        let nl2 = banner_line(t2);
        lemma_banner_line(t2);
        let r0 = pre + n0 + w;
        assert(block[0] == block.subrange(0, 31)[0]);
        assert(n0[0] == n0.subrange(0, 31)[0]);
        assert(pre + n0 + w =~= pre + (n0 + w));
        assert(pre + block + w =~= pre + (block + w));
        lemma_plain_line_swap(pre, n0 + w, block + w);
        lemma_splice_again(pre, block, w, n0);
        assert(collapsed(pre + block + w) == Ok::<Seq<char>, ReadmeError>(r0));
        lemma_again_splice(pre, block, w, nl2, block);
        lemma_again_splice(pre, n0, w, nl2, block);
        lemma_rewrite_restamp(source, t1, t2, n0);
    }
}


/// The rewrite with the live block built from sections is a fixed point
/// whenever the sections hold no carriage return and neither marker:
/// rewriting the result again with the same stamp and sections gives it
/// back, and with any other stamp gives what rewriting the README with
/// its block emptied gives.
pub proof fn lemma_live_rewrite_fixed_point(
    source: Seq<char>,
    t1: Seq<char>,
    t2: Seq<char>,
    summary: Seq<char>,
    hourly: Seq<char>,
    performance: Seq<char>,
)
    requires
        clean_stamp(t1),
        clean_stamp(t2),
        free_of(summary + hourly + performance, '\r'),
        marker_free(summary + hourly + performance),
    ensures
        ({
            let block = live_block(summary, hourly, performance);
            readme_rewrite(source, t1, block) matches Ok(r) ==> {
                &&& (no_double_cr(source) && !ends_with_blank_line(source)) ==> readme_rewrite(r, t1, block)
                    == Ok::<Seq<char>, ReadmeError>(r)
                &&& collapsed(r) is Ok
                &&& readme_rewrite(r, t2, block) == readme_rewrite(collapsed(r)->Ok_0, t2, block)
            }
        }),
{
    let block = live_block(summary, hourly, performance);
    lemma_live_block_marked(summary, hourly, performance);
    lemma_rewrite_again_any_stamp(source, t1, t2, block);
    if no_double_cr(source) && !ends_with_blank_line(source) {
        lemma_rewrite_fixed_point(source, t1, block);
    }
}


/// `p` occurs exactly once in `t`.
pub open spec fn occurs_once(t: Seq<char>, p: Seq<char>) -> bool {
    exists|j: int| occurs_at(t, p, j) && forall|k: int| #[trigger] occurs_at(t, p, k) ==> k == j
}

/// A text `hd` without `'<'` or `'>'` (such as a live heading) that
/// occurs nowhere in what the rewrite keeps around the block (the result
/// with its block emptied) occurs in the result of the rewrite exactly as
/// often as in the block: once when once, nowhere when nowhere.
#[verifier::rlimit(30)]
pub proof fn lemma_rewrite_once(source: Seq<char>, stamp: Seq<char>, block: Seq<char>, hd: Seq<char>)
    requires
        clean_stamp(stamp),
        marked_block(block),
        hd.len() > 0,
        free_of(hd, '<'),
        free_of(hd, '>'),
    ensures
        readme_rewrite(source, stamp, block) matches Ok(r) ==> {
            &&& collapsed(r) is Ok
            &&& absent(collapsed(r)->Ok_0, hd) ==> {
                &&& occurs_once(block, hd) ==> occurs_once(r, hd)
                &&& absent(block, hd) ==> absent(r, hd)
            }
        },
{
    lemma_bare_block();
    lemma_begin_mark_chars();
    lemma_end_mark_chars();
    let n0 = bare_block();
    let (pre, w) = lemma_rewrite_cut(source, stamp, n0, block);
    if readme_rewrite(source, stamp, block) is Ok {
        let r = pre + block + w;
        let c = pre + n0 + w;
        lemma_splice_again(pre, block, w, n0);
        assert(collapsed(r) == Ok::<Seq<char>, ReadmeError>(c));
        if absent(c, hd) {
            let pl = pre.len() as int;
            let bl = block.len() as int;
            let hl = hd.len() as int;
            assert forall|j: int| !occurs_at(pre, hd, j) by {
                if occurs_at(pre, hd, j) {
                    assert(c.subrange(j, j + hl) =~= pre.subrange(j, j + hl));
                    assert(occurs_at(c, hd, j));
                }
            }
            assert forall|j: int| !occurs_at(w, hd, j) by {
                if occurs_at(w, hd, j) {
                    assert(c.subrange(pl + 60 + j, pl + 60 + j + hl) =~= w.subrange(j, j + hl));
                    assert(occurs_at(c, hd, pl + 60 + j));
                }
            }
            assert(r[pl] == block[0]);
            assert(block[0] == block.subrange(0, 31)[0]);
            assert(r[pl + bl - 1] == block[bl - 1]);
            assert(block[bl - 1] == block.subrange(bl - 29, bl)[28]);
            assert forall|k: int| #[trigger] occurs_at(r, hd, k) implies k >= pl && occurs_at(block, hd, k - pl) by {
                if k + hl <= pl {
                    assert(r.subrange(k, k + hl) =~= pre.subrange(k, k + hl));
                    assert(occurs_at(pre, hd, k));
                } else if k < pl {
                    assert(r.subrange(k, k + hl)[pl - k] == r[pl]);
                } else if k + hl <= pl + bl {
                    assert(r.subrange(k, k + hl) =~= block.subrange(k - pl, k - pl + hl));
                } else if k < pl + bl {
                    assert(r.subrange(k, k + hl)[pl + bl - 1 - k] == r[pl + bl - 1]);
                } else {
                    assert(r.subrange(k, k + hl) =~= w.subrange(k - pl - bl, k - pl - bl + hl));
                    assert(occurs_at(w, hd, k - pl - bl));
                }
            }
            if occurs_once(block, hd) {
                let j0 = choose|j: int| occurs_at(block, hd, j) && forall|k: int| #[trigger] occurs_at(block, hd, k) ==> k == j;
                assert(r.subrange(pl + j0, pl + j0 + hl) =~= block.subrange(j0, j0 + hl));
                assert(occurs_at(r, hd, pl + j0));
                assert forall|k: int| #[trigger] occurs_at(r, hd, k) implies k == pl + j0 by {
                    assert(occurs_at(block, hd, k - pl));
                }
            }
        }
    }
}

/// The line that stands for every banner line when stamps are compared:
/// the banner line with the stamp `<TS>`.
pub open spec fn stamp_free_line() -> Seq<char> {
    banner_line("<TS>"@)
}

/// `t` with every line that starts with the current banner marker
/// replaced by `stamp_free_line`, lines split and joined as
/// `replace_line_multi` splits and joins them: the README with its "Last
/// run" stamps blanked out.
pub open spec fn strip_stamp(t: Seq<char>) -> Seq<char> {
    replace_lines(t, seq![new_mark()], stamp_free_line())
}

/// Characters of the stamp-free line, and the banner lines start with the
/// current banner marker.
proof fn lemma_stamp_free_line()
    ensures
        free_of(stamp_free_line(), '\n'),
        free_of(stamp_free_line(), '\r'),
        forall|stamp: Seq<char>| #[trigger] has_marker_prefix(banner_line(stamp), seq![new_mark()]),
{
    lemma_banner_chars();
    reveal_strlit("<TS>");
    let l = stamp_free_line();
    let p = last_run_prefix();
    assert forall|k: int| 0 <= k < l.len() implies l[k] != '\n' && l[k] != '\r' by {
        if k < p.len() {
            assert(l[k] == p[k]);
        } else {
            assert(l[k] == "<TS>"@[k - p.len()]);
        }
    }
    assert forall|stamp: Seq<char>| #[trigger] has_marker_prefix(banner_line(stamp), seq![new_mark()]) by {
        let b = banner_line(stamp);
        let nm = new_mark();
        assert(b.subrange(0, nm.len() as int) =~= p.subrange(0, nm.len() as int));
        assert(seq![new_mark()][0] == nm);
        assert(starts_with(b, seq![new_mark()][0]));
    }
}

/// Blanking the stamps of a text whose banner lines were swapped for the
/// banner line `nl2` gives what blanking the stamps of the text itself
/// gives, when every banner line of the text is the banner line `nl1`.
proof fn lemma_strip_swap(t: Seq<char>, i: int, nl1: Seq<char>, nl2: Seq<char>)
    requires
        0 <= i < t.len(),
        is_line_start(t, i),
        cr_clean(t),
        t.last() != '\n',
        banner_lines_are(t, nl1),
        free_of(nl1, '\n'),
        has_marker_prefix(nl1, seq![new_mark()]),
        nl2.len() > 0,
        free_of(nl2, '\n'),
        free_of(nl2, '\r'),
        has_marker_prefix(nl2, seq![new_mark()]),
    ensures
        replace_from(swap_lines_from(t, i, banner_marks(), nl2), 0, seq![new_mark()], stamp_free_line())
            == swap_lines_from(t, i, seq![new_mark()], stamp_free_line()),
    decreases t.len() - i,
{
    let bm = banner_marks();
    let nm = seq![new_mark()];
    let k = stamp_free_line();
    lemma_stamp_free_line();
    lemma_banner_chars();
    lemma_line_piece(t, i);
    let e = line_end(t, i);
    let line = t.subrange(i, e);
    let piece = swap_line(line, bm, nl2);
    let u = swap_lines_from(t, i, bm, nl2);
    // the new marker is a banner marker
    assert(bm[1] == new_mark());
    if has_marker_prefix(line, nm) {
        assert(starts_with(line, bm[1]));
    }
    if has_marker_prefix(line, bm) {
        assert(line =~= t.subrange(i, t.len() as int).subrange(0, e - i));
        lemma_marker_extend(t.subrange(i, t.len() as int), e - i);
        let x = t.subrange(i, t.len() as int);
        assert(is_line_start(t, i) && i < t.len() && has_marker_prefix(x, banner_marks()));
        assert(starts_with(x, nl1));
        assert(i + nl1.len() == t.len() || t[i + nl1.len()] == '\n');
        assert(e == i + nl1.len()) by {
            if e < i + nl1.len() {
                assert(x.subrange(0, nl1.len() as int)[e - i] == t[e]);
                assert(nl1[e - i] == t[e]);
            } else if e > i + nl1.len() {
                assert(t[i + nl1.len()] == '\n');
                assert(line[nl1.len() as int] == t[i + nl1.len()]);
            }
        }
        assert(line =~= nl1);
    }
    assert(swap_line(piece, nm, k) == swap_line(line, nm, k));
    assert(free_of(piece, '\n')) by {
        if !has_marker_prefix(line, bm) {
            assert forall|q: int| 0 <= q < piece.len() implies piece[q] != '\n' by {
                assert(piece[q] == t[i + q]);
            }
        }
    }
    let pl = piece.len() as int;
    if e >= t.len() {
        assert(u == piece);
        if pl > 0 {
            lemma_line_end(u, 0);
            assert(line_end(u, 0) == pl) by {
                if line_end(u, 0) < pl {
                    assert(u[line_end(u, 0)] == '\n');
                }
            }
            assert(u.subrange(0, pl) =~= piece);
        } else {
            assert(line.len() > 0);
        }
    } else {
        assert(e + 1 < t.len());
        let rest = swap_lines_from(t, e + 1, bm, nl2);
        assert(u == piece + seq!['\n'] + rest);
        assert(rest.len() > 0) by {
            lemma_line_end(t, e + 1);
            let e2 = line_end(t, e + 1);
            if e2 >= t.len() {
                let l2 = t.subrange(e + 1, t.len() as int);
                assert(l2.len() > 0);
            }
        }
        assert(strip_cr(piece) == piece) by {
            if pl > 0 {
                if has_marker_prefix(line, bm) {
                    assert(piece.last() == nl2[nl2.len() - 1]);
                } else {
                    assert(piece.last() == t[e - 1]);
                }
            }
        }
        lemma_strip_swap(t, e + 1, nl1, nl2);
        let head = piece + seq!['\n'];
        assert(u =~= head + rest);
        lemma_line_end(u, 0);
        assert(line_end(u, 0) == pl) by {
            assert(u[pl] == '\n');
            if line_end(u, 0) < pl {
                assert(u[line_end(u, 0)] == piece[line_end(u, 0)]);
            }
        }
        assert(u.subrange(0, pl) =~= piece);
        lemma_replace_from_shift(head, rest, 0, nm, k);
        assert(replace_from(u, pl + 1, nm, k) == replace_from(rest, 0, nm, k));
    }
}

/// Rewriting again changes nothing but the "Last run" stamps: for a
/// well-formed live block and a source without two carriage returns
/// before a newline and not ending with an empty line, rewriting the
/// result of a successful rewrite with any stamp `t2` succeeds, and the
/// two READMEs agree once every banner line is blanked to
/// `stamp_free_line`.
pub proof fn lemma_rewrite_strip_stamp(source: Seq<char>, t1: Seq<char>, t2: Seq<char>, block: Seq<char>)
    requires
        clean_stamp(t1),
        clean_stamp(t2),
        well_formed_block(block),
        no_double_cr(source),
        !ends_with_blank_line(source),
    ensures
        readme_rewrite(source, t1, block) matches Ok(r1) ==> {
            &&& readme_rewrite(r1, t2, block) is Ok
            &&& strip_stamp(readme_rewrite(r1, t2, block)->Ok_0) == strip_stamp(r1)
        },
{
    let (pre, w) = lemma_rewrite_shape(source, t1, block);
    if readme_rewrite(source, t1, block) is Ok {
        let r1 = readme_rewrite(source, t1, block)->Ok_0;
        lemma_block_last(block);
        assert(r1.len() > 0) by {
            assert(r1[pre.len() as int] == block[0]);
        }
        lemma_rewrite_repeat(source, t1, t2, block);
        lemma_banner_line(t1);
        lemma_banner_line(t2);
        lemma_stamp_free_line();
        assert(has_marker_prefix(banner_line(t1), seq![new_mark()]));
        assert(has_marker_prefix(banner_line(t2), seq![new_mark()]));
        assert(banner_lines_are(r1, banner_line(t1)));
        lemma_replace_is_swap(r1, 0, seq![new_mark()], stamp_free_line());
        lemma_strip_swap(r1, 0, banner_line(t1), banner_line(t2));
    }
}


/// Rewriting again with a live block built from clean sections changes
/// nothing but the "Last run" stamps: the two READMEs agree once every
/// banner line is blanked to `stamp_free_line`.
pub proof fn lemma_live_rewrite_strip_stamp(
    source: Seq<char>,
    t1: Seq<char>,
    t2: Seq<char>,
    summary: Seq<char>,
    hourly: Seq<char>,
    performance: Seq<char>,
)
    requires
        clean_stamp(t1),
        clean_stamp(t2),
        clean_sections(summary + hourly + performance),
        no_double_cr(source),
        !ends_with_blank_line(source),
    ensures
        ({
            let block = live_block(summary, hourly, performance);
            readme_rewrite(source, t1, block) matches Ok(r1) ==> {
                &&& readme_rewrite(r1, t2, block) is Ok
                &&& strip_stamp(readme_rewrite(r1, t2, block)->Ok_0) == strip_stamp(r1)
            }
        }),
{
    lemma_live_block_well_formed(summary, hourly, performance);
    lemma_rewrite_strip_stamp(source, t1, t2, live_block(summary, hourly, performance));
}


} // verus!
