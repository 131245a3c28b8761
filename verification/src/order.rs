//! Semantic-version precedence: versions are ordered by major, minor
//! and patch numerically, then by pre-release text (a version with a
//! pre-release sorts before the same triple without one; identifiers
//! compare numerically when all digits and lexically otherwise), and
//! finally — as a stable, documented tie-break only — by build
//! metadata text.

use vstd::prelude::*;

use crate::text::all_digits;
use crate::text::chars_vec;
use crate::text::is_digit;
use crate::version::first_dot;
use crate::version::find_dot;
use crate::version::is_digit_exec;
use crate::version::split_dots;
use crate::version::Version;
use crate::version::VersionView;

verus! {

/// Lexicographic comparison of character sequences (-1, 0 or 1).
pub open spec fn cmp_chars(a: Seq<char>, b: Seq<char>) -> int
    decreases a.len(),
{
    if a.len() == 0 && b.len() == 0 {
        0
    } else if a.len() == 0 {
        -1
    } else if b.len() == 0 {
        1
    } else if a[0] == b[0] {
        cmp_chars(a.drop_first(), b.drop_first())
    } else if a[0] < b[0] {
        -1
    } else {
        1
    }
}

/// `s` without its leading zero characters.
pub open spec fn strip_zeros(s: Seq<char>) -> Seq<char>
    decreases s.len(),
{
    if s.len() > 0 && s[0] == '0' {
        strip_zeros(s.drop_first())
    } else {
        s
    }
}

/// One pre-release identifier against another: all-digit identifiers
/// compare numerically (by length, then lexically — they carry no
/// leading zeros), digits sort before letters, and the rest compares
/// lexically.
pub open spec fn cmp_pre_ident(a: Seq<char>, b: Seq<char>) -> int {
    if all_digits(a) && all_digits(b) {
        if a.len() < b.len() {
            -1
        } else if a.len() > b.len() {
            1
        } else {
            cmp_chars(a, b)
        }
    } else if all_digits(a) {
        -1
    } else if all_digits(b) {
        1
    } else {
        cmp_chars(a, b)
    }
}

/// One build identifier against another: all-digit identifiers compare
/// by value first (leading zeros stripped), then by their number of
/// leading zeros; digits sort before letters; the rest is lexical.
pub open spec fn cmp_build_ident(a: Seq<char>, b: Seq<char>) -> int {
    if all_digits(a) && all_digits(b) {
        let sa = strip_zeros(a);
        let sb = strip_zeros(b);
        if sa.len() < sb.len() {
            -1
        } else if sa.len() > sb.len() {
            1
        } else if cmp_chars(sa, sb) != 0 {
            cmp_chars(sa, sb)
        } else if a.len() < b.len() {
            -1
        } else if a.len() > b.len() {
            1
        } else {
            0
        }
    } else if all_digits(a) {
        -1
    } else if all_digits(b) {
        1
    } else {
        cmp_chars(a, b)
    }
}

/// Identifier lists, compared element by element; a strict prefix
/// sorts first.  `pre` selects the pre-release identifier rule.
pub open spec fn cmp_ident_lists(a: Seq<Seq<char>>, b: Seq<Seq<char>>, pre: bool) -> int
    decreases a.len(),
{
    if a.len() == 0 && b.len() == 0 {
        0
    } else if a.len() == 0 {
        -1
    } else if b.len() == 0 {
        1
    } else {
        let c = if pre {
            cmp_pre_ident(a[0], b[0])
        } else {
            cmp_build_ident(a[0], b[0])
        };
        if c != 0 {
            c
        } else {
            cmp_ident_lists(a.drop_first(), b.drop_first(), pre)
        }
    }
}

/// Pre-release text comparison: empty text (a full release) sorts
/// after any pre-release.
pub open spec fn cmp_pre_text(a: Seq<char>, b: Seq<char>) -> int {
    if a.len() == 0 && b.len() == 0 {
        0
    } else if a.len() == 0 {
        1
    } else if b.len() == 0 {
        -1
    } else {
        cmp_ident_lists(split_dots(a), split_dots(b), true)
    }
}

/// Build text comparison (the stable tie-break): empty text sorts
/// first because an empty segment is an empty digit run.
pub open spec fn cmp_build_text(a: Seq<char>, b: Seq<char>) -> int {
    cmp_ident_lists(split_dots(a), split_dots(b), false)
}

/// Full comparison of two versions.
pub open spec fn cmp_version(a: VersionView, b: VersionView) -> int {
    if a.major < b.major {
        -1
    } else if a.major > b.major {
        1
    } else if a.minor < b.minor {
        -1
    } else if a.minor > b.minor {
        1
    } else if a.patch < b.patch {
        -1
    } else if a.patch > b.patch {
        1
    } else if cmp_pre_text(a.pre, b.pre) != 0 {
        cmp_pre_text(a.pre, b.pre)
    } else {
        cmp_build_text(a.build, b.build)
    }
}

/// Transitivity of the lexicographic character order, in the strict
/// and non-strict combinations the precedence order needs.
pub proof fn lemma_cmp_chars_trans(a: Seq<char>, b: Seq<char>, c: Seq<char>)
    ensures
        cmp_chars(a, b) <= 0 && cmp_chars(b, c) <= 0 ==> cmp_chars(a, c) <= 0,
        cmp_chars(a, b) >= 0 && cmp_chars(b, c) >= 0 ==> cmp_chars(a, c) >= 0,
        cmp_chars(a, b) < 0 && cmp_chars(b, c) <= 0 ==> cmp_chars(a, c) < 0,
        cmp_chars(a, b) <= 0 && cmp_chars(b, c) < 0 ==> cmp_chars(a, c) < 0,
        cmp_chars(a, b) > 0 && cmp_chars(b, c) >= 0 ==> cmp_chars(a, c) > 0,
        cmp_chars(a, b) >= 0 && cmp_chars(b, c) > 0 ==> cmp_chars(a, c) > 0,
    decreases a.len() + b.len() + c.len(),
{
    if a.len() > 0 && b.len() > 0 && c.len() > 0 {
        lemma_cmp_chars_trans(a.drop_first(), b.drop_first(), c.drop_first());
    }
}

/// Transitivity of the pre-release identifier order.
pub proof fn lemma_cmp_pre_ident_trans(a: Seq<char>, b: Seq<char>, c: Seq<char>)
    ensures
        cmp_pre_ident(a, b) <= 0 && cmp_pre_ident(b, c) <= 0 ==> cmp_pre_ident(a, c) <= 0,
        cmp_pre_ident(a, b) >= 0 && cmp_pre_ident(b, c) >= 0 ==> cmp_pre_ident(a, c) >= 0,
        cmp_pre_ident(a, b) < 0 && cmp_pre_ident(b, c) <= 0 ==> cmp_pre_ident(a, c) < 0,
        cmp_pre_ident(a, b) <= 0 && cmp_pre_ident(b, c) < 0 ==> cmp_pre_ident(a, c) < 0,
        cmp_pre_ident(a, b) > 0 && cmp_pre_ident(b, c) >= 0 ==> cmp_pre_ident(a, c) > 0,
        cmp_pre_ident(a, b) >= 0 && cmp_pre_ident(b, c) > 0 ==> cmp_pre_ident(a, c) > 0,
{
    lemma_cmp_chars_trans(a, b, c);
}

/// Transitivity of the build identifier order.
pub proof fn lemma_cmp_build_ident_trans(a: Seq<char>, b: Seq<char>, c: Seq<char>)
    ensures
        cmp_build_ident(a, b) <= 0 && cmp_build_ident(b, c) <= 0 ==> cmp_build_ident(a, c) <= 0,
        cmp_build_ident(a, b) >= 0 && cmp_build_ident(b, c) >= 0 ==> cmp_build_ident(a, c) >= 0,
        cmp_build_ident(a, b) < 0 && cmp_build_ident(b, c) <= 0 ==> cmp_build_ident(a, c) < 0,
        cmp_build_ident(a, b) <= 0 && cmp_build_ident(b, c) < 0 ==> cmp_build_ident(a, c) < 0,
        cmp_build_ident(a, b) > 0 && cmp_build_ident(b, c) >= 0 ==> cmp_build_ident(a, c) > 0,
        cmp_build_ident(a, b) >= 0 && cmp_build_ident(b, c) > 0 ==> cmp_build_ident(a, c) > 0,
{
    lemma_cmp_chars_trans(strip_zeros(a), strip_zeros(b), strip_zeros(c));
    lemma_cmp_chars_trans(a, b, c);
}

/// Transitivity of the identifier-list order.
pub proof fn lemma_cmp_ident_lists_trans(a: Seq<Seq<char>>, b: Seq<Seq<char>>, c: Seq<Seq<char>>, pre: bool)
    ensures
        cmp_ident_lists(a, b, pre) <= 0 && cmp_ident_lists(b, c, pre) <= 0 ==> cmp_ident_lists(
            a,
            c,
            pre,
        ) <= 0,
        cmp_ident_lists(a, b, pre) >= 0 && cmp_ident_lists(b, c, pre) >= 0 ==> cmp_ident_lists(
            a,
            c,
            pre,
        ) >= 0,
        cmp_ident_lists(a, b, pre) < 0 && cmp_ident_lists(b, c, pre) <= 0 ==> cmp_ident_lists(
            a,
            c,
            pre,
        ) < 0,
        cmp_ident_lists(a, b, pre) <= 0 && cmp_ident_lists(b, c, pre) < 0 ==> cmp_ident_lists(
            a,
            c,
            pre,
        ) < 0,
        cmp_ident_lists(a, b, pre) > 0 && cmp_ident_lists(b, c, pre) >= 0 ==> cmp_ident_lists(
            a,
            c,
            pre,
        ) > 0,
        cmp_ident_lists(a, b, pre) >= 0 && cmp_ident_lists(b, c, pre) > 0 ==> cmp_ident_lists(
            a,
            c,
            pre,
        ) > 0,
    decreases a.len() + b.len() + c.len(),
{
    if a.len() > 0 && b.len() > 0 && c.len() > 0 {
        if pre {
            lemma_cmp_pre_ident_trans(a[0], b[0], c[0]);
        } else {
            lemma_cmp_build_ident_trans(a[0], b[0], c[0]);
        }
        lemma_cmp_ident_lists_trans(a.drop_first(), b.drop_first(), c.drop_first(), pre);
    }
}

/// Swapping the sides of the character order negates the result.
pub proof fn lemma_cmp_chars_flip(a: Seq<char>, b: Seq<char>)
    ensures
        cmp_chars(a, b) == -cmp_chars(b, a),
    decreases a.len(),
{
    if a.len() > 0 && b.len() > 0 && a[0] == b[0] {
        lemma_cmp_chars_flip(a.drop_first(), b.drop_first());
    }
}

/// Swapping the sides of an identifier comparison negates the result.
pub proof fn lemma_cmp_ident_flip(a: Seq<char>, b: Seq<char>)
    ensures
        cmp_pre_ident(a, b) == -cmp_pre_ident(b, a),
        cmp_build_ident(a, b) == -cmp_build_ident(b, a),
{
    lemma_cmp_chars_flip(a, b);
    lemma_cmp_chars_flip(strip_zeros(a), strip_zeros(b));
}

/// Swapping the sides of a list comparison negates the result.
pub proof fn lemma_cmp_ident_lists_flip(a: Seq<Seq<char>>, b: Seq<Seq<char>>, pre: bool)
    ensures
        cmp_ident_lists(a, b, pre) == -cmp_ident_lists(b, a, pre),
    decreases a.len(),
{
    if a.len() > 0 && b.len() > 0 {
        lemma_cmp_ident_flip(a[0], b[0]);
        lemma_cmp_ident_lists_flip(a.drop_first(), b.drop_first(), pre);
    }
}

/// Swapping the sides of the precedence order negates the result.
pub proof fn lemma_cmp_version_flip(a: VersionView, b: VersionView)
    ensures
        cmp_version(a, b) == -cmp_version(b, a),
{
    lemma_cmp_ident_lists_flip(split_dots(a.pre), split_dots(b.pre), true);
    lemma_cmp_ident_lists_flip(split_dots(a.build), split_dots(b.build), false);
}

/// Transitivity of the whole precedence order: what is needed to keep
/// a running maximum sound while scanning candidates.
pub proof fn lemma_cmp_version_trans(a: VersionView, b: VersionView, c: VersionView)
    ensures
        cmp_version(a, b) <= 0 && cmp_version(b, c) <= 0 ==> cmp_version(a, c) <= 0,
{
    lemma_cmp_ident_lists_trans(split_dots(a.pre), split_dots(b.pre), split_dots(c.pre), true);
    lemma_cmp_ident_lists_trans(
        split_dots(a.build),
        split_dots(b.build),
        split_dots(c.build),
        false,
    );
}

/// Lexicographic comparison of `a[fa..ta]` against `b[fb..tb]`.
fn cmp_chars_exec(a: &Vec<char>, fa: usize, ta: usize, b: &Vec<char>, fb: usize, tb: usize) -> (r:
    i8)
    requires
        fa <= ta <= a@.len(),
        fb <= tb <= b@.len(),
    ensures
        r as int == cmp_chars(a@.subrange(fa as int, ta as int), b@.subrange(fb as int, tb as int)),
    decreases ta - fa,
{
    let ghost sa = a@.subrange(fa as int, ta as int);
    let ghost sb = b@.subrange(fb as int, tb as int);
    if fa == ta && fb == tb {
        return 0;
    }
    if fa == ta {
        return -1;
    }
    if fb == tb {
        return 1;
    }
    proof {
        assert(sa[0] == a@[fa as int]);
        assert(sb[0] == b@[fb as int]);
    }
    if a[fa] == b[fb] {
        proof {
            assert(sa.drop_first() =~= a@.subrange(fa + 1, ta as int));
            assert(sb.drop_first() =~= b@.subrange(fb + 1, tb as int));
        }
        cmp_chars_exec(a, fa + 1, ta, b, fb + 1, tb)
    } else if a[fa] < b[fb] {
        -1
    } else {
        1
    }
}

/// Whether every character of `cs[from..to]` is an ASCII digit.
fn all_digits_exec(cs: &Vec<char>, from: usize, to: usize) -> (r: bool)
    requires
        from <= to <= cs@.len(),
    ensures
        r == all_digits(cs@.subrange(from as int, to as int)),
{
    let ghost seg = cs@.subrange(from as int, to as int);
    let mut i: usize = from;
    let mut ok = true;
    while i < to
        invariant
            from <= i <= to <= cs@.len(),
            seg == cs@.subrange(from as int, to as int),
            ok == (forall|j: int| 0 <= j < i - from ==> is_digit(#[trigger] seg[j])),
        decreases to - i,
    {
        proof {
            assert(seg[i - from] == cs@[i as int]);
        }
        ok = ok && is_digit_exec(cs[i]);
        i = i + 1;
    }
    ok
}

/// The first index at or after `from` whose character is not `0`.
fn skip_zeros(cs: &Vec<char>, from: usize, to: usize) -> (r: usize)
    requires
        from <= to <= cs@.len(),
    ensures
        from <= r <= to,
        cs@.subrange(r as int, to as int) == strip_zeros(cs@.subrange(from as int, to as int)),
{
    let mut i: usize = from;
    while i < to && cs[i] == '0'
        invariant
            from <= i <= to <= cs@.len(),
            strip_zeros(cs@.subrange(from as int, to as int)) == strip_zeros(
                cs@.subrange(i as int, to as int),
            ),
        decreases to - i,
    {
        proof {
            let cur = cs@.subrange(i as int, to as int);
            assert(cur[0] == cs@[i as int]);
            assert(cur.drop_first() =~= cs@.subrange(i + 1, to as int));
        }
        i = i + 1;
    }
    proof {
        let cur = cs@.subrange(i as int, to as int);
        if i < to {
            assert(cur[0] == cs@[i as int]);
        }
        assert(strip_zeros(cur) == cur);
    }
    i
}

/// One identifier of each side, under the pre-release or build rule.
fn cmp_ident_exec(
    a: &Vec<char>,
    fa: usize,
    ta: usize,
    b: &Vec<char>,
    fb: usize,
    tb: usize,
    pre: bool,
) -> (r: i8)
    requires
        fa <= ta <= a@.len(),
        fb <= tb <= b@.len(),
    ensures
        ({
            let sa = a@.subrange(fa as int, ta as int);
            let sb = b@.subrange(fb as int, tb as int);
            r as int == if pre {
                cmp_pre_ident(sa, sb)
            } else {
                cmp_build_ident(sa, sb)
            }
        }),
{
    let ghost sa = a@.subrange(fa as int, ta as int);
    let ghost sb = b@.subrange(fb as int, tb as int);
    let da = all_digits_exec(a, fa, ta);
    let db = all_digits_exec(b, fb, tb);
    if da && db {
        if pre {
            if ta - fa < tb - fb {
                return -1;
            }
            if ta - fa > tb - fb {
                return 1;
            }
            return cmp_chars_exec(a, fa, ta, b, fb, tb);
        }
        let za = skip_zeros(a, fa, ta);
        let zb = skip_zeros(b, fb, tb);
        if ta - za < tb - zb {
            return -1;
        }
        if ta - za > tb - zb {
            return 1;
        }
        let c = cmp_chars_exec(a, za, ta, b, zb, tb);
        if c != 0 {
            return c;
        }
        if ta - fa < tb - fb {
            return -1;
        }
        if ta - fa > tb - fb {
            return 1;
        }
        return 0;
    }
    if da {
        return -1;
    }
    if db {
        return 1;
    }
    cmp_chars_exec(a, fa, ta, b, fb, tb)
}

/// Dot-separated identifier lists of each side.
fn cmp_lists_exec(
    a: &Vec<char>,
    fa: usize,
    ta: usize,
    b: &Vec<char>,
    fb: usize,
    tb: usize,
    pre: bool,
) -> (r: i8)
    requires
        fa <= ta <= a@.len(),
        fb <= tb <= b@.len(),
    ensures
        ({
            let la = split_dots(a@.subrange(fa as int, ta as int));
            let lb = split_dots(b@.subrange(fb as int, tb as int));
            r as int == cmp_ident_lists(la, lb, pre)
        }),
    decreases ta - fa,
{
    let ghost sa = a@.subrange(fa as int, ta as int);
    let ghost sb = b@.subrange(fb as int, tb as int);
    let ghost la = split_dots(sa);
    let ghost lb = split_dots(sb);
    let da = find_dot(a, fa, ta);
    let db = find_dot(b, fb, tb);
    proof {
        crate::version::lemma_first_dot(sa);
        crate::version::lemma_first_dot(sb);
        assert(sa.take(first_dot(sa)) =~= a@.subrange(fa as int, da as int));
        assert(sb.take(first_dot(sb)) =~= b@.subrange(fb as int, db as int));
        if da < ta {
            assert(sa.skip(first_dot(sa) + 1) =~= a@.subrange(da + 1, ta as int));
            assert(la =~= seq![a@.subrange(fa as int, da as int)] + split_dots(
                a@.subrange(da + 1, ta as int),
            ));
        } else {
            assert(la =~= seq![a@.subrange(fa as int, da as int)]);
        }
        if db < tb {
            assert(sb.skip(first_dot(sb) + 1) =~= b@.subrange(db + 1, tb as int));
            assert(lb =~= seq![b@.subrange(fb as int, db as int)] + split_dots(
                b@.subrange(db + 1, tb as int),
            ));
        } else {
            assert(lb =~= seq![b@.subrange(fb as int, db as int)]);
        }
        assert(la[0] == a@.subrange(fa as int, da as int));
        assert(lb[0] == b@.subrange(fb as int, db as int));
    }
    let c = cmp_ident_exec(a, fa, da, b, fb, db, pre);
    if c != 0 {
        return c;
    }
    if da < ta && db < tb {
        let rest = cmp_lists_exec(a, da + 1, ta, b, db + 1, tb, pre);
        proof {
            assert(la.drop_first() =~= split_dots(a@.subrange(da + 1, ta as int)));
            assert(lb.drop_first() =~= split_dots(b@.subrange(db + 1, tb as int)));
        }
        return rest;
    }
    if da < ta {
        proof {
            assert(la.drop_first().len() > 0) by {
                assert(split_dots(a@.subrange(da + 1, ta as int)).len() >= 1);
            }
            assert(lb.drop_first().len() == 0);
            assert(cmp_ident_lists(la.drop_first(), lb.drop_first(), pre) == 1);
        }
        return 1;
    }
    if db < tb {
        proof {
            assert(lb.drop_first().len() > 0) by {
                assert(split_dots(b@.subrange(db + 1, tb as int)).len() >= 1);
            }
            assert(la.drop_first().len() == 0);
            assert(cmp_ident_lists(la.drop_first(), lb.drop_first(), pre) == -1);
        }
        return -1;
    }
    proof {
        assert(la.drop_first().len() == 0);
        assert(lb.drop_first().len() == 0);
        assert(cmp_ident_lists(la.drop_first(), lb.drop_first(), pre) == 0);
    }
    0
}

/// Full precedence comparison of two versions, as the sign of the
/// result: negative, zero or positive like `cmp_version`.
pub fn compare_versions(a: &Version, b: &Version) -> (r: i8)
    ensures
        r as int == cmp_version(a@, b@),
{
    if a.major < b.major {
        return -1;
    }
    if a.major > b.major {
        return 1;
    }
    if a.minor < b.minor {
        return -1;
    }
    if a.minor > b.minor {
        return 1;
    }
    if a.patch < b.patch {
        return -1;
    }
    if a.patch > b.patch {
        return 1;
    }
    let ca = chars_vec(a.pre.as_str());
    let cb = chars_vec(b.pre.as_str());
    let pre_cmp: i8 = if ca.len() == 0 && cb.len() == 0 {
        0
    } else if ca.len() == 0 {
        1
    } else if cb.len() == 0 {
        -1
    } else {
        let t = cmp_lists_exec(&ca, 0, ca.len(), &cb, 0, cb.len(), true);
        proof {
            assert(ca@.subrange(0, ca@.len() as int) =~= ca@);
            assert(cb@.subrange(0, cb@.len() as int) =~= cb@);
        }
        t
    };
    if pre_cmp != 0 {
        return pre_cmp;
    }
    let ba = chars_vec(a.build.as_str());
    let bb = chars_vec(b.build.as_str());
    let t = cmp_lists_exec(&ba, 0, ba.len(), &bb, 0, bb.len(), false);
    proof {
        assert(ba@.subrange(0, ba@.len() as int) =~= ba@);
        assert(bb@.subrange(0, bb@.len() as int) =~= bb@);
    }
    t
}

} // verus!
