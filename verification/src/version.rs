//! The semantic-version data model: the `Version` type, the SemVer
//! grammar `MAJOR.MINOR.PATCH[-PRERELEASE][+BUILD]`, strict parsing and
//! canonical rendering.
//!
//! A valid version string consists of three dot-separated decimal
//! numbers without leading zeros, optionally followed by `-` and a
//! dot-separated list of pre-release identifiers, optionally followed by
//! `+` and a dot-separated list of build identifiers.  Identifiers are
//! non-empty runs of ASCII alphanumerics and hyphens; an all-digit
//! pre-release identifier must not have a leading zero.

use vstd::prelude::*;

use crate::text::all_digits;
use crate::text::chars_vec;
use crate::text::dec_chars;
use crate::text::dec_str;
use crate::text::digits_val;
use crate::text::is_canonical_digits;
use crate::text::is_digit;
use crate::text::lemma_dec_str_digits_val;
use crate::text::parse_u64_digits;
use crate::text::push_range;
use crate::text::string_of;
use crate::text::subvec;

verus! {

/// Whether `c` is an ASCII letter.
pub open spec fn is_alpha(c: char) -> bool {
    ('a' <= c && c <= 'z') || ('A' <= c && c <= 'Z')
}

/// Whether `c` may occur in a SemVer identifier.
pub open spec fn is_ident_char(c: char) -> bool {
    is_digit(c) || is_alpha(c) || c == '-'
}

/// Whether every character of `s` may occur in a SemVer identifier.
pub open spec fn all_ident_chars(s: Seq<char>) -> bool {
    forall|i: int| 0 <= i < s.len() ==> is_ident_char(#[trigger] s[i])
}

/// The index of the first `.` in `s`, or `s.len()` when there is none.
pub open spec fn first_dot(s: Seq<char>) -> int
    decreases s.len(),
{
    if s.len() == 0 {
        0
    } else if s[0] == '.' {
        0
    } else {
        1 + first_dot(s.drop_first())
    }
}

pub proof fn lemma_first_dot(s: Seq<char>)
    ensures
        0 <= first_dot(s) <= s.len(),
        first_dot(s) < s.len() ==> s[first_dot(s)] == '.',
        forall|j: int| 0 <= j < first_dot(s) ==> s[j] != '.',
    decreases s.len(),
{
    if s.len() > 0 && s[0] != '.' {
        lemma_first_dot(s.drop_first());
        assert forall|j: int| 0 <= j < first_dot(s) implies s[j] != '.' by {
            if j > 0 {
                assert(s.drop_first()[j - 1] == s[j]);
            }
        }
    }
}

/// The segments of `s` between dots.  An empty `s` yields one empty
/// segment, matching how `str::split('.')` behaves.
pub open spec fn split_dots(s: Seq<char>) -> Seq<Seq<char>>
    decreases s.len(),
{
    let d = first_dot(s);
    if 0 <= d < s.len() {
        seq![s.take(d)] + split_dots(s.skip(d + 1))
    } else {
        seq![s]
    }
}

/// A single pre-release identifier: non-empty, alphanumeric/hyphen, and
/// without a leading zero when it is all digits.
pub open spec fn is_pre_ident(s: Seq<char>) -> bool {
    &&& s.len() > 0
    &&& all_ident_chars(s)
    &&& (all_digits(s) && s.len() > 1 ==> s[0] != '0')
}

/// A single build identifier: non-empty and alphanumeric/hyphen
/// (leading zeros are allowed here).
pub open spec fn is_build_ident(s: Seq<char>) -> bool {
    s.len() > 0 && all_ident_chars(s)
}

/// Valid pre-release text: empty, or dot-separated valid identifiers.
pub open spec fn valid_pre_text(s: Seq<char>) -> bool {
    s.len() == 0 || (forall|i: int|
        0 <= i < split_dots(s).len() ==> is_pre_ident(#[trigger] split_dots(s)[i]))
}

/// Valid build-metadata text: empty, or dot-separated valid identifiers.
pub open spec fn valid_build_text(s: Seq<char>) -> bool {
    s.len() == 0 || (forall|i: int|
        0 <= i < split_dots(s).len() ==> is_build_ident(#[trigger] split_dots(s)[i]))
}

/// The mathematical image of a `Version`.
pub ghost struct VersionView {
    pub major: int,
    pub minor: int,
    pub patch: int,
    pub pre: Seq<char>,
    pub build: Seq<char>,
}

impl VersionView {
    /// Well-formed: numeric fields fit in `u64` and the identifier
    /// texts obey the grammar.
    pub open spec fn wf(self) -> bool {
        &&& 0 <= self.major <= u64::MAX
        &&& 0 <= self.minor <= u64::MAX
        &&& 0 <= self.patch <= u64::MAX
        &&& valid_pre_text(self.pre)
        &&& valid_build_text(self.build)
    }

    /// The zero version `0.0.0` with no pre-release and no build text.
    pub open spec fn zero() -> VersionView {
        VersionView { major: 0, minor: 0, patch: 0, pre: Seq::empty(), build: Seq::empty() }
    }
}

/// A semantic version `MAJOR.MINOR.PATCH[-PRERELEASE][+BUILD]`.
///
/// `pre` and `build` hold the raw dot-separated identifier text (empty
/// when the version carries no pre-release or build metadata).
#[derive(Debug)]
pub struct Version {
    pub major: u64,
    pub minor: u64,
    pub patch: u64,
    pub pre: String,
    pub build: String,
}

impl View for Version {
    type V = VersionView;

    open spec fn view(&self) -> VersionView {
        VersionView {
            major: self.major as int,
            minor: self.minor as int,
            patch: self.patch as int,
            pre: self.pre@,
            build: self.build@,
        }
    }
}

/// The canonical text of a version.
pub open spec fn spec_render(v: VersionView) -> Seq<char> {
    dec_str(v.major) + seq!['.'] + dec_str(v.minor) + seq!['.'] + dec_str(v.patch) + (if v.pre.len()
        > 0 {
        seq!['-'] + v.pre
    } else {
        Seq::<char>::empty()
    }) + (if v.build.len() > 0 {
        seq!['+'] + v.build
    } else {
        Seq::<char>::empty()
    })
}

/// The length of the maximal run of ASCII digits starting at `i`.
pub open spec fn digit_run(s: Seq<char>, i: int) -> int
    decreases s.len() - i,
{
    if i < 0 || i >= s.len() || !is_digit(s[i]) {
        0
    } else {
        1 + digit_run(s, i + 1)
    }
}

pub proof fn lemma_digit_run(s: Seq<char>, i: int)
    requires
        0 <= i <= s.len(),
    ensures
        0 <= digit_run(s, i),
        i + digit_run(s, i) <= s.len(),
        forall|j: int| i <= j < i + digit_run(s, i) ==> is_digit(#[trigger] s[j]),
        i + digit_run(s, i) < s.len() ==> !is_digit(s[i + digit_run(s, i)]),
    decreases s.len() - i,
{
    if i < s.len() && is_digit(s[i]) {
        lemma_digit_run(s, i + 1);
    }
}

/// The length of the maximal run of characters other than `+` starting
/// at `i`.
pub open spec fn non_plus_run(s: Seq<char>, i: int) -> int
    decreases s.len() - i,
{
    if i < 0 || i >= s.len() || s[i] == '+' {
        0
    } else {
        1 + non_plus_run(s, i + 1)
    }
}

pub proof fn lemma_non_plus_run(s: Seq<char>, i: int)
    requires
        0 <= i <= s.len(),
    ensures
        0 <= non_plus_run(s, i),
        i + non_plus_run(s, i) <= s.len(),
        forall|j: int| i <= j < i + non_plus_run(s, i) ==> #[trigger] s[j] != '+',
        i + non_plus_run(s, i) < s.len() ==> s[i + non_plus_run(s, i)] == '+',
    decreases s.len() - i,
{
    if i < s.len() && s[i] != '+' {
        lemma_non_plus_run(s, i + 1);
    }
}

/// Strict parsing of a whole version string, as a mathematical
/// function: `Some` exactly on grammar-valid text whose numeric triple
/// fits in `u64`, yielding the five components.
pub open spec fn spec_parse(s: Seq<char>) -> Option<VersionView> {
    let n = s.len() as int;
    let l1 = digit_run(s, 0);
    if l1 == 0 || (l1 > 1 && s[0] == '0') || l1 >= n || s[l1] != '.' {
        None
    } else {
        let j = l1 + 1;
        let l2 = digit_run(s, j);
        if l2 == 0 || (l2 > 1 && s[j] == '0') || j + l2 >= n || s[j + l2] != '.' {
            None
        } else {
            let k = j + l2 + 1;
            let l3 = digit_run(s, k);
            if l3 == 0 || (l3 > 1 && s[k] == '0') {
                None
            } else {
                let q = k + l3;
                let major = digits_val(s.subrange(0, l1));
                let minor = digits_val(s.subrange(j, j + l2));
                let patch = digits_val(s.subrange(k, q));
                if major > u64::MAX || minor > u64::MAX || patch > u64::MAX {
                    None
                } else if q == n {
                    Some(
                        VersionView {
                            major,
                            minor,
                            patch,
                            pre: Seq::empty(),
                            build: Seq::empty(),
                        },
                    )
                } else if s[q] == '-' {
                    let e = q + 1 + non_plus_run(s, q + 1);
                    let pre = s.subrange(q + 1, e);
                    if pre.len() == 0 || !valid_pre_text(pre) {
                        None
                    } else if e == n {
                        Some(VersionView { major, minor, patch, pre, build: Seq::empty() })
                    } else {
                        let build = s.subrange(e + 1, n);
                        if build.len() == 0 || !valid_build_text(build) {
                            None
                        } else {
                            Some(VersionView { major, minor, patch, pre, build })
                        }
                    }
                } else if s[q] == '+' {
                    let build = s.subrange(q + 1, n);
                    if build.len() == 0 || !valid_build_text(build) {
                        None
                    } else {
                        Some(
                            VersionView {
                                major,
                                minor,
                                patch,
                                pre: Seq::empty(),
                                build,
                            },
                        )
                    }
                } else {
                    None
                }
            }
        }
    }
}

/// The length of the maximal digit run starting at `i`.
pub fn digit_run_at(cs: &Vec<char>, i: usize) -> (r: usize)
    requires
        i <= cs@.len(),
    ensures
        r == digit_run(cs@, i as int),
        i + r <= cs@.len(),
{
    proof {
        lemma_digit_run(cs@, i as int);
    }
    let mut j: usize = i;
    while j < cs.len() && is_digit_exec(cs[j])
        invariant
            i <= j <= cs@.len(),
            digit_run(cs@, i as int) == (j - i) + digit_run(cs@, j as int),
            forall|t: int| i <= t < j ==> is_digit(#[trigger] cs@[t]),
        decreases cs@.len() - j,
    {
        j = j + 1;
    }
    j - i
}

/// Whether `c` is an ASCII decimal digit.
pub fn is_digit_exec(c: char) -> (r: bool)
    ensures
        r == is_digit(c),
{
    '0' <= c && c <= '9'
}

/// Whether `c` is an ASCII letter.
pub fn is_alpha_exec(c: char) -> (r: bool)
    ensures
        r == is_alpha(c),
{
    ('a' <= c && c <= 'z') || ('A' <= c && c <= 'Z')
}

/// Whether `c` may occur in a SemVer identifier.
pub fn is_ident_char_exec(c: char) -> (r: bool)
    ensures
        r == is_ident_char(c),
{
    is_digit_exec(c) || is_alpha_exec(c) || c == '-'
}

/// The position of the first `.` in `cs[from..to]`, given as an
/// absolute index (`to` when there is none).
pub fn find_dot(cs: &Vec<char>, from: usize, to: usize) -> (r: usize)
    requires
        from <= to <= cs@.len(),
    ensures
        r - from == first_dot(cs@.subrange(from as int, to as int)),
        from <= r <= to,
        r < to ==> cs@[r as int] == '.',
        forall|j: int| from <= j < r ==> cs@[j] != '.',
{
    let ghost sub = cs@.subrange(from as int, to as int);
    proof {
        lemma_first_dot(sub);
    }
    let mut i: usize = from;
    while i < to && cs[i] != '.'
        invariant
            from <= i <= to <= cs@.len(),
            forall|j: int| from <= j < i ==> cs@[j] != '.',
        decreases to - i,
    {
        i = i + 1;
    }
    proof {
        let d = first_dot(sub);
        assert(forall|j: int| 0 <= j < i - from ==> sub[j] == cs@[from + j] && cs@[from + j]
            != '.');
        if d < i - from {
            assert(sub[d] == '.');
            assert(cs@[from + d] == '.');
        }
        if d > i - from {
            assert(i < to);
            assert(sub[i - from] == cs@[i as int]);
        }
    }
    i
}

/// A dot-separated identifier list: relates the scanned range to
/// `split_dots` of the corresponding subsequence.  `pre` selects the
/// pre-release identifier rule; otherwise the build rule applies.
fn check_ident_list(cs: &Vec<char>, from: usize, to: usize, pre: bool) -> (r: bool)
    requires
        from <= to <= cs@.len(),
    ensures
        ({
            let segs = split_dots(cs@.subrange(from as int, to as int));
            r == (forall|i: int|
                0 <= i < segs.len() ==> if pre {
                    is_pre_ident(#[trigger] segs[i])
                } else {
                    is_build_ident(segs[i])
                })
        }),
    decreases to - from,
{
    let ghost sub = cs@.subrange(from as int, to as int);
    let d = find_dot(cs, from, to);
    let seg_ok = check_ident(cs, from, d, pre);
    proof {
        lemma_first_dot(sub);
        assert(sub.take(first_dot(sub)) =~= cs@.subrange(from as int, d as int));
    }
    if d < to {
        let rest_ok = check_ident_list(cs, d + 1, to, pre);
        proof {
            let segs = split_dots(sub);
            let rest = split_dots(cs@.subrange(d + 1, to as int));
            assert(sub.skip(first_dot(sub) + 1) =~= cs@.subrange(d + 1, to as int));
            assert(segs =~= seq![cs@.subrange(from as int, d as int)] + rest);
            assert(segs[0] == cs@.subrange(from as int, d as int));
            assert(forall|i: int| 1 <= i < segs.len() ==> segs[i] == #[trigger] rest[i - 1]);
            if seg_ok && rest_ok {
                assert forall|i: int|
                    0 <= i < segs.len() implies if pre {
                    is_pre_ident(#[trigger] segs[i])
                } else {
                    is_build_ident(segs[i])
                } by {
                    if i > 0 {
                        assert(segs[i] == rest[i - 1]);
                    }
                }
            } else if !seg_ok {
                assert(!(if pre {
                    is_pre_ident(segs[0])
                } else {
                    is_build_ident(segs[0])
                }));
                assert(!(forall|i: int|
                    0 <= i < segs.len() ==> if pre {
                        is_pre_ident(#[trigger] segs[i])
                    } else {
                        is_build_ident(segs[i])
                    }));
            } else {
                let i0 = choose|i: int|
                    0 <= i < rest.len() && !(if pre {
                        is_pre_ident(#[trigger] rest[i])
                    } else {
                        is_build_ident(rest[i])
                    });
                assert(0 <= i0 < rest.len() && !(if pre {
                    is_pre_ident(rest[i0])
                } else {
                    is_build_ident(rest[i0])
                }));
                assert(segs[i0 + 1] == rest[i0]);
                assert(!(forall|i: int|
                    0 <= i < segs.len() ==> if pre {
                        is_pre_ident(#[trigger] segs[i])
                    } else {
                        is_build_ident(segs[i])
                    }));
            }
        }
        proof {
            let segs = split_dots(cs@.subrange(from as int, to as int));
            assert((seg_ok && rest_ok) == (forall|i: int|
                0 <= i < segs.len() ==> if pre {
                    is_pre_ident(#[trigger] segs[i])
                } else {
                    is_build_ident(segs[i])
                }));
        }
        seg_ok && rest_ok
    } else {
        proof {
            assert(first_dot(sub) == sub.len());
            assert(split_dots(sub) =~= seq![sub]);
            assert(sub =~= cs@.subrange(from as int, d as int));
            let segs = split_dots(cs@.subrange(from as int, to as int));
            assert(segs[0] == sub);
            assert(seg_ok == (forall|i: int|
                0 <= i < segs.len() ==> if pre {
                    is_pre_ident(#[trigger] segs[i])
                } else {
                    is_build_ident(segs[i])
                }));
        }
        seg_ok
    }
}

/// A single identifier under the pre-release or build rule.
fn check_ident(cs: &Vec<char>, from: usize, to: usize, pre: bool) -> (r: bool)
    requires
        from <= to <= cs@.len(),
    ensures
        ({
            let seg = cs@.subrange(from as int, to as int);
            r == if pre {
                is_pre_ident(seg)
            } else {
                is_build_ident(seg)
            }
        }),
{
    let ghost seg = cs@.subrange(from as int, to as int);
    if from == to {
        return false;
    }
    let mut i: usize = from;
    let mut chars_ok = true;
    let mut digits_only = true;
    while i < to
        invariant
            from <= i <= to <= cs@.len(),
            seg == cs@.subrange(from as int, to as int),
            chars_ok == (forall|j: int| 0 <= j < i - from ==> is_ident_char(#[trigger] seg[j])),
            digits_only == (forall|j: int| 0 <= j < i - from ==> is_digit(#[trigger] seg[j])),
        decreases to - i,
    {
        let c = cs[i];
        proof {
            assert(seg[i - from] == cs@[i as int]);
        }
        let ic = is_ident_char_exec(c);
        let dg = is_digit_exec(c);
        chars_ok = chars_ok && ic;
        digits_only = digits_only && dg;
        i = i + 1;
    }
    proof {
        assert(chars_ok == all_ident_chars(seg));
        assert(digits_only == all_digits(seg));
        assert(seg[0] == cs@[from as int]);
    }
    if !chars_ok {
        return false;
    }
    if pre && digits_only && to - from > 1 && cs[from] == '0' {
        return false;
    }
    true
}

impl Version {
    /// The zero version `0.0.0`, the sentinel for "no release tag yet".
    pub fn zero() -> (v: Version)
        ensures
            v@ == VersionView::zero(),
            v@.wf(),
    {
        let v = Version {
            major: 0,
            minor: 0,
            patch: 0,
            pre: String::new(),
            build: String::new(),
        };
        proof {
            assert(v@ =~= VersionView::zero()) by {
                assert(v.pre@ =~= Seq::<char>::empty());
                assert(v.build@ =~= Seq::<char>::empty());
            }
        }
        v
    }

    /// Strict parse of a whole string per the SemVer grammar.
    pub fn parse(s: &str) -> (r: Option<Version>)
        ensures
            match r {
                Some(v) => spec_parse(s@) == Some(v@) && v@.wf(),
                None => spec_parse(s@) is None,
            },
    {
        let cs = chars_vec(s);
        let n = cs.len();
        proof {
            lemma_digit_run(cs@, 0);
        }
        let l1 = digit_run_at(&cs, 0);
        if l1 == 0 || (l1 > 1 && cs[0] == '0') || l1 >= n || cs[l1] != '.' {
            return None;
        }
        let j = l1 + 1;
        proof {
            lemma_digit_run(cs@, j as int);
        }
        let l2 = digit_run_at(&cs, j);
        if l2 == 0 || (l2 > 1 && cs[j] == '0') || j + l2 >= n || cs[j + l2] != '.' {
            return None;
        }
        let k = j + l2 + 1;
        proof {
            lemma_digit_run(cs@, k as int);
        }
        let l3 = digit_run_at(&cs, k);
        if l3 == 0 || (l3 > 1 && cs[k] == '0') {
            return None;
        }
        let q = k + l3;
        proof {
            let mt = cs@.subrange(0, l1 as int);
            assert(all_digits(mt)) by {
                assert forall|t: int| 0 <= t < mt.len() implies is_digit(#[trigger] mt[t]) by {
                    assert(mt[t] == cs@[t]);
                }
            }
            let nt = cs@.subrange(j as int, j + l2);
            assert(all_digits(nt)) by {
                assert forall|t: int| 0 <= t < nt.len() implies is_digit(#[trigger] nt[t]) by {
                    assert(nt[t] == cs@[j + t]);
                }
            }
            let pt = cs@.subrange(k as int, q as int);
            assert(all_digits(pt)) by {
                assert forall|t: int| 0 <= t < pt.len() implies is_digit(#[trigger] pt[t]) by {
                    assert(pt[t] == cs@[k + t]);
                }
            }
        }
        let major = match parse_u64_digits(&cs, 0, l1) {
            Some(v) => v,
            None => {
                return None;
            },
        };
        let minor = match parse_u64_digits(&cs, j, j + l2) {
            Some(v) => v,
            None => {
                return None;
            },
        };
        let patch = match parse_u64_digits(&cs, k, q) {
            Some(v) => v,
            None => {
                return None;
            },
        };
        if q == n {
            let v = Version {
                major,
                minor,
                patch,
                pre: String::new(),
                build: String::new(),
            };
            proof {
                assert(spec_parse(s@) == Some(v@)) by {
                    assert(v@.pre =~= Seq::<char>::empty());
                    assert(v@.build =~= Seq::<char>::empty());
                }
                lemma_spec_parse_wf(s@);
            }
            return Some(v);
        }
        if cs[q] == '-' {
            proof {
                lemma_non_plus_run(cs@, q + 1);
            }
            let run = non_plus_run_at(&cs, q + 1);
            let e = q + 1 + run;
            if e == q + 1 {
                return None;
            }
            if !check_ident_list(&cs, q + 1, e, true) {
                return None;
            }
            let pre = string_of(&subvec(&cs, q + 1, e));
            if e == n {
                let v = Version { major, minor, patch, pre, build: String::new() };
                proof {
                    assert(spec_parse(s@) == Some(v@)) by {
                        assert(v@.build =~= Seq::<char>::empty());
                    }
                    lemma_spec_parse_wf(s@);
                }
                return Some(v);
            }
            if e + 1 == n {
                return None;
            }
            if !check_ident_list(&cs, e + 1, n, false) {
                return None;
            }
            let build = string_of(&subvec(&cs, e + 1, n));
            let v = Version { major, minor, patch, pre, build };
            proof {
                lemma_spec_parse_wf(s@);
            }
            return Some(v);
        }
        if cs[q] == '+' {
            if q + 1 == n {
                return None;
            }
            if !check_ident_list(&cs, q + 1, n, false) {
                return None;
            }
            let build = string_of(&subvec(&cs, q + 1, n));
            let v = Version { major, minor, patch, pre: String::new(), build };
            proof {
                assert(spec_parse(s@) == Some(v@)) by {
                    assert(v@.pre =~= Seq::<char>::empty());
                }
                lemma_spec_parse_wf(s@);
            }
            return Some(v);
        }
        None
    }

    /// The canonical text of this version.
    pub fn render(&self) -> (r: String)
        ensures
            r@ == spec_render(self@),
    {
        let mut out: Vec<char> = Vec::new();
        let maj = dec_chars(self.major);
        let min = dec_chars(self.minor);
        let pat = dec_chars(self.patch);
        push_range(&mut out, &maj, 0, maj.len());
        out.push('.');
        push_range(&mut out, &min, 0, min.len());
        out.push('.');
        push_range(&mut out, &pat, 0, pat.len());
        proof {
            assert(maj@.subrange(0, maj@.len() as int) =~= maj@);
            assert(min@.subrange(0, min@.len() as int) =~= min@);
            assert(pat@.subrange(0, pat@.len() as int) =~= pat@);
            assert(out@ =~= dec_str(self@.major) + seq!['.'] + dec_str(self@.minor) + seq!['.']
                + dec_str(self@.patch));
        }
        let pre_chars = chars_vec(self.pre.as_str());
        if pre_chars.len() > 0 {
            out.push('-');
            push_range(&mut out, &pre_chars, 0, pre_chars.len());
            proof {
                assert(pre_chars@.subrange(0, pre_chars@.len() as int) =~= pre_chars@);
            }
        }
        let build_chars = chars_vec(self.build.as_str());
        if build_chars.len() > 0 {
            out.push('+');
            push_range(&mut out, &build_chars, 0, build_chars.len());
            proof {
                assert(build_chars@.subrange(0, build_chars@.len() as int) =~= build_chars@);
            }
        }
        proof {
            assert(out@ =~= spec_render(self@));
        }
        string_of(&out)
    }
}

/// Whether `s` is valid pre-release text: empty, or dot-separated
/// identifiers each obeying the pre-release rule.
pub fn pre_text_valid(s: &str) -> (r: bool)
    ensures
        r == valid_pre_text(s@),
{
    let cs = chars_vec(s);
    if cs.len() == 0 {
        return true;
    }
    let ok = check_ident_list(&cs, 0, cs.len(), true);
    proof {
        assert(cs@.subrange(0, cs@.len() as int) =~= cs@);
    }
    ok
}

/// Whether `s` is valid build-metadata text: empty, or dot-separated
/// identifiers each obeying the build rule.
pub fn build_text_valid(s: &str) -> (r: bool)
    ensures
        r == valid_build_text(s@),
{
    let cs = chars_vec(s);
    if cs.len() == 0 {
        return true;
    }
    let ok = check_ident_list(&cs, 0, cs.len(), false);
    proof {
        assert(cs@.subrange(0, cs@.len() as int) =~= cs@);
    }
    ok
}

/// The length of the maximal run without `+` starting at `i`.
fn non_plus_run_at(cs: &Vec<char>, i: usize) -> (r: usize)
    requires
        i <= cs@.len(),
    ensures
        r == non_plus_run(cs@, i as int),
        i + r <= cs@.len(),
{
    proof {
        lemma_non_plus_run(cs@, i as int);
    }
    let mut j: usize = i;
    while j < cs.len() && cs[j] != '+'
        invariant
            i <= j <= cs@.len(),
            non_plus_run(cs@, i as int) == (j - i) + non_plus_run(cs@, j as int),
        decreases cs@.len() - j,
    {
        j = j + 1;
    }
    j - i
}

/// Parsing a valid version string and rendering the result yields the
/// original string: every component — major, minor, patch, pre-release
/// and build text — round-trips identically.
pub proof fn lemma_parse_render_roundtrip(s: Seq<char>)
    requires
        spec_parse(s) is Some,
    ensures
        spec_render(spec_parse(s)->Some_0) == s,
{
    let v = spec_parse(s)->Some_0;
    let n = s.len() as int;
    let l1 = digit_run(s, 0);
    lemma_digit_run(s, 0);
    let j = l1 + 1;
    let l2 = digit_run(s, j);
    lemma_digit_run(s, j);
    let k = j + l2 + 1;
    let l3 = digit_run(s, k);
    lemma_digit_run(s, k);
    let q = k + l3;
    let mt = s.subrange(0, l1);
    let nt = s.subrange(j, j + l2);
    let pt = s.subrange(k, q);
    assert(all_digits(mt)) by {
        assert forall|t: int| 0 <= t < mt.len() implies is_digit(#[trigger] mt[t]) by {
            assert(mt[t] == s[t]);
        }
    }
    assert(mt[0] == s[0]);
    assert(is_canonical_digits(mt));
    lemma_dec_str_digits_val(mt);
    assert(all_digits(nt)) by {
        assert forall|t: int| 0 <= t < nt.len() implies is_digit(#[trigger] nt[t]) by {
            assert(nt[t] == s[j + t]);
        }
    }
    assert(nt[0] == s[j]);
    assert(is_canonical_digits(nt));
    lemma_dec_str_digits_val(nt);
    assert(all_digits(pt)) by {
        assert forall|t: int| 0 <= t < pt.len() implies is_digit(#[trigger] pt[t]) by {
            assert(pt[t] == s[k + t]);
        }
    }
    assert(pt[0] == s[k]);
    assert(is_canonical_digits(pt));
    lemma_dec_str_digits_val(pt);
    assert(dec_str(v.major) == mt);
    assert(dec_str(v.minor) == nt);
    assert(dec_str(v.patch) == pt);
    if q == n {
        assert(spec_render(v) =~= mt + seq!['.'] + nt + seq!['.'] + pt);
        assert(mt + seq!['.'] + nt + seq!['.'] + pt =~= s);
    } else if s[q] == '-' {
        lemma_non_plus_run(s, q + 1);
        let e = q + 1 + non_plus_run(s, q + 1);
        let pre = s.subrange(q + 1, e);
        if e == n {
            assert(spec_render(v) =~= mt + seq!['.'] + nt + seq!['.'] + pt + (seq!['-'] + pre));
            assert(mt + seq!['.'] + nt + seq!['.'] + pt + (seq!['-'] + pre) =~= s);
        } else {
            let b = s.subrange(e + 1, n);
            assert(s[e] == '+');
            assert(spec_render(v) =~= mt + seq!['.'] + nt + seq!['.'] + pt + (seq!['-'] + pre) + (
            seq!['+'] + b));
            assert(mt + seq!['.'] + nt + seq!['.'] + pt + (seq!['-'] + pre) + (seq!['+'] + b)
                =~= s);
        }
    } else {
        assert(s[q] == '+');
        let b = s.subrange(q + 1, n);
        assert(spec_render(v) =~= mt + seq!['.'] + nt + seq!['.'] + pt + (seq!['+'] + b));
        assert(mt + seq!['.'] + nt + seq!['.'] + pt + (seq!['+'] + b) =~= s);
    }
}

/// A run of digits followed by a non-digit (or the end) is exactly
/// what `digit_run` measures.
proof fn lemma_digit_run_exact(s: Seq<char>, i: int, k: int)
    requires
        0 <= i,
        0 <= k,
        i + k <= s.len(),
        forall|j: int| i <= j < i + k ==> is_digit(#[trigger] s[j]),
        i + k < s.len() ==> !is_digit(s[i + k]),
    ensures
        digit_run(s, i) == k,
    decreases k,
{
    if k > 0 {
        lemma_digit_run_exact(s, i + 1, k - 1);
    }
}

/// A run without `+` followed by a `+` (or the end) is exactly what
/// `non_plus_run` measures.
proof fn lemma_non_plus_run_exact(s: Seq<char>, i: int, k: int)
    requires
        0 <= i,
        0 <= k,
        i + k <= s.len(),
        forall|j: int| i <= j < i + k ==> #[trigger] s[j] != '+',
        i + k < s.len() ==> s[i + k] == '+',
    ensures
        non_plus_run(s, i) == k,
    decreases k,
{
    if k > 0 {
        lemma_non_plus_run_exact(s, i + 1, k - 1);
    }
}

/// Text whose dot-separated segments are all identifiers consists of
/// dots and identifier characters only.
proof fn lemma_ident_list_chars(s: Seq<char>)
    requires
        forall|i: int| 0 <= i < split_dots(s).len() ==> is_build_ident(#[trigger] split_dots(s)[i]),
    ensures
        forall|i: int| 0 <= i < s.len() ==> s[i] == '.' || is_ident_char(#[trigger] s[i]),
    decreases s.len(),
{
    lemma_first_dot(s);
    let d = first_dot(s);
    let segs = split_dots(s);
    if 0 <= d < s.len() {
        let rest = s.skip(d + 1);
        let rest_segs = split_dots(rest);
        assert(segs =~= seq![s.take(d)] + rest_segs);
        assert(segs[0] == s.take(d));
        assert forall|i: int| 0 <= i < rest_segs.len() implies is_build_ident(
            #[trigger] rest_segs[i],
        ) by {
            assert(rest_segs[i] == segs[i + 1]);
        }
        lemma_ident_list_chars(rest);
        assert forall|i: int| 0 <= i < s.len() implies s[i] == '.' || is_ident_char(
            #[trigger] s[i],
        ) by {
            if i < d {
                assert(s.take(d)[i] == s[i]);
                assert(is_build_ident(segs[0]));
            } else if i > d {
                assert(rest[i - d - 1] == s[i]);
            }
        }
    } else {
        assert(segs =~= seq![s]);
        assert(segs[0] == s);
        if s.len() > 0 {
            assert(is_build_ident(s));
        }
    }
}

/// Valid pre-release or build text consists of dots and identifier
/// characters only.
proof fn lemma_valid_text_chars(s: Seq<char>)
    requires
        valid_pre_text(s) || valid_build_text(s),
        s.len() > 0,
    ensures
        forall|i: int| 0 <= i < s.len() ==> s[i] == '.' || is_ident_char(#[trigger] s[i]),
{
    assert forall|i: int| 0 <= i < split_dots(s).len() implies is_build_ident(
        #[trigger] split_dots(s)[i],
    ) by {
        if valid_pre_text(s) {
            assert(is_pre_ident(split_dots(s)[i]));
        } else {
            assert(is_build_ident(split_dots(s)[i]));
        }
    }
    lemma_ident_list_chars(s);
}

/// The companion of the parse-then-render law: rendering any
/// well-formed version yields text that parses back to exactly that
/// version.
pub proof fn lemma_render_parse_roundtrip(v: VersionView)
    requires
        v.wf(),
    ensures
        spec_parse(spec_render(v)) == Some(v),
{
    let s = spec_render(v);
    let a = dec_str(v.major);
    let b = dec_str(v.minor);
    let c = dec_str(v.patch);
    crate::text::lemma_dec_str_canonical(v.major);
    crate::text::lemma_dec_str_canonical(v.minor);
    crate::text::lemma_dec_str_canonical(v.patch);
    let la = a.len() as int;
    let lb = b.len() as int;
    let lc = c.len() as int;
    let j = la + 1;
    let k = j + lb + 1;
    let q = k + lc;
    let n = s.len() as int;
    assert(s.subrange(0, la) =~= a);
    assert(s[la] == '.');
    assert(s.subrange(j, j + lb) =~= b);
    assert(s[j + lb] == '.');
    assert(s.subrange(k, q) =~= c);
    if v.pre.len() > 0 {
        lemma_valid_text_chars(v.pre);
        assert(s[q] == '-');
        assert(s.subrange(q + 1, q + 1 + v.pre.len()) =~= v.pre);
    }
    if v.build.len() > 0 {
        lemma_valid_text_chars(v.build);
        let bstart = if v.pre.len() > 0 {
            q + 1 + v.pre.len()
        } else {
            q
        };
        assert(s[bstart] == '+');
        assert(s.subrange(bstart + 1, n) =~= v.build);
    }
    assert(digit_run(s, 0) == la) by {
        lemma_digit_run_exact(s, 0, la);
    }
    assert(digit_run(s, j) == lb) by {
        assert(forall|t: int| j <= t < j + lb ==> is_digit(#[trigger] s[t]));
        lemma_digit_run_exact(s, j, lb);
    }
    assert(digit_run(s, k) == lc) by {
        assert(forall|t: int| k <= t < k + lc ==> is_digit(#[trigger] s[t]));
        assert(q < n ==> !is_digit(s[q])) by {
            if v.pre.len() > 0 {
                assert(s[q] == '-');
            } else if v.build.len() > 0 {
                assert(s[q] == '+');
            }
        }
        lemma_digit_run_exact(s, k, lc);
    }
    assert(digits_val(s.subrange(0, la)) == v.major);
    assert(digits_val(s.subrange(j, j + lb)) == v.minor);
    assert(digits_val(s.subrange(k, q)) == v.patch);
    if v.pre.len() > 0 {
        let e = q + 1 + v.pre.len();
        assert(non_plus_run(s, q + 1) == v.pre.len()) by {
            assert(forall|t: int|
                q + 1 <= t < e ==> #[trigger] s[t] != '+') by {
                assert(forall|t: int|
                    q + 1 <= t < e ==> s[t] == #[trigger] v.pre[t - (q + 1)]);
            }
            assert(e < n ==> s[e] == '+');
            lemma_non_plus_run_exact(s, q + 1, v.pre.len() as int);
        }
        if v.build.len() > 0 {
            assert(spec_parse(s) == Some(v)) by {
                assert(s.subrange(q + 1, e) == v.pre);
                assert(s.subrange(e + 1, n) == v.build);
            }
        } else {
            assert(e == n);
            assert(spec_parse(s) == Some(v)) by {
                assert(s.subrange(q + 1, e) == v.pre);
                assert(Seq::<char>::empty() =~= v.build);
            }
        }
    } else {
        if v.build.len() > 0 {
            assert(s[q] == '+');
            assert(spec_parse(s) == Some(v)) by {
                assert(s.subrange(q + 1, n) == v.build);
                assert(Seq::<char>::empty() =~= v.pre);
            }
        } else {
            assert(q == n);
            assert(spec_parse(s) == Some(v)) by {
                assert(Seq::<char>::empty() =~= v.pre);
                assert(Seq::<char>::empty() =~= v.build);
            }
        }
    }
}

/// Whatever strict parsing accepts is well-formed.
pub proof fn lemma_spec_parse_wf(s: Seq<char>)
    requires
        spec_parse(s) is Some,
    ensures
        spec_parse(s)->Some_0.wf(),
{
    let n = s.len() as int;
    let l1 = digit_run(s, 0);
    lemma_digit_run(s, 0);
    let j = l1 + 1;
    lemma_digit_run(s, j);
    let l2 = digit_run(s, j);
    let k = j + l2 + 1;
    lemma_digit_run(s, k);
    let l3 = digit_run(s, k);
    let q = k + l3;
    let mt = s.subrange(0, l1);
    assert(all_digits(mt)) by {
        assert forall|t: int| 0 <= t < mt.len() implies is_digit(#[trigger] mt[t]) by {
            assert(mt[t] == s[t]);
        }
    }
    crate::text::lemma_digits_val_bounds(mt);
    let nt = s.subrange(j, j + l2);
    assert(all_digits(nt)) by {
        assert forall|t: int| 0 <= t < nt.len() implies is_digit(#[trigger] nt[t]) by {
            assert(nt[t] == s[j + t]);
        }
    }
    crate::text::lemma_digits_val_bounds(nt);
    let pt = s.subrange(k, q);
    assert(all_digits(pt)) by {
        assert forall|t: int| 0 <= t < pt.len() implies is_digit(#[trigger] pt[t]) by {
            assert(pt[t] == s[k + t]);
        }
    }
    crate::text::lemma_digits_val_bounds(pt);
    assert(valid_pre_text(Seq::<char>::empty()));
    assert(valid_build_text(Seq::<char>::empty()));
}

} // verus!
