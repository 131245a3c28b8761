//! Embedded version extraction: finds the first (leftmost) substring
//! of a tag name that matches the SemVer search pattern
//! `MAJOR.MINOR.PATCH[-PRERELEASE][+BUILD]`, so that tags with
//! decorative prefixes such as `release-1.2.3` still yield a version.
//!
//! The match is deliberately lenient, mirroring a first-match search
//! rather than strict whole-string parsing: at each candidate start the
//! numeric fields take the alternative `0` or a digit run without a
//! leading zero, the optional pre-release takes dot-separated
//! identifiers (an identifier starting with `0` matches just `0`, one
//! starting with a non-zero digit matches the digit run, and one
//! starting with a letter or hyphen matches the alphanumeric/hyphen
//! run), and the optional build part takes dot-separated
//! alphanumeric/hyphen runs.  The leftmost successful start wins.

use vstd::prelude::*;

use crate::text::is_digit;
use crate::version::digit_run;
use crate::version::digit_run_at;
use crate::version::is_alpha;
use crate::version::is_alpha_exec;
use crate::version::is_digit_exec;
use crate::version::is_ident_char;
use crate::version::is_ident_char_exec;
use crate::version::lemma_digit_run;
use crate::version::spec_parse;
use crate::version::Version;
use crate::version::VersionView;
use crate::text::chars_vec;
use crate::text::string_of;
use crate::text::subvec;

verus! {

/// The length of the maximal run of identifier characters at `i`.
pub open spec fn ident_run(s: Seq<char>, i: int) -> int
    decreases s.len() - i,
{
    if i < 0 || i >= s.len() || !is_ident_char(s[i]) {
        0
    } else {
        1 + ident_run(s, i + 1)
    }
}

pub proof fn lemma_ident_run(s: Seq<char>, i: int)
    requires
        0 <= i <= s.len(),
    ensures
        0 <= ident_run(s, i),
        i + ident_run(s, i) <= s.len(),
        forall|j: int| i <= j < i + ident_run(s, i) ==> is_ident_char(#[trigger] s[j]),
        i + ident_run(s, i) < s.len() ==> !is_ident_char(s[i + ident_run(s, i)]),
    decreases s.len() - i,
{
    if i < s.len() && is_ident_char(s[i]) {
        lemma_ident_run(s, i + 1);
    }
}

/// What one pre-release identifier matches at `j`: `0` alone when the
/// text starts with `0`, a digit run when it starts with a non-zero
/// digit, an alphanumeric/hyphen run when it starts with a letter or
/// hyphen, and nothing otherwise.
pub open spec fn pre_ident_len(s: Seq<char>, j: int) -> int {
    if j < 0 || j >= s.len() {
        0
    } else if s[j] == '0' {
        1
    } else if is_digit(s[j]) {
        digit_run(s, j)
    } else if is_alpha(s[j]) || s[j] == '-' {
        ident_run(s, j)
    } else {
        0
    }
}

pub proof fn lemma_pre_ident_len(s: Seq<char>, j: int)
    requires
        0 <= j <= s.len(),
    ensures
        0 <= pre_ident_len(s, j),
        j + pre_ident_len(s, j) <= s.len(),
{
    lemma_digit_run(s, j);
    lemma_ident_run(s, j);
}

/// What the repeated `.identifier` tail of the pre-release part
/// consumes from `j` on.
pub open spec fn pre_chain_len(s: Seq<char>, j: int) -> int
    decreases s.len() - j,
{
    let l = pre_ident_len(s, j + 1);
    if 0 <= j && j < s.len() && s[j] == '.' && l > 0 && j + 1 + l <= s.len() {
        1 + l + pre_chain_len(s, j + 1 + l)
    } else {
        0
    }
}

pub proof fn lemma_pre_chain_len(s: Seq<char>, j: int)
    requires
        0 <= j <= s.len(),
    ensures
        0 <= pre_chain_len(s, j),
        j + pre_chain_len(s, j) <= s.len(),
    decreases s.len() - j,
{
    let l = pre_ident_len(s, j + 1);
    if 0 <= j && j < s.len() && s[j] == '.' && l > 0 && j + 1 + l <= s.len() {
        lemma_pre_chain_len(s, j + 1 + l);
    }
}

/// What the repeated `.identifier` tail of the build part consumes.
pub open spec fn build_chain_len(s: Seq<char>, j: int) -> int
    decreases s.len() - j,
{
    let l = ident_run(s, j + 1);
    if 0 <= j && j < s.len() && s[j] == '.' && l > 0 && j + 1 + l <= s.len() {
        1 + l + build_chain_len(s, j + 1 + l)
    } else {
        0
    }
}

pub proof fn lemma_build_chain_len(s: Seq<char>, j: int)
    requires
        0 <= j <= s.len(),
    ensures
        0 <= build_chain_len(s, j),
        j + build_chain_len(s, j) <= s.len(),
    decreases s.len() - j,
{
    let l = ident_run(s, j + 1);
    if 0 <= j && j < s.len() && s[j] == '.' && l > 0 && j + 1 + l <= s.len() {
        lemma_build_chain_len(s, j + 1 + l);
    }
}

/// The end of the version match starting exactly at `i`, or `None`
/// when no match starts there.
pub open spec fn match_end_at(s: Seq<char>, i: int) -> Option<int> {
    let n = s.len() as int;
    if i < 0 || i >= n {
        None
    } else {
        let l1 = digit_run(s, i);
        let m1: int = if s[i] == '0' {
            1
        } else {
            l1
        };
        if l1 == 0 || i + m1 >= n || s[i + m1] != '.' {
            None
        } else {
            let j = i + m1 + 1;
            let l2 = digit_run(s, j);
            let m2: int = if j < n && s[j] == '0' {
                1
            } else {
                l2
            };
            if l2 == 0 || j + m2 >= n || s[j + m2] != '.' {
                None
            } else {
                let k = j + m2 + 1;
                let l3 = digit_run(s, k);
                let m3: int = if k < n && s[k] == '0' {
                    1
                } else {
                    l3
                };
                if l3 == 0 {
                    None
                } else {
                    let q = k + m3;
                    let q1: int = if q < n && s[q] == '-' && pre_ident_len(s, q + 1) > 0 {
                        q + 1 + pre_ident_len(s, q + 1) + pre_chain_len(
                            s,
                            q + 1 + pre_ident_len(s, q + 1),
                        )
                    } else {
                        q
                    };
                    let q2: int = if q1 < n && s[q1] == '+' && ident_run(s, q1 + 1) > 0 {
                        q1 + 1 + ident_run(s, q1 + 1) + build_chain_len(
                            s,
                            q1 + 1 + ident_run(s, q1 + 1),
                        )
                    } else {
                        q1
                    };
                    Some(q2)
                }
            }
        }
    }
}

/// The leftmost start of a version match at or after `i`.
pub open spec fn find_match_start(s: Seq<char>, i: int) -> Option<int>
    decreases s.len() - i,
{
    if i < 0 || i > s.len() {
        None
    } else if match_end_at(s, i) is Some {
        Some(i)
    } else if i < s.len() {
        find_match_start(s, i + 1)
    } else {
        None
    }
}

/// The leftmost matched substring of `s`, if any.
pub open spec fn spec_extract(s: Seq<char>) -> Option<Seq<char>> {
    match find_match_start(s, 0) {
        Some(i) => Some(s.subrange(i, match_end_at(s, i)->Some_0)),
        None => None,
    }
}

/// The version carried by a tag name: the leftmost matched substring,
/// strictly parsed (`None` also when its numbers do not fit in `u64`).
pub open spec fn spec_extract_version(s: Seq<char>) -> Option<VersionView> {
    match spec_extract(s) {
        Some(m) => spec_parse(m),
        None => None,
    }
}

/// The length of the maximal identifier-character run starting at `i`.
fn ident_run_at(cs: &Vec<char>, i: usize) -> (r: usize)
    requires
        i <= cs@.len(),
    ensures
        r == ident_run(cs@, i as int),
        i + r <= cs@.len(),
{
    proof {
        lemma_ident_run(cs@, i as int);
    }
    let mut j: usize = i;
    while j < cs.len() && is_ident_char_exec(cs[j])
        invariant
            i <= j <= cs@.len(),
            ident_run(cs@, i as int) == (j - i) + ident_run(cs@, j as int),
        decreases cs@.len() - j,
    {
        j = j + 1;
    }
    j - i
}

/// One pre-release identifier at `j`, as matched by the search.
fn pre_ident_len_at(cs: &Vec<char>, j: usize) -> (r: usize)
    requires
        j <= cs@.len(),
    ensures
        r == pre_ident_len(cs@, j as int),
        j + r <= cs@.len(),
{
    if j >= cs.len() {
        return 0;
    }
    let c = cs[j];
    if c == '0' {
        return 1;
    }
    if is_digit_exec(c) {
        return digit_run_at(cs, j);
    }
    if is_alpha_exec(c) || c == '-' {
        return ident_run_at(cs, j);
    }
    0
}

/// The repeated `.identifier` tail beginning at `j`, under the
/// pre-release rule (`pre`) or the build rule.
fn chain_len_at(cs: &Vec<char>, j: usize, pre: bool) -> (r: usize)
    requires
        j <= cs@.len(),
    ensures
        pre ==> r == pre_chain_len(cs@, j as int),
        !pre ==> r == build_chain_len(cs@, j as int),
        j + r <= cs@.len(),
{
    let n = cs.len();
    let mut e: usize = j;
    loop
        invariant
            j <= e <= n == cs@.len(),
            pre ==> pre_chain_len(cs@, j as int) == (e - j) + pre_chain_len(cs@, e as int),
            !pre ==> build_chain_len(cs@, j as int) == (e - j) + build_chain_len(cs@, e as int),
        decreases n - e,
    {
        if e >= n || cs[e] != '.' {
            proof {
                if pre {
                    assert(pre_chain_len(cs@, e as int) == 0);
                } else {
                    assert(build_chain_len(cs@, e as int) == 0);
                }
            }
            return e - j;
        }
        let l = if pre {
            pre_ident_len_at(cs, e + 1)
        } else {
            ident_run_at(cs, e + 1)
        };
        if l == 0 {
            proof {
                if pre {
                    assert(pre_chain_len(cs@, e as int) == 0);
                } else {
                    assert(build_chain_len(cs@, e as int) == 0);
                }
            }
            return e - j;
        }
        proof {
            if pre {
                assert(pre_chain_len(cs@, e as int) == 1 + l + pre_chain_len(cs@, e + 1 + l));
            } else {
                assert(build_chain_len(cs@, e as int) == 1 + l + build_chain_len(cs@, e + 1 + l));
            }
        }
        e = e + 1 + l;
    }
}

/// The end of the version match starting exactly at `i`.
fn match_end_exec(cs: &Vec<char>, i: usize) -> (r: Option<usize>)
    requires
        i <= cs@.len(),
    ensures
        match r {
            Some(e) => match_end_at(cs@, i as int) == Some(e as int) && i <= e <= cs@.len(),
            None => match_end_at(cs@, i as int) is None,
        },
{
    let n = cs.len();
    if i >= n {
        return None;
    }
    let l1 = digit_run_at(cs, i);
    let m1: usize = if cs[i] == '0' {
        1
    } else {
        l1
    };
    if l1 == 0 || i + m1 >= n || cs[i + m1] != '.' {
        return None;
    }
    let j = i + m1 + 1;
    let l2 = digit_run_at(cs, j);
    if l2 == 0 {
        return None;
    }
    let m2: usize = if cs[j] == '0' {
        1
    } else {
        l2
    };
    if j + m2 >= n || cs[j + m2] != '.' {
        return None;
    }
    let k = j + m2 + 1;
    let l3 = digit_run_at(cs, k);
    if l3 == 0 {
        return None;
    }
    let m3: usize = if cs[k] == '0' {
        1
    } else {
        l3
    };
    let q = k + m3;
    let mut e: usize = q;
    if q < n && cs[q] == '-' {
        let l = pre_ident_len_at(cs, q + 1);
        if l > 0 {
            let tail = chain_len_at(cs, q + 1 + l, true);
            e = q + 1 + l + tail;
        }
    }
    if e < n && cs[e] == '+' {
        let l = ident_run_at(cs, e + 1);
        if l > 0 {
            let tail = chain_len_at(cs, e + 1 + l, false);
            e = e + 1 + l + tail;
        }
    }
    Some(e)
}

/// The span of the leftmost version match in `cs`.
fn extract_span(cs: &Vec<char>) -> (r: Option<(usize, usize)>)
    ensures
        match r {
            Some(p) => find_match_start(cs@, 0) == Some(p.0 as int) && match_end_at(cs@, p.0 as int)
                == Some(p.1 as int) && p.0 <= p.1 <= cs@.len(),
            None => find_match_start(cs@, 0) is None,
        },
{
    let n = cs.len();
    let mut i: usize = 0;
    while i < n
        invariant
            i <= n == cs@.len(),
            find_match_start(cs@, 0) == find_match_start(cs@, i as int),
        decreases n - i,
    {
        match match_end_exec(cs, i) {
            Some(e) => {
                return Some((i, e));
            },
            None => {
                i = i + 1;
            },
        }
    }
    None
}

/// The version embedded in a tag name, if the tag carries one whose
/// numbers fit in `u64`.
pub fn extract_version(tag: &str) -> (r: Option<Version>)
    ensures
        match r {
            Some(v) => spec_extract_version(tag@) == Some(v@) && v@.wf(),
            None => spec_extract_version(tag@) is None,
        },
{
    let cs = chars_vec(tag);
    match extract_span(&cs) {
        None => None,
        Some((a, b)) => {
            let sub = string_of(&subvec(&cs, a, b));
            Version::parse(sub.as_str())
        },
    }
}

} // verus!
