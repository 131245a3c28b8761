//! The bump engine: the pre-release auto-increment counter, the
//! detection of the pre-release identifier from existing text, branch
//! name normalization, and the computation of the next version from
//! the current one, a strategy and the merged settings.

use vstd::prelude::*;

use crate::cli::Strategy;
use crate::errors::EngineError;
use crate::settings::Settings;
use crate::template::lemma_inject_dev_build;
use crate::template::lemma_inject_dev_prerelease;
use crate::template::spec_inject;
use crate::template::strip_edge_dots;
use crate::template::TemplateContext;
use crate::template::TemplateVariables;
use crate::text::chars_vec;
use crate::text::dec_str;
use crate::text::digits_val;
use crate::text::is_digit;
use crate::text::lower_char;
use crate::text::parse_u64_digits;
use crate::text::string_of;
use crate::text::subvec;
use crate::text::window_eq;
use crate::version::find_dot;
use crate::version::first_dot;
use crate::version::is_alpha;
use crate::version::is_ident_char;
use crate::version::is_pre_ident;
use crate::version::is_build_ident;
use crate::version::lemma_first_dot;
use crate::version::split_dots;
use crate::version::is_digit_exec;
use crate::version::is_alpha_exec;
use crate::version::build_text_valid;
use crate::version::pre_text_valid;
use crate::version::valid_build_text;
use crate::version::valid_pre_text;
use crate::version::Version;
use crate::version::VersionView;

verus! {

/// The length of the run of ASCII digits at the very end of `s`.
pub open spec fn trailing_digit_run(s: Seq<char>) -> int
    decreases s.len(),
{
    if s.len() > 0 && is_digit(s.last()) {
        1 + trailing_digit_run(s.drop_last())
    } else {
        0
    }
}

pub proof fn lemma_trailing_digit_run(s: Seq<char>)
    ensures
        0 <= trailing_digit_run(s) <= s.len(),
        forall|j: int| s.len() - trailing_digit_run(s) <= j < s.len() ==> is_digit(#[trigger] s[j]),
        s.len() - trailing_digit_run(s) - 1 >= 0 ==> !is_digit(s[s.len() - trailing_digit_run(s)
            - 1]),
    decreases s.len(),
{
    if s.len() > 0 && is_digit(s.last()) {
        lemma_trailing_digit_run(s.drop_last());
        let p = s.drop_last();
        assert forall|j: int|
            s.len() - trailing_digit_run(s) <= j < s.len() implies is_digit(#[trigger] s[j]) by {
            if j < s.len() - 1 {
                assert(s[j] == p[j]);
            }
        }
        if s.len() - trailing_digit_run(s) - 1 >= 0 {
            assert(s[s.len() - trailing_digit_run(s) - 1] == p[p.len() - trailing_digit_run(p)
                - 1]);
        }
    }
}

/// The next auto-increment counter, from the current pre-release text
/// and the target identifier: `1` when the text is empty or does not
/// start with the identifier; when it does start with it, `2` unless
/// the text ends in a run of digits, in which case that number plus
/// one (a number too large to represent counts as decoration, like a
/// non-numeric suffix).
pub open spec fn spec_get_inc(pre: Seq<char>, ident: Seq<char>) -> int {
    if pre.len() == 0 {
        1
    } else if pre.len() >= ident.len() && pre.take(ident.len() as int) == ident {
        let suffix = pre.skip(ident.len() as int);
        if suffix.len() == 0 {
            2
        } else {
            let digs = trailing_digit_run(suffix);
            if digs == 0 {
                2
            } else {
                let v = digits_val(suffix.subrange(suffix.len() - digs, suffix.len() as int));
                if v < usize::MAX {
                    v + 1
                } else {
                    2
                }
            }
        }
    } else {
        1
    }
}

/// The next auto-increment counter for the pre-release track named by
/// `identifier`, derived from the existing pre-release text.
pub fn get_inc(pre: &str, identifier: &str) -> (r: usize)
    ensures
        r == spec_get_inc(pre@, identifier@),
{
    let pcs = chars_vec(pre);
    let ics = chars_vec(identifier);
    if pcs.len() == 0 {
        return 1;
    }
    if pcs.len() < ics.len() {
        return 1;
    }
    let starts = window_eq(&pcs, 0, &ics);
    proof {
        assert(pcs@.take(ics@.len() as int) =~= pcs@.subrange(0, ics@.len() as int));
    }
    if !starts {
        return 1;
    }
    let from = ics.len();
    let to = pcs.len();
    let ghost suffix = pcs@.skip(from as int);
    proof {
        assert(suffix =~= pcs@.subrange(from as int, to as int));
        lemma_trailing_digit_run(suffix);
    }
    if from == to {
        return 2;
    }
    let mut e: usize = to;
    while e > from && is_digit_exec(pcs[e - 1])
        invariant
            from <= e <= to <= pcs@.len(),
            suffix == pcs@.skip(from as int),
            suffix == pcs@.subrange(from as int, to as int),
            trailing_digit_run(suffix) == (to - e) + trailing_digit_run(
                pcs@.subrange(from as int, e as int),
            ),
            forall|j: int| e <= j < to ==> is_digit(#[trigger] pcs@[j]),
        decreases e,
    {
        proof {
            let cur = pcs@.subrange(from as int, e as int);
            assert(cur.last() == pcs@[e - 1]);
            assert(cur.drop_last() =~= pcs@.subrange(from as int, e - 1));
        }
        e = e - 1;
    }
    proof {
        let cur = pcs@.subrange(from as int, e as int);
        if e > from {
            assert(cur.last() == pcs@[e - 1]);
        }
        assert(trailing_digit_run(cur) == 0);
    }
    if e == to {
        return 2;
    }
    proof {
        assert(crate::text::all_digits(pcs@.subrange(e as int, to as int))) by {
            assert forall|t: int|
                0 <= t < pcs@.subrange(e as int, to as int).len() implies is_digit(
                #[trigger] pcs@.subrange(e as int, to as int)[t],
            ) by {
                assert(pcs@.subrange(e as int, to as int)[t] == pcs@[e + t]);
            }
        }
        assert(suffix.subrange(
            suffix.len() - trailing_digit_run(suffix),
            suffix.len() as int,
        ) =~= pcs@.subrange(e as int, to as int));
    }
    match parse_u64_digits(&pcs, e, to) {
        Some(v) => {
            if v < usize::MAX as u64 {
                (v + 1) as usize
            } else {
                2
            }
        },
        None => 2,
    }
}

/// The identifier embedded in existing pre-release text: the first
/// dot-separated segment, with any trailing digits removed.  Empty
/// when the text is empty or the segment is all digits.
pub open spec fn spec_detect_identifier(pre: Seq<char>) -> Seq<char> {
    let seg = pre.take(first_dot(pre));
    seg.take(seg.len() - trailing_digit_run(seg))
}

/// Detects the pre-release identifier from existing pre-release text.
pub fn detect_identifier(pre: &str) -> (r: String)
    ensures
        r@ == spec_detect_identifier(pre@),
{
    let cs = chars_vec(pre);
    let d = find_dot(&cs, 0, cs.len());
    let ghost seg = pre@.take(first_dot(pre@));
    proof {
        assert(cs@.subrange(0, cs@.len() as int) =~= cs@);
        assert(seg =~= cs@.subrange(0, d as int));
        lemma_trailing_digit_run(seg);
    }
    let mut e: usize = d;
    while e > 0 && is_digit_exec(cs[e - 1])
        invariant
            e <= d <= cs@.len(),
            seg == cs@.subrange(0, d as int),
            trailing_digit_run(seg) == (d - e) + trailing_digit_run(cs@.subrange(0, e as int)),
        decreases e,
    {
        proof {
            let cur = cs@.subrange(0, e as int);
            assert(cur.last() == cs@[e - 1]);
            assert(cur.drop_last() =~= cs@.subrange(0, e - 1));
        }
        e = e - 1;
    }
    proof {
        let cur = cs@.subrange(0, e as int);
        if e > 0 {
            assert(cur.last() == cs@[e - 1]);
        }
        assert(trailing_digit_run(cur) == 0);
        assert(seg.take(seg.len() - trailing_digit_run(seg)) =~= cs@.subrange(0, e as int));
    }
    string_of(&subvec(&cs, 0, e))
}

/// Whether `c` is an ASCII letter or digit.
pub open spec fn is_alnum(c: char) -> bool {
    is_digit(c) || is_alpha(c)
}

/// The branch name folded into pre-release shape, before trimming:
/// letters and digits pass through lowercased; every other character
/// becomes a hyphen, with runs collapsed to one.
pub open spec fn collapse_from(s: Seq<char>, i: int, last_hyphen: bool) -> Seq<char>
    decreases s.len() - i,
{
    if i < 0 || i >= s.len() {
        Seq::empty()
    } else if is_alnum(s[i]) {
        seq![lower_char(s[i])] + collapse_from(s, i + 1, false)
    } else if last_hyphen {
        collapse_from(s, i + 1, true)
    } else {
        seq!['-'] + collapse_from(s, i + 1, true)
    }
}

/// All leading hyphens removed.
pub open spec fn strip_lead_hyphens(s: Seq<char>) -> Seq<char>
    decreases s.len(),
{
    if s.len() > 0 && s[0] == '-' {
        strip_lead_hyphens(s.drop_first())
    } else {
        s
    }
}

/// All trailing hyphens removed.
pub open spec fn strip_trail_hyphens(s: Seq<char>) -> Seq<char>
    decreases s.len(),
{
    if s.len() > 0 && s.last() == '-' {
        strip_trail_hyphens(s.drop_last())
    } else {
        s
    }
}

/// A branch name as a usable pre-release identifier: lowercased
/// alphanumerics with every other run of characters collapsed to one
/// hyphen, and no hyphen at either end.
pub open spec fn spec_normalize_branch(s: Seq<char>) -> Seq<char> {
    strip_trail_hyphens(strip_lead_hyphens(collapse_from(s, 0, false)))
}

/// Normalizes a branch name into pre-release shape.
#[verifier::rlimit(40)]
pub fn normalize_branch_name_for_semver(branch_name: &str) -> (r: String)
    ensures
        r@ == spec_normalize_branch(branch_name@),
{
    let cs = chars_vec(branch_name);
    let mut out: Vec<char> = Vec::new();
    let mut last_hyphen = false;
    let mut i: usize = 0;
    proof {
        assert(out@ + collapse_from(cs@, 0, false) =~= collapse_from(cs@, 0, false));
    }
    while i < cs.len()
        invariant
            i <= cs@.len(),
            cs@ == branch_name@,
            collapse_from(cs@, 0, false) == out@ + collapse_from(cs@, i as int, last_hyphen),
        decreases cs@.len() - i,
    {
        let c = cs[i];
        let ghost out0 = out@;
        let ghost tail = collapse_from(cs@, i as int, last_hyphen);
        if is_digit_exec(c) || is_alpha_exec(c) {
            let l: char = if 'A' <= c && c <= 'Z' {
                ((c as u8) + 32) as char
            } else {
                c
            };
            out.push(l);
            proof {
                assert(tail == seq![lower_char(c)] + collapse_from(cs@, i + 1, false));
                assert(out0 + tail =~= out@ + collapse_from(cs@, i + 1, false));
            }
            last_hyphen = false;
        } else if !last_hyphen {
            out.push('-');
            proof {
                assert(tail == seq!['-'] + collapse_from(cs@, i + 1, true));
                assert(out0 + tail =~= out@ + collapse_from(cs@, i + 1, true));
            }
            last_hyphen = true;
        } else {
            proof {
                assert(tail == collapse_from(cs@, i + 1, true));
            }
        }
        i = i + 1;
    }
    proof {
        assert(collapse_from(cs@, cs@.len() as int, last_hyphen) == Seq::<char>::empty());
        assert(out@ + Seq::<char>::empty() =~= out@);
    }
    let n = out.len();
    proof {
        assert(out@.subrange(0, n as int) =~= out@);
    }
    let mut a: usize = 0;
    while a < n && out[a] == '-'
        invariant
            a <= n == out@.len(),
            strip_lead_hyphens(out@) == strip_lead_hyphens(out@.subrange(a as int, n as int)),
        decreases n - a,
    {
        proof {
            let cur = out@.subrange(a as int, n as int);
            assert(cur[0] == out@[a as int]);
            assert(cur.drop_first() =~= out@.subrange(a + 1, n as int));
        }
        a = a + 1;
    }
    proof {
        let cur = out@.subrange(a as int, n as int);
        if a < n {
            assert(cur[0] == out@[a as int]);
        }
        assert(strip_lead_hyphens(cur) == cur);
        assert(out@.subrange(0, n as int) =~= out@);
    }
    let mut b: usize = n;
    while b > a && out[b - 1] == '-'
        invariant
            a <= b <= n == out@.len(),
            strip_trail_hyphens(out@.subrange(a as int, n as int)) == strip_trail_hyphens(
                out@.subrange(a as int, b as int),
            ),
        decreases b,
    {
        proof {
            let cur = out@.subrange(a as int, b as int);
            assert(cur.last() == out@[b - 1]);
            assert(cur.drop_last() =~= out@.subrange(a as int, b - 1));
        }
        b = b - 1;
    }
    proof {
        let cur = out@.subrange(a as int, b as int);
        if b > a {
            assert(cur.last() == out@[b - 1]);
        }
        assert(strip_trail_hyphens(cur) == cur);
    }
    string_of(&subvec(&out, a, b))
}

/// The default pre-release identifier when none is configured and
/// none can be detected.
pub open spec fn default_identifier() -> Seq<char> {
    "build"@
}

/// The identifier the engine uses: the configured one, else the one
/// detected from the current pre-release text, else `build`.
pub open spec fn spec_ident_used(settings: &Settings, cur_pre: Seq<char>) -> Seq<char> {
    match settings.prerelease.identifier {
        Some(id) => id@,
        None => {
            let d = spec_detect_identifier(cur_pre);
            if d.len() == 0 {
                default_identifier()
            } else {
                d
            }
        },
    }
}

/// The template context of one invocation.
pub open spec fn spec_context(
    settings: &Settings,
    cur: VersionView,
    distance: int,
    hash: Seq<char>,
    branch: Seq<char>,
    timestamp: Seq<char>,
) -> TemplateContext {
    let ident = spec_ident_used(settings, cur.pre);
    TemplateContext {
        pre: cur.pre,
        inc: spec_get_inc(cur.pre, ident),
        identifier: ident,
        hash: hash,
        distance: distance,
        timestamp: timestamp,
        branch: spec_normalize_branch(branch),
    }
}

/// The numeric triple after the bump: major bumps reset minor and
/// patch, minor bumps reset patch, and a plain patch bump applies
/// only when the current version carries no pre-release — on a
/// pre-release version it promotes the triple unchanged.
pub open spec fn spec_bumped_triple(strategy: &Strategy, cur: VersionView, inc: int) -> (
    int,
    int,
    int,
) {
    if strategy.is_major_family() {
        (cur.major + inc, 0, 0)
    } else if strategy.is_minor_family() {
        (cur.major, cur.minor + inc, 0)
    } else if strategy is PrePatch {
        (cur.major, cur.minor, cur.patch + inc)
    } else if strategy is Patch {
        if cur.pre.len() == 0 {
            (cur.major, cur.minor, cur.patch + inc)
        } else {
            (cur.major, cur.minor, cur.patch)
        }
    } else {
        (cur.major, cur.minor, cur.patch)
    }
}

/// The next version in full: the bumped triple, the injected
/// pre-release text (empty unless the strategy attaches one) and the
/// injected build text; or the fatal error when a template yields
/// grammatically invalid text.
pub open spec fn spec_next_version(
    strategy: &Strategy,
    settings: &Settings,
    cur: VersionView,
    distance: int,
    hash: Seq<char>,
    branch: Seq<char>,
    timestamp: Seq<char>,
) -> Result<VersionView, EngineError> {
    let ctx = spec_context(settings, cur, distance, hash, branch, timestamp);
    let pre_text = if strategy.is_pre_family() {
        spec_inject(settings.prerelease.template@, ctx)
    } else {
        Seq::<char>::empty()
    };
    let build_text = spec_inject(settings.build.template@, ctx);
    if !valid_pre_text(pre_text) {
        Err(EngineError::InvalidPrerelease)
    } else if !valid_build_text(build_text) {
        Err(EngineError::InvalidBuildMetadata)
    } else {
        let triple = spec_bumped_triple(strategy, cur, settings.bump.increment as int);
        Ok(
            VersionView {
                major: triple.0,
                minor: triple.1,
                patch: triple.2,
                pre: pre_text,
                build: build_text,
            },
        )
    }
}

/// The standard bumps in general: whenever a strategy that attaches
/// no pre-release succeeds, the result carries no pre-release text,
/// and its numeric triple follows the bump table — a major bump adds
/// the increment and resets minor and patch, a minor bump adds the
/// increment and resets patch, and a plain patch bump adds the
/// increment only when the current version has no pre-release,
/// otherwise it promotes the triple unchanged.
pub proof fn lemma_standard_bump(
    strategy: &Strategy,
    settings: &Settings,
    cur: VersionView,
    distance: int,
    hash: Seq<char>,
    branch: Seq<char>,
    timestamp: Seq<char>,
)
    requires
        !strategy.is_pre_family(),
        spec_next_version(strategy, settings, cur, distance, hash, branch, timestamp) is Ok,
    ensures
        ({
            let v = spec_next_version(
                strategy,
                settings,
                cur,
                distance,
                hash,
                branch,
                timestamp,
            )->Ok_0;
            let inc = settings.bump.increment as int;
            &&& v.pre.len() == 0
            &&& strategy.is_major_family() ==> v.major == cur.major + inc && v.minor == 0
                && v.patch == 0
            &&& strategy.is_minor_family() ==> v.major == cur.major && v.minor == cur.minor + inc
                && v.patch == 0
            &&& strategy is Patch && cur.pre.len() == 0 ==> v.major == cur.major && v.minor
                == cur.minor && v.patch == cur.patch + inc
            &&& strategy is Patch && cur.pre.len() > 0 ==> v.major == cur.major && v.minor
                == cur.minor && v.patch == cur.patch
        }),
{
}

/// Single-segment text (no dots, all identifier characters) splits
/// into itself alone.
proof fn lemma_split_single_segment(s: Seq<char>)
    requires
        forall|i: int| 0 <= i < s.len() ==> is_ident_char(#[trigger] s[i]),
    ensures
        split_dots(s) == seq![s],
{
    lemma_first_dot(s);
    let fd = first_dot(s);
    if fd < s.len() {
        assert(s[fd] == '.');
        assert(is_ident_char(s[fd]));
        assert(false);
    }
    assert(split_dots(s) =~= seq![s]);
}

/// The end-to-end development version in general: with the
/// development defaults — identifier `dev`, pre-release template
/// `{pre}.{identifier}.{distance}`, build template `{hash}` — a dev
/// bump of a current version that carries no pre-release succeeds and
/// yields the unchanged numeric triple, pre-release text `dev.`
/// followed by the decimal commit distance, and the short hash as
/// build text, for every distance and every non-empty hash of ASCII
/// letters and digits.
pub proof fn lemma_dev_default_next(
    strategy: &Strategy,
    settings: &Settings,
    cur: VersionView,
    distance: int,
    hash: Seq<char>,
    branch: Seq<char>,
    timestamp: Seq<char>,
)
    requires
        strategy is Dev,
        settings.prerelease.identifier is Some,
        settings.prerelease.identifier->0@ == seq!['d', 'e', 'v'],
        settings.prerelease.template@ == "{pre}.{identifier}.{distance}"@,
        settings.build.template@ == "{hash}"@,
        cur.pre.len() == 0,
        distance >= 0,
        hash.len() > 0,
        forall|i: int| 0 <= i < hash.len() ==> is_ident_char(#[trigger] hash[i]),
    ensures
        spec_next_version(strategy, settings, cur, distance, hash, branch, timestamp) == Ok::<
            VersionView,
            EngineError,
        >(
            VersionView {
                major: cur.major,
                minor: cur.minor,
                patch: cur.patch,
                pre: seq!['d', 'e', 'v', '.'] + dec_str(distance),
                build: hash,
            },
        ),
{
    let ctx = spec_context(settings, cur, distance, hash, branch, timestamp);
    assert(ctx.identifier == seq!['d', 'e', 'v']);
    lemma_inject_dev_prerelease(ctx);
    let pre_text = seq!['d', 'e', 'v', '.'] + dec_str(distance);
    assert(spec_inject(settings.prerelease.template@, ctx) == pre_text);
    assert forall|i: int| 0 <= i < ctx.hash.len() implies #[trigger] ctx.hash[i] != '{' by {
        assert(is_ident_char(hash[i]));
    }
    lemma_inject_dev_build(ctx);
    assert(strip_edge_dots(hash) == hash) by {
        assert(is_ident_char(hash[0]));
        assert(hash[0] != '.');
        assert(is_ident_char(hash[hash.len() - 1]));
        assert(hash.last() != '.');
    }
    assert(spec_inject(settings.build.template@, ctx) == hash);
    crate::text::lemma_dec_str_canonical(distance);
    let dec = dec_str(distance);
    assert(valid_pre_text(pre_text)) by {
        lemma_first_dot(pre_text);
        let fd = first_dot(pre_text);
        assert(pre_text[3] == '.');
        assert(fd == 3) by {
            if fd < 3 {
                assert(pre_text[fd] == '.');
            }
            if fd > 3 {
                assert(pre_text[3] != '.');
            }
        }
        let tail = pre_text.skip(4);
        assert(tail =~= dec);
        assert(forall|i: int| 0 <= i < dec.len() ==> is_ident_char(#[trigger] dec[i]));
        lemma_split_single_segment(dec);
        let segs = split_dots(pre_text);
        assert(segs =~= seq![pre_text.take(3)] + seq![dec]);
        assert(pre_text.take(3) =~= seq!['d', 'e', 'v']);
        assert(is_pre_ident(seq!['d', 'e', 'v'])) by {
            let dv = seq!['d', 'e', 'v'];
            assert(forall|i: int| 0 <= i < 3 ==> is_ident_char(#[trigger] dv[i]));
            assert(!crate::text::is_digit(dv[0]));
        }
        assert(is_pre_ident(dec));
        assert forall|i: int| 0 <= i < segs.len() implies is_pre_ident(#[trigger] segs[i]) by {
            if i == 0 {
                assert(segs[0] == pre_text.take(3));
            } else {
                assert(segs[1] == dec);
            }
        }
    }
    assert(valid_build_text(hash)) by {
        lemma_split_single_segment(hash);
        assert(split_dots(hash)[0] == hash);
        assert(is_build_ident(hash));
    }
    assert(!strategy.is_major_family() && !strategy.is_minor_family());
}

/// The next version, computed from the current one, the strategy, the
/// merged settings, and the repository facts: the commit distance,
/// the short commit hash, the branch name and a rendered timestamp.
pub fn next_version(
    strategy: &Strategy,
    settings: &Settings,
    current: &Version,
    distance: usize,
    short_hash: &str,
    branch: &str,
    timestamp: &str,
) -> (r: Result<Version, EngineError>)
    requires
        settings.bump.increment >= 1,
        strategy.is_major_family() ==> current.major + settings.bump.increment <= u64::MAX,
        strategy.is_minor_family() ==> current.minor + settings.bump.increment <= u64::MAX,
        strategy is PrePatch ==> current.patch + settings.bump.increment <= u64::MAX,
        strategy is Patch && current.pre@.len() == 0 ==> current.patch + settings.bump.increment
            <= u64::MAX,
    ensures
        ({
            let spec_r = spec_next_version(
                strategy,
                settings,
                current@,
                distance as int,
                short_hash@,
                branch@,
                timestamp@,
            );
            match r {
                Ok(v) => spec_r == Ok::<VersionView, EngineError>(v@) && v@.wf(),
                Err(e) => spec_r == Err::<VersionView, EngineError>(e),
            }
        }),
{
    let ident: String = match &settings.prerelease.identifier {
        Some(id) => id.clone(),
        None => {
            let d = detect_identifier(current.pre.as_str());
            if d.as_str().unicode_len() == 0 {
                String::from_str("build")
            } else {
                d
            }
        },
    };
    let inc_count = get_inc(current.pre.as_str(), ident.as_str());
    let vars = TemplateVariables {
        pre: current.pre.clone(),
        inc: inc_count,
        identifier: ident,
        hash: short_hash.to_owned(),
        distance,
        timestamp: timestamp.to_owned(),
        branch: normalize_branch_name_for_semver(branch),
    };
    proof {
        assert(vars@ == spec_context(
            settings,
            current@,
            distance as int,
            short_hash@,
            branch@,
            timestamp@,
        ));
    }
    let pre_text: String = if strategy.pre_family() {
        vars.inject(settings.prerelease.template.as_str())
    } else {
        String::new()
    };
    let build_text = vars.inject(settings.build.template.as_str());
    if !pre_text_valid(pre_text.as_str()) {
        return Err(EngineError::InvalidPrerelease);
    }
    if !build_text_valid(build_text.as_str()) {
        return Err(EngineError::InvalidBuildMetadata);
    }
    let mut major = current.major;
    let mut minor = current.minor;
    let mut patch = current.patch;
    if strategy.major_family() {
        major = major + settings.bump.increment;
        minor = 0;
        patch = 0;
    } else if strategy.minor_family() {
        minor = minor + settings.bump.increment;
        patch = 0;
    } else if strategy.patch_pre() {
        patch = patch + settings.bump.increment;
    } else if strategy.patch_plain() {
        if current.pre.as_str().unicode_len() == 0 {
            patch = patch + settings.bump.increment;
        }
    }
    let v = Version { major, minor, patch, pre: pre_text, build: build_text };
    proof {
        assert(valid_pre_text(Seq::<char>::empty()));
    }
    Ok(v)
}

} // verus!
