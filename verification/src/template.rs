//! The template engine: substitutes the recognized placeholder tokens
//! `{pre}`, `{inc}`, `{identifier}`, `{hash}`, `{distance}`,
//! `{timestamp}` and `{branch}` into a user-supplied template string.
//! After all substitutions, at most one leading and at most one
//! trailing `.` is stripped from the result, so a template like
//! `{pre}.{identifier}.{distance}` degrades gracefully when `{pre}`
//! is empty; anything beyond that single stray separator is left for
//! validation to reject, never silently corrected.

use vstd::prelude::*;

use crate::text::chars_vec;
use crate::text::dec_chars;
use crate::text::dec_str;
use crate::text::push_range;
use crate::text::string_of;
use crate::text::subvec;
use crate::text::window_eq;

verus! {

/// Replaces every occurrence of `pat` in `s` by `val`, scanning left
/// to right without rescanning replaced text — the behaviour of
/// `str::replace`.
pub open spec fn replace_all(s: Seq<char>, pat: Seq<char>, val: Seq<char>) -> Seq<char>
    decreases s.len(),
{
    if pat.len() == 0 || s.len() == 0 {
        s
    } else if s.len() >= pat.len() && s.take(pat.len() as int) == pat {
        val + replace_all(s.skip(pat.len() as int), pat, val)
    } else {
        seq![s[0]] + replace_all(s.drop_first(), pat, val)
    }
}

/// At most one leading `.` removed.
pub open spec fn strip_leading_dot(s: Seq<char>) -> Seq<char> {
    if s.len() > 0 && s[0] == '.' {
        s.drop_first()
    } else {
        s
    }
}

/// At most one trailing `.` removed.
pub open spec fn strip_trailing_dot(s: Seq<char>) -> Seq<char> {
    if s.len() > 0 && s.last() == '.' {
        s.drop_last()
    } else {
        s
    }
}

/// At most one stray dot removed from each end.
pub open spec fn strip_edge_dots(s: Seq<char>) -> Seq<char> {
    strip_trailing_dot(strip_leading_dot(s))
}

pub open spec fn pat_pre() -> Seq<char> {
    seq!['{', 'p', 'r', 'e', '}']
}

pub open spec fn pat_inc() -> Seq<char> {
    seq!['{', 'i', 'n', 'c', '}']
}

pub open spec fn pat_identifier() -> Seq<char> {
    seq!['{', 'i', 'd', 'e', 'n', 't', 'i', 'f', 'i', 'e', 'r', '}']
}

pub open spec fn pat_hash() -> Seq<char> {
    seq!['{', 'h', 'a', 's', 'h', '}']
}

pub open spec fn pat_distance() -> Seq<char> {
    seq!['{', 'd', 'i', 's', 't', 'a', 'n', 'c', 'e', '}']
}

pub open spec fn pat_timestamp() -> Seq<char> {
    seq!['{', 't', 'i', 'm', 'e', 's', 't', 'a', 'm', 'p', '}']
}

pub open spec fn pat_branch() -> Seq<char> {
    seq!['{', 'b', 'r', 'a', 'n', 'c', 'h', '}']
}

/// The mathematical image of the template variables.
pub ghost struct TemplateContext {
    pub pre: Seq<char>,
    pub inc: int,
    pub identifier: Seq<char>,
    pub hash: Seq<char>,
    pub distance: int,
    pub timestamp: Seq<char>,
    pub branch: Seq<char>,
}

/// The values substituted into a template: the current pre-release
/// text, the next auto-increment counter, the pre-release identifier,
/// the short commit hash, the commit distance, a rendered UTC
/// timestamp and the normalized branch name.
pub struct TemplateVariables {
    pub pre: String,
    pub inc: usize,
    pub identifier: String,
    pub hash: String,
    pub distance: usize,
    pub timestamp: String,
    pub branch: String,
}

impl View for TemplateVariables {
    type V = TemplateContext;

    open spec fn view(&self) -> TemplateContext {
        TemplateContext {
            pre: self.pre@,
            inc: self.inc as int,
            identifier: self.identifier@,
            hash: self.hash@,
            distance: self.distance as int,
            timestamp: self.timestamp@,
            branch: self.branch@,
        }
    }
}

/// The full substitution: each token replaced in the fixed order
/// `{pre}`, `{inc}`, `{identifier}`, `{hash}`, `{distance}`,
/// `{timestamp}`, `{branch}`, then at most one leading and one
/// trailing dot stripped from the result.
pub open spec fn spec_inject(t: Seq<char>, ctx: TemplateContext) -> Seq<char> {
    let s1 = replace_all(t, pat_pre(), ctx.pre);
    let s2 = replace_all(s1, pat_inc(), dec_str(ctx.inc));
    let s3 = replace_all(s2, pat_identifier(), ctx.identifier);
    let s4 = replace_all(s3, pat_hash(), ctx.hash);
    let s5 = replace_all(s4, pat_distance(), dec_str(ctx.distance));
    let s6 = replace_all(s5, pat_timestamp(), ctx.timestamp);
    strip_edge_dots(replace_all(s6, pat_branch(), ctx.branch))
}

/// Text without an occurrence of the token is left unchanged.
pub proof fn lemma_replace_all_absent(s: Seq<char>, pat: Seq<char>, val: Seq<char>)
    requires
        pat.len() > 0,
        forall|i: int|
            0 <= i && i + pat.len() <= s.len() ==> #[trigger] s.subrange(i, i + pat.len()) != pat,
    ensures
        replace_all(s, pat, val) == s,
    decreases s.len(),
{
    if s.len() > 0 {
        if s.len() >= pat.len() {
            let zero: int = 0;
            assert(s.subrange(zero, zero + pat.len()) != pat);
            assert(s.take(pat.len() as int) =~= s.subrange(zero, zero + pat.len()));
        }
        assert forall|i: int|
            0 <= i && i + pat.len() <= s.drop_first().len() implies #[trigger] s.drop_first()
            .subrange(i, i + pat.len()) != pat by {
            assert(s.drop_first().subrange(i, i + pat.len()) =~= s.subrange(
                i + 1,
                (i + 1) + pat.len(),
            ));
        }
        lemma_replace_all_absent(s.drop_first(), pat, val);
        assert(seq![s[0]] + s.drop_first() =~= s);
    }
}

/// Replacement around the first occurrence of the token: the text
/// before it is kept, the token becomes the value, and replacement
/// goes on after it without rescanning.
pub proof fn lemma_replace_all_first(s: Seq<char>, pat: Seq<char>, val: Seq<char>, k: int)
    requires
        pat.len() > 0,
        0 <= k,
        k + pat.len() <= s.len(),
        s.subrange(k, k + pat.len()) == pat,
        forall|i: int| 0 <= i < k ==> #[trigger] s.subrange(i, i + pat.len()) != pat,
    ensures
        replace_all(s, pat, val) == s.take(k) + val + replace_all(s.skip(k + pat.len()), pat, val),
    decreases k,
{
    if k == 0 {
        assert(s.take(pat.len() as int) =~= s.subrange(k, k + pat.len()));
        assert(s.skip(pat.len() as int) =~= s.skip(k + pat.len()));
        assert(s.take(0) + val + replace_all(s.skip(k + pat.len()), pat, val) =~= val
            + replace_all(s.skip(k + pat.len()), pat, val));
    } else {
        let zero: int = 0;
        assert(s.subrange(zero, zero + pat.len()) != pat);
        assert(s.take(pat.len() as int) =~= s.subrange(zero, zero + pat.len()));
        let d = s.drop_first();
        assert(d.subrange(k - 1, k - 1 + pat.len()) =~= s.subrange(k, k + pat.len()));
        assert forall|i: int| 0 <= i < k - 1 implies #[trigger] d.subrange(i, i + pat.len())
            != pat by {
            assert(d.subrange(i, i + pat.len()) =~= s.subrange(i + 1, i + 1 + pat.len()));
        }
        lemma_replace_all_first(d, pat, val, k - 1);
        assert(d.skip(k - 1 + pat.len()) =~= s.skip(k + pat.len()));
        assert(seq![s[0]] + (d.take(k - 1) + val + replace_all(s.skip(k + pat.len()), pat, val))
            =~= s.take(k) + val + replace_all(s.skip(k + pat.len()), pat, val));
    }
}

/// The development pre-release template evaluated in general: with an
/// empty current pre-release and the identifier `dev`, the template
/// `{pre}.{identifier}.{distance}` yields exactly `dev.` followed by
/// the decimal distance, whatever the distance is.
#[verifier::rlimit(80)]
pub proof fn lemma_inject_dev_prerelease(ctx: TemplateContext)
    requires
        ctx.pre.len() == 0,
        ctx.identifier == seq!['d', 'e', 'v'],
        ctx.distance >= 0,
    ensures
        spec_inject("{pre}.{identifier}.{distance}"@, ctx) == seq!['d', 'e', 'v', '.'] + dec_str(
            ctx.distance,
        ),
{
    reveal_strlit("{pre}.{identifier}.{distance}");
    let t = "{pre}.{identifier}.{distance}"@;
    let t0 = seq![
        '{',
        'p',
        'r',
        'e',
        '}',
        '.',
        '{',
        'i',
        'd',
        'e',
        'n',
        't',
        'i',
        'f',
        'i',
        'e',
        'r',
        '}',
        '.',
        '{',
        'd',
        'i',
        's',
        't',
        'a',
        'n',
        'c',
        'e',
        '}',
    ];
    assert(t =~= t0);
    let rest1 = seq![
        '.',
        '{',
        'i',
        'd',
        'e',
        'n',
        't',
        'i',
        'f',
        'i',
        'e',
        'r',
        '}',
        '.',
        '{',
        'd',
        'i',
        's',
        't',
        'a',
        'n',
        'c',
        'e',
        '}',
    ];
    let zero: int = 0;
    assert(t0.subrange(zero, zero + pat_pre().len()) =~= pat_pre());
    lemma_replace_all_first(t0, pat_pre(), ctx.pre, 0);
    assert(t0.skip(zero + pat_pre().len()) =~= rest1);
    assert forall|i: int|
        0 <= i && i + pat_pre().len() <= rest1.len() implies #[trigger] rest1.subrange(
        i,
        i + pat_pre().len(),
    ) != pat_pre() by {
        if i == 1 {
            assert(rest1.subrange(i, i + pat_pre().len())[2] == rest1[3]);
        } else if i == 14 {
            assert(rest1.subrange(i, i + pat_pre().len())[1] == rest1[15]);
        } else {
            assert(rest1.subrange(i, i + pat_pre().len())[0] == rest1[i]);
        }
    }
    lemma_replace_all_absent(rest1, pat_pre(), ctx.pre);
    assert(ctx.pre =~= Seq::<char>::empty());
    let s1 = replace_all(t, pat_pre(), ctx.pre);
    assert(s1 =~= rest1) by {
        assert(t0.take(0) + ctx.pre + rest1 =~= rest1);
    }
    assert forall|i: int|
        0 <= i && i + pat_inc().len() <= rest1.len() implies #[trigger] rest1.subrange(
        i,
        i + pat_inc().len(),
    ) != pat_inc() by {
        if i == 1 {
            assert(rest1.subrange(i, i + pat_inc().len())[2] == rest1[3]);
        } else if i == 14 {
            assert(rest1.subrange(i, i + pat_inc().len())[1] == rest1[15]);
        } else {
            assert(rest1.subrange(i, i + pat_inc().len())[0] == rest1[i]);
        }
    }
    lemma_replace_all_absent(rest1, pat_inc(), dec_str(ctx.inc));
    let one: int = 1;
    assert(rest1.subrange(one, one + pat_identifier().len()) =~= pat_identifier());
    assert forall|i: int| 0 <= i < 1 implies #[trigger] rest1.subrange(
        i,
        i + pat_identifier().len(),
    ) != pat_identifier() by {
        assert(rest1.subrange(i, i + pat_identifier().len())[0] == rest1[i]);
    }
    lemma_replace_all_first(rest1, pat_identifier(), ctx.identifier, 1);
    let rest2 = rest1.skip(one + pat_identifier().len());
    assert(rest2 =~= seq!['.', '{', 'd', 'i', 's', 't', 'a', 'n', 'c', 'e', '}']);
    lemma_replace_all_absent(rest2, pat_identifier(), ctx.identifier);
    let s3 = seq!['.', 'd', 'e', 'v', '.', '{', 'd', 'i', 's', 't', 'a', 'n', 'c', 'e', '}'];
    assert(replace_all(rest1, pat_identifier(), ctx.identifier) =~= s3) by {
        assert(rest1.take(1) + ctx.identifier + rest2 =~= s3);
    }
    assert forall|i: int|
        0 <= i && i + pat_hash().len() <= s3.len() implies #[trigger] s3.subrange(
        i,
        i + pat_hash().len(),
    ) != pat_hash() by {
        if i == 5 {
            assert(s3.subrange(i, i + pat_hash().len())[1] == s3[6]);
        } else {
            assert(s3.subrange(i, i + pat_hash().len())[0] == s3[i]);
        }
    }
    lemma_replace_all_absent(s3, pat_hash(), ctx.hash);
    let five: int = 5;
    assert(s3.subrange(five, five + pat_distance().len()) =~= pat_distance());
    assert forall|i: int| 0 <= i < 5 implies #[trigger] s3.subrange(i, i + pat_distance().len())
        != pat_distance() by {
        assert(s3.subrange(i, i + pat_distance().len())[0] == s3[i]);
    }
    lemma_replace_all_first(s3, pat_distance(), dec_str(ctx.distance), 5);
    assert(s3.skip(five + pat_distance().len()) =~= Seq::<char>::empty());
    assert(replace_all(Seq::<char>::empty(), pat_distance(), dec_str(ctx.distance))
        == Seq::<char>::empty());
    let dec = dec_str(ctx.distance);
    crate::text::lemma_dec_str_canonical(ctx.distance);
    let s5 = seq!['.', 'd', 'e', 'v', '.'] + dec;
    assert(replace_all(s3, pat_distance(), dec) =~= s5) by {
        assert(s3.take(5) =~= seq!['.', 'd', 'e', 'v', '.']);
        assert(s3.take(5) + dec + Seq::<char>::empty() =~= s5);
    }
    assert forall|i: int| 0 <= i < s5.len() implies #[trigger] s5[i] != '{' by {
        if i >= 5 {
            assert(s5[i] == dec[i - 5]);
            assert(crate::text::is_digit(dec[i - 5]));
        }
    }
    assert forall|i: int|
        0 <= i && i + pat_timestamp().len() <= s5.len() implies #[trigger] s5.subrange(
        i,
        i + pat_timestamp().len(),
    ) != pat_timestamp() by {
        assert(s5.subrange(i, i + pat_timestamp().len())[0] == s5[i]);
    }
    lemma_replace_all_absent(s5, pat_timestamp(), ctx.timestamp);
    assert forall|i: int|
        0 <= i && i + pat_branch().len() <= s5.len() implies #[trigger] s5.subrange(
        i,
        i + pat_branch().len(),
    ) != pat_branch() by {
        assert(s5.subrange(i, i + pat_branch().len())[0] == s5[i]);
    }
    lemma_replace_all_absent(s5, pat_branch(), ctx.branch);
    assert(strip_edge_dots(s5) =~= seq!['d', 'e', 'v', '.'] + dec) by {
        assert(s5[0] == '.');
        assert(strip_leading_dot(s5) =~= seq!['d', 'e', 'v', '.'] + dec);
        assert(s5.last() == dec.last());
        assert(crate::text::is_digit(dec.last()));
        assert(strip_leading_dot(s5).last() == dec.last());
    }
}

/// The development build template evaluated in general: `{hash}`
/// yields the hash itself (with at most one stray dot stripped at
/// each end), for any hash free of `{`.
pub proof fn lemma_inject_dev_build(ctx: TemplateContext)
    requires
        forall|i: int| 0 <= i < ctx.hash.len() ==> #[trigger] ctx.hash[i] != '{',
    ensures
        spec_inject("{hash}"@, ctx) == strip_edge_dots(ctx.hash),
{
    reveal_strlit("{hash}");
    let t = "{hash}"@;
    let t0 = seq!['{', 'h', 'a', 's', 'h', '}'];
    assert(t =~= t0);
    assert forall|i: int|
        0 <= i && i + pat_pre().len() <= t0.len() implies #[trigger] t0.subrange(
        i,
        i + pat_pre().len(),
    ) != pat_pre() by {
        if i == 0 {
            assert(t0.subrange(i, i + pat_pre().len())[1] == t0[1]);
        } else {
            assert(t0.subrange(i, i + pat_pre().len())[0] == t0[i]);
        }
    }
    lemma_replace_all_absent(t0, pat_pre(), ctx.pre);
    assert forall|i: int|
        0 <= i && i + pat_inc().len() <= t0.len() implies #[trigger] t0.subrange(
        i,
        i + pat_inc().len(),
    ) != pat_inc() by {
        if i == 0 {
            assert(t0.subrange(i, i + pat_inc().len())[1] == t0[1]);
        } else {
            assert(t0.subrange(i, i + pat_inc().len())[0] == t0[i]);
        }
    }
    lemma_replace_all_absent(t0, pat_inc(), dec_str(ctx.inc));
    lemma_replace_all_absent(t0, pat_identifier(), ctx.identifier);
    let zero: int = 0;
    assert(t0.subrange(zero, zero + pat_hash().len()) =~= pat_hash());
    lemma_replace_all_first(t0, pat_hash(), ctx.hash, 0);
    assert(t0.skip(zero + pat_hash().len()) =~= Seq::<char>::empty());
    assert(replace_all(Seq::<char>::empty(), pat_hash(), ctx.hash) == Seq::<char>::empty());
    assert(replace_all(t0, pat_hash(), ctx.hash) =~= ctx.hash) by {
        assert(t0.take(0) + ctx.hash + Seq::<char>::empty() =~= ctx.hash);
    }
    assert forall|i: int|
        0 <= i && i + pat_distance().len() <= ctx.hash.len() implies #[trigger] ctx.hash.subrange(
        i,
        i + pat_distance().len(),
    ) != pat_distance() by {
        assert(ctx.hash.subrange(i, i + pat_distance().len())[0] == ctx.hash[i]);
    }
    lemma_replace_all_absent(ctx.hash, pat_distance(), dec_str(ctx.distance));
    assert forall|i: int|
        0 <= i && i + pat_timestamp().len() <= ctx.hash.len() implies #[trigger] ctx.hash.subrange(
        i,
        i + pat_timestamp().len(),
    ) != pat_timestamp() by {
        assert(ctx.hash.subrange(i, i + pat_timestamp().len())[0] == ctx.hash[i]);
    }
    lemma_replace_all_absent(ctx.hash, pat_timestamp(), ctx.timestamp);
    assert forall|i: int|
        0 <= i && i + pat_branch().len() <= ctx.hash.len() implies #[trigger] ctx.hash.subrange(
        i,
        i + pat_branch().len(),
    ) != pat_branch() by {
        assert(ctx.hash.subrange(i, i + pat_branch().len())[0] == ctx.hash[i]);
    }
    lemma_replace_all_absent(ctx.hash, pat_branch(), ctx.branch);
}

/// Replaces every occurrence of `pat` in `s` by `val`.
pub(crate) fn replace_all_exec(s: &Vec<char>, pat: &Vec<char>, val: &Vec<char>) -> (r: Vec<char>)
    requires
        pat@.len() > 0,
    ensures
        r@ == replace_all(s@, pat@, val@),
{
    let mut out: Vec<char> = Vec::new();
    let mut i: usize = 0;
    proof {
        assert(s@.skip(0) =~= s@);
        assert(out@ + s@.skip(0) =~= s@.skip(0));
    }
    while i < s.len()
        invariant
            i <= s@.len(),
            pat@.len() > 0,
            replace_all(s@, pat@, val@) == out@ + replace_all(s@.skip(i as int), pat@, val@),
        decreases s@.len() - i,
    {
        let ghost rest = s@.skip(i as int);
        if pat.len() <= s.len() - i && window_eq(s, i, pat) {
            proof {
                assert(rest.take(pat@.len() as int) =~= s@.subrange(i as int, i + pat@.len()));
                assert(rest.skip(pat@.len() as int) =~= s@.skip(i + pat@.len()));
                assert(replace_all(rest, pat@, val@) == val@ + replace_all(
                    s@.skip(i + pat@.len()),
                    pat@,
                    val@,
                ));
            }
            let ghost out0 = out@;
            push_range(&mut out, val, 0, val.len());
            proof {
                assert(val@.subrange(0, val@.len() as int) =~= val@);
                assert(out0 + (val@ + replace_all(s@.skip(i + pat@.len()), pat@, val@)) =~= out@
                    + replace_all(s@.skip(i + pat@.len()), pat@, val@));
            }
            i = i + pat.len();
        } else {
            proof {
                assert(rest.len() > 0);
                assert(rest[0] == s@[i as int]);
                if rest.len() >= pat@.len() {
                    assert(rest.take(pat@.len() as int) =~= s@.subrange(i as int, i + pat@.len()));
                }
                assert(rest.drop_first() =~= s@.skip(i + 1));
                assert(replace_all(rest, pat@, val@) == seq![s@[i as int]] + replace_all(
                    s@.skip(i + 1),
                    pat@,
                    val@,
                ));
            }
            let ghost out0 = out@;
            out.push(s[i]);
            proof {
                assert(out0 + (seq![s@[i as int]] + replace_all(s@.skip(i + 1), pat@, val@)) =~= out@
                    + replace_all(s@.skip(i + 1), pat@, val@));
            }
            i = i + 1;
        }
    }
    proof {
        assert(s@.skip(s@.len() as int) =~= Seq::<char>::empty());
        assert(replace_all(Seq::<char>::empty(), pat@, val@) == Seq::<char>::empty());
        assert(out@ + Seq::<char>::empty() =~= out@);
    }
    out
}

/// At most one stray dot removed from each end, on character vectors.
fn strip_edge_dots_exec(rep: &Vec<char>) -> (r: Vec<char>)
    ensures
        r@ == strip_edge_dots(rep@),
{
    let n = rep.len();
    let start: usize = if n > 0 && rep[0] == '.' {
        1
    } else {
        0
    };
    let end: usize = if n > start && rep[n - 1] == '.' {
        n - 1
    } else {
        n
    };
    proof {
        let led = strip_leading_dot(rep@);
        assert(led =~= rep@.subrange(start as int, n as int));
        if led.len() > 0 {
            assert(led.last() == rep@[n - 1]);
        }
        assert(strip_trailing_dot(led) =~= rep@.subrange(start as int, end as int));
    }
    subvec(rep, start, end)
}

impl TemplateVariables {
    /// Substitutes every recognized token of `template` with its
    /// value, then strips at most one leading and one trailing dot
    /// from the result.
    pub fn inject(&self, template: &str) -> (r: String)
        ensures
            r@ == spec_inject(template@, self@),
    {
        let p_pre: Vec<char> = vec!['{', 'p', 'r', 'e', '}'];
        let p_inc: Vec<char> = vec!['{', 'i', 'n', 'c', '}'];
        let p_identifier: Vec<char> = vec![
            '{',
            'i',
            'd',
            'e',
            'n',
            't',
            'i',
            'f',
            'i',
            'e',
            'r',
            '}',
        ];
        let p_hash: Vec<char> = vec!['{', 'h', 'a', 's', 'h', '}'];
        let p_distance: Vec<char> = vec!['{', 'd', 'i', 's', 't', 'a', 'n', 'c', 'e', '}'];
        let p_timestamp: Vec<char> = vec!['{', 't', 'i', 'm', 'e', 's', 't', 'a', 'm', 'p', '}'];
        let p_branch: Vec<char> = vec!['{', 'b', 'r', 'a', 'n', 'c', 'h', '}'];
        proof {
            assert(p_pre@ =~= pat_pre());
            assert(p_inc@ =~= pat_inc());
            assert(p_identifier@ =~= pat_identifier());
            assert(p_hash@ =~= pat_hash());
            assert(p_distance@ =~= pat_distance());
            assert(p_timestamp@ =~= pat_timestamp());
            assert(p_branch@ =~= pat_branch());
        }
        let cur = chars_vec(template);
        let cur = replace_all_exec(&cur, &p_pre, &chars_vec(self.pre.as_str()));
        let cur = replace_all_exec(&cur, &p_inc, &dec_chars(self.inc as u64));
        let cur = replace_all_exec(&cur, &p_identifier, &chars_vec(self.identifier.as_str()));
        let cur = replace_all_exec(&cur, &p_hash, &chars_vec(self.hash.as_str()));
        let cur = replace_all_exec(&cur, &p_distance, &dec_chars(self.distance as u64));
        let cur = replace_all_exec(&cur, &p_timestamp, &chars_vec(self.timestamp.as_str()));
        let cur = replace_all_exec(&cur, &p_branch, &chars_vec(self.branch.as_str()));
        string_of(&strip_edge_dots_exec(&cur))
    }
}

} // verus!
