//! Shared verified text utilities: conversions between `&str`, `Vec<char>`
//! and `String`, decimal rendering and parsing of unsigned integers.

use vstd::prelude::*;

verus! {

/// Relies on `String::push`: appends the given character to the end of
/// the string.
pub assume_specification[ String::push ](s: &mut String, c: char)
    ensures
        final(s)@ == old(s)@.push(c),
;

/// The characters of a string slice, as a vector.
pub fn chars_vec(s: &str) -> (r: Vec<char>)
    ensures
        r@ == s@,
{
    let n = s.unicode_len();
    let mut r: Vec<char> = Vec::new();
    let mut i: usize = 0;
    while i < n
        invariant
            n == s@.len(),
            i <= n,
            r@ == s@.take(i as int),
        decreases n - i,
    {
        r.push(s.get_char(i));
        proof {
            assert(r@ =~= s@.take(i + 1));
        }
        i = i + 1;
    }
    proof {
        assert(s@.take(n as int) =~= s@);
    }
    r
}

/// A `String` holding exactly the given characters.
pub fn string_of(cs: &Vec<char>) -> (r: String)
    ensures
        r@ == cs@,
{
    let mut r = String::new();
    let mut i: usize = 0;
    while i < cs.len()
        invariant
            i <= cs@.len(),
            r@ == cs@.take(i as int),
        decreases cs@.len() - i,
    {
        r.push(cs[i]);
        proof {
            assert(r@ =~= cs@.take(i + 1));
        }
        i = i + 1;
    }
    proof {
        assert(cs@.take(cs@.len() as int) =~= cs@);
    }
    r
}

/// Whether `c` is an ASCII decimal digit.
pub open spec fn is_digit(c: char) -> bool {
    '0' <= c && c <= '9'
}

/// The numeric value of an ASCII digit.
pub open spec fn digit_val(c: char) -> int {
    c as u32 - '0' as u32
}

/// The digit character for a value below ten.
pub open spec fn digit_char(d: int) -> char {
    if d == 0 {
        '0'
    } else if d == 1 {
        '1'
    } else if d == 2 {
        '2'
    } else if d == 3 {
        '3'
    } else if d == 4 {
        '4'
    } else if d == 5 {
        '5'
    } else if d == 6 {
        '6'
    } else if d == 7 {
        '7'
    } else if d == 8 {
        '8'
    } else {
        '9'
    }
}

/// Whether every character of `s` is an ASCII digit.
pub open spec fn all_digits(s: Seq<char>) -> bool {
    forall|i: int| 0 <= i < s.len() ==> is_digit(#[trigger] s[i])
}

/// The value of a sequence of ASCII digits read as a decimal number.
pub open spec fn digits_val(s: Seq<char>) -> int
    decreases s.len(),
{
    if s.len() == 0 {
        0
    } else {
        digits_val(s.drop_last()) * 10 + digit_val(s.last())
    }
}

/// The canonical decimal rendering of a non-negative number: no leading
/// zeros, and `0` itself rendered as one digit.
pub open spec fn dec_str(n: int) -> Seq<char>
    decreases n,
{
    if n <= 0 {
        seq!['0']
    } else if n < 10 {
        seq![digit_char(n)]
    } else {
        dec_str(n / 10).push(digit_char(n % 10))
    }
}

/// Decimal text without a leading zero: the only shape `dec_str` produces.
pub open spec fn is_canonical_digits(s: Seq<char>) -> bool {
    &&& s.len() > 0
    &&& all_digits(s)
    &&& (s.len() > 1 ==> s[0] != '0')
}

pub proof fn lemma_digits_val_bounds(s: Seq<char>)
    requires
        all_digits(s),
    ensures
        0 <= digits_val(s),
        s.len() > 0 && s[0] != '0' ==> digits_val(s) >= 1,
    decreases s.len(),
{
    if s.len() > 0 {
        assert(all_digits(s.drop_last())) by {
            assert(forall|i: int| 0 <= i < s.len() - 1 ==> is_digit(#[trigger] s.drop_last()[i]));
        }
        lemma_digits_val_bounds(s.drop_last());
        if s.len() > 1 && s[0] != '0' {
            assert(s.drop_last()[0] == s[0]);
        }
    }
}

/// `dec_str` inverts `digits_val` on canonical digit text.
pub proof fn lemma_dec_str_digits_val(s: Seq<char>)
    requires
        is_canonical_digits(s),
    ensures
        dec_str(digits_val(s)) == s,
    decreases s.len(),
{
    lemma_digits_val_bounds(s);
    if s.len() == 1 {
        assert(digits_val(s) == digits_val(s.drop_last()) * 10 + digit_val(s[0]));
        assert(digits_val(s.drop_last()) == 0);
        assert(0 <= digit_val(s[0]) <= 9);
        assert(dec_str(digits_val(s)) =~= seq![s[0]]) by {
            assert(digit_char(digit_val(s[0])) == s[0]);
        }
        assert(seq![s[0]] =~= s);
    } else {
        let p = s.drop_last();
        assert(all_digits(p)) by {
            assert(forall|i: int| 0 <= i < p.len() ==> p[i] == s[i] && is_digit(#[trigger] s[i]));
        }
        assert(p[0] == s[0]);
        assert(is_canonical_digits(p));
        lemma_dec_str_digits_val(p);
        let v = digits_val(s);
        lemma_digits_val_bounds(p);
        assert(digits_val(p) >= 1);
        assert(v == digits_val(p) * 10 + digit_val(s.last()));
        assert(0 <= digit_val(s.last()) <= 9);
        assert(v / 10 == digits_val(p) && v % 10 == digit_val(s.last())) by (nonlinear_arith)
            requires
                v == digits_val(p) * 10 + digit_val(s.last()),
                0 <= digit_val(s.last()) <= 9,
                digits_val(p) >= 1,
        ;
        assert(v >= 10) by (nonlinear_arith)
            requires
                v == digits_val(p) * 10 + digit_val(s.last()),
                digits_val(p) >= 1,
                digit_val(s.last()) >= 0,
        ;
        assert(digit_char(digit_val(s.last())) == s.last());
        assert(dec_str(v) == dec_str(digits_val(p)).push(s.last()));
        assert(p.push(s.last()) =~= s);
    }
}

/// `dec_str` always yields canonical digit text.
pub proof fn lemma_dec_str_canonical(n: int)
    requires
        n >= 0,
    ensures
        is_canonical_digits(dec_str(n)),
        digits_val(dec_str(n)) == n,
    decreases n,
{
    if n < 10 {
        let c = digit_char(n);
        assert(c == '0' || c == '1' || c == '2' || c == '3' || c == '4' || c == '5' || c == '6'
            || c == '7' || c == '8' || c == '9');
        assert(is_digit(c));
        assert(digit_val(c) == n);
        assert(dec_str(n) =~= seq![c]);
        assert(all_digits(dec_str(n))) by {
            assert(forall|i: int| 0 <= i < dec_str(n).len() ==> #[trigger] dec_str(n)[i] == c);
        }
        assert(dec_str(n).drop_last() =~= Seq::<char>::empty());
        assert(digits_val(dec_str(n)) == digits_val(Seq::<char>::empty()) * 10 + digit_val(c));
    } else {
        lemma_dec_str_canonical(n / 10);
        let p = dec_str(n / 10);
        let s = p.push(digit_char(n % 10));
        assert(s.drop_last() =~= p);
        assert(is_digit(digit_char(n % 10)));
        assert(all_digits(s)) by {
            assert(forall|i: int| 0 <= i < s.len() - 1 ==> s[i] == p[i] && is_digit(#[trigger] p[i]));
        }
        assert(s[0] == p[0]);
        assert(p[0] != '0') by {
            if p.len() == 1 && p[0] == '0' {
                assert(p.drop_last() =~= Seq::<char>::empty());
                assert(digits_val(p) == digits_val(p.drop_last()) * 10 + digit_val(p.last()));
                assert(digits_val(p) == 0);
            }
        }
        assert(n / 10 >= 1);
        assert(digits_val(s) == digits_val(p) * 10 + digit_val(digit_char(n % 10)));
        assert(digit_val(digit_char(n % 10)) == n % 10);
        assert((n / 10) * 10 + n % 10 == n) by (nonlinear_arith)
            requires
                n >= 0,
        ;
    }
}

/// The decimal digits of `n`.
pub fn dec_chars(n: u64) -> (r: Vec<char>)
    ensures
        r@ == dec_str(n as int),
{
    let mut digits: Vec<char> = Vec::new();
    let mut m: u64 = n;
    if m == 0 {
        digits.push('0');
        proof {
            assert(digits@ =~= dec_str(0));
        }
        return digits;
    }
    let mut rev: Vec<char> = Vec::new();
    while m > 0
        invariant
            0 <= m <= n,
            m == 0 ==> n > 0,
            dec_str(n as int) == if m == 0 {
                rev@.reverse()
            } else {
                dec_str(m as int) + rev@.reverse()
            },
        decreases m,
    {
        let d: u64 = m % 10;
        let c = digit_to_char(d);
        proof {
            let old_rev = rev@;
            assert(rev@.push(c).reverse() =~= seq![c] + old_rev.reverse());
            if m >= 10 {
                assert(dec_str(m as int) == dec_str(m as int / 10).push(c));
                assert(dec_str(m as int / 10).push(c) + old_rev.reverse() =~= dec_str(
                    m as int / 10,
                ) + (seq![c] + old_rev.reverse()));
            } else {
                assert(dec_str(m as int) =~= seq![c]);
                assert(seq![c] + old_rev.reverse() =~= dec_str(m as int) + old_rev.reverse());
            }
        }
        rev.push(c);
        m = m / 10;
    }
    let mut i: usize = rev.len();
    while i > 0
        invariant
            i <= rev@.len(),
            digits@ == rev@.reverse().take(rev@.len() - i),
        decreases i,
    {
        i = i - 1;
        digits.push(rev[i]);
        proof {
            assert(rev@.reverse()[rev@.len() - i - 1] == rev@[i as int]);
            assert(digits@ =~= rev@.reverse().take(rev@.len() - i));
        }
    }
    proof {
        assert(rev@.reverse().take(rev@.len() as int) =~= rev@.reverse());
    }
    digits
}

/// The digit character for `d`, which must be below ten.
pub fn digit_to_char(d: u64) -> (c: char)
    requires
        d < 10,
    ensures
        c == digit_char(d as int),
{
    if d == 0 {
        '0'
    } else if d == 1 {
        '1'
    } else if d == 2 {
        '2'
    } else if d == 3 {
        '3'
    } else if d == 4 {
        '4'
    } else if d == 5 {
        '5'
    } else if d == 6 {
        '6'
    } else if d == 7 {
        '7'
    } else if d == 8 {
        '8'
    } else {
        '9'
    }
}

/// Reads the digit characters `cs[from..to]` as a decimal `u64`, or
/// `None` when the value does not fit.
pub fn parse_u64_digits(cs: &Vec<char>, from: usize, to: usize) -> (r: Option<u64>)
    requires
        from <= to <= cs@.len(),
        all_digits(cs@.subrange(from as int, to as int)),
    ensures
        match r {
            Some(v) => v == digits_val(cs@.subrange(from as int, to as int)),
            None => digits_val(cs@.subrange(from as int, to as int)) > u64::MAX,
        },
{
    let ghost whole = cs@.subrange(from as int, to as int);
    proof {
        lemma_digits_val_bounds(whole);
    }
    let mut acc: u64 = 0;
    let mut i: usize = from;
    while i < to
        invariant
            from <= i <= to <= cs@.len(),
            whole == cs@.subrange(from as int, to as int),
            all_digits(whole),
            acc == digits_val(cs@.subrange(from as int, i as int)),
        decreases to - i,
    {
        let ghost pre = cs@.subrange(from as int, i as int);
        let c = cs[i];
        proof {
            assert(whole[i - from] == c);
            assert(is_digit(c));
        }
        let d: u64 = (c as u32 as u64) - ('0' as u32 as u64);
        let wide: u128 = (acc as u128) * 10 + (d as u128);
        proof {
            assert(cs@.subrange(from as int, i + 1).drop_last() =~= pre);
            assert(cs@.subrange(from as int, i + 1).last() == c);
            assert(digits_val(cs@.subrange(from as int, i + 1)) == digits_val(pre) * 10 + digit_val(
                c,
            ));
        }
        if wide > u64::MAX as u128 {
            proof {
                lemma_digits_val_grows(cs@, from as int, i + 1, to as int);
                lemma_digits_val_bounds(cs@.subrange(from as int, i + 1));
            }
            return None;
        }
        acc = (wide as u64);
        i = i + 1;
    }
    Some(acc)
}

/// A copy of the characters `cs[from..to]`.
pub fn subvec(cs: &Vec<char>, from: usize, to: usize) -> (r: Vec<char>)
    requires
        from <= to <= cs@.len(),
    ensures
        r@ == cs@.subrange(from as int, to as int),
{
    let mut r: Vec<char> = Vec::new();
    let mut i: usize = from;
    proof {
        assert(r@ =~= cs@.subrange(from as int, from as int));
    }
    while i < to
        invariant
            from <= i <= to <= cs@.len(),
            r@ == cs@.subrange(from as int, i as int),
        decreases to - i,
    {
        r.push(cs[i]);
        proof {
            assert(r@ =~= cs@.subrange(from as int, i + 1));
        }
        i = i + 1;
    }
    r
}

/// Appends the characters `src[from..to]` to `dst`.
pub fn push_range(dst: &mut Vec<char>, src: &Vec<char>, from: usize, to: usize)
    requires
        from <= to <= src@.len(),
    ensures
        final(dst)@ == old(dst)@ + src@.subrange(from as int, to as int),
{
    let mut i: usize = from;
    proof {
        assert(dst@ =~= dst@ + src@.subrange(from as int, from as int));
    }
    while i < to
        invariant
            from <= i <= to <= src@.len(),
            dst@ == old(dst)@ + src@.subrange(from as int, i as int),
        decreases to - i,
    {
        dst.push(src[i]);
        proof {
            assert(old(dst)@ + src@.subrange(from as int, i as int) + seq![src@[i as int]] =~= old(
                dst,
            )@ + src@.subrange(from as int, i + 1));
        }
        i = i + 1;
    }
}

/// `c` with an ASCII uppercase letter folded to lowercase.
pub open spec fn lower_char(c: char) -> char {
    if 'A' <= c && c <= 'Z' {
        ((c as u8) + 32) as char
    } else {
        c
    }
}

/// `s` with every ASCII uppercase letter folded to lowercase.
pub open spec fn lower_seq(s: Seq<char>) -> Seq<char> {
    Seq::new(s.len(), |i: int| lower_char(s[i]))
}

/// A copy of `s` with ASCII uppercase letters folded to lowercase.
pub fn to_lowercase_ascii(s: &str) -> (r: String)
    ensures
        r@ == lower_seq(s@),
{
    let cs = chars_vec(s);
    let mut out: Vec<char> = Vec::new();
    let mut i: usize = 0;
    while i < cs.len()
        invariant
            i <= cs@.len(),
            out@ == lower_seq(cs@).take(i as int),
        decreases cs@.len() - i,
    {
        let c = cs[i];
        let l: char = if 'A' <= c && c <= 'Z' {
            ((c as u8) + 32) as char
        } else {
            c
        };
        out.push(l);
        proof {
            assert(out@ =~= lower_seq(cs@).take(i + 1));
        }
        i = i + 1;
    }
    proof {
        assert(lower_seq(cs@).take(cs@.len() as int) =~= lower_seq(s@));
    }
    string_of(&out)
}

/// Whether `s[i..i+pat.len()]` equals `pat`.
pub fn window_eq(s: &Vec<char>, i: usize, pat: &Vec<char>) -> (r: bool)
    requires
        i + pat@.len() <= s@.len(),
    ensures
        r == (s@.subrange(i as int, i + pat@.len()) == pat@),
{
    let m = pat.len();
    let n = s.len();
    let mut j: usize = 0;
    while j < m
        invariant
            j <= m == pat@.len(),
            i + m <= n == s@.len(),
            forall|t: int| 0 <= t < j ==> s@[i + t] == pat@[t],
        decreases m - j,
    {
        if s[i + j] != pat[j] {
            proof {
                assert(s@.subrange(i as int, i + pat@.len())[j as int] == s@[i + j]);
            }
            return false;
        }
        j = j + 1;
    }
    proof {
        assert(s@.subrange(i as int, i + pat@.len()) =~= pat@);
    }
    true
}

/// Extending digit text on the right never decreases its value.
proof fn lemma_digits_val_grows(s: Seq<char>, from: int, mid: int, to: int)
    requires
        0 <= from <= mid <= to <= s.len(),
        all_digits(s.subrange(from, to)),
        all_digits(s.subrange(from, mid)),
    ensures
        digits_val(s.subrange(from, to)) >= digits_val(s.subrange(from, mid)),
    decreases to - mid,
{
    if mid < to {
        let a = s.subrange(from, mid);
        let b = s.subrange(from, mid + 1);
        assert(all_digits(b)) by {
            assert(forall|i: int| 0 <= i < b.len() ==> b[i] == s.subrange(from, to)[i]
                && is_digit(#[trigger] s.subrange(from, to)[i]));
        }
        assert(b.drop_last() =~= a);
        assert(digits_val(b) == digits_val(a) * 10 + digit_val(b.last()));
        lemma_digits_val_bounds(a);
        assert(digit_val(b.last()) >= 0);
        assert(digits_val(b) >= digits_val(a)) by (nonlinear_arith)
            requires
                digits_val(b) == digits_val(a) * 10 + digit_val(b.last()),
                digits_val(a) >= 0,
                digit_val(b.last()) >= 0,
        ;
        lemma_digits_val_grows(s, from, mid + 1, to);
    } else {
        assert(s.subrange(from, to) =~= s.subrange(from, mid));
    }
}

} // verus!
