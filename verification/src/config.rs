//! Layered configuration: a flat store of key/value entries (gathered
//! by the caller from files and environment, later sources last) and
//! the subcommand-aware lookup over it.  Keys are matched
//! case-insensitively by folding entry keys to ASCII lowercase when
//! the store is built; lookups use lowercase keys.

use vstd::prelude::*;

use crate::text::all_digits;
use crate::text::chars_vec;
use crate::text::digits_val;
use crate::text::lower_seq;
use crate::text::parse_u64_digits;
use crate::text::to_lowercase_ascii;

verus! {

/// The value stored under `key`: the last entry with that key wins,
/// because later sources override earlier ones.
pub open spec fn lookup(entries: Seq<(Seq<char>, Seq<char>)>, key: Seq<char>) -> Option<Seq<char>>
    decreases entries.len(),
{
    if entries.len() == 0 {
        None
    } else if entries.last().0 == key {
        Some(entries.last().1)
    } else {
        lookup(entries.drop_last(), key)
    }
}

/// `s` with every `.` replaced by `_`: the shape of environment-style
/// keys.
pub open spec fn underscored(s: Seq<char>) -> Seq<char> {
    Seq::new(
        s.len(),
        |i: int|
            if s[i] == '.' {
                '_'
            } else {
                s[i]
            },
    )
}

/// The greatest index below `p` holding a `.`, or `-1`.
pub open spec fn last_dot_before(s: Seq<char>, p: int) -> int
    decreases p,
{
    if p <= 0 {
        -1
    } else if s[p - 1] == '.' {
        p - 1
    } else {
        last_dot_before(s, p - 1)
    }
}

pub proof fn lemma_last_dot_before(s: Seq<char>, p: int)
    requires
        0 <= p <= s.len(),
    ensures
        -1 <= last_dot_before(s, p) < p,
        last_dot_before(s, p) >= 0 ==> s[last_dot_before(s, p)] == '.',
        forall|j: int| last_dot_before(s, p) < j < p ==> s[j] != '.',
    decreases p,
{
    if p > 0 && s[p - 1] != '.' {
        lemma_last_dot_before(s, p - 1);
    }
}

/// The layered search: for the subcommand prefix ending at `p`, try
/// the environment-style key (prefix with dots as underscores, `_`,
/// key), then the section key (prefix, `.`, key); on a miss move to
/// the next shorter prefix (up to the previous dot), and finally try
/// the bare key.
pub open spec fn spec_get_from(
    entries: Seq<(Seq<char>, Seq<char>)>,
    sub: Seq<char>,
    key: Seq<char>,
    p: int,
) -> Option<Seq<char>>
    decreases p + 1,
{
    if p < 0 {
        lookup(entries, key)
    } else {
        let prefix = sub.take(p);
        let env_key = underscored(prefix) + seq!['_'] + key;
        let sect_key = prefix + seq!['.'] + key;
        if lookup(entries, env_key) is Some {
            lookup(entries, env_key)
        } else if lookup(entries, sect_key) is Some {
            lookup(entries, sect_key)
        } else {
            let d = last_dot_before(sub, p);
            spec_get_from(
                entries,
                sub,
                key,
                if -1 <= d && d < p {
                    d
                } else {
                    -1
                },
            )
        }
    }
}

/// The whole search, from the full subcommand down.
pub open spec fn spec_get(
    entries: Seq<(Seq<char>, Seq<char>)>,
    sub: Seq<char>,
    key: Seq<char>,
) -> Option<Seq<char>> {
    spec_get_from(entries, sub, key, sub.len() as int)
}

/// The layered lookup read as a decimal `u64` value: `None` when the
/// key is absent or its value is not a decimal number that fits.
pub open spec fn spec_get_u64(
    entries: Seq<(Seq<char>, Seq<char>)>,
    sub: Seq<char>,
    key: Seq<char>,
) -> Option<int> {
    match spec_get(entries, sub, key) {
        Some(text) => if all_digits(text) && text.len() > 0 && digits_val(text) <= u64::MAX {
            Some(digits_val(text))
        } else {
            None
        },
        None => None,
    }
}

/// The flat configuration store.
pub struct Configuration {
    entries: Vec<(String, String)>,
}

impl View for Configuration {
    type V = Seq<(Seq<char>, Seq<char>)>;

    closed spec fn view(&self) -> Seq<(Seq<char>, Seq<char>)> {
        Seq::new(self.entries@.len(), |i: int| (self.entries@[i].0@, self.entries@[i].1@))
    }
}

impl Configuration {
    /// Builds the store from layered key/value entries, later sources
    /// last; entry keys are folded to ASCII lowercase.
    pub fn load(entries: Vec<(String, String)>) -> (r: Configuration)
        ensures
            r@.len() == entries@.len(),
            forall|i: int|
                0 <= i < entries@.len() ==> #[trigger] r@[i] == (
                    lower_seq(entries@[i].0@),
                    entries@[i].1@,
                ),
    {
        let mut store: Vec<(String, String)> = Vec::new();
        let mut i: usize = 0;
        while i < entries.len()
            invariant
                i <= entries@.len(),
                store@.len() == i,
                forall|t: int|
                    0 <= t < i ==> #[trigger] store@[t].0@ == lower_seq(entries@[t].0@)
                        && store@[t].1@ == entries@[t].1@,
            decreases entries@.len() - i,
        {
            let (k, v) = &entries[i];
            store.push((to_lowercase_ascii(k.as_str()), v.clone()));
            i = i + 1;
        }
        let r = Configuration { entries: store };
        proof {
            assert forall|i2: int| 0 <= i2 < entries@.len() implies #[trigger] r@[i2] == (
                lower_seq(entries@[i2].0@),
                entries@[i2].1@,
            ) by {
                assert(r@[i2] == (store@[i2].0@, store@[i2].1@));
            }
        }
        r
    }

    /// The value stored under exactly this key, the last entry
    /// winning.
    fn lookup_exact(&self, key: &Vec<char>) -> (r: Option<String>)
        ensures
            match r {
                Some(v) => lookup(self@, key@) == Some(v@),
                None => lookup(self@, key@) is None,
            },
    {
        let mut j: usize = self.entries.len();
        proof {
            assert(self@.take(self@.len() as int) =~= self@);
        }
        while j > 0
            invariant
                j <= self@.len(),
                lookup(self@, key@) == lookup(self@.take(j as int), key@),
            decreases j,
        {
            j = j - 1;
            let ghost pre = self@.take(j + 1);
            proof {
                assert(pre.last() == self@[j as int]);
                assert(pre.drop_last() =~= self@.take(j as int));
            }
            let (k, v) = &self.entries[j];
            proof {
                assert(self@[j as int] == (k@, v@));
            }
            if string_eq_chars(k, key) {
                return Some(v.clone());
            }
        }
        proof {
            assert(self@.take(0) =~= Seq::<(Seq<char>, Seq<char>)>::empty());
        }
        None
    }

    /// The layered lookup described by `spec_get`: environment-style
    /// key, then section key, for ever shorter subcommand prefixes,
    /// and finally the bare key.
    pub fn get(&self, subcommand: &str, key: &str) -> (r: Option<String>)
        ensures
            match r {
                Some(v) => spec_get(self@, subcommand@, key@) == Some(v@),
                None => spec_get(self@, subcommand@, key@) is None,
            },
    {
        let sub_cs = chars_vec(subcommand);
        let key_cs = chars_vec(key);
        let n = sub_cs.len();
        let mut p: usize = n;
        let mut done = false;
        while !done
            invariant
                p <= n == sub_cs@.len(),
                sub_cs@ == subcommand@,
                key_cs@ == key@,
                !done ==> spec_get(self@, subcommand@, key@) == spec_get_from(
                    self@,
                    subcommand@,
                    key@,
                    p as int,
                ),
                done ==> spec_get(self@, subcommand@, key@) == spec_get_from(
                    self@,
                    subcommand@,
                    key@,
                    -1,
                ),
            decreases p + 1, (if done { 0int } else { 1int }),
        {
            let mut env_key: Vec<char> = Vec::new();
            let mut t: usize = 0;
            while t < p
                invariant
                    t <= p <= sub_cs@.len(),
                    env_key@ == underscored(sub_cs@.take(p as int)).take(t as int),
                decreases p - t,
            {
                let c = sub_cs[t];
                env_key.push(
                    if c == '.' {
                        '_'
                    } else {
                        c
                    },
                );
                proof {
                    assert(env_key@ =~= underscored(sub_cs@.take(p as int)).take(t + 1));
                }
                t = t + 1;
            }
            let mut sect_key: Vec<char> = Vec::new();
            let mut u: usize = 0;
            while u < p
                invariant
                    u <= p <= sub_cs@.len(),
                    sect_key@ == sub_cs@.take(p as int).take(u as int),
                decreases p - u,
            {
                sect_key.push(sub_cs[u]);
                proof {
                    assert(sect_key@ =~= sub_cs@.take(p as int).take(u + 1));
                }
                u = u + 1;
            }
            proof {
                assert(env_key@ =~= underscored(sub_cs@.take(p as int)));
                assert(sect_key@ =~= sub_cs@.take(p as int));
            }
            env_key.push('_');
            sect_key.push('.');
            let ghost env_base = env_key@;
            let ghost sect_base = sect_key@;
            let mut w: usize = 0;
            while w < key_cs.len()
                invariant
                    w <= key_cs@.len(),
                    env_key@ == env_base + key_cs@.take(w as int),
                    sect_key@ == sect_base + key_cs@.take(w as int),
                    env_base == underscored(sub_cs@.take(p as int)).push('_'),
                    sect_base == sub_cs@.take(p as int).push('.'),
                decreases key_cs@.len() - w,
            {
                env_key.push(key_cs[w]);
                sect_key.push(key_cs[w]);
                proof {
                    assert(env_key@ =~= env_base + key_cs@.take(w + 1));
                    assert(sect_key@ =~= sect_base + key_cs@.take(w + 1));
                }
                w = w + 1;
            }
            proof {
                assert(env_key@ =~= underscored(subcommand@.take(p as int)) + seq!['_'] + key@);
                assert(sect_key@ =~= subcommand@.take(p as int) + seq!['.'] + key@);
            }
            if let Some(v) = self.lookup_exact(&env_key) {
                return Some(v);
            }
            if let Some(v) = self.lookup_exact(&sect_key) {
                return Some(v);
            }
            proof {
                lemma_last_dot_before(subcommand@, p as int);
            }
            let mut d: usize = p;
            while d > 0 && sub_cs[d - 1] != '.'
                invariant
                    d <= p <= sub_cs@.len(),
                    sub_cs@ == subcommand@,
                    forall|j: int| d <= j < p ==> subcommand@[j] != '.',
                decreases d,
            {
                d = d - 1;
            }
            proof {
                let ld = last_dot_before(subcommand@, p as int);
                if d > 0 {
                    assert(subcommand@[d - 1] == '.');
                    assert(ld == d - 1) by {
                        if ld > d - 1 {
                            assert(subcommand@[ld] != '.');
                        }
                        if ld < d - 1 {
                            assert(forall|j: int| ld < j < p ==> subcommand@[j] != '.');
                        }
                    }
                } else {
                    assert(ld == -1) by {
                        if ld >= 0 {
                            assert(subcommand@[ld] != '.');
                        }
                    }
                }
            }
            if d == 0 {
                done = true;
            } else {
                p = d - 1;
            }
        }
        self.lookup_exact(&key_cs)
    }

    /// The layered lookup, read as a decimal `u64`: `None` when the
    /// key is absent or its value is not a decimal number that fits.
    pub fn get_u64(&self, subcommand: &str, key: &str) -> (r: Option<u64>)
        ensures
            ({
                let s = spec_get_u64(self@, subcommand@, key@);
                match r {
                    Some(v) => s == Some(v as int),
                    None => s is None,
                }
            }),
    {
        match self.get(subcommand, key) {
            None => None,
            Some(text) => {
                let cs = chars_vec(text.as_str());
                if cs.len() == 0 {
                    return None;
                }
                let mut i: usize = 0;
                while i < cs.len()
                    invariant
                        i <= cs@.len(),
                        spec_get(self@, subcommand@, key@) == Some(text@),
                        cs@ == text@,
                        forall|t: int| 0 <= t < i ==> crate::text::is_digit(#[trigger] cs@[t]),
                    decreases cs@.len() - i,
                {
                    if !crate::version::is_digit_exec(cs[i]) {
                        proof {
                            assert(!all_digits(cs@));
                        }
                        return None;
                    }
                    i = i + 1;
                }
                proof {
                    assert(cs@.subrange(0, cs@.len() as int) =~= cs@);
                }
                parse_u64_digits(&cs, 0, cs.len())
            },
        }
    }
}

/// Whether a string holds exactly these characters.
fn string_eq_chars(s: &String, cs: &Vec<char>) -> (r: bool)
    ensures
        r == (s@ == cs@),
{
    let sv = chars_vec(s.as_str());
    if sv.len() != cs.len() {
        return false;
    }
    let mut i: usize = 0;
    while i < sv.len()
        invariant
            i <= sv@.len() == cs@.len(),
            sv@ == s@,
            forall|t: int| 0 <= t < i ==> sv@[t] == cs@[t],
        decreases sv@.len() - i,
    {
        if sv[i] != cs[i] {
            return false;
        }
        i = i + 1;
    }
    proof {
        assert(s@ =~= cs@);
    }
    true
}

} // verus!
