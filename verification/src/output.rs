//! Output rendering: the templated full version string, single
//! requested fields, and the structured JSON object with every
//! non-empty field plus the composite `full` string (keys in
//! alphabetical order, pretty-printed with two-space indentation).

use vstd::prelude::*;

use crate::cli::Field;
use crate::cli::Format;
use crate::template::replace_all;
use crate::template::replace_all_exec;
use crate::text::chars_vec;
use crate::text::dec_chars;
use crate::text::dec_str;
use crate::text::push_range;
use crate::text::string_of;
use crate::version::spec_render;
use crate::version::Version;
use crate::version::VersionView;

verus! {

/// The `{version}` token of output templates.
pub open spec fn pat_version() -> Seq<char> {
    seq!['{', 'v', 'e', 'r', 's', 'i', 'o', 'n', '}']
}

/// The templated full version text: the output template with every
/// `{version}` replaced by the rendered version.
pub open spec fn spec_full_version(template: Seq<char>, v: VersionView) -> Seq<char> {
    replace_all(template, pat_version(), spec_render(v))
}

/// The hex digit characters, lowercase.
pub open spec fn hex_char(d: int) -> char {
    if d == 0 {
        '0'
    } else if d == 1 {
        '1'
    } else if d == 2 {
        '2'
    } else if d == 3 {
        '3'
    } else if d == 4 {
        '4'
    } else if d == 5 {
        '5'
    } else if d == 6 {
        '6'
    } else if d == 7 {
        '7'
    } else if d == 8 {
        '8'
    } else if d == 9 {
        '9'
    } else if d == 10 {
        'a'
    } else if d == 11 {
        'b'
    } else if d == 12 {
        'c'
    } else if d == 13 {
        'd'
    } else if d == 14 {
        'e'
    } else {
        'f'
    }
}

/// The JSON escape of one character: quotes and backslashes get a
/// backslash, the named control characters their short forms, other
/// control characters a `\u00..` sequence; everything else passes
/// through.
pub open spec fn escape_char(c: char) -> Seq<char> {
    if c == '"' {
        seq!['\\', '"']
    } else if c == '\\' {
        seq!['\\', '\\']
    } else if c == '\u{8}' {
        seq!['\\', 'b']
    } else if c == '\t' {
        seq!['\\', 't']
    } else if c == '\n' {
        seq!['\\', 'n']
    } else if c == '\u{c}' {
        seq!['\\', 'f']
    } else if c == '\r' {
        seq!['\\', 'r']
    } else if (c as u32) < 32 {
        seq!['\\', 'u', '0', '0', hex_char((c as u32) as int / 16), hex_char((c as u32) as int % 16)]
    } else {
        seq![c]
    }
}

/// The JSON escape of a whole string.
pub open spec fn json_escape(s: Seq<char>) -> Seq<char>
    decreases s.len(),
{
    if s.len() == 0 {
        Seq::empty()
    } else {
        escape_char(s[0]) + json_escape(s.drop_first())
    }
}

/// A JSON string literal: the escaped text in double quotes.
pub open spec fn json_str(s: Seq<char>) -> Seq<char> {
    seq!['"'] + json_escape(s) + seq!['"']
}

/// The body of a pretty-printed object from `i` on: each field on its
/// own line, indented two spaces, separated by commas.
pub open spec fn spec_json_body(fields: Seq<(Seq<char>, Seq<char>)>, i: int) -> Seq<char>
    decreases fields.len() - i,
{
    if i < 0 || i >= fields.len() {
        Seq::empty()
    } else {
        (if i == 0 {
            Seq::<char>::empty()
        } else {
            seq![',']
        }) + seq!['\n', ' ', ' '] + json_str(fields[i].0) + seq![':', ' '] + fields[i].1
            + spec_json_body(fields, i + 1)
    }
}

/// A pretty-printed JSON object from rendered field values.
pub open spec fn spec_json_pretty(fields: Seq<(Seq<char>, Seq<char>)>) -> Seq<char> {
    if fields.len() == 0 {
        seq!['{', '}']
    } else {
        seq!['{'] + spec_json_body(fields, 0) + seq!['\n', '}']
    }
}

/// The JSON key of a requested field.
pub open spec fn spec_field_key(field: Field) -> Seq<char> {
    match field {
        Field::Major => "major"@,
        Field::Minor => "minor"@,
        Field::Patch => "patch"@,
        Field::Pre => "pre"@,
        Field::Build => "build"@,
    }
}

/// The plain text of a requested field.
pub open spec fn spec_field_text(field: Field, v: VersionView) -> Seq<char> {
    match field {
        Field::Major => dec_str(v.major),
        Field::Minor => dec_str(v.minor),
        Field::Patch => dec_str(v.patch),
        Field::Pre => v.pre,
        Field::Build => v.build,
    }
}

/// The rendered JSON value of a requested field: numbers bare,
/// strings quoted.
pub open spec fn spec_field_json(field: Field, v: VersionView) -> Seq<char> {
    match field {
        Field::Major => dec_str(v.major),
        Field::Minor => dec_str(v.minor),
        Field::Patch => dec_str(v.patch),
        Field::Pre => json_str(v.pre),
        Field::Build => json_str(v.build),
    }
}

/// The fields of the whole-version JSON object, in alphabetical key
/// order: `build` (when non-empty), `full`, `major`, `minor`,
/// `patch`, `pre` (when non-empty).
pub open spec fn spec_full_fields(v: VersionView, template: Seq<char>) -> Seq<
    (Seq<char>, Seq<char>),
> {
    (if v.build.len() > 0 {
        seq![("build"@, json_str(v.build))]
    } else {
        Seq::<(Seq<char>, Seq<char>)>::empty()
    }) + seq![
        ("full"@, json_str(spec_full_version(template, v))),
        ("major"@, dec_str(v.major)),
        ("minor"@, dec_str(v.minor)),
        ("patch"@, dec_str(v.patch)),
    ] + (if v.pre.len() > 0 {
        seq![("pre"@, json_str(v.pre))]
    } else {
        Seq::<(Seq<char>, Seq<char>)>::empty()
    })
}

/// What `format_version` returns for every input.
pub open spec fn spec_format_version(
    field: Option<Field>,
    v: VersionView,
    format: Format,
    template: Seq<char>,
) -> Seq<char> {
    match format {
        Format::Plain => match field {
            None => spec_full_version(template, v),
            Some(f) => spec_field_text(f, v),
        },
        Format::Json => match field {
            Some(f) => spec_json_pretty(seq![(spec_field_key(f), spec_field_json(f, v))]),
            None => spec_json_pretty(spec_full_fields(v, template)),
        },
    }
}

/// The JSON escape of a whole string, as characters.
fn json_escape_exec(s: &Vec<char>) -> (r: Vec<char>)
    ensures
        r@ == json_escape(s@),
{
    let mut out: Vec<char> = Vec::new();
    let mut i: usize = 0;
    proof {
        assert(s@.skip(0) =~= s@);
        assert(out@ + json_escape(s@) =~= json_escape(s@));
    }
    while i < s.len()
        invariant
            i <= s@.len(),
            json_escape(s@) == out@ + json_escape(s@.skip(i as int)),
        decreases s@.len() - i,
    {
        let c = s[i];
        let ghost rest = s@.skip(i as int);
        proof {
            assert(rest[0] == s@[i as int]);
            assert(rest.drop_first() =~= s@.skip(i + 1));
            assert(json_escape(rest) == escape_char(c) + json_escape(s@.skip(i + 1)));
        }
        let ghost out0 = out@;
        if c == '"' {
            out.push('\\');
            out.push('"');
        } else if c == '\\' {
            out.push('\\');
            out.push('\\');
        } else if c == '\u{8}' {
            out.push('\\');
            out.push('b');
        } else if c == '\t' {
            out.push('\\');
            out.push('t');
        } else if c == '\n' {
            out.push('\\');
            out.push('n');
        } else if c == '\u{c}' {
            out.push('\\');
            out.push('f');
        } else if c == '\r' {
            out.push('\\');
            out.push('r');
        } else if (c as u32) < 32 {
            out.push('\\');
            out.push('u');
            out.push('0');
            out.push('0');
            let hi = (c as u32) / 16;
            let lo = (c as u32) % 16;
            out.push(hex_char_exec(hi));
            out.push(hex_char_exec(lo));
        } else {
            out.push(c);
        }
        proof {
            assert(out@ =~= out0 + escape_char(c));
            assert(out0 + escape_char(c) + json_escape(s@.skip(i + 1)) =~= out0 + (escape_char(c)
                + json_escape(s@.skip(i + 1))));
        }
        i = i + 1;
    }
    proof {
        assert(s@.skip(s@.len() as int) =~= Seq::<char>::empty());
        assert(out@ + Seq::<char>::empty() =~= out@);
    }
    out
}

/// The lowercase hex digit of a value below sixteen.
fn hex_char_exec(d: u32) -> (c: char)
    requires
        d < 16,
    ensures
        c == hex_char(d as int),
{
    if d == 0 {
        '0'
    } else if d == 1 {
        '1'
    } else if d == 2 {
        '2'
    } else if d == 3 {
        '3'
    } else if d == 4 {
        '4'
    } else if d == 5 {
        '5'
    } else if d == 6 {
        '6'
    } else if d == 7 {
        '7'
    } else if d == 8 {
        '8'
    } else if d == 9 {
        '9'
    } else if d == 10 {
        'a'
    } else if d == 11 {
        'b'
    } else if d == 12 {
        'c'
    } else if d == 13 {
        'd'
    } else if d == 14 {
        'e'
    } else {
        'f'
    }
}

/// A quoted, escaped JSON string.
fn json_str_exec(s: &Vec<char>) -> (r: Vec<char>)
    ensures
        r@ == json_str(s@),
{
    let mut out: Vec<char> = Vec::new();
    out.push('"');
    let esc = json_escape_exec(s);
    push_range(&mut out, &esc, 0, esc.len());
    out.push('"');
    proof {
        assert(esc@.subrange(0, esc@.len() as int) =~= esc@);
        assert(out@ =~= json_str(s@));
    }
    out
}

/// A pretty-printed JSON object from rendered fields.
fn json_pretty_exec(fields: &Vec<(Vec<char>, Vec<char>)>) -> (r: Vec<char>)
    ensures
        ({
            let view = Seq::new(fields@.len(), |i: int| (fields@[i].0@, fields@[i].1@));
            r@ == spec_json_pretty(view)
        }),
{
    let ghost view = Seq::new(fields@.len(), |i: int| (fields@[i].0@, fields@[i].1@));
    let mut out: Vec<char> = Vec::new();
    if fields.len() == 0 {
        out.push('{');
        out.push('}');
        proof {
            assert(out@ =~= spec_json_pretty(view));
        }
        return out;
    }
    out.push('{');
    let mut i: usize = 0;
    while i < fields.len()
        invariant
            i <= fields@.len(),
            view == Seq::new(fields@.len(), |t: int| (fields@[t].0@, fields@[t].1@)),
            view.len() > 0,
            out@ == seq!['{'] + spec_json_body(view, 0).take(spec_json_body(view, 0).len() as int
                - spec_json_body(view, i as int).len()),
        decreases fields@.len() - i,
    {
        let ghost out0 = out@;
        if i > 0 {
            out.push(',');
        }
        out.push('\n');
        out.push(' ');
        out.push(' ');
        let key = json_str_exec(&fields[i].0);
        push_range(&mut out, &key, 0, key.len());
        out.push(':');
        out.push(' ');
        push_range(&mut out, &fields[i].1, 0, fields[i].1.len());
        proof {
            let body0 = spec_json_body(view, 0);
            let tail_i = spec_json_body(view, i as int);
            let tail_n = spec_json_body(view, i + 1);
            assert(view[i as int] == (fields@[i as int].0@, fields@[i as int].1@));
            assert(key@.subrange(0, key@.len() as int) =~= key@);
            assert(fields@[i as int].1@.subrange(0, fields@[i as int].1@.len() as int)
                =~= fields@[i as int].1@);
            let piece = (if i == 0 {
                Seq::<char>::empty()
            } else {
                seq![',']
            }) + seq!['\n', ' ', ' '] + json_str(view[i as int].0) + seq![':', ' ']
                + view[i as int].1;
            assert(tail_i == piece + tail_n);
            assert(out@ =~= out0 + piece);
            lemma_json_body_suffix(view, i as int);
            lemma_json_body_suffix(view, i + 1);
            assert forall|j: int|
                0 <= j < body0.len() - tail_n.len() implies #[trigger] body0.take(
                body0.len() - tail_n.len(),
            )[j] == (body0.take(body0.len() - tail_i.len()) + piece)[j] by {
                if j >= body0.len() - tail_i.len() {
                    assert(tail_i[j - (body0.len() - tail_i.len())] == body0.skip(
                        body0.len() - tail_i.len(),
                    )[j - (body0.len() - tail_i.len())]);
                }
            }
            assert(body0.take(body0.len() - tail_n.len()) =~= body0.take(
                body0.len() - tail_i.len(),
            ) + piece);
        }
        i = i + 1;
    }
    proof {
        let body0 = spec_json_body(view, 0);
        assert(spec_json_body(view, view.len() as int) == Seq::<char>::empty());
        assert(body0.take(body0.len() as int) =~= body0);
    }
    out.push('\n');
    out.push('}');
    proof {
        assert(out@ =~= spec_json_pretty(view));
    }
    out
}

/// The body from `i` on is a suffix of the whole body.
proof fn lemma_json_body_suffix(fields: Seq<(Seq<char>, Seq<char>)>, i: int)
    requires
        0 <= i <= fields.len(),
    ensures
        spec_json_body(fields, i).len() <= spec_json_body(fields, 0).len(),
        spec_json_body(fields, 0).skip(
            spec_json_body(fields, 0).len() - spec_json_body(fields, i).len(),
        ) == spec_json_body(fields, i),
    decreases i,
{
    if i > 0 {
        lemma_json_body_suffix_step(fields, i - 1);
        lemma_json_body_suffix(fields, i - 1);
        let b0 = spec_json_body(fields, 0);
        let bp = spec_json_body(fields, i - 1);
        let bi = spec_json_body(fields, i);
        assert(b0.skip(b0.len() - bp.len()) == bp);
        assert(bp.skip(bp.len() - bi.len()) == bi);
        assert(b0.skip(b0.len() - bi.len()) =~= bp.skip(bp.len() - bi.len()));
    }
}

/// One step: the body from `i + 1` is a suffix of the body from `i`.
proof fn lemma_json_body_suffix_step(fields: Seq<(Seq<char>, Seq<char>)>, i: int)
    requires
        0 <= i < fields.len(),
    ensures
        spec_json_body(fields, i + 1).len() <= spec_json_body(fields, i).len(),
        spec_json_body(fields, i).skip(
            spec_json_body(fields, i).len() - spec_json_body(fields, i + 1).len(),
        ) == spec_json_body(fields, i + 1),
{
    let bi = spec_json_body(fields, i);
    let bn = spec_json_body(fields, i + 1);
    let piece = (if i == 0 {
        Seq::<char>::empty()
    } else {
        seq![',']
    }) + seq!['\n', ' ', ' '] + json_str(fields[i].0) + seq![':', ' '] + fields[i].1;
    assert(bi == piece + bn);
    assert(bi.skip(bi.len() - bn.len()) =~= bn);
}

/// The output text: for plain format the templated full version or
/// one field's text; for JSON a pretty object holding the requested
/// field, or every non-empty field plus the `full` composite.
pub fn format_version(
    field: &Option<Field>,
    version: &Version,
    output_format: &Format,
    output_template: &str,
) -> (r: String)
    ensures
        r@ == spec_format_version(*field, version@, *output_format, output_template@),
{
    let pat: Vec<char> = vec!['{', 'v', 'e', 'r', 's', 'i', 'o', 'n', '}'];
    proof {
        assert(pat@ =~= pat_version());
    }
    match output_format {
        Format::Plain => match field {
            None => {
                let tpl = chars_vec(output_template);
                let rendered = chars_vec(version.render().as_str());
                let full = replace_all_exec(&tpl, &pat, &rendered);
                string_of(&full)
            },
            Some(f) => match f {
                Field::Major => string_of(&dec_chars(version.major)),
                Field::Minor => string_of(&dec_chars(version.minor)),
                Field::Patch => string_of(&dec_chars(version.patch)),
                Field::Pre => version.pre.clone(),
                Field::Build => version.build.clone(),
            },
        },
        Format::Json => {
            let mut fields: Vec<(Vec<char>, Vec<char>)> = Vec::new();
            match field {
                Some(f) => {
                    let key: Vec<char> = match f {
                        Field::Major => vec!['m', 'a', 'j', 'o', 'r'],
                        Field::Minor => vec!['m', 'i', 'n', 'o', 'r'],
                        Field::Patch => vec!['p', 'a', 't', 'c', 'h'],
                        Field::Pre => vec!['p', 'r', 'e'],
                        Field::Build => vec!['b', 'u', 'i', 'l', 'd'],
                    };
                    proof {
                        reveal_strlit("major");
                        reveal_strlit("minor");
                        reveal_strlit("patch");
                        reveal_strlit("pre");
                        reveal_strlit("build");
                        assert(key@ =~= spec_field_key(*f));
                    }
                    let val: Vec<char> = match f {
                        Field::Major => dec_chars(version.major),
                        Field::Minor => dec_chars(version.minor),
                        Field::Patch => dec_chars(version.patch),
                        Field::Pre => json_str_exec(&chars_vec(version.pre.as_str())),
                        Field::Build => json_str_exec(&chars_vec(version.build.as_str())),
                    };
                    fields.push((key, val));
                    let out = json_pretty_exec(&fields);
                    proof {
                        let view = Seq::new(
                            fields@.len(),
                            |i: int| (fields@[i].0@, fields@[i].1@),
                        );
                        assert(view =~= seq![(spec_field_key(*f), spec_field_json(*f, version@))]);
                    }
                    string_of(&out)
                },
                None => {
                    let tpl = chars_vec(output_template);
                    let rendered = chars_vec(version.render().as_str());
                    let full = replace_all_exec(&tpl, &pat, &rendered);
                    let build_cs = chars_vec(version.build.as_str());
                    let pre_cs = chars_vec(version.pre.as_str());
                    if build_cs.len() > 0 {
                        fields.push((vec!['b', 'u', 'i', 'l', 'd'], json_str_exec(&build_cs)));
                    }
                    fields.push((vec!['f', 'u', 'l', 'l'], json_str_exec(&full)));
                    fields.push((vec!['m', 'a', 'j', 'o', 'r'], dec_chars(version.major)));
                    fields.push((vec!['m', 'i', 'n', 'o', 'r'], dec_chars(version.minor)));
                    fields.push((vec!['p', 'a', 't', 'c', 'h'], dec_chars(version.patch)));
                    if pre_cs.len() > 0 {
                        fields.push((vec!['p', 'r', 'e'], json_str_exec(&pre_cs)));
                    }
                    let out = json_pretty_exec(&fields);
                    proof {
                        reveal_strlit("build");
                        reveal_strlit("full");
                        reveal_strlit("major");
                        reveal_strlit("minor");
                        reveal_strlit("patch");
                        reveal_strlit("pre");
                        let view = Seq::new(
                            fields@.len(),
                            |i: int| (fields@[i].0@, fields@[i].1@),
                        );
                        assert(view =~~= spec_full_fields(version@, output_template@));
                    }
                    string_of(&out)
                },
            }
        },
    }
}

} // verus!
