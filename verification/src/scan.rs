//! The tag scanner and version selector: filter tag names with a
//! user-supplied regular expression, extract the version embedded in
//! each matching name, and pick the highest by precedence — the zero
//! version when nothing matches.  Also re-derives the exact tag name a
//! selected version came from, for the distance walk.

use vstd::prelude::*;

use crate::errors::EngineError;
use crate::extract::extract_version;
use crate::extract::spec_extract_version;
use crate::order::cmp_version;
use crate::order::compare_versions;
use crate::order::lemma_cmp_version_flip;
use crate::order::lemma_cmp_version_trans;
use crate::version::Version;
use crate::version::VersionView;

verus! {

#[verifier::external_type_specification]
#[verifier::external_body]
pub struct ExRegex(regex::Regex);

#[verifier::external_type_specification]
#[verifier::external_body]
pub struct ExRegexError(regex::Error);

/// Whether the regex crate accepts this pattern text.
pub uninterp spec fn regex_compiles(pattern: Seq<char>) -> bool;

/// Whether the pattern, compiled as a regular expression, matches
/// somewhere in the text.
pub uninterp spec fn filter_matches(pattern: Seq<char>, text: Seq<char>) -> bool;

/// A compiled tag filter: the pattern text together with its compiled
/// regular expression.
pub struct TagFilter {
    pattern: String,
    regex: regex::Regex,
}

impl View for TagFilter {
    type V = Seq<char>;

    closed spec fn view(&self) -> Seq<char> {
        self.pattern@
    }
}

/// Relies on `regex::Regex::new`: whether a pattern compiles is a
/// function of the pattern text alone.
#[verifier::external_body]
fn compile_filter(pattern: &str) -> (r: Result<regex::Regex, regex::Error>)
    ensures
        r is Ok <==> regex_compiles(pattern@),
{
    regex::Regex::new(pattern)
}

/// Relies on `regex::Regex::is_match`: whether a compiled pattern
/// matches anywhere in the text is a function of the pattern and the
/// text alone.  The `regex` field is always the compilation of
/// `pattern`: `TagFilter::new` is the only constructor.
#[verifier::external_body]
fn regex_matches(filter: &TagFilter, text: &str) -> (r: bool)
    ensures
        r == filter_matches(filter@, text@),
{
    filter.regex.is_match(text)
}

impl TagFilter {
    /// Compiles a filter pattern; an unusable pattern is the fatal
    /// `InvalidTagFilter` error.
    pub fn new(pattern: &str) -> (r: Result<TagFilter, EngineError>)
        ensures
            r is Ok <==> regex_compiles(pattern@),
            r is Ok ==> r->Ok_0@ == pattern@,
            r is Err ==> r->Err_0 == EngineError::InvalidTagFilter,
    {
        match compile_filter(pattern) {
            Ok(re) => Ok(TagFilter { pattern: pattern.to_owned(), regex: re }),
            Err(_) => Err(EngineError::InvalidTagFilter),
        }
    }

    /// The pattern text this filter was compiled from.
    pub fn pattern_text(&self) -> (r: &str)
        ensures
            r@ == self@,
    {
        self.pattern.as_str()
    }
}

/// The version a tag contributes to selection: the one embedded in its
/// name, provided the name matches the filter.
pub open spec fn tag_candidate(pattern: Seq<char>, tag: Seq<char>) -> Option<VersionView> {
    if filter_matches(pattern, tag) {
        spec_extract_version(tag)
    } else {
        None
    }
}

/// The current version: the highest-precedence version embedded in any
/// tag name that matches the filter, or `0.0.0` with empty pre-release
/// and build when no tag contributes one.
pub fn current_version(tags: &Vec<String>, filter: &TagFilter) -> (v: Version)
    ensures
        v@.wf(),
        (forall|i: int|
            0 <= i < tags@.len() ==> tag_candidate(filter@, #[trigger] tags@[i]@) is None) ==> v@
            == VersionView::zero(),
        (exists|i: int|
            0 <= i < tags@.len() && tag_candidate(filter@, #[trigger] tags@[i]@) is Some) ==> {
            &&& exists|i: int|
                0 <= i < tags@.len() && tag_candidate(filter@, #[trigger] tags@[i]@) == Some(v@)
            &&& forall|i: int|
                0 <= i < tags@.len() && tag_candidate(filter@, #[trigger] tags@[i]@) is Some
                    ==> cmp_version(tag_candidate(filter@, tags@[i]@)->Some_0, v@) <= 0
        },
{
    let mut best: Option<Version> = None;
    let mut idx: usize = 0;
    while idx < tags.len()
        invariant
            idx <= tags@.len(),
            match best {
                None => forall|t: int|
                    0 <= t < idx ==> tag_candidate(filter@, #[trigger] tags@[t]@) is None,
                Some(b) => {
                    &&& b@.wf()
                    &&& exists|t: int|
                        0 <= t < idx && tag_candidate(filter@, #[trigger] tags@[t]@) == Some(b@)
                    &&& forall|t: int|
                        0 <= t < idx && tag_candidate(filter@, #[trigger] tags@[t]@) is Some
                            ==> cmp_version(tag_candidate(filter@, tags@[t]@)->Some_0, b@) <= 0
                },
            },
        decreases tags@.len() - idx,
    {
        let tag = &tags[idx];
        proof {
            assert(tag@ == tags@[idx as int]@);
        }
        if regex_matches(filter, tag.as_str()) {
            match extract_version(tag.as_str()) {
                Some(cand) => {
                    match &best {
                        None => {
                            proof {
                                lemma_cmp_version_flip(cand@, cand@);
                            }
                            best = Some(cand);
                        },
                        Some(b) => {
                            let ghost old_b = b@;
                            if compare_versions(b, &cand) < 0 {
                                proof {
                                    lemma_cmp_version_flip(cand@, cand@);
                                    assert forall|t: int|
                                        0 <= t < idx + 1 && tag_candidate(
                                            filter@,
                                            #[trigger] tags@[t]@,
                                        ) is Some implies cmp_version(
                                        tag_candidate(filter@, tags@[t]@)->Some_0,
                                        cand@,
                                    ) <= 0 by {
                                        if t < idx {
                                            lemma_cmp_version_trans(
                                                tag_candidate(filter@, tags@[t]@)->Some_0,
                                                old_b,
                                                cand@,
                                            );
                                        }
                                    }
                                }
                                best = Some(cand);
                            } else {
                                proof {
                                    lemma_cmp_version_flip(old_b, cand@);
                                }
                            }
                        },
                    }
                },
                None => {},
            }
        }
        idx = idx + 1;
    }
    match best {
        Some(b) => b,
        None => Version::zero(),
    }
}

/// The tag name that a selected version came from, re-derived by exact
/// name lookup: the tag whose whole name is the filter pattern text
/// followed by the rendered version, returned with the `refs/tags/`
/// prefix.  `None` when no tag name equals that search term.
pub fn find_tag_name_matching_version(
    tags: &Vec<String>,
    filter: &TagFilter,
    version_string: &str,
) -> (r: Option<String>)
    ensures
        ({
            let search = filter@ + version_string@;
            match r {
                Some(name) => (exists|i: int| 0 <= i < tags@.len() && #[trigger] tags@[i]@ == search)
                    && name@ == "refs/tags/"@ + search,
                None => forall|i: int| 0 <= i < tags@.len() ==> #[trigger] tags@[i]@ != search,
            }
        }),
{
    let mut search = filter.pattern.clone();
    search.append(version_string);
    let mut i: usize = 0;
    while i < tags.len()
        invariant
            i <= tags@.len(),
            search@ == filter@ + version_string@,
            forall|t: int| 0 <= t < i ==> #[trigger] tags@[t]@ != search@,
        decreases tags@.len() - i,
    {
        if tags[i] == search {
            let name = String::from_str("refs/tags/").concat(search.as_str());
            return Some(name);
        }
        i = i + 1;
    }
    None
}

} // verus!
