//! Key filters compiled once from pattern strings: `re:<regex>`, a wildcard with `*`, or an exact key.
use vstd::prelude::*;
use vstd::string::StrSliceExecFns;
use crate::glob::{glob_match, glob_matches};
use crate::text::{chars_of, chars_eq, contains_char, starts_with_chars};

verus! {

#[verifier::external_type_specification]
#[verifier::external_body]
pub struct ExRegex(regex::Regex);

/// Whether the regex crate accepts `pattern` as a regular expression.
pub uninterp spec fn regex_compiles(pattern: Seq<char>) -> bool;

/// Whether the regular expression `pattern` matches somewhere in `text`.
pub uninterp spec fn regex_accepts(pattern: Seq<char>, text: Seq<char>) -> bool;

/// A regular expression compiled from a known source text.
pub struct CompiledRegex {
    source: String,
    re: regex::Regex,
}

impl CompiledRegex {
    /// The source text the expression was compiled from.
    pub closed spec fn source(&self) -> Seq<char> {
        self.source@
    }
}

/// Relies on regex::Regex::new: whether compiling succeeds depends on the pattern alone.
/// The error text is the crate's own description of the failure.
#[verifier::external_body]
fn compile_regex(source: String) -> (r: Result<CompiledRegex, String>)
    ensures
        r is Ok <==> regex_compiles(source@),
        r is Ok ==> r->Ok_0.source() == source@,
{
    match regex::Regex::new(&source) {
        Ok(re) => Ok(CompiledRegex { source, re }),
        Err(e) => Err(e.to_string()),
    }
}

/// Relies on regex::Regex::is_match: whether the expression matches somewhere in the text.
/// A `CompiledRegex` is built only by `compile_regex`, so its expression is the one compiled
/// from `source()`.
#[verifier::external_body]
fn regex_is_match(r: &CompiledRegex, text: &str) -> (b: bool)
    ensures
        b == regex_accepts(r.source(), text@),
{
    r.re.is_match(text)
}

/// How one pattern string is read.
pub ghost enum PatternModel {
    Exact(Seq<char>),
    Wildcard(Seq<char>),
    Regex(Seq<char>),
}

/// The prefix that marks a regular expression.
pub open spec fn regex_marker() -> Seq<char> {
    seq!['r', 'e', ':']
}

/// A pattern string is a regular expression after `re:`, else a wildcard if it holds `*`,
/// else an exact key.
pub open spec fn classify(s: Seq<char>) -> PatternModel {
    if s.len() >= 3 && s.subrange(0, 3) == regex_marker() {
        PatternModel::Regex(s.subrange(3, s.len() as int))
    } else if s.contains('*') {
        PatternModel::Wildcard(s)
    } else {
        PatternModel::Exact(s)
    }
}

/// Whether a pattern compiles.
pub open spec fn pattern_compiles(p: PatternModel) -> bool {
    match p {
        PatternModel::Regex(src) => regex_compiles(src),
        _ => true,
    }
}

/// Whether one pattern selects the key.
pub open spec fn pattern_matches(p: PatternModel, key: Seq<char>) -> bool {
    match p {
        PatternModel::Exact(e) => key == e,
        PatternModel::Wildcard(g) => glob_match(g, key),
        PatternModel::Regex(src) => regex_accepts(src, key),
    }
}

/// A filter selects a key when any of its patterns does; with no patterns it selects none.
pub open spec fn filter_matches(ps: Seq<PatternModel>, key: Seq<char>) -> bool {
    exists|i: int| 0 <= i < ps.len() && pattern_matches(ps[i], key)
}

/// The patterns that a list of pattern strings reads as.
pub open spec fn classify_all(v: Seq<String>) -> Seq<PatternModel> {
    v.map_values(|s: String| classify(s@))
}

/// A filter built from no patterns selects no key.
pub proof fn lemma_empty_filter_selects_nothing(key: Seq<char>)
    ensures
        classify_all(Seq::<String>::empty()) == Seq::<PatternModel>::empty(),
        !filter_matches(classify_all(Seq::<String>::empty()), key),
{
    assert(classify_all(Seq::<String>::empty()) =~= Seq::<PatternModel>::empty());
}

/// One compiled pattern.
pub enum FilterPattern {
    Exact(Vec<char>),
    Wildcard(Vec<char>),
    Regex(CompiledRegex),
}

impl View for FilterPattern {
    type V = PatternModel;

    open spec fn view(&self) -> PatternModel {
        match self {
            FilterPattern::Exact(e) => PatternModel::Exact(e@),
            FilterPattern::Wildcard(g) => PatternModel::Wildcard(g@),
            FilterPattern::Regex(r) => PatternModel::Regex(r.source()),
        }
    }
}

/// Why a list of patterns could not be compiled.
#[derive(Debug, PartialEq, Eq)]
pub enum FilterError {
    InvalidRegex { pattern: String, message: String },
}

/// Compiles one pattern string.
pub fn compile_pattern(s: &String) -> (r: Result<FilterPattern, String>)
    ensures
        r is Ok <==> pattern_compiles(classify(s@)),
        r is Ok ==> r->Ok_0@ == classify(s@),
{
    let cs = chars_of(s.as_str());
    let marker: Vec<char> = vec!['r', 'e', ':'];
    proof {
        assert(marker@ =~= regex_marker());
    }
    if starts_with_chars(&cs, &marker) {
        let rest = s.as_str().substring_char(3, cs.len());
        match compile_regex(rest.to_owned()) {
            Ok(re) => Ok(FilterPattern::Regex(re)),
            Err(message) => Err(message),
        }
    } else if contains_char(&cs, '*') {
        Ok(FilterPattern::Wildcard(cs))
    } else {
        Ok(FilterPattern::Exact(cs))
    }
}

/// A matcher over storage keys, built once from pattern strings.
pub struct StorageFilter {
    patterns: Vec<FilterPattern>,
}

impl View for StorageFilter {
    type V = Seq<PatternModel>;

    closed spec fn view(&self) -> Seq<PatternModel> {
        self.patterns@.map_values(|p: FilterPattern| p@)
    }
}

impl StorageFilter {
    /// Compiles all patterns, or fails on the first regular expression that does not compile.
    pub fn new(patterns: &Vec<String>) -> (r: Result<StorageFilter, FilterError>)
        ensures
            match r {
                Ok(f) => {
                    &&& forall|i: int| 0 <= i < patterns@.len()
                        ==> #[trigger] pattern_compiles(classify(patterns@[i]@))
                    &&& f@ == classify_all(patterns@)
                },
                Err(FilterError::InvalidRegex { pattern, message }) => exists|i: int|
                    0 <= i < patterns@.len() && !pattern_compiles(classify(patterns@[i]@))
                        && pattern@ == patterns@[i]@ && forall|j: int|
                        0 <= j < i ==> #[trigger] pattern_compiles(classify(patterns@[j]@)),
            },
    {
        let mut out: Vec<FilterPattern> = Vec::new();
        let mut i: usize = 0;
        while i < patterns.len()
            invariant
                i <= patterns.len(),
                out@.len() == i,
                forall|j: int| 0 <= j < i ==> #[trigger] pattern_compiles(classify(patterns@[j]@)),
                forall|j: int| 0 <= j < i ==> #[trigger] out@[j]@ == classify(patterns@[j]@),
            decreases patterns.len() - i,
        {
            match compile_pattern(&patterns[i]) {
                Ok(p) => {
                    out.push(p);
                },
                Err(message) => {
                    return Err(FilterError::InvalidRegex { pattern: patterns[i].clone(), message });
                },
            }
            i = i + 1;
        }
        let f = StorageFilter { patterns: out };
        assert(f@ =~= classify_all(patterns@));
        Ok(f)
    }

    /// The filter that selects nothing.
    pub fn empty() -> (r: StorageFilter)
        ensures
            r@ == Seq::<PatternModel>::empty(),
    {
        let f = StorageFilter { patterns: Vec::new() };
        assert(f@ =~= Seq::<PatternModel>::empty());
        f
    }

    /// Number of patterns.
    pub fn len(&self) -> (r: usize)
        ensures
            r == self@.len(),
    {
        self.patterns.len()
    }

    /// Whether any pattern selects the key.
    pub fn matches(&self, key: &str) -> (r: bool)
        ensures
            r == filter_matches(self@, key@),
    {
        let cs = chars_of(key);
        let mut i: usize = 0;
        while i < self.patterns.len()
            invariant
                i <= self.patterns@.len(),
                cs@ == key@,
                forall|j: int| 0 <= j < i ==> !pattern_matches(#[trigger] self@[j], key@),
            decreases self.patterns.len() - i,
        {
            let hit = match &self.patterns[i] {
                FilterPattern::Exact(e) => chars_eq(e, &cs),
                FilterPattern::Wildcard(g) => glob_matches(g, &cs),
                FilterPattern::Regex(re) => regex_is_match(re, key),
            };
            if hit {
                assert(pattern_matches(self@[i as int], key@));
                return true;
            }
            i = i + 1;
        }
        false
    }
}

} // verus!
