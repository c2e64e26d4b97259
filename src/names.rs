use vstd::prelude::*;

verus! {

/// Whether the glob pattern text compiles, as decided by `glob::Pattern::new`.
pub uninterp spec fn glob_compiles(pattern: Seq<char>) -> bool;

/// Whether a compiled glob pattern matches a name, as decided by
/// `glob::Pattern::matches`.
pub uninterp spec fn glob_match(pattern: Seq<char>, name: Seq<char>) -> bool;

/// Relies on glob::Pattern::new: it returns `Ok` exactly when the pattern
/// text compiles.
#[verifier::external_body]
fn glob_is_valid(pattern: &str) -> (r: bool)
    ensures
        r == glob_compiles(pattern@),
{
    glob::Pattern::new(pattern).is_ok()
}

/// Relies on glob::Pattern::matches, on the pattern that glob::Pattern::new
/// compiles from the text (with the default, case-sensitive options).
#[verifier::external_body]
fn glob_matches(pattern: &str, name: &str) -> (r: bool)
    requires
        glob_compiles(pattern@),
    ensures
        r == glob_match(pattern@, name@),
{
    glob::Pattern::new(pattern).map_or(false, |p| p.matches(name))
}

/// An exclusion pattern over base names. A pattern text that does not
/// compile becomes `AlwaysFalse`, a matcher that matches nothing.
pub enum ExclusionPattern {
    Compiled(String),
    AlwaysFalse,
}

/// A base name is excluded by the pattern texts `ps` when one of them
/// compiles and matches it.
pub open spec fn name_excluded(ps: Seq<Seq<char>>, name: Seq<char>) -> bool {
    exists|i: int| 0 <= i < ps.len() && glob_compiles(#[trigger] ps[i]) && glob_match(ps[i], name)
}

/// A base name is excluded by compiled patterns when one of them matches it.
pub open spec fn excluded_by(patterns: Seq<ExclusionPattern>, name: Seq<char>) -> bool {
    exists|i: int| 0 <= i < patterns.len() && (#[trigger] patterns[i]).spec_matches(name)
}

impl ExclusionPattern {
    /// A compiled pattern holds a text that compiles.
    pub open spec fn wf(&self) -> bool {
        match self {
            ExclusionPattern::Compiled(s) => glob_compiles(s@),
            ExclusionPattern::AlwaysFalse => true,
        }
    }

    pub open spec fn spec_matches(&self, name: Seq<char>) -> bool {
        match self {
            ExclusionPattern::Compiled(s) => glob_match(s@, name),
            ExclusionPattern::AlwaysFalse => false,
        }
    }

    /// Compiles a pattern text; one that does not compile degrades to
    /// `AlwaysFalse`.
    pub fn compile(pattern: &str) -> (r: ExclusionPattern)
        ensures
            r.wf(),
            r is Compiled <==> glob_compiles(pattern@),
            r matches ExclusionPattern::Compiled(s) ==> s@ == pattern@,
            forall|name: Seq<char>| r.spec_matches(name) == (glob_compiles(pattern@) && glob_match(pattern@, name)),
    {
        if glob_is_valid(pattern) {
            ExclusionPattern::Compiled(pattern.to_string())
        } else {
            ExclusionPattern::AlwaysFalse
        }
    }

    /// Whether the pattern text compiled; `false` is worth a warning.
    pub fn is_compiled(&self) -> (r: bool)
        ensures
            r == self is Compiled,
    {
        match self {
            ExclusionPattern::Compiled(_) => true,
            ExclusionPattern::AlwaysFalse => false,
        }
    }

    /// Whether this pattern matches the base name `name`.
    pub fn matches(&self, name: &str) -> (r: bool)
        requires
            self.wf(),
        ensures
            r == self.spec_matches(name@),
    {
        match self {
            ExclusionPattern::Compiled(s) => glob_matches(s.as_str(), name),
            ExclusionPattern::AlwaysFalse => false,
        }
    }
}

/// Compiles every pattern text, in order.
pub fn compile_patterns(patterns: &Vec<String>) -> (r: Vec<ExclusionPattern>)
    ensures
        r.len() == patterns.len(),
        forall|i: int| 0 <= i < r.len() ==> (#[trigger] r[i]).wf(),
        forall|i: int| 0 <= i < r.len() ==> ((#[trigger] r[i]) is Compiled <==> glob_compiles(patterns[i]@)),
        forall|name: Seq<char>| #[trigger] excluded_by(r@, name) == name_excluded(patterns.deep_view(), name),
{
    let mut r: Vec<ExclusionPattern> = Vec::new();
    let mut i: usize = 0;
    while i < patterns.len()
        invariant
            i <= patterns.len(),
            r.len() == i,
            forall|k: int| 0 <= k < i ==> (#[trigger] r[k]).wf(),
            forall|k: int| 0 <= k < i ==> ((#[trigger] r[k]) is Compiled <==> glob_compiles(patterns[k]@)),
            forall|k: int| 0 <= k < i ==> ((#[trigger] r[k]) matches ExclusionPattern::Compiled(s) ==> s@ == patterns[k]@),
        decreases patterns.len() - i,
    {
        r.push(ExclusionPattern::compile(patterns[i].as_str()));
        i = i + 1;
    }
    assert forall|name: Seq<char>| #[trigger] excluded_by(r@, name) == name_excluded(patterns.deep_view(), name) by {
        if excluded_by(r@, name) {
            let k = choose|k: int| 0 <= k < r.len() && (#[trigger] r@[k]).spec_matches(name);
            assert(patterns.deep_view()[k] == patterns[k]@);
        }
        if name_excluded(patterns.deep_view(), name) {
            let k = choose|k: int| 0 <= k < patterns.deep_view().len() && glob_compiles(#[trigger] patterns.deep_view()[k]) && glob_match(patterns.deep_view()[k], name);
            assert(patterns.deep_view()[k] == patterns[k]@);
            assert(r@[k].spec_matches(name));
        }
    }
    r
}

/// Whether any of `patterns` matches the base name `name`.
pub fn is_excluded(name: &str, patterns: &Vec<ExclusionPattern>) -> (r: bool)
    requires
        forall|i: int| 0 <= i < patterns.len() ==> (#[trigger] patterns[i]).wf(),
    ensures
        r == excluded_by(patterns@, name@),
{
    let mut i: usize = 0;
    while i < patterns.len()
        invariant
            i <= patterns.len(),
            forall|k: int| 0 <= k < patterns.len() ==> (#[trigger] patterns[k]).wf(),
            forall|k: int| 0 <= k < i ==> !(#[trigger] patterns@[k]).spec_matches(name@),
        decreases patterns.len() - i,
    {
        if patterns[i].matches(name) {
            assert(patterns@[i as int].spec_matches(name@));
            return true;
        }
        i = i + 1;
    }
    false
}

/// With no patterns, no name is excluded.
pub proof fn lemma_no_patterns_exclude_nothing(name: Seq<char>)
    ensures
        !name_excluded(Seq::<Seq<char>>::empty(), name),
{
}

/// A pattern text that does not compile never excludes a name: adding it to
/// any pattern list changes no decision.
pub proof fn lemma_invalid_pattern_matches_nothing(ps: Seq<Seq<char>>, p: Seq<char>, name: Seq<char>)
    requires
        !glob_compiles(p),
    ensures
        name_excluded(ps.push(p), name) == name_excluded(ps, name),
{
    if name_excluded(ps.push(p), name) {
        let k = choose|k: int| 0 <= k < ps.push(p).len() && glob_compiles(#[trigger] ps.push(p)[k]) && glob_match(ps.push(p)[k], name);
        assert(k < ps.len());
        assert(ps.push(p)[k] == ps[k]);
    }
    if name_excluded(ps, name) {
        let k = choose|k: int| 0 <= k < ps.len() && glob_compiles(#[trigger] ps[k]) && glob_match(ps[k], name);
        assert(ps.push(p)[k] == ps[k]);
    }
}

} // verus!
