//! Matching rules for selecting source files by served-directory-relative path.

use vstd::prelude::*;

use crate::text::{chars_of, has_prefix, push_str, string_of};

verus! {

/// What `globset::Glob::new` reports for `pattern`: `None` when the pattern
/// compiles, else the text of its error.
pub uninterp spec fn glob_error(pattern: Seq<char>) -> Option<Seq<char>>;

/// Whether the glob `pattern`, compiled with `globset`'s default options,
/// matches `path`.
pub uninterp spec fn glob_matches(pattern: Seq<char>, path: Seq<char>) -> bool;

/// Calls `globset::Glob::new` on `pattern`. The contract claims that the call
/// is a function of the pattern alone (named `glob_error`) and that the error
/// text is the `Display` of the error it returns; which patterns compile is left
/// to `globset`.
#[verifier::external_body]
fn glob_check(pattern: &str) -> (r: Result<(), String>)
    ensures
        match r {
            Ok(()) => glob_error(pattern@) is None,
            Err(message) => glob_error(pattern@) == Some(message@),
        },
{
    match globset::Glob::new(pattern) {
        Ok(_) => Ok(()),
        Err(error) => Err(error.to_string()),
    }
}

/// `globset::GlobSet`, declared so that patterns can hold compiled sets.
#[verifier::external_type_specification]
#[verifier::external_body]
pub struct ExGlobSet(globset::GlobSet);

/// `globset::GlobSetBuilder`, declared so that a set can be built glob by glob.
#[verifier::external_type_specification]
#[verifier::external_body]
pub struct ExGlobSetBuilder(globset::GlobSetBuilder);

/// The patterns of the globs a `globset::GlobSet` was built from, in order.
pub uninterp spec fn glob_set_globs(set: globset::GlobSet) -> Seq<Seq<char>>;

/// The patterns of the globs added to a `globset::GlobSetBuilder`, in order.
pub uninterp spec fn builder_globs(builder: globset::GlobSetBuilder) -> Seq<Seq<char>>;

/// What `globset::GlobSetBuilder::build` reports for a builder holding the
/// globs of `patterns`: `None` when it builds the set, else the text of its
/// error (such as a regular expression over its size limit).
pub uninterp spec fn glob_set_error(patterns: Seq<Seq<char>>) -> Option<Seq<char>>;

/// Calls `globset::GlobSetBuilder::new`: a builder with no globs.
#[verifier::external_body]
fn new_builder() -> (r: globset::GlobSetBuilder)
    ensures
        builder_globs(r) == Seq::<Seq<char>>::empty(),
{
    globset::GlobSetBuilder::new()
}

/// Calls `globset::GlobSetBuilder::add` with the glob that `globset::Glob::new`
/// makes of `pattern`, which `requires` says it accepts: the builder then
/// holds that glob after the others.
#[verifier::external_body]
fn add_glob(builder: &mut globset::GlobSetBuilder, pattern: &str)
    requires
        glob_error(pattern@) is None,
    ensures
        builder_globs(*final(builder)) == builder_globs(*old(builder)).push(pattern@),
{
    if let Ok(glob) = globset::Glob::new(pattern) {
        builder.add(glob);
    }
}

/// Calls `globset::GlobSetBuilder::build`. The contract claims that its
/// verdict is a function of the globs held (named `glob_set_error`), that the
/// error text is the `Display` of its error, and that the set holds the
/// builder's globs.
#[verifier::external_body]
fn build_from(builder: &globset::GlobSetBuilder) -> (r: Result<globset::GlobSet, String>)
    ensures
        match r {
            Ok(set) => glob_set_error(builder_globs(*builder)) is None && glob_set_globs(set)
                == builder_globs(*builder),
            Err(message) => glob_set_error(builder_globs(*builder)) == Some(message@),
        },
        builder_globs(*builder).len() == 0 ==> r is Ok,
{
    builder.build().map_err(|error| error.to_string())
}

/// Calls `globset::GlobSet::empty`: a set of no globs.
#[verifier::external_body]
fn empty_set() -> (r: globset::GlobSet)
    ensures
        glob_set_globs(r) == Seq::<Seq<char>>::empty(),
{
    globset::GlobSet::empty()
}

/// Calls `globset::GlobSet::is_match`, which its documentation says is true
/// exactly when some glob of the set matches the path.
#[verifier::external_body]
fn set_matches(set: &globset::GlobSet, path: &str) -> (r: bool)
    ensures
        r == (exists|i: int|
            0 <= i < glob_set_globs(*set).len() && glob_matches(#[trigger] glob_set_globs(*set)[i], path@)),
{
    set.is_match(path)
}

/// The error for an empty pattern.
pub open spec fn empty_pattern_message() -> Seq<char> {
    "pattern must not be empty"@
}

/// The error for a lone `!`.
pub open spec fn empty_exclusion_message() -> Seq<char> {
    "exclusion pattern must follow !"@
}

/// How a command-line pattern splits into its glob and whether it excludes.
pub open spec fn split_pattern_spec(pattern: Seq<char>) -> Result<(Seq<char>, bool), Seq<char>> {
    if pattern.len() == 0 {
        Err(empty_pattern_message())
    } else if pattern[0] == '!' {
        if pattern.len() == 1 {
            Err(empty_exclusion_message())
        } else {
            Ok((pattern.drop_first(), true))
        }
    } else {
        Ok((pattern, false))
    }
}

/// A character that makes a pattern a glob rather than a plain path.
pub open spec fn is_glob_meta(c: char) -> bool {
    c == '*' || c == '?' || c == '[' || c == '{'
}

/// Whether the pattern holds no glob meta character.
pub open spec fn is_plain(pattern: Seq<char>) -> bool {
    forall|i: int| 0 <= i < pattern.len() ==> !is_glob_meta(#[trigger] pattern[i])
}

/// The suffix that lets a plain directory pattern match what lies below it.
pub open spec fn descendants_suffix() -> Seq<char> {
    seq!['/', '*', '*']
}

/// The globs a pattern stands for: itself, and for a plain path also
/// everything below it.
pub open spec fn glob_variants_spec(pattern: Seq<char>) -> Seq<Seq<char>> {
    if is_plain(pattern) {
        seq![pattern, pattern + descendants_suffix()]
    } else {
        seq![pattern]
    }
}

/// The first error among `globs`, in order.
pub open spec fn first_glob_error(globs: Seq<Seq<char>>) -> Option<Seq<char>>
    decreases globs.len(),
{
    if globs.len() == 0 {
        None
    } else if glob_error(globs[0]) is Some {
        glob_error(globs[0])
    } else {
        first_glob_error(globs.drop_first())
    }
}

/// The error, if any, that a command-line pattern is rejected with.
pub open spec fn pattern_error(pattern: Seq<char>) -> Option<Seq<char>> {
    match split_pattern_spec(pattern) {
        Err(message) => Some(message),
        Ok((glob, _)) => first_glob_error(glob_variants_spec(glob)),
    }
}

/// Splits a raw pattern into its glob and whether it is an exclusion.
pub fn split_pattern(pattern: &str) -> (r: Result<(String, bool), String>)
    ensures
        match (r, split_pattern_spec(pattern@)) {
            (Ok((glob, excluded)), Ok((g, e))) => glob@ == g && excluded == e,
            (Err(message), Err(m)) => message@ == m,
            _ => false,
        },
{
    let cs = chars_of(pattern);
    if cs.len() == 0 {
        return Err(String::from_str("pattern must not be empty"));
    }
    if cs[0] == '!' {
        if cs.len() == 1 {
            return Err(String::from_str("exclusion pattern must follow !"));
        }
        let mut rest: Vec<char> = Vec::new();
        let mut i: usize = 1;
        while i < cs.len()
            invariant
                1 <= i <= cs.len(),
                rest@ == cs@.subrange(1, i as int),
            decreases cs.len() - i,
        {
            rest.push(cs[i]);
            i = i + 1;
            assert(rest@ =~= cs@.subrange(1, i as int));
        }
        assert(rest@ =~= cs@.drop_first());
        Ok((string_of(&rest), true))
    } else {
        Ok((string_of(&cs), false))
    }
}

fn has_glob_meta(cs: &Vec<char>) -> (r: bool)
    ensures
        r == !is_plain(cs@),
{
    let mut i: usize = 0;
    while i < cs.len()
        invariant
            i <= cs.len(),
            forall|j: int| 0 <= j < i ==> !is_glob_meta(#[trigger] cs@[j]),
        decreases cs.len() - i,
    {
        let c = cs[i];
        if c == '*' || c == '?' || c == '[' || c == '{' {
            assert(is_glob_meta(cs@[i as int]));
            return true;
        }
        i = i + 1;
    }
    false
}

/// The globs that `pattern` stands for, each checked to compile; the first
/// that does not compile gives the error.
pub fn glob_variants(pattern: &str) -> (r: Result<Vec<String>, String>)
    ensures
        match r {
            Ok(globs) => {
                &&& first_glob_error(glob_variants_spec(pattern@)) is None
                &&& globs@.map_values(|g: String| g@) == glob_variants_spec(pattern@)
            },
            Err(message) => first_glob_error(glob_variants_spec(pattern@)) == Some(message@),
        },
{
    let cs = chars_of(pattern);
    let ghost vs = glob_variants_spec(pattern@);
    assert(vs[0] == pattern@);
    match glob_check(pattern) {
        Err(message) => {
            return Err(message);
        },
        Ok(()) => {},
    }
    assert(first_glob_error(vs) == first_glob_error(vs.drop_first()));
    let mut globs: Vec<String> = Vec::new();
    globs.push(string_of(&cs));
    if !has_glob_meta(&cs) {
        let mut below = cs.clone();
        push_str(&mut below, "/**");
        proof {
            reveal_strlit("/**");
            assert(below@ =~= pattern@ + descendants_suffix());
            assert(vs.drop_first() =~= seq![pattern@ + descendants_suffix()]);
            assert(vs.drop_first().drop_first() =~= Seq::<Seq<char>>::empty());
        }
        let below_string = string_of(&below);
        match glob_check(below_string.as_str()) {
            Err(message) => {
                return Err(message);
            },
            Ok(()) => {},
        }
        globs.push(below_string);
        assert(first_glob_error(vs.drop_first().drop_first()) is None);
        assert(first_glob_error(vs.drop_first()) is None);
    } else {
        assert(vs.drop_first() =~= Seq::<Seq<char>>::empty());
        assert(first_glob_error(vs.drop_first()) is None);
    }
    assert(globs@.map_values(|g: String| g@) =~= vs);
    Ok(globs)
}

/// Validates one command-line source pattern, handing it back unchanged.
pub fn validate_pattern(pattern: &str) -> (r: Result<String, String>)
    ensures
        match r {
            Ok(p) => pattern_error(pattern@) is None && p@ == pattern@,
            Err(message) => pattern_error(pattern@) == Some(message@),
        },
{
    match split_pattern(pattern) {
        Err(message) => Err(message),
        Ok((glob, _)) => match glob_variants(glob.as_str()) {
            Err(message) => Err(message),
            Ok(_) => Ok(String::from_str(pattern)),
        },
    }
}

/// The plain-value view of compiled source patterns.
pub struct PatternsView {
    pub includes: Seq<Seq<char>>,
    pub excludes: Seq<Seq<char>>,
    pub has_includes: bool,
}

/// Compiled include and exclude globs.
pub struct SourcePatterns {
    includes: globset::GlobSet,
    excludes: globset::GlobSet,
    has_includes: bool,
}

/// The globs that the patterns from index `i` on contribute, for the excluding
/// side when `excluded` holds and else for the including side.
pub open spec fn compiled_globs(patterns: Seq<Seq<char>>, excluded: bool) -> Seq<Seq<char>>
    decreases patterns.len(),
{
    if patterns.len() == 0 {
        seq![]
    } else {
        let rest = compiled_globs(patterns.drop_first(), excluded);
        match split_pattern_spec(patterns[0]) {
            Ok((glob, e)) => if e == excluded {
                glob_variants_spec(glob) + rest
            } else {
                rest
            },
            Err(_) => rest,
        }
    }
}

/// The first error among `patterns`, in order.
pub open spec fn first_pattern_error(patterns: Seq<Seq<char>>) -> Option<Seq<char>>
    decreases patterns.len(),
{
    if patterns.len() == 0 {
        None
    } else if pattern_error(patterns[0]) is Some {
        pattern_error(patterns[0])
    } else {
        first_pattern_error(patterns.drop_first())
    }
}

/// Why command-line patterns do not compile: the first pattern that is
/// rejected, else the set of include globs that cannot be built, else the
/// set of exclude globs that cannot be built.
pub open spec fn patterns_error(patterns: Seq<Seq<char>>) -> Option<Seq<char>> {
    match first_pattern_error(patterns) {
        Some(e) => Some(e),
        None => match glob_set_error(compiled_globs(patterns, false)) {
            Some(e) => Some(e),
            None => glob_set_error(compiled_globs(patterns, true)),
        },
    }
}

/// Whether some pattern includes rather than excludes.
pub open spec fn some_include(patterns: Seq<Seq<char>>) -> bool {
    exists|i: int|
        0 <= i < patterns.len() && (#[trigger] split_pattern_spec(patterns[i])) matches Ok(
            (_, false),
        )
}

/// Whether some glob of `globs` matches `path`.
pub open spec fn any_glob_matches(globs: Seq<Seq<char>>, path: Seq<char>) -> bool {
    exists|i: int| 0 <= i < globs.len() && glob_matches(#[trigger] globs[i], path)
}

/// Whether compiled patterns select `path`.
pub open spec fn selects(p: PatternsView, path: Seq<char>) -> bool {
    (!p.has_includes || any_glob_matches(p.includes, path)) && !any_glob_matches(p.excludes, path)
}

impl View for SourcePatterns {
    type V = PatternsView;

    closed spec fn view(&self) -> PatternsView {
        PatternsView {
            includes: glob_set_globs(self.includes),
            excludes: glob_set_globs(self.excludes),
            has_includes: self.has_includes,
        }
    }
}

/// Every glob of `globs` compiles.
pub open spec fn all_compile(globs: Seq<Seq<char>>) -> bool {
    forall|i: int| 0 <= i < globs.len() ==> glob_error(#[trigger] globs[i]) is None
}

proof fn lemma_first_error_none(globs: Seq<Seq<char>>)
    requires
        first_glob_error(globs) is None,
    ensures
        all_compile(globs),
    decreases globs.len(),
{
    if globs.len() > 0 {
        lemma_first_error_none(globs.drop_first());
        assert forall|i: int| 0 <= i < globs.len() implies glob_error(#[trigger] globs[i]) is None by {
            if i > 0 {
                assert(globs[i] == globs.drop_first()[i - 1]);
            }
        }
    }
}

proof fn lemma_compiled_globs_compile(patterns: Seq<Seq<char>>, excluded: bool)
    requires
        first_pattern_error(patterns) is None,
    ensures
        all_compile(compiled_globs(patterns, excluded)),
    decreases patterns.len(),
{
    if patterns.len() > 0 {
        lemma_compiled_globs_compile(patterns.drop_first(), excluded);
        let rest = compiled_globs(patterns.drop_first(), excluded);
        if let Ok((glob, e)) = split_pattern_spec(patterns[0]) {
            if e == excluded {
                lemma_first_error_none(glob_variants_spec(glob));
                let all = glob_variants_spec(glob) + rest;
                assert forall|i: int| 0 <= i < all.len() implies glob_error(
                    #[trigger] all[i],
                ) is None by {
                    if i >= glob_variants_spec(glob).len() {
                        assert(all[i] == rest[i - glob_variants_spec(glob).len()]);
                    }
                }
            }
        }
    }
}

impl SourcePatterns {
    /// Every glob held compiles.
    pub open spec fn well_formed(&self) -> bool {
        &&& all_compile(self@.includes)
        &&& all_compile(self@.excludes)
    }

    /// Patterns that select every path.
    pub fn all() -> (r: Self)
        ensures
            r.well_formed(),
            !r@.has_includes,
            r@.excludes.len() == 0,
            forall|path: Seq<char>| selects(r@, path),
    {
        SourcePatterns { includes: empty_set(), excludes: empty_set(), has_includes: false }
    }

    /// Compiles command-line patterns, in order; the first pattern that is
    /// rejected gives the error.
    pub fn compile(patterns: &Vec<String>) -> (r: Result<Self, String>)
        ensures
            match r {
                Ok(p) => {
                    let raw = patterns@.map_values(|s: String| s@);
                    &&& patterns_error(raw) is None
                    &&& p.well_formed()
                    &&& p@.includes == compiled_globs(raw, false)
                    &&& p@.excludes == compiled_globs(raw, true)
                    &&& p@.has_includes == some_include(raw)
                },
                Err(message) => patterns_error(patterns@.map_values(|s: String| s@)) == Some(
                    message@,
                ),
            },
            patterns.len() == 0 ==> r is Ok,
    {
        let ghost raw = patterns@.map_values(|s: String| s@);
        let mut n: usize = patterns.len();
        let mut includes: Vec<String> = Vec::new();
        let mut excludes: Vec<String> = Vec::new();
        let mut has_includes = false;
        // Walk from the back so that each step prepends the globs of one pattern.
        while n > 0
            invariant
                n <= patterns.len(),
                raw == patterns@.map_values(|s: String| s@),
                first_pattern_error(raw.skip(n as int)) is None,
                includes@.map_values(|g: String| g@) == compiled_globs(raw.skip(n as int), false),
                excludes@.map_values(|g: String| g@) == compiled_globs(raw.skip(n as int), true),
                has_includes == some_include(raw.skip(n as int)),
            decreases n,
        {
            n = n - 1;
            let ghost tail = raw.skip(n + 1);
            assert(raw.skip(n as int).drop_first() =~= tail);
            assert(raw.skip(n as int)[0] == patterns@[n as int]@);
            match split_pattern(patterns[n].as_str()) {
                Err(message) => {
                    return Err(Self::first_error_from(patterns, n, message));
                },
                Ok((glob, excluded)) => {
                    match glob_variants(glob.as_str()) {
                        Err(message) => {
                            return Err(Self::first_error_from(patterns, n, message));
                        },
                        Ok(globs) => {
                            if excluded {
                                excludes = Self::prepend(globs, excludes);
                            } else {
                                includes = Self::prepend(globs, includes);
                                has_includes = true;
                            }
                            proof {
                                let here = raw.skip(n as int);
                                assert(here[0] == raw[n as int]);
                                if !excluded {
                                    assert(split_pattern_spec(here[0]) matches Ok((_, false)));
                                    assert(some_include(here));
                                } else {
                                    assert(some_include(here) == some_include(tail)) by {
                                        if some_include(here) {
                                            let i = choose|i: int|
                                                0 <= i < here.len() && (#[trigger] split_pattern_spec(
                                                    here[i],
                                                )) matches Ok((_, false));
                                            assert(i != 0);
                                            assert(here[i] == tail[i - 1]);
                                        }
                                        if some_include(tail) {
                                            let i = choose|i: int|
                                                0 <= i < tail.len() && (#[trigger] split_pattern_spec(
                                                    tail[i],
                                                )) matches Ok((_, false));
                                            assert(tail[i] == here[i + 1]);
                                        }
                                    }
                                }
                                if !excluded {
                                    assert(some_include(tail) ==> some_include(here)) by {
                                        if some_include(tail) {
                                            let i = choose|i: int|
                                                0 <= i < tail.len() && (#[trigger] split_pattern_spec(
                                                    tail[i],
                                                )) matches Ok((_, false));
                                            assert(tail[i] == here[i + 1]);
                                        }
                                    }
                                }
                            }
                        },
                    }
                },
            }
        }
        assert(raw.skip(0) =~= raw);
        proof {
            lemma_compiled_globs_compile(raw, false);
            lemma_compiled_globs_compile(raw, true);
        }
        let include_set = match Self::build_set(&includes) {
            Ok(set) => set,
            Err(message) => return Err(message),
        };
        let exclude_set = match Self::build_set(&excludes) {
            Ok(set) => set,
            Err(message) => return Err(message),
        };
        Ok(SourcePatterns { includes: include_set, excludes: exclude_set, has_includes })
    }

    /// Builds a set of globs that each compile.
    fn build_set(globs: &Vec<String>) -> (r: Result<globset::GlobSet, String>)
        requires
            all_compile(globs@.map_values(|g: String| g@)),
        ensures
            match r {
                Ok(set) => glob_set_error(globs@.map_values(|g: String| g@)) is None
                    && glob_set_globs(set) == globs@.map_values(|g: String| g@),
                Err(message) => glob_set_error(globs@.map_values(|g: String| g@)) == Some(
                    message@,
                ),
            },
            globs.len() == 0 ==> r is Ok,
    {
        let ghost views = globs@.map_values(|g: String| g@);
        let mut builder = new_builder();
        let mut i: usize = 0;
        while i < globs.len()
            invariant
                i <= globs.len(),
                views == globs@.map_values(|g: String| g@),
                all_compile(views),
                builder_globs(builder) == views.take(i as int),
            decreases globs.len() - i,
        {
            assert(views[i as int] == globs@[i as int]@);
            add_glob(&mut builder, globs[i].as_str());
            assert(views.take(i + 1) =~= views.take(i as int).push(views[i as int]));
            i = i + 1;
        }
        assert(views.take(i as int) =~= views);
        build_from(&builder)
    }

    /// The first error of the whole list, given that the pattern at `n` is the
    /// first one rejected and `message` is its error.
    fn first_error_from(patterns: &Vec<String>, n: usize, message: String) -> (r: String)
        requires
            n < patterns.len(),
            first_pattern_error(patterns@.map_values(|s: String| s@).skip(n + 1)) is None,
            pattern_error(patterns@[n as int]@) == Some(message@),
        ensures
            first_pattern_error(patterns@.map_values(|s: String| s@)) == Some(r@),
    {
        let mut k: usize = 0;
        while k < n
            invariant
                k <= n < patterns.len(),
                forall|j: int| 0 <= j < k ==> pattern_error(#[trigger] patterns@[j]@) is None,
            decreases n - k,
        {
            match validate_pattern(patterns[k].as_str()) {
                Ok(_) => {},
                Err(earlier) => {
                    proof {
                        Self::lemma_first_error_at(patterns@.map_values(|s: String| s@), k as int);
                    }
                    return earlier;
                },
            }
            k = k + 1;
        }
        proof {
            Self::lemma_first_error_at(patterns@.map_values(|s: String| s@), n as int);
        }
        message
    }

    proof fn lemma_first_error_at(raw: Seq<Seq<char>>, k: int)
        requires
            0 <= k < raw.len(),
            forall|j: int| 0 <= j < k ==> pattern_error(#[trigger] raw[j]) is None,
            pattern_error(raw[k]) is Some,
        ensures
            first_pattern_error(raw) == pattern_error(raw[k]),
        decreases k,
    {
        if k > 0 {
            Self::lemma_first_error_at(raw.drop_first(), k - 1);
        }
    }

    fn prepend(front: Vec<String>, back: Vec<String>) -> (r: Vec<String>)
        ensures
            r@.map_values(|g: String| g@) == front@.map_values(|g: String| g@) + back@.map_values(
                |g: String| g@,
            ),
    {
        let mut r = front;
        let mut back = back;
        let ghost f = r@.map_values(|g: String| g@);
        let ghost b = back@.map_values(|g: String| g@);
        r.append(&mut back);
        assert(r@.map_values(|g: String| g@) =~= f + b);
        r
    }

    /// Whether these patterns select `path`: it matches an include glob, or
    /// there is no include pattern, and it matches no exclude glob.
    pub fn matches(&self, path: &str) -> (r: bool)
        requires
            self.well_formed(),
        ensures
            r == selects(self@, path@),
    {
        let included = !self.has_includes || set_matches(&self.includes, path);
        included && !set_matches(&self.excludes, path)
    }
}

} // verus!
