use vstd::prelude::*;

use crate::text::str_eq;

verus! {

// ---------------------------------------------------------------------------
// Include/exclude rules over glob patterns. Whether a pattern is valid and
// whether it matches a path are the outside matcher's decisions; both depend
// on the pattern and path text alone, so they carry names that the trusted
// wrappers tie the calls to.
// ---------------------------------------------------------------------------

/// Whether the outside matcher accepts this pattern text: it parses as a
/// glob and its matcher compiles within the matcher's internal size cap.
/// Both checks depend on the pattern text alone, per compilation target
/// (the matcher's escaping rules differ across targets, which is fixed
/// within any one build).
pub uninterp spec fn glob_ok(pattern: Seq<char>) -> bool;

/// Whether this glob pattern matches this path; a function of the two
/// texts alone, per compilation target.
pub uninterp spec fn glob_match(pattern: Seq<char>, path: Seq<char>) -> bool;

/// Relies on `globset::Glob::new` and `globset::GlobSetBuilder::build`: the
/// pattern parses and its matcher compiles. `Glob::new` alone does not
/// compile the matcher, and compilation has its own size cap, so both must
/// succeed before the pattern may be matched against anything.
#[verifier::external_body]
fn glob_syntax_ok(pattern: &str) -> (r: bool)
    ensures
        r == glob_ok(pattern@),
{
    match globset::Glob::new(pattern) {
        Ok(g) => {
            let mut b = globset::GlobSetBuilder::new();
            b.add(g);
            b.build().is_ok()
        },
        Err(_) => false,
    }
}

/// Relies on `globset::Glob::new`, `globset::GlobSetBuilder::build` and
/// `globset::GlobSet::is_match`: whether the pattern matches the path
/// depends on the two texts alone. Every failure path returns instead of
/// panicking; `glob_ok` rules the failures out.
#[verifier::external_body]
fn glob_match_path(pattern: &str, path: &str) -> (r: bool)
    requires
        glob_ok(pattern@),
    ensures
        r == glob_match(pattern@, path@),
{
    match globset::Glob::new(pattern) {
        Ok(g) => {
            let mut b = globset::GlobSetBuilder::new();
            b.add(g);
            match b.build() {
                Ok(set) => set.is_match(path),
                Err(_) => false,
            }
        },
        Err(_) => false,
    }
}

// ---------------------------------------------------------------------------
// Building the rules.
// ---------------------------------------------------------------------------

/// Whether a raw pattern is an exclusion (it starts with the negation
/// marker).
pub open spec fn spec_is_exclude(p: Seq<char>) -> bool {
    p.len() > 0 && p[0] == '!'
}

/// A raw pattern with the negation marker stripped, if it has one.
pub open spec fn spec_stripped(p: Seq<char>) -> Seq<char> {
    if spec_is_exclude(p) {
        p.drop_first()
    } else {
        p
    }
}

/// The include patterns of a raw pattern list.
pub open spec fn spec_includes_of(ps: Seq<Seq<char>>) -> Seq<Seq<char>> {
    ps.filter(|p: Seq<char>| !spec_is_exclude(p))
}

/// The exclude patterns of a raw pattern list, markers stripped, without
/// the built-in exclusion.
pub open spec fn spec_excludes_of(ps: Seq<Seq<char>>) -> Seq<Seq<char>> {
    ps.filter(|p: Seq<char>| spec_is_exclude(p)).map_values(|p: Seq<char>| p.drop_first())
}

/// Every raw pattern is a valid glob once its marker is stripped, and so
/// are the built-in patterns the builder adds: the exclusion for the
/// generator's own sources, and the match-everything include that stands in
/// for an empty pattern list.
pub open spec fn spec_patterns_ok(ps: Seq<Seq<char>>) -> bool {
    (forall|i: int| 0 <= i < ps.len() ==> glob_ok(spec_stripped(#[trigger] ps[i]))) && glob_ok(
        "route_codegen/src/**"@,
    ) && (ps.len() == 0 ==> glob_ok("**"@))
}

/// The include patterns the rules end up holding: those of the raw list,
/// or the match-everything pattern when the raw list is empty. A non-empty
/// list of exclusions only therefore includes nothing.
pub open spec fn spec_effective_includes(ps: Seq<Seq<char>>) -> Seq<Seq<char>> {
    if ps.len() == 0 {
        seq!["**"@]
    } else {
        spec_includes_of(ps)
    }
}

/// Compiled include/exclude rules: include patterns, and exclude patterns
/// with the built-in exclusion appended.
pub struct ScanRules {
    pub includes: Vec<String>,
    pub excludes: Vec<String>,
}

/// The rules hold valid patterns only.
pub open spec fn rules_wf(r: ScanRules) -> bool {
    (forall|i: int| 0 <= i < r.includes@.len() ==> glob_ok(#[trigger] r.includes@[i]@)) && (forall|
        j: int,
    | 0 <= j < r.excludes@.len() ==> glob_ok(#[trigger] r.excludes@[j]@))
}

/// Whether some pattern of the list matches the path.
pub open spec fn spec_matches_any(pats: Seq<Seq<char>>, path: Seq<char>) -> bool {
    exists|i: int| 0 <= i < pats.len() && glob_match(#[trigger] pats[i], path)
}

/// Whether the rules admit a path: some include pattern matches it and no
/// exclude pattern does. An empty raw pattern list stands for "match every
/// source file" through the match-everything include the builder installs.
pub open spec fn spec_should_include(
    includes: Seq<Seq<char>>,
    excludes: Seq<Seq<char>>,
    path: Seq<char>,
) -> bool {
    spec_matches_any(includes, path) && !spec_matches_any(excludes, path)
}

/// Checks whether the first character of a string is the negation marker.
fn is_exclude_pattern(p: &str) -> (r: bool)
    ensures
        r == spec_is_exclude(p@),
{
    let len = p.unicode_len();
    if len == 0 {
        false
    } else {
        p.get_char(0) == '!'
    }
}

/// Compiles a raw pattern list into scan rules: the includes (or the
/// match-everything include when the list is empty) and the excludes with
/// the built-in exclusion for the generator's own sources appended. Fails
/// with the first invalid pattern; succeeds exactly when every pattern is a
/// valid glob.
pub fn build_scan_rules(patterns: &Vec<String>) -> (r: Result<ScanRules, String>)
    ensures
        r is Ok <==> spec_patterns_ok(patterns.deep_view()),
        (match r {
            Ok(rules) => rules.includes.deep_view() == spec_effective_includes(
                patterns.deep_view(),
            ) && rules.excludes.deep_view() == spec_excludes_of(patterns.deep_view()).push(
                "route_codegen/src/**"@,
            ) && rules_wf(rules),
            Err(p) => !glob_ok(spec_stripped(p@)) && (exists|i: int|
                0 <= i < patterns.deep_view().len() && p@ == #[trigger] patterns.deep_view()[i])
                || (p@ == "route_codegen/src/**"@ && !glob_ok("route_codegen/src/**"@)) || (p@
                == "**"@ && !glob_ok("**"@)),
        }),
{
    let ghost psd = patterns.deep_view();
    let ghost incpred = |p: Seq<char>| !spec_is_exclude(p);
    let ghost excpred = |p: Seq<char>| spec_is_exclude(p);
    let ghost stripf = |p: Seq<char>| p.drop_first();
    let mut includes: Vec<String> = Vec::new();
    let mut excludes: Vec<String> = Vec::new();
    let mut i: usize = 0;
    proof {
        reveal(Seq::filter);
        assert(psd.take(0) =~= Seq::<Seq<char>>::empty());
        assert(includes.deep_view() =~= psd.take(0).filter(incpred));
        assert(excludes.deep_view() =~= psd.take(0).filter(excpred).map_values(stripf));
    }
    while i < patterns.len()
        invariant
            i <= patterns.len(),
            psd == patterns.deep_view(),
            psd.len() == patterns.len(),
            incpred == (|p: Seq<char>| !spec_is_exclude(p)),
            excpred == (|p: Seq<char>| spec_is_exclude(p)),
            stripf == (|p: Seq<char>| p.drop_first()),
            includes.deep_view() == psd.take(i as int).filter(incpred),
            excludes.deep_view() == psd.take(i as int).filter(excpred).map_values(stripf),
            forall|k: int| 0 <= k < i ==> glob_ok(spec_stripped(#[trigger] psd[k])),
        decreases patterns.len() - i,
    {
        let p = &patterns[i];
        let ghost pv = psd[i as int];
        proof {
            assert(pv == patterns@[i as int]@);
        }
        let excluded = is_exclude_pattern(p.as_str());
        let stripped = if excluded {
            p.as_str().substring_char(1, p.unicode_len())
        } else {
            p.as_str().substring_char(0, p.unicode_len())
        };
        proof {
            if excluded {
                assert(stripped@ =~= pv.drop_first());
            } else {
                assert(stripped@ =~= pv);
            }
            assert(stripped@ == spec_stripped(pv));
        }
        if !glob_syntax_ok(stripped) {
            return Err(p.clone());
        }
        let ghost preinc = includes.deep_view();
        let ghost preexc = excludes.deep_view();
        if excluded {
            excludes.push(String::from_str(stripped));
        } else {
            includes.push(String::from_str(stripped));
        }
        proof {
            reveal(Seq::filter);
            assert(psd.take(i + 1).drop_last() =~= psd.take(i as int));
            assert(psd.take(i + 1).last() == pv);
            assert(psd.take(i + 1).filter(incpred) == if incpred(pv) {
                psd.take(i as int).filter(incpred).push(pv)
            } else {
                psd.take(i as int).filter(incpred)
            });
            assert(psd.take(i + 1).filter(excpred) == if excpred(pv) {
                psd.take(i as int).filter(excpred).push(pv)
            } else {
                psd.take(i as int).filter(excpred)
            });
            if excluded {
                assert(excludes.deep_view() =~= preexc.push(pv.drop_first()));
                assert(psd.take(i + 1).filter(excpred).map_values(stripf) =~= psd.take(
                    i as int,
                ).filter(excpred).map_values(stripf).push(stripf(pv)));
                assert(includes.deep_view() == psd.take(i + 1).filter(incpred));
            } else {
                assert(includes.deep_view() =~= preinc.push(pv));
                assert(excludes.deep_view() == psd.take(i + 1).filter(excpred).map_values(stripf));
            }
        }
        i = i + 1;
    }
    proof {
        assert(psd.take(psd.len() as int) =~= psd);
    }
    if !glob_syntax_ok("route_codegen/src/**") {
        return Err(String::from_str("route_codegen/src/**"));
    }
    if patterns.len() == 0 {
        if !glob_syntax_ok("**") {
            return Err(String::from_str("**"));
        }
        proof {
            assert(includes.deep_view().len() == 0);
        }
        includes.push(String::from_str("**"));
        proof {
            assert(includes.deep_view() =~= seq!["**"@]);
        }
    }
    let ghost preexc = excludes.deep_view();
    excludes.push(String::from_str("route_codegen/src/**"));
    let rules = ScanRules { includes, excludes };
    proof {
        assert(rules.excludes.deep_view() =~= preexc.push("route_codegen/src/**"@));
        assert forall|j: int| 0 <= j < rules.excludes@.len() implies glob_ok(
            #[trigger] rules.excludes@[j]@,
        ) by {
            assert(rules.excludes.deep_view()[j] == rules.excludes@[j]@);
            if j < preexc.len() {
                let ghost ex = psd.filter(|p: Seq<char>| spec_is_exclude(p));
                assert(preexc[j] == ex.map_values(|p: Seq<char>| p.drop_first())[j]);
                let p0 = ex[j];
                crate::text::lemma_filter_elems(psd, |p: Seq<char>| spec_is_exclude(p), j);
                let k = choose|k: int| 0 <= k < psd.len() && psd[k] == p0;
                assert(glob_ok(spec_stripped(psd[k])));
                assert(spec_stripped(p0) == p0.drop_first());
            }
        }
        assert forall|j: int| 0 <= j < rules.includes@.len() implies glob_ok(
            #[trigger] rules.includes@[j]@,
        ) by {
            assert(rules.includes.deep_view()[j] == rules.includes@[j]@);
            if psd.len() == 0 {
                assert(rules.includes.deep_view()[j] == "**"@);
            } else {
                let ghost inc = psd.filter(|p: Seq<char>| !spec_is_exclude(p));
                let p0 = inc[j];
                crate::text::lemma_filter_elems(psd, |p: Seq<char>| !spec_is_exclude(p), j);
                let k = choose|k: int| 0 <= k < psd.len() && psd[k] == p0;
                assert(glob_ok(spec_stripped(psd[k])));
                assert(spec_stripped(p0) == p0);
            }
        }
    }
    Ok(rules)
}

/// Decides whether some pattern of the list matches the path.
fn matches_any(pats: &Vec<String>, path: &str) -> (r: bool)
    requires
        forall|i: int| 0 <= i < pats@.len() ==> glob_ok(#[trigger] pats@[i]@),
    ensures
        r == spec_matches_any(pats.deep_view(), path@),
{
    let mut i: usize = 0;
    while i < pats.len()
        invariant
            i <= pats.len(),
            forall|k: int| 0 <= k < pats@.len() ==> glob_ok(#[trigger] pats@[k]@),
            forall|k: int| 0 <= k < i ==> !glob_match(#[trigger] pats.deep_view()[k], path@),
        decreases pats.len() - i,
    {
        proof {
            assert(pats.deep_view()[i as int] == pats@[i as int]@);
        }
        if glob_match_path(pats[i].as_str(), path) {
            return true;
        }
        i = i + 1;
    }
    false
}

impl ScanRules {
    /// Decides whether the rules admit a path.
    pub fn should_include(&self, path: &str) -> (r: bool)
        requires
            rules_wf(*self),
        ensures
            r == spec_should_include(self.includes.deep_view(), self.excludes.deep_view(), path@),
    {
        let inc = matches_any(&self.includes, path);
        let exc = matches_any(&self.excludes, path);
        inc && !exc
    }
}

// ---------------------------------------------------------------------------
// Per-file classification.
// ---------------------------------------------------------------------------

/// The per-file size ceiling: larger candidates are never parsed.
pub const MAX_FILE_SIZE: u64 = 10 * 1024 * 1024;

/// What the scanner does with one candidate file.
#[derive(Debug, PartialEq, Eq, Structural)]
pub enum FileDecision {
    /// Not a source file, the bootstrap entry file, or excluded by rules.
    Skip,
    /// Admitted by the rules but over the size ceiling: never parsed.
    TooLarge,
    /// Admitted: read and parse it.
    Scan,
}

/// Whether a file name carries the source extension.
pub open spec fn spec_is_rs(name: Seq<char>) -> bool {
    name.len() > 3 && name.skip(name.len() - 3) == ".rs"@
}

/// A file's base name: the name with the source extension removed.
pub open spec fn spec_stem(name: Seq<char>) -> Seq<char> {
    if spec_is_rs(name) {
        name.take(name.len() - 3)
    } else {
        name
    }
}

/// What the scanner does with a candidate: skip it when it is not a source
/// file, when it is the bootstrap entry file, or when the rules exclude it;
/// report it oversized when it passes the rules but exceeds the ceiling;
/// scan it otherwise.
pub open spec fn spec_classify(
    includes: Seq<Seq<char>>,
    excludes: Seq<Seq<char>>,
    rel_path: Seq<char>,
    file_name: Seq<char>,
    size: u64,
) -> FileDecision {
    if !spec_is_rs(file_name) {
        FileDecision::Skip
    } else if file_name == "main.rs"@ {
        FileDecision::Skip
    } else if !spec_should_include(includes, excludes, rel_path) {
        FileDecision::Skip
    } else if size > MAX_FILE_SIZE {
        FileDecision::TooLarge
    } else {
        FileDecision::Scan
    }
}

/// Checks whether a file name carries the source extension.
pub fn has_rs_extension(name: &str) -> (r: bool)
    ensures
        r == spec_is_rs(name@),
{
    let len = name.unicode_len();
    if len <= 3 {
        proof {
            reveal_strlit(".rs");
        }
        return false;
    }
    let c1 = name.get_char(len - 3);
    let c2 = name.get_char(len - 2);
    let c3 = name.get_char(len - 1);
    proof {
        reveal_strlit(".rs");
        assert(".rs"@.len() == 3);
        if c1 == '.' && c2 == 'r' && c3 == 's' {
            assert(name@.skip(name@.len() - 3) =~= ".rs"@);
        } else {
            if name@.skip(name@.len() - 3) == ".rs"@ {
                assert(name@.skip(name@.len() - 3)[0] == name@[name@.len() - 3]);
                assert(name@.skip(name@.len() - 3)[1] == name@[name@.len() - 2]);
                assert(name@.skip(name@.len() - 3)[2] == name@[name@.len() - 1]);
            }
        }
    }
    c1 == '.' && c2 == 'r' && c3 == 's'
}

/// The base name of a source file name.
pub fn file_stem(name: &str) -> (r: String)
    ensures
        r@ == spec_stem(name@),
{
    let len = name.unicode_len();
    if has_rs_extension(name) {
        let s = name.substring_char(0, len - 3);
        String::from_str(s)
    } else {
        String::from_str(name)
    }
}

impl ScanRules {
    /// Classifies one candidate file.
    pub fn classify(&self, rel_path: &str, file_name: &str, size: u64) -> (r: FileDecision)
        requires
            rules_wf(*self),
        ensures
            r == spec_classify(
                self.includes.deep_view(),
                self.excludes.deep_view(),
                rel_path@,
                file_name@,
                size,
            ),
    {
        if !has_rs_extension(file_name) {
            FileDecision::Skip
        } else if str_eq(file_name, "main.rs") {
            FileDecision::Skip
        } else if !self.should_include(rel_path) {
            FileDecision::Skip
        } else if size > MAX_FILE_SIZE {
            FileDecision::TooLarge
        } else {
            FileDecision::Scan
        }
    }
}

} // verus!
