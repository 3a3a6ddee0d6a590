//! Classification and extraction heuristics: architecture inference,
//! version extraction, package identity, continuous-release detection,
//! asset filtering, and deduplication.
use vstd::prelude::*;
use crate::model::{
    asset_views, entity_views, opt_view, AppImageRelease, Arch, Asset, AssetV, ReleaseV,
};
use crate::text::{
    char_is_digit, find_char_exec, find_char_from, has_substring, is_ascii_digit, lower,
    lower_char, lower_str, spec_ends_with, spec_starts_with, str_contains, str_contains_lower,
    str_ends_with, str_eq, str_starts_with,
};
use crate::timestamp::{published_ts, spec_published_ts, ts_lt};

verus! {

// ---------------------------------------------------------------------------
// Architecture inference
// ---------------------------------------------------------------------------

/// The filename carries a token of the x86 family.
pub open spec fn has_x86_token(s: Seq<char>) -> bool {
    ||| has_substring(s, "x86_64"@)
    ||| has_substring(s, "x86-64"@)
    ||| has_substring(s, "amd64"@)
    ||| has_substring(s, "64bit"@)
    ||| has_substring(s, "x64"@)
    ||| has_substring(s, "x86"@)
}

/// The filename carries a token of the arm64 family.
pub open spec fn has_arm_token(s: Seq<char>) -> bool {
    ||| has_substring(s, "aarch64"@)
    ||| has_substring(s, "arm64"@)
    ||| has_substring(s, "ARM64"@)
}

/// The architecture a filename is classified as: the x86 family takes
/// precedence, then the arm64 family, else unknown.
pub open spec fn arch_of(s: Seq<char>) -> Option<Seq<char>> {
    if has_x86_token(s) {
        Some("x86_64"@)
    } else if has_arm_token(s) {
        Some("aarch64"@)
    } else {
        None
    }
}

/// Classifies a filename by its architecture token (runtime form of
/// `arch_of`).
pub fn extract_architecture(filename: &str) -> (r: Option<String>)
    ensures
        match r {
            Some(a) => arch_of(filename@) == Some(a@),
            None => arch_of(filename@) is None,
        },
{
    if str_contains(filename, "x86_64") || str_contains(filename, "x86-64")
        || str_contains(filename, "amd64") || str_contains(filename, "64bit")
        || str_contains(filename, "x64") || str_contains(filename, "x86") {
        Some(String::from_str("x86_64"))
    } else if str_contains(filename, "aarch64") || str_contains(filename, "arm64")
        || str_contains(filename, "ARM64") {
        Some(String::from_str("aarch64"))
    } else {
        None
    }
}

/// A filename with an x86 family token is classified `x86_64`; one with
/// an arm64 family token and no x86 token is classified `aarch64`; the
/// x86 family takes precedence when both appear; one with neither is
/// left unclassified.
pub proof fn lemma_architecture_tokens(s: Seq<char>)
    ensures
        has_x86_token(s) ==> arch_of(s) == Some("x86_64"@),
        !has_x86_token(s) && has_arm_token(s) ==> arch_of(s) == Some("aarch64"@),
        !has_x86_token(s) && !has_arm_token(s) ==> arch_of(s) is None,
{
}

// ---------------------------------------------------------------------------
// Version extraction
// ---------------------------------------------------------------------------

/// End of the maximal run of digits starting at `i`.
pub open spec fn digit_run_end(s: Seq<char>, i: int) -> int
    decreases s.len() - i when 0 <= i <= s.len()
{
    if i < s.len() && is_ascii_digit(s[i]) {
        digit_run_end(s, i + 1)
    } else {
        i
    }
}

pub proof fn lemma_digit_run_end(s: Seq<char>, i: int)
    requires
        0 <= i <= s.len(),
    ensures
        i <= digit_run_end(s, i) <= s.len(),
        forall|j: int| i <= j < digit_run_end(s, i) ==> is_ascii_digit(#[trigger] s[j]),
        digit_run_end(s, i) < s.len() ==> !is_ascii_digit(s[digit_run_end(s, i)]),
    decreases s.len() - i
{
    if i < s.len() && is_ascii_digit(s[i]) {
        lemma_digit_run_end(s, i + 1);
    }
}

/// A strict version match (digits, dot, digits, dot, digits) begins at `i`.
pub open spec fn match3_at(s: Seq<char>, i: int) -> bool {
    0 <= i < s.len() && is_ascii_digit(s[i]) && {
        let a = digit_run_end(s, i);
        a < s.len() && s[a] == '.' && a + 1 < s.len() && is_ascii_digit(s[a + 1]) && {
            let b = digit_run_end(s, a + 1);
            b < s.len() && s[b] == '.' && b + 1 < s.len() && is_ascii_digit(s[b + 1])
        }
    }
}

/// The normalized four-group version read off a strict match at `i`:
/// the three matched groups, the optional fourth, `0` standing in when
/// the fourth is absent.
pub open spec fn version_at(s: Seq<char>, i: int) -> Seq<char> {
    let a = digit_run_end(s, i);
    let b = digit_run_end(s, a + 1);
    let c = digit_run_end(s, b + 1);
    let g4 = if c < s.len() && s[c] == '.' && c + 1 < s.len() && is_ascii_digit(s[c + 1]) {
        s.subrange(c + 1, digit_run_end(s, c + 1))
    } else {
        "0"@
    };
    s.subrange(i, a) + "."@ + s.subrange(a + 1, b) + "."@ + s.subrange(b + 1, c) + "."@ + g4
}

/// The leftmost strict version match at or after `i`.
pub open spec fn first_match3_from(s: Seq<char>, i: int) -> Option<int>
    decreases s.len() - i when 0 <= i <= s.len()
{
    if i >= s.len() {
        None
    } else if match3_at(s, i) {
        Some(i)
    } else {
        first_match3_from(s, i + 1)
    }
}

/// The normalized version a source string yields, when it matches.
pub open spec fn spec_version_of(s: Seq<char>) -> Option<Seq<char>> {
    match first_match3_from(s, 0) {
        Some(i) => Some(version_at(s, i)),
        None => None,
    }
}

/// The version of a release: the tag is consulted first, then the
/// filename; `1.0.0.0` stands in when neither matches.
pub open spec fn spec_version4(tag: Option<Seq<char>>, file: Option<Seq<char>>) -> Seq<char> {
    if tag is Some && spec_version_of(tag->0) is Some {
        spec_version_of(tag->0)->0
    } else if file is Some && spec_version_of(file->0) is Some {
        spec_version_of(file->0)->0
    } else {
        "1.0.0.0"@
    }
}

/// End of the maximal run of digits starting at `i` (runtime form of
/// `digit_run_end`).
pub fn digit_run_end_exec(s: &str, i: usize) -> (r: usize)
    requires
        i <= s@.len(),
    ensures
        r as int == digit_run_end(s@, i as int),
        i <= r <= s@.len(),
{
    let slen = s.unicode_len();
    let mut j = i;
    while j < slen && char_is_digit(s.get_char(j))
        invariant
            i <= j <= slen,
            slen == s@.len(),
            digit_run_end(s@, i as int) == digit_run_end(s@, j as int),
        decreases slen - j
    {
        j += 1;
    }
    proof {
        lemma_digit_run_end(s@, i as int);
    }
    j
}

/// A strict version match begins at `i` (runtime form of `match3_at`).
fn match3_at_exec(s: &str, i: usize) -> (r: bool)
    requires
        i < s@.len(),
    ensures
        r == match3_at(s@, i as int),
{
    let slen = s.unicode_len();
    if !char_is_digit(s.get_char(i)) {
        return false;
    }
    let a = digit_run_end_exec(s, i);
    if !(a < slen && s.get_char(a) == '.' && a + 1 < slen && char_is_digit(s.get_char(a + 1))) {
        return false;
    }
    let b = digit_run_end_exec(s, a + 1);
    b < slen && s.get_char(b) == '.' && b + 1 < slen && char_is_digit(s.get_char(b + 1))
}

/// Scans one source string for its leftmost strict version match and
/// renders the normalized four-group version.
fn find_version(s: &str) -> (r: Option<String>)
    ensures
        match r {
            Some(v) => spec_version_of(s@) == Some(v@),
            None => spec_version_of(s@) is None,
        },
{
    let slen = s.unicode_len();
    let mut i: usize = 0;
    while i < slen
        invariant
            i <= slen,
            slen == s@.len(),
            first_match3_from(s@, 0) == first_match3_from(s@, i as int),
        decreases slen - i
    {
        if match3_at_exec(s, i) {
            let a = digit_run_end_exec(s, i);
            let b = digit_run_end_exec(s, a + 1);
            let c = digit_run_end_exec(s, b + 1);
            let mut out = String::from_str(s.substring_char(i, a));
            out.append(".");
            out.append(s.substring_char(a + 1, b));
            out.append(".");
            out.append(s.substring_char(b + 1, c));
            out.append(".");
            if c < slen && s.get_char(c) == '.' && c + 1 < slen && char_is_digit(s.get_char(c + 1))
            {
                let d = digit_run_end_exec(s, c + 1);
                out.append(s.substring_char(c + 1, d));
            } else {
                out.append("0");
            }
            assert(out@ =~= version_at(s@, i as int));
            return Some(out);
        }
        i += 1;
    }
    None
}

/// Extracts the normalized four-group version, consulting the tag first,
/// then the filename, with `1.0.0.0` as the fallback.
pub fn extract_version_4digit(tag: Option<&str>, filename: Option<&str>) -> (r: String)
    ensures
        r@ == spec_version4(
            match tag {
                Some(t) => Some(t@),
                None => None,
            },
            match filename {
                Some(f) => Some(f@),
                None => None,
            },
        ),
{
    if let Some(t) = tag {
        if let Some(v) = find_version(t) {
            return v;
        }
    }
    if let Some(f) = filename {
        if let Some(v) = find_version(f) {
            return v;
        }
    }
    String::from_str("1.0.0.0")
}

/// The characters of `[i, j)` are all digits, and there is at least one.
pub open spec fn group_ok(v: Seq<char>, i: int, j: int) -> bool {
    i < j && forall|k: int| i <= k < j ==> is_ascii_digit(#[trigger] v[k])
}

/// A well-formed normalized version: exactly four non-empty all-digit
/// groups separated by three single dots.
pub open spec fn version_wf(v: Seq<char>) -> bool {
    exists|p: int, q: int, r: int|
        #![trigger v[p], v[q], v[r]]
        0 < p < q < r < v.len() && v[p] == '.' && v[q] == '.' && v[r] == '.' && group_ok(v, 0, p)
            && group_ok(v, p + 1, q) && group_ok(v, q + 1, r) && group_ok(v, r + 1, v.len() as int)
}

pub proof fn lemma_version_at_wf(s: Seq<char>, i: int)
    requires
        match3_at(s, i),
    ensures
        version_wf(version_at(s, i)),
{
    let a = digit_run_end(s, i);
    let b = digit_run_end(s, a + 1);
    let c = digit_run_end(s, b + 1);
    lemma_digit_run_end(s, i);
    lemma_digit_run_end(s, a + 1);
    lemma_digit_run_end(s, b + 1);
    let v = version_at(s, i);
    let p = a - i;
    let q = b - i;
    let r = c - i;
    reveal_strlit(".");
    reveal_strlit("0");
    let has4 = c < s.len() && s[c] == '.' && c + 1 < s.len() && is_ascii_digit(s[c + 1]);
    if has4 {
        lemma_digit_run_end(s, c + 1);
    }
    assert(v[p] == '.');
    assert(v[q] == '.');
    assert(v[r] == '.');
    assert forall|k: int| 0 <= k < p implies is_ascii_digit(v[k]) by {
        assert(v[k] == s[i + k]);
    }
    assert forall|k: int| p + 1 <= k < q implies is_ascii_digit(v[k]) by {
        assert(v[k] == s[i + k]);
    }
    assert forall|k: int| q + 1 <= k < r implies is_ascii_digit(v[k]) by {
        assert(v[k] == s[i + k]);
    }
    assert forall|k: int| r + 1 <= k < v.len() implies is_ascii_digit(v[k]) by {
        if has4 {
            assert(v[k] == s[i + k]);
        } else {
            assert(v[k] == "0"@[k - (r + 1)]);
        }
    }
    assert(group_ok(v, 0, p) && group_ok(v, p + 1, q) && group_ok(v, q + 1, r)
        && group_ok(v, r + 1, v.len() as int));
}

/// The version a release gets is always well-formed: four numeric
/// groups, never empty, whatever the tag and filename hold.
pub proof fn lemma_version4_wf(tag: Option<Seq<char>>, file: Option<Seq<char>>)
    ensures
        version_wf(spec_version4(tag, file)),
{
    if tag is Some && spec_version_of(tag->0) is Some {
        let i = first_match3_from(tag->0, 0)->0;
        lemma_first_match3_hit(tag->0, 0);
        lemma_version_at_wf(tag->0, i);
    } else if file is Some && spec_version_of(file->0) is Some {
        let i = first_match3_from(file->0, 0)->0;
        lemma_first_match3_hit(file->0, 0);
        lemma_version_at_wf(file->0, i);
    } else {
        let v = "1.0.0.0"@;
        reveal_strlit("1.0.0.0");
        assert(v[1] == '.' && v[3] == '.' && v[5] == '.');
        assert(group_ok(v, 0, 1) && group_ok(v, 2, 3) && group_ok(v, 4, 5) && group_ok(v, 6, 7));
        assert(version_wf(v));
    }
}

/// Where the leftmost-match scan reports a hit, a match holds there.
pub proof fn lemma_first_match3_hit(s: Seq<char>, i: int)
    requires
        0 <= i <= s.len(),
        first_match3_from(s, i) is Some,
    ensures
        match3_at(s, first_match3_from(s, i)->0),
    decreases s.len() - i
{
    if i < s.len() && !match3_at(s, i) {
        lemma_first_match3_hit(s, i + 1);
    }
}

/// The characters of `[i, j)` are all digits and `j` ends the digit run.
pub proof fn lemma_dre_exact(s: Seq<char>, i: int, j: int)
    requires
        0 <= i <= j <= s.len(),
        forall|k: int| i <= k < j ==> is_ascii_digit(#[trigger] s[k]),
        j == s.len() || !is_ascii_digit(s[j as int]),
    ensures
        digit_run_end(s, i) == j,
    decreases j - i
{
    if i < j {
        lemma_dre_exact(s, i + 1, j);
    }
}

/// A source that is exactly a well-formed four-group version extracts
/// to exactly itself: extraction neither trims nor rewrites it.
pub proof fn lemma_whole_version_source(s: Seq<char>)
    requires
        version_wf(s),
    ensures
        spec_version_of(s) == Some(s),
{
    reveal_strlit(".");
    let (p, q, r) = choose|p: int, q: int, r: int|
        #![trigger s[p], s[q], s[r]]
        0 < p < q < r < s.len() && s[p] == '.' && s[q] == '.' && s[r] == '.' && group_ok(s, 0, p)
            && group_ok(s, p + 1, q) && group_ok(s, q + 1, r) && group_ok(
            s, r + 1, s.len() as int);
    lemma_dre_exact(s, 0, p);
    lemma_dre_exact(s, p + 1, q);
    lemma_dre_exact(s, q + 1, r);
    lemma_dre_exact(s, r + 1, s.len() as int);
    assert(match3_at(s, 0));
    assert(first_match3_from(s, 0) == Some(0int));
    assert(version_at(s, 0) =~= s);
}

/// When neither the tag nor the filename holds a strict version match,
/// the extracted version is exactly the `1.0.0.0` fallback.
pub proof fn lemma_version_fallback(tag: Option<Seq<char>>, file: Option<Seq<char>>)
    requires
        tag is Some ==> spec_version_of(tag->0) is None,
        file is Some ==> spec_version_of(file->0) is None,
    ensures
        spec_version4(tag, file) == "1.0.0.0"@,
{
}

// ---------------------------------------------------------------------------
// Continuous-release detection
// ---------------------------------------------------------------------------

/// A loose version match (digits, dot, digits) begins at `i`.
pub open spec fn match2_at(s: Seq<char>, i: int) -> bool {
    0 <= i < s.len() && is_ascii_digit(s[i]) && {
        let a = digit_run_end(s, i);
        a < s.len() && s[a] == '.' && a + 1 < s.len() && is_ascii_digit(s[a + 1])
    }
}

/// Extends a loose match past `j` (the end of a completed digit group)
/// over any further `.digits` groups; the result is where the token ends.
pub open spec fn loose_end(s: Seq<char>, j: int) -> int
    decreases s.len() - j when 0 <= j <= s.len() via loose_end_decreases
{
    if j < s.len() && s[j] == '.' && j + 1 < s.len() && is_ascii_digit(s[j + 1]) {
        loose_end(s, digit_run_end(s, j + 1))
    } else {
        j
    }
}

#[via_fn]
proof fn loose_end_decreases(s: Seq<char>, j: int) {
    if j < s.len() && s[j] == '.' && j + 1 < s.len() && is_ascii_digit(s[j + 1]) {
        lemma_digit_run_end(s, j + 1);
    }
}

/// The loose version token beginning at `i` (`match2_at` holds there).
pub open spec fn loose_token_at(s: Seq<char>, i: int) -> Seq<char> {
    let a = digit_run_end(s, i);
    let b = digit_run_end(s, a + 1);
    s.subrange(i, loose_end(s, b))
}

/// The leftmost loose version match at or after `i`.
pub open spec fn first_match2_from(s: Seq<char>, i: int) -> Option<int>
    decreases s.len() - i when 0 <= i <= s.len()
{
    if i >= s.len() {
        None
    } else if match2_at(s, i) {
        Some(i)
    } else {
        first_match2_from(s, i + 1)
    }
}

/// The loose version token a filename yields, when it has one.
pub open spec fn spec_loose_version(s: Seq<char>) -> Option<Seq<char>> {
    match first_match2_from(s, 0) {
        Some(i) => Some(loose_token_at(s, i)),
        None => None,
    }
}

/// Scans a filename for its leftmost loose version token.
pub fn extract_version_from_filename(filename: &str) -> (r: Option<String>)
    ensures
        match r {
            Some(v) => spec_loose_version(filename@) == Some(v@),
            None => spec_loose_version(filename@) is None,
        },
{
    let slen = filename.unicode_len();
    let mut i: usize = 0;
    while i < slen
        invariant
            i <= slen,
            slen == filename@.len(),
            first_match2_from(filename@, 0) == first_match2_from(filename@, i as int),
        decreases slen - i
    {
        let hit = char_is_digit(filename.get_char(i)) && {
            let a = digit_run_end_exec(filename, i);
            a < slen && filename.get_char(a) == '.' && a + 1 < slen && char_is_digit(filename.get_char(a + 1))
        };
        if hit {
            let a = digit_run_end_exec(filename, i);
            let b = digit_run_end_exec(filename, a + 1);
            let mut e = b;
            while e < slen && filename.get_char(e) == '.' && e + 1 < slen
                && char_is_digit(filename.get_char(e + 1))
                invariant
                    b <= e <= slen,
                    slen == filename@.len(),
                    loose_end(filename@, b as int) == loose_end(filename@, e as int),
                decreases slen - e
            {
                let e2 = digit_run_end_exec(filename, e + 1);
                proof {
                    lemma_digit_run_end(filename@, e as int + 1);
                }
                e = e2;
            }
            proof {
                assert(match2_at(filename@, i as int));
                assert(first_match2_from(filename@, i as int) == Some(i as int));
                assert(loose_end(filename@, e as int) == e as int);
                assert(loose_token_at(filename@, i as int) == filename@.subrange(i as int, e as int));
                assert(first_match2_from(filename@, 0) == Some(i as int));
                assert(spec_loose_version(filename@) == Some(filename@.subrange(i as int, e as int)));
            }
            return Some(String::from_str(filename.substring_char(i, e)));
        }
        i += 1;
    }
    None
}

/// A release whose name holds a rolling-build keyword is excluded
/// whatever its assets hold.
pub proof fn lemma_keyword_excludes(name: Seq<char>, assets: Seq<AssetV>)
    requires
        keyword_hit(name),
    ensures
        spec_is_continuous(name, assets),
{
}

/// A release whose accepted assets reference three or more distinct
/// loose version tokens is excluded even without a keyword match.
pub proof fn lemma_version_spread_excludes(name: Seq<char>, assets: Seq<AssetV>)
    requires
        version_tokens(assets).len() >= 3,
    ensures
        spec_is_continuous(name, assets),
{
}

/// The distinct loose version tokens found among a run of asset names.
pub open spec fn version_tokens(assets: Seq<AssetV>) -> Set<Seq<char>>
    decreases assets.len()
{
    if assets.len() == 0 {
        Set::empty()
    } else {
        let rest = version_tokens(assets.drop_last());
        match spec_loose_version(assets.last().name) {
            Some(t) => rest.insert(t),
            None => rest,
        }
    }
}

pub proof fn lemma_version_tokens_finite(assets: Seq<AssetV>)
    ensures
        version_tokens(assets).finite(),
    decreases assets.len()
{
    if assets.len() > 0 {
        lemma_version_tokens_finite(assets.drop_last());
    }
}

/// The release name holds one of the fixed rolling-build keywords,
/// compared case-insensitively.
pub open spec fn keyword_hit(name: Seq<char>) -> bool {
    ||| has_substring(lower(name), "continuous"@)
    ||| has_substring(lower(name), "continous"@)
    ||| has_substring(lower(name), "latest"@)
    ||| has_substring(lower(name), "nightly"@)
    ||| has_substring(lower(name), "daily"@)
    ||| has_substring(lower(name), "current"@)
}

/// A release is a rolling/continuous build: its name carries a keyword,
/// or its accepted assets reference three or more distinct loose version
/// tokens.
pub open spec fn spec_is_continuous(name: Seq<char>, assets: Seq<AssetV>) -> bool {
    keyword_hit(name) || version_tokens(assets).len() >= 3
}

/// Is `x` among the strings of `v`?
fn vec_contains_str(v: &Vec<String>, x: &str) -> (r: bool)
    ensures
        r == exists|k: int| 0 <= k < v@.len() && #[trigger] v@[k]@ == x@,
{
    let mut j: usize = 0;
    while j < v.len()
        invariant
            j <= v@.len(),
            forall|k: int| 0 <= k < j ==> #[trigger] v@[k]@ != x@,
        decreases v@.len() - j
    {
        if str_eq(v[j].as_str(), x) {
            return true;
        }
        j += 1;
    }
    false
}

/// Decides whether a release is a rolling/continuous build (runtime form
/// of `spec_is_continuous`).
pub fn is_continuous_release(release_name: &str, appimages: &Vec<Asset>) -> (r: bool)
    ensures
        r == spec_is_continuous(release_name@, asset_views(appimages@)),
{
    if str_contains_lower(release_name, "continuous") || str_contains_lower(release_name, "continous")
        || str_contains_lower(release_name, "latest") || str_contains_lower(release_name, "nightly")
        || str_contains_lower(release_name, "daily") || str_contains_lower(release_name, "current") {
        return true;
    }
    let mut distinct: Vec<String> = Vec::new();
    let mut i: usize = 0;
    proof {
        assert(asset_views(appimages@.take(0)) =~= Seq::<AssetV>::empty());
    }
    while i < appimages.len()
        invariant
            i <= appimages@.len(),
            version_tokens(asset_views(appimages@.take(i as int))).finite(),
            version_tokens(asset_views(appimages@.take(i as int))).len() == distinct@.len(),
            forall|x: Seq<char>| version_tokens(asset_views(appimages@.take(i as int))).contains(x)
                <==> exists|j: int| 0 <= j < distinct@.len() && #[trigger] distinct@[j]@ == x,
        decreases appimages@.len() - i
    {
        let ghost pre = asset_views(appimages@.take(i as int));
        let ghost cur = asset_views(appimages@.take(i as int + 1));
        proof {
            assert(cur.drop_last() =~= pre);
            assert(cur.last() == appimages@[i as int]@);
            assert(cur.last().name == appimages@[i as int].name@);
        }
        match extract_version_from_filename(appimages[i].name.as_str()) {
            Some(tok) => {
                proof {
                    assert(version_tokens(cur) == version_tokens(pre).insert(tok@));
                    vstd::set::axiom_set_insert_len(version_tokens(pre), tok@);
                    vstd::set::axiom_set_insert_finite(version_tokens(pre), tok@);
                }
                let dup = vec_contains_str(&distinct, tok.as_str());
                let ghost old_distinct = distinct@;
                let ghost tokv = tok@;
                if !dup {
                    distinct.push(tok);
                    proof {
                        assert forall|x: Seq<char>| version_tokens(cur).contains(x) implies
                            exists|j: int|
                                0 <= j < distinct@.len() && #[trigger] distinct@[j]@ == x by {
                            if version_tokens(pre).contains(x) {
                                let j = choose|j: int|
                                    0 <= j < old_distinct.len() && #[trigger] old_distinct[j]@
                                        == x;
                                assert(distinct@[j]@ == x);
                            } else {
                                assert(x == tokv);
                                assert(distinct@[distinct@.len() - 1]@ == x);
                            }
                        }
                        assert forall|j: int| 0 <= j < distinct@.len() implies version_tokens(
                            cur).contains(#[trigger] distinct@[j]@) by {
                            if j < old_distinct.len() {
                                assert(old_distinct[j]@ == distinct@[j]@);
                            }
                        }
                    }
                } else {
                    proof {
                        assert(version_tokens(pre).contains(tokv));
                    }
                }
            },
            None => {
                proof {
                    assert(version_tokens(cur) == version_tokens(pre));
                }
            },
        }
        i += 1;
    }
    proof {
        assert(appimages@.take(appimages@.len() as int) =~= appimages@);
    }
    distinct.len() >= 3
}

// ---------------------------------------------------------------------------
// Asset filtering
// ---------------------------------------------------------------------------

/// The filename names a recognized checksum companion file.
pub open spec fn is_checksum_name(n: Seq<char>) -> bool {
    ||| spec_ends_with(n, ".sha256sum"@)
    ||| spec_ends_with(n, ".md5"@)
    ||| spec_ends_with(n, ".sha256"@)
    ||| spec_ends_with(n, ".sha512"@)
    ||| spec_ends_with(n, ".md5sum"@)
}

/// The basename of a checksum file: everything before its first dot.
pub open spec fn checksum_base(n: Seq<char>) -> Seq<char> {
    n.subrange(0, find_char_from(n, '.', 0))
}

/// Some sibling asset is a primary binary whose name begins with `base`.
pub open spec fn has_matching_binary(assets: Seq<AssetV>, base: Seq<char>) -> bool {
    exists|j: int|
        0 <= j < assets.len() && spec_starts_with(#[trigger] assets[j].name, base)
            && spec_ends_with(assets[j].name, ".AppImage"@)
}

/// The architecture filter mode accepts a primary binary of this name.
pub open spec fn arch_keeps(mode: Arch, name: Seq<char>) -> bool {
    match mode {
        Arch::All => true,
        Arch::X86_64 => arch_of(name) == Some("x86_64"@) || arch_of(name) is None,
        Arch::Aarch64 => arch_of(name) == Some("aarch64"@),
    }
}

/// The classifier keeps the asset at `i`: a primary binary its
/// architecture mode accepts, or — with checksum inclusion on — a
/// checksum companion tied to a sibling binary.
pub open spec fn keep_asset(assets: Seq<AssetV>, i: int, include_checksums: bool, mode: Arch) -> bool {
    let n = assets[i].name;
    if spec_ends_with(n, ".AppImage"@) {
        arch_keeps(mode, n)
    } else {
        include_checksums && is_checksum_name(n) && has_matching_binary(assets, checksum_base(n))
    }
}

/// The kept assets among the first `i`, in input order.
pub open spec fn spec_filter_upto(assets: Seq<AssetV>, cs: bool, mode: Arch, i: int) -> Seq<AssetV>
    decreases i
{
    if i <= 0 {
        Seq::empty()
    } else {
        let pre = spec_filter_upto(assets, cs, mode, i - 1);
        if keep_asset(assets, i - 1, cs, mode) {
            pre.push(assets[i - 1])
        } else {
            pre
        }
    }
}

/// The subset of attached files the classifier keeps, order preserved.
pub open spec fn spec_filter(assets: Seq<AssetV>, cs: bool, mode: Arch) -> Seq<AssetV> {
    spec_filter_upto(assets, cs, mode, assets.len() as int)
}

/// Decides `arch_keeps` at runtime.
fn arch_keeps_exec(mode: &Arch, name: &str) -> (r: bool)
    ensures
        r == arch_keeps(*mode, name@),
{
    proof {
        reveal_strlit("x86_64");
        reveal_strlit("aarch64");
    }
    match mode {
        Arch::All => true,
        Arch::X86_64 => match extract_architecture(name) {
            None => true,
            Some(a) => str_eq(a.as_str(), "x86_64"),
        },
        Arch::Aarch64 => match extract_architecture(name) {
            None => false,
            Some(a) => str_eq(a.as_str(), "aarch64"),
        },
    }
}

/// Decides whether the name is a checksum companion at runtime.
fn is_checksum_name_exec(n: &str) -> (r: bool)
    ensures
        r == is_checksum_name(n@),
{
    str_ends_with(n, ".sha256sum") || str_ends_with(n, ".md5") || str_ends_with(n, ".sha256")
        || str_ends_with(n, ".sha512") || str_ends_with(n, ".md5sum")
}

/// Looks for a sibling primary binary whose name begins with `base`.
fn has_matching_binary_exec(assets: &Vec<Asset>, base: &str) -> (r: bool)
    ensures
        r == has_matching_binary(asset_views(assets@), base@),
{
    let mut j: usize = 0;
    while j < assets.len()
        invariant
            j <= assets@.len(),
            forall|k: int| 0 <= k < j ==> !(spec_starts_with(
                #[trigger] asset_views(assets@)[k].name, base@)
                && spec_ends_with(asset_views(assets@)[k].name, ".AppImage"@)),
        decreases assets@.len() - j
    {
        if str_starts_with(assets[j].name.as_str(), base)
            && str_ends_with(assets[j].name.as_str(), ".AppImage") {
            assert(asset_views(assets@)[j as int].name == assets@[j as int].name@);
            return true;
        }
        j += 1;
    }
    false
}

/// Returns the subset of attached files considered relevant, order
/// preserved from the input (runtime form of `spec_filter`).
pub fn filter_appimages(assets: &Vec<Asset>, include_checksums: bool, target_arch: &Arch) -> (r:
    Vec<Asset>)
    ensures
        asset_views(r@) == spec_filter(asset_views(assets@), include_checksums, *target_arch),
{
    let ghost av = asset_views(assets@);
    let mut out: Vec<Asset> = Vec::new();
    let mut i: usize = 0;
    proof {
        assert(asset_views(out@) =~= spec_filter_upto(av, include_checksums, *target_arch, 0));
    }
    while i < assets.len()
        invariant
            i <= assets@.len(),
            av == asset_views(assets@),
            asset_views(out@) == spec_filter_upto(av, include_checksums, *target_arch, i as int),
        decreases assets@.len() - i
    {
        let name = &assets[i].name;
        let keep: bool;
        if str_ends_with(name.as_str(), ".AppImage") {
            keep = arch_keeps_exec(target_arch, name.as_str());
        } else if include_checksums && is_checksum_name_exec(name.as_str()) {
            let d = find_char_exec(name.as_str(), '.');
            let base = name.as_str().substring_char(0, d);
            keep = has_matching_binary_exec(assets, base);
        } else {
            keep = false;
        }
        proof {
            assert(av[i as int].name == assets@[i as int].name@);
            assert(keep == keep_asset(av, i as int, include_checksums, *target_arch));
        }
        if keep {
            out.push(assets[i].clone());
        }
        proof {
            assert(asset_views(out@) =~= spec_filter_upto(
                av, include_checksums, *target_arch, i as int + 1));
        }
        i += 1;
    }
    out
}

// ---------------------------------------------------------------------------
// Deduplication
// ---------------------------------------------------------------------------

/// Two entities share a dedup key: same repository, same architecture.
pub open spec fn same_key(a: ReleaseV, b: ReleaseV) -> bool {
    a.repo == b.repo && a.architecture == b.architecture
}

/// The instant an entity is ordered by in deduplication.
pub open spec fn entity_ts(e: ReleaseV) -> int {
    spec_published_ts(e.published_at).enc()
}

/// The first index at or after `i` whose entity shares `x`'s key.
pub open spec fn find_key_from(s: Seq<ReleaseV>, x: ReleaseV, i: int) -> Option<int>
    decreases s.len() - i when 0 <= i <= s.len()
{
    if i >= s.len() {
        None
    } else if same_key(s[i], x) {
        Some(i)
    } else {
        find_key_from(s, x, i + 1)
    }
}

/// One deduplication step: a new entity replaces the stored entry of its
/// key only when strictly newer; a fresh key is appended.
pub open spec fn dedup_step(acc: Seq<ReleaseV>, x: ReleaseV) -> Seq<ReleaseV> {
    match find_key_from(acc, x, 0) {
        Some(j) => if entity_ts(x) > entity_ts(acc[j]) {
            acc.update(j, x)
        } else {
            acc
        },
        None => acc.push(x),
    }
}

/// The collapsed entity run: one entity per (repository, architecture)
/// key, the latest by `published_at`, ties keeping the earlier entry.
pub open spec fn spec_dedup(s: Seq<ReleaseV>) -> Seq<ReleaseV>
    decreases s.len()
{
    if s.len() == 0 {
        Seq::empty()
    } else {
        dedup_step(spec_dedup(s.drop_last()), s.last())
    }
}

pub proof fn lemma_find_key_none(s: Seq<ReleaseV>, x: ReleaseV, i: int)
    requires
        0 <= i <= s.len(),
        find_key_from(s, x, i) is None,
    ensures
        forall|j: int| i <= j < s.len() ==> !same_key(#[trigger] s[j], x),
    decreases s.len() - i
{
    if i < s.len() {
        lemma_find_key_none(s, x, i + 1);
    }
}

pub proof fn lemma_find_key_some(s: Seq<ReleaseV>, x: ReleaseV, i: int)
    requires
        0 <= i <= s.len(),
        find_key_from(s, x, i) is Some,
    ensures
        i <= find_key_from(s, x, i)->0 < s.len(),
        same_key(s[find_key_from(s, x, i)->0], x),
    decreases s.len() - i
{
    if i < s.len() && !same_key(s[i], x) {
        lemma_find_key_some(s, x, i + 1);
    }
}

/// After deduplication at most one entity remains per
/// (repository, architecture) key.
pub proof fn lemma_dedup_unique_keys(s: Seq<ReleaseV>)
    ensures
        forall|i: int, j: int|
            0 <= i < j < spec_dedup(s).len() ==> !same_key(
                #[trigger] spec_dedup(s)[i], #[trigger] spec_dedup(s)[j]),
    decreases s.len()
{
    if s.len() > 0 {
        lemma_dedup_unique_keys(s.drop_last());
        let pre = spec_dedup(s.drop_last());
        let x = s.last();
        let out = spec_dedup(s);
        match find_key_from(pre, x, 0) {
            Some(j) => {
                lemma_find_key_some(pre, x, 0);
                assert forall|i1: int, j1: int| 0 <= i1 < j1 < out.len() implies !same_key(
                    out[i1], out[j1]) by {
                    assert(!same_key(pre[i1], pre[j1]));
                }
            },
            None => {
                lemma_find_key_none(pre, x, 0);
                assert forall|i1: int, j1: int| 0 <= i1 < j1 < out.len() implies !same_key(
                    out[i1], out[j1]) by {
                    if j1 < pre.len() {
                        assert(!same_key(pre[i1], pre[j1]));
                    } else {
                        assert(out[i1] == pre[i1] && out[j1] == x);
                    }
                }
            },
        }
    }
}

/// Of two entities sharing one (repository, architecture) key, the
/// strictly later published one is the only one deduplication keeps.
pub proof fn lemma_dedup_keeps_latest(a: ReleaseV, b: ReleaseV)
    requires
        same_key(a, b),
        entity_ts(a) < entity_ts(b),
    ensures
        spec_dedup(seq![a, b]) == seq![b],
{
    let s = seq![a, b];
    assert(s.drop_last() =~= seq![a]);
    assert(seq![a].drop_last() =~= Seq::<ReleaseV>::empty());
    assert(spec_dedup(Seq::<ReleaseV>::empty()) == Seq::<ReleaseV>::empty());
    assert(find_key_from(Seq::<ReleaseV>::empty(), a, 0) is None);
    assert(seq![a].last() == a);
    assert(spec_dedup(seq![a]) == dedup_step(Seq::<ReleaseV>::empty(), a));
    assert(spec_dedup(seq![a]) == Seq::<ReleaseV>::empty().push(a));
    assert(Seq::<ReleaseV>::empty().push(a) =~= seq![a]);
    assert(find_key_from(seq![a], b, 0) == Some(0int));
    assert(spec_dedup(s) == seq![a].update(0, b));
    assert(seq![a].update(0, b) =~= seq![b]);
}

/// Compares two optional strings by content.
pub fn opt_str_eq(a: &Option<String>, b: &Option<String>) -> (r: bool)
    ensures
        r == (opt_view(*a) == opt_view(*b)),
{
    match (a, b) {
        (None, None) => true,
        (Some(x), Some(y)) => str_eq(x.as_str(), y.as_str()),
        _ => false,
    }
}

/// Finds the stored entry sharing `x`'s key.
fn find_same_key(out: &Vec<AppImageRelease>, x: &AppImageRelease) -> (r: Option<usize>)
    ensures
        match r {
            Some(j) => j < out@.len() && find_key_from(entity_views(out@), x@, 0) == Some(
                j as int),
            None => find_key_from(entity_views(out@), x@, 0) is None,
        },
{
    let mut j: usize = 0;
    while j < out.len()
        invariant
            j <= out@.len(),
            find_key_from(entity_views(out@), x@, 0) == find_key_from(
                entity_views(out@), x@, j as int),
        decreases out@.len() - j
    {
        if str_eq(out[j].repo.as_str(), x.repo.as_str())
            && opt_str_eq(&out[j].architecture, &x.architecture) {
            assert(entity_views(out@)[j as int] == out@[j as int]@);
            return Some(j);
        }
        assert(entity_views(out@)[j as int] == out@[j as int]@);
        j += 1;
    }
    None
}

/// Collapses the accumulated entities to the most recently published one
/// per (repository, architecture) pair (runtime form of `spec_dedup`).
pub fn keep_latest_versions(results: &Vec<AppImageRelease>) -> (r: Vec<AppImageRelease>)
    ensures
        entity_views(r@) == spec_dedup(entity_views(results@)),
{
    let mut out: Vec<AppImageRelease> = Vec::new();
    let mut i: usize = 0;
    proof {
        assert(entity_views(results@.take(0)) =~= Seq::<ReleaseV>::empty());
        assert(entity_views(out@) =~= Seq::<ReleaseV>::empty());
    }
    while i < results.len()
        invariant
            i <= results@.len(),
            entity_views(out@) == spec_dedup(entity_views(results@.take(i as int))),
        decreases results@.len() - i
    {
        let ghost pre = entity_views(results@.take(i as int));
        let ghost cur = entity_views(results@.take(i as int + 1));
        proof {
            assert(cur.drop_last() =~= pre);
            assert(cur.last() == results@[i as int]@);
        }
        let item = &results[i];
        match find_same_key(&out, item) {
            Some(j) => {
                let stored_ts = published_ts(out[j].published_at.as_str());
                let item_ts = published_ts(item.published_at.as_str());
                if ts_lt(&stored_ts, &item_ts) {
                    out.set(j, item.clone());
                    proof {
                        assert(entity_views(out@) =~= spec_dedup(pre).update(j as int, item@));
                    }
                }
            },
            None => {
                out.push(item.clone());
                proof {
                    assert(entity_views(out@) =~= spec_dedup(pre).push(item@));
                }
            },
        }
        i += 1;
    }
    proof {
        assert(results@.take(results@.len() as int) =~= results@);
    }
    out
}

// ---------------------------------------------------------------------------
// Package identity
// ---------------------------------------------------------------------------

/// The reverse-DNS package identifier of an `owner/name` repository
/// string: `io.github.` followed by the case-folded owner and name.
pub open spec fn pkg_of(repo: Seq<char>) -> Seq<char> {
    let d = find_char_from(repo, '/', 0);
    let owner = repo.subrange(0, d);
    let rest = if d < repo.len() {
        repo.subrange(d + 1, repo.len() as int)
    } else {
        Seq::<char>::empty()
    };
    "io.github."@ + lower(owner) + "."@ + lower(rest)
}

pub proof fn lemma_find_slash_lower(s: Seq<char>, i: int)
    requires
        0 <= i <= s.len(),
    ensures
        find_char_from(lower(s), '/', i) == find_char_from(s, '/', i),
    decreases s.len() - i
{
    if i < s.len() {
        assert(lower(s)[i] == lower_char(s[i]));
        if s[i] != '/' {
            lemma_find_slash_lower(s, i + 1);
        }
    }
}

/// The package identity is case-insensitive in the repository string,
/// and so idempotent under re-application of the fold: deriving it from
/// an already folded repository gives the same identifier.
pub proof fn lemma_pkg_of_case_fold(repo: Seq<char>)
    ensures
        pkg_of(lower(repo)) == pkg_of(repo),
{
    lemma_find_slash_lower(repo, 0);
    crate::text::lemma_find_char_from(repo, '/', 0);
    let d = find_char_from(repo, '/', 0);
    assert(lower(repo).subrange(0, d) =~= lower(repo.subrange(0, d)));
    crate::text::lemma_lower_idempotent(repo.subrange(0, d));
    if d < repo.len() {
        assert(lower(repo).subrange(d + 1, repo.len() as int) =~= lower(
            repo.subrange(d + 1, repo.len() as int)));
        crate::text::lemma_lower_idempotent(repo.subrange(d + 1, repo.len() as int));
    } else {
        assert(lower(Seq::<char>::empty()) =~= Seq::<char>::empty());
    }
    assert(pkg_of(lower(repo)) == pkg_of(repo));
}

/// Derives the package identifier (runtime form of `pkg_of`).
pub fn get_package_name(repo: &str) -> (r: String)
    ensures
        r@ == pkg_of(repo@),
{
    let slen = repo.unicode_len();
    let d = find_char_exec(repo, '/');
    proof {
        crate::text::lemma_find_char_from(repo@, '/', 0);
    }
    let owner = repo.substring_char(0, d);
    let low_owner = lower_str(owner);
    let mut out = String::from_str("io.github.");
    out.append(low_owner.as_str());
    out.append(".");
    if d < slen {
        let rest = repo.substring_char(d + 1, slen);
        let low_rest = lower_str(rest);
        out.append(low_rest.as_str());
    }
    proof {
        if d as int == find_char_from(repo@, '/', 0) && d >= slen {
            assert(lower(Seq::<char>::empty()) =~= Seq::<char>::empty());
        }
        assert(out@ =~= pkg_of(repo@));
    }
    out
}

} // verus!
