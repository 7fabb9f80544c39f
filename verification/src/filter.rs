//! The filter that applies a package's policy to its listing: a denylist
//! of release names, limits on the version, and the formats that are
//! never passed on.

use crate::error::UnsupportedOperator;
use crate::grammar::parse_version;
use crate::html::same_text;
use crate::index::{PackageIndex, Release, ReleaseView};
use crate::specifier::{meets_all, parse_set, SpecifierSet, SpecifierView};
use crate::text::{ends_with, has_suffix, to_chars};
use crate::version::{Version, VersionView};
use crate::wheel::{parse_wheel, WheelInfo};
use vstd::prelude::*;
use vstd::string::*;

verus! {

/// The policy of one package.
#[derive(Clone, Debug, PartialEq, Eq)]
pub struct PackageConfig {
    /// Release names that are never passed on; compared as whole names.
    pub release_denylist: Vec<String>,
    /// The version limits, as a comma-separated requirement list.
    pub version_limits: String,
}

/// What the filter decides of one release.
#[derive(Clone, Copy, Debug, PartialEq, Eq, Structural)]
pub enum Verdict {
    /// The release stays in the listing.
    Keep,
    /// The release is left out.
    Drop,
    /// The release is left out because it is a source distribution whose
    /// name gives no readable version; the caller should report it.
    Unreadable,
    /// The version limits cannot be evaluated for this release.
    Unsupported,
}

/// The result of filtering: the listing that is left, and the names of the
/// source distributions that were left out for want of a readable version.
#[derive(Clone, Debug, PartialEq, Eq)]
pub struct Filtered {
    pub index: PackageIndex,
    pub unreadable: Vec<String>,
}

/// The texts of a run of strings.
pub open spec fn texts(v: Seq<String>) -> Seq<Seq<char>> {
    Seq::new(v.len(), |k: int| v[k]@)
}

/// What the version limits say of a version: nothing where it meets them.
pub open spec fn limit_verdict(set: Seq<SpecifierView>, v: VersionView) -> Option<Verdict> {
    match meets_all(set, v) {
        Err(_) => Some(Verdict::Unsupported),
        Ok(false) => Some(Verdict::Drop),
        Ok(true) => None,
    }
}

/// What the limits say of a wheel. A name that is no wheel name, or whose
/// version field is no version, is not judged here.
pub open spec fn wheel_verdict(name: Seq<char>, set: Seq<SpecifierView>) -> Option<Verdict> {
    match parse_wheel(name) {
        Some(w) => match parse_version(w.version) {
            Ok(v) => limit_verdict(set, v),
            Err(_) => None,
        },
        None => None,
    }
}

/// The name without its source-distribution suffix, where it has one of
/// `.tar.gz`, `.zip` and `.sdist`.
pub open spec fn sdist_stem(name: Seq<char>) -> Option<Seq<char>> {
    if ends_with(name, ".tar.gz"@) {
        Some(name.subrange(0, name.len() - 7))
    } else if ends_with(name, ".zip"@) {
        Some(name.subrange(0, name.len() - 4))
    } else if ends_with(name, ".sdist"@) {
        Some(name.subrange(0, name.len() - 6))
    } else {
        None
    }
}

/// The first hyphen at or after `i`, or the length of `s`.
pub open spec fn first_hyphen(s: Seq<char>, i: int) -> int
    decreases s.len() - i,
{
    if 0 <= i < s.len() && s[i] != '-' {
        first_hyphen(s, i + 1)
    } else {
        i
    }
}

/// What a source distribution's stem says: all that follows its first
/// hyphen is its version. A stem without hyphen, or with a version that
/// does not parse, is unreadable.
pub open spec fn stem_verdict(stem: Seq<char>, set: Seq<SpecifierView>) -> Option<Verdict> {
    let h = first_hyphen(stem, 0);
    if h >= stem.len() {
        Some(Verdict::Unreadable)
    } else {
        match parse_version(stem.subrange(h + 1, stem.len() as int)) {
            Ok(v) => limit_verdict(set, v),
            Err(_) => Some(Verdict::Unreadable),
        }
    }
}

/// What the limits say of a source distribution; nothing of other names.
pub open spec fn sdist_verdict(name: Seq<char>, set: Seq<SpecifierView>) -> Option<Verdict> {
    match sdist_stem(name) {
        Some(stem) => stem_verdict(stem, set),
        None => None,
    }
}

/// The verdict on a release name. The rules apply in this order and the
/// first that excludes decides: the denylist; the limits on a wheel's
/// version; the limits on a source distribution's version, which must be
/// readable; eggs are always left out. Everything else stays.
pub open spec fn verdict(name: Seq<char>, deny: Seq<Seq<char>>, set: Seq<SpecifierView>) -> Verdict {
    if deny.contains(name) {
        Verdict::Drop
    } else if wheel_verdict(name, set) is Some {
        wheel_verdict(name, set)->0
    } else if sdist_verdict(name, set) is Some {
        sdist_verdict(name, set)->0
    } else if ends_with(name, ".egg"@) {
        Verdict::Drop
    } else {
        Verdict::Keep
    }
}

/// The releases among the first `n` that stay, in their order.
pub open spec fn kept(
    releases: Seq<ReleaseView>,
    deny: Seq<Seq<char>>,
    set: Seq<SpecifierView>,
    n: int,
) -> Seq<ReleaseView>
    decreases n,
{
    if n <= 0 || n > releases.len() {
        Seq::empty()
    } else if verdict(releases[n - 1].name, deny, set) == Verdict::Keep {
        kept(releases, deny, set, n - 1).push(releases[n - 1])
    } else {
        kept(releases, deny, set, n - 1)
    }
}

/// The names among the first `n` releases that are unreadable source
/// distributions, in their order.
pub open spec fn unreadable(
    releases: Seq<ReleaseView>,
    deny: Seq<Seq<char>>,
    set: Seq<SpecifierView>,
    n: int,
) -> Seq<Seq<char>>
    decreases n,
{
    if n <= 0 || n > releases.len() {
        Seq::empty()
    } else if verdict(releases[n - 1].name, deny, set) == Verdict::Unreadable {
        unreadable(releases, deny, set, n - 1).push(releases[n - 1].name)
    } else {
        unreadable(releases, deny, set, n - 1)
    }
}

/// The limits cannot be evaluated for one of the first `n` releases.
pub open spec fn blocked(
    releases: Seq<ReleaseView>,
    deny: Seq<Seq<char>>,
    set: Seq<SpecifierView>,
    n: int,
) -> bool {
    exists|k: int|
        0 <= k < n && k < releases.len() && verdict(#[trigger] releases[k].name, deny, set)
            == Verdict::Unsupported
}

/// Whether a name is on the denylist.
pub fn denied(deny: &Vec<String>, name: &str) -> (r: bool)
    ensures
        r == texts(deny@).contains(name@),
{
    let mut i: usize = 0;
    while i < deny.len()
        invariant
            i <= deny@.len(),
            forall|k: int| 0 <= k < i ==> texts(deny@)[k] != name@,
        decreases deny@.len() - i,
    {
        if same_text(deny[i].as_str(), name) {
            assert(texts(deny@)[i as int] == name@);
            return true;
        }
        i += 1;
    }
    false
}

fn judge_version(set: &SpecifierSet, v: &Version) -> (r: Option<Verdict>)
    ensures
        r == limit_verdict(set@, v@),
{
    match set.contains(v) {
        Err(_) => Some(Verdict::Unsupported),
        Ok(false) => Some(Verdict::Drop),
        Ok(true) => None,
    }
}

fn judge_wheel(name: &str, set: &SpecifierSet) -> (r: Option<Verdict>)
    ensures
        r == wheel_verdict(name@, set@),
{
    match WheelInfo::from_str(name) {
        Ok(w) => match Version::from_str(w.version.as_str()) {
            Ok(v) => judge_version(set, &v),
            Err(_) => None,
        },
        Err(_) => None,
    }
}

fn find_hyphen(s: &Vec<char>) -> (r: usize)
    ensures
        r == first_hyphen(s@, 0),
        r <= s@.len(),
{
    let mut k: usize = 0;
    while k < s.len() && s[k] != '-'
        invariant
            k <= s@.len(),
            first_hyphen(s@, 0) == first_hyphen(s@, k as int),
        decreases s@.len() - k,
    {
        k += 1;
    }
    k
}

fn judge_stem(stem: &str, set: &SpecifierSet) -> (r: Option<Verdict>)
    ensures
        r == stem_verdict(stem@, set@),
{
    let s = to_chars(stem);
    let h = find_hyphen(&s);
    if h >= s.len() {
        return Some(Verdict::Unreadable);
    }
    match Version::from_str(stem.substring_char(h + 1, s.len())) {
        Ok(v) => judge_version(set, &v),
        Err(_) => Some(Verdict::Unreadable),
    }
}

fn judge_sdist(name: &str, s: &Vec<char>, set: &SpecifierSet) -> (r: Option<Verdict>)
    requires
        s@ == name@,
    ensures
        r == sdist_verdict(name@, set@),
{
    proof {
        reveal_strlit(".tar.gz");
        reveal_strlit(".zip");
        reveal_strlit(".sdist");
    }
    let n = s.len();
    if has_suffix(s, ".tar.gz") {
        judge_stem(name.substring_char(0, n - 7), set)
    } else if has_suffix(s, ".zip") {
        judge_stem(name.substring_char(0, n - 4), set)
    } else if has_suffix(s, ".sdist") {
        judge_stem(name.substring_char(0, n - 6), set)
    } else {
        None
    }
}

/// The verdict on one release name; see [`verdict`].
pub fn judge(name: &str, deny: &Vec<String>, set: &SpecifierSet) -> (r: Verdict)
    ensures
        r == verdict(name@, texts(deny@), set@),
{
    if denied(deny, name) {
        return Verdict::Drop;
    }
    if let Some(v) = judge_wheel(name, set) {
        return v;
    }
    let s = to_chars(name);
    if let Some(v) = judge_sdist(name, &s, set) {
        return v;
    }
    if has_suffix(&s, ".egg") {
        Verdict::Drop
    } else {
        Verdict::Keep
    }
}

/// Applies the limits `set` and the denylist to a listing. The releases
/// that stay keep their order. Fails exactly when the limits cannot be
/// evaluated for one of the releases.
pub fn filter_with(index: &PackageIndex, deny: &Vec<String>, set: &SpecifierSet) -> (r: Result<
    Filtered,
    UnsupportedOperator,
>)
    ensures
        match r {
            Ok(f) => !blocked(index@, texts(deny@), set@, index@.len() as int) && f.index@ == kept(
                index@,
                texts(deny@),
                set@,
                index@.len() as int,
            ) && texts(f.unreadable@) == unreadable(
                index@,
                texts(deny@),
                set@,
                index@.len() as int,
            ),
            Err(_) => blocked(index@, texts(deny@), set@, index@.len() as int),
        },
{
    let mut releases: Vec<Release> = Vec::new();
    let mut names: Vec<String> = Vec::new();
    let mut i: usize = 0;
    while i < index.releases.len()
        invariant
            i <= index.releases@.len(),
            index@.len() == index.releases@.len(),
            !blocked(index@, texts(deny@), set@, i as int),
            Seq::new(releases@.len(), |k: int| releases@[k]@) == kept(
                index@,
                texts(deny@),
                set@,
                i as int,
            ),
            texts(names@) == unreadable(index@, texts(deny@), set@, i as int),
        decreases index.releases@.len() - i,
    {
        let release = &index.releases[i];
        assert(index@[i as int] == release@);
        let ghost before = Seq::new(releases@.len(), |k: int| releases@[k]@);
        let ghost before_names = texts(names@);
        match judge(release.name.as_str(), deny, set) {
            Verdict::Keep => {
                releases.push(release.duplicate());
                assert(Seq::new(releases@.len(), |k: int| releases@[k]@) =~= before.push(
                    release@,
                ));
            },
            Verdict::Drop => {},
            Verdict::Unreadable => {
                names.push(release.name.clone());
                assert(texts(names@) =~= before_names.push(release@.name));
            },
            Verdict::Unsupported => {
                assert(verdict(index@[i as int].name, texts(deny@), set@) == Verdict::Unsupported);
                return Err(UnsupportedOperator);
            },
        }
        i += 1;
    }
    Ok(Filtered { index: PackageIndex { releases }, unreadable: names })
}

/// Applies a package's policy to its listing: parses the version limits
/// and filters with them; see [`filter_with`].
pub fn filter(index: &PackageIndex, policy: &PackageConfig) -> (r: Result<
    Filtered,
    UnsupportedOperator,
>)
    ensures
        match r {
            Ok(f) => !blocked(
                index@,
                texts(policy.release_denylist@),
                parse_set(policy.version_limits@),
                index@.len() as int,
            ) && f.index@ == kept(
                index@,
                texts(policy.release_denylist@),
                parse_set(policy.version_limits@),
                index@.len() as int,
            ) && texts(f.unreadable@) == unreadable(
                index@,
                texts(policy.release_denylist@),
                parse_set(policy.version_limits@),
                index@.len() as int,
            ),
            Err(_) => blocked(
                index@,
                texts(policy.release_denylist@),
                parse_set(policy.version_limits@),
                index@.len() as int,
            ),
        },
{
    let set = SpecifierSet::parse(policy.version_limits.as_str());
    filter_with(index, &policy.release_denylist, &set)
}

/// The releases that stay.
pub open spec fn stays(deny: Seq<Seq<char>>, set: Seq<SpecifierView>) -> spec_fn(ReleaseView) -> bool {
    |r: ReleaseView| verdict(r.name, deny, set) == Verdict::Keep
}

/// What is left of the first `n` releases is those of them that stay, in
/// the order in which they stood: nothing is added, moved or changed.
pub proof fn lemma_kept_is_filter(
    releases: Seq<ReleaseView>,
    deny: Seq<Seq<char>>,
    set: Seq<SpecifierView>,
    n: int,
)
    requires
        0 <= n <= releases.len(),
    ensures
        kept(releases, deny, set, n) == releases.subrange(0, n).filter(stays(deny, set)),
    decreases n,
{
    reveal(Seq::filter);
    if n > 0 {
        lemma_kept_is_filter(releases, deny, set, n - 1);
        assert(releases.subrange(0, n).drop_last() =~= releases.subrange(0, n - 1));
        assert(releases.subrange(0, n).last() == releases[n - 1]);
    }
}

/// A release whose name is on the denylist never stays, and neither does
/// an egg, whatever the limits say.
pub proof fn lemma_never_stays(name: Seq<char>, deny: Seq<Seq<char>>, set: Seq<SpecifierView>)
    requires
        deny.contains(name) || ends_with(name, ".egg"@),
    ensures
        verdict(name, deny, set) != Verdict::Keep,
{
}

} // verus!
