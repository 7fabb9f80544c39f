//! The grammar of version texts, as a reading of character sequences, and
//! the parser that implements it.

use crate::error::{ParseError, ParseErrorKind};
use crate::text::{decimal_value, digits_end, has_at, is_digit, parse_decimal, scan_digits, starts_at, to_chars};
use crate::version::{PreRelease, Version, VersionView};
use vstd::prelude::*;
use vstd::string::*;

verus! {

/// The kind of a pre-release marker.
#[derive(Clone, Copy, Debug, PartialEq, Eq, Structural)]
pub enum Marker {
    Alpha,
    Beta,
    ReleaseCandidate,
}

/// What a version text says, with its numbers still unbounded.
pub struct VersionShape {
    pub epoch: Option<nat>,
    pub release: Seq<nat>,
    pub pre_release: Option<(Marker, nat)>,
    pub post_release: Option<nat>,
    pub dev_release: Option<nat>,
    pub local: Option<Seq<char>>,
}

/// Position `i` of `s` holds a digit.
pub open spec fn digit_at(s: Seq<char>, i: int) -> bool {
    0 <= i < s.len() && is_digit(s[i])
}

/// The number written by the digit run that starts at `i`.
pub open spec fn number_at(s: Seq<char>, i: int) -> nat {
    decimal_value(s.subrange(i, digits_end(s, i)))
}

/// Where the release segments start: after a leading digit run and `!`,
/// if the text starts with one, else at 0.
pub open spec fn epoch_end(s: Seq<char>) -> int {
    let d = digits_end(s, 0);
    if 0 < d < s.len() && s[d] == '!' {
        d + 1
    } else {
        0
    }
}

/// A digit run at `i` is followed by a dot and another digit.
pub open spec fn segment_follows(s: Seq<char>, i: int) -> bool {
    let d = digits_end(s, i);
    i < d && d < s.len() && s[d] == '.' && digit_at(s, d + 1)
}

/// Where the dotted digit groups that start at `i` end.
pub open spec fn release_end(s: Seq<char>, i: int) -> int
    decreases s.len() - i,
{
    if segment_follows(s, i) {
        release_end(s, digits_end(s, i) + 1)
    } else {
        digits_end(s, i)
    }
}

/// The numbers of the dotted digit groups that start at `i`.
pub open spec fn release_numbers(s: Seq<char>, i: int) -> Seq<nat>
    decreases s.len() - i,
{
    if segment_follows(s, i) {
        seq![number_at(s, i)] + release_numbers(s, digits_end(s, i) + 1)
    } else {
        seq![number_at(s, i)]
    }
}

/// The pre-release marker at `i`, with the position of its number: one of
/// `a`, `alpha`, `b`, `beta`, `rc`, directly followed by a digit.
pub open spec fn marker_at(s: Seq<char>, i: int) -> Option<(Marker, int)> {
    if has_at(s, i, "alpha"@) && digit_at(s, i + 5) {
        Some((Marker::Alpha, i + 5))
    } else if has_at(s, i, "a"@) && digit_at(s, i + 1) {
        Some((Marker::Alpha, i + 1))
    } else if has_at(s, i, "beta"@) && digit_at(s, i + 4) {
        Some((Marker::Beta, i + 4))
    } else if has_at(s, i, "b"@) && digit_at(s, i + 1) {
        Some((Marker::Beta, i + 1))
    } else if has_at(s, i, "rc"@) && digit_at(s, i + 2) {
        Some((Marker::ReleaseCandidate, i + 2))
    } else {
        None
    }
}

/// Where the optional marker that may start at `i` ends.
pub open spec fn marker_end(s: Seq<char>, i: int) -> int {
    match marker_at(s, i) {
        Some((_, d)) => digits_end(s, d),
        None => i,
    }
}

/// `tag` and a digit stand at `i`.
pub open spec fn tagged_at(s: Seq<char>, i: int, tag: Seq<char>) -> bool {
    has_at(s, i, tag) && digit_at(s, i + tag.len())
}

/// Where the optional `tag` with its number, which may start at `i`, ends.
pub open spec fn tagged_end(s: Seq<char>, i: int, tag: Seq<char>) -> int {
    if tagged_at(s, i, tag) {
        digits_end(s, i + tag.len())
    } else {
        i
    }
}

/// The number of the optional `tag` that may start at `i`.
pub open spec fn tagged_number(s: Seq<char>, i: int, tag: Seq<char>) -> Option<nat> {
    if tagged_at(s, i, tag) {
        Some(number_at(s, i + tag.len()))
    } else {
        None
    }
}

/// The part of the text before the local label.
pub open spec fn public_end(s: Seq<char>) -> int {
    tagged_end(s, tagged_end(s, marker_end(s, release_end(s, epoch_end(s))), ".post"@), ".dev"@)
}

/// The text is a version: an optional epoch with `!`, one or more digit
/// groups joined by dots, an optional pre-release marker with its number,
/// an optional `.post` and an optional `.dev` with their numbers, and an
/// optional `+` with a label of one or more characters, whatever they
/// are; nothing before and nothing after.
pub open spec fn well_formed(s: Seq<char>) -> bool {
    let end = public_end(s);
    digit_at(s, epoch_end(s)) && (end == s.len() || (0 <= end && end + 1 < s.len() && s[end]
        == '+'))
}

/// What a well-formed version text says.
pub open spec fn shape_of(s: Seq<char>) -> VersionShape {
    let i0 = epoch_end(s);
    let i1 = release_end(s, i0);
    let i2 = marker_end(s, i1);
    let i3 = tagged_end(s, i2, ".post"@);
    let i4 = public_end(s);
    VersionShape {
        epoch: if i0 > 0 {
            Some(number_at(s, 0))
        } else {
            None
        },
        release: release_numbers(s, i0),
        pre_release: match marker_at(s, i1) {
            Some((m, d)) => Some((m, number_at(s, d))),
            None => None,
        },
        post_release: tagged_number(s, i2, ".post"@),
        dev_release: tagged_number(s, i3, ".dev"@),
        local: if i4 < s.len() {
            Some(s.subrange(i4 + 1, s.len() as int))
        } else {
            None
        },
    }
}

/// The number, if there is one, fits 32 bits.
pub open spec fn fits_opt(n: Option<nat>) -> bool {
    match n {
        Some(x) => x <= u32::MAX,
        None => true,
    }
}

/// Every number of the run fits 32 bits.
pub open spec fn all_fit(r: Seq<nat>) -> bool {
    forall|k: int| 0 <= k < r.len() ==> #[trigger] r[k] <= u32::MAX
}

/// Every number of the shape fits 32 bits.
pub open spec fn fits(v: VersionShape) -> bool {
    fits_opt(v.epoch) && all_fit(v.release) && (match v.pre_release {
        Some((_, n)) => n <= u32::MAX,
        None => true,
    }) && fits_opt(v.post_release) && fits_opt(v.dev_release)
}

/// The number, if there is one, in 32 bits.
pub open spec fn narrow_opt(n: Option<nat>) -> Option<u32> {
    match n {
        Some(x) => Some(x as u32),
        None => None,
    }
}

/// The marker of kind `m` with ordinal `n`.
pub open spec fn marked(m: Marker, n: u32) -> PreRelease {
    match m {
        Marker::Alpha => PreRelease::Alpha(n),
        Marker::Beta => PreRelease::Beta(n),
        Marker::ReleaseCandidate => PreRelease::ReleaseCandidate(n),
    }
}

/// The version that a shape denotes, when its numbers fit.
pub open spec fn narrow(v: VersionShape) -> VersionView {
    VersionView {
        epoch: narrow_opt(v.epoch),
        release: Seq::new(v.release.len(), |k: int| v.release[k] as u32),
        pre_release: match v.pre_release {
            Some((m, n)) => Some(marked(m, n as u32)),
            None => None,
        },
        post_release: narrow_opt(v.post_release),
        dev_release: narrow_opt(v.dev_release),
        local: v.local,
    }
}

/// What parsing a text as a version yields.
pub open spec fn parse_version(s: Seq<char>) -> Result<VersionView, ParseErrorKind> {
    if !well_formed(s) {
        Err(ParseErrorKind::Syntax)
    } else if !fits(shape_of(s)) {
        Err(ParseErrorKind::NumberOutOfRange)
    } else {
        Ok(narrow(shape_of(s)))
    }
}

fn scan_release(s: &Vec<char>, i: usize) -> (r: usize)
    requires
        i <= s@.len(),
    ensures
        r == release_end(s@, i as int),
        i <= r <= s@.len(),
{
    let mut cur: usize = i;
    loop
        invariant
            i <= cur <= s@.len(),
            release_end(s@, i as int) == release_end(s@, cur as int),
        decreases s@.len() - cur,
    {
        let d = scan_digits(s, cur);
        if cur < d && d < s.len() && s[d] == '.' && d + 1 < s.len() && s[d + 1] >= '0' && s[d + 1]
            <= '9' {
            cur = d + 1;
        } else {
            return d;
        }
    }
}

fn read_release(s: &Vec<char>, i: usize) -> (r: Option<Vec<u32>>)
    requires
        i <= s@.len(),
    ensures
        r is Some <==> all_fit(release_numbers(s@, i as int)),
        r matches Some(v) ==> v@.len() == release_numbers(s@, i as int).len() && forall|k: int|
            0 <= k < v@.len() ==> #[trigger] v@[k] as nat == release_numbers(s@, i as int)[k],
{
    let mut out: Vec<u32> = Vec::new();
    let mut cur: usize = i;
    let ghost all = release_numbers(s@, i as int);
    loop
        invariant
            i <= cur <= s@.len(),
            all == release_numbers(s@, i as int),
            all.len() == out@.len() + release_numbers(s@, cur as int).len(),
            forall|k: int| 0 <= k < out@.len() ==> #[trigger] out@[k] as nat == all[k],
            forall|k: int|
                0 <= k < release_numbers(s@, cur as int).len() ==> #[trigger] release_numbers(
                    s@,
                    cur as int,
                )[k] == all[out@.len() + k],
        decreases s@.len() - cur,
    {
        let d = scan_digits(s, cur);
        let ghost rest = release_numbers(s@, cur as int);
        assert(rest[0] == number_at(s@, cur as int));
        let n = match parse_decimal(s, cur, d) {
            Some(n) => n,
            None => {
                assert(all[out@.len() as int] == rest[0]);
                return None;
            },
        };
        let ghost before = out@;
        out.push(n);
        if cur < d && d < s.len() && s[d] == '.' && d + 1 < s.len() && s[d + 1] >= '0' && s[d + 1]
            <= '9' {
            proof {
                let tail = release_numbers(s@, d + 1);
                assert(rest == seq![number_at(s@, cur as int)] + tail);
                assert forall|k: int| 0 <= k < tail.len() implies #[trigger] tail[k] == all[out@.len()
                    + k] by {
                    assert(tail[k] == rest[k + 1]);
                }
                assert forall|k: int| 0 <= k < out@.len() implies #[trigger] out@[k] as nat
                    == all[k] by {
                    if k < before.len() {
                        assert(before[k] as nat == all[k]);
                    } else {
                        assert(rest[0] == all[before.len() as int]);
                    }
                }
            }
            cur = d + 1;
        } else {
            proof {
                assert(rest == seq![number_at(s@, cur as int)]);
                assert forall|k: int| 0 <= k < out@.len() implies #[trigger] out@[k] as nat
                    == all[k] by {
                    if k < before.len() {
                        assert(before[k] as nat == all[k]);
                    } else {
                        assert(rest[0] == all[before.len() as int]);
                    }
                }
                assert forall|k: int| 0 <= k < all.len() implies #[trigger] all[k]
                    <= u32::MAX by {
                    assert(out@[k] as nat == all[k]);
                }
            }
            return Some(out);
        }
    }
}

fn digit_here(s: &Vec<char>, i: usize) -> (r: bool)
    ensures
        r == digit_at(s@, i as int),
{
    i < s.len() && s[i] >= '0' && s[i] <= '9'
}

fn tag_here(s: &Vec<char>, i: usize, tag: &str) -> (r: bool)
    requires
        i <= s@.len(),
    ensures
        r == tagged_at(s@, i as int, tag@),
        r ==> i + tag@.len() < s@.len(),
{
    let len = s.len();
    if starts_at(s, i, tag) {
        let n = tag.unicode_len();
        digit_here(s, i + n)
    } else {
        false
    }
}

fn scan_marker(s: &Vec<char>, i: usize) -> (r: Option<(Marker, usize)>)
    requires
        i <= s@.len(),
    ensures
        match r {
            Some((m, d)) => marker_at(s@, i as int) == Some((m, d as int)) && d < s@.len(),
            None => marker_at(s@, i as int) is None,
        },
{
    proof {
        reveal_strlit("alpha");
        reveal_strlit("a");
        reveal_strlit("beta");
        reveal_strlit("b");
        reveal_strlit("rc");
    }
    let len = s.len();
    if tag_here(s, i, "alpha") {
        Some((Marker::Alpha, i + 5))
    } else if tag_here(s, i, "a") {
        Some((Marker::Alpha, i + 1))
    } else if tag_here(s, i, "beta") {
        Some((Marker::Beta, i + 4))
    } else if tag_here(s, i, "b") {
        Some((Marker::Beta, i + 1))
    } else if tag_here(s, i, "rc") {
        Some((Marker::ReleaseCandidate, i + 2))
    } else {
        None
    }
}

fn mark(m: Marker, n: u32) -> (r: PreRelease)
    ensures
        r == marked(m, n),
{
    match m {
        Marker::Alpha => PreRelease::Alpha(n),
        Marker::Beta => PreRelease::Beta(n),
        Marker::ReleaseCandidate => PreRelease::ReleaseCandidate(n),
    }
}

/// The failure of `kind` for `text`.
pub fn refuse(kind: ParseErrorKind, text: &str) -> (r: ParseError)
    ensures
        r.kind == kind,
        r.input@ == text@,
{
    ParseError { kind, input: text.to_owned() }
}

/// The positions that split a version text into its parts.
pub struct Spans {
    pub epoch_digits: usize,
    pub release_start: usize,
    pub release_end: usize,
    pub marker: Option<(Marker, usize)>,
    pub marker_end: usize,
    pub has_post: bool,
    pub post_end: usize,
    pub has_dev: bool,
    pub public_end: usize,
}

/// The positions are those that the grammar gives for `s`.
pub open spec fn spans_of(sp: Spans, s: Seq<char>) -> bool {
    &&& sp.epoch_digits == digits_end(s, 0)
    &&& sp.release_start == epoch_end(s)
    &&& sp.release_end == release_end(s, sp.release_start as int)
    &&& match sp.marker {
        Some((m, d)) => marker_at(s, sp.release_end as int) == Some((m, d as int)),
        None => marker_at(s, sp.release_end as int) is None,
    }
    &&& sp.marker_end == marker_end(s, sp.release_end as int)
    &&& sp.has_post == tagged_at(s, sp.marker_end as int, ".post"@)
    &&& sp.post_end == tagged_end(s, sp.marker_end as int, ".post"@)
    &&& sp.has_dev == tagged_at(s, sp.post_end as int, ".dev"@)
    &&& sp.public_end == public_end(s)
    &&& sp.public_end <= s.len()
}

/// Splits a text by the grammar, if it is well-formed.
pub fn scan_version(s: &Vec<char>) -> (r: Option<Spans>)
    ensures
        r is Some <==> well_formed(s@),
        r matches Some(sp) ==> spans_of(sp, s@),
{
    proof {
        reveal_strlit(".post");
        reveal_strlit(".dev");
    }
    let n = s.len();
    let d0 = scan_digits(s, 0);
    let i0: usize = if 0 < d0 && d0 < n && s[d0] == '!' {
        d0 + 1
    } else {
        0
    };
    let i1 = scan_release(s, i0);
    let pre = scan_marker(s, i1);
    let i2 = match pre {
        Some((_, d)) => scan_digits(s, d),
        None => i1,
    };
    let has_post = tag_here(s, i2, ".post");
    let i3 = if has_post {
        scan_digits(s, i2 + 5)
    } else {
        i2
    };
    let has_dev = tag_here(s, i3, ".dev");
    let i4 = if has_dev {
        scan_digits(s, i3 + 4)
    } else {
        i3
    };
    assert(i4 == public_end(s@));
    if !digit_here(s, i0) {
        return None;
    }
    if i4 < n && !(s[i4] == '+' && i4 + 1 < n) {
        return None;
    }
    Some(
        Spans {
            epoch_digits: d0,
            release_start: i0,
            release_end: i1,
            marker: pre,
            marker_end: i2,
            has_post,
            post_end: i3,
            has_dev,
            public_end: i4,
        },
    )
}

/// Reads an optional number whose digits start at `from`.
fn read_number(s: &Vec<char>, present: bool, from: usize) -> (r: Option<Option<u32>>)
    requires
        present ==> from <= s@.len(),
    ensures
        r is Some <==> fits_opt(
            if present {
                Some(number_at(s@, from as int))
            } else {
                None
            },
        ),
        r matches Some(x) ==> x == narrow_opt(
            if present {
                Some(number_at(s@, from as int))
            } else {
                None
            },
        ),
{
    if present {
        let d = scan_digits(s, from);
        match parse_decimal(s, from, d) {
            Some(k) => Some(Some(k)),
            None => None,
        }
    } else {
        Some(None)
    }
}

/// Reads the numbers of a text that was split by the grammar.
fn read_version(s: &Vec<char>, text: &str, sp: &Spans) -> (r: Option<Version>)
    requires
        s@ == text@,
        well_formed(s@),
        spans_of(*sp, s@),
    ensures
        r is Some <==> fits(shape_of(s@)),
        r matches Some(v) ==> v@ == narrow(shape_of(s@)),
{
    proof {
        reveal_strlit(".post");
        reveal_strlit(".dev");
    }
    let n = s.len();
    let ghost shape = shape_of(s@);
    let epoch = match read_number(s, sp.release_start > 0, 0) {
        Some(e) => e,
        None => {
            return None;
        },
    };
    assert(epoch == narrow_opt(shape.epoch));
    let versions = match read_release(s, sp.release_start) {
        Some(v) => v,
        None => {
            return None;
        },
    };
    let pre_release = match sp.marker {
        Some((m, d)) => match read_number(s, true, d) {
            Some(Some(k)) => Some(mark(m, k)),
            _ => {
                return None;
            },
        },
        None => None,
    };
    let post_release = if sp.has_post {
        match read_number(s, true, sp.marker_end + 5) {
            Some(k) => k,
            None => {
                return None;
            },
        }
    } else {
        None
    };
    let dev_release = if sp.has_dev {
        match read_number(s, true, sp.post_end + 4) {
            Some(k) => k,
            None => {
                return None;
            },
        }
    } else {
        None
    };
    let local = if sp.public_end < n {
        Some(text.substring_char(sp.public_end + 1, n).to_owned())
    } else {
        None
    };
    let v = Version { epoch, versions, pre_release, post_release, dev_release, local };
    proof {
        assert(fits(shape));
        assert(v@.release =~= narrow(shape).release);
        assert(v@ == narrow(shape));
    }
    Some(v)
}

impl Version {
    /// Parses a version text. Succeeds exactly on the well-formed texts whose
    /// numbers fit 32 bits; otherwise says which of the two failed, and
    /// carries the text.
    pub fn from_str(text: &str) -> (r: Result<Version, ParseError>)
        ensures
            match r {
                Ok(v) => parse_version(text@) == Ok::<VersionView, ParseErrorKind>(v@),
                Err(e) => parse_version(text@) == Err::<VersionView, ParseErrorKind>(e.kind)
                    && e.input@ == text@,
            },
    {
        let s = to_chars(text);
        match scan_version(&s) {
            None => Err(refuse(ParseErrorKind::Syntax, text)),
            Some(sp) => match read_version(&s, text, &sp) {
                Some(v) => Ok(v),
                None => Err(refuse(ParseErrorKind::NumberOutOfRange, text)),
            },
        }
    }
}

} // verus!
