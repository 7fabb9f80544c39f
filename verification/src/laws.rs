//! What holds between spelling and reading: the canonical spelling of
//! every version that a text can denote is read back as that version, and
//! so is the file name of every wheel whose fields a name can hold.

use crate::error::ParseErrorKind;
use crate::grammar::{digit_at, epoch_end, fits, marked, marker_at, marker_end, narrow, number_at, parse_version, public_end, release_end, release_numbers, segment_follows, shape_of, tagged_at, tagged_end, tagged_number, well_formed, Marker, VersionShape};
use crate::text::{decimal_digits, decimal_value, digit_char, digit_of, digits_end, ends_with, has_at, is_digit};
use crate::version::{dev_text, epoch_text, local_text, opt_pre_text, post_text, pre_number, pre_tag, pre_text, release_text, version_text, PreRelease, VersionView};
use crate::wheel::{cut_before, last_hyphen, parse_wheel, wheel_cuts, wheel_text, WheelView};
use crate::specifier::{is_space, leading_operator, next_comma, operator_text, parse_set, parse_set_from, parse_specifier, set_text, specifier_text, token_specifier, trim_end, trim_start, trimmed, Operator, SpecifierView};
use vstd::prelude::*;

verus! {

/// A version that some text denotes: it has a release segment, and its
/// local label, if it has one, is not empty.
pub open spec fn denotable(v: VersionView) -> bool {
    v.release.len() >= 1 && (v.local matches Some(l) ==> l.len() >= 1)
}

/// The canonical spelling of a number is a non-empty run of digits that
/// denotes the number.
pub proof fn lemma_decimal_digits(n: nat)
    ensures
        decimal_digits(n).len() >= 1,
        forall|k: int| 0 <= k < decimal_digits(n).len() ==> is_digit(#[trigger] decimal_digits(n)[k]),
        decimal_value(decimal_digits(n)) == n,
    decreases n,
{
    let d = decimal_digits(n);
    if n < 10 {
        assert(d.drop_last().len() == 0);
        assert(decimal_value(d.drop_last()) == 0);
        assert(d.last() == digit_char(n));
        assert(digit_of(digit_char(n)) == n);
    } else {
        lemma_decimal_digits(n / 10);
        let init = decimal_digits(n / 10);
        assert(d.drop_last() =~= init);
        assert(d.last() == digit_char(n % 10));
        assert(digit_of(digit_char(n % 10)) == n % 10);
        assert forall|k: int| 0 <= k < d.len() implies is_digit(#[trigger] d[k]) by {
            if k < init.len() {
                assert(d[k] == init[k]);
            }
        }
    }
}

/// A text that holds `a + b` at `i` holds `a` at `i` and `b` after it.
pub proof fn lemma_has_at_split(s: Seq<char>, i: int, a: Seq<char>, b: Seq<char>)
    requires
        has_at(s, i, a + b),
    ensures
        has_at(s, i, a),
        has_at(s, i + a.len(), b),
{
    let whole = s.subrange(i, i + (a + b).len());
    assert(s.subrange(i, i + a.len()) =~= whole.subrange(0, a.len() as int));
    assert(whole.subrange(0, a.len() as int) =~= a);
    assert(s.subrange(i + a.len(), i + a.len() + b.len()) =~= whole.subrange(
        a.len() as int,
        (a + b).len() as int,
    ));
    assert(whole.subrange(a.len() as int, (a + b).len() as int) =~= b);
}

/// A text that holds `pat` at `i` holds each of its characters.
pub proof fn lemma_has_at_char(s: Seq<char>, i: int, pat: Seq<char>, k: int)
    requires
        has_at(s, i, pat),
        0 <= k < pat.len(),
    ensures
        i + k < s.len(),
        s[i + k] == pat[k],
{
    assert(s.subrange(i, i + pat.len())[k] == s[i + k]);
}

/// A run of digits that ends before a character that is no digit is the
/// whole digit run.
pub proof fn lemma_digit_run(s: Seq<char>, i: int, run: Seq<char>)
    requires
        has_at(s, i, run),
        forall|k: int| 0 <= k < run.len() ==> is_digit(#[trigger] run[k]),
        !digit_at(s, i + run.len()),
    ensures
        digits_end(s, i) == i + run.len(),
    decreases run.len(),
{
    if run.len() > 0 {
        lemma_has_at_char(s, i, run, 0);
        let rest = run.subrange(1, run.len() as int);
        assert(run =~= seq![run[0]] + rest);
        lemma_has_at_split(s, i, seq![run[0]], rest);
        assert forall|k: int| 0 <= k < rest.len() implies is_digit(#[trigger] rest[k]) by {
            assert(rest[k] == run[k + 1]);
        }
        lemma_digit_run(s, i + 1, rest);
    }
}

/// Where a text holds the spelling of `n`, not followed by a digit, the
/// grammar reads `n`.
pub proof fn lemma_number(s: Seq<char>, i: int, n: nat)
    requires
        has_at(s, i, decimal_digits(n)),
        !digit_at(s, i + decimal_digits(n).len()),
    ensures
        digits_end(s, i) == i + decimal_digits(n).len(),
        number_at(s, i) == n,
        digit_at(s, i),
{
    lemma_decimal_digits(n);
    lemma_digit_run(s, i, decimal_digits(n));
    lemma_has_at_char(s, i, decimal_digits(n), 0);
}

/// The spelling of two or more segments starts with the first segment
/// and a dot.
pub proof fn lemma_release_text_left(r: Seq<u32>)
    requires
        r.len() >= 2,
    ensures
        release_text(r) == decimal_digits(r[0] as nat) + seq!['.'] + release_text(
            r.subrange(1, r.len() as int),
        ),
    decreases r.len(),
{
    let tail = r.subrange(1, r.len() as int);
    let init = r.drop_last();
    if r.len() == 2 {
        assert(release_text(init) == decimal_digits(r[0] as nat));
        assert(release_text(tail) == decimal_digits(r[1] as nat));
    } else {
        lemma_release_text_left(init);
        assert(init.subrange(1, init.len() as int) =~= tail.drop_last());
        assert(release_text(tail) == release_text(tail.drop_last()) + seq!['.'] + decimal_digits(
            tail.last() as nat,
        ));
        assert(release_text(r) =~= decimal_digits(r[0] as nat) + seq!['.'] + release_text(tail));
    }
}

/// A position where the release segments must end: no digit, no dot with
/// a digit, no `!`.
pub open spec fn release_stop(s: Seq<char>, i: int) -> bool {
    !digit_at(s, i) && !(0 <= i < s.len() && s[i] == '.' && digit_at(s, i + 1)) && !(0 <= i
        < s.len() && s[i] == '!')
}

/// Where a text holds the spelling of release segments, and they end
/// there, the grammar reads those segments.
pub proof fn lemma_release(s: Seq<char>, i: int, r: Seq<u32>)
    requires
        r.len() >= 1,
        has_at(s, i, release_text(r)),
        release_stop(s, i + release_text(r).len()),
    ensures
        release_end(s, i) == i + release_text(r).len(),
        release_numbers(s, i) == Seq::new(r.len(), |k: int| r[k] as nat),
        digit_at(s, i),
        digits_end(s, i) == i + decimal_digits(r[0] as nat).len(),
        r.len() >= 2 ==> s[digits_end(s, i)] == '.',
        r.len() == 1 ==> digits_end(s, i) == i + release_text(r).len(),
    decreases r.len(),
{
    let first = decimal_digits(r[0] as nat);
    if r.len() == 1 {
        assert(release_text(r) == first);
        lemma_number(s, i, r[0] as nat);
        assert(release_numbers(s, i) =~= Seq::new(r.len(), |k: int| r[k] as nat));
    } else {
        let tail = r.subrange(1, r.len() as int);
        lemma_release_text_left(r);
        lemma_has_at_split(s, i, first + seq!['.'], release_text(tail));
        lemma_has_at_split(s, i, first, seq!['.']);
        lemma_has_at_char(s, i + first.len(), seq!['.'], 0);
        let next = i + first.len() + 1;
        assert(release_text(r).len() == first.len() + 1 + release_text(tail).len());
        lemma_release(s, next, tail);
        lemma_number(s, i, r[0] as nat);
        assert(segment_follows(s, i));
        assert(release_numbers(s, i) == seq![number_at(s, i)] + release_numbers(s, next));
        assert(release_numbers(s, i) =~= Seq::new(r.len(), |k: int| r[k] as nat)) by {
            assert forall|k: int| 0 <= k < r.len() implies release_numbers(s, i)[k] == r[k] as nat by {
                if k > 0 {
                    assert(tail[k - 1] == r[k]);
                }
            }
        }
    }
}

/// The text ends at `i`, or a local label starts there.
pub open spec fn label_stop(s: Seq<char>, i: int) -> bool {
    i == s.len() || (0 <= i < s.len() && s[i] == '+')
}

/// As [`label_stop`], or `.d` stands at `i`.
pub open spec fn dev_stop(s: Seq<char>, i: int) -> bool {
    label_stop(s, i) || (0 <= i && i + 1 < s.len() && s[i] == '.' && s[i + 1] == 'd')
}

/// As [`dev_stop`], or `.p` stands at `i`.
pub open spec fn post_stop(s: Seq<char>, i: int) -> bool {
    dev_stop(s, i) || (0 <= i && i + 1 < s.len() && s[i] == '.' && s[i + 1] == 'p')
}

/// As [`post_stop`], or a letter that starts a marker stands at `i`.
pub open spec fn marker_stop(s: Seq<char>, i: int) -> bool {
    post_stop(s, i) || (0 <= i < s.len() && (s[i] == 'a' || s[i] == 'b' || s[i] == 'r'))
}

/// The tags of the grammar, character by character.
pub proof fn lemma_tags()
    ensures
        ".post"@ == seq!['.', 'p', 'o', 's', 't'],
        ".dev"@ == seq!['.', 'd', 'e', 'v'],
        "alpha"@ == seq!['a', 'l', 'p', 'h', 'a'],
        "beta"@ == seq!['b', 'e', 't', 'a'],
        "a"@ == seq!['a'],
        "b"@ == seq!['b'],
        "rc"@ == seq!['r', 'c'],
{
    reveal_strlit(".post");
    reveal_strlit(".dev");
    reveal_strlit("alpha");
    reveal_strlit("beta");
    reveal_strlit("a");
    reveal_strlit("b");
    reveal_strlit("rc");
    assert(".post"@ =~= seq!['.', 'p', 'o', 's', 't']);
    assert(".dev"@ =~= seq!['.', 'd', 'e', 'v']);
    assert("alpha"@ =~= seq!['a', 'l', 'p', 'h', 'a']);
    assert("beta"@ =~= seq!['b', 'e', 't', 'a']);
    assert("a"@ =~= seq!['a']);
    assert("b"@ =~= seq!['b']);
    assert("rc"@ =~= seq!['r', 'c']);
}

/// Where a text holds a tag and the spelling of `n`, the grammar reads
/// the tagged number.
pub proof fn lemma_tagged(s: Seq<char>, i: int, tag: Seq<char>, n: nat)
    requires
        has_at(s, i, tag + decimal_digits(n)),
        !digit_at(s, i + tag.len() + decimal_digits(n).len()),
    ensures
        tagged_at(s, i, tag),
        tagged_end(s, i, tag) == i + tag.len() + decimal_digits(n).len(),
        tagged_number(s, i, tag) == Some(n),
{
    lemma_has_at_split(s, i, tag, decimal_digits(n));
    lemma_number(s, i + tag.len(), n);
}

/// Where no tag can start, the grammar reads none.
pub proof fn lemma_untagged(s: Seq<char>, i: int)
    ensures
        dev_stop(s, i) ==> !tagged_at(s, i, ".post"@),
        label_stop(s, i) ==> !tagged_at(s, i, ".dev"@),
        post_stop(s, i) ==> marker_at(s, i) is None,
{
    lemma_tags();
    if has_at(s, i, ".post"@) {
        lemma_has_at_char(s, i, ".post"@, 0);
        lemma_has_at_char(s, i, ".post"@, 1);
    }
    if has_at(s, i, ".dev"@) {
        lemma_has_at_char(s, i, ".dev"@, 0);
    }
    if has_at(s, i, "alpha"@) {
        lemma_has_at_char(s, i, "alpha"@, 0);
    }
    if has_at(s, i, "a"@) {
        lemma_has_at_char(s, i, "a"@, 0);
    }
    if has_at(s, i, "beta"@) {
        lemma_has_at_char(s, i, "beta"@, 0);
    }
    if has_at(s, i, "b"@) {
        lemma_has_at_char(s, i, "b"@, 0);
    }
    if has_at(s, i, "rc"@) {
        lemma_has_at_char(s, i, "rc"@, 0);
    }
}

/// The kind of a marker.
pub open spec fn kind_of(p: PreRelease) -> Marker {
    match p {
        PreRelease::Alpha(_) => Marker::Alpha,
        PreRelease::Beta(_) => Marker::Beta,
        PreRelease::ReleaseCandidate(_) => Marker::ReleaseCandidate,
    }
}

/// Where a text holds the spelling of a marker, the grammar reads it.
pub proof fn lemma_marker(s: Seq<char>, i: int, p: PreRelease)
    requires
        has_at(s, i, pre_text(p)),
        !digit_at(s, i + pre_text(p).len()),
    ensures
        marker_at(s, i) == Some((kind_of(p), i + pre_tag(p).len())),
        marker_end(s, i) == i + pre_text(p).len(),
        number_at(s, i + pre_tag(p).len()) == pre_number(p) as nat,
{
    lemma_tags();
    lemma_tagged(s, i, pre_tag(p), pre_number(p) as nat);
    lemma_has_at_char(s, i, pre_tag(p), 0);
    if has_at(s, i, "alpha"@) {
        lemma_has_at_char(s, i, "alpha"@, 0);
        lemma_has_at_char(s, i, "alpha"@, 1);
    }
    if has_at(s, i, "a"@) {
        lemma_has_at_char(s, i, "a"@, 0);
    }
    if has_at(s, i, "beta"@) {
        lemma_has_at_char(s, i, "beta"@, 0);
        lemma_has_at_char(s, i, "beta"@, 1);
    }
    if has_at(s, i, "b"@) {
        lemma_has_at_char(s, i, "b"@, 0);
    }
    if has_at(s, i, "rc"@) {
        lemma_has_at_char(s, i, "rc"@, 0);
    }
    match p {
        PreRelease::Alpha(_) => {
            assert(tagged_at(s, i, "a"@));
        },
        PreRelease::Beta(_) => {
            assert(tagged_at(s, i, "b"@));
        },
        PreRelease::ReleaseCandidate(_) => {
            assert(tagged_at(s, i, "rc"@));
        },
    }
}

/// Where the parts of a version's spelling start.
pub open spec fn part_starts(v: VersionView) -> (int, int, int, int, int) {
    let at0 = epoch_text(v.epoch).len() as int;
    let at1 = at0 + release_text(v.release).len();
    let at2 = at1 + opt_pre_text(v.pre_release).len();
    let at3 = at2 + post_text(v.post_release).len();
    let at4 = at3 + dev_text(v.dev_release).len();
    (at0, at1, at2, at3, at4)
}

/// The spelling of a version holds its parts one after the other, and
/// each part starts with what tells it from the parts before it.
pub proof fn lemma_layout(v: VersionView)
    ensures
        ({
            let s = version_text(v);
            let (at0, at1, at2, at3, at4) = part_starts(v);
            &&& has_at(s, 0, epoch_text(v.epoch))
            &&& has_at(s, at0, release_text(v.release))
            &&& has_at(s, at1, opt_pre_text(v.pre_release))
            &&& has_at(s, at2, post_text(v.post_release))
            &&& has_at(s, at3, dev_text(v.dev_release))
            &&& has_at(s, at4, local_text(v.local))
            &&& at4 + local_text(v.local).len() == s.len()
            &&& marker_stop(s, at1)
            &&& post_stop(s, at2)
            &&& dev_stop(s, at3)
            &&& label_stop(s, at4)
        }),
{
    let s = version_text(v);
    let (at0, at1, at2, at3, at4) = part_starts(v);
    let e = epoch_text(v.epoch);
    let r = release_text(v.release);
    let p = opt_pre_text(v.pre_release);
    let po = post_text(v.post_release);
    let d = dev_text(v.dev_release);
    let l = local_text(v.local);
    assert(s.subrange(0, s.len() as int) =~= s);
    lemma_has_at_split(s, 0, e + r + p + po + d, l);
    lemma_has_at_split(s, 0, e + r + p + po, d);
    lemma_has_at_split(s, 0, e + r + p, po);
    lemma_has_at_split(s, 0, e + r, p);
    lemma_has_at_split(s, 0, e, r);
    if l.len() > 0 {
        lemma_has_at_char(s, at4, l, 0);
    }
    assert(label_stop(s, at4));
    match v.dev_release {
        Some(n) => {
            lemma_decimal_digits(n as nat);
            lemma_has_at_char(s, at3, d, 0);
            lemma_has_at_char(s, at3, d, 1);
        },
        None => {},
    }
    assert(dev_stop(s, at3));
    match v.post_release {
        Some(n) => {
            lemma_decimal_digits(n as nat);
            lemma_has_at_char(s, at2, po, 0);
            lemma_has_at_char(s, at2, po, 1);
        },
        None => {},
    }
    assert(post_stop(s, at2));
    match v.pre_release {
        Some(x) => {
            lemma_decimal_digits(pre_number(x) as nat);
            lemma_has_at_char(s, at1, p, 0);
        },
        None => {},
    }
    assert(marker_stop(s, at1));
}

/// Reading the canonical spelling of a version gives the version back:
/// for every version that a text can denote, the spelling is well-formed
/// and denotes that version. So parsing a canonical text and spelling the
/// result reproduces the text.
#[verifier::rlimit(60)]
pub proof fn lemma_round_trip(v: VersionView)
    requires
        denotable(v),
    ensures
        parse_version(version_text(v)) == Ok::<VersionView, ParseErrorKind>(v),
{
    let s = version_text(v);
    let (at0, at1, at2, at3, at4) = part_starts(v);
    lemma_layout(v);
    lemma_tags();
    lemma_untagged(s, at1);
    lemma_untagged(s, at2);
    lemma_untagged(s, at3);
    lemma_untagged(s, at4);
    // the release segments, and the epoch before them
    lemma_release(s, at0, v.release);
    match v.epoch {
        Some(n) => {
            lemma_decimal_digits(n as nat);
            lemma_has_at_split(s, 0, decimal_digits(n as nat), seq!['!']);
            lemma_has_at_char(s, decimal_digits(n as nat).len() as int, seq!['!'], 0);
            lemma_number(s, 0, n as nat);
        },
        None => {},
    }
    assert(epoch_end(s) == at0);
    assert(release_end(s, at0) == at1);
    // the marker
    match v.pre_release {
        Some(x) => {
            lemma_marker(s, at1, x);
        },
        None => {},
    }
    assert(marker_end(s, at1) == at2);
    // the post-release and the dev-release
    match v.post_release {
        Some(n) => {
            lemma_tagged(s, at2, ".post"@, n as nat);
        },
        None => {},
    }
    assert(tagged_end(s, at2, ".post"@) == at3);
    match v.dev_release {
        Some(n) => {
            lemma_tagged(s, at3, ".dev"@, n as nat);
        },
        None => {},
    }
    assert(tagged_end(s, at3, ".dev"@) == at4);
    assert(public_end(s) == at4);
    // the local label
    match v.local {
        Some(t) => {
            lemma_has_at_split(s, at4, seq!['+'], t);
            assert(s.subrange(at4 + 1, s.len() as int) =~= t);
        },
        None => {},
    }
    assert(well_formed(s));
    let shape = shape_of(s);
    assert(shape.release == Seq::new(v.release.len(), |k: int| v.release[k] as nat));
    assert(fits(shape));
    assert(narrow(shape).release =~= v.release);
    assert(narrow(shape).epoch == v.epoch);
    assert(narrow(shape).pre_release == v.pre_release);
    assert(narrow(shape).post_release == v.post_release);
    assert(narrow(shape).dev_release == v.dev_release);
    assert(narrow(shape).local == v.local);
}

/// A digit run does not end before it starts.
pub proof fn lemma_digits_end_forward(s: Seq<char>, i: int)
    ensures
        digits_end(s, i) >= i,
    decreases s.len() - i,
{
    if 0 <= i < s.len() && is_digit(s[i]) {
        lemma_digits_end_forward(s, i + 1);
    }
}

/// The release segments do not end before they start.
pub proof fn lemma_release_end_forward(s: Seq<char>, i: int)
    ensures
        release_end(s, i) >= i,
    decreases s.len() - i,
{
    lemma_digits_end_forward(s, i);
    if segment_follows(s, i) {
        lemma_release_end_forward(s, digits_end(s, i) + 1);
    }
}

/// The part of a text before its local label does not end before the
/// text starts.
pub proof fn lemma_public_end_forward(s: Seq<char>)
    ensures
        public_end(s) >= 0,
{
    let i0 = epoch_end(s);
    let i1 = release_end(s, i0);
    let i2 = marker_end(s, i1);
    let i3 = tagged_end(s, i2, ".post"@);
    lemma_digits_end_forward(s, 0);
    lemma_release_end_forward(s, i0);
    match marker_at(s, i1) {
        Some((_, d)) => {
            lemma_digits_end_forward(s, d);
        },
        None => {},
    }
    lemma_digits_end_forward(s, i2 + ".post"@.len());
    lemma_digits_end_forward(s, i3 + ".dev"@.len());
}

/// Every version that the grammar reads is one that a text can denote.
pub proof fn lemma_parsed_is_denotable(s: Seq<char>)
    ensures
        parse_version(s) matches Ok(v) ==> denotable(v),
{
    if let Ok(v) = parse_version(s) {
        let end = public_end(s);
        lemma_public_end_forward(s);
        assert(release_numbers(s, epoch_end(s)).len() >= 1);
        if end < s.len() {
            let l = s.subrange(end + 1, s.len() as int);
            assert(v.local == Some(l));
        }
    }
}

/// The canonical spelling of a parsed version parses to the same version:
/// spelling normalises a text, and a second pass changes nothing.
pub proof fn lemma_reparse(s: Seq<char>)
    ensures
        parse_version(s) matches Ok(v) ==> parse_version(version_text(v)) == parse_version(s),
{
    if let Ok(v) = parse_version(s) {
        lemma_parsed_is_denotable(s);
        lemma_round_trip(v);
    }
}

/// A canonical text is left as it is: where `s` is the spelling of a
/// version that a text can denote, `s` parses, and the spelling of what
/// it parses to is `s` again.
pub proof fn lemma_canonical_text(s: Seq<char>, v: VersionView)
    requires
        denotable(v),
        s == version_text(v),
    ensures
        parse_version(s) matches Ok(w) && version_text(w) == s,
{
    lemma_round_trip(v);
}

/// The spelling of a version starts with a digit.
pub proof fn lemma_starts_with_digit(v: VersionView)
    requires
        denotable(v),
    ensures
        digit_at(version_text(v), 0),
{
    lemma_round_trip(v);
    let s = version_text(v);
    if epoch_end(s) > 0 {
        assert(digits_end(s, 0) > 0);
    }
}

/// A text that holds an operator and then a digit starts with that
/// operator and no other.
pub proof fn lemma_leading_operator(s: Seq<char>, operator: Operator)
    requires
        has_at(s, 0, operator_text(operator)),
        digit_at(s, operator_text(operator).len() as int),
    ensures
        leading_operator(s) == Some(operator),
{
    let op = operator_text(operator);
    lemma_has_at_char(s, 0, op, 0);
    let first = s[0];
    let second = s[1];
    assert(op.len() == 2 ==> second == op[1]) by {
        if op.len() == 2 {
            lemma_has_at_char(s, 0, op, 1);
        }
    }
    assert(has_at(s, 0, operator_text(Operator::Compatible)) ==> first == '~' && second == '=') by {
        if has_at(s, 0, operator_text(Operator::Compatible)) {
            lemma_has_at_char(s, 0, operator_text(Operator::Compatible), 0);
            lemma_has_at_char(s, 0, operator_text(Operator::Compatible), 1);
        }
    }
    assert(has_at(s, 0, operator_text(Operator::Equals)) ==> first == '=' && second == '=') by {
        if has_at(s, 0, operator_text(Operator::Equals)) {
            lemma_has_at_char(s, 0, operator_text(Operator::Equals), 0);
            lemma_has_at_char(s, 0, operator_text(Operator::Equals), 1);
        }
    }
    assert(has_at(s, 0, operator_text(Operator::NotEquals)) ==> first == '!' && second == '=') by {
        if has_at(s, 0, operator_text(Operator::NotEquals)) {
            lemma_has_at_char(s, 0, operator_text(Operator::NotEquals), 0);
            lemma_has_at_char(s, 0, operator_text(Operator::NotEquals), 1);
        }
    }
    assert(has_at(s, 0, operator_text(Operator::GreaterThanOrEqual)) ==> first == '>' && second
        == '=') by {
        if has_at(s, 0, operator_text(Operator::GreaterThanOrEqual)) {
            lemma_has_at_char(s, 0, operator_text(Operator::GreaterThanOrEqual), 0);
            lemma_has_at_char(s, 0, operator_text(Operator::GreaterThanOrEqual), 1);
        }
    }
    assert(has_at(s, 0, operator_text(Operator::LessThanOrEqual)) ==> first == '<' && second
        == '=') by {
        if has_at(s, 0, operator_text(Operator::LessThanOrEqual)) {
            lemma_has_at_char(s, 0, operator_text(Operator::LessThanOrEqual), 0);
            lemma_has_at_char(s, 0, operator_text(Operator::LessThanOrEqual), 1);
        }
    }
    assert(has_at(s, 0, operator_text(Operator::GreaterThan)) ==> first == '>') by {
        if has_at(s, 0, operator_text(Operator::GreaterThan)) {
            lemma_has_at_char(s, 0, operator_text(Operator::GreaterThan), 0);
        }
    }
    assert(has_at(s, 0, operator_text(Operator::LessThan)) ==> first == '<') by {
        if has_at(s, 0, operator_text(Operator::LessThan)) {
            lemma_has_at_char(s, 0, operator_text(Operator::LessThan), 0);
        }
    }
}

/// Reading the spelling of a requirement gives the requirement back,
/// where its version is one that a text can denote.
pub proof fn lemma_specifier_round_trip(sp: SpecifierView)
    requires
        denotable(sp.version),
    ensures
        parse_specifier(specifier_text(sp)) == Ok::<SpecifierView, ParseErrorKind>(sp),
{
    let op = operator_text(sp.operator);
    let vt = version_text(sp.version);
    let s = specifier_text(sp);
    lemma_round_trip(sp.version);
    lemma_starts_with_digit(sp.version);
    assert(s.subrange(0, s.len() as int) =~= s);
    lemma_has_at_split(s, 0, op, vt);
    lemma_has_at_char(s, op.len() as int, vt, 0);
    lemma_leading_operator(s, sp.operator);
    assert(s.subrange(op.len() as int, s.len() as int) =~= vt);
}

/// A character that can stand inside a token of a requirement list: no
/// comma and no white space.
pub open spec fn token_char(c: char) -> bool {
    c != ',' && !is_space(c)
}

/// A text of such characters only.
pub open spec fn all_token(t: Seq<char>) -> bool {
    forall|k: int| 0 <= k < t.len() ==> token_char(#[trigger] t[k])
}

/// Two texts without comma and white space, joined, hold neither.
pub proof fn lemma_all_token_add(a: Seq<char>, b: Seq<char>)
    requires
        all_token(a),
        all_token(b),
    ensures
        all_token(a + b),
{
    assert forall|k: int| 0 <= k < (a + b).len() implies token_char(#[trigger] (a + b)[k]) by {
        if k < a.len() {
            assert((a + b)[k] == a[k]);
        } else {
            assert((a + b)[k] == b[k - a.len()]);
        }
    }
}

/// The spelling of a number holds no comma and no white space.
pub proof fn lemma_digits_token(n: nat)
    ensures
        all_token(decimal_digits(n)),
{
    lemma_decimal_digits(n);
    let d = decimal_digits(n);
    assert forall|k: int| 0 <= k < d.len() implies token_char(#[trigger] d[k]) by {
        assert(is_digit(d[k]));
    }
}

/// The spelling of release segments holds no comma and no white space.
pub proof fn lemma_release_token(r: Seq<u32>)
    ensures
        all_token(release_text(r)),
    decreases r.len(),
{
    if r.len() == 1 {
        lemma_digits_token(r[0] as nat);
    } else if r.len() >= 2 {
        lemma_release_token(r.drop_last());
        lemma_digits_token(r.last() as nat);
        lemma_all_token_add(release_text(r.drop_last()), seq!['.']);
        lemma_all_token_add(release_text(r.drop_last()) + seq!['.'], decimal_digits(r.last() as nat));
    }
}

/// The spelling of a requirement whose version has no local label holds
/// no comma and no white space, and is not empty.
pub proof fn lemma_specifier_token(sp: SpecifierView)
    requires
        sp.version.local is None,
    ensures
        all_token(specifier_text(sp)),
        specifier_text(sp).len() >= 1,
{
    let v = sp.version;
    let e = epoch_text(v.epoch);
    let r = release_text(v.release);
    let p = opt_pre_text(v.pre_release);
    let po = post_text(v.post_release);
    let d = dev_text(v.dev_release);
    let l = local_text(v.local);
    match v.epoch {
        Some(n) => {
            lemma_digits_token(n as nat);
            lemma_all_token_add(decimal_digits(n as nat), seq!['!']);
        },
        None => {},
    }
    lemma_release_token(v.release);
    match v.pre_release {
        Some(x) => {
            lemma_digits_token(pre_number(x) as nat);
            lemma_all_token_add(pre_tag(x), decimal_digits(pre_number(x) as nat));
        },
        None => {},
    }
    match v.post_release {
        Some(n) => {
            lemma_digits_token(n as nat);
            lemma_all_token_add(seq!['.', 'p', 'o', 's', 't'], decimal_digits(n as nat));
        },
        None => {},
    }
    match v.dev_release {
        Some(n) => {
            lemma_digits_token(n as nat);
            lemma_all_token_add(seq!['.', 'd', 'e', 'v'], decimal_digits(n as nat));
        },
        None => {},
    }
    lemma_all_token_add(e, r);
    lemma_all_token_add(e + r, p);
    lemma_all_token_add(e + r + p, po);
    lemma_all_token_add(e + r + p + po, d);
    lemma_all_token_add(e + r + p + po + d, l);
    lemma_all_token_add(operator_text(sp.operator), version_text(v));
}

/// A token that ends at a comma or at the end of the text: the next
/// comma is where it ends.
pub proof fn lemma_token_run(s: Seq<char>, i: int, token: Seq<char>)
    requires
        has_at(s, i, token),
        all_token(token),
        i + token.len() == s.len() || s[i + token.len()] == ',',
    ensures
        next_comma(s, i) == i + token.len(),
    decreases token.len(),
{
    if token.len() > 0 {
        lemma_has_at_char(s, i, token, 0);
        let rest = token.subrange(1, token.len() as int);
        assert(token =~= seq![token[0]] + rest);
        lemma_has_at_split(s, i, seq![token[0]], rest);
        assert forall|k: int| 0 <= k < rest.len() implies token_char(#[trigger] rest[k]) by {
            assert(rest[k] == token[k + 1]);
        }
        lemma_token_run(s, i + 1, rest);
    }
}

/// A token without white space is not changed by trimming.
pub proof fn lemma_trimmed(s: Seq<char>, i: int, token: Seq<char>)
    requires
        has_at(s, i, token),
        all_token(token),
        token.len() >= 1,
    ensures
        trimmed(s, i, i + token.len()) == token,
{
    lemma_has_at_char(s, i, token, 0);
    lemma_has_at_char(s, i, token, token.len() - 1);
    assert(trim_start(s, i, i + token.len()) == i);
    assert(trim_end(s, i, i + token.len()) == i + token.len());
}

/// The spelling of two or more requirements starts with the first and a
/// comma.
pub proof fn lemma_set_text_left(set: Seq<SpecifierView>, n: int)
    requires
        2 <= n <= set.len(),
    ensures
        set_text(set, n) == specifier_text(set[0]) + seq![','] + set_text(
            set.subrange(1, set.len() as int),
            n - 1,
        ),
    decreases n,
{
    let tail = set.subrange(1, set.len() as int);
    if n == 2 {
        assert(set_text(set, 1) == specifier_text(set[0]));
        assert(set_text(tail, 1) == specifier_text(tail[0]));
    } else {
        lemma_set_text_left(set, n - 1);
        assert(tail[n - 2] == set[n - 1]);
        assert(set_text(tail, n - 1) == set_text(tail, n - 2) + seq![','] + specifier_text(
            tail[n - 2],
        ));
        assert(set_text(set, n) =~= specifier_text(set[0]) + seq![','] + set_text(tail, n - 1));
    }
}

/// A requirement that the list law speaks of: its version is one that a
/// text can denote, and has no local label.
pub open spec fn plain_requirement(sp: SpecifierView) -> bool {
    denotable(sp.version) && sp.version.local is None
}

/// Where a text ends with the spelling of one or more requirements, the
/// list grammar reads them from there.
pub proof fn lemma_set_from(s: Seq<char>, i: int, set: Seq<SpecifierView>)
    requires
        set.len() >= 1,
        forall|k: int| 0 <= k < set.len() ==> plain_requirement(#[trigger] set[k]),
        has_at(s, i, set_text(set, set.len() as int)),
        i + set_text(set, set.len() as int).len() == s.len(),
    ensures
        parse_set_from(s, i) == set,
    decreases set.len(),
{
    let token = specifier_text(set[0]);
    assert(plain_requirement(set[0]));
    lemma_specifier_token(set[0]);
    lemma_specifier_round_trip(set[0]);
    if set.len() == 1 {
        assert(set_text(set, 1) == token);
        lemma_token_run(s, i, token);
        lemma_trimmed(s, i, token);
        assert(token_specifier(s, i, i + token.len()) == seq![set[0]]);
        assert(parse_set_from(s, i) =~= set);
    } else {
        let tail = set.subrange(1, set.len() as int);
        lemma_set_text_left(set, set.len() as int);
        let rest = set_text(tail, tail.len() as int);
        lemma_has_at_split(s, i, token + seq![','], rest);
        lemma_has_at_split(s, i, token, seq![',']);
        lemma_has_at_char(s, i + token.len(), seq![','], 0);
        lemma_token_run(s, i, token);
        lemma_trimmed(s, i, token);
        let e = i + token.len();
        assert(token_specifier(s, i, e) == seq![set[0]]);
        assert forall|k: int| 0 <= k < tail.len() implies plain_requirement(#[trigger] tail[k]) by {
            assert(tail[k] == set[k + 1]);
        }
        lemma_set_from(s, e + 1, tail);
        assert(parse_set_from(s, i) == token_specifier(s, i, e) + parse_set_from(s, e + 1));
        assert(parse_set_from(s, i) =~= set);
    }
}

/// Reading the spelling of a requirement list gives the list back, where
/// each version is one that a text can denote and has no local label.
pub proof fn lemma_set_round_trip(set: Seq<SpecifierView>)
    requires
        forall|k: int| 0 <= k < set.len() ==> plain_requirement(#[trigger] set[k]),
    ensures
        parse_set(set_text(set, set.len() as int)) == set,
{
    let s = set_text(set, set.len() as int);
    if set.len() == 0 {
        assert(s.len() == 0);
        assert(next_comma(s, 0) == 0);
        assert(trimmed(s, 0, 0).len() == 0);
        assert(leading_operator(trimmed(s, 0, 0)) is None);
        assert(parse_set(s) =~= set);
    } else {
        assert(s.subrange(0, s.len() as int) =~= s);
        lemma_set_from(s, 0, set);
    }
}

/// A field of a wheel name: not empty.
pub open spec fn plain_field(t: Seq<char>) -> bool {
    t.len() > 0
}

/// A text without hyphen.
pub open spec fn no_hyphen(t: Seq<char>) -> bool {
    forall|k: int| 0 <= k < t.len() ==> t[k] != '-'
}

/// A wheel whose file name reads back as itself: no build tag, five
/// fields that are not empty, and hyphens in the distribution only.
pub open spec fn spellable(w: WheelView) -> bool {
    w.build_tag is None && plain_field(w.distribution) && plain_field(w.version) && plain_field(
        w.python_tag,
    ) && plain_field(w.abi_tag) && plain_field(w.platform_tag) && no_hyphen(w.version)
        && no_hyphen(w.python_tag) && no_hyphen(w.abi_tag) && no_hyphen(w.platform_tag)
}

/// A hyphen with no hyphen between it and `i` is the last one before `i`.
pub proof fn lemma_last_hyphen_found(s: Seq<char>, i: int, j: int)
    requires
        0 <= j <= i,
        j < s.len(),
        s[j] == '-',
        forall|k: int| j < k <= i && k < s.len() ==> s[k] != '-',
    ensures
        last_hyphen(s, i) == j,
    decreases i - j,
{
    if i > j {
        lemma_last_hyphen_found(s, i - 1, j);
    }
}

/// A field that follows the hyphen at `h` and holds no hyphen itself:
/// the cut before the field's end is `h`.
pub proof fn lemma_cut(s: Seq<char>, h: int, field: Seq<char>)
    requires
        0 <= h,
        has_at(s, h, seq!['-'] + field),
        field.len() > 0,
        no_hyphen(field),
    ensures
        cut_before(s, h + 1 + field.len()) == h,
        s[h] == '-',
        has_at(s, h + 1, field),
{
    lemma_has_at_split(s, h, seq!['-'], field);
    lemma_has_at_char(s, h, seq!['-'], 0);
    assert forall|k: int| h < k <= h + field.len() - 1 && k < s.len() implies s[k] != '-' by {
        lemma_has_at_char(s, h + 1, field, k - h - 1);
    }
    lemma_last_hyphen_found(s, h + field.len() - 1, h);
}

/// Where the hyphens of a wheel's file name stand, and where its fields
/// end.
pub open spec fn wheel_starts(w: WheelView) -> (int, int, int, int, int) {
    let h1 = w.distribution.len() as int;
    let h2 = h1 + 1 + w.version.len();
    let h3 = h2 + 1 + w.python_tag.len();
    let h4 = h3 + 1 + w.abi_tag.len();
    let m = h4 + 1 + w.platform_tag.len();
    (h1, h2, h3, h4, m)
}

/// The file name of a wheel without build tag holds its fields one after
/// the other, each but the first behind a hyphen, and `.whl` at its end.
pub proof fn lemma_wheel_layout(w: WheelView)
    requires
        w.build_tag is None,
    ensures
        ({
            let s = wheel_text(w);
            let (h1, h2, h3, h4, m) = wheel_starts(w);
            &&& s.len() == m + 4
            &&& has_at(s, 0, w.distribution)
            &&& has_at(s, h1, seq!['-'] + w.version)
            &&& has_at(s, h2, seq!['-'] + w.python_tag)
            &&& has_at(s, h3, seq!['-'] + w.abi_tag)
            &&& has_at(s, h4, seq!['-'] + w.platform_tag)
            &&& has_at(s, m, seq!['.', 'w', 'h', 'l'])
        }),
{
    let s = wheel_text(w);
    let hy = seq!['-'];
    let tail = seq!['.', 'w', 'h', 'l'];
    let b2 = w.distribution + (hy + w.version);
    let b3 = b2 + (hy + w.python_tag);
    let b4 = b3 + (hy + w.abi_tag);
    let b5 = b4 + (hy + w.platform_tag);
    assert(s =~= b5 + tail);
    assert(s.subrange(0, s.len() as int) =~= s);
    lemma_has_at_split(s, 0, b5, tail);
    lemma_has_at_split(s, 0, b4, hy + w.platform_tag);
    lemma_has_at_split(s, 0, b3, hy + w.abi_tag);
    lemma_has_at_split(s, 0, b2, hy + w.python_tag);
    lemma_has_at_split(s, 0, w.distribution, hy + w.version);
}

/// Reading the file name of a wheel gives the wheel back, where the
/// wheel has no build tag and hyphens in its distribution only.
pub proof fn lemma_wheel_parse(w: WheelView)
    requires
        spellable(w),
    ensures
        parse_wheel(wheel_text(w)) == Some(w),
{
    let s = wheel_text(w);
    let (h1, h2, h3, h4, m) = wheel_starts(w);
    lemma_wheel_layout(w);
    lemma_cut(s, h4, w.platform_tag);
    lemma_cut(s, h3, w.abi_tag);
    lemma_cut(s, h2, w.python_tag);
    lemma_cut(s, h1, w.version);
    assert(wheel_cuts(s) == (h1, h2, h3, h4));
    reveal_strlit(".whl");
    assert(".whl"@ =~= seq!['.', 'w', 'h', 'l']);
    assert(ends_with(s, ".whl"@));
    let got = parse_wheel(s)->0;
    assert(got.distribution == w.distribution);
    assert(got.version == w.version);
    assert(got.python_tag == w.python_tag);
    assert(got.abi_tag == w.abi_tag);
    assert(got.platform_tag == w.platform_tag);
}

} // verus!
