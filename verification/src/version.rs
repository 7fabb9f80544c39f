//! Package versions: their model, their total preorder, their canonical
//! spelling and the grammar that reads them.

use crate::text::{decimal_digits, push_decimal};
use vstd::prelude::*;
use vstd::string::*;

verus! {

/// A pre-release marker with its ordinal.
#[derive(Clone, Copy, Debug, PartialEq, Eq, Structural)]
pub enum PreRelease {
    Alpha(u32),
    Beta(u32),
    ReleaseCandidate(u32),
}

/// The outcome of comparing two values.
#[derive(Clone, Copy, Debug, PartialEq, Eq, Structural)]
pub enum Order {
    Less,
    Equal,
    Greater,
}

/// A parsed version. `versions` holds the dotted release segments.
#[derive(Clone, Debug, PartialEq, Eq)]
pub struct Version {
    pub epoch: Option<u32>,
    pub versions: Vec<u32>,
    pub pre_release: Option<PreRelease>,
    pub post_release: Option<u32>,
    pub dev_release: Option<u32>,
    pub local: Option<String>,
}

/// The mathematical value of a [`Version`].
pub struct VersionView {
    pub epoch: Option<u32>,
    pub release: Seq<u32>,
    pub pre_release: Option<PreRelease>,
    pub post_release: Option<u32>,
    pub dev_release: Option<u32>,
    pub local: Option<Seq<char>>,
}

/// The view of an optional string.
pub open spec fn opt_text(s: Option<String>) -> Option<Seq<char>> {
    match s {
        Some(t) => Some(t@),
        None => None,
    }
}

impl View for Version {
    type V = VersionView;

    open spec fn view(&self) -> VersionView {
        VersionView {
            epoch: self.epoch,
            release: self.versions@,
            pre_release: self.pre_release,
            post_release: self.post_release,
            dev_release: self.dev_release,
            local: opt_text(self.local),
        }
    }
}

// ---------------------------------------------------------------- ordering

/// The order of two integers.
pub open spec fn order_int(a: int, b: int) -> Order {
    if a < b {
        Order::Less
    } else if a > b {
        Order::Greater
    } else {
        Order::Equal
    }
}

/// An absent number sorts before every present one.
pub open spec fn order_opt(a: Option<u32>, b: Option<u32>) -> Order {
    match (a, b) {
        (None, None) => Order::Equal,
        (None, Some(_)) => Order::Less,
        (Some(_), None) => Order::Greater,
        (Some(x), Some(y)) => order_int(x as int, y as int),
    }
}

/// Lexicographic order of the segments from position `i` on: element by
/// element over the shared prefix, then the shorter sequence first.
pub open spec fn order_release_from(a: Seq<u32>, b: Seq<u32>, i: int) -> Order
    decreases a.len() - i,
{
    if i < 0 {
        Order::Equal
    } else if i >= a.len() && i >= b.len() {
        Order::Equal
    } else if i >= a.len() {
        Order::Less
    } else if i >= b.len() {
        Order::Greater
    } else if a[i] != b[i] {
        order_int(a[i] as int, b[i] as int)
    } else {
        order_release_from(a, b, i + 1)
    }
}

/// The rank of a marker's kind: alpha, beta, release candidate.
pub open spec fn pre_rank(p: PreRelease) -> int {
    match p {
        PreRelease::Alpha(_) => 0,
        PreRelease::Beta(_) => 1,
        PreRelease::ReleaseCandidate(_) => 2,
    }
}

/// The ordinal that a marker carries.
pub open spec fn pre_number(p: PreRelease) -> u32 {
    match p {
        PreRelease::Alpha(n) => n,
        PreRelease::Beta(n) => n,
        PreRelease::ReleaseCandidate(n) => n,
    }
}

/// Alpha before beta before release candidate, then by ordinal.
pub open spec fn order_pre(a: PreRelease, b: PreRelease) -> Order {
    if pre_rank(a) != pre_rank(b) {
        order_int(pre_rank(a), pre_rank(b))
    } else {
        order_int(pre_number(a) as int, pre_number(b) as int)
    }
}

/// The order of two optional markers: an absent one sorts first.
pub open spec fn order_opt_pre(a: Option<PreRelease>, b: Option<PreRelease>) -> Order {
    match (a, b) {
        (None, None) => Order::Equal,
        (None, Some(_)) => Order::Less,
        (Some(_), None) => Order::Greater,
        (Some(x), Some(y)) => order_pre(x, y),
    }
}

/// The order of two versions. The steps run in this sequence and the first
/// that differs decides: epoch (absent before present); a version without a
/// pre-release marker is greater than one with a marker, whatever their
/// release segments; the release segments; the markers; the post-release;
/// the dev-release. The local label is never consulted.
pub open spec fn compare_spec(a: VersionView, b: VersionView) -> Order {
    if order_opt(a.epoch, b.epoch) != Order::Equal {
        order_opt(a.epoch, b.epoch)
    } else if a.pre_release is None && b.pre_release is Some {
        Order::Greater
    } else if a.pre_release is Some && b.pre_release is None {
        Order::Less
    } else if order_release_from(a.release, b.release, 0) != Order::Equal {
        order_release_from(a.release, b.release, 0)
    } else if order_opt_pre(a.pre_release, b.pre_release) != Order::Equal {
        order_opt_pre(a.pre_release, b.pre_release)
    } else if order_opt(a.post_release, b.post_release) != Order::Equal {
        order_opt(a.post_release, b.post_release)
    } else {
        order_opt(a.dev_release, b.dev_release)
    }
}

/// The outcome with the two sides swapped.
pub open spec fn reverse(o: Order) -> Order {
    match o {
        Order::Less => Order::Greater,
        Order::Equal => Order::Equal,
        Order::Greater => Order::Less,
    }
}

/// Orders two numbers.
pub fn order_u32(a: u32, b: u32) -> (r: Order)
    ensures
        r == order_int(a as int, b as int),
{
    if a < b {
        Order::Less
    } else if a > b {
        Order::Greater
    } else {
        Order::Equal
    }
}

/// Orders two optional numbers: an absent one sorts first.
pub fn order_option(a: Option<u32>, b: Option<u32>) -> (r: Order)
    ensures
        r == order_opt(a, b),
{
    match (a, b) {
        (None, None) => Order::Equal,
        (None, Some(_)) => Order::Less,
        (Some(_), None) => Order::Greater,
        (Some(x), Some(y)) => order_u32(x, y),
    }
}

/// Orders two runs of release segments, without padding the shorter.
pub fn order_release(a: &Vec<u32>, b: &Vec<u32>) -> (r: Order)
    ensures
        r == order_release_from(a@, b@, 0),
{
    let mut i: usize = 0;
    while i < a.len() && i < b.len()
        invariant
            i <= a@.len(),
            i <= b@.len(),
            order_release_from(a@, b@, 0) == order_release_from(a@, b@, i as int),
        decreases a@.len() - i,
    {
        if a[i] != b[i] {
            return order_u32(a[i], b[i]);
        }
        i += 1;
    }
    if i < b.len() {
        Order::Less
    } else if i < a.len() {
        Order::Greater
    } else {
        Order::Equal
    }
}

impl PreRelease {
    /// The rank of the marker's kind.
    pub fn rank(&self) -> (r: u32)
        ensures
            r == pre_rank(*self),
    {
        match self {
            PreRelease::Alpha(_) => 0,
            PreRelease::Beta(_) => 1,
            PreRelease::ReleaseCandidate(_) => 2,
        }
    }

    /// The marker's ordinal.
    pub fn number(&self) -> (r: u32)
        ensures
            r == pre_number(*self),
    {
        match self {
            PreRelease::Alpha(n) => *n,
            PreRelease::Beta(n) => *n,
            PreRelease::ReleaseCandidate(n) => *n,
        }
    }

    /// Orders two markers: by kind, then by ordinal.
    pub fn compare(&self, other: &PreRelease) -> (r: Order)
        ensures
            r == order_pre(*self, *other),
    {
        if self.rank() != other.rank() {
            order_u32(self.rank(), other.rank())
        } else {
            order_u32(self.number(), other.number())
        }
    }

    /// The marker's canonical spelling: `a`, `b` or `rc`, then the ordinal.
    pub fn to_string(&self) -> (r: String)
        ensures
            r@ == pre_text(*self),
    {
        let mut out = String::new();
        push_pre(&mut out, self);
        assert(Seq::<char>::empty() + pre_text(*self) =~= pre_text(*self));
        out
    }
}

// ----------------------------------------------------------- serialisation

/// The letters of a marker's kind.
pub open spec fn pre_tag(p: PreRelease) -> Seq<char> {
    match p {
        PreRelease::Alpha(_) => seq!['a'],
        PreRelease::Beta(_) => seq!['b'],
        PreRelease::ReleaseCandidate(_) => seq!['r', 'c'],
    }
}

/// The spelling of a marker.
pub open spec fn pre_text(p: PreRelease) -> Seq<char> {
    pre_tag(p) + decimal_digits(pre_number(p) as nat)
}

/// The release segments, joined by dots.
pub open spec fn release_text(r: Seq<u32>) -> Seq<char>
    decreases r.len(),
{
    if r.len() == 0 {
        Seq::empty()
    } else if r.len() == 1 {
        decimal_digits(r[0] as nat)
    } else {
        release_text(r.drop_last()) + seq!['.'] + decimal_digits(r.last() as nat)
    }
}

/// The spelling of the epoch part.
pub open spec fn epoch_text(e: Option<u32>) -> Seq<char> {
    match e {
        Some(n) => decimal_digits(n as nat) + seq!['!'],
        None => Seq::empty(),
    }
}

/// The spelling of the marker part.
pub open spec fn opt_pre_text(p: Option<PreRelease>) -> Seq<char> {
    match p {
        Some(x) => pre_text(x),
        None => Seq::empty(),
    }
}

/// The spelling of the post-release part.
pub open spec fn post_text(p: Option<u32>) -> Seq<char> {
    match p {
        Some(n) => seq!['.', 'p', 'o', 's', 't'] + decimal_digits(n as nat),
        None => Seq::empty(),
    }
}

/// The spelling of the dev-release part.
pub open spec fn dev_text(p: Option<u32>) -> Seq<char> {
    match p {
        Some(n) => seq!['.', 'd', 'e', 'v'] + decimal_digits(n as nat),
        None => Seq::empty(),
    }
}

/// The spelling of the local-label part.
pub open spec fn local_text(l: Option<Seq<char>>) -> Seq<char> {
    match l {
        Some(t) => seq!['+'] + t,
        None => Seq::empty(),
    }
}

/// The canonical spelling of a version: epoch and `!`, the release segments
/// joined by dots, the pre-release marker, `.post` and `.dev` with their
/// numbers, `+` and the local label; each part only where it is present.
pub open spec fn version_text(v: VersionView) -> Seq<char> {
    epoch_text(v.epoch) + release_text(v.release) + opt_pre_text(v.pre_release) + post_text(
        v.post_release,
    ) + dev_text(v.dev_release) + local_text(v.local)
}

fn push_pre(out: &mut String, p: &PreRelease)
    ensures
        final(out)@ == old(out)@ + pre_text(*p),
{
    proof {
        reveal_strlit("a");
        reveal_strlit("b");
        reveal_strlit("rc");
    }
    match p {
        PreRelease::Alpha(_) => out.append("a"),
        PreRelease::Beta(_) => out.append("b"),
        PreRelease::ReleaseCandidate(_) => out.append("rc"),
    }
    assert(out@ =~= old(out)@ + pre_tag(*p));
    push_decimal(out, p.number());
    assert(final(out)@ =~= old(out)@ + pre_text(*p));
}

fn push_release(out: &mut String, r: &Vec<u32>)
    ensures
        final(out)@ == old(out)@ + release_text(r@),
{
    proof {
        reveal_strlit(".");
    }
    let mut i: usize = 0;
    assert(r@.subrange(0, 0).len() == 0);
    assert(out@ =~= old(out)@ + release_text(r@.subrange(0, 0)));
    while i < r.len()
        invariant
            i <= r@.len(),
            out@ == old(out)@ + release_text(r@.subrange(0, i as int)),
        decreases r@.len() - i,
    {
        let ghost before = out@;
        if i > 0 {
            proof {
                reveal_strlit(".");
            }
            out.append(".");
            assert(out@ =~= before + seq!['.']);
        }
        push_decimal(out, r[i]);
        proof {
            let next = r@.subrange(0, i + 1);
            assert(next.drop_last() == r@.subrange(0, i as int));
            assert(next.last() == r@[i as int]);
            if i == 0 {
                assert(release_text(next) == decimal_digits(r@[0] as nat));
                assert(release_text(r@.subrange(0, 0)) == Seq::<char>::empty());
                assert(out@ =~= old(out)@ + release_text(next));
            } else {
                assert(release_text(next) == release_text(next.drop_last()) + seq!['.']
                    + decimal_digits(next.last() as nat));
                assert(out@ =~= old(out)@ + release_text(next));
            }
        }
        i += 1;
    }
    assert(r@.subrange(0, r@.len() as int) == r@);
}

impl Version {
    /// Compares two versions step by step; see [`compare_spec`].
    pub fn compare(&self, other: &Version) -> (r: Order)
        ensures
            r == compare_spec(self@, other@),
    {
        let by_epoch = order_option(self.epoch, other.epoch);
        if by_epoch != Order::Equal {
            return by_epoch;
        }
        match (self.pre_release, other.pre_release) {
            (None, Some(_)) => {
                return Order::Greater;
            },
            (Some(_), None) => {
                return Order::Less;
            },
            _ => {},
        }
        let by_release = order_release(&self.versions, &other.versions);
        if by_release != Order::Equal {
            return by_release;
        }
        let by_pre = match (self.pre_release, other.pre_release) {
            (Some(x), Some(y)) => x.compare(&y),
            _ => Order::Equal,
        };
        if by_pre != Order::Equal {
            return by_pre;
        }
        let by_post = order_option(self.post_release, other.post_release);
        if by_post != Order::Equal {
            return by_post;
        }
        order_option(self.dev_release, other.dev_release)
    }

    /// Structural equality over all six fields, the local label included.
    pub fn same_as(&self, other: &Version) -> (r: bool)
        ensures
            r == (self@ == other@),
    {
        let same_local = match (&self.local, &other.local) {
            (None, None) => true,
            (Some(a), Some(b)) => *a == *b,
            _ => false,
        };
        assert(same_local == (opt_text(self.local) == opt_text(other.local)));
        let same_release = order_release(&self.versions, &other.versions) == Order::Equal;
        proof {
            lemma_release_same(self.versions@, other.versions@);
        }
        let same_pre = match (self.pre_release, other.pre_release) {
            (None, None) => true,
            (Some(a), Some(b)) => a == b,
            _ => false,
        };
        assert(same_pre == (self.pre_release == other.pre_release));
        assert(same_release == (self.versions@ == other.versions@));
        order_option(self.epoch, other.epoch) == Order::Equal && same_release && same_pre
            && order_option(self.post_release, other.post_release) == Order::Equal
            && order_option(self.dev_release, other.dev_release) == Order::Equal && same_local
    }

    /// The canonical spelling; see [`version_text`].
    pub fn to_string(&self) -> (r: String)
        ensures
            r@ == version_text(self@),
    {
        let mut out = epoch_string(self.epoch);
        push_release(&mut out, &self.versions);
        push_opt_pre(&mut out, self.pre_release);
        push_post(&mut out, self.post_release);
        push_dev(&mut out, self.dev_release);
        push_local(&mut out, &self.local);
        out
    }
}

fn epoch_string(epoch: Option<u32>) -> (out: String)
    ensures
        out@ == epoch_text(epoch),
{
    let mut out = String::new();
    if let Some(e) = epoch {
        proof {
            reveal_strlit("!");
        }
        push_decimal(&mut out, e);
        out.append("!");
    }
    assert(out@ =~= epoch_text(epoch));
    out
}

fn push_opt_pre(out: &mut String, p: Option<PreRelease>)
    ensures
        final(out)@ == old(out)@ + opt_pre_text(p),
{
    if let Some(x) = p {
        push_pre(out, &x);
    }
    assert(final(out)@ =~= old(out)@ + opt_pre_text(p));
}

fn push_post(out: &mut String, p: Option<u32>)
    ensures
        final(out)@ == old(out)@ + post_text(p),
{
    if let Some(n) = p {
        proof {
            reveal_strlit(".post");
        }
        out.append(".post");
        push_decimal(out, n);
    }
    assert(final(out)@ =~= old(out)@ + post_text(p));
}

fn push_dev(out: &mut String, p: Option<u32>)
    ensures
        final(out)@ == old(out)@ + dev_text(p),
{
    if let Some(n) = p {
        proof {
            reveal_strlit(".dev");
        }
        out.append(".dev");
        push_decimal(out, n);
    }
    assert(final(out)@ =~= old(out)@ + dev_text(p));
}

fn push_local(out: &mut String, l: &Option<String>)
    ensures
        final(out)@ == old(out)@ + local_text(opt_text(*l)),
{
    if let Some(t) = l {
        proof {
            reveal_strlit("+");
        }
        out.append("+");
        out.append(t.as_str());
    }
    assert(final(out)@ =~= old(out)@ + local_text(opt_text(*l)));
}

/// From position `i` on, two segment sequences compare equal exactly when
/// they have the same length and the same elements.
pub proof fn lemma_release_equal(a: Seq<u32>, b: Seq<u32>, i: int)
    requires
        0 <= i,
    ensures
        order_release_from(a, b, i) == Order::Equal <==> (a.len() == b.len() || (i >= a.len() && i
            >= b.len())) && forall|k: int| i <= k < a.len() && k < b.len() ==> #[trigger] a[k] == b[k],
    decreases a.len() - i,
{
    if i < a.len() && i < b.len() && a[i] == b[i] {
        lemma_release_equal(a, b, i + 1);
    }
}

/// Two segment sequences compare equal exactly when they are the same
/// sequence: a shorter one is never padded with zeros.
pub proof fn lemma_release_same(a: Seq<u32>, b: Seq<u32>)
    ensures
        order_release_from(a, b, 0) == Order::Equal <==> a == b,
{
    lemma_release_equal(a, b, 0);
    if order_release_from(a, b, 0) == Order::Equal {
        assert(a =~= b);
    }
}

/// Swapping the two segment sequences reverses their order.
pub proof fn lemma_release_reverse(a: Seq<u32>, b: Seq<u32>, i: int)
    requires
        0 <= i,
    ensures
        order_release_from(b, a, i) == reverse(order_release_from(a, b, i)),
    decreases a.len() - i,
{
    if i < a.len() && i < b.len() && a[i] == b[i] {
        lemma_release_reverse(a, b, i + 1);
    }
}

/// Swapping the two versions reverses their order.
pub proof fn lemma_compare_reverse(a: VersionView, b: VersionView)
    ensures
        compare_spec(b, a) == reverse(compare_spec(a, b)),
{
    lemma_release_reverse(a.release, b.release, 0);
}

/// The order is total: of "`a` is less than `b`", "`a` and `b` compare
/// equal" and "`b` is less than `a`" exactly one holds.
pub proof fn lemma_compare_total(a: VersionView, b: VersionView)
    ensures
        compare_spec(a, b) == Order::Less || compare_spec(a, b) == Order::Equal || compare_spec(b, a)
            == Order::Less,
        !(compare_spec(a, b) == Order::Less && compare_spec(a, b) == Order::Equal),
        !(compare_spec(a, b) == Order::Less && compare_spec(b, a) == Order::Less),
        !(compare_spec(a, b) == Order::Equal && compare_spec(b, a) == Order::Less),
{
    lemma_compare_reverse(a, b);
}

/// Two versions compare equal exactly when they differ at most in their
/// local label. So equal versions compare equal, and versions whose
/// release segments differ only by trailing zeros do not.
pub proof fn lemma_compare_equal(a: VersionView, b: VersionView)
    ensures
        compare_spec(a, b) == Order::Equal <==> a.epoch == b.epoch && a.release == b.release
            && a.pre_release == b.pre_release && a.post_release == b.post_release && a.dev_release
            == b.dev_release,
        a == b ==> compare_spec(a, b) == Order::Equal,
{
    lemma_release_same(a.release, b.release);
}

} // verus!
