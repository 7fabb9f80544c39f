//! Requirements on versions: one comparison operator with a version, and
//! sets of them that must all hold.

use crate::error::{ParseError, ParseErrorKind, UnsupportedOperator};
use crate::grammar::{parse_version, refuse};
use crate::text::{has_at, starts_at, to_chars};
use crate::version::{compare_spec, version_text, Order, Version, VersionView};
use vstd::prelude::*;
use vstd::string::*;

verus! {

/// A comparison operator.
#[derive(Clone, Copy, Debug, PartialEq, Eq, Structural)]
pub enum Operator {
    Compatible,
    Equals,
    NotEquals,
    GreaterThanOrEqual,
    LessThanOrEqual,
    GreaterThan,
    LessThan,
}

/// One requirement: the versions that stand in `operator` to `version`.
#[derive(Clone, Debug, PartialEq, Eq)]
pub struct Specifier {
    pub operator: Operator,
    pub version: Version,
}

/// The mathematical value of a [`Specifier`].
pub struct SpecifierView {
    pub operator: Operator,
    pub version: VersionView,
}

impl View for Specifier {
    type V = SpecifierView;

    open spec fn view(&self) -> SpecifierView {
        SpecifierView { operator: self.operator, version: self.version@ }
    }
}

/// Requirements that must all hold, in the order in which they were written.
#[derive(Clone, Debug, PartialEq, Eq)]
pub struct SpecifierSet {
    pub specifiers: Vec<Specifier>,
}

impl View for SpecifierSet {
    type V = Seq<SpecifierView>;

    open spec fn view(&self) -> Seq<SpecifierView> {
        Seq::new(self.specifiers@.len(), |k: int| self.specifiers@[k]@)
    }
}

// ------------------------------------------------------------- matching

/// Whether `v` meets the requirement. Equality is over all six fields of
/// the version; the four order operators go by the version order. The
/// compatible-release operator cannot be evaluated.
pub open spec fn meets(sp: SpecifierView, v: VersionView) -> Result<bool, UnsupportedOperator> {
    match sp.operator {
        Operator::Compatible => Err(UnsupportedOperator),
        Operator::Equals => Ok(v == sp.version),
        Operator::NotEquals => Ok(v != sp.version),
        Operator::GreaterThanOrEqual => Ok(compare_spec(v, sp.version) != Order::Less),
        Operator::LessThanOrEqual => Ok(compare_spec(v, sp.version) != Order::Greater),
        Operator::GreaterThan => Ok(compare_spec(v, sp.version) == Order::Greater),
        Operator::LessThan => Ok(compare_spec(v, sp.version) == Order::Less),
    }
}

/// Whether `v` meets every requirement from position `i` on, going through
/// them in order: the first that fails decides, and so does the first that
/// cannot be evaluated.
pub open spec fn meets_all_from(set: Seq<SpecifierView>, v: VersionView, i: int) -> Result<
    bool,
    UnsupportedOperator,
>
    decreases set.len() - i,
{
    if i < 0 || i >= set.len() {
        Ok(true)
    } else {
        match meets(set[i], v) {
            Ok(true) => meets_all_from(set, v, i + 1),
            other => other,
        }
    }
}

/// Whether `v` meets every requirement of the set.
pub open spec fn meets_all(set: Seq<SpecifierView>, v: VersionView) -> Result<
    bool,
    UnsupportedOperator,
> {
    meets_all_from(set, v, 0)
}

// ------------------------------------------------------------- spelling

/// The spelling of an operator.
pub open spec fn operator_text(op: Operator) -> Seq<char> {
    match op {
        Operator::Compatible => seq!['~', '='],
        Operator::Equals => seq!['=', '='],
        Operator::NotEquals => seq!['!', '='],
        Operator::GreaterThanOrEqual => seq!['>', '='],
        Operator::LessThanOrEqual => seq!['<', '='],
        Operator::GreaterThan => seq!['>'],
        Operator::LessThan => seq!['<'],
    }
}

/// The spelling of a requirement: the operator, then the version.
pub open spec fn specifier_text(sp: SpecifierView) -> Seq<char> {
    operator_text(sp.operator) + version_text(sp.version)
}

/// The spellings of the first `n` requirements, joined by commas.
pub open spec fn set_text(set: Seq<SpecifierView>, n: int) -> Seq<char>
    decreases n,
{
    if n <= 0 {
        Seq::empty()
    } else if n == 1 {
        specifier_text(set[0])
    } else {
        set_text(set, n - 1) + seq![','] + specifier_text(set[n - 1])
    }
}

// -------------------------------------------------------------- grammar

/// The operator that `s` starts with: the two-character operators are
/// tried before `>` and `<`.
pub open spec fn leading_operator(s: Seq<char>) -> Option<Operator> {
    if has_at(s, 0, operator_text(Operator::Compatible)) {
        Some(Operator::Compatible)
    } else if has_at(s, 0, operator_text(Operator::Equals)) {
        Some(Operator::Equals)
    } else if has_at(s, 0, operator_text(Operator::NotEquals)) {
        Some(Operator::NotEquals)
    } else if has_at(s, 0, operator_text(Operator::GreaterThanOrEqual)) {
        Some(Operator::GreaterThanOrEqual)
    } else if has_at(s, 0, operator_text(Operator::LessThanOrEqual)) {
        Some(Operator::LessThanOrEqual)
    } else if has_at(s, 0, operator_text(Operator::GreaterThan)) {
        Some(Operator::GreaterThan)
    } else if has_at(s, 0, operator_text(Operator::LessThan)) {
        Some(Operator::LessThan)
    } else {
        None
    }
}

/// What parsing a text as a requirement yields: a leading operator, and
/// all that follows it read as a version.
pub open spec fn parse_specifier(s: Seq<char>) -> Result<SpecifierView, ParseErrorKind> {
    match leading_operator(s) {
        None => Err(ParseErrorKind::UnknownOperator),
        Some(op) => match parse_version(s.subrange(operator_text(op).len() as int, s.len() as int)) {
            Ok(v) => Ok(SpecifierView { operator: op, version: v }),
            Err(k) => Err(k),
        },
    }
}

/// White space, as Unicode defines the property.
pub open spec fn is_space(c: char) -> bool {
    let u = c as u32;
    (0x09 <= u <= 0x0d) || u == 0x20 || u == 0x85 || u == 0xa0 || u == 0x1680 || (0x2000 <= u
        <= 0x200a) || u == 0x2028 || u == 0x2029 || u == 0x202f || u == 0x205f || u == 0x3000
}

/// The first comma at or after `i`, or the length of `s`.
pub open spec fn next_comma(s: Seq<char>, i: int) -> int
    decreases s.len() - i,
{
    if 0 <= i < s.len() && s[i] != ',' {
        next_comma(s, i + 1)
    } else {
        i
    }
}

/// The first position in `a..b` that holds no white space, or `b`.
pub open spec fn trim_start(s: Seq<char>, a: int, b: int) -> int
    decreases b - a,
{
    if 0 <= a < b <= s.len() && is_space(s[a]) {
        trim_start(s, a + 1, b)
    } else {
        a
    }
}

/// The end of `a..b` without its trailing white space.
pub open spec fn trim_end(s: Seq<char>, a: int, b: int) -> int
    decreases b - a,
{
    if 0 <= a < b <= s.len() && is_space(s[b - 1]) {
        trim_end(s, a, b - 1)
    } else {
        b
    }
}

/// The part `a..b` of `s` without the white space around it.
pub open spec fn trimmed(s: Seq<char>, a: int, b: int) -> Seq<char> {
    s.subrange(trim_start(s, a, b), trim_end(s, trim_start(s, a, b), b))
}

/// The requirement that the token `a..b` holds, if it holds one.
pub open spec fn token_specifier(s: Seq<char>, a: int, b: int) -> Seq<SpecifierView> {
    match parse_specifier(trimmed(s, a, b)) {
        Ok(sp) => seq![sp],
        Err(_) => Seq::empty(),
    }
}

/// The requirements of the comma-separated tokens from `i` on: each token
/// is trimmed and parsed by itself, and one that does not parse is left
/// out.
pub open spec fn parse_set_from(s: Seq<char>, i: int) -> Seq<SpecifierView>
    decreases s.len() - i,
{
    let e = next_comma(s, i);
    if i <= e < s.len() {
        token_specifier(s, i, e) + parse_set_from(s, e + 1)
    } else {
        token_specifier(s, i, e)
    }
}

/// What parsing a text as a requirement set yields.
pub open spec fn parse_set(s: Seq<char>) -> Seq<SpecifierView> {
    parse_set_from(s, 0)
}

impl Operator {
    /// The operator's spelling.
    pub fn as_str(&self) -> (r: &'static str)
        ensures
            r@ == operator_text(*self),
    {
        proof {
            reveal_strlit("~=");
            reveal_strlit("==");
            reveal_strlit("!=");
            reveal_strlit(">=");
            reveal_strlit("<=");
            reveal_strlit(">");
            reveal_strlit("<");
        }
        let r = match self {
            Operator::Compatible => "~=",
            Operator::Equals => "==",
            Operator::NotEquals => "!=",
            Operator::GreaterThanOrEqual => ">=",
            Operator::LessThanOrEqual => "<=",
            Operator::GreaterThan => ">",
            Operator::LessThan => "<",
        };
        assert(r@ =~= operator_text(*self));
        r
    }

    /// The operator's spelling, owned.
    pub fn to_string(&self) -> (r: String)
        ensures
            r@ == operator_text(*self),
    {
        self.as_str().to_owned()
    }

    /// The operator that `s` starts with, if any.
    pub fn leading(s: &Vec<char>) -> (r: Option<Operator>)
        ensures
            r == leading_operator(s@),
    {
        if starts_at(s, 0, Operator::Compatible.as_str()) {
            Some(Operator::Compatible)
        } else if starts_at(s, 0, Operator::Equals.as_str()) {
            Some(Operator::Equals)
        } else if starts_at(s, 0, Operator::NotEquals.as_str()) {
            Some(Operator::NotEquals)
        } else if starts_at(s, 0, Operator::GreaterThanOrEqual.as_str()) {
            Some(Operator::GreaterThanOrEqual)
        } else if starts_at(s, 0, Operator::LessThanOrEqual.as_str()) {
            Some(Operator::LessThanOrEqual)
        } else if starts_at(s, 0, Operator::GreaterThan.as_str()) {
            Some(Operator::GreaterThan)
        } else if starts_at(s, 0, Operator::LessThan.as_str()) {
            Some(Operator::LessThan)
        } else {
            None
        }
    }
}

impl Specifier {
    /// Whether `version` meets this requirement; fails on the
    /// compatible-release operator.
    pub fn contains(&self, version: &Version) -> (r: Result<bool, UnsupportedOperator>)
        ensures
            r == meets(self@, version@),
    {
        match self.operator {
            Operator::Compatible => Err(UnsupportedOperator),
            Operator::Equals => Ok(version.same_as(&self.version)),
            Operator::NotEquals => Ok(!version.same_as(&self.version)),
            Operator::GreaterThanOrEqual => Ok(version.compare(&self.version) != Order::Less),
            Operator::LessThanOrEqual => Ok(version.compare(&self.version) != Order::Greater),
            Operator::GreaterThan => Ok(version.compare(&self.version) == Order::Greater),
            Operator::LessThan => Ok(version.compare(&self.version) == Order::Less),
        }
    }

    /// The requirement's spelling.
    pub fn to_string(&self) -> (r: String)
        ensures
            r@ == specifier_text(self@),
    {
        let mut out = self.operator.to_string();
        let v = self.version.to_string();
        out.append(v.as_str());
        out
    }

    /// Parses a requirement: a leading operator, then a version.
    pub fn from_str(text: &str) -> (r: Result<Specifier, ParseError>)
        ensures
            match r {
                Ok(sp) => parse_specifier(text@) == Ok::<SpecifierView, ParseErrorKind>(sp@),
                Err(e) => parse_specifier(text@) == Err::<SpecifierView, ParseErrorKind>(e.kind)
                    && e.input@ == text@,
            },
    {
        let s = to_chars(text);
        match Operator::leading(&s) {
            None => Err(refuse(ParseErrorKind::UnknownOperator, text)),
            Some(operator) => {
                let k = operator.as_str().unicode_len();
                let rest = text.substring_char(k, s.len());
                match Version::from_str(rest) {
                    Ok(version) => Ok(Specifier { operator, version }),
                    Err(e) => Err(refuse(e.kind, text)),
                }
            },
        }
    }
}

/// Whether a character is white space.
pub fn space(c: char) -> (r: bool)
    ensures
        r == is_space(c),
{
    let u: u32 = c as u32;
    (0x09 <= u && u <= 0x0d) || u == 0x20 || u == 0x85 || u == 0xa0 || u == 0x1680 || (0x2000 <= u
        && u <= 0x200a) || u == 0x2028 || u == 0x2029 || u == 0x202f || u == 0x205f || u == 0x3000
}

fn find_comma(s: &Vec<char>, i: usize) -> (r: usize)
    requires
        i <= s@.len(),
    ensures
        r == next_comma(s@, i as int),
        i <= r <= s@.len(),
{
    let mut k: usize = i;
    while k < s.len() && s[k] != ','
        invariant
            i <= k <= s@.len(),
            next_comma(s@, i as int) == next_comma(s@, k as int),
        decreases s@.len() - k,
    {
        k += 1;
    }
    k
}

fn skip_space(s: &Vec<char>, a: usize, b: usize) -> (r: usize)
    requires
        a <= b <= s@.len(),
    ensures
        r == trim_start(s@, a as int, b as int),
        a <= r <= b,
{
    let mut k: usize = a;
    while k < b && space(s[k])
        invariant
            a <= k <= b <= s@.len(),
            trim_start(s@, a as int, b as int) == trim_start(s@, k as int, b as int),
        decreases b - k,
    {
        k += 1;
    }
    k
}

fn drop_space(s: &Vec<char>, a: usize, b: usize) -> (r: usize)
    requires
        a <= b <= s@.len(),
    ensures
        r == trim_end(s@, a as int, b as int),
        a <= r <= b,
{
    let mut k: usize = b;
    while a < k && space(s[k - 1])
        invariant
            a <= k <= b <= s@.len(),
            trim_end(s@, a as int, b as int) == trim_end(s@, a as int, k as int),
        decreases k - a,
    {
        k -= 1;
    }
    k
}

impl SpecifierSet {
    /// Whether `version` meets every requirement of the set; an empty set
    /// admits every version.
    pub fn contains(&self, version: &Version) -> (r: Result<bool, UnsupportedOperator>)
        ensures
            r == meets_all(self@, version@),
    {
        let mut i: usize = 0;
        while i < self.specifiers.len()
            invariant
                i <= self.specifiers@.len(),
                self@.len() == self.specifiers@.len(),
                meets_all(self@, version@) == meets_all_from(self@, version@, i as int),
            decreases self.specifiers@.len() - i,
        {
            assert(self@[i as int] == self.specifiers@[i as int]@);
            match self.specifiers[i].contains(version) {
                Ok(true) => {},
                other => {
                    return other;
                },
            }
            i += 1;
        }
        Ok(true)
    }

    /// The set's spelling: its requirements joined by commas.
    pub fn to_string(&self) -> (r: String)
        ensures
            r@ == set_text(self@, self@.len() as int),
    {
        let mut out = String::new();
        let mut i: usize = 0;
        while i < self.specifiers.len()
            invariant
                i <= self.specifiers@.len(),
                self@.len() == self.specifiers@.len(),
                out@ == set_text(self@, i as int),
            decreases self.specifiers@.len() - i,
        {
            let ghost before = out@;
            if i > 0 {
                proof {
                    reveal_strlit(",");
                }
                out.append(",");
                assert(out@ =~= before + seq![',']);
            }
            assert(self@[i as int] == self.specifiers@[i as int]@);
            let one = self.specifiers[i].to_string();
            out.append(one.as_str());
            proof {
                if i == 0 {
                    assert(out@ =~= set_text(self@, 1));
                } else {
                    assert(out@ =~= set_text(self@, i + 1));
                }
            }
            i += 1;
        }
        out
    }

    /// Parses a comma-separated list of requirements; never fails.
    pub fn from_str(text: &str) -> (r: Result<SpecifierSet, ()>)
        ensures
            r matches Ok(set) && set@ == parse_set(text@),
    {
        Ok(SpecifierSet::parse(text))
    }

    /// Parses a comma-separated list of requirements: a token that is no
    /// requirement is left out.
    pub fn parse(text: &str) -> (r: SpecifierSet)
        ensures
            r@ == parse_set(text@),
    {
        let s = to_chars(text);
        let mut specifiers: Vec<Specifier> = Vec::new();
        let mut cur: usize = 0;
        loop
            invariant
                s@ == text@,
                cur <= s@.len(),
                parse_set(s@) == Seq::new(specifiers@.len(), |k: int| specifiers@[k]@)
                    + parse_set_from(s@, cur as int),
            decreases s@.len() - cur,
        {
            let e = find_comma(&s, cur);
            let a = skip_space(&s, cur, e);
            let b = drop_space(&s, a, e);
            let token = text.substring_char(a, b);
            let ghost before = Seq::new(specifiers@.len(), |k: int| specifiers@[k]@);
            let ghost head = token_specifier(s@, cur as int, e as int);
            assert(token@ == trimmed(s@, cur as int, e as int));
            match Specifier::from_str(token) {
                Ok(sp) => {
                    specifiers.push(sp);
                    assert(Seq::new(specifiers@.len(), |k: int| specifiers@[k]@) =~= before + head);
                },
                Err(_) => {
                    assert(before =~= before + head);
                },
            }
            if e < s.len() {
                assert(before + (head + parse_set_from(s@, e + 1)) =~= (before + head)
                    + parse_set_from(s@, e + 1));
                cur = e + 1;
            } else {
                let set = SpecifierSet { specifiers };
                assert(set@ =~= before + head);
                return set;
            }
        }
    }
}

/// No requirement of the set uses the compatible-release operator.
pub open spec fn evaluable(set: Seq<SpecifierView>) -> bool {
    forall|k: int| 0 <= k < set.len() ==> (#[trigger] set[k]).operator != Operator::Compatible
}

/// From position `i` on, a set without the compatible-release operator
/// admits a version exactly when each of its requirements does.
pub proof fn lemma_meets_all_from(set: Seq<SpecifierView>, v: VersionView, i: int)
    requires
        evaluable(set),
        0 <= i,
    ensures
        meets_all_from(set, v, i) == Ok::<bool, UnsupportedOperator>(
            forall|k: int| i <= k < set.len() ==> meets(#[trigger] set[k], v) == Ok::<
                bool,
                UnsupportedOperator,
            >(true),
        ),
    decreases set.len() - i,
{
    if i < set.len() {
        lemma_meets_all_from(set, v, i + 1);
        assert(set[i].operator != Operator::Compatible);
    }
}

/// A set without the compatible-release operator is the conjunction of
/// its requirements, so their order does not matter to what it admits;
/// and the empty set admits every version.
pub proof fn lemma_meets_all_is_conjunction(set: Seq<SpecifierView>, v: VersionView)
    requires
        evaluable(set),
    ensures
        meets_all(set, v) == Ok::<bool, UnsupportedOperator>(
            forall|k: int| 0 <= k < set.len() ==> meets(#[trigger] set[k], v) == Ok::<
                bool,
                UnsupportedOperator,
            >(true),
        ),
        set.len() == 0 ==> meets_all(set, v) == Ok::<bool, UnsupportedOperator>(true),
{
    lemma_meets_all_from(set, v, 0);
}

} // verus!
