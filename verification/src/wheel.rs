//! Built-distribution file names:
//! `{distribution}-{version}(-{build tag})?-{python tag}-{abi tag}-{platform tag}.whl`.

use crate::error::{ParseError, ParseErrorKind};
use crate::grammar::refuse;
use crate::text::{ends_with, has_suffix, to_chars};
use crate::version::opt_text;
use vstd::prelude::*;
use vstd::string::*;

verus! {

/// The fields of a wheel file name. `version` is kept as text.
#[derive(Clone, Debug, PartialEq, Eq)]
pub struct WheelInfo {
    pub distribution: String,
    pub version: String,
    pub build_tag: Option<String>,
    pub python_tag: String,
    pub abi_tag: String,
    pub platform_tag: String,
}

/// The mathematical value of a [`WheelInfo`].
pub struct WheelView {
    pub distribution: Seq<char>,
    pub version: Seq<char>,
    pub build_tag: Option<Seq<char>>,
    pub python_tag: Seq<char>,
    pub abi_tag: Seq<char>,
    pub platform_tag: Seq<char>,
}

impl View for WheelInfo {
    type V = WheelView;

    open spec fn view(&self) -> WheelView {
        WheelView {
            distribution: self.distribution@,
            version: self.version@,
            build_tag: opt_text(self.build_tag),
            python_tag: self.python_tag@,
            abi_tag: self.abi_tag@,
            platform_tag: self.platform_tag@,
        }
    }
}

/// The file name of a wheel: the fields that are present joined by
/// hyphens, then `.whl`.
pub open spec fn wheel_text(w: WheelView) -> Seq<char> {
    w.distribution + seq!['-'] + w.version + (match w.build_tag {
        Some(b) => seq!['-'] + b,
        None => Seq::empty(),
    }) + seq!['-'] + w.python_tag + seq!['-'] + w.abi_tag + seq!['-'] + w.platform_tag + seq![
        '.',
        'w',
        'h',
        'l',
    ]
}

/// The last hyphen at or before position `i`, or -1 where there is none.
pub open spec fn last_hyphen(s: Seq<char>, i: int) -> int
    decreases i + 1,
{
    if i < 0 {
        -1
    } else if i < s.len() && s[i] == '-' {
        i
    } else {
        last_hyphen(s, i - 1)
    }
}

/// The hyphen that ends the field before the field that ends at `next`:
/// the last one that leaves that field at least one character.
pub open spec fn cut_before(s: Seq<char>, next: int) -> int {
    last_hyphen(s, next - 2)
}

/// The four hyphens at which a wheel name is cut, from the right: each is
/// the last hyphen that leaves the field after it non-empty. Every field
/// takes as much of the name as those to its right allow, so hyphens in
/// excess of four end up in the distribution.
pub open spec fn wheel_cuts(s: Seq<char>) -> (int, int, int, int) {
    let c4 = cut_before(s, s.len() - 4);
    let c3 = cut_before(s, c4);
    let c2 = cut_before(s, c3);
    let c1 = cut_before(s, c2);
    (c1, c2, c3, c4)
}

/// What parsing a file name as a wheel yields. The name must end in
/// `.whl` and have five non-empty fields, of whatever characters. The split
/// never yields a build tag: with five hyphens the second field of the
/// name is taken into the distribution.
pub open spec fn parse_wheel(s: Seq<char>) -> Option<WheelView> {
    let (c1, c2, c3, c4) = wheel_cuts(s);
    if ends_with(s, ".whl"@) && c1 >= 1 {
        Some(
            WheelView {
                distribution: s.subrange(0, c1),
                version: s.subrange(c1 + 1, c2),
                build_tag: None,
                python_tag: s.subrange(c2 + 1, c3),
                abi_tag: s.subrange(c3 + 1, c4),
                platform_tag: s.subrange(c4 + 1, s.len() - 4),
            },
        )
    } else {
        None
    }
}

/// A position that may be absent, as an integer: -1 where it is absent.
pub open spec fn position(p: Option<usize>) -> int {
    match p {
        Some(n) => n as int,
        None => -1,
    }
}

/// The cut before `next`, as a position; `None` where there is none.
fn find_cut(s: &Vec<char>, next: Option<usize>) -> (r: Option<usize>)
    requires
        next matches Some(n) ==> n <= s@.len(),
    ensures
        position(r) == cut_before(s@, position(next)),
        r matches Some(p) ==> p < s@.len() && p + 2 <= position(next),
{
    let n = match next {
        Some(n) => n,
        None => {
            return None;
        },
    };
    if n < 2 {
        return None;
    }
    let mut k: usize = n - 1;
    while k > 0
        invariant
            k <= n - 1,
            n <= s@.len(),
            next == Some(n),
            cut_before(s@, n as int) == last_hyphen(s@, k - 1),
        decreases k,
    {
        if s[k - 1] == '-' {
            return Some(k - 1);
        }
        k -= 1;
    }
    None
}

fn piece(text: &str, from: usize, to: usize) -> (r: String)
    requires
        from <= to <= text@.len(),
    ensures
        r@ == text@.subrange(from as int, to as int),
{
    text.substring_char(from, to).to_owned()
}

impl WheelInfo {
    /// Parses a wheel file name; see [`parse_wheel`].
    pub fn from_str(text: &str) -> (r: Result<WheelInfo, ParseError>)
        ensures
            match r {
                Ok(w) => parse_wheel(text@) == Some(w@),
                Err(e) => parse_wheel(text@) is None && e.kind == ParseErrorKind::Syntax
                    && e.input@ == text@,
            },
    {
        proof {
            reveal_strlit(".whl");
        }
        let s = to_chars(text);
        if !has_suffix(&s, ".whl") {
            return Err(refuse(ParseErrorKind::Syntax, text));
        }
        let m = s.len() - 4;
        let c4 = find_cut(&s, Some(m));
        let c3 = find_cut(&s, c4);
        let c2 = find_cut(&s, c3);
        let c1 = find_cut(&s, c2);
        match (c1, c2, c3, c4) {
            (Some(cut1), Some(cut2), Some(cut3), Some(cut4)) => {
                if cut1 >= 1 {
                    Ok(
                        WheelInfo {
                            distribution: piece(text, 0, cut1),
                            version: piece(text, cut1 + 1, cut2),
                            build_tag: None,
                            python_tag: piece(text, cut2 + 1, cut3),
                            abi_tag: piece(text, cut3 + 1, cut4),
                            platform_tag: piece(text, cut4 + 1, m),
                        },
                    )
                } else {
                    Err(refuse(ParseErrorKind::Syntax, text))
                }
            },
            _ => Err(refuse(ParseErrorKind::Syntax, text)),
        }
    }

    /// The file name of the wheel; see [`wheel_text`].
    pub fn to_string(&self) -> (r: String)
        ensures
            r@ == wheel_text(self@),
    {
        proof {
            reveal_strlit("-");
            reveal_strlit(".whl");
        }
        let mut out = self.distribution.clone();
        out.append("-");
        out.append(self.version.as_str());
        let ghost head = self.distribution@ + seq!['-'] + self.version@;
        assert(out@ =~= head);
        if let Some(b) = &self.build_tag {
            out.append("-");
            out.append(b.as_str());
        }
        let ghost mid = head + (match opt_text(self.build_tag) {
            Some(b) => seq!['-'] + b,
            None => Seq::empty(),
        });
        assert(out@ =~= mid);
        out.append("-");
        out.append(self.python_tag.as_str());
        out.append("-");
        out.append(self.abi_tag.as_str());
        out.append("-");
        out.append(self.platform_tag.as_str());
        out.append(".whl");
        assert(out@ =~= wheel_text(self@));
        out
    }
}

/// A found hyphen is a hyphen, at or before the position asked for.
pub proof fn lemma_last_hyphen(s: Seq<char>, i: int)
    ensures
        last_hyphen(s, i) == -1 || (0 <= last_hyphen(s, i) <= i && last_hyphen(s, i) < s.len()
            && s[last_hyphen(s, i)] == '-'),
    decreases i + 1,
{
    if i >= 0 && !(i < s.len() && s[i] == '-') {
        lemma_last_hyphen(s, i - 1);
    }
}

/// Spelling a parsed wheel name gives the name back; its five fields are
/// not empty, and it has no build tag.
pub proof fn lemma_wheel_round_trip(s: Seq<char>)
    ensures
        parse_wheel(s) matches Some(w) ==> wheel_text(w) == s && w.build_tag is None
            && w.distribution.len() > 0 && w.version.len() > 0 && w.python_tag.len() > 0
            && w.abi_tag.len() > 0 && w.platform_tag.len() > 0,
{
    if let Some(w) = parse_wheel(s) {
        let (c1, c2, c3, c4) = wheel_cuts(s);
        let m = s.len() - 4;
        lemma_last_hyphen(s, m - 2);
        lemma_last_hyphen(s, c4 - 2);
        lemma_last_hyphen(s, c3 - 2);
        lemma_last_hyphen(s, c2 - 2);
        reveal_strlit(".whl");
        let tail = s.subrange(m, s.len() as int);
        assert(tail == ".whl"@);
        assert(tail =~= seq!['.', 'w', 'h', 'l']);
        let hyphen = seq!['-'];
        assert(s.subrange(c1, c1 + 1) =~= hyphen);
        assert(s.subrange(c2, c2 + 1) =~= hyphen);
        assert(s.subrange(c3, c3 + 1) =~= hyphen);
        assert(s.subrange(c4, c4 + 1) =~= hyphen);
        let t1 = w.distribution + hyphen;
        assert(t1 =~= s.subrange(0, c1 + 1));
        let t2 = t1 + w.version;
        assert(t2 =~= s.subrange(0, c2));
        let t3 = t2 + Seq::<char>::empty() + hyphen;
        assert(t3 =~= s.subrange(0, c2 + 1));
        let t4 = t3 + w.python_tag + hyphen;
        assert(t4 =~= s.subrange(0, c3 + 1));
        let t5 = t4 + w.abi_tag + hyphen;
        assert(t5 =~= s.subrange(0, c4 + 1));
        let t6 = t5 + w.platform_tag;
        assert(t6 =~= s.subrange(0, m));
        assert(t6 + tail =~= s);
    }
}

} // verus!
