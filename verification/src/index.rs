//! The simple-repository listings: the root listing of package names and
//! the per-package listing of releases, read from HTML and written back
//! as a minimal document.

use crate::html::{attribute, is_anchor, node_views, read_nodes, readable_nodes, same_text, text_view, HtmlNode, NodeView};
use vstd::prelude::*;
use vstd::string::*;

verus! {

/// The package names of a root listing, in document order.
#[derive(Clone, Debug, PartialEq, Eq)]
pub struct RootIndex {
    pub packages: Vec<String>,
}

impl View for RootIndex {
    type V = Seq<Seq<char>>;

    open spec fn view(&self) -> Seq<Seq<char>> {
        Seq::new(self.packages@.len(), |k: int| self.packages@[k]@)
    }
}

/// One release link of a package listing.
#[derive(Clone, Debug, PartialEq, Eq)]
pub struct Release {
    pub name: String,
    pub uri: String,
    pub has_gpg: bool,
    pub requires_python: Option<String>,
}

/// The mathematical value of a [`Release`].
pub struct ReleaseView {
    pub name: Seq<char>,
    pub uri: Seq<char>,
    pub has_gpg: bool,
    pub requires_python: Option<Seq<char>>,
}

impl View for Release {
    type V = ReleaseView;

    open spec fn view(&self) -> ReleaseView {
        ReleaseView {
            name: self.name@,
            uri: self.uri@,
            has_gpg: self.has_gpg,
            requires_python: text_view(self.requires_python),
        }
    }
}

/// The releases of a package listing, in document order.
#[derive(Clone, Debug, PartialEq, Eq)]
pub struct PackageIndex {
    pub releases: Vec<Release>,
}

impl View for PackageIndex {
    type V = Seq<ReleaseView>;

    open spec fn view(&self) -> Seq<ReleaseView> {
        Seq::new(self.releases@.len(), |k: int| self.releases@[k]@)
    }
}

// ---------------------------------------------------------------- reading

/// The package name that a node gives: the text of an anchor whose first
/// child is text.
pub open spec fn package_of(node: NodeView) -> Option<Seq<char>> {
    if is_anchor(node) {
        node.text
    } else {
        None
    }
}

/// The release that a node gives: an anchor whose first child is text and
/// that has an `href`. The signature flag is set exactly when
/// `data-gpg-sig` is `true`; `data-requires-python` is passed through.
pub open spec fn release_of(node: NodeView) -> Option<ReleaseView> {
    if is_anchor(node) && node.text is Some && attribute(node, "href"@) is Some {
        Some(
            ReleaseView {
                name: node.text->0,
                uri: attribute(node, "href"@)->0,
                has_gpg: attribute(node, "data-gpg-sig"@) == Some("true"@),
                requires_python: attribute(node, "data-requires-python"@),
            },
        )
    } else {
        None
    }
}

/// The package names that the first `n` nodes give, in order.
pub open spec fn packages_in(nodes: Seq<NodeView>, n: int) -> Seq<Seq<char>>
    decreases n,
{
    if n <= 0 || n > nodes.len() {
        Seq::empty()
    } else {
        match package_of(nodes[n - 1]) {
            Some(p) => packages_in(nodes, n - 1).push(p),
            None => packages_in(nodes, n - 1),
        }
    }
}

/// The releases that the first `n` nodes give, in order.
pub open spec fn releases_in(nodes: Seq<NodeView>, n: int) -> Seq<ReleaseView>
    decreases n,
{
    if n <= 0 || n > nodes.len() {
        Seq::empty()
    } else {
        match release_of(nodes[n - 1]) {
            Some(r) => releases_in(nodes, n - 1).push(r),
            None => releases_in(nodes, n - 1),
        }
    }
}

// ---------------------------------------------------------------- writing

/// What stands before the links of a listing.
pub open spec fn page_head() -> Seq<char> {
    "<!DOCTYPE html>\n<html>\n    <body>\n    "@
}

/// What stands after the links of a listing.
pub open spec fn page_tail() -> Seq<char> {
    "\n    </body>\n</html>"@
}

/// What stands between two links of a listing.
pub open spec fn link_break() -> Seq<char> {
    "<br/>\n    "@
}

/// The first `n` links, joined by line breaks.
pub open spec fn joined(links: Seq<Seq<char>>, n: int) -> Seq<char>
    decreases n,
{
    if n <= 0 {
        Seq::empty()
    } else if n == 1 {
        links[0]
    } else {
        joined(links, n - 1) + link_break() + links[n - 1]
    }
}

/// The link of a package in the root listing.
pub open spec fn package_link(p: Seq<char>) -> Seq<char> {
    "<a href=\"/simple/"@ + p + "/\">"@ + p + "</a>"@
}

/// The link of a release: `href`, then `data-requires-python` and
/// `data-gpg-sig="true"` where they apply, then the name as text.
pub open spec fn release_link(r: ReleaseView) -> Seq<char> {
    "<a href=\""@ + r.uri + "\""@ + (match r.requires_python {
        Some(p) => " data-requires-python=\""@ + p + "\""@,
        None => Seq::empty(),
    }) + (if r.has_gpg {
        " data-gpg-sig=\"true\""@
    } else {
        Seq::empty()
    }) + ">"@ + r.name + "</a>"@
}

/// The document of a root listing.
pub open spec fn root_text(packages: Seq<Seq<char>>) -> Seq<char> {
    page_head() + joined(Seq::new(packages.len(), |k: int| package_link(packages[k])), packages.len() as int)
        + page_tail()
}

/// The document of a package listing.
pub open spec fn package_text(releases: Seq<ReleaseView>) -> Seq<char> {
    page_head() + joined(Seq::new(releases.len(), |k: int| release_link(releases[k])), releases.len() as int)
        + page_tail()
}

/// Appends one more link to `out`, which holds the first `i` of them.
fn push_link(out: &mut String, link: &str, i: usize, Ghost(links): Ghost<Seq<Seq<char>>>)
    requires
        i < links.len(),
        links[i as int] == link@,
        old(out)@ == page_head() + joined(links, i as int),
    ensures
        final(out)@ == page_head() + joined(links, i + 1),
{
    if i > 0 {
        out.append("<br/>\n    ");
    }
    out.append(link);
    assert(final(out)@ =~= page_head() + joined(links, i + 1));
}

impl RootIndex {
    /// The package names that a run of nodes gives.
    pub fn from_nodes(nodes: &Vec<HtmlNode>) -> (r: RootIndex)
        ensures
            r@ == packages_in(node_views(nodes@), nodes@.len() as int),
    {
        let mut packages: Vec<String> = Vec::new();
        let mut i: usize = 0;
        while i < nodes.len()
            invariant
                i <= nodes@.len(),
                Seq::new(packages@.len(), |k: int| packages@[k]@) == packages_in(
                    node_views(nodes@),
                    i as int,
                ),
            decreases nodes@.len() - i,
        {
            let ghost before = Seq::new(packages@.len(), |k: int| packages@[k]@);
            let node = &nodes[i];
            assert(node_views(nodes@)[i as int] == node@);
            if node.is_anchor() {
                match &node.text {
                    Some(t) => {
                        packages.push(t.clone());
                        assert(Seq::new(packages@.len(), |k: int| packages@[k]@) =~= before.push(
                            t@,
                        ));
                    },
                    None => {},
                }
            }
            i += 1;
        }
        RootIndex { packages }
    }

    /// Reads a root listing: the anchors of the document, wherever they
    /// stand, in document order. Never fails; a text without anchors
    /// gives an empty listing, and so does a text that is too long for
    /// the parser.
    pub fn from_str(html: &str) -> (r: Result<RootIndex, ()>)
        ensures
            r matches Ok(index) && index@ == packages_in(
                readable_nodes(html@),
                readable_nodes(html@).len() as int,
            ),
    {
        let nodes = read_nodes(html);
        assert(node_views(nodes@).len() == nodes@.len());
        Ok(RootIndex::from_nodes(&nodes))
    }

    /// The listing as a document; see [`root_text`].
    pub fn to_string(&self) -> (r: String)
        ensures
            r@ == root_text(self@),
    {
        let mut out = "<!DOCTYPE html>\n<html>\n    <body>\n    ".to_owned();
        let ghost links = Seq::new(self@.len(), |k: int| package_link(self@[k]));
        let mut i: usize = 0;
        assert(out@ =~= page_head() + joined(links, 0));
        while i < self.packages.len()
            invariant
                i <= self.packages@.len(),
                links == Seq::new(self@.len(), |k: int| package_link(self@[k])),
                self@.len() == self.packages@.len(),
                out@ == page_head() + joined(links, i as int),
            decreases self.packages@.len() - i,
        {
            let p = self.packages[i].as_str();
            assert(self@[i as int] == p@);
            let mut link = "<a href=\"/simple/".to_owned();
            link.append(p);
            link.append("/\">");
            link.append(p);
            link.append("</a>");
            push_link(&mut out, link.as_str(), i, Ghost(links));
            i += 1;
        }
        out.append("\n    </body>\n</html>");
        out
    }
}

impl Release {
    /// The release that a node gives, if it gives one.
    pub fn from_node(node: &HtmlNode) -> (r: Option<Release>)
        ensures
            match r {
                Some(x) => release_of(node@) == Some(x@),
                None => release_of(node@) is None,
            },
    {
        if !node.is_anchor() {
            return None;
        }
        let name = match &node.text {
            Some(t) => t.clone(),
            None => {
                return None;
            },
        };
        let uri = match node.attribute("href") {
            Some(u) => u,
            None => {
                return None;
            },
        };
        let has_gpg = match node.attribute("data-gpg-sig") {
            Some(v) => same_text(v.as_str(), "true"),
            None => false,
        };
        let requires_python = node.attribute("data-requires-python");
        Some(Release { name, uri, has_gpg, requires_python })
    }

    /// The release as a link; see [`release_link`].
    pub fn to_string(&self) -> (r: String)
        ensures
            r@ == release_link(self@),
    {
        let mut out = "<a href=\"".to_owned();
        out.append(self.uri.as_str());
        out.append("\"");
        let ghost head = out@;
        if let Some(p) = &self.requires_python {
            out.append(" data-requires-python=\"");
            out.append(p.as_str());
            out.append("\"");
        }
        let ghost mid = out@;
        assert(mid =~= head + (match self@.requires_python {
            Some(p) => " data-requires-python=\""@ + p + "\""@,
            None => Seq::empty(),
        }));
        if self.has_gpg {
            out.append(" data-gpg-sig=\"true\"");
        }
        assert(out@ =~= mid + (if self.has_gpg {
            " data-gpg-sig=\"true\""@
        } else {
            Seq::empty()
        }));
        out.append(">");
        out.append(self.name.as_str());
        out.append("</a>");
        out
    }

    /// A copy of the release.
    pub fn duplicate(&self) -> (r: Release)
        ensures
            r@ == self@,
    {
        Release {
            name: self.name.clone(),
            uri: self.uri.clone(),
            has_gpg: self.has_gpg,
            requires_python: match &self.requires_python {
                Some(p) => Some(p.clone()),
                None => None,
            },
        }
    }
}

impl PackageIndex {
    /// The releases that a run of nodes gives.
    pub fn from_nodes(nodes: &Vec<HtmlNode>) -> (r: PackageIndex)
        ensures
            r@ == releases_in(node_views(nodes@), nodes@.len() as int),
    {
        let mut releases: Vec<Release> = Vec::new();
        let mut i: usize = 0;
        while i < nodes.len()
            invariant
                i <= nodes@.len(),
                Seq::new(releases@.len(), |k: int| releases@[k]@) == releases_in(
                    node_views(nodes@),
                    i as int,
                ),
            decreases nodes@.len() - i,
        {
            let ghost before = Seq::new(releases@.len(), |k: int| releases@[k]@);
            assert(node_views(nodes@)[i as int] == nodes@[i as int]@);
            match Release::from_node(&nodes[i]) {
                Some(x) => {
                    releases.push(x);
                    assert(Seq::new(releases@.len(), |k: int| releases@[k]@) =~= before.push(x@));
                },
                None => {},
            }
            i += 1;
        }
        PackageIndex { releases }
    }

    /// Reads a package listing: the anchors of the document that have an
    /// `href`, wherever they stand, in document order. Never fails; a
    /// text that is too long for the parser gives an empty listing.
    pub fn from_str(html: &str) -> (r: Result<PackageIndex, ()>)
        ensures
            r matches Ok(index) && index@ == releases_in(
                readable_nodes(html@),
                readable_nodes(html@).len() as int,
            ),
    {
        let nodes = read_nodes(html);
        assert(node_views(nodes@).len() == nodes@.len());
        Ok(PackageIndex::from_nodes(&nodes))
    }

    /// The listing as a document; see [`package_text`].
    pub fn to_string(&self) -> (r: String)
        ensures
            r@ == package_text(self@),
    {
        let mut out = "<!DOCTYPE html>\n<html>\n    <body>\n    ".to_owned();
        let ghost links = Seq::new(self@.len(), |k: int| release_link(self@[k]));
        let mut i: usize = 0;
        assert(out@ =~= page_head() + joined(links, 0));
        while i < self.releases.len()
            invariant
                i <= self.releases@.len(),
                links == Seq::new(self@.len(), |k: int| release_link(self@[k])),
                self@.len() == self.releases@.len(),
                out@ == page_head() + joined(links, i as int),
            decreases self.releases@.len() - i,
        {
            assert(self@[i as int] == self.releases@[i as int]@);
            let link = self.releases[i].to_string();
            push_link(&mut out, link.as_str(), i, Ghost(links));
            i += 1;
        }
        out.append("\n    </body>\n</html>");
        out
    }
}

} // verus!
