use index_gate::html::{read_nodes, Attribute, HtmlNode, MAX_DOCUMENT_CHARS};
use index_gate::index::{PackageIndex, Release, RootIndex};

const ROOT_FIXTURE: &str = "<!DOCTYPE html>
<html>
  <head><title>Simple index</title></head>
  <body>
    <a href=\"/simple/numpy/\">numpy</a>
    <div><p><a href=\"/simple/protobuf/\">protobuf</a></p></div>
    <a href=\"/simple/xgboost/\">xgboost</a>
  </body>
</html>";

#[test]
fn test_root_index_lifecycle() {
    let root_index = RootIndex::from_str(ROOT_FIXTURE);
    assert_eq!(
        root_index,
        Ok(RootIndex {
            packages: vec!["numpy".to_string(), "protobuf".to_string(), "xgboost".to_string()],
        }),
    );
    let root_index = root_index.unwrap();
    assert_eq!(
        root_index.to_string(),
        r#"<!DOCTYPE html>
<html>
    <body>
    <a href="/simple/numpy/">numpy</a><br/>
    <a href="/simple/protobuf/">protobuf</a><br/>
    <a href="/simple/xgboost/">xgboost</a>
    </body>
</html>"#,
    );
}

#[test]
fn root_index_of_text_without_anchors_is_empty() {
    assert_eq!(RootIndex::from_str("").unwrap().packages.len(), 0);
    assert_eq!(RootIndex::from_str("<<<not html").unwrap().packages.len(), 0);
    assert_eq!(RootIndex::from_str("<p>no links</p><a></a>").unwrap().packages.len(), 0);
    assert_eq!(
        RootIndex { packages: vec![] }.to_string(),
        "<!DOCTYPE html>\n<html>\n    <body>\n    \n    </body>\n</html>",
    );
}

#[test]
fn package_index_reads_attributes() {
    let html = "<html><body>\
        <a href=\"https://files/foo-1.0.tar.gz#sha256=ab\" data-requires-python=\"&gt;=3.7\" data-gpg-sig=\"true\">foo-1.0.tar.gz</a><br/>\
        <span><a href=\"https://files/foo-1.1.tar.gz\" data-gpg-sig=\"false\">foo-1.1.tar.gz</a></span>\
        <a name=\"no-href\">skipped</a>\
        <a href=\"empty\"></a>\
        </body></html>";
    let index = PackageIndex::from_str(html).unwrap();
    assert_eq!(
        index,
        PackageIndex {
            releases: vec![
                Release {
                    name: "foo-1.0.tar.gz".to_string(),
                    uri: "https://files/foo-1.0.tar.gz#sha256=ab".to_string(),
                    has_gpg: true,
                    requires_python: Some(">=3.7".to_string()),
                },
                Release {
                    name: "foo-1.1.tar.gz".to_string(),
                    uri: "https://files/foo-1.1.tar.gz".to_string(),
                    has_gpg: false,
                    requires_python: None,
                },
            ],
        },
    );
    assert_eq!(
        index.to_string(),
        "<!DOCTYPE html>\n<html>\n    <body>\n    \
<a href=\"https://files/foo-1.0.tar.gz#sha256=ab\" data-requires-python=\">=3.7\" data-gpg-sig=\"true\">foo-1.0.tar.gz</a><br/>\n    \
<a href=\"https://files/foo-1.1.tar.gz\">foo-1.1.tar.gz</a>\n    </body>\n</html>",
    );
}

#[test]
fn nodes_are_read_in_document_order() {
    assert_eq!(MAX_DOCUMENT_CHARS, 1_073_741_823);
    let nodes = read_nodes("<html><head></head><body><a href=\"u\" class=\"c\">t</a></body></html>");
    let tags: Vec<Option<&str>> = nodes.iter().map(|n| n.tag.as_deref()).collect();
    assert_eq!(tags, vec![Some("html"), Some("head"), Some("body"), Some("a"), None]);
    assert_eq!(nodes[3].text, Some("t".to_string()));
    let names: Vec<&str> = nodes[3].attributes.iter().map(|a| a.name.as_str()).collect();
    assert_eq!(names, vec!["class", "href"]);
    assert_eq!(nodes[3].attributes[1].namespace, "");
    assert_eq!(nodes[3].attributes[1].value, "u");
}

#[test]
fn release_link_spelling() {
    let release = Release {
        name: "n".to_string(),
        uri: "u".to_string(),
        has_gpg: true,
        requires_python: None,
    };
    assert_eq!(release.to_string(), "<a href=\"u\" data-gpg-sig=\"true\">n</a>");
    assert_eq!(release.duplicate(), release);
}

#[test]
fn nodes_are_read_by_tag_text_and_plain_attributes() {
    let attr = |namespace: &str, name: &str, value: &str| Attribute {
        namespace: namespace.to_string(),
        name: name.to_string(),
        value: value.to_string(),
    };
    let anchor = HtmlNode {
        tag: Some("a".to_string()),
        text: Some("pkg".to_string()),
        attributes: vec![attr("http://www.w3.org/1999/xlink", "href", "other"), attr("", "href", "here")],
    };
    let div = HtmlNode { tag: Some("div".to_string()), text: Some("pkg".to_string()), attributes: vec![] };
    let bare = HtmlNode { tag: Some("a".to_string()), text: None, attributes: vec![attr("", "href", "x")] };
    let text = HtmlNode { tag: None, text: None, attributes: vec![] };
    assert_eq!(anchor.attribute("href"), Some("here".to_string()));
    assert_eq!(anchor.attribute("data-gpg-sig"), None);
    let nodes = vec![div, anchor, bare, text];
    assert_eq!(RootIndex::from_nodes(&nodes).packages, vec!["pkg".to_string()]);
    let releases = PackageIndex::from_nodes(&nodes).releases;
    assert_eq!(releases.len(), 1);
    assert_eq!(releases[0].uri, "here");
    assert_eq!(releases[0].has_gpg, false);
}
