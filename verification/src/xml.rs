use vstd::prelude::*;

use crate::urls::opt_view;

verus! {

/// What the feed logic reads of one XML node: whether it is an element, its local
/// name and namespace (empty and none for other nodes), its text (an element's first
/// child text, a text or comment node's own text), its `href` attribute, and its
/// depth (the document node has depth 1).
#[derive(Debug)]
pub struct XmlNode {
    pub element: bool,
    pub name: String,
    pub namespace: Option<String>,
    pub text: Option<String>,
    pub href: Option<String>,
    pub depth: usize,
}

pub struct XmlNodeView {
    pub element: bool,
    pub name: Seq<char>,
    pub namespace: Option<Seq<char>>,
    pub text: Option<Seq<char>>,
    pub href: Option<Seq<char>>,
    pub depth: usize,
}

impl View for XmlNode {
    type V = XmlNodeView;

    open spec fn view(&self) -> XmlNodeView {
        XmlNodeView {
            element: self.element,
            name: self.name@,
            namespace: opt_view(self.namespace),
            text: opt_view(self.text),
            href: opt_view(self.href),
            depth: self.depth,
        }
    }
}

pub open spec fn nodes_view(v: Seq<XmlNode>) -> Seq<XmlNodeView> {
    v.map_values(|n: XmlNode| n@)
}

/// The nodes of the document that `roxmltree::Document::parse` builds from the
/// text, in document order, or, where it refuses the text, its error as text.
pub uninterp spec fn spec_xml_nodes(xml: Seq<char>) -> Result<Seq<XmlNodeView>, Seq<char>>;

/// Calls `roxmltree::Document::parse` and lists the document's nodes (`descendants`
/// of the document node) as plain values, or gives the error as its `Display` text.
/// Claims only that the result is the named function of the text.
#[verifier::external_body]
pub(crate) fn xml_nodes(xml: &str) -> (r: Result<Vec<XmlNode>, String>)
    ensures
        match r {
            Ok(v) => spec_xml_nodes(xml@) == Ok::<Seq<XmlNodeView>, Seq<char>>(nodes_view(v@)),
            Err(m) => spec_xml_nodes(xml@) == Err::<Seq<XmlNodeView>, Seq<char>>(m@),
        },
{
    let doc = match roxmltree::Document::parse(xml) {
        Ok(d) => d,
        Err(e) => return Err(e.to_string()),
    };
    Ok(doc.descendants().map(|n| XmlNode {
        element: n.is_element(),
        name: n.tag_name().name().to_string(),
        namespace: n.tag_name().namespace().map(|s| s.to_string()),
        text: n.text().map(|s| s.to_string()),
        href: n.attribute("href").map(|s| s.to_string()),
        depth: n.ancestors().count(),
    }).collect())
}

// ---------------------------------------------------------------------------
// The tree, read from the flat node list
// ---------------------------------------------------------------------------

/// The first index at or after `j` whose depth is at most that of `a`: where the
/// subtree of `a` ends.
pub open spec fn scan_end(n: Seq<XmlNodeView>, a: int, j: int) -> int
    decreases n.len() - j,
{
    if j >= n.len() || j < 0 {
        n.len() as int
    } else if n[j].depth <= n[a].depth {
        j
    } else {
        scan_end(n, a, j + 1)
    }
}

/// The end (exclusive) of the subtree of node `a`: its descendants are the nodes
/// after `a` and before this index.
pub open spec fn subtree_end(n: Seq<XmlNodeView>, a: int) -> int {
    scan_end(n, a, a + 1)
}

/// The first node at index `j` or later that is an element.
pub open spec fn first_element_from(n: Seq<XmlNodeView>, j: int) -> Option<int>
    decreases n.len() - j,
{
    if j >= n.len() || j < 0 {
        None
    } else if n[j].element {
        Some(j)
    } else {
        first_element_from(n, j + 1)
    }
}

/// The root element: the first element of the document.
pub open spec fn root_element(n: Seq<XmlNodeView>) -> Option<int> {
    first_element_from(n, 0)
}

/// Whether the namespace `ns`, without trailing slashes, ends with `suffix` (so
/// that `content` names `http://purl.org/rss/1.0/modules/content/`).
pub open spec fn ns_ends_with(ns: Option<Seq<char>>, suffix: Seq<char>) -> bool {
    match ns {
        Some(s) => crate::text::ends_with_seq(crate::text::trim_end_char_seq(s, '/'), suffix),
        None => false,
    }
}

/// Whether node `c` is an element with local name `local` and, where `prefix` is
/// given, a namespace ending with it.
pub open spec fn tag_matches(c: XmlNodeView, prefix: Option<Seq<char>>, local: Seq<char>) -> bool {
    c.element && c.name == local && match prefix {
        Some(p) => ns_ends_with(c.namespace, p),
        None => true,
    }
}

/// The first child of `a` at index `j` or later (before `end`) that matches.
pub open spec fn first_child_from(
    n: Seq<XmlNodeView>,
    a: int,
    j: int,
    end: int,
    prefix: Option<Seq<char>>,
    local: Seq<char>,
) -> Option<int>
    decreases end - j,
{
    if j >= end || j < 0 || end > n.len() {
        None
    } else if n[j].depth == n[a].depth + 1 && tag_matches(n[j], prefix, local) {
        Some(j)
    } else {
        first_child_from(n, a, j + 1, end, prefix, local)
    }
}

/// The first child of `a` that matches.
pub open spec fn first_child(n: Seq<XmlNodeView>, a: int, prefix: Option<Seq<char>>, local: Seq<char>) -> Option<
    int,
> {
    first_child_from(n, a, a + 1, subtree_end(n, a), prefix, local)
}

/// The first node at index `j` or later (before `end`) that is an element named `name`.
pub open spec fn first_named_from(n: Seq<XmlNodeView>, j: int, end: int, name: Seq<char>) -> Option<int>
    decreases end - j,
{
    if j >= end || j < 0 || end > n.len() {
        None
    } else if n[j].element && n[j].name == name {
        Some(j)
    } else {
        first_named_from(n, j + 1, end, name)
    }
}

/// Whether some node at index `j` or later (before `end`) is an element named `name`.
pub open spec fn any_named_from(n: Seq<XmlNodeView>, j: int, end: int, name: Seq<char>) -> bool {
    first_named_from(n, j, end, name).is_some()
}

// ---------------------------------------------------------------------------
// Exec counterparts
// ---------------------------------------------------------------------------

pub fn subtree_end_exec(n: &Vec<XmlNode>, a: usize) -> (r: usize)
    requires
        a < n.len(),
    ensures
        r == subtree_end(nodes_view(n@), a as int),
        a < r <= n.len(),
{
    let ghost nv = nodes_view(n@);
    let mut j = a + 1;
    while j < n.len() && n[j].depth > n[a].depth
        invariant
            nv == nodes_view(n@),
            a < j <= n.len(),
            scan_end(nv, a as int, a + 1) == scan_end(nv, a as int, j as int),
        decreases n.len() - j,
    {
        j = j + 1;
    }
    j
}

pub fn root_element_exec(n: &Vec<XmlNode>) -> (r: Option<usize>)
    ensures
        match r {
            Some(i) => root_element(nodes_view(n@)) == Some(i as int) && i < n.len(),
            None => root_element(nodes_view(n@)).is_none(),
        },
{
    let ghost nv = nodes_view(n@);
    let mut j: usize = 0;
    while j < n.len()
        invariant
            nv == nodes_view(n@),
            j <= n.len(),
            first_element_from(nv, 0) == first_element_from(nv, j as int),
        decreases n.len() - j,
    {
        if n[j].element {
            return Some(j);
        }
        j = j + 1;
    }
    None
}

pub fn ns_ends_with_exec(ns: &Option<String>, suffix: &Vec<char>) -> (r: bool)
    ensures
        r == ns_ends_with(opt_view(*ns), suffix@),
{
    match ns {
        Some(s) => {
            let v = crate::text::trim_end_char(&crate::text::chars_of(s.as_str()), '/');
            crate::text::ends_with_chars(&v, suffix)
        },
        None => false,
    }
}

pub fn first_child_exec(
    n: &Vec<XmlNode>,
    a: usize,
    prefix: &Option<Vec<char>>,
    local: &String,
) -> (r: Option<usize>)
    requires
        a < n.len(),
    ensures
        match r {
            Some(i) => i < n.len() && first_child(
                nodes_view(n@),
                a as int,
                match prefix {
                    Some(p) => Some(p@),
                    None => None,
                },
                local@,
            ) == Some(i as int),
            None => first_child(
                nodes_view(n@),
                a as int,
                match prefix {
                    Some(p) => Some(p@),
                    None => None,
                },
                local@,
            ).is_none(),
        },
{
    let ghost nv = nodes_view(n@);
    let ghost pv = match prefix {
        Some(p) => Some(p@),
        None => None::<Seq<char>>,
    };
    let end = subtree_end_exec(n, a);
    let mut j = a + 1;
    while j < end
        invariant
            nv == nodes_view(n@),
            a < j <= end <= n.len(),
            end == subtree_end(nv, a as int),
            pv == match prefix {
                Some(p) => Some(p@),
                None => None::<Seq<char>>,
            },
            first_child(nv, a as int, pv, local@) == first_child_from(nv, a as int, j as int, end as int, pv, local@),
        decreases end - j,
    {
        let c = &n[j];
        let ok = c.depth == n[a].depth + 1 && c.element && c.name == *local && match prefix {
            Some(p) => ns_ends_with_exec(&c.namespace, p),
            None => true,
        };
        if ok {
            return Some(j);
        }
        j = j + 1;
    }
    None
}

pub fn first_named_exec(n: &Vec<XmlNode>, start: usize, end: usize, name: &String) -> (r: Option<usize>)
    requires
        start <= end <= n.len(),
    ensures
        match r {
            Some(i) => start <= i < end && first_named_from(nodes_view(n@), start as int, end as int, name@)
                == Some(i as int),
            None => first_named_from(nodes_view(n@), start as int, end as int, name@).is_none(),
        },
{
    let ghost nv = nodes_view(n@);
    let mut j = start;
    while j < end
        invariant
            nv == nodes_view(n@),
            start <= j <= end <= n.len(),
            first_named_from(nv, start as int, end as int, name@) == first_named_from(nv, j as int, end as int, name@),
        decreases end - j,
    {
        if n[j].element && n[j].name == *name {
            return Some(j);
        }
        j = j + 1;
    }
    None
}

} // verus!
