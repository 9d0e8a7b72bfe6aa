//! The resolution tree and its text rendering.

use vstd::prelude::*;

use crate::paint::{
    bold, cyan, dimmed, green, paint_bold, paint_cyan, paint_dimmed, paint_green, paint_red,
    paint_underline, paint_yellow, red, underline, yellow,
};
use crate::net::{ip_string, ip_text, IpAddress};
use crate::text::{concat2, dec_string, dec_text};

verus! {

/// Status of a node of the resolution tree.
#[derive(Debug, Clone, Copy, PartialEq, Eq, Structural)]
pub enum NodeStatus {
    Match,
    NoMatch,
    Warning,
    Info,
    Error,
}

/// A node of the resolution tree.
#[derive(Debug)]
pub struct TreeNode {
    pub label: String,
    pub detail: Option<String>,
    pub status: NodeStatus,
    pub children: Vec<TreeNode>,
    pub is_match_point: bool,
}

/// The mathematical content of a [`TreeNode`].
pub struct TreeView {
    pub label: Seq<char>,
    pub detail: Option<Seq<char>>,
    pub status: NodeStatus,
    pub children: Seq<TreeView>,
    pub is_match_point: bool,
}

/// View of an optional string.
pub open spec fn opt_view(o: Option<String>) -> Option<Seq<char>> {
    match o {
        Some(s) => Some(s@),
        None => None,
    }
}

/// View of a node.
pub open spec fn tree_view(n: TreeNode) -> TreeView
    decreases n, 0int,
{
    TreeView {
        label: n.label@,
        detail: opt_view(n.detail),
        status: n.status,
        children: forest_view(n.children@),
        is_match_point: n.is_match_point,
    }
}

/// Views of a sequence of nodes.
pub open spec fn forest_view(s: Seq<TreeNode>) -> Seq<TreeView>
    decreases s, s.len(),
{
    if s.len() == 0 {
        Seq::empty()
    } else {
        forest_view(s.subrange(0, s.len() - 1)).push(tree_view(s[s.len() - 1]))
    }
}

/// `forest_view` is taken element by element.
pub proof fn lemma_forest_view(s: Seq<TreeNode>)
    ensures
        forest_view(s).len() == s.len(),
        forall|i: int| 0 <= i < s.len() ==> #[trigger] forest_view(s)[i] == tree_view(s[i]),
    decreases s.len(),
{
    if s.len() > 0 {
        lemma_forest_view(s.subrange(0, s.len() - 1));
    }
}

impl View for TreeNode {
    type V = TreeView;

    open spec fn view(&self) -> TreeView {
        tree_view(*self)
    }
}

/// The connector drawn before a node's label.
pub open spec fn connector_text(is_last: bool, is_root: bool) -> Seq<char> {
    if is_root {
        Seq::empty()
    } else if is_last {
        "└── "@
    } else {
        "├── "@
    }
}

/// The prefix handed to the children of a node.
pub open spec fn child_prefix_text(prefix: Seq<char>, is_last: bool, is_root: bool) -> Seq<char> {
    if is_root {
        prefix
    } else if is_last {
        prefix + "    "@
    } else {
        prefix + "│   "@
    }
}

/// A label coloured by the node's status.
pub open spec fn colorize_text(status: NodeStatus, text: Seq<char>, use_color: bool) -> Seq<char> {
    if !use_color {
        text
    } else {
        match status {
            NodeStatus::Match => green(text),
            NodeStatus::NoMatch => red(text),
            NodeStatus::Warning => yellow(text),
            NodeStatus::Info => cyan(text),
            NodeStatus::Error => bold(red(text)),
        }
    }
}

/// The quoted detail after a label, if any.
pub open spec fn detail_text(detail: Option<Seq<char>>, use_color: bool) -> Seq<char> {
    match detail {
        Some(d) => {
            let quoted = " \""@ + d + "\""@;
            if use_color {
                dimmed(cyan(quoted))
            } else {
                quoted
            }
        },
        None => Seq::empty(),
    }
}

/// The status mark after a label; a match point gets none.
pub open spec fn status_suffix_text(status: NodeStatus, is_match_point: bool, use_color: bool) -> Seq<char> {
    if is_match_point {
        Seq::empty()
    } else {
        match status {
            NodeStatus::Match => if use_color { " "@ + green("✓"@) } else { " ✓"@ },
            NodeStatus::NoMatch => if use_color { " "@ + red("✗"@) } else { " ✗"@ },
            NodeStatus::Warning => if use_color { " "@ + yellow("⚠"@) } else { " ⚠"@ },
            NodeStatus::Info => Seq::empty(),
            NodeStatus::Error => if use_color { " "@ + red("✗"@) } else { " ✗"@ },
        }
    }
}

/// The marker of a match point.
pub open spec fn match_mark_text(is_match_point: bool, use_color: bool) -> Seq<char> {
    if !is_match_point {
        Seq::empty()
    } else if use_color {
        underline(bold(green(" (MATCHED!)"@)))
    } else {
        " (MATCHED!)"@
    }
}

/// The line of one node, ending in a newline.
pub open spec fn node_line_text(
    n: TreeView,
    prefix: Seq<char>,
    is_last: bool,
    is_root: bool,
    use_color: bool,
) -> Seq<char> {
    prefix + connector_text(is_last, is_root) + colorize_text(n.status, n.label, use_color)
        + detail_text(n.detail, use_color) + status_suffix_text(n.status, n.is_match_point, use_color)
        + match_mark_text(n.is_match_point, use_color) + "\n"@
}

/// The rendering of a node and, below it, of all its descendants.
pub open spec fn render_text(
    n: TreeView,
    prefix: Seq<char>,
    is_last: bool,
    is_root: bool,
    use_color: bool,
) -> Seq<char>
    decreases n, 0int,
{
    node_line_text(n, prefix, is_last, is_root, use_color) + children_text(
        n.children,
        child_prefix_text(prefix, is_last, is_root),
        0,
        use_color,
    )
}

/// The rendering of the children `cs[i..]` under `prefix`; the last child gets the closing connector.
pub open spec fn children_text(cs: Seq<TreeView>, prefix: Seq<char>, i: int, use_color: bool) -> Seq<char>
    decreases cs, cs.len() - i,
{
    if i < 0 || i >= cs.len() {
        Seq::empty()
    } else {
        render_text(cs[i], prefix, i == cs.len() - 1, false, use_color) + children_text(
            cs,
            prefix,
            i + 1,
            use_color,
        )
    }
}

impl TreeNode {
    /// A node with no detail and no children.
    pub fn new(label: &str, status: NodeStatus) -> (r: TreeNode)
        ensures
            r@ == (TreeView {
                label: label@,
                detail: None,
                status,
                children: Seq::empty(),
                is_match_point: false,
            }),
    {
        let r = TreeNode {
            label: String::from_str(label),
            detail: None,
            status,
            children: Vec::new(),
            is_match_point: false,
        };
        assert(forest_view(r.children@) =~= Seq::<TreeView>::empty());
        r
    }

    /// The node with its detail set.
    pub fn with_detail(self, detail: &str) -> (r: TreeNode)
        ensures
            r@ == (TreeView { detail: Some(detail@), ..self@ }),
    {
        let mut s = self;
        s.detail = Some(String::from_str(detail));
        s
    }

    /// The node with its children replaced.
    pub fn with_children(self, children: Vec<TreeNode>) -> (r: TreeNode)
        ensures
            r@ == (TreeView { children: forest_view(children@), ..self@ }),
    {
        let mut s = self;
        s.children = children;
        s
    }

    /// Appends a child.
    pub fn add_child(&mut self, child: TreeNode)
        ensures
            final(self)@ == (TreeView { children: old(self)@.children.push(child@), ..old(self)@ }),
    {
        let ghost before = self.children@;
        self.children.push(child);
        assert(self.children@.subrange(0, self.children@.len() - 1) =~= before);
    }

    /// Marks the node as the point where the IP matched; its status becomes `Match`.
    pub fn set_match_point(&mut self)
        ensures
            final(self)@ == (TreeView { is_match_point: true, status: NodeStatus::Match, ..old(self)@ }),
    {
        self.is_match_point = true;
        self.status = NodeStatus::Match;
    }

    /// Renders the tree, one line per node.
    pub fn render(&self, use_color: bool) -> (r: String)
        ensures
            r@ == render_text(self@, Seq::empty(), true, true, use_color),
    {
        let mut output = String::new();
        let root_prefix = String::new();
        self.render_node(&mut output, root_prefix.as_str(), true, true, use_color);
        assert(output@ =~= Seq::<char>::empty() + render_text(self@, Seq::empty(), true, true, use_color));
        output
    }

    fn render_node(
        &self,
        output: &mut String,
        prefix: &str,
        is_last: bool,
        is_root: bool,
        use_color: bool,
    )
        ensures
            final(output)@ == old(output)@ + render_text(self@, prefix@, is_last, is_root, use_color),
        decreases self,
    {
        let ghost start = output@;
        let line_str = self.line(prefix, is_last, is_root, use_color);
        output.append(line_str.as_str());
        let ghost line = node_line_text(self@, prefix@, is_last, is_root, use_color);

        let child_prefix = if is_root {
            String::from_str(prefix)
        } else if is_last {
            concat2(prefix, "    ")
        } else {
            concat2(prefix, "│   ")
        };
        let ghost cp = child_prefix_text(prefix@, is_last, is_root);
        assert(child_prefix@ =~= cp);

        let child_count = self.children.len();
        let ghost cs = self@.children;
        proof {
            lemma_forest_view(self.children@);
        }
        let mut i: usize = 0;
        while i < child_count
            invariant
                child_count == self.children@.len(),
                cs == forest_view(self.children@),
                cs.len() == child_count,
                forall|k: int| 0 <= k < child_count ==> #[trigger] cs[k] == tree_view(self.children@[k]),
                child_prefix@ == cp,
                i <= child_count,
                output@ + children_text(cs, cp, i as int, use_color) == start + line + children_text(
                    cs,
                    cp,
                    0,
                    use_color,
                ),
            decreases child_count - i,
        {
            let ghost before = output@;
            let child = &self.children[i];
            assert(cs[i as int] == child@);
            child.render_node(output, child_prefix.as_str(), i == child_count - 1, false, use_color);
            assert(children_text(cs, cp, i as int, use_color) == render_text(
                cs[i as int],
                cp,
                i == child_count - 1,
                false,
                use_color,
            ) + children_text(cs, cp, i + 1, use_color));
            assert(output@ + children_text(cs, cp, i + 1, use_color) =~= before + children_text(
                cs,
                cp,
                i as int,
                use_color,
            ));
            i = i + 1;
        }
        assert(children_text(cs, cp, i as int, use_color) =~= Seq::empty());
        assert(output@ =~= start + render_text(self@, prefix@, is_last, is_root, use_color));
    }

    fn line(&self, prefix: &str, is_last: bool, is_root: bool, use_color: bool) -> (r: String)
        ensures
            r@ == node_line_text(self@, prefix@, is_last, is_root, use_color),
    {
        let mut out = String::from_str(prefix);
        if is_root {
        } else if is_last {
            out.append("└── ");
        } else {
            out.append("├── ");
        }
        let label_colored = self.colorize(self.label.as_str(), use_color);
        out.append(label_colored.as_str());
        let detail_str = self.detail_string(use_color);
        out.append(detail_str.as_str());
        let status_str = self.status_suffix(use_color);
        out.append(status_str.as_str());
        let mark = self.match_mark(use_color);
        out.append(mark.as_str());
        out.append("\n");
        assert(out@ =~= node_line_text(self@, prefix@, is_last, is_root, use_color));
        out
    }

    fn detail_string(&self, use_color: bool) -> (r: String)
        ensures
            r@ == detail_text(opt_view(self.detail), use_color),
    {
        match &self.detail {
            Some(detail) => {
                let mut quoted = String::from_str(" \"");
                quoted.append(detail.as_str());
                quoted.append("\"");
                if use_color {
                    let c = paint_cyan(quoted.as_str());
                    paint_dimmed(c.as_str())
                } else {
                    quoted
                }
            },
            None => String::new(),
        }
    }

    fn match_mark(&self, use_color: bool) -> (r: String)
        ensures
            r@ == match_mark_text(self.is_match_point, use_color),
    {
        if !self.is_match_point {
            String::new()
        } else if use_color {
            let g = paint_green(" (MATCHED!)");
            let b = paint_bold(g.as_str());
            paint_underline(b.as_str())
        } else {
            String::from_str(" (MATCHED!)")
        }
    }

    fn status_suffix(&self, use_color: bool) -> (r: String)
        ensures
            r@ == status_suffix_text(self.status, self.is_match_point, use_color),
    {
        if self.is_match_point {
            return String::new();
        }
        match self.status {
            NodeStatus::Match => {
                if use_color {
                    concat2(" ", paint_green("✓").as_str())
                } else {
                    String::from_str(" ✓")
                }
            },
            NodeStatus::NoMatch => {
                if use_color {
                    concat2(" ", paint_red("✗").as_str())
                } else {
                    String::from_str(" ✗")
                }
            },
            NodeStatus::Warning => {
                if use_color {
                    concat2(" ", paint_yellow("⚠").as_str())
                } else {
                    String::from_str(" ⚠")
                }
            },
            NodeStatus::Info => String::new(),
            NodeStatus::Error => {
                if use_color {
                    concat2(" ", paint_red("✗").as_str())
                } else {
                    String::from_str(" ✗")
                }
            },
        }
    }

    fn colorize(&self, text: &str, use_color: bool) -> (r: String)
        ensures
            r@ == colorize_text(self.status, text@, use_color),
    {
        if !use_color {
            return String::from_str(text);
        }
        match self.status {
            NodeStatus::Match => paint_green(text),
            NodeStatus::NoMatch => paint_red(text),
            NodeStatus::Warning => paint_yellow(text),
            NodeStatus::Info => paint_cyan(text),
            NodeStatus::Error => {
                let r = paint_red(text);
                paint_bold(r.as_str())
            },
        }
    }
}


/// The lines listing the addresses `ips[j..]` of one MX exchange.
pub open spec fn mx_ips_text(ips: Seq<IpAddress>, j: int, ip_prefix: Seq<char>, use_color: bool) -> Seq<char>
    decreases ips.len() - j,
{
    if j < 0 || j >= ips.len() {
        Seq::empty()
    } else {
        let connector = if j == ips.len() - 1 {
            "└── "@
        } else {
            "├── "@
        };
        let t = if use_color {
            dimmed(ip_text(ips[j]))
        } else {
            ip_text(ips[j])
        };
        "  "@ + ip_prefix + connector + t + "\n"@ + mx_ips_text(ips, j + 1, ip_prefix, use_color)
    }
}

/// The line of one MX exchange.
pub open spec fn mx_line_text(pref: u16, exchange: Seq<char>, is_last: bool, use_color: bool) -> Seq<char> {
    let connector = if is_last {
        "└── "@
    } else {
        "├── "@
    };
    let label = exchange + " (priority: "@ + dec_text(pref as nat) + ")"@;
    "  "@ + connector + (if use_color {
        cyan(label)
    } else {
        label
    }) + "\n"@
}

/// The prefix of the address lines under an exchange.
pub open spec fn mx_ip_prefix(is_last: bool) -> Seq<char> {
    if is_last {
        "      "@
    } else {
        "  │   "@
    }
}

/// The lines of the MX records `recs[i..]`: one per exchange, then one per address.
pub open spec fn mx_tree_text(recs: Seq<(u16, Seq<char>, Seq<IpAddress>)>, i: int, use_color: bool) -> Seq<char>
    decreases recs.len() - i,
{
    if i < 0 || i >= recs.len() {
        Seq::empty()
    } else {
        let is_last = i == recs.len() - 1;
        mx_line_text(recs[i].0, recs[i].1, is_last, use_color) + mx_ips_text(
            recs[i].2,
            0,
            mx_ip_prefix(is_last),
            use_color,
        ) + mx_tree_text(recs, i + 1, use_color)
    }
}

fn mx_line(pref: u16, exchange: &str, is_last: bool, use_color: bool) -> (r: String)
    ensures
        r@ == mx_line_text(pref, exchange@, is_last, use_color),
{
    let mut label = String::from_str(exchange);
    label.append(" (priority: ");
    let p = dec_string(pref as u32);
    label.append(p.as_str());
    label.append(")");
    let mut out = String::from_str("  ");
    if is_last {
        out.append("└── ");
    } else {
        out.append("├── ");
    }
    if use_color {
        let c = paint_cyan(label.as_str());
        out.append(c.as_str());
    } else {
        out.append(label.as_str());
    }
    out.append("\n");
    assert(out@ =~= mx_line_text(pref, exchange@, is_last, use_color));
    out
}

/// Views of MX records with their addresses.
pub open spec fn mx_entries_view(v: Seq<(u16, String, Vec<IpAddress>)>) -> Seq<(u16, Seq<char>, Seq<IpAddress>)> {
    v.map_values(|r: (u16, String, Vec<IpAddress>)| (r.0, r.1@, r.2@))
}

fn append_mx_ips(output: &mut String, ips: &Vec<IpAddress>, ip_prefix: &str, use_color: bool)
    ensures
        final(output)@ == old(output)@ + mx_ips_text(ips@, 0, ip_prefix@, use_color),
{
    let ghost start = old(output)@;
    let mut j: usize = 0;
    while j < ips.len()
        invariant
            j <= ips@.len(),
            start == old(output)@,
            output@ + mx_ips_text(ips@, j as int, ip_prefix@, use_color) == start + mx_ips_text(
                ips@,
                0,
                ip_prefix@,
                use_color,
            ),
        decreases ips.len() - j,
    {
        let ghost before = output@;
        let ip_is_last = j == ips.len() - 1;
        output.append("  ");
        output.append(ip_prefix);
        if ip_is_last {
            output.append("└── ");
        } else {
            output.append("├── ");
        }
        let ip_str = ip_string(ips[j]);
        if use_color {
            let t = paint_dimmed(ip_str.as_str());
            output.append(t.as_str());
        } else {
            output.append(ip_str.as_str());
        }
        output.append("\n");
        assert(output@ + mx_ips_text(ips@, j + 1, ip_prefix@, use_color) =~= before + mx_ips_text(
            ips@,
            j as int,
            ip_prefix@,
            use_color,
        ));
        j = j + 1;
    }
    assert(mx_ips_text(ips@, j as int, ip_prefix@, use_color) =~= Seq::<char>::empty());
    assert(output@ =~= start + mx_ips_text(ips@, 0, ip_prefix@, use_color));
}

/// Renders the MX records shown above the resolution tree.
pub fn render_mx_tree(mx_records: &Vec<(u16, String, Vec<IpAddress>)>, use_color: bool) -> (r: String)
    ensures
        r@ == mx_tree_text(mx_entries_view(mx_records@), 0, use_color),
{
    let ghost recs = mx_entries_view(mx_records@);
    let mut output = String::new();
    let mut i: usize = 0;
    while i < mx_records.len()
        invariant
            recs == mx_entries_view(mx_records@),
            recs.len() == mx_records@.len(),
            i <= mx_records@.len(),
            output@ + mx_tree_text(recs, i as int, use_color) == mx_tree_text(recs, 0, use_color),
        decreases mx_records.len() - i,
    {
        let ghost before = output@;
        let is_last = i == mx_records.len() - 1;
        let pref = mx_records[i].0;
        let exchange = mx_records[i].1.as_str();
        let ips = &mx_records[i].2;
        assert(recs[i as int] == (pref, exchange@, ips@));
        let line = mx_line(pref, exchange, is_last, use_color);
        output.append(line.as_str());
        let ip_prefix = if is_last {
            "      "
        } else {
            "  │   "
        };
        append_mx_ips(&mut output, ips, ip_prefix, use_color);
        assert(output@ + mx_tree_text(recs, i + 1, use_color) =~= before + mx_tree_text(
            recs,
            i as int,
            use_color,
        ));
        i = i + 1;
    }
    assert(mx_tree_text(recs, i as int, use_color) =~= Seq::<char>::empty());
    assert(output@ =~= mx_tree_text(recs, 0, use_color));
    output
}

} // verus!
