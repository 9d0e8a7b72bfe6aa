//! Colour never changes what a rendering says: removing the terminal escape
//! sequences (`ESC … m`) from a coloured rendering gives the plain one.

use vstd::prelude::*;

use crate::paint::{bold, cyan, dimmed, green, red, underline, yellow};
use crate::tree::{
    child_prefix_text, children_text, colorize_text, connector_text, detail_text, match_mark_text,
    node_line_text, render_text, status_suffix_text, NodeStatus, TreeView,
};

verus! {

/// `s` holds no escape character.
pub open spec fn no_esc(s: Seq<char>) -> bool {
    forall|i: int| 0 <= i < s.len() ==> s[i] != '\x1b'
}

/// `s` with every escape sequence removed, reading from a state that is (`in_code`)
/// or is not inside a sequence: a sequence runs from `ESC` up to and including the next `m`.
pub open spec fn strip_from(s: Seq<char>, in_code: bool) -> Seq<char>
    decreases s.len(),
{
    if s.len() == 0 {
        Seq::empty()
    } else if in_code {
        strip_from(s.drop_first(), s[0] != 'm')
    } else if s[0] == '\x1b' {
        strip_from(s.drop_first(), true)
    } else {
        seq![s[0]] + strip_from(s.drop_first(), false)
    }
}

/// Whether reading `s` from the given state ends inside an escape sequence.
pub open spec fn ends_in_code(s: Seq<char>, in_code: bool) -> bool
    decreases s.len(),
{
    if s.len() == 0 {
        in_code
    } else if in_code {
        ends_in_code(s.drop_first(), s[0] != 'm')
    } else {
        ends_in_code(s.drop_first(), s[0] == '\x1b')
    }
}

/// `s` with its escape sequences removed.
pub open spec fn without_sgr(s: Seq<char>) -> Seq<char> {
    strip_from(s, false)
}

/// Every escape sequence begun in `s` is closed in `s`.
pub open spec fn sgr_closed(s: Seq<char>) -> bool {
    !ends_in_code(s, false)
}

proof fn lemma_strip_concat(a: Seq<char>, b: Seq<char>, m: bool)
    ensures
        strip_from(a + b, m) == strip_from(a, m) + strip_from(b, ends_in_code(a, m)),
        ends_in_code(a + b, m) == ends_in_code(b, ends_in_code(a, m)),
    decreases a.len(),
{
    if a.len() == 0 {
        assert(a + b =~= b);
    } else {
        assert((a + b).drop_first() =~= a.drop_first() + b);
        assert((a + b)[0] == a[0]);
        let m2 = if m {
            a[0] != 'm'
        } else {
            a[0] == '\x1b'
        };
        lemma_strip_concat(a.drop_first(), b, m2);
        if !m && a[0] != '\x1b' {
            assert(seq![a[0]] + (strip_from(a.drop_first(), false) + strip_from(b, ends_in_code(a, m))) =~= (
            seq![a[0]] + strip_from(a.drop_first(), false)) + strip_from(b, ends_in_code(a, m)));
        }
    }
}

/// Text with no escape character is left as it is.
proof fn lemma_plain(s: Seq<char>)
    requires
        no_esc(s),
    ensures
        without_sgr(s) == s,
        sgr_closed(s),
    decreases s.len(),
{
    if s.len() > 0 {
        lemma_plain(s.drop_first());
        assert(seq![s[0]] + s.drop_first() =~= s);
    }
}

proof fn lemma_code_tail(s: Seq<char>)
    requires
        s.len() >= 1,
        s.last() == 'm',
        forall|i: int| 0 <= i < s.len() - 1 ==> s[i] != 'm',
    ensures
        strip_from(s, true) == Seq::<char>::empty(),
        !ends_in_code(s, true),
    decreases s.len(),
{
    let t = s.drop_first();
    if s.len() > 1 {
        assert(s[0] != 'm');
        assert(t.last() == s.last());
        assert forall|i: int| 0 <= i < t.len() - 1 implies t[i] != 'm' by {
            assert(t[i] == s[i + 1]);
        }
        lemma_code_tail(t);
        assert(strip_from(s, true) == strip_from(t, true));
        assert(ends_in_code(s, true) == ends_in_code(t, true));
    } else {
        assert(s[0] == 'm');
        assert(t.len() == 0);
        assert(strip_from(t, false) == Seq::<char>::empty());
        assert(!ends_in_code(t, false));
        assert(strip_from(s, true) == strip_from(t, false));
        assert(ends_in_code(s, true) == ends_in_code(t, false));
    }
}

/// One escape sequence `ESC … m` disappears entirely and leaves no sequence open.
proof fn lemma_code(c: Seq<char>)
    requires
        c.len() >= 2,
        c[0] == '\x1b',
        c.last() == 'm',
        forall|i: int| 0 <= i < c.len() - 1 ==> c[i] != 'm',
    ensures
        without_sgr(c) == Seq::<char>::empty(),
        sgr_closed(c),
{
    lemma_code_tail(c.drop_first());
}

/// Joining two texts whose sequences are closed: removal works piecewise.
proof fn lemma_join(a: Seq<char>, b: Seq<char>)
    requires
        sgr_closed(a),
        sgr_closed(b),
    ensures
        without_sgr(a + b) == without_sgr(a) + without_sgr(b),
        sgr_closed(a + b),
{
    lemma_strip_concat(a, b, false);
}

/// A text between an opening and a closing sequence.
proof fn lemma_wrapped(open: Seq<char>, x: Seq<char>, close: Seq<char>)
    requires
        open.len() >= 2,
        open[0] == '\x1b',
        open.last() == 'm',
        forall|i: int| 0 <= i < open.len() - 1 ==> open[i] != 'm',
        close.len() >= 2,
        close[0] == '\x1b',
        close.last() == 'm',
        forall|i: int| 0 <= i < close.len() - 1 ==> close[i] != 'm',
        sgr_closed(x),
    ensures
        without_sgr(open + x + close) == without_sgr(x),
        sgr_closed(open + x + close),
{
    lemma_code(open);
    lemma_code(close);
    lemma_join(open, x);
    lemma_join(open + x, close);
    assert(Seq::<char>::empty() + without_sgr(x) =~= without_sgr(x));
    assert(without_sgr(x) + Seq::<char>::empty() =~= without_sgr(x));
}

/// Each colour and style only wraps its text in escape sequences.
proof fn lemma_styles(x: Seq<char>)
    requires
        sgr_closed(x),
    ensures
        without_sgr(green(x)) == without_sgr(x) && sgr_closed(green(x)),
        without_sgr(red(x)) == without_sgr(x) && sgr_closed(red(x)),
        without_sgr(yellow(x)) == without_sgr(x) && sgr_closed(yellow(x)),
        without_sgr(cyan(x)) == without_sgr(x) && sgr_closed(cyan(x)),
        without_sgr(bold(x)) == without_sgr(x) && sgr_closed(bold(x)),
        without_sgr(dimmed(x)) == without_sgr(x) && sgr_closed(dimmed(x)),
        without_sgr(underline(x)) == without_sgr(x) && sgr_closed(underline(x)),
{
    reveal_strlit("\x1b[32m");
    reveal_strlit("\x1b[31m");
    reveal_strlit("\x1b[33m");
    reveal_strlit("\x1b[36m");
    reveal_strlit("\x1b[39m");
    reveal_strlit("\x1b[1m");
    reveal_strlit("\x1b[2m");
    reveal_strlit("\x1b[4m");
    reveal_strlit("\x1b[0m");
    lemma_wrapped("\x1b[32m"@, x, "\x1b[39m"@);
    lemma_wrapped("\x1b[31m"@, x, "\x1b[39m"@);
    lemma_wrapped("\x1b[33m"@, x, "\x1b[39m"@);
    lemma_wrapped("\x1b[36m"@, x, "\x1b[39m"@);
    lemma_wrapped("\x1b[1m"@, x, "\x1b[0m"@);
    lemma_wrapped("\x1b[2m"@, x, "\x1b[0m"@);
    lemma_wrapped("\x1b[4m"@, x, "\x1b[0m"@);
}

/// A plain text, coloured by the same style at both levels.
proof fn lemma_styled_plain(x: Seq<char>)
    requires
        no_esc(x),
    ensures
        without_sgr(green(x)) == x && sgr_closed(green(x)),
        without_sgr(red(x)) == x && sgr_closed(red(x)),
        without_sgr(yellow(x)) == x && sgr_closed(yellow(x)),
        without_sgr(cyan(x)) == x && sgr_closed(cyan(x)),
        without_sgr(bold(red(x))) == x && sgr_closed(bold(red(x))),
        without_sgr(dimmed(cyan(x))) == x && sgr_closed(dimmed(cyan(x))),
        without_sgr(underline(bold(green(x)))) == x && sgr_closed(underline(bold(green(x)))),
{
    lemma_plain(x);
    lemma_styles(x);
    lemma_styles(red(x));
    lemma_styles(cyan(x));
    lemma_styles(green(x));
    lemma_styles(bold(green(x)));
}

proof fn lemma_no_esc_join(a: Seq<char>, b: Seq<char>)
    requires
        no_esc(a),
        no_esc(b),
    ensures
        no_esc(a + b),
{
    assert forall|i: int| 0 <= i < (a + b).len() implies (a + b)[i] != '\x1b' by {
        if i >= a.len() {
            assert((a + b)[i] == b[i - a.len()]);
        }
    }
}

/// No escape character in any label or detail of the tree.
pub open spec fn tree_esc_free(n: TreeView) -> bool
    decreases n, 0int,
{
    &&& no_esc(n.label)
    &&& (n.detail matches Some(d) ==> no_esc(d))
    &&& forest_esc_free(n.children, 0)
}

/// No escape character in the trees `cs[i..]`.
pub open spec fn forest_esc_free(cs: Seq<TreeView>, i: int) -> bool
    decreases cs, cs.len() - i,
{
    if i < 0 || i >= cs.len() {
        true
    } else {
        tree_esc_free(cs[i]) && forest_esc_free(cs, i + 1)
    }
}

/// One piece of a node line: the coloured text strips to the plain one, which holds
/// no escape character.
spec fn piece_ok(coloured: Seq<char>, plain: Seq<char>) -> bool {
    &&& without_sgr(coloured) == plain
    &&& sgr_closed(coloured)
    &&& no_esc(plain)
}

proof fn lemma_piece_join(a: Seq<char>, ap: Seq<char>, b: Seq<char>, bp: Seq<char>)
    requires
        piece_ok(a, ap),
        piece_ok(b, bp),
    ensures
        piece_ok(a + b, ap + bp),
{
    lemma_join(a, b);
    lemma_no_esc_join(ap, bp);
}

proof fn lemma_piece_plain(s: Seq<char>)
    requires
        no_esc(s),
    ensures
        piece_ok(s, s),
{
    lemma_plain(s);
}

proof fn lemma_literals()
    ensures
        no_esc("└── "@),
        no_esc("├── "@),
        no_esc("    "@),
        no_esc("│   "@),
        no_esc(" \""@),
        no_esc("\""@),
        no_esc(" "@),
        no_esc("✓"@),
        no_esc("✗"@),
        no_esc("⚠"@),
        no_esc(" ✓"@),
        no_esc(" ✗"@),
        no_esc(" ⚠"@),
        no_esc(" (MATCHED!)"@),
        no_esc("\n"@),
        no_esc(Seq::<char>::empty()),
        " "@ + "✓"@ == " ✓"@,
        " "@ + "✗"@ == " ✗"@,
        " "@ + "⚠"@ == " ⚠"@,
{
    reveal_strlit("└── ");
    reveal_strlit("├── ");
    reveal_strlit("    ");
    reveal_strlit("│   ");
    reveal_strlit(" \"");
    reveal_strlit("\"");
    reveal_strlit(" ");
    reveal_strlit("✓");
    reveal_strlit("✗");
    reveal_strlit("⚠");
    reveal_strlit(" ✓");
    reveal_strlit(" ✗");
    reveal_strlit(" ⚠");
    reveal_strlit(" (MATCHED!)");
    reveal_strlit("\n");
    assert(" "@ + "✓"@ =~= " ✓"@);
    assert(" "@ + "✗"@ =~= " ✗"@);
    assert(" "@ + "⚠"@ =~= " ⚠"@);
}

proof fn lemma_status_suffix(status: NodeStatus, mp: bool)
    ensures
        piece_ok(status_suffix_text(status, mp, true), status_suffix_text(status, mp, false)),
{
    lemma_literals();
    lemma_styled_plain("✓"@);
    lemma_styled_plain("✗"@);
    lemma_styled_plain("⚠"@);
    lemma_piece_plain(" "@);
    lemma_piece_plain(Seq::<char>::empty());
    if !mp {
        match status {
            NodeStatus::Match => lemma_piece_join(" "@, " "@, green("✓"@), "✓"@),
            NodeStatus::NoMatch => lemma_piece_join(" "@, " "@, red("✗"@), "✗"@),
            NodeStatus::Warning => lemma_piece_join(" "@, " "@, yellow("⚠"@), "⚠"@),
            NodeStatus::Error => lemma_piece_join(" "@, " "@, red("✗"@), "✗"@),
            NodeStatus::Info => {},
        }
    }
}

proof fn lemma_node_line(n: TreeView, prefix: Seq<char>, is_last: bool, is_root: bool)
    requires
        no_esc(prefix),
        no_esc(n.label),
        n.detail matches Some(d) ==> no_esc(d),
    ensures
        piece_ok(node_line_text(n, prefix, is_last, is_root, true), node_line_text(n, prefix, is_last, is_root, false)),
{
    lemma_literals();
    lemma_piece_plain(prefix);
    let conn = connector_text(is_last, is_root);
    lemma_piece_plain(conn);
    lemma_styled_plain(n.label);
    lemma_piece_plain(n.label);
    let col_t = colorize_text(n.status, n.label, true);
    let col_f = colorize_text(n.status, n.label, false);
    assert(piece_ok(col_t, col_f));
    let det_t = detail_text(n.detail, true);
    let det_f = detail_text(n.detail, false);
    match n.detail {
        Some(d) => {
            lemma_no_esc_join(" \""@, d);
            lemma_no_esc_join(" \""@ + d, "\""@);
            lemma_styled_plain(" \""@ + d + "\""@);
        },
        None => {
            lemma_piece_plain(Seq::<char>::empty());
        },
    }
    assert(piece_ok(det_t, det_f));
    lemma_status_suffix(n.status, n.is_match_point);
    let suf_t = status_suffix_text(n.status, n.is_match_point, true);
    let suf_f = status_suffix_text(n.status, n.is_match_point, false);
    let mk_t = match_mark_text(n.is_match_point, true);
    let mk_f = match_mark_text(n.is_match_point, false);
    lemma_styled_plain(" (MATCHED!)"@);
    lemma_piece_plain(Seq::<char>::empty());
    assert(piece_ok(mk_t, mk_f));
    lemma_piece_plain("\n"@);
    lemma_piece_join(prefix, prefix, conn, conn);
    lemma_piece_join(prefix + conn, prefix + conn, col_t, col_f);
    lemma_piece_join(prefix + conn + col_t, prefix + conn + col_f, det_t, det_f);
    lemma_piece_join(prefix + conn + col_t + det_t, prefix + conn + col_f + det_f, suf_t, suf_f);
    lemma_piece_join(
        prefix + conn + col_t + det_t + suf_t,
        prefix + conn + col_f + det_f + suf_f,
        mk_t,
        mk_f,
    );
    lemma_piece_join(
        prefix + conn + col_t + det_t + suf_t + mk_t,
        prefix + conn + col_f + det_f + suf_f + mk_f,
        "\n"@,
        "\n"@,
    );
}

proof fn lemma_render_piece(n: TreeView, prefix: Seq<char>, is_last: bool, is_root: bool)
    requires
        no_esc(prefix),
        tree_esc_free(n),
    ensures
        piece_ok(render_text(n, prefix, is_last, is_root, true), render_text(n, prefix, is_last, is_root, false)),
    decreases n, 0int,
{
    lemma_node_line(n, prefix, is_last, is_root);
    let cp = child_prefix_text(prefix, is_last, is_root);
    lemma_literals();
    if !is_root {
        if is_last {
            lemma_no_esc_join(prefix, "    "@);
        } else {
            lemma_no_esc_join(prefix, "│   "@);
        }
    }
    lemma_children_piece(n.children, cp, 0);
    lemma_piece_join(
        node_line_text(n, prefix, is_last, is_root, true),
        node_line_text(n, prefix, is_last, is_root, false),
        children_text(n.children, cp, 0, true),
        children_text(n.children, cp, 0, false),
    );
}

proof fn lemma_children_piece(cs: Seq<TreeView>, prefix: Seq<char>, i: int)
    requires
        no_esc(prefix),
        forest_esc_free(cs, i),
    ensures
        piece_ok(children_text(cs, prefix, i, true), children_text(cs, prefix, i, false)),
    decreases cs, cs.len() - i,
{
    if i < 0 || i >= cs.len() {
        lemma_piece_plain(Seq::<char>::empty());
    } else {
        lemma_render_piece(cs[i], prefix, i == cs.len() - 1, false);
        lemma_children_piece(cs, prefix, i + 1);
        lemma_piece_join(
            render_text(cs[i], prefix, i == cs.len() - 1, false, true),
            render_text(cs[i], prefix, i == cs.len() - 1, false, false),
            children_text(cs, prefix, i + 1, true),
            children_text(cs, prefix, i + 1, false),
        );
    }
}

/// Colour only wraps the text: when no label or detail of the tree holds an escape
/// character, the plain rendering holds none either, and removing every escape
/// sequence from the coloured rendering gives exactly the plain rendering.
pub proof fn lemma_colour_only_wraps(n: TreeView)
    requires
        tree_esc_free(n),
    ensures
        no_esc(render_text(n, Seq::empty(), true, true, false)),
        without_sgr(render_text(n, Seq::empty(), true, true, true)) == render_text(n, Seq::empty(), true, true, false),
{
    lemma_render_piece(n, Seq::empty(), true, true);
}

} // verus!
