use spfquery::tree::{NodeStatus, TreeNode};

#[test]
fn test_simple_tree_render() {
    let root = TreeNode::new("example.com", NodeStatus::Info)
        .with_detail("v=spf1 ip4:1.2.3.0/24 -all")
        .with_children(vec![
            TreeNode::new("ip4:1.2.3.0/24", NodeStatus::NoMatch),
            {
                let mut node = TreeNode::new("ip4:10.0.0.0/8", NodeStatus::Match);
                node.set_match_point();
                node
            },
            TreeNode::new("-all", NodeStatus::NoMatch),
        ]);

    let output = root.render(false);
    assert!(output.contains("example.com"));
    assert!(output.contains("ip4:1.2.3.0/24"));
    assert!(output.contains("MATCHED!"));
    assert!(output.contains("├──"));
    assert!(output.contains("└──"));
}

#[test]
fn test_nested_tree_render() {
    let root = TreeNode::new("example.com", NodeStatus::Info).with_children(vec![
        TreeNode::new("include:_spf.google.com", NodeStatus::Info).with_children(vec![
            TreeNode::new("_spf.google.com", NodeStatus::Info)
                .with_detail("v=spf1 ip4:35.190.247.0/24 -all")
                .with_children(vec![
                    TreeNode::new("ip4:35.190.247.0/24", NodeStatus::NoMatch),
                    TreeNode::new("-all", NodeStatus::NoMatch),
                ]),
        ]),
    ]);

    let output = root.render(false);
    assert!(output.contains("include:_spf.google.com"));
    assert!(output.contains("_spf.google.com"));
}

#[test]
fn test_colored_render_no_panic() {
    let root = TreeNode::new("test", NodeStatus::Match).with_children(vec![
        TreeNode::new("child1", NodeStatus::NoMatch),
        TreeNode::new("child2", NodeStatus::Warning),
    ]);
    let _output = root.render(true);
}

#[test]
fn render_exact_plain_layout() {
    let mut matched = TreeNode::new("b", NodeStatus::NoMatch);
    matched.set_match_point();
    let root = TreeNode::new("root", NodeStatus::Info)
        .with_detail("d")
        .with_children(vec![
            TreeNode::new("a", NodeStatus::NoMatch)
                .with_children(vec![TreeNode::new("a1", NodeStatus::Warning)]),
            matched,
        ]);
    assert_eq!(
        root.render(false),
        "root \"d\"\n├── a ✗\n│   └── a1 ⚠\n└── b (MATCHED!)\n"
    );
}

#[test]
fn render_exact_colored_layout() {
    let root = TreeNode::new("x", NodeStatus::Error);
    assert_eq!(root.render(true), "\x1b[1m\x1b[31mx\x1b[39m\x1b[0m ✗\n".replace(" ✗", " \x1b[31m✗\x1b[39m"));
}

#[test]
fn render_colored_match_point_and_warning() {
    let mut hit = TreeNode::new("m", NodeStatus::Info).with_detail("d");
    hit.set_match_point();
    let root = TreeNode::new("r", NodeStatus::Info)
        .with_children(vec![TreeNode::new("w", NodeStatus::Warning), hit]);
    let expected = String::new()
        + "\x1b[36mr\x1b[39m\n"
        + "├── \x1b[33mw\x1b[39m \x1b[33m⚠\x1b[39m\n"
        + "└── \x1b[32mm\x1b[39m\x1b[2m\x1b[36m \"d\"\x1b[39m\x1b[0m"
        + "\x1b[4m\x1b[1m\x1b[32m (MATCHED!)\x1b[39m\x1b[0m\x1b[0m\n";
    assert_eq!(root.render(true), expected);
}

#[test]
fn render_colored_match_status() {
    let root = TreeNode::new("ok", NodeStatus::Match);
    assert_eq!(root.render(true), "\x1b[32mok\x1b[39m \x1b[32m✓\x1b[39m\n");
}

fn without_sgr(s: &str) -> String {
    let mut out = String::new();
    let mut in_code = false;
    for c in s.chars() {
        if in_code {
            in_code = c != 'm';
        } else if c == '\x1b' {
            in_code = true;
        } else {
            out.push(c);
        }
    }
    out
}

#[test]
fn colour_only_wraps_the_plain_rendering() {
    let mut hit = TreeNode::new("ip4:1.2.3.0/24", NodeStatus::NoMatch);
    hit.set_match_point();
    let root = TreeNode::new("a.com", NodeStatus::Info)
        .with_detail("v=spf1 ip4:1.2.3.0/24 -all")
        .with_children(vec![
            TreeNode::new("include:b.com", NodeStatus::Error).with_detail("错误"),
            TreeNode::new("mx", NodeStatus::Warning)
                .with_children(vec![TreeNode::new("mx1", NodeStatus::Match)]),
            hit,
        ]);
    let plain = root.render(false);
    assert!(!plain.contains('\x1b'));
    assert_eq!(without_sgr(&root.render(true)), plain);
}
