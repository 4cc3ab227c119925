use acil::output::{
    bold, collect_node, collect_single_line, collect_table, collect_tree, dim, paint, pad_to_width, visible_width, CommandOutput,
    TermColor, TextStyle, TreeNode,
};

fn strip_ansi(s: &str) -> String {
    let mut out = String::new();
    let mut chars = s.chars();
    while let Some(c) = chars.next() {
        if c == '\u{1b}' {
            for next in chars.by_ref() {
                if next == 'm' {
                    break;
                }
            }
        } else {
            out.push(c);
        }
    }
    out
}

fn lines_of(out: CommandOutput) -> Vec<String> {
    match out {
        CommandOutput::Lines(lines) => lines,
        CommandOutput::Empty => panic!("expected lines"),
    }
}

#[test]
fn test_collect_table_aligns_columns_despite_ansi_codes() {
    let colored_short = "\u{1b}[31mBug\u{1b}[0m".to_string();
    let plain_long = "Story".to_string();
    let rows = vec![vec![colored_short, "Q".to_string()], vec![plain_long, "Q".to_string()]];

    let out = collect_table(&["Type", "V"], &rows, false);
    let lines = lines_of(out);

    let row0 = strip_ansi(&lines[2]);
    let row1 = strip_ansi(&lines[3]);

    assert_eq!(row0.find('Q'), row1.find('Q'), "columns must line up");
}

#[test]
fn table_exact_lines() {
    let rows = vec![vec!["a".to_string(), "bb".to_string()], vec!["ccc".to_string()]];
    let lines = lines_of(collect_table(&["H1", "H2"], &rows, false));
    assert_eq!(lines, vec!["H1   H2", "-------", "a    bb", "ccc"]);
}

#[test]
fn table_with_color_paints_header_and_rule() {
    let rows = vec![vec!["x".to_string()]];
    let lines = lines_of(collect_table(&["H"], &rows, true));
    assert_eq!(lines[0], "\u{1b}[1mH\u{1b}[0m");
    assert_eq!(lines[1], "\u{1b}[90m-\u{1b}[0m");
    assert_eq!(lines[2], "x");
}

#[test]
fn table_law_rows_as_wide_as_rule() {
    let red = paint("Bug", TextStyle::fg(TermColor::Red), true);
    let rows = vec![vec![red, "Q".to_string()], vec!["Story".to_string(), "QQQ".to_string()]];
    let lines = lines_of(collect_table(&["Type", "V"], &rows, false));
    let rule = lines[1].chars().count();
    assert_eq!(visible_width(&lines[0]), rule);
    assert_eq!(visible_width(&lines[2]), rule);
    assert_eq!(visible_width(&lines[3]), rule);
}

#[test]
fn visible_width_skips_escapes() {
    assert_eq!(visible_width("\u{1b}[31mBug\u{1b}[0m"), 3);
    assert_eq!(visible_width("plain"), 5);
    assert_eq!(visible_width("\u{1b}[31"), 0);
    assert_eq!(visible_width(""), 0);
}

#[test]
fn paint_codes() {
    assert_eq!(paint("x", TextStyle::fg(TermColor::Red), true), "\u{1b}[31mx\u{1b}[0m");
    assert_eq!(paint("x", TextStyle::fg(TermColor::Green).bold(), true), "\u{1b}[1;32mx\u{1b}[0m");
    assert_eq!(paint("x", TextStyle::plain(), true), "x");
    assert_eq!(paint("x", TextStyle::fg(TermColor::Red), false), "x");
    assert_eq!(bold("b", true), "\u{1b}[1mb\u{1b}[0m");
    assert_eq!(dim("d", true), "\u{1b}[90md\u{1b}[0m");
}

#[test]
fn paint_keeps_visible_width_law() {
    let p = paint("héllo", TextStyle::fg(TermColor::Cyan).bold(), true);
    assert_eq!(visible_width(&p), 5);
}

#[test]
fn pad_to_width_pads() {
    assert_eq!(pad_to_width("ab", 4), "ab  ");
    assert_eq!(pad_to_width("abcd", 2), "abcd");
}

#[test]
fn single_line_output() {
    assert_eq!(lines_of(collect_single_line("hi".to_string())), vec!["hi"]);
}

#[test]
fn tree_exact_lines() {
    let roots = vec![
        TreeNode {
            title: "A".into(),
            id: "1".into(),
            children: vec![
                TreeNode { title: "B".into(), id: "2".into(), children: vec![] },
                TreeNode { title: "C".into(), id: "3".into(), children: vec![] },
            ],
        },
        TreeNode { title: "D".into(), id: "4".into(), children: vec![] },
    ];
    let lines = lines_of(collect_tree("Head", &roots, false));
    assert_eq!(
        lines,
        vec!["Head", "────", "A (1)", "├─ B (2)", "└─ C (3)", "D (4)"]
    );
}

#[test]
fn tree_without_roots() {
    let lines = lines_of(collect_tree("H", &[], false));
    assert_eq!(lines, vec!["H", "─"]);
}

#[test]
fn node_lines_under_prefix() {
    let node = TreeNode {
        title: "A".into(),
        id: "1".into(),
        children: vec![TreeNode { title: "B".into(), id: "2".into(), children: vec![] }],
    };
    let mut lines: Vec<String> = vec!["top".into()];
    collect_node(&mut lines, &node, "│  ", false, false);
    assert_eq!(lines, vec!["top", "│  ├─ A (1)", "│  │  └─ B (2)"]);
    let mut colored: Vec<String> = Vec::new();
    collect_node(&mut colored, &node, "", true, true);
    assert_eq!(colored[0], "\u{1b}[90m└─ \u{1b}[0mA \u{1b}[90m(1)\u{1b}[0m");
}

#[test]
fn tree_roots_at_column_zero() {
    let roots = vec![
        TreeNode {
            title: "A".into(),
            id: "1".into(),
            children: vec![TreeNode { title: "B".into(), id: "2".into(), children: vec![] }],
        },
        TreeNode { title: "C".into(), id: "3".into(), children: vec![] },
    ];
    let lines: Vec<String> = lines_of(collect_tree("H", &roots, true)).iter().map(|l| strip_ansi(l)).collect();
    assert_eq!(lines, vec!["H", "─", "A (1)", "└─ B (2)", "C (3)"]);
}
