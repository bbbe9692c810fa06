use cct_transcripts::cost_decomp::{
    bucket_of, build_tree, collect_rows, fill_days, make_path, short_cat, tree_total_fits, CategoryCost,
    FlameNode, StreamCost,
};

fn path(frames: &[&str]) -> Vec<String> {
    frames.iter().map(|f| f.to_string()).collect()
}

fn names(n: &FlameNode) -> Vec<String> {
    n.children.iter().map(|c| c.name.clone()).collect()
}

#[test]
fn bucket_routing() {
    assert_eq!(bucket_of("tool_result:Bash"), "tool_result");
    assert_eq!(bucket_of("attachment:hook_success"), "attachment");
    assert_eq!(bucket_of("cache_bust:compact_summary"), "cache_bust");
    assert_eq!(bucket_of("asst_thinking"), "asst_output_persisted");
    assert_eq!(bucket_of("user_text"), "user_text");
    assert_eq!(
        bucket_of("system_block_first_turn"),
        "system_block_first_turn"
    );
    assert_eq!(bucket_of("fresh_input_uncategorized"), "fresh_input");
}

#[test]
fn bucket_routing_remaining_categories() {
    assert_eq!(bucket_of("asst_text"), "asst_output_persisted");
    assert_eq!(bucket_of("asst_tool_use_json"), "asst_output_persisted");
    assert_eq!(bucket_of("user_text_first_turn"), "user_text");
    assert_eq!(bucket_of("unaccounted"), "unaccounted");
    assert_eq!(bucket_of("something_else"), "other");
    assert_eq!(bucket_of("tool_result"), "other");
}

#[test]
fn short_cat_strips_prefix() {
    assert_eq!(short_cat("tool_result:Bash"), "Bash");
    assert_eq!(short_cat("attachment:hook_success"), "hook_success");
    assert_eq!(short_cat("asst_thinking"), "asst_thinking");
}

#[test]
fn short_cat_keeps_other_prefixes() {
    assert_eq!(short_cat("cache_bust:date_change"), "cache_bust:date_change");
    assert_eq!(short_cat("tool_result:"), "");
}

#[test]
fn make_path_with_subcat() {
    let row = make_path("tool_result:Bash", "git", false, "cache_create", 1.50_f64);
    assert_eq!(
        row.0,
        vec!["tool_result", "Bash", "git", "cache_create", "main"]
    );
    assert!((row.1 - 1.50).abs() < 1e-9);
}

#[test]
fn make_path_no_subcat() {
    let row = make_path("user_text", "", true, "cache_read", 2.25_f64);
    assert_eq!(
        row.0,
        vec!["user_text", "user_text", "cache_read", "subagent"]
    );
}

#[test]
fn make_path_routes_unknown_and_attachment_categories() {
    let row = make_path("attachment:hook_success", "", false, "fresh_input", 7i64);
    assert_eq!(
        row.0,
        vec!["attachment", "hook_success", "fresh_input", "main"]
    );
    assert_eq!(row.1, 7);
    let row = make_path("mystery", "x", true, "output_write", 0i64);
    assert_eq!(row.0, vec!["other", "mystery", "x", "output_write", "subagent"]);
}

#[test]
fn build_tree_aggregates() {
    // Amounts of 1.00 and 2.00 USD, in cents.
    let rows = vec![
        (
            vec![
                "tool_result".into(),
                "Bash".into(),
                "git".into(),
                "cache_create".into(),
                "main".into(),
            ],
            100,
        ),
        (
            vec![
                "tool_result".into(),
                "Bash".into(),
                "git".into(),
                "cache_read".into(),
                "main".into(),
            ],
            200,
        ),
    ];
    let tree = build_tree(&rows);
    let total = tree.value as f64 / 100.0;
    assert!((total - 3.0).abs() < 1e-9);
    assert_eq!(tree.value, 300);
}

#[test]
fn build_tree_shape_and_order() {
    let rows = vec![
        (path(&["user_text", "user_text", "cache_read", "main"]), 50),
        (path(&["tool_result", "Read", "rs", "cache_create", "main"]), 30),
        (path(&["tool_result", "Bash", "git", "cache_create", "subagent"]), 20),
        (path(&["tool_result", "Bash", "git", "cache_create", "main"]), 5),
        (path(&["tool_result", "Bash", "ls", "cache_read", "main"]), 0),
        (path(&["asst_output_persisted", "asst_text", "output_write", "main"]), -3),
    ];
    assert!(tree_total_fits(&rows));
    let root = build_tree(&rows);
    assert_eq!(root.name, "all");
    assert_eq!(root.value, 105);
    // Rows of zero or less leave no frame behind; children come in name order.
    assert_eq!(names(&root), vec!["tool_result", "user_text"]);
    let tool = &root.children[0];
    assert_eq!(tool.value, 55);
    assert_eq!(names(tool), vec!["Bash", "Read"]);
    let bash = &tool.children[0];
    assert_eq!(bash.value, 25);
    assert_eq!(names(bash), vec!["git"]);
    let git_cc = &bash.children[0].children[0];
    assert_eq!(git_cc.name, "cache_create");
    assert_eq!(names(git_cc), vec!["main", "subagent"]);
    assert_eq!(git_cc.children[0].value, 5);
    assert_eq!(git_cc.children[1].value, 20);
    assert!(git_cc.children[1].children.is_empty());
    // A parent is worth the sum of its children.
    let sum: i64 = root.children.iter().map(|c| c.value).sum();
    assert_eq!(sum, root.value);
}

#[test]
fn build_tree_orders_by_bytes_and_merges_equal_frames() {
    let rows = vec![
        (path(&["b"]), 1),
        (path(&["a", "x"]), 2),
        (path(&["B"]), 4),
        (path(&["a", "x"]), 8),
        (path(&["ä"]), 16),
    ];
    let root = build_tree(&rows);
    assert_eq!(names(&root), vec!["B", "a", "b", "ä"]);
    assert_eq!(root.children[1].value, 10);
    assert_eq!(root.children[1].children.len(), 1);
    assert_eq!(root.children[1].children[0].value, 10);
    assert_eq!(root.value, 31);
}

#[test]
fn build_tree_of_nothing() {
    let rows: Vec<(Vec<String>, i64)> = Vec::new();
    let root = build_tree(&rows);
    assert_eq!(root.name, "all");
    assert_eq!(root.value, 0);
    assert!(root.children.is_empty());
}

#[test]
fn tree_total_fits_detects_overflow() {
    let rows = vec![(path(&["a"]), i64::MAX), (path(&["b"]), 1)];
    assert!(!tree_total_fits(&rows));
    let rows = vec![(path(&["a"]), i64::MAX), (path(&["b"]), -5)];
    assert!(tree_total_fits(&rows));
}

#[test]
fn collect_rows_orders_streams_and_drops_non_positive() {
    let cc = vec![
        CategoryCost {
            category: "tool_result:Bash".into(),
            subcat: "git".into(),
            is_subagent: false,
            cents: 150,
        },
        CategoryCost {
            category: "user_text".into(),
            subcat: "".into(),
            is_subagent: true,
            cents: 0,
        },
    ];
    let cr = vec![CategoryCost {
        category: "attachment:hook_success".into(),
        subcat: "".into(),
        is_subagent: true,
        cents: 7,
    }];
    let ow = vec![
        StreamCost {
            category: "asst_text".into(),
            is_subagent: false,
            cents: 12,
        },
        StreamCost {
            category: "asst_thinking".into(),
            is_subagent: false,
            cents: -1,
        },
    ];
    let fresh = vec![StreamCost {
        category: "fresh_input_uncategorized".into(),
        is_subagent: true,
        cents: 3,
    }];
    let rows = collect_rows(&cc, &cr, &ow, &fresh);
    assert_eq!(rows.len(), 4);
    assert_eq!(
        rows[0].0,
        vec!["asst_output_persisted", "asst_text", "output_write", "main"]
    );
    assert_eq!(rows[0].1, 12);
    assert_eq!(
        rows[1].0,
        vec!["tool_result", "Bash", "git", "cache_create", "main"]
    );
    assert_eq!(rows[1].1, 150);
    assert_eq!(
        rows[2].0,
        vec!["attachment", "hook_success", "cache_read", "subagent"]
    );
    assert_eq!(
        rows[3].0,
        vec![
            "fresh_input",
            "fresh_input_uncategorized",
            "fresh_input",
            "subagent"
        ]
    );
    assert_eq!(rows[3].1, 3);
}

#[test]
fn fill_days_replaces_every_placeholder() {
    assert_eq!(
        fill_days("INTERVAL '{days} days' AND '{days}'", 30),
        "INTERVAL '30 days' AND '30'"
    );
    assert_eq!(fill_days("x{days", -7), "x{days");
    assert_eq!(fill_days("{days}{days}", -7), "-7-7");
    assert_eq!(fill_days("{{days}}", 0), "{0}");
    assert_eq!(fill_days("", i32::MIN), "");
    assert_eq!(fill_days("{days}", i32::MIN), i32::MIN.to_string());
}
