use xtools::json_app::JsonView;
use xtools::json_ops::{
    empty_input, format_json, issue_of, minify_json, parse, tree_of_text, unescape_json, validate_json, ParseFailure,
};
use xtools::json_tree::{JsonTree, JsonValue, NodeType};

/// The library's value of a `serde_json` value, members in the order the
/// parser hands them out.
fn value_of(v: &serde_json::Value) -> JsonValue {
    match v {
        serde_json::Value::Null => JsonValue::Null,
        serde_json::Value::Bool(b) => JsonValue::Bool(*b),
        serde_json::Value::Number(n) => JsonValue::Number(n.to_string()),
        serde_json::Value::String(s) => JsonValue::String(s.clone()),
        serde_json::Value::Array(items) => JsonValue::Array(items.iter().map(value_of).collect()),
        serde_json::Value::Object(map) => {
            JsonValue::Object(map.iter().map(|(k, v)| (k.clone(), value_of(v))).collect())
        }
    }
}

fn parsed(text: &str) -> JsonValue {
    value_of(&serde_json::from_str::<serde_json::Value>(text).unwrap())
}

#[test]
fn formats_object() {
    let out = format_json("{\"a\":1}").unwrap();
    assert_eq!(out, "{\n  \"a\": 1\n}");
}

#[test]
fn minifies_object() {
    let out = minify_json("{\n  \"a\": 1\n}").unwrap();
    assert_eq!(out, "{\"a\":1}");
}

#[test]
fn validate_ok() {
    assert!(validate_json("[1, true, null]").is_ok());
}

#[test]
fn reports_line_and_column() {
    let err = validate_json("{\n  \"a\": 1,\n}").unwrap_err();
    assert_eq!(err.line, 3);
    assert_eq!(err.column, 1);
    assert!(!err.display().contains(" at line "));
    assert!(err.display().starts_with("第 3 行第 1 列："));
}

#[test]
fn empty_is_detected() {
    assert!(empty_input("  \n\t"));
    assert!(!empty_input("{}"));
}

#[test]
fn unescapes_quoted_json_string() {
    let input = r#""{\"name\":\"Alice\",\"age\":30}""#;
    let out = unescape_json(input).unwrap();
    assert_eq!(out, "{\n  \"name\": \"Alice\",\n  \"age\": 30\n}");
}

#[test]
fn unescapes_unquoted_escaped_json() {
    let input = r#"{\"name\":\"Bob\",\"arr\":[1,2]}"#;
    let out = unescape_json(input).unwrap();
    assert_eq!(out, "{\n  \"name\": \"Bob\",\n  \"arr\": [\n    1,\n    2\n  ]\n}");
}

#[test]
fn unescapes_standard_escapes() {
    let input = r#"hello\nworld\t\"quoted\""#;
    let out = unescape_json(input).unwrap();
    assert_eq!(out, "hello\nworld\t\"quoted\"");
}

#[test]
fn tree_model_folding() {
    let val = parsed(r#"{"a": [1, 2], "b": {"c": 3}}"#);
    let mut tree = JsonTree::from_value(&val);

    let vis1 = tree.visible_nodes();
    assert!(vis1.len() > 5);

    tree.collapse_all();
    let vis2 = tree.visible_nodes();
    assert_eq!(vis2.len(), 1);

    tree.toggle(0);
    let vis3 = tree.visible_nodes();
    assert!(vis3.len() > 1);

    tree.expand_all();
    let vis4 = tree.visible_nodes();
    assert_eq!(vis4.len(), vis1.len());
}

#[test]
fn unescape_of_blank_text_is_empty() {
    assert_eq!(unescape_json("  \t ").unwrap(), "");
}

#[test]
fn unescape_keeps_a_quoted_plain_string() {
    assert_eq!(unescape_json(r#""just text""#).unwrap(), "just text");
}

#[test]
fn unescape_decodes_unicode_escapes() {
    assert_eq!(unescape_json(r#"caf\u00e9 \"x\""#).unwrap(), "café \"x\"");
}

#[test]
fn invalid_json_is_refused_by_every_printer() {
    assert!(format_json("{").is_err());
    assert!(minify_json("[1,]").is_err());
    assert!(validate_json("nul").is_err());
}

#[test]
fn first_line_error_position() {
    let err = validate_json("[1, 2").unwrap_err();
    assert_eq!(err.line, 1);
    assert!(err.display().starts_with("第 1 行第 "));
}

#[test]
fn tree_rows_of_a_nested_document() {
    let tree = JsonTree::from_value(&parsed(r#"{"a": [1, 2], "b": {"c": 3}}"#));
    let rows = tree.visible_nodes();
    let kinds: Vec<NodeType> = rows.iter().map(|r| r.node_type).collect();
    assert_eq!(
        kinds,
        vec![
            NodeType::Object,
            NodeType::Array,
            NodeType::Number,
            NodeType::Number,
            NodeType::CloseBracket,
            NodeType::Object,
            NodeType::Number,
            NodeType::CloseBrace,
            NodeType::CloseBrace,
        ]
    );
    assert_eq!(rows[0].summary_text, "{ 2 项 }");
    assert_eq!(rows[1].key_text, "\"a\": ");
    assert_eq!(rows[2].key_text, "[0]: ");
    assert!(rows[2].has_comma);
    assert!(!rows[3].has_comma);
    assert_eq!(rows[6].value_text, "3");
    assert_eq!(rows[1].depth, 1);
    assert_eq!(rows[2].depth, 2);
}

#[test]
fn toggling_twice_restores_the_rows() {
    let mut tree = JsonTree::from_value(&parsed(r#"{"x": {"y": [true, null]}}"#));
    let before = tree.visible_nodes().len();
    tree.toggle(1);
    assert!(tree.visible_nodes().len() < before);
    tree.toggle(1);
    assert_eq!(tree.visible_nodes().len(), before);
}

#[test]
fn fold_level_zero_matches_collapse_all() {
    let val = parsed(r#"{"x": {"y": [1, 2, 3]}, "z": "s"}"#);
    let mut a = JsonTree::from_value(&val);
    let mut b = JsonTree::from_value(&val);
    a.fold_level(0);
    b.collapse_all();
    assert_eq!(a.visible_nodes().len(), b.visible_nodes().len());
    assert_eq!(a.visible_nodes().len(), 1);
}

#[test]
fn fold_level_one_shows_top_members_only() {
    let mut tree = JsonTree::from_value(&parsed(r#"{"x": {"y": 1}, "z": [2]}"#));
    tree.fold_level(1);
    let rows = tree.visible_nodes();
    assert_eq!(rows.len(), 4);
    assert!(!rows[1].is_expanded);
    assert!(!rows[2].is_expanded);
}

#[test]
fn toggling_a_leaf_changes_nothing() {
    let mut tree = JsonTree::from_value(&parsed("[1]"));
    let before = tree.visible_nodes().len();
    tree.toggle(1);
    tree.toggle(99);
    assert_eq!(tree.visible_nodes().len(), before);
}

#[test]
fn node_type_names() {
    assert_eq!(NodeType::Object.as_str(), "object");
    assert_eq!(NodeType::Array.as_str(), "array");
    assert_eq!(NodeType::Boolean.as_str(), "boolean");
    assert_eq!(NodeType::CloseBracket.as_str(), "close");
}

#[test]
fn json_view_refuses_blank_text() {
    let mut view = JsonView::new();
    view.text_edited("   ".to_string());
    assert!(!view.can_copy);
    view.format_clicked();
    assert_eq!(view.error, "这一栏是空的\n先粘贴一段 JSON。");
    assert_eq!(view.text, "   ");
    view.unescape_clicked();
    assert_eq!(view.error, "这一栏是空的\n先粘贴一段含转义字符的文本。");
    view.switch_to_tree();
    assert_eq!(view.error, "当前为空，请先输入 JSON 内容");
    assert_eq!(view.view_mode, 0);
    assert!(view.tree_rows().is_none());
}

#[test]
fn json_view_formats_and_builds_a_tree() {
    let mut view = JsonView::new();
    view.text_edited("{\"a\":1}".to_string());
    view.format_clicked();
    assert_eq!(view.text, "{\n  \"a\": 1\n}");
    assert_eq!(view.note, "已格式化");
    assert!(view.error.is_empty());
    assert!(view.can_copy);
    assert_eq!(view.tree_rows().unwrap().len(), 3);
    view.collapse_all();
    assert_eq!(view.tree_rows().unwrap().len(), 1);
    view.toggle_fold(0);
    assert_eq!(view.tree_rows().unwrap().len(), 3);
    view.fold_level(0);
    assert_eq!(view.tree_rows().unwrap().len(), 1);
    view.expand_all();
    assert_eq!(view.tree_rows().unwrap().len(), 3);
    view.text_edited("[]".to_string());
    assert!(view.tree_rows().is_none());
}

#[test]
fn json_view_reports_parse_errors() {
    let mut view = JsonView::new();
    view.text_edited("{\n  \"a\": 1,\n}".to_string());
    view.validate_clicked();
    let issue = validate_json("{\n  \"a\": 1,\n}").unwrap_err();
    assert_eq!(view.error, issue.display());
    assert!(view.error.starts_with("第 3 行第 1 列："));
    assert!(view.note.is_empty());
    view.format_clicked();
    assert_eq!(view.error, issue.display());
    assert_eq!(view.text, "{\n  \"a\": 1,\n}");
    view.switch_to_tree();
    assert_eq!(view.error, format!("无法解析为 JSON 进行树形折叠：{}", issue.display()));
    assert_eq!(view.view_mode, 0);
    assert!(view.tree_rows().is_none());
    assert_eq!(view.text, "{\n  \"a\": 1,\n}");
}

#[test]
fn json_view_tree_mode_and_copy() {
    let mut view = JsonView::new();
    view.text_edited("[1, 2]".to_string());
    view.switch_to_tree();
    assert_eq!(view.view_mode, 1);
    assert!(view.error.is_empty());
    assert_eq!(view.tree_rows().unwrap().len(), 4);
    view.switch_to_text();
    assert_eq!(view.view_mode, 0);
    assert_eq!(view.copy_clicked(), Some("[1, 2]".to_string()));
    assert!(view.copied);
    view.copy_expired();
    assert!(!view.copied);
}

#[test]
fn json_view_minify_and_unescape() {
    let mut view = JsonView::new();
    view.text_edited("{ \"k\" : [ 1 ] }".to_string());
    view.minify_clicked();
    assert_eq!(view.text, "{\"k\":[1]}");
    assert_eq!(view.note, "已压缩");
    assert_eq!(view.tree_rows().unwrap().len(), 5);
    view.text_edited(r#"a\tb"#.to_string());
    view.unescape_clicked();
    assert_eq!(view.text, "a\tb");
    assert_eq!(view.note, "已去转义");
    assert!(view.tree_rows().is_none());
}

#[test]
fn json_view_unescape_shows_the_tree_of_escaped_json() {
    let mut view = JsonView::new();
    view.text_edited(r#"{\"x\":[true]}"#.to_string());
    view.unescape_clicked();
    assert_eq!(view.text, "{\n  \"x\": [\n    true\n  ]\n}");
    assert_eq!(view.tree_rows().unwrap().len(), 5);
    view.validate_clicked();
    assert_eq!(view.note, "JSON 有效");
    assert!(view.error.is_empty());
}

#[test]
fn tree_of_text_follows_the_document() {
    assert!(tree_of_text("{").is_none());
    let tree = tree_of_text(r#"{"b": 1, "a": [null]}"#).unwrap();
    let rows = tree.visible_nodes();
    assert_eq!(rows.len(), 6);
    assert_eq!(rows[1].key_text, "\"b\": ");
    assert_eq!(rows[1].value_text, "1");
    assert_eq!(rows[2].key_text, "\"a\": ");
    assert_eq!(rows[3].node_type, NodeType::Null);
    let same = JsonTree::from_value(&parsed(r#"{"b": 1, "a": [null]}"#)).visible_nodes();
    assert_eq!(same.len(), rows.len());
    for (x, y) in same.iter().zip(rows.iter()) {
        assert_eq!((&x.key_text, &x.value_text, x.node_type, x.depth), (&y.key_text, &y.value_text, y.node_type, y.depth));
    }
}

#[test]
fn format_and_minify_errors_carry_the_position() {
    let e = format_json("[1,\n 2,,]").unwrap_err();
    assert_eq!((e.line, e.column), (2, 4));
    assert!(!e.message.contains(" at line "));
    assert!(!e.message.is_empty());
    let m = minify_json("[1,\n 2,,]").unwrap_err();
    assert_eq!(m, e);
    assert_eq!(parse("[1,\n 2,,]").unwrap_err(), e);
}

#[test]
fn unescape_wraps_text_in_quotes_as_a_last_resort() {
    assert_eq!(unescape_json(r#"\u0031"#).unwrap(), "1");
    assert_eq!(unescape_json(r#"  "[1,2]"  "#).unwrap(), "[\n  1,\n  2\n]");
    assert_eq!(unescape_json(r#"\u12"#).unwrap(), r#"\u12"#);
}

#[test]
fn built_tree_rows_are_linked() {
    let tree = JsonTree::from_value(&parsed(r#"{"a": [1, {"b": null}], "c": "x", "d": {}}"#));
    let rows = &tree.nodes;
    for (i, row) in rows.iter().enumerate() {
        assert_eq!(row.id, i);
        let mut last = i;
        for &c in &row.children {
            assert!(c > last);
            last = c;
            assert_eq!(rows[c].parent, Some(i));
            assert_eq!(rows[c].depth, row.depth + 1);
        }
        if let Some(c) = row.close_node_id {
            assert!(c > last);
            assert_eq!(rows[c].parent, Some(i));
            assert_eq!(rows[c].depth, row.depth);
        }
    }
}

#[test]
fn visible_rows_are_those_with_unfolded_containers() {
    let mut tree = JsonTree::from_value(&parsed(r#"{"a": [1, {"b": null}], "c": "x", "d": [true]}"#));
    tree.toggle(1);
    tree.fold_level(5);
    tree.toggle(3);
    let shown: Vec<usize> = tree.visible_nodes().iter().map(|n| n.id).collect();
    let expected: Vec<usize> = (0..tree.nodes.len())
        .filter(|&i| {
            let mut p = tree.nodes[i].parent;
            while let Some(a) = p {
                if !tree.nodes[a].is_expanded {
                    return false;
                }
                p = tree.nodes[a].parent;
            }
            true
        })
        .collect();
    assert_eq!(shown, expected);
    assert!(shown.len() < tree.nodes.len());
}

#[test]
fn issue_of_cuts_the_position_from_the_message() {
    let failure = ParseFailure { line: 2, column: 5, text: "  expected value at line 2 column 5".to_string() };
    let issue = issue_of(&failure);
    assert_eq!((issue.line, issue.column), (2, 5));
    assert_eq!(issue.message, "expected value");
    assert_eq!(issue.display(), "第 2 行第 5 列：expected value");
}

#[test]
fn closing_rows_end_their_subtrees() {
    let tree = JsonTree::from_value(&parsed(r#"{"a": [1, {"b": null}], "c": {}, "d": [true]}"#));
    let rows = &tree.nodes;
    let descends = |mut i: usize, a: usize| loop {
        if i == a {
            return true;
        }
        match rows[i].parent {
            Some(p) => i = p,
            None => return false,
        }
    };
    for (j, row) in rows.iter().enumerate() {
        if let Some(k) = row.close_node_id {
            for i in j..rows.len() {
                assert_eq!(descends(i, j), i <= k);
            }
        }
    }
}

#[test]
fn unescaping_plain_json_formats_it() {
    let text = "  {\"a\":[1,null],\"b\":\"x\"}  ";
    assert_eq!(unescape_json(text).unwrap(), format_json(text.trim()).unwrap());
}
