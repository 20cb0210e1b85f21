use is_tree::plugin::{CellValue, OutputRow};
use is_tree::registry::default_registry;
use is_tree::render::{
    all_columns_template, cell_to_json, cell_to_text, directory_only_lines, format_header, format_row,
    json_objects, parse_columns_from_format, parse_csv, resolve_format_template, resolve_paths,
    resolve_requested_mask, select_subdirectories, should_short_circuit_directory_only,
    unique_preserving_order, JsonCell,
};

fn strings(v: &[&str]) -> Vec<String> {
    v.iter().map(|s| s.to_string()).collect()
}

#[test]
fn short_circuit_matches_directory_shorthand() {
    assert!(should_short_circuit_directory_only(Some("directory")));
}

#[test]
fn short_circuit_matches_directory_placeholder() {
    assert!(should_short_circuit_directory_only(Some("{directory}")));
}

#[test]
fn short_circuit_ignores_non_directory_formats() {
    assert!(!should_short_circuit_directory_only(Some("all")));
    assert!(!should_short_circuit_directory_only(Some("{status} {directory}")));
    assert!(!should_short_circuit_directory_only(None));
}

#[test]
fn short_circuit_ignores_surrounding_whitespace() {
    assert!(should_short_circuit_directory_only(Some("  {directory}\n")));
    assert!(!should_short_circuit_directory_only(Some("{ directory }")));
}

#[test]
fn placeholders_are_read_in_order() {
    assert_eq!(
        parse_columns_from_format("{status} {directory} {ahead}"),
        strings(&["status", "directory", "ahead"])
    );
}

#[test]
fn placeholders_are_trimmed_and_empty_ones_dropped() {
    assert_eq!(parse_columns_from_format("x{ a }y{}{  }z{b"), strings(&["a", "b"]));
    assert_eq!(parse_columns_from_format("no placeholders"), Vec::<String>::new());
}

#[test]
fn csv_items_are_trimmed_and_empty_ones_dropped() {
    let list = " jj, ,beads ,".to_string();
    assert_eq!(parse_csv(Some(&list)), strings(&["jj", "beads"]));
    assert_eq!(parse_csv(None), Vec::<String>::new());
}

#[test]
fn directory_only_lines_with_header() {
    let paths = strings(&["./a", "./b"]);
    assert_eq!(directory_only_lines(&paths, true), strings(&["directory", "./a", "./b"]));
    assert_eq!(directory_only_lines(&paths, false), strings(&["./a", "./b"]));
}

#[test]
fn cells_as_text() {
    assert_eq!(cell_to_text(&CellValue::Number(-12)), "-12");
    assert_eq!(cell_to_text(&CellValue::Number(0)), "0");
    assert_eq!(cell_to_text(&CellValue::Text("x y".to_string())), "x y");
    assert_eq!(cell_to_text(&CellValue::Empty), "");
}

#[test]
fn header_uses_titles_and_separator() {
    let registry = default_registry();
    assert_eq!(
        format_header("{ahead} {beads-last-changed}", " | ", registry.columns()),
        "AHEAD | BEADS_LAST_CHANGED"
    );
    assert_eq!(format_header("{ahead} {other}", " ", registry.columns()), "AHEAD {other}");
}

#[test]
fn row_uses_cell_texts_and_separator() {
    let registry = default_registry();
    let row = OutputRow {
        row_id: 0,
        path: "./a".to_string(),
        cells: vec![
            CellValue::Text("jj".to_string()),
            CellValue::Text("./a".to_string()),
            CellValue::Number(3),
            CellValue::Text("2024-01-01 10:00".to_string()),
        ],
    };
    assert_eq!(
        format_row(&row, "{ahead} {beads-last-changed}", ",", registry.columns()),
        "3,2024-01-01 10:00"
    );
    let spaced = OutputRow {
        row_id: 0,
        path: "d".to_string(),
        cells: vec![
            CellValue::Empty,
            CellValue::Empty,
            CellValue::Number(2),
            CellValue::Text("a b".to_string()),
        ],
    };
    assert_eq!(
        format_row(&spaced, "{ahead} {beads-last-changed}", "|", registry.columns()),
        "2|a b"
    );
    assert_eq!(
        format_row(&spaced, "{ahead}  {beads-last-changed}", " | ", registry.columns()),
        "2 |  | a b"
    );
    assert_eq!(format_row(&row, "{status} {directory}", " ", registry.columns()), "jj ./a");
    assert_eq!(format_header("{status} {directory}", " ", registry.columns()), "STATUS DIRECTORY");
    let short = OutputRow { row_id: 1, path: "./b".to_string(), cells: vec![CellValue::Number(1)] };
    assert_eq!(format_row(&short, "[{beads-last-changed}]", " ", registry.columns()), "[]");
}

#[test]
fn all_template_names_every_column() {
    let registry = default_registry();
    assert_eq!(
        all_columns_template(registry.columns()),
        "{status} {directory} {ahead} {beads-last-changed}"
    );
    let keys = parse_columns_from_format(&all_columns_template(registry.columns()));
    assert_eq!(keys, strings(&["status", "directory", "ahead", "beads-last-changed"]));
}

#[test]
fn format_template_resolution() {
    let registry = default_registry();
    let cols = registry.columns();
    assert_eq!(
        resolve_format_template(Some("all"), cols, &[]),
        Ok("{status} {directory} {ahead} {beads-last-changed}".to_string())
    );
    assert_eq!(resolve_format_template(Some("{ahead}!"), cols, &[]), Ok("{ahead}!".to_string()));
    assert_eq!(
        resolve_format_template(None, cols, &[false, false, false, true]),
        Ok("{beads-last-changed}".to_string())
    );
    assert_eq!(
        resolve_format_template(None, cols, &[true, true, false, false]),
        Ok("{status} {directory}".to_string())
    );
    let msg = "No columns selected. Use --format, --jj, --jj-ahead, or plugin-specific toggles.";
    assert_eq!(resolve_format_template(None, cols, &[false; 4]), Err(msg.to_string()));
    assert_eq!(resolve_format_template(None, cols, &[true]), Ok("{status}".to_string()));
    assert_eq!(resolve_format_template(None, cols, &[]), Err(msg.to_string()));
}

#[test]
fn requested_mask_resolution() {
    let registry = default_registry();
    let cols = registry.columns();
    assert_eq!(resolve_requested_mask(Some("all"), cols, &registry), Ok(vec![true; 4]));
    assert_eq!(
        resolve_requested_mask(Some("{ahead} x"), cols, &registry),
        Ok(vec![false, false, true, false])
    );
    assert_eq!(
        resolve_requested_mask(Some("{ahead} {nope} {bad}"), cols, &registry),
        Err("unknown column key: nope".to_string())
    );
    assert_eq!(
        resolve_requested_mask(None, cols, &registry),
        Ok(vec![true, true, false, false])
    );
}

#[test]
fn unique_values_keep_first_occurrence_order() {
    assert_eq!(
        unique_preserving_order(strings(&["b", "a", "b", "c", "a"])),
        strings(&["b", "a", "c"])
    );
    assert_eq!(unique_preserving_order(Vec::new()), Vec::<String>::new());
}

#[test]
fn json_cells() {
    assert_eq!(cell_to_json(&CellValue::Number(7)), Some(JsonCell::Number(7)));
    assert_eq!(cell_to_json(&CellValue::Text("t".to_string())), Some(JsonCell::Text("t".to_string())));
    assert_eq!(cell_to_json(&CellValue::Empty), None);
}

#[test]
fn json_objects_follow_the_template_keys() {
    let registry = default_registry();
    let rows = vec![
        OutputRow {
            row_id: 0,
            path: "./a".to_string(),
            cells: vec![CellValue::Empty, CellValue::Empty, CellValue::Number(2), CellValue::Empty],
        },
        OutputRow {
            row_id: 1,
            path: "./b".to_string(),
            cells: vec![
                CellValue::Empty,
                CellValue::Text("./b".to_string()),
                CellValue::Empty,
                CellValue::Text("t".to_string()),
            ],
        },
        OutputRow { row_id: 2, path: "./c".to_string(), cells: vec![] },
    ];
    let objects = json_objects(&rows, "{ahead} {ahead} {nope} {beads-last-changed}", registry.columns());
    assert_eq!(objects.len(), 3);
    assert_eq!(objects[0], vec![("ahead".to_string(), JsonCell::Number(2))]);
    assert_eq!(
        objects[1],
        vec![("beads-last-changed".to_string(), JsonCell::Text("t".to_string()))]
    );
    assert_eq!(objects[2], vec![]);
}

#[test]
fn paths_from_arguments() {
    let usage = "Usage: is-tree <directory> [directories...] | --all";
    assert_eq!(resolve_paths(false, &vec![], &vec![]), Err(usage.to_string()));
    assert_eq!(resolve_paths(false, &vec![], &strings(&["x", "y"])), Ok(strings(&["x", "y"])));
    assert_eq!(
        resolve_paths(true, &strings(&["a", "b"]), &strings(&["ignored"])),
        Ok(strings(&["./a", "./b"]))
    );
}

#[test]
fn subdirectories_are_visible_and_sorted() {
    let names = strings(&["zeta", ".git", "alpha", "Beta", ".hidden", "alp"]);
    assert_eq!(select_subdirectories(&names), strings(&["Beta", "alp", "alpha", "zeta"]));
}

#[test]
fn default_output_is_status_and_directory() {
    let registry = default_registry();
    let cols = registry.columns();
    let mask = resolve_requested_mask(None, cols, &registry).unwrap();
    let template = resolve_format_template(None, cols, &mask).unwrap();
    assert_eq!(template, "{status} {directory}");
    let row = OutputRow {
        row_id: 0,
        path: "./repo".to_string(),
        cells: vec![
            CellValue::Text("worktree-git".to_string()),
            CellValue::Text("./repo".to_string()),
            CellValue::Empty,
            CellValue::Empty,
        ],
    };
    assert_eq!(format_row(&row, &template, " ", cols), "worktree-git ./repo");
    let objects = json_objects(&vec![row], &template, cols);
    assert_eq!(
        objects[0],
        vec![
            ("status".to_string(), JsonCell::Text("worktree-git".to_string())),
            ("directory".to_string(), JsonCell::Text("./repo".to_string())),
        ]
    );
}

#[test]
fn trimming_twice_is_trimming_once() {
    use_trim(" \t padded value \n");
    use_trim("plain");
    use_trim("   ");
}

fn use_trim(s: &str) {
    let once = is_tree::text::trim_str(s);
    let twice = is_tree::text::trim_str(&once);
    assert_eq!(once, s.trim());
    assert_eq!(twice, once);
}
