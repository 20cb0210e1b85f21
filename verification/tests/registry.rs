use is_tree::plugin::{CellValue, PluginConfig, RawArg, RowPatch};
use is_tree::registry::{
    beads_collect_last_changed, default_registry, directory_cell, jj_collect_ahead, job_batches,
    microbatch_rows, status_cell, CellCollector, PluginStep, SubProcessor,
};
use is_tree::repo::{RepoInfo, RepoMarkers, RepoType};

fn strings(v: &[&str]) -> Vec<String> {
    v.iter().map(|s| s.to_string()).collect()
}

fn jj_markers() -> RepoMarkers {
    RepoMarkers { jj_exists: true, jj_is_pointer: false, git_exists: false, git_is_file: false }
}

fn git_markers() -> RepoMarkers {
    RepoMarkers { jj_exists: false, jj_is_pointer: false, git_exists: true, git_is_file: false }
}

fn patch(row_id: usize, updates: Vec<(usize, CellValue)>) -> RowPatch {
    RowPatch { row_id, updates }
}

#[test]
fn default_registry_shape() {
    let registry = default_registry();
    assert_eq!(registry.plugin_ids(), vec!["core", "jj", "beads"]);
    let cols = registry.columns();
    assert_eq!(cols.len(), 4);
    let keys: Vec<&str> = cols.columns.iter().map(|c| c.key).collect();
    assert_eq!(keys, vec!["status", "directory", "ahead", "beads-last-changed"]);
    let owners: Vec<usize> = cols.columns.iter().map(|c| c.owner_plugin_ix).collect();
    assert_eq!(owners, vec![0, 0, 1, 2]);
    let defaults: Vec<bool> = cols.columns.iter().map(|c| c.default_in_base_format).collect();
    assert_eq!(defaults, vec![true, true, false, false]);
    assert_eq!(cols.column_ix("beads-last-changed"), Some(3));
    assert_eq!(cols.column_ix("status"), Some(0));
    assert_eq!(cols.column_ix("nope"), None);
    assert_eq!(cols.plugin_columns(0), &[0, 1]);
    assert_eq!(cols.plugin_columns(1), &[2]);
    assert_eq!(cols.plugin_columns(5), &[] as &[usize]);
    assert_eq!(registry.plugin_ix("beads"), Some(2));
    assert_eq!(registry.plugin_ix("dates"), None);
}

#[test]
fn default_arguments() {
    let registry = default_registry();
    let entries = registry.arguments().entries();
    let longs: Vec<&str> = entries.iter().map(|e| e.long.as_str()).collect();
    assert_eq!(longs, vec!["jj", "jj-ahead", "beads", "beads-beads-last-changed"]);
    let ids: Vec<&str> = entries.iter().map(|e| e.clap_id.as_str()).collect();
    assert_eq!(ids, vec!["p1a0", "p1a1", "p2a0", "p2a1"]);
}

#[test]
fn plugin_index_resolution() {
    let registry = default_registry();
    assert_eq!(registry.resolve_plugin_indexes(&vec![]), Ok(vec![0, 1, 2]));
    assert_eq!(registry.resolve_plugin_indexes(&strings(&["beads", "jj"])), Ok(vec![2, 1]));
    assert_eq!(
        registry.resolve_plugin_indexes(&strings(&["jj", "x", "y"])),
        Err("unknown plugin id: x".to_string())
    );
}

#[test]
fn column_mask_resolution() {
    let registry = default_registry();
    assert_eq!(
        registry.resolve_requested_column_mask(&strings(&["beads-last-changed"])),
        Ok(vec![false, false, false, true])
    );
    assert_eq!(registry.resolve_requested_column_mask(&vec![]), Ok(vec![false; 4]));
    assert_eq!(
        registry.resolve_requested_column_mask(&strings(&["ahead", "status", "ahead"])),
        Ok(vec![true, false, true, false])
    );
    assert_eq!(
        registry.resolve_requested_column_mask(&strings(&["ahead", "nope", "bad"])),
        Err("unknown column key: nope".to_string())
    );
}

#[test]
fn probe_and_init_rows() {
    let registry = default_registry();
    let paths = strings(&["./a", "./b"]);
    let items = registry.probe_items(&paths, &vec![jj_markers(), git_markers()]);
    assert_eq!(items.len(), 2);
    assert_eq!(items[0].row_id, 0);
    assert_eq!(items[0].repo.repo_type, RepoType::Jujutsu);
    assert_eq!(items[1].row_id, 1);
    assert_eq!(items[1].path, "./b");
    assert_eq!(items[1].repo.repo_type, RepoType::Git);
    let rows = registry.init_rows(&items);
    assert_eq!(rows.len(), 2);
    assert_eq!(rows[1].row_id, 1);
    assert_eq!(rows[1].cells, vec![CellValue::Empty; 4]);
}

#[test]
fn merge_writes_owned_cells() {
    let registry = default_registry();
    let items = registry.probe_items(&strings(&["./a"]), &vec![jj_markers()]);
    let mut rows = registry.init_rows(&items);
    let r = registry.merge_patch(&mut rows, 1, patch(0, vec![(2, CellValue::Number(4))]));
    assert_eq!(r, Ok(()));
    assert_eq!(
        rows[0].cells,
        vec![CellValue::Empty, CellValue::Empty, CellValue::Number(4), CellValue::Empty]
    );
}

#[test]
fn merge_rejects_unknown_rows() {
    let registry = default_registry();
    let items = registry.probe_items(&strings(&["./a"]), &vec![jj_markers()]);
    let mut rows = registry.init_rows(&items);
    let r = registry.merge_patch(&mut rows, 1, patch(5, vec![(2, CellValue::Number(4))]));
    assert_eq!(r, Err("unknown row id: 5".to_string()));
    assert_eq!(rows[0].cells, vec![CellValue::Empty; 4]);
}

#[test]
fn merge_rejects_non_owned_columns() {
    let registry = default_registry();
    let items = registry.probe_items(&strings(&["./a"]), &vec![jj_markers()]);
    let mut rows = registry.init_rows(&items);
    let r = registry.merge_patch(
        &mut rows,
        2,
        patch(0, vec![(3, CellValue::Text("t".to_string())), (2, CellValue::Number(4))]),
    );
    assert_eq!(r, Err("plugin index 2 attempted to write non-owned column 'ahead'".to_string()));
    assert_eq!(
        rows[0].cells,
        vec![CellValue::Empty, CellValue::Empty, CellValue::Empty, CellValue::Text("t".to_string())]
    );
    let r = registry.merge_patch(&mut rows, 2, patch(0, vec![(7, CellValue::Empty)]));
    assert_eq!(r, Err("unknown column index: 7".to_string()));
}

#[test]
fn merge_rejects_rows_of_the_wrong_width() {
    let registry = default_registry();
    let items = registry.probe_items(&strings(&["./a"]), &vec![jj_markers()]);
    let mut rows = registry.init_rows(&items);
    rows[0].cells.pop();
    let r = registry.merge_patch(&mut rows, 1, patch(0, vec![(2, CellValue::Number(1))]));
    assert_eq!(r, Err("row cell width mismatch: expected 4, got 3".to_string()));
}

#[test]
fn merge_batch_stops_at_the_first_error() {
    let registry = default_registry();
    let items = registry.probe_items(&strings(&["./a", "./b"]), &vec![jj_markers(), jj_markers()]);
    let mut rows = registry.init_rows(&items);
    let batch = vec![
        patch(0, vec![(2, CellValue::Number(1))]),
        patch(9, vec![(2, CellValue::Number(2))]),
        patch(1, vec![(2, CellValue::Number(3))]),
    ];
    assert_eq!(registry.merge_batch(&mut rows, 1, batch), Err("unknown row id: 9".to_string()));
    assert_eq!(rows[0].cells[2], CellValue::Number(1));
    assert_eq!(rows[1].cells[2], CellValue::Empty);
}

#[test]
fn microbatches_keep_order_and_size() {
    let patches: Vec<RowPatch> = (0..5).map(|i| patch(i, vec![])).collect();
    let batches = microbatch_rows(patches, 2);
    let sizes: Vec<usize> = batches.iter().map(|b| b.len()).collect();
    assert_eq!(sizes, vec![2, 2, 1]);
    let ids: Vec<usize> = batches.iter().flatten().map(|p| p.row_id).collect();
    assert_eq!(ids, vec![0, 1, 2, 3, 4]);
    let ones = microbatch_rows((0..3).map(|i| patch(i, vec![])).collect(), 0);
    assert_eq!(ones.len(), 3);
    assert!(microbatch_rows(vec![], 4).is_empty());
}

fn store_for(registry: &is_tree::registry::PluginRegistry, flags: &[bool]) -> is_tree::plugin::ArgStore {
    let raws: Vec<RawArg> = flags.iter().map(|b| RawArg::Flag(*b)).collect();
    registry.arguments().parse_store(&raws)
}

#[test]
fn plugin_toggle_requests_all_plugin_columns() {
    let registry = default_registry();
    let store = store_for(&registry, &[true, false, false, false]);
    let mut mask = vec![false; 4];
    assert_eq!(registry.augment_requested_column_mask_from_args(&store, &mut mask), Ok(()));
    assert_eq!(mask, vec![false, false, true, false]);
}

#[test]
fn column_toggle_requests_its_column() {
    let registry = default_registry();
    let store = store_for(&registry, &[false, false, false, true]);
    let mut mask = vec![true, false, false, false];
    assert_eq!(registry.augment_requested_column_mask_from_args(&store, &mut mask), Ok(()));
    assert_eq!(mask, vec![true, false, false, true]);
    let none = store_for(&registry, &[false, false, false, false]);
    let mut unchanged = vec![false, true, false, true];
    assert_eq!(registry.augment_requested_column_mask_from_args(&none, &mut unchanged), Ok(()));
    assert_eq!(unchanged, vec![false, true, false, true]);
}

#[test]
fn plugins_are_configured_enabled() {
    let registry = default_registry();
    let store = store_for(&registry, &[false, false, false, false]);
    let configs = registry.configure_all(&store);
    assert_eq!(configs.len(), 3);
    assert!(configs.iter().all(|c| c.enabled && c.options.is_empty()));
    assert!(!PluginConfig::disabled().enabled);
    assert!(PluginConfig::default().enabled);
}

#[test]
fn plugin_jobs_skip_what_is_not_needed() {
    let registry = default_registry();
    let items = registry.probe_items(&strings(&["./a", "./b"]), &vec![git_markers(), jj_markers()]);
    let configs = vec![PluginConfig::enabled(), PluginConfig::enabled(), PluginConfig::enabled()];
    let mask = vec![false, false, true, false];
    let step = registry.next_plugin_job(0, &items, &vec![1, 2], &configs, &mask, 8);
    let job = match step {
        PluginStep::Run { job, next } => {
            assert_eq!(next, 1);
            job
        }
        _ => panic!("expected a job"),
    };
    assert_eq!(job.plugin_ix, 1);
    assert_eq!(job.items.len(), 1);
    assert_eq!(job.items[0].row_id, 1);
    assert_eq!(job.requested_columns, vec![(0, 2)]);
    assert_eq!(
        registry.subprocessor_targets(&job),
        vec![(SubProcessor { local_col_ix: 0, collector: CellCollector::JjAhead }, 2)]
    );
    let batches = job_batches(&job, 2, vec![CellValue::Number(3)]);
    assert_eq!(batches.len(), 1);
    assert_eq!(batches[0][0].row_id, 1);
    assert_eq!(batches[0][0].updates, vec![(2, CellValue::Number(3))]);
    assert!(matches!(
        registry.next_plugin_job(1, &items, &vec![1, 2], &configs, &mask, 8),
        PluginStep::Finished
    ));
    let disabled = vec![PluginConfig::enabled(), PluginConfig::disabled(), PluginConfig::enabled()];
    assert!(matches!(
        registry.next_plugin_job(0, &items, &vec![1], &disabled, &mask, 8),
        PluginStep::Finished
    ));
}

#[test]
fn core_job_covers_every_directory() {
    let registry = default_registry();
    let items = registry.probe_items(&strings(&["./a", "./b"]), &vec![git_markers(), jj_markers()]);
    let configs = vec![PluginConfig::enabled(), PluginConfig::enabled(), PluginConfig::enabled()];
    let mask = vec![true, true, false, false];
    let job = match registry.next_plugin_job(0, &items, &vec![0, 1, 2], &configs, &mask, 1) {
        PluginStep::Run { job, next } => {
            assert_eq!(next, 1);
            job
        }
        _ => panic!("expected a job"),
    };
    assert_eq!(job.plugin_ix, 0);
    assert_eq!(job.items.len(), 2);
    assert_eq!(job.requested_columns, vec![(0, 0), (1, 1)]);
    assert_eq!(
        registry.subprocessor_targets(&job),
        vec![
            (SubProcessor { local_col_ix: 0, collector: CellCollector::Status }, 0),
            (SubProcessor { local_col_ix: 1, collector: CellCollector::Directory }, 1),
        ]
    );
    let cells: Vec<CellValue> = job.items.iter().map(|item| status_cell(&item.repo)).collect();
    let batches = job_batches(&job, 0, cells);
    assert_eq!(batches.len(), 2);
    assert_eq!(batches[1][0].updates, vec![(0, CellValue::Text("jj".to_string()))]);
}

#[test]
fn status_and_directory_cells() {
    let info = |repo_type, is_worktree| RepoInfo { repo_type, is_worktree };
    let text = |s: &str| CellValue::Text(s.to_string());
    assert_eq!(status_cell(&info(RepoType::Git, false)), text("git"));
    assert_eq!(status_cell(&info(RepoType::Git, true)), text("worktree-git"));
    assert_eq!(status_cell(&info(RepoType::Jujutsu, false)), text("jj"));
    assert_eq!(status_cell(&info(RepoType::Jujutsu, true)), text("worktree-jj"));
    assert_eq!(status_cell(&info(RepoType::NoRepo, false)), text("none"));
    let registry = default_registry();
    let items = registry.probe_items(&strings(&["./a"]), &vec![git_markers()]);
    assert_eq!(directory_cell(&items[0]), text("./a"));
}

#[test]
fn plugin_jobs_fail_on_unknown_indexes() {
    let registry = default_registry();
    let configs = vec![PluginConfig::enabled()];
    match registry.next_plugin_job(0, &vec![], &vec![7], &configs, &vec![true, true], 8) {
        PluginStep::Failed(e) => assert_eq!(e, "unknown plugin index: 7"),
        _ => panic!("expected a failure"),
    }
    match registry.next_plugin_job(0, &vec![], &vec![1], &configs, &vec![true, true], 8) {
        PluginStep::Failed(e) => assert_eq!(e, "missing config for plugin index: 1"),
        _ => panic!("expected a failure"),
    }
}

#[test]
fn collected_cells() {
    assert_eq!(jj_collect_ahead(Some(3)), CellValue::Number(3));
    assert_eq!(jj_collect_ahead(None), CellValue::Empty);
    assert_eq!(
        beads_collect_last_changed(Some("2024".to_string())),
        CellValue::Text("2024".to_string())
    );
    assert_eq!(beads_collect_last_changed(None), CellValue::Empty);
}

#[test]
fn merge_keeps_the_last_write_to_a_cell() {
    let registry = default_registry();
    let items = registry.probe_items(&strings(&["./a"]), &vec![jj_markers()]);
    let mut rows = registry.init_rows(&items);
    let updates = vec![
        (0, CellValue::Text("jj".to_string())),
        (1, CellValue::Text("./a".to_string())),
        (0, CellValue::Text("worktree-jj".to_string())),
    ];
    assert_eq!(registry.merge_patch(&mut rows, 0, patch(0, updates)), Ok(()));
    assert_eq!(
        rows[0].cells,
        vec![
            CellValue::Text("worktree-jj".to_string()),
            CellValue::Text("./a".to_string()),
            CellValue::Empty,
            CellValue::Empty,
        ]
    );
}

#[test]
fn jj_toggle_keeps_columns_requested_earlier() {
    let registry = default_registry();
    let store = store_for(&registry, &[true, false, false, false]);
    let mut mask = vec![false, true, false, false];
    assert_eq!(registry.augment_requested_column_mask_from_args(&store, &mut mask), Ok(()));
    assert_eq!(mask, vec![false, true, true, false]);
}
