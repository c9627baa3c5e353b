use cosmic_ctl::apply::{decide_step, plan_operations, resolve_target, Action, Outcome, Step, Summary, Target};
use cosmic_ctl::backup::{group_backup, write_operations};
use cosmic_ctl::commands::{backup_document, BackupCommand, WriteCommand, SCHEMA_URL};
use cosmic_ctl::config::{ErrorKind, XdgRoots};
use cosmic_ctl::format::FileFormat;
use cosmic_ctl::schema::{ConfigFile, Entry, EntryContent, Operation};
use cosmic_ctl::store::{decide_write, escape_backslashes, WriteDecision};
use std::collections::BTreeMap;

fn roots() -> XdgRoots {
    XdgRoots {
        config: "/home/u/.config".to_string(),
        data: "/home/u/.local/share".to_string(),
        cache: "/home/u/.cache".to_string(),
        state: Some("/home/u/.local/state".to_string()),
        runtime: None,
    }
}

fn entry_write(component: &str, version: u64, pairs: &[(&str, &str)], xdg: Option<&str>) -> Entry {
    Entry {
        component: Some(component.to_string()),
        version: Some(version),
        operation: Operation::Write,
        entries: Some(EntryContent::WriteEntries(
            pairs.iter().map(|(k, v)| (k.to_string(), v.to_string())).collect(),
        )),
        xdg_directory: xdg.map(|x| x.to_string()),
        file: None,
        value: None,
    }
}

fn entry_keys(op: Operation, component: &str, version: u64, keys: &[&str]) -> Entry {
    Entry {
        component: Some(component.to_string()),
        version: Some(version),
        operation: op,
        entries: Some(EntryContent::ReadDeleteEntries(keys.iter().map(|k| k.to_string()).collect())),
        xdg_directory: None,
        file: None,
        value: None,
    }
}

fn file_op(op: Operation, path: &str, value: Option<&str>) -> Entry {
    Entry {
        component: None,
        version: None,
        operation: op,
        entries: None,
        xdg_directory: None,
        file: Some(path.to_string()),
        value: value.map(|v| v.to_string()),
    }
}

/// Runs one step against an in-memory store, the way the command line runs
/// it against the file system.
fn run_step(step: &Step, files: &mut BTreeMap<String, String>, roots: &XdgRoots) -> Outcome {
    let path = match resolve_target(step, roots) {
        Ok(p) => p,
        Err(_) => return Outcome::Failed,
    };
    let current = files.get(&path).cloned();
    let (action, outcome) = decide_step(step, &current);
    match action {
        Action::Keep => {}
        Action::Store(content) => {
            files.insert(path, content);
        }
        Action::Remove => {
            files.remove(&path);
        }
    }
    outcome
}

fn apply(doc: &ConfigFile, files: &mut BTreeMap<String, String>, roots: &XdgRoots) -> Summary {
    let steps = plan_operations(doc).ok().unwrap();
    let mut summary = Summary::new();
    for step in &steps {
        let outcome = run_step(step, files, roots);
        summary.record(step.operation, outcome);
    }
    summary
}

fn counts(s: Summary) -> (u64, u64, u64, u64) {
    (s.writes, s.reads, s.deletes, s.skipped)
}

#[test]
fn mixed_document_applies_then_skips_on_reapply() {
    let doc = ConfigFile {
        schema: None,
        operations: vec![
            entry_write("com.system76.CosmicComp", 1, &[("autotile", "true")], Some("config")),
            file_op(Operation::Write, "/tmp/test-config.conf", Some("Direct file write example")),
        ],
    };
    let mut files = BTreeMap::new();
    assert_eq!(counts(apply(&doc, &mut files, &roots())), (2, 0, 0, 0));
    assert_eq!(files.get("/home/u/.config/cosmic/com.system76.CosmicComp/v1/autotile").unwrap(), "true");
    assert_eq!(files.get("/tmp/test-config.conf").unwrap(), "Direct file write example");
    let snapshot = files.clone();
    assert_eq!(counts(apply(&doc, &mut files, &roots())), (0, 0, 0, 2));
    assert_eq!(files, snapshot);
}

#[test]
fn read_and_delete_count_per_entry() {
    let doc = ConfigFile {
        schema: None,
        operations: vec![
            entry_write("A", 1, &[("x", "1"), ("y", "2")], None),
            entry_keys(Operation::Read, "A", 1, &["x", "missing"]),
            entry_keys(Operation::Delete, "A", 1, &["y", "y"]),
            file_op(Operation::Read, "/tmp/none", None),
            file_op(Operation::Delete, "/home/u/.config/cosmic/A/v1/x", None),
        ],
    };
    let mut files = BTreeMap::new();
    assert_eq!(counts(apply(&doc, &mut files, &roots())), (2, 1, 2, 3));
    assert!(files.is_empty());
}

#[test]
fn unresolvable_category_counts_as_skipped() {
    let doc = ConfigFile {
        schema: None,
        operations: vec![
            entry_write("A", 1, &[("x", "1")], Some("runtime")),
            entry_write("A", 1, &[("x", "1")], Some("nowhere")),
        ],
    };
    let mut files = BTreeMap::new();
    assert_eq!(counts(apply(&doc, &mut files, &roots())), (0, 0, 0, 2));
}

#[test]
fn escape_sequences_expand_once() {
    let doc = ConfigFile {
        schema: None,
        operations: vec![
            entry_write("A", 2, &[("x", "a\\nb"), ("y", "bad\\q")], Some("STATE")),
        ],
    };
    let mut files = BTreeMap::new();
    assert_eq!(counts(apply(&doc, &mut files, &roots())), (1, 0, 0, 1));
    assert_eq!(files.get("/home/u/.local/state/cosmic/A/v2/x").unwrap(), "a\nb");
}

#[test]
fn write_decisions() {
    assert!(matches!(decide_write(&None, "a\\tb"), Ok(WriteDecision::Replace(c)) if c == "a\tb"));
    assert!(matches!(decide_write(&Some("a\tb".to_string()), "a\\tb"), Ok(WriteDecision::Unchanged)));
    assert!(matches!(decide_write(&Some("x".to_string()), "y"), Ok(WriteDecision::Replace(c)) if c == "y"));
    assert_eq!(decide_write(&None, "end\\").err().unwrap().kind, ErrorKind::InvalidInput);
}

#[test]
fn invalid_documents_are_rejected_whole() {
    let no_value = ConfigFile {
        schema: None,
        operations: vec![entry_write("A", 1, &[("x", "1")], None), file_op(Operation::Write, "/tmp/f", None)],
    };
    assert_eq!(plan_operations(&no_value).err().unwrap().kind, ErrorKind::InvalidData);
    let wrong_shape = ConfigFile { schema: None, operations: vec![entry_keys(Operation::Write, "A", 1, &["x"])] };
    assert_eq!(plan_operations(&wrong_shape).err().unwrap().kind, ErrorKind::InvalidData);
    let mut no_version = entry_keys(Operation::Read, "A", 1, &["x"]);
    no_version.version = None;
    let missing = ConfigFile { schema: None, operations: vec![no_version] };
    assert_eq!(plan_operations(&missing).err().unwrap().kind, ErrorKind::InvalidData);
    let mut read_with_map = entry_write("A", 1, &[("x", "1")], None);
    read_with_map.operation = Operation::Delete;
    let mismatch = ConfigFile { schema: None, operations: vec![read_with_map] };
    assert_eq!(plan_operations(&mismatch).err().unwrap().kind, ErrorKind::InvalidData);
}

#[test]
fn plan_lists_steps_in_document_order() {
    let doc = ConfigFile {
        schema: Some(SCHEMA_URL.to_string()),
        operations: vec![
            entry_write("A", 1, &[("x", "1"), ("y", "2")], None),
            file_op(Operation::Delete, "/tmp/f", Some("ignored")),
        ],
    };
    let steps = plan_operations(&doc).ok().unwrap();
    assert_eq!(steps.len(), 3);
    match &steps[1].target {
        Target::Address { component, version, entry, xdg_directory } => {
            assert_eq!((component.as_str(), *version, entry.as_str(), xdg_directory.as_str()), ("A", 1, "y", "config"));
        }
        Target::File(_) => panic!("expected an entry target"),
    }
    assert!(matches!(&steps[2].target, Target::File(f) if f == "/tmp/f"));
    assert_eq!(steps[2].operation, Operation::Delete);
    assert!(steps[2].value.is_none());
}

#[test]
fn backup_then_apply_restores_every_entry() {
    let found = vec![
        ("/home/u/.config/cosmic/A/v1/x".to_string(), "one".to_string()),
        ("/home/u/.config/cosmic/B/v2/z".to_string(), "two".to_string()),
        ("/home/u/.config/cosmic/stray.txt".to_string(), "junk".to_string()),
        ("/home/u/.config/cosmic/A/v1/y".to_string(), "three".to_string()),
    ];
    let (groups, count) = group_backup(&found);
    assert_eq!(count, 3);
    assert_eq!(groups.len(), 2);
    let ops = write_operations(groups, "config");
    assert_eq!(ops.len(), 2);
    let doc = backup_document(FileFormat::Json, ops);
    assert_eq!(doc.schema.as_deref(), Some(SCHEMA_URL));
    let mut files = BTreeMap::new();
    assert_eq!(counts(apply(&doc, &mut files, &roots())), (3, 0, 0, 0));
    let mut expected = BTreeMap::new();
    for (path, content) in &found[..2] {
        expected.insert(path.clone(), content.clone());
    }
    expected.insert(found[3].0.clone(), found[3].1.clone());
    assert_eq!(files, expected);
}

#[test]
fn backup_groups_by_component_and_version() {
    let found = vec![
        ("/c/cosmic/A/v1/x".to_string(), "1".to_string()),
        ("/c/cosmic/A/v2/x".to_string(), "2".to_string()),
        ("/c/cosmic/A/v1/y".to_string(), "3".to_string()),
        ("/c/cosmic/A/v01/x".to_string(), "4".to_string()),
    ];
    let (groups, count) = group_backup(&found);
    assert_eq!(count, 4);
    assert_eq!(groups.len(), 2);
    assert_eq!(groups[0].0, "A");
    assert_eq!(groups[0].1, 1);
    assert_eq!(groups[0].2, vec![("x".to_string(), "4".to_string()), ("y".to_string(), "3".to_string())]);
    assert_eq!(groups[1].1, 2);
    let ops = write_operations(groups, "state");
    assert_eq!(ops[1].xdg_directory.as_deref(), Some("state"));
    assert!(ops[1].file.is_none());
    let ron = backup_document(FileFormat::Ron, ops);
    assert!(ron.schema.is_none());
}

#[test]
fn single_entry_commands_pick_their_target() {
    let by_file = WriteCommand {
        version: 1,
        component: None,
        entry: None,
        value: "v".to_string(),
        xdg_dir: "config".to_string(),
        file: Some("test-config.conf".to_string()),
    };
    assert!(matches!(by_file.step().ok().unwrap().target, Target::File(f) if f == "test-config.conf"));
    let incomplete = WriteCommand { file: None, component: Some("A".to_string()), ..by_file.clone() };
    assert_eq!(incomplete.step().err().unwrap().kind, ErrorKind::InvalidInput);
    let full = WriteCommand { entry: Some("x".to_string()), ..incomplete };
    let mut files = BTreeMap::new();
    let step = full.step().ok().unwrap();
    assert_eq!(run_step(&step, &mut files, &roots()), Outcome::Done);
    assert_eq!(run_step(&step, &mut files, &roots()), Outcome::Unchanged);
    assert_eq!(files.get("/home/u/.config/cosmic/A/v1/x").unwrap(), "v");
}

#[test]
fn backup_format_by_name_or_extension() {
    let explicit = BackupCommand {
        file: "backup.txt".to_string(),
        verbose: false,
        xdg_dirs: vec!["config".to_string()],
        format: Some("json".to_string()),
    };
    assert_eq!(explicit.output_format().ok().unwrap(), FileFormat::Json);
    let by_extension = BackupCommand { format: None, file: "backup.ron".to_string(), ..explicit.clone() };
    assert_eq!(by_extension.output_format().ok().unwrap(), FileFormat::Ron);
    let unknown = BackupCommand { format: Some("xml".to_string()), ..explicit };
    assert_eq!(unknown.output_format().err().unwrap().kind, ErrorKind::InvalidInput);
}

#[test]
fn summary_counters() {
    let mut s = Summary::new();
    s.record(Operation::Write, Outcome::Done);
    s.record(Operation::Write, Outcome::Unchanged);
    s.record(Operation::Read, Outcome::Done);
    s.record(Operation::Delete, Outcome::Failed);
    s.record(Operation::Delete, Outcome::Done);
    assert_eq!(counts(s), (1, 1, 1, 2));
}

#[test]
fn backup_keeps_backslashes_through_apply() {
    let original = "line\\none \\\\ \\t end".to_string();
    assert_eq!(escape_backslashes("a\\b"), "a\\\\b");
    let found = vec![("/home/u/.config/cosmic/A/v1/x".to_string(), original.clone())];
    let (groups, _) = group_backup(&found);
    let doc = backup_document(FileFormat::Toml, write_operations(groups, "config"));
    let mut files = BTreeMap::new();
    assert_eq!(counts(apply(&doc, &mut files, &roots())), (1, 0, 0, 0));
    assert_eq!(files.get("/home/u/.config/cosmic/A/v1/x").unwrap(), &original);
    assert_eq!(counts(apply(&doc, &mut files, &roots())), (0, 0, 0, 1));
}

#[test]
fn plain_values_are_stored_as_they_are() {
    assert!(matches!(decide_write(&None, "true"), Ok(WriteDecision::Replace(c)) if c == "true"));
    assert!(matches!(decide_write(&Some("true".to_string()), "true"), Ok(WriteDecision::Unchanged)));
}
