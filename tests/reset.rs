use cosmic_ctl::apply::resolve_target;
use cosmic_ctl::commands::{
    chosen_dirs, exclude_answer, parse_version_answer, BackupCommand, DeleteCommand, ReadCommand, ResetCommand,
    WriteCommand,
};
use cosmic_ctl::config::{get_configuration_path, get_cosmic_configurations, ErrorKind, XdgRoots};
use cosmic_ctl::exclude::ExclusionMatcher;
use cosmic_ctl::reset::select_for_reset;
use cosmic_ctl::store::{decide_write, WriteDecision};
use std::collections::BTreeMap;

const COSMIC_COMP: &str = "com.system76.CosmicComp";
const ENTRY_AUTOTILE: &str = "autotile";
const ENTRY_AUTOTILE_BEHAVIOR: &str = "autotile_behavior";
const ENTRY_XKB_CONFIG: &str = "xkb_config";
const VERSION_1: u64 = 1;
const VERSION_2: u64 = 2;
const VALUE_TRUE: &str = "true";
const VALUE_PER_WORKSPACE: &str = "PerWorkspace";
const VALUE_XKB_CONFIG: &str = "(\n    rules: \"\",\n    model: \"\",\n    layout: \"br\",\n    variant: \"\",\n    options: None,\n    repeat_delay: 600,\n    repeat_rate: 25,\n)";

/// A store held in memory, with the same roots for every category the
/// tests touch.
struct Store {
    roots: XdgRoots,
    files: BTreeMap<String, String>,
}

impl Store {
    fn new() -> Store {
        Store {
            roots: XdgRoots {
                config: "/tmp/home/config".to_string(),
                data: "/tmp/home/data".to_string(),
                cache: "/tmp/home/cache".to_string(),
                state: Some("/tmp/home/state".to_string()),
                runtime: None,
            },
            files: BTreeMap::new(),
        }
    }

    fn write(&mut self, version: u64, component: &str, entry: &str, value: &str) -> bool {
        let cmd = WriteCommand {
            version,
            component: Some(component.to_string()),
            entry: Some(entry.to_string()),
            value: value.to_string(),
            xdg_dir: "config".to_string(),
            file: None,
        };
        let path = resolve_target(&cmd.step().ok().unwrap(), &self.roots).ok().unwrap();
        match decide_write(&self.files.get(&path).cloned(), value).ok().unwrap() {
            WriteDecision::Unchanged => false,
            WriteDecision::Replace(content) => {
                self.files.insert(path, content);
                true
            }
        }
    }

    fn path(&self, version: u64, component: &str, entry: &str) -> String {
        get_configuration_path(component, version, entry, "config", &self.roots).ok().unwrap()
    }

    fn holds(&self, version: u64, component: &str, entry: &str) -> bool {
        self.files.contains_key(&self.path(version, component, entry))
    }

    /// Runs a forced reset and returns how many entries it deleted.
    fn reset(&mut self, exclude: Option<&str>, dirs: &[&str]) -> usize {
        let cmd = ResetCommand {
            force: true,
            verbose: false,
            exclude: exclude.map(|e| e.to_string()),
            xdg_dirs: dirs.iter().map(|d| d.to_string()).collect(),
        };
        let matcher = ExclusionMatcher::new(cmd.exclude.clone());
        let mut deleted = 0;
        for xdg_dir in &cmd.xdg_dirs {
            let root = get_cosmic_configurations(xdg_dir, &self.roots).ok().unwrap();
            let found: Vec<String> =
                self.files.keys().filter(|p| p.starts_with(&format!("{}/", root))).cloned().collect();
            for (component, version, entry) in select_for_reset(&found, &matcher) {
                let path = get_configuration_path(&component, version, &entry, xdg_dir, &self.roots).ok().unwrap();
                if self.files.remove(&path).is_some() {
                    deleted += 1;
                }
            }
        }
        deleted
    }

    fn three_entries(&mut self) {
        assert!(self.write(VERSION_1, COSMIC_COMP, ENTRY_AUTOTILE, VALUE_TRUE));
        assert!(self.write(VERSION_1, COSMIC_COMP, ENTRY_AUTOTILE_BEHAVIOR, VALUE_PER_WORKSPACE));
        assert!(self.write(VERSION_2, COSMIC_COMP, ENTRY_AUTOTILE, VALUE_TRUE));
        assert!(self.holds(VERSION_1, COSMIC_COMP, ENTRY_AUTOTILE));
        assert!(self.holds(VERSION_1, COSMIC_COMP, ENTRY_AUTOTILE_BEHAVIOR));
        assert!(self.holds(VERSION_2, COSMIC_COMP, ENTRY_AUTOTILE));
    }
}

#[test]
fn test_read_command() {
    let mut store = Store::new();
    store.write(VERSION_1, COSMIC_COMP, ENTRY_AUTOTILE, VALUE_TRUE);
    let cmd = ReadCommand {
        version: VERSION_1,
        component: Some(COSMIC_COMP.to_string()),
        entry: Some(ENTRY_AUTOTILE.to_string()),
        xdg_dir: "config".to_string(),
        file: None,
    };
    let path = resolve_target(&cmd.step().ok().unwrap(), &store.roots).ok().unwrap();
    assert_eq!(format!("{}\n", store.files.get(&path).unwrap()), "true\n");
}

#[test]
fn test_delete_command() {
    let mut store = Store::new();
    store.write(VERSION_1, COSMIC_COMP, ENTRY_AUTOTILE, VALUE_TRUE);
    let cmd = DeleteCommand {
        version: VERSION_1,
        component: Some(COSMIC_COMP.to_string()),
        entry: Some(ENTRY_AUTOTILE.to_string()),
        xdg_dir: "config".to_string(),
        file: None,
    };
    let path = resolve_target(&cmd.step().ok().unwrap(), &store.roots).ok().unwrap();
    assert!(store.files.remove(&path).is_some());
    assert!(!store.holds(VERSION_1, COSMIC_COMP, ENTRY_AUTOTILE));
}

#[test]
fn test_reset_command() {
    let mut store = Store::new();
    store.write(VERSION_1, COSMIC_COMP, ENTRY_AUTOTILE, VALUE_TRUE);
    store.write(VERSION_1, COSMIC_COMP, ENTRY_AUTOTILE_BEHAVIOR, VALUE_PER_WORKSPACE);
    assert!(store.holds(VERSION_1, COSMIC_COMP, ENTRY_AUTOTILE));
    assert!(store.holds(VERSION_1, COSMIC_COMP, ENTRY_AUTOTILE_BEHAVIOR));
    assert_eq!(store.reset(None, &["config", "data"]), 2);
    assert!(!store.holds(VERSION_1, COSMIC_COMP, ENTRY_AUTOTILE));
    assert!(!store.holds(VERSION_1, COSMIC_COMP, ENTRY_AUTOTILE_BEHAVIOR));
}

#[test]
fn test_reset_command_verbose() {
    let mut store = Store::new();
    store.write(VERSION_1, COSMIC_COMP, ENTRY_AUTOTILE, VALUE_TRUE);
    assert!(store.holds(VERSION_1, COSMIC_COMP, ENTRY_AUTOTILE));
    assert_eq!(store.reset(None, &["config", "state"]), 1);
    assert!(!store.holds(VERSION_1, COSMIC_COMP, ENTRY_AUTOTILE));
}

#[test]
fn test_reset_command_empty_config() {
    let mut store = Store::new();
    assert_eq!(store.reset(None, &["config", "data"]), 0);
}

#[test]
fn test_reset_command_with_exclude() {
    let mut store = Store::new();
    store.three_entries();
    let exclude = format!("{}/v{}/{}", COSMIC_COMP, VERSION_1, ENTRY_AUTOTILE);
    store.reset(Some(&exclude), &["config", "data"]);
    assert!(store.holds(VERSION_1, COSMIC_COMP, ENTRY_AUTOTILE));
    assert!(!store.holds(VERSION_1, COSMIC_COMP, ENTRY_AUTOTILE_BEHAVIOR));
    assert!(!store.holds(VERSION_2, COSMIC_COMP, ENTRY_AUTOTILE));
}

#[test]
fn test_reset_command_with_exclude_entire_component() {
    let mut store = Store::new();
    store.three_entries();
    store.reset(Some(COSMIC_COMP), &["config", "data"]);
    assert!(store.holds(VERSION_1, COSMIC_COMP, ENTRY_AUTOTILE));
    assert!(store.holds(VERSION_1, COSMIC_COMP, ENTRY_AUTOTILE_BEHAVIOR));
    assert!(store.holds(VERSION_2, COSMIC_COMP, ENTRY_AUTOTILE));
}

#[test]
fn test_reset_command_with_exclude_component_version() {
    let mut store = Store::new();
    store.three_entries();
    let exclude = format!("{}/v{}", COSMIC_COMP, VERSION_2);
    store.reset(Some(&exclude), &["config", "data"]);
    assert!(!store.holds(VERSION_1, COSMIC_COMP, ENTRY_AUTOTILE));
    assert!(!store.holds(VERSION_1, COSMIC_COMP, ENTRY_AUTOTILE_BEHAVIOR));
    assert!(store.holds(VERSION_2, COSMIC_COMP, ENTRY_AUTOTILE));
}

#[test]
fn test_reset_command_with_exclude_brace_expansion() {
    let mut store = Store::new();
    store.three_entries();
    let exclude = format!(
        "{}/{{v{}/{{{},{}}},v{}/{}}}",
        COSMIC_COMP, VERSION_1, ENTRY_AUTOTILE, ENTRY_AUTOTILE_BEHAVIOR, VERSION_2, ENTRY_AUTOTILE
    );
    store.reset(Some(&exclude), &["config", "data"]);
    assert!(store.holds(VERSION_1, COSMIC_COMP, ENTRY_AUTOTILE));
    assert!(store.holds(VERSION_1, COSMIC_COMP, ENTRY_AUTOTILE_BEHAVIOR));
    assert!(store.holds(VERSION_2, COSMIC_COMP, ENTRY_AUTOTILE));
}

#[test]
fn test_reset_command_with_exclude_with_wildcard() {
    let mut store = Store::new();
    store.three_entries();
    let exclude = format!("{}/v{}/{}*", COSMIC_COMP, VERSION_1, ENTRY_AUTOTILE);
    store.reset(Some(&exclude), &["config", "data"]);
    assert!(store.holds(VERSION_1, COSMIC_COMP, ENTRY_AUTOTILE));
    assert!(store.holds(VERSION_1, COSMIC_COMP, ENTRY_AUTOTILE_BEHAVIOR));
    assert!(!store.holds(VERSION_2, COSMIC_COMP, ENTRY_AUTOTILE));
}

#[test]
fn test_reset_command_with_exclude_with_brace_expansion_and_wildcard() {
    let mut store = Store::new();
    store.three_entries();
    assert!(store.write(VERSION_1, COSMIC_COMP, ENTRY_XKB_CONFIG, VALUE_XKB_CONFIG));
    assert!(store.holds(VERSION_1, COSMIC_COMP, ENTRY_XKB_CONFIG));
    let exclude = format!(
        "{}/{{v{}/{}*,v{}/{}*}}",
        COSMIC_COMP, VERSION_1, ENTRY_AUTOTILE, VERSION_2, ENTRY_AUTOTILE
    );
    store.reset(Some(&exclude), &["config", "data"]);
    assert!(store.holds(VERSION_1, COSMIC_COMP, ENTRY_AUTOTILE));
    assert!(store.holds(VERSION_1, COSMIC_COMP, ENTRY_AUTOTILE_BEHAVIOR));
    assert!(store.holds(VERSION_2, COSMIC_COMP, ENTRY_AUTOTILE));
    assert!(!store.holds(VERSION_1, COSMIC_COMP, ENTRY_XKB_CONFIG));
}

#[test]
fn write_is_idempotent() {
    let mut store = Store::new();
    assert!(store.write(VERSION_1, COSMIC_COMP, ENTRY_AUTOTILE, VALUE_TRUE));
    let snapshot = store.files.clone();
    assert!(!store.write(VERSION_1, COSMIC_COMP, ENTRY_AUTOTILE, VALUE_TRUE));
    assert_eq!(store.files, snapshot);
}

#[test]
fn answers_build_commands() {
    assert_eq!(parse_version_answer("2").ok(), Some(2));
    assert_eq!(parse_version_answer("two").err().unwrap().kind, ErrorKind::InvalidInput);
    assert_eq!(exclude_answer("  ".to_string()), None);
    assert_eq!(exclude_answer(" A ".to_string()), Some(" A ".to_string()));
    assert_eq!(chosen_dirs(vec![]).err().unwrap().kind, ErrorKind::InvalidInput);
    let w = WriteCommand::for_entry("A".to_string(), "x".to_string(), "3", "data".to_string(), "v".to_string());
    assert_eq!(w.ok().unwrap().version, 3);
    assert!(DeleteCommand::for_entry("A".to_string(), "x".to_string(), "", "data".to_string()).is_err());
    assert_eq!(ReadCommand::for_file("f".to_string()).xdg_dir, "config");
    let b = BackupCommand::from_answers("b.json".to_string(), true, vec!["config".to_string()]).ok().unwrap();
    assert!(b.format.is_none());
    let r = ResetCommand::from_answers(String::new(), false, vec!["data".to_string()]).ok().unwrap();
    assert!(!r.force);
    assert!(r.exclude.is_none());
    assert!(ResetCommand::from_answers("A".to_string(), false, vec![]).is_err());
}
