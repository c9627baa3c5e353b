//! The options of each command, and the decisions that they settle before
//! any file is touched.
use crate::apply::{Step, StepView, Target, TargetView};
use crate::config::{ErrorKind, StoreError};
use crate::format::{format_named, format_of_path, format_outcome, FileFormat};
use crate::schema::{ConfigFile, Entry, Operation};
use crate::text::{parse_u64, parsed_u64, trim, trimmed};
use vstd::prelude::*;

verus! {

/// What every command offers: running it to completion or failing.
pub trait Command {
    type Err;

    fn execute(&self) -> Result<(), Self::Err>;
}

/// Options of `apply`: the operation document to run.
#[derive(Clone, Debug)]
pub struct ApplyCommand {
    pub file: String,
    pub verbose: bool,
}

/// Options of `backup`: where to write the document, which categories to
/// walk and, optionally, the format by name.
#[derive(Clone, Debug)]
pub struct BackupCommand {
    pub file: String,
    pub verbose: bool,
    pub xdg_dirs: Vec<String>,
    pub format: Option<String>,
}

/// Options of `delete`: one entry, or a file by path.
#[derive(Clone, Debug)]
pub struct DeleteCommand {
    pub version: u64,
    pub component: Option<String>,
    pub entry: Option<String>,
    pub xdg_dir: String,
    pub file: Option<String>,
}

/// Options of `read`: one entry, or a file by path.
#[derive(Clone, Debug)]
pub struct ReadCommand {
    pub version: u64,
    pub component: Option<String>,
    pub entry: Option<String>,
    pub xdg_dir: String,
    pub file: Option<String>,
}

/// Options of `reset`: confirmation, verbosity, exclude patterns and the
/// categories to clear.
#[derive(Clone, Debug)]
pub struct ResetCommand {
    pub force: bool,
    pub verbose: bool,
    pub exclude: Option<String>,
    pub xdg_dirs: Vec<String>,
}

/// Options of `write`: one entry or a file by path, and the value.
#[derive(Clone, Debug)]
pub struct WriteCommand {
    pub version: u64,
    pub component: Option<String>,
    pub entry: Option<String>,
    pub value: String,
    pub xdg_dir: String,
    pub file: Option<String>,
}

/// The commands of the tool.
#[derive(Clone, Debug)]
pub enum Commands {
    Apply(ApplyCommand),
    Backup(BackupCommand),
    Delete(DeleteCommand),
    Read(ReadCommand),
    Reset(ResetCommand),
    Write(WriteCommand),
}

/// The target of a single-entry command: the file where one is given,
/// else the entry, which then needs a component and an entry name.
pub open spec fn single_target(
    component: Option<String>,
    version: u64,
    entry: Option<String>,
    xdg_dir: Seq<char>,
    file: Option<String>,
) -> Option<TargetView> {
    match file {
        Some(f) => Some(TargetView::File(f@)),
        None => match (component, entry) {
            (Some(c), Some(e)) => Some(TargetView::Address(c@, version, e@, xdg_dir)),
            _ => None,
        },
    }
}

/// Whether `r` is the step `op` on `t` with value `v`, or, where there is no
/// target, an `InvalidInput` error.
pub open spec fn step_matches(
    r: Result<Step, StoreError>,
    op: Operation,
    t: Option<TargetView>,
    v: Option<Seq<char>>,
) -> bool {
    match r {
        Ok(s) => t is Some && s@ == (StepView { operation: op, target: t->Some_0, value: v }),
        Err(e) => t is None && e.kind == ErrorKind::InvalidInput,
    }
}

fn single_step(
    op: Operation,
    component: &Option<String>,
    version: u64,
    entry: &Option<String>,
    xdg_dir: &String,
    file: &Option<String>,
    value: Option<String>,
) -> (r: Result<Step, StoreError>)
    ensures
        step_matches(
            r,
            op,
            single_target(*component, version, *entry, xdg_dir@, *file),
            match value {
                Some(v) => Some(v@),
                None => None,
            },
        ),
{
    let target = match file {
        Some(f) => Target::File(f.clone()),
        None => match (component, entry) {
            (Some(c), Some(e)) => Target::Address {
                component: c.clone(),
                version,
                entry: e.clone(),
                xdg_directory: xdg_dir.clone(),
            },
            _ => {
                return Err(
                    StoreError::new(ErrorKind::InvalidInput, "A component and an entry, or a file, are required"),
                );
            },
        },
    };
    Ok(Step { operation: op, target, value })
}

impl WriteCommand {
    /// The one write this command performs.
    pub fn step(&self) -> (r: Result<Step, StoreError>)
        ensures
            step_matches(
                r,
                Operation::Write,
                single_target(self.component, self.version, self.entry, self.xdg_dir@, self.file),
                Some(self.value@),
            ),
    {
        single_step(
            Operation::Write,
            &self.component,
            self.version,
            &self.entry,
            &self.xdg_dir,
            &self.file,
            Some(self.value.clone()),
        )
    }
}

impl ReadCommand {
    /// The one read this command performs.
    pub fn step(&self) -> (r: Result<Step, StoreError>)
        ensures
            step_matches(
                r,
                Operation::Read,
                single_target(self.component, self.version, self.entry, self.xdg_dir@, self.file),
                None,
            ),
    {
        single_step(Operation::Read, &self.component, self.version, &self.entry, &self.xdg_dir, &self.file, None)
    }
}

impl DeleteCommand {
    /// The one delete this command performs.
    pub fn step(&self) -> (r: Result<Step, StoreError>)
        ensures
            step_matches(
                r,
                Operation::Delete,
                single_target(self.component, self.version, self.entry, self.xdg_dir@, self.file),
                None,
            ),
    {
        single_step(
            Operation::Delete,
            &self.component,
            self.version,
            &self.entry,
            &self.xdg_dir,
            &self.file,
            None,
        )
    }
}

impl ApplyCommand {
    /// The format of the document, by its extension.
    pub fn input_format(&self) -> (r: Result<FileFormat, StoreError>)
        ensures
            format_outcome(r) == format_of_path(self.file@),
    {
        FileFormat::from_path(self.file.as_str())
    }
}

impl BackupCommand {
    /// The output format: the one named by `format` where it is given, else
    /// the one of the file's extension.
    pub fn output_format(&self) -> (r: Result<FileFormat, StoreError>)
        ensures
            format_outcome(r) == match self.format {
                Some(name) => match format_named(name@) {
                    Some(f) => Ok(f),
                    None => Err(ErrorKind::InvalidInput),
                },
                None => format_of_path(self.file@),
            },
    {
        match &self.format {
            Some(name) => FileFormat::from_name(name.as_str()),
            None => FileFormat::from_path(self.file.as_str()),
        }
    }
}

/// The schema that backup documents refer to.
pub const SCHEMA_URL: &'static str = "https://raw.githubusercontent.com/cosmic-utils/cosmic-ctl/refs/heads/main/schema.json";

/// The backup document of `operations` in `format`: it carries the schema
/// tag unless the format has no place for it.
pub fn backup_document(format: FileFormat, operations: Vec<Entry>) -> (r: ConfigFile)
    ensures
        r.operations == operations,
        r.schema is Some <==> format != FileFormat::Ron,
{
    let schema = if format.carries_schema() {
        Some(String::from_str(SCHEMA_URL))
    } else {
        None
    };
    ConfigFile { schema, operations }
}

/// Reads a version number typed at a prompt.
pub fn parse_version_answer(text: &str) -> (r: Result<u64, StoreError>)
    ensures
        match r {
            Ok(v) => parsed_u64(text@) == Some(v),
            Err(e) => parsed_u64(text@) is None && e.kind == ErrorKind::InvalidInput,
        },
{
    match parse_u64(text) {
        Some(v) => Ok(v),
        None => Err(StoreError::new(ErrorKind::InvalidInput, "Invalid version number")),
    }
}

/// The exclude list typed at a prompt: none where nothing but white space
/// was typed.
pub fn exclude_answer(text: String) -> (r: Option<String>)
    ensures
        trimmed(text@).len() == 0 ==> r is None,
        trimmed(text@).len() > 0 ==> r == Some(text),
{
    let t = trim(text.as_str());
    if t.unicode_len() == 0 {
        None
    } else {
        Some(text)
    }
}

/// Whether `r` holds the chosen categories, or is the error for choosing none.
pub open spec fn dirs_chosen(r: Result<Vec<String>, StoreError>, dirs: Vec<String>) -> bool {
    match r {
        Ok(d) => dirs@.len() > 0 && d == dirs,
        Err(e) => dirs@.len() == 0 && e.kind == ErrorKind::InvalidInput,
    }
}

/// The categories chosen at a prompt, at least one of them.
pub fn chosen_dirs(dirs: Vec<String>) -> (r: Result<Vec<String>, StoreError>)
    ensures
        dirs_chosen(r, dirs),
{
    if dirs.len() == 0 {
        Err(StoreError::new(ErrorKind::InvalidInput, "At least one XDG directory must be selected"))
    } else {
        Ok(dirs)
    }
}

impl WriteCommand {
    /// Writing `value` to the file at `file`.
    pub fn for_file(file: String, value: String) -> (r: WriteCommand)
        ensures
            r.file == Some(file),
            r.value == value,
            r.component is None,
            r.entry is None,
            r.version == 1,
            r.xdg_dir@ == "config"@,
    {
        WriteCommand {
            version: 1,
            component: None,
            entry: None,
            value,
            xdg_dir: String::from_str("config"),
            file: Some(file),
        }
    }

    /// Writing `value` to an entry whose version was typed as text.
    pub fn for_entry(component: String, entry: String, version: &str, xdg_dir: String, value: String) -> (r: Result<
        WriteCommand,
        StoreError,
    >)
        ensures
            r is Ok <==> parsed_u64(version@) is Some,
            r matches Ok(c) ==> c == (WriteCommand {
                version: parsed_u64(version@)->Some_0,
                component: Some(component),
                entry: Some(entry),
                value,
                xdg_dir,
                file: None,
            }),
            r matches Err(e) ==> e.kind == ErrorKind::InvalidInput,
    {
        let version = parse_version_answer(version)?;
        Ok(WriteCommand { version, component: Some(component), entry: Some(entry), value, xdg_dir, file: None })
    }
}

impl ReadCommand {
    /// Reading the file at `file`.
    pub fn for_file(file: String) -> (r: ReadCommand)
        ensures
            r.file == Some(file),
            r.component is None,
            r.entry is None,
            r.version == 1,
            r.xdg_dir@ == "config"@,
    {
        ReadCommand { version: 1, component: None, entry: None, xdg_dir: String::from_str("config"), file: Some(file) }
    }

    /// Reading an entry whose version was typed as text.
    pub fn for_entry(component: String, entry: String, version: &str, xdg_dir: String) -> (r: Result<
        ReadCommand,
        StoreError,
    >)
        ensures
            r is Ok <==> parsed_u64(version@) is Some,
            r matches Ok(c) ==> c == (ReadCommand {
                version: parsed_u64(version@)->Some_0,
                component: Some(component),
                entry: Some(entry),
                xdg_dir,
                file: None,
            }),
            r matches Err(e) ==> e.kind == ErrorKind::InvalidInput,
    {
        let version = parse_version_answer(version)?;
        Ok(ReadCommand { version, component: Some(component), entry: Some(entry), xdg_dir, file: None })
    }
}

impl DeleteCommand {
    /// Deleting the file at `file`.
    pub fn for_file(file: String) -> (r: DeleteCommand)
        ensures
            r.file == Some(file),
            r.component is None,
            r.entry is None,
            r.version == 1,
            r.xdg_dir@ == "config"@,
    {
        DeleteCommand { version: 1, component: None, entry: None, xdg_dir: String::from_str("config"), file: Some(file) }
    }

    /// Deleting an entry whose version was typed as text.
    pub fn for_entry(component: String, entry: String, version: &str, xdg_dir: String) -> (r: Result<
        DeleteCommand,
        StoreError,
    >)
        ensures
            r is Ok <==> parsed_u64(version@) is Some,
            r matches Ok(c) ==> c == (DeleteCommand {
                version: parsed_u64(version@)->Some_0,
                component: Some(component),
                entry: Some(entry),
                xdg_dir,
                file: None,
            }),
            r matches Err(e) ==> e.kind == ErrorKind::InvalidInput,
    {
        let version = parse_version_answer(version)?;
        Ok(DeleteCommand { version, component: Some(component), entry: Some(entry), xdg_dir, file: None })
    }
}

impl BackupCommand {
    /// A backup to `file` of the chosen categories, in the format of its
    /// extension; choosing no category is an `InvalidInput` error.
    pub fn from_answers(file: String, verbose: bool, dirs: Vec<String>) -> (r: Result<BackupCommand, StoreError>)
        ensures
            r is Ok <==> dirs@.len() > 0,
            r matches Ok(c) ==> c == (BackupCommand { file, verbose, xdg_dirs: dirs, format: None }),
            r matches Err(e) ==> e.kind == ErrorKind::InvalidInput,
    {
        let xdg_dirs = chosen_dirs(dirs)?;
        Ok(BackupCommand { file, verbose, xdg_dirs, format: None })
    }
}

impl ResetCommand {
    /// A confirmed reset of the chosen categories with the exclude list as
    /// typed; choosing no category is an `InvalidInput` error.
    pub fn from_answers(exclude: String, verbose: bool, dirs: Vec<String>) -> (r: Result<ResetCommand, StoreError>)
        ensures
            r is Ok <==> dirs@.len() > 0,
            r matches Ok(c) ==> c.force == false && c.verbose == verbose && c.xdg_dirs == dirs && (trimmed(exclude@).len()
                == 0 ==> c.exclude is None) && (trimmed(exclude@).len() > 0 ==> c.exclude == Some(exclude)),
            r matches Err(e) ==> e.kind == ErrorKind::InvalidInput,
    {
        let exclude = exclude_answer(exclude);
        let xdg_dirs = chosen_dirs(dirs)?;
        Ok(ResetCommand { force: false, verbose, exclude, xdg_dirs })
    }
}

} // verus!
