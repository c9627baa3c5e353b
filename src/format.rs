//! The serialisation formats of operation documents, chosen by file
//! extension or by name.
use crate::config::{path_components, path_parts, ErrorKind, StoreError};
use crate::text::{eq_ascii_fold, matches_ascii_fold, views};
use vstd::prelude::*;

verus! {

/// Supported file formats for operation documents.
#[derive(Clone, Copy, Debug, PartialEq, Eq, Structural)]
pub enum FileFormat {
    Json,
    Yaml,
    Toml,
    Ron,
}

/// The format that a name or extension denotes, ignoring the case of ASCII
/// letters.
pub open spec fn format_named(ext: Seq<char>) -> Option<FileFormat> {
    if eq_ascii_fold(ext, "json"@) {
        Some(FileFormat::Json)
    } else if eq_ascii_fold(ext, "yaml"@) || eq_ascii_fold(ext, "yml"@) {
        Some(FileFormat::Yaml)
    } else if eq_ascii_fold(ext, "toml"@) {
        Some(FileFormat::Toml)
    } else if eq_ascii_fold(ext, "ron"@) {
        Some(FileFormat::Ron)
    } else {
        None
    }
}

/// The index of the last `.` in `s`, or -1.
pub open spec fn last_dot(s: Seq<char>) -> int
    decreases s.len(),
{
    if s.len() == 0 {
        -1
    } else if s.last() == '.' {
        s.len() - 1
    } else {
        last_dot(s.drop_last())
    }
}

/// The file name of a path, as `Path::file_name` gives it: its last
/// component, unless that is the root, `.` or `..`.
pub open spec fn file_name_of(p: Seq<char>) -> Option<Seq<char>> {
    let parts = path_parts(p);
    if parts.len() == 0 || parts.last() == seq!['/'] || parts.last() == seq!['.'] || parts.last() == seq!['.', '.'] {
        None
    } else {
        Some(parts.last())
    }
}

/// The extension of a file name: what follows its last `.`, where something
/// precedes that `.`.
pub open spec fn extension_of(name: Seq<char>) -> Option<Seq<char>> {
    let k = last_dot(name);
    if k <= 0 {
        None
    } else {
        Some(name.subrange(k + 1, name.len() as int))
    }
}

/// The format chosen by the extension of a path: `InvalidInput` where the
/// path has no extension or an unsupported one.
pub open spec fn format_of_path(p: Seq<char>) -> Result<FileFormat, ErrorKind> {
    match file_name_of(p) {
        Some(name) => match extension_of(name) {
            Some(ext) => match format_named(ext) {
                Some(f) => Ok(f),
                None => Err(ErrorKind::InvalidInput),
            },
            None => Err(ErrorKind::InvalidInput),
        },
        None => Err(ErrorKind::InvalidInput),
    }
}

/// The kind of a failed result, or the value of a successful one.
pub open spec fn format_outcome(r: Result<FileFormat, StoreError>) -> Result<FileFormat, ErrorKind> {
    match r {
        Ok(f) => Ok(f),
        Err(e) => Err(e.kind),
    }
}

proof fn lemma_last_dot_range(s: Seq<char>)
    ensures
        -1 <= last_dot(s) < s.len(),
        last_dot(s) >= 0 ==> s[last_dot(s)] == '.',
    decreases s.len(),
{
    if s.len() > 0 && s.last() != '.' {
        lemma_last_dot_range(s.drop_last());
    }
}

fn find_last_dot(s: &str) -> (r: Option<usize>)
    ensures
        match r {
            Some(k) => k == last_dot(s@),
            None => last_dot(s@) == -1,
        },
{
    let n = s.unicode_len();
    let mut i: usize = n;
    assert(s@.take(n as int) =~= s@);
    while i > 0
        invariant
            i <= n,
            n == s@.len(),
            last_dot(s@) == last_dot(s@.take(i as int)),
        decreases i,
    {
        assert(s@.take(i as int).drop_last() =~= s@.take(i - 1));
        assert(s@.take(i as int).last() == s@[i - 1]);
        if s.get_char(i - 1) == '.' {
            return Some(i - 1);
        }
        i -= 1;
    }
    None
}

impl FileFormat {
    /// Picks the format by the extension of `path`.
    pub fn from_path(path: &str) -> (r: Result<FileFormat, StoreError>)
        ensures
            format_outcome(r) == format_of_path(path@),
    {
        let parts = path_components(path);
        let ghost pv = views(parts@);
        let m = parts.len();
        if m == 0 {
            return Err(StoreError::new(ErrorKind::InvalidInput, "File has no extension"));
        }
        let name = &parts[m - 1];
        assert(pv.last() == name@);
        let len = name.unicode_len();
        let special = (len == 1 && (name.as_str().get_char(0) == '/' || name.as_str().get_char(0) == '.')) || (len
            == 2 && name.as_str().get_char(0) == '.' && name.as_str().get_char(1) == '.');
        if special {
            assert(name@ =~= seq!['/'] || name@ =~= seq!['.'] || name@ =~= seq!['.', '.']);
            return Err(StoreError::new(ErrorKind::InvalidInput, "File has no extension"));
        }
        assert(!(name@ =~= seq!['/']) && !(name@ =~= seq!['.']) && !(name@ =~= seq!['.', '.']));
        let n = name.unicode_len();
        proof {
            lemma_last_dot_range(name@);
        }
        let k = match find_last_dot(name.as_str()) {
            Some(k) => k,
            None => return Err(StoreError::new(ErrorKind::InvalidInput, "File has no extension")),
        };
        if k == 0 {
            return Err(StoreError::new(ErrorKind::InvalidInput, "File has no extension"));
        }
        let ext = name.as_str().substring_char(k + 1, n);
        if matches_ascii_fold(ext, "json") {
            Ok(FileFormat::Json)
        } else if matches_ascii_fold(ext, "yaml") || matches_ascii_fold(ext, "yml") {
            Ok(FileFormat::Yaml)
        } else if matches_ascii_fold(ext, "toml") {
            Ok(FileFormat::Toml)
        } else if matches_ascii_fold(ext, "ron") {
            Ok(FileFormat::Ron)
        } else {
            Err(StoreError::new(ErrorKind::InvalidInput, "Unsupported file format"))
        }
    }

    /// Picks the format by its name, such as `json` or `RON`.
    pub fn from_name(name: &str) -> (r: Result<FileFormat, StoreError>)
        ensures
            format_outcome(r) == match format_named(name@) {
                Some(f) => Ok(f),
                None => Err(ErrorKind::InvalidInput),
            },
    {
        if matches_ascii_fold(name, "json") {
            Ok(FileFormat::Json)
        } else if matches_ascii_fold(name, "yaml") || matches_ascii_fold(name, "yml") {
            Ok(FileFormat::Yaml)
        } else if matches_ascii_fold(name, "toml") {
            Ok(FileFormat::Toml)
        } else if matches_ascii_fold(name, "ron") {
            Ok(FileFormat::Ron)
        } else {
            Err(StoreError::new(ErrorKind::InvalidInput, "Unsupported format"))
        }
    }

    /// Human-readable name of the format.
    pub fn name(&self) -> (r: &'static str)
        ensures
            r@ == match *self {
                FileFormat::Json => "JSON"@,
                FileFormat::Yaml => "YAML"@,
                FileFormat::Toml => "TOML"@,
                FileFormat::Ron => "RON"@,
            },
    {
        match self {
            FileFormat::Json => "JSON",
            FileFormat::Yaml => "YAML",
            FileFormat::Toml => "TOML",
            FileFormat::Ron => "RON",
        }
    }

    /// Whether documents in this format carry the schema tag; RON has no
    /// place for it.
    pub fn carries_schema(&self) -> (r: bool)
        ensures
            r == (*self != FileFormat::Ron),
    {
        match self {
            FileFormat::Ron => false,
            _ => true,
        }
    }
}

} // verus!
