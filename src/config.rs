//! Where entries live: XDG categories, their resolved roots, and the layout
//! `<root>/cosmic/<component>/v<version>/<entry>`.
use crate::text::{
    decimal, decimal_string, drop_dot_segments, eq_ascii_fold, matches_ascii_fold, non_empty, parse_u64,
    parsed_u64, path_segments, slash_fields, views, without_dots,
};
use vstd::prelude::*;

verus! {

/// The kinds of failure that the store and the engines report.
#[derive(Clone, Copy, Debug, PartialEq, Eq, Structural)]
pub enum ErrorKind {
    NotFound,
    InvalidInput,
    InvalidData,
    Other,
}

/// A failure with its kind and a human-readable message.
#[derive(Clone, Debug)]
pub struct StoreError {
    pub kind: ErrorKind,
    pub message: String,
}

impl StoreError {
    /// An error of kind `kind` with the message `message`.
    pub fn new(kind: ErrorKind, message: &str) -> (r: StoreError)
        ensures
            r.kind == kind,
            r.message@ == message@,
    {
        StoreError { kind, message: String::from_str(message) }
    }
}

/// The kind of a failed result, or the view of a successful one.
pub open spec fn path_outcome(r: Result<String, StoreError>) -> Result<Seq<char>, ErrorKind> {
    match r {
        Ok(s) => Ok(s@),
        Err(e) => Err(e.kind),
    }
}

/// The XDG base-directory categories that can hold entries.
#[derive(Clone, Copy, Debug, PartialEq, Eq, Structural)]
pub enum XdgCategory {
    Config,
    Data,
    Cache,
    State,
    Runtime,
}

/// The category that `name` denotes, ignoring the case of ASCII letters.
pub open spec fn category_named(name: Seq<char>) -> Option<XdgCategory> {
    if eq_ascii_fold(name, "config"@) {
        Some(XdgCategory::Config)
    } else if eq_ascii_fold(name, "data"@) {
        Some(XdgCategory::Data)
    } else if eq_ascii_fold(name, "cache"@) {
        Some(XdgCategory::Cache)
    } else if eq_ascii_fold(name, "state"@) {
        Some(XdgCategory::State)
    } else if eq_ascii_fold(name, "runtime"@) {
        Some(XdgCategory::Runtime)
    } else {
        None
    }
}

impl XdgCategory {
    /// Reads a category name such as `config` or `STATE`.
    pub fn from_name(name: &str) -> (r: Option<XdgCategory>)
        ensures
            r == category_named(name@),
    {
        if matches_ascii_fold(name, "config") {
            Some(XdgCategory::Config)
        } else if matches_ascii_fold(name, "data") {
            Some(XdgCategory::Data)
        } else if matches_ascii_fold(name, "cache") {
            Some(XdgCategory::Cache)
        } else if matches_ascii_fold(name, "state") {
            Some(XdgCategory::State)
        } else if matches_ascii_fold(name, "runtime") {
            Some(XdgCategory::Runtime)
        } else {
            None
        }
    }
}

/// The resolved absolute directory of each category; state and runtime
/// directories may be unavailable on a platform.
#[derive(Clone, Debug)]
pub struct XdgRoots {
    pub config: String,
    pub data: String,
    pub cache: String,
    pub state: Option<String>,
    pub runtime: Option<String>,
}

impl XdgRoots {
    /// The directory of category `c`, if there is one.
    pub open spec fn root_of(&self, c: XdgCategory) -> Option<Seq<char>> {
        match c {
            XdgCategory::Config => Some(self.config@),
            XdgCategory::Data => Some(self.data@),
            XdgCategory::Cache => Some(self.cache@),
            XdgCategory::State => match self.state {
                Some(s) => Some(s@),
                None => None,
            },
            XdgCategory::Runtime => match self.runtime {
                Some(s) => Some(s@),
                None => None,
            },
        }
    }
}

/// The directory named by the category name `xdg_dir`: `InvalidInput` for an
/// unknown name, `NotFound` for a category without a directory.
pub open spec fn xdg_dir_spec(xdg_dir: Seq<char>, roots: XdgRoots) -> Result<Seq<char>, ErrorKind> {
    match category_named(xdg_dir) {
        None => Err(ErrorKind::InvalidInput),
        Some(c) => match roots.root_of(c) {
            Some(p) => Ok(p),
            None => Err(ErrorKind::NotFound),
        },
    }
}

/// `a` and `b` joined by one `/`, unless `a` is empty or already ends in one.
pub open spec fn join(a: Seq<char>, b: Seq<char>) -> Seq<char> {
    if a.len() > 0 && a.last() != '/' {
        a + seq!['/'] + b
    } else {
        a + b
    }
}

/// The directory name of version `v`: `v` followed by its decimal digits.
pub open spec fn version_dir(v: u64) -> Seq<char> {
    seq!['v'] + decimal(v as nat)
}

/// Joins two path pieces with `/`.
pub fn join_path(a: &str, b: &str) -> (r: String)
    ensures
        r@ == join(a@, b@),
{
    let n = a.unicode_len();
    let mut r = String::from_str(a);
    if n > 0 && a.get_char(n - 1) != '/' {
        r.append("/");
        proof {
            reveal_strlit("/");
        }
    }
    r.append(b);
    assert(r@ =~= join(a@, b@));
    r
}

/// Writes the directory name of a version, `v<version>`.
pub fn version_dir_name(version: u64) -> (r: String)
    ensures
        r@ == version_dir(version),
{
    let mut r = String::from_str("v");
    proof {
        reveal_strlit("v");
    }
    let digits = decimal_string(version);
    r.append(digits.as_str());
    assert(r@ =~= version_dir(version));
    r
}

/// Resolves a category name to its root directory.
pub fn get_xdg_dir_path(xdg_dir: &str, roots: &XdgRoots) -> (r: Result<String, StoreError>)
    ensures
        path_outcome(r) == xdg_dir_spec(xdg_dir@, *roots),
{
    match XdgCategory::from_name(xdg_dir) {
        None => Err(StoreError::new(ErrorKind::InvalidInput, "Invalid XDG directory")),
        Some(XdgCategory::Config) => Ok(roots.config.clone()),
        Some(XdgCategory::Data) => Ok(roots.data.clone()),
        Some(XdgCategory::Cache) => Ok(roots.cache.clone()),
        Some(XdgCategory::State) => match &roots.state {
            Some(s) => Ok(s.clone()),
            None => Err(StoreError::new(ErrorKind::NotFound, "State directory is not available")),
        },
        Some(XdgCategory::Runtime) => match &roots.runtime {
            Some(s) => Ok(s.clone()),
            None => Err(
                StoreError::new(ErrorKind::NotFound, "Runtime directory is not available"),
            ),
        },
    }
}

/// The store root of a category: its directory joined with `cosmic`.
pub open spec fn store_root_spec(xdg_dir: Seq<char>, roots: XdgRoots) -> Result<Seq<char>, ErrorKind> {
    match xdg_dir_spec(xdg_dir, roots) {
        Ok(p) => Ok(join(p, "cosmic"@)),
        Err(k) => Err(k),
    }
}

/// Resolves a category name to the root of its store, `<dir>/cosmic`.
pub fn get_cosmic_configurations(xdg_dir: &str, roots: &XdgRoots) -> (r: Result<String, StoreError>)
    ensures
        path_outcome(r) == store_root_spec(xdg_dir@, *roots),
{
    let dir = get_xdg_dir_path(xdg_dir, roots)?;
    Ok(join_path(dir.as_str(), "cosmic"))
}

/// The file of an entry: `<store root>/<component>/v<version>/<entry>`.
pub open spec fn entry_path_spec(
    component: Seq<char>,
    version: u64,
    entry: Seq<char>,
    xdg_dir: Seq<char>,
    roots: XdgRoots,
) -> Result<Seq<char>, ErrorKind> {
    match store_root_spec(xdg_dir, roots) {
        Ok(root) => Ok(join(join(join(root, component), version_dir(version)), entry)),
        Err(k) => Err(k),
    }
}

/// Resolves an entry address to the path of its file.
pub fn get_configuration_path(
    component: &str,
    version: u64,
    entry: &str,
    xdg_dir: &str,
    roots: &XdgRoots,
) -> (r: Result<String, StoreError>)
    ensures
        path_outcome(r) == entry_path_spec(component@, version, entry@, xdg_dir@, *roots),
{
    let root = get_cosmic_configurations(xdg_dir, roots)?;
    let with_component = join_path(root.as_str(), component);
    let version_name = version_dir_name(version);
    let with_version = join_path(with_component.as_str(), version_name.as_str());
    Ok(join_path(with_version.as_str(), entry))
}

/// The path of an entry relative to its store root, `<component>/v<version>/<entry>`,
/// which exclusion patterns are matched against.
pub open spec fn relative_path_spec(component: Seq<char>, version: u64, entry: Seq<char>) -> Seq<char> {
    component + seq!['/'] + version_dir(version) + seq!['/'] + entry
}

/// Writes the path of an entry relative to its store root.
pub fn relative_entry_path(component: &str, version: u64, entry: &str) -> (r: String)
    ensures
        r@ == relative_path_spec(component@, version, entry@),
{
    let mut r = String::from_str(component);
    r.append("/");
    let v = version_dir_name(version);
    r.append(v.as_str());
    r.append("/");
    r.append(entry);
    proof {
        reveal_strlit("/");
    }
    assert(r@ =~= relative_path_spec(component@, version, entry@));
    r
}

/// Whether a relative path starts with a `.` component, which `Path::iter`
/// keeps as its first component.
pub open spec fn starts_at_cur_dir(p: Seq<char>) -> bool {
    p.len() > 0 && p[0] == '.' && (p.len() == 1 || p[1] == '/')
}

/// The components of a path as `Path::iter` lists them: `/` first for an
/// absolute path, or `.` for one that starts at `.`, then the non-empty
/// names other than `.`.
pub open spec fn path_parts(p: Seq<char>) -> Seq<Seq<char>> {
    let names = without_dots(non_empty(slash_fields(p)));
    if p.len() > 0 && p[0] == '/' {
        seq![seq!['/']] + names
    } else if starts_at_cur_dir(p) {
        seq![seq!['.']] + names
    } else {
        names
    }
}

/// Lists the components of a path.
pub fn path_components(p: &str) -> (r: Vec<String>)
    ensures
        views(r@) == path_parts(p@),
{
    let segs = path_segments(p);
    let mut names = drop_dot_segments(&segs);
    let n = p.unicode_len();
    let mut r: Vec<String> = Vec::new();
    proof {
        reveal_strlit("/");
        reveal_strlit(".");
    }
    if n > 0 && p.get_char(0) == '/' {
        let root = String::from_str("/");
        assert(root@ =~= seq!['/']);
        r.push(root);
        assert(views(r@) =~= seq![root@]);
    } else if n > 0 && p.get_char(0) == '.' && (n == 1 || p.get_char(1) == '/') {
        let root = String::from_str(".");
        assert(root@ =~= seq!['.']);
        r.push(root);
        assert(views(r@) =~= seq![root@]);
    } else {
        assert(views(r@) =~= Seq::<Seq<char>>::empty());
    }
    let ghost first = r@;
    let ghost rest = names@;
    r.append(&mut names);
    assert(views(r@) =~= views(first) + views(rest));
    assert(views(r@) =~= path_parts(p@));
    r
}

/// The version that a directory name `v<digits>` denotes.
pub open spec fn version_named(seg: Seq<char>) -> Option<u64> {
    if seg.len() > 0 && seg[0] == 'v' {
        parsed_u64(seg.drop_first())
    } else {
        None
    }
}

/// The (component, version, entry) that a file path of at least four
/// components ends in, when its second-to-last component names a version.
pub open spec fn parsed_entry_path(p: Seq<char>) -> Option<(Seq<char>, u64, Seq<char>)> {
    let parts = path_parts(p);
    let n = parts.len();
    if n >= 4 && version_named(parts[n - 2]) is Some {
        Some((parts[n - 3], version_named(parts[n - 2])->Some_0, parts[n - 1]))
    } else {
        None
    }
}

/// The view of a parsed entry address.
pub open spec fn address_view(r: Option<(String, u64, String)>) -> Option<(Seq<char>, u64, Seq<char>)> {
    match r {
        Some(t) => Some((t.0@, t.1, t.2@)),
        None => None,
    }
}

/// Reads the version from a directory name of the form `v<digits>`.
pub fn parse_version_dir(seg: &str) -> (r: Option<u64>)
    ensures
        r == version_named(seg@),
{
    let n = seg.unicode_len();
    if n > 0 && seg.get_char(0) == 'v' {
        let digits = seg.substring_char(1, n);
        assert(digits@ =~= seg@.drop_first());
        parse_u64(digits)
    } else {
        None
    }
}

/// Takes the component, version and entry name from the last three
/// components of a file path in the store.
pub fn parse_configuration_path(path: &str) -> (r: Option<(String, u64, String)>)
    ensures
        address_view(r) == parsed_entry_path(path@),
{
    let parts = path_components(path);
    let n = parts.len();
    let ghost pv = views(parts@);
    if n < 4 {
        return None;
    }
    assert(pv[n - 2] == parts@[n - 2]@);
    assert(pv[n - 3] == parts@[n - 3]@);
    assert(pv[n - 1] == parts@[n - 1]@);
    match parse_version_dir(parts[n - 2].as_str()) {
        Some(version) => Some((parts[n - 3].clone(), version, parts[n - 1].clone())),
        None => None,
    }
}

} // verus!
