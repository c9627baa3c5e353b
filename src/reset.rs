//! Choosing which files of a store a reset deletes.
use crate::config::{parse_configuration_path, parsed_entry_path, relative_entry_path, relative_path_spec};
use crate::exclude::{excluded_by, ExclusionMatcher};
use crate::text::{eq_ascii_fold, matches_ascii_fold, trim, trimmed, views};
use vstd::prelude::*;

verus! {

/// The view of an entry address: component, version and entry name.
pub open spec fn triple_view(t: (String, u64, String)) -> (Seq<char>, u64, Seq<char>) {
    (t.0@, t.1, t.2@)
}

/// The views of a list of entry addresses.
pub open spec fn triple_views(s: Seq<(String, u64, String)>) -> Seq<(Seq<char>, u64, Seq<char>)> {
    s.map_values(|t: (String, u64, String)| triple_view(t))
}

/// The entries that a reset deletes among the files `paths`: in walk order,
/// each file whose path names an entry whose relative path matches none of
/// the exclusion patterns `ps`.
pub open spec fn reset_targets_spec(paths: Seq<Seq<char>>, ps: Seq<Seq<char>>) -> Seq<(Seq<char>, u64, Seq<char>)>
    decreases paths.len(),
{
    if paths.len() == 0 {
        Seq::empty()
    } else {
        let rest = reset_targets_spec(paths.drop_last(), ps);
        match parsed_entry_path(paths.last()) {
            Some(t) => if excluded_by(ps, relative_path_spec(t.0, t.1, t.2)) {
                rest
            } else {
                rest.push(t)
            },
            None => rest,
        }
    }
}

/// Selects, among the files found under a store root, the entries to delete.
pub fn select_for_reset(paths: &Vec<String>, matcher: &ExclusionMatcher) -> (r: Vec<(String, u64, String)>)
    ensures
        triple_views(r@) == reset_targets_spec(views(paths@), matcher.pattern_texts()),
{
    let ghost pv = views(paths@);
    let mut r: Vec<(String, u64, String)> = Vec::new();
    let mut i: usize = 0;
    assert(pv.take(0) =~= Seq::<Seq<char>>::empty());
    assert(triple_views(r@) =~= Seq::<(Seq<char>, u64, Seq<char>)>::empty());
    while i < paths.len()
        invariant
            i <= paths@.len(),
            pv == views(paths@),
            triple_views(r@) == reset_targets_spec(pv.take(i as int), matcher.pattern_texts()),
        decreases paths@.len() - i,
    {
        assert(pv.take(i + 1).drop_last() =~= pv.take(i as int));
        assert(pv.take(i + 1).last() == paths@[i as int]@);
        match parse_configuration_path(paths[i].as_str()) {
            Some(t) => {
                let rel = relative_entry_path(t.0.as_str(), t.1, t.2.as_str());
                if !matcher.is_excluded(rel.as_str()) {
                    let ghost before = r@;
                    r.push(t);
                    assert(triple_views(r@) =~= triple_views(before).push(triple_view(t)));
                }
            },
            None => {},
        }
        i += 1;
    }
    assert(pv.take(i as int) =~= pv);
    r
}

/// Whether an answer to the confirmation prompt agrees: `y` in either case,
/// surrounding white space ignored.
pub fn confirmed(response: &str) -> (r: bool)
    ensures
        r == eq_ascii_fold(trimmed(response@), "y"@),
{
    let t = trim(response);
    matches_ascii_fold(t.as_str(), "y")
}

} // verus!
