//! Rebuilding an operation document from the files found in a store: one
//! write operation per (component, version) with all of its entries.
use crate::apply::{
    all_writes, content_at, entry_steps, last_write, lemma_last_write_concat, lemma_run_writes,
    plan_spec, run_steps, target_path_spec, write_steps, Files, StepView, Summary, TargetView,
};
use crate::config::{entry_path_spec, parse_configuration_path, parsed_entry_path, store_root_spec, XdgRoots};
use crate::store::{doubled, escape_backslashes, lemma_halved_doubled, unescape_result};
use crate::schema::{names_unique, Entry, EntryContent, Operation};
use vstd::prelude::*;

verus! {

/// A found entry: component, version, entry name and content.
pub type Record = (Seq<char>, u64, Seq<char>, Seq<char>);

/// The entries among the found files `(path, content)`, in walk order; files
/// whose path does not end in `<component>/v<version>/<entry>` are left out.
pub open spec fn found_records(found: Seq<(String, String)>) -> Seq<Record>
    decreases found.len(),
{
    if found.len() == 0 {
        Seq::empty()
    } else {
        let rest = found_records(found.drop_last());
        match parsed_entry_path(found.last().0@) {
            Some(t) => rest.push((t.0, t.1, t.2, found.last().1@)),
            None => rest,
        }
    }
}

/// The content last found for an entry, if any.
pub open spec fn latest(recs: Seq<Record>, c: Seq<char>, v: u64, e: Seq<char>) -> Option<Seq<char>>
    decreases recs.len(),
{
    if recs.len() == 0 {
        None
    } else if recs.last().0 == c && recs.last().1 == v && recs.last().2 == e {
        Some(recs.last().3)
    } else {
        latest(recs.drop_last(), c, v, e)
    }
}

/// A group of a backup: component, version, and (entry name, content) pairs.
pub type Group = (String, u64, Vec<(String, String)>);

/// No two groups share a component and version.
pub open spec fn groups_distinct(gs: Seq<Group>) -> bool {
    forall|i: int, j: int|
        0 <= i < j < gs.len() ==> !(#[trigger] gs[i].0@ == #[trigger] gs[j].0@ && gs[i].1 == gs[j].1)
}

/// Each group has at least one entry, and no two of its entries share a name.
pub open spec fn groups_well_formed(gs: Seq<Group>) -> bool {
    forall|g: int|
        0 <= g < gs.len() ==> {
            &&& (#[trigger] gs[g]).2@.len() > 0
            &&& forall|i: int, j: int|
                0 <= i < j < gs[g].2@.len() ==> (#[trigger] gs[g].2@[i]).0@ != (#[trigger] gs[g].2@[j]).0@
        }
}

/// A found content with its backslashes doubled, as a backup writes it.
pub open spec fn escaped_opt(o: Option<Seq<char>>) -> Option<Seq<char>> {
    match o {
        Some(t) => Some(doubled(t)),
        None => None,
    }
}

/// Every entry of every group holds the content last found for it, with
/// its backslashes doubled so that applying the backup expands them back.
pub open spec fn groups_sound(gs: Seq<Group>, recs: Seq<Record>) -> bool {
    forall|g: int, k: int|
        0 <= g < gs.len() && 0 <= k < gs[g].2@.len() ==> escaped_opt(latest(
            recs,
            gs[g].0@,
            gs[g].1,
            (#[trigger] gs[g].2@[k]).0@,
        )) == Some(gs[g].2@[k].1@)
}

/// Whether the groups hold an entry named `e` for component `c` and version `v`.
pub open spec fn groups_hold(gs: Seq<Group>, c: Seq<char>, v: u64, e: Seq<char>) -> bool {
    exists|g: int, k: int|
        0 <= g < gs.len() && 0 <= k < gs[g].2@.len() && gs[g].0@ == c && gs[g].1 == v && (
        #[trigger] gs[g].2@[k]).0@ == e
}

/// Every entry that was found is in some group.
pub open spec fn groups_complete(gs: Seq<Group>, recs: Seq<Record>) -> bool {
    forall|c: Seq<char>, v: u64, e: Seq<char>|
        #[trigger] latest(recs, c, v, e) is Some ==> groups_hold(gs, c, v, e)
}

/// The groups are a faithful backup of the records `recs`.
pub open spec fn backup_of(gs: Seq<Group>, recs: Seq<Record>) -> bool {
    &&& groups_distinct(gs)
    &&& groups_well_formed(gs)
    &&& groups_sound(gs, recs)
    &&& groups_complete(gs, recs)
}

proof fn lemma_latest_push(recs: Seq<Record>, r: Record, c: Seq<char>, v: u64, e: Seq<char>)
    ensures
        latest(recs.push(r), c, v, e) == if r.0 == c && r.1 == v && r.2 == e {
            Some(r.3)
        } else {
            latest(recs, c, v, e)
        },
{
    assert(recs.push(r).drop_last() =~= recs);
}

fn find_group(gs: &Vec<Group>, c: &String, v: u64) -> (r: Option<usize>)
    ensures
        match r {
            Some(g) => g < gs@.len() && gs@[g as int].0@ == c@ && gs@[g as int].1 == v,
            None => forall|g: int| 0 <= g < gs@.len() ==> !(#[trigger] gs@[g].0@ == c@ && gs@[g].1 == v),
        },
{
    let mut i: usize = 0;
    while i < gs.len()
        invariant
            i <= gs@.len(),
            forall|g: int| 0 <= g < i ==> !(#[trigger] gs@[g].0@ == c@ && gs@[g].1 == v),
        decreases gs@.len() - i,
    {
        if gs[i].1 == v && gs[i].0 == *c {
            return Some(i);
        }
        i += 1;
    }
    None
}

fn find_key(ps: &Vec<(String, String)>, e: &String) -> (r: Option<usize>)
    ensures
        match r {
            Some(k) => k < ps@.len() && ps@[k as int].0@ == e@,
            None => forall|k: int| 0 <= k < ps@.len() ==> (#[trigger] ps@[k]).0@ != e@,
        },
{
    let mut i: usize = 0;
    while i < ps.len()
        invariant
            i <= ps@.len(),
            forall|k: int| 0 <= k < i ==> (#[trigger] ps@[k]).0@ != e@,
        decreases ps@.len() - i,
    {
        if ps[i].0 == *e {
            return Some(i);
        }
        i += 1;
    }
    None
}

/// Adds one found entry to the groups.
fn add_record(
    gs: &mut Vec<Group>,
    c: String,
    v: u64,
    e: String,
    x: String,
    raw: Ghost<Seq<char>>,
    recs: Ghost<Seq<Record>>,
)
    requires
        backup_of(old(gs)@, recs@),
        x@ == doubled(raw@),
    ensures
        backup_of(final(gs)@, recs@.push((c@, v, e@, raw@))),
{
    let ghost r: Record = (c@, v, e@, raw@);
    let ghost nrecs = recs@.push(r);
    let ghost g0 = gs@;
    match find_group(gs, &c, v) {
        None => {
            let mut ps: Vec<(String, String)> = Vec::new();
            ps.push((e, x));
            gs.push((c, v, ps));
            proof {
                let gs1 = gs@;
                assert(gs1 == g0.push(gs1.last()));
                assert forall|i: int, j: int| 0 <= i < j < gs1.len() implies !(#[trigger] gs1[i].0@ == #[trigger] gs1[j].0@ && gs1[i].1 == gs1[j].1) by {
                    if j < g0.len() {
                        assert(gs1[i] == g0[i] && gs1[j] == g0[j]);
                    }
                }
                assert forall|g: int, k: int| 0 <= g < gs1.len() && 0 <= k < gs1[g].2@.len() implies escaped_opt(latest(
                    nrecs,
                    gs1[g].0@,
                    gs1[g].1,
                    (#[trigger] gs1[g].2@[k]).0@,
                )) == Some(gs1[g].2@[k].1@) by {
                    lemma_latest_push(recs@, r, gs1[g].0@, gs1[g].1, gs1[g].2@[k].0@);
                    if g < g0.len() {
                        assert(gs1[g] == g0[g]);
                    }
                }
                assert forall|cc: Seq<char>, vv: u64, ee: Seq<char>| #[trigger] latest(nrecs, cc, vv, ee) is Some implies groups_hold(gs1, cc, vv, ee) by {
                    lemma_latest_push(recs@, r, cc, vv, ee);
                    if cc == c@ && vv == v && ee == e@ {
                        assert(gs1[g0.len() as int].2@[0] == (e, x));
                    } else {
                        assert(latest(recs@, cc, vv, ee) is Some);
                        assert(groups_hold(g0, cc, vv, ee));
                        let (g, k) = choose|g: int, k: int|
                            0 <= g < g0.len() && 0 <= k < g0[g].2@.len() && g0[g].0@ == cc && g0[g].1 == vv && (
                            #[trigger] g0[g].2@[k]).0@ == ee;
                        assert(gs1[g] == g0[g]);
                    }
                }
                assert(groups_well_formed(gs1)) by {
                    assert forall|g: int| 0 <= g < gs1.len() implies {
                        &&& (#[trigger] gs1[g]).2@.len() > 0
                        &&& forall|i: int, j: int|
                            0 <= i < j < gs1[g].2@.len() ==> (#[trigger] gs1[g].2@[i]).0@ != (#[trigger] gs1[g].2@[j]).0@
                    } by {
                        if g < g0.len() {
                            assert(gs1[g] == g0[g]);
                        }
                    }
                }
            }
        },
        Some(gi) => {
            let (gc, gv, mut ps) = gs.remove(gi);
            let ghost old_pairs = ps@;
            let ghost removed = (gc, gv, ps);
            assert(removed == g0[gi as int]);
            let ghost mut at: int = 0;
            match find_key(&ps, &e) {
                Some(ki) => {
                    let (ke, _) = ps.remove(ki);
                    ps.insert(ki, (ke, x));
                    assert(ps@ =~= old_pairs.update(ki as int, (ke, x)));
                    proof {
                        at = ki as int;
                    }
                },
                None => {
                    ps.push((e, x));
                    proof {
                        at = old_pairs.len() as int;
                    }
                },
            }
            assert(0 <= at < ps@.len() && ps@[at].0@ == e@);
            gs.insert(gi, (gc, gv, ps));
            proof {
                let gs1 = gs@;
                assert(gs1 =~= g0.update(gi as int, gs1[gi as int]));
                let np = gs1[gi as int].2@;
                assert(gs1[gi as int].0@ == c@ && gs1[gi as int].1 == v);
                assert forall|i: int, j: int| 0 <= i < j < gs1.len() implies !(#[trigger] gs1[i].0@ == #[trigger] gs1[j].0@ && gs1[i].1 == gs1[j].1) by {
                    assert(gs1[i].0@ == g0[i].0@ && gs1[i].1 == g0[i].1);
                    assert(gs1[j].0@ == g0[j].0@ && gs1[j].1 == g0[j].1);
                }
                assert forall|g: int, k: int| 0 <= g < gs1.len() && 0 <= k < gs1[g].2@.len() implies escaped_opt(latest(
                    nrecs,
                    gs1[g].0@,
                    gs1[g].1,
                    (#[trigger] gs1[g].2@[k]).0@,
                )) == Some(gs1[g].2@[k].1@) by {
                    lemma_latest_push(recs@, r, gs1[g].0@, gs1[g].1, gs1[g].2@[k].0@);
                    if g != gi {
                        assert(gs1[g] == g0[g]);
                        if g0[g].0@ == c@ && g0[g].1 == v {
                            assert(g0[g].0@ == g0[gi as int].0@);
                        }
                    } else if np[k].0@ != e@ {
                        assert(np[k] == old_pairs[k]);
                        assert(g0[g].2@[k] == old_pairs[k]);
                    }
                }
                assert forall|cc: Seq<char>, vv: u64, ee: Seq<char>| #[trigger] latest(nrecs, cc, vv, ee) is Some implies groups_hold(gs1, cc, vv, ee) by {
                    lemma_latest_push(recs@, r, cc, vv, ee);
                    if cc == c@ && vv == v && ee == e@ {
                        assert(gs1[gi as int].2@[at].0@ == ee);
                    } else {
                        assert(groups_hold(g0, cc, vv, ee));
                        let (g, k) = choose|g: int, k: int|
                            0 <= g < g0.len() && 0 <= k < g0[g].2@.len() && g0[g].0@ == cc && g0[g].1 == vv && (
                            #[trigger] g0[g].2@[k]).0@ == ee;
                        if g != gi {
                            assert(gs1[g] == g0[g]);
                        } else {
                            assert(np[k].0@ == old_pairs[k].0@);
                            assert(gs1[g].2@[k].0@ == ee);
                        }
                    }
                }
                assert(groups_well_formed(gs1)) by {
                    assert forall|g: int| 0 <= g < gs1.len() implies {
                        &&& (#[trigger] gs1[g]).2@.len() > 0
                        &&& forall|i: int, j: int|
                            0 <= i < j < gs1[g].2@.len() ==> (#[trigger] gs1[g].2@[i]).0@ != (#[trigger] gs1[g].2@[j]).0@
                    } by {
                        if g != gi {
                            assert(gs1[g] == g0[g]);
                        } else {
                            assert forall|i: int, j: int| 0 <= i < j < np.len() implies (#[trigger] np[i]).0@ != (#[trigger] np[j]).0@ by {
                                if j < old_pairs.len() {
                                    assert(np[i].0@ == old_pairs[i].0@ && np[j].0@ == old_pairs[j].0@);
                                } else {
                                    assert(np[i].0@ == old_pairs[i].0@);
                                }
                            }
                        }
                    }
                }
            }
        },
    }
}

/// Groups the found files `(path, content)` of one category by component and
/// version, and counts the entries among them.
pub fn group_backup(found: &Vec<(String, String)>) -> (r: (Vec<Group>, usize))
    ensures
        backup_of(r.0@, found_records(found@)),
        r.1 == found_records(found@).len(),
        forall|g: int| 0 <= g < r.0@.len() ==> names_unique(#[trigger] r.0@[g].2@),
{
    let mut gs: Vec<Group> = Vec::new();
    let mut count: usize = 0;
    let mut i: usize = 0;
    assert(found@.take(0) =~= Seq::<(String, String)>::empty());
    while i < found.len()
        invariant
            i <= found@.len(),
            count == found_records(found@.take(i as int)).len(),
            count <= i,
            backup_of(gs@, found_records(found@.take(i as int))),
        decreases found@.len() - i,
    {
        let ghost recs = found_records(found@.take(i as int));
        assert(found@.take(i + 1).drop_last() =~= found@.take(i as int));
        assert(found@.take(i + 1).last() == found@[i as int]);
        match parse_configuration_path(found[i].0.as_str()) {
            Some((c, v, e)) => {
                let x = escape_backslashes(found[i].1.as_str());
                add_record(&mut gs, c, v, e, x, Ghost(found@[i as int].1@), Ghost(recs));
                count += 1;
            },
            None => {},
        }
        i += 1;
    }
    assert(found@.take(i as int) =~= found@);
    assert forall|g: int| 0 <= g < gs@.len() implies names_unique(#[trigger] gs@[g].2@) by {
        assert(groups_well_formed(gs@));
    }
    (gs, count)
}

/// Whether `op` is the write operation of group `g` in category `x`.
pub open spec fn is_write_of(op: Entry, g: Group, x: Seq<char>) -> bool {
    &&& op.component == Some(g.0)
    &&& op.version == Some(g.1)
    &&& op.operation == Operation::Write
    &&& op.entries == Some(EntryContent::WriteEntries(g.2))
    &&& match op.xdg_directory {
        Some(d) => d@ == x,
        None => false,
    }
    &&& op.file is None
    &&& op.value is None
}

/// Turns each group into one write operation for category `xdg_dir`, in order.
pub fn write_operations(groups: Vec<Group>, xdg_dir: &str) -> (r: Vec<Entry>)
    ensures
        r@.len() == groups@.len(),
        forall|i: int| 0 <= i < r@.len() ==> is_write_of(#[trigger] r@[i], groups@[i], xdg_dir@),
{
    let ghost orig = groups@;
    let mut rest = groups;
    let mut r: Vec<Entry> = Vec::new();
    assert(orig.skip(0) =~= orig);
    while rest.len() > 0
        invariant
            r@.len() + rest@.len() == orig.len(),
            rest@ == orig.skip(r@.len() as int),
            forall|i: int| 0 <= i < r@.len() ==> is_write_of(#[trigger] r@[i], orig[i], xdg_dir@),
        decreases rest@.len(),
    {
        let ghost n = r@.len() as int;
        let g = rest.remove(0);
        assert(g == orig[n]);
        assert(rest@ =~= orig.skip(n + 1));
        let (c, v, ps) = g;
        let op = Entry {
            component: Some(c),
            version: Some(v),
            operation: Operation::Write,
            entries: Some(EntryContent::WriteEntries(ps)),
            xdg_directory: Some(String::from_str(xdg_dir)),
            file: None,
            value: None,
        };
        r.push(op);
        assert(is_write_of(r@[n], orig[n], xdg_dir@));
    }
    r
}

/// The steps of the write operations of `gs` in category `x`, in order.
pub open spec fn group_steps(gs: Seq<Group>, x: Seq<char>) -> Seq<StepView>
    decreases gs.len(),
{
    if gs.len() == 0 {
        Seq::empty()
    } else {
        group_steps(gs.drop_last(), x) + write_steps(gs.last().0@, gs.last().1, x, gs.last().2@)
    }
}

proof fn lemma_plan_of_writes(ops: Seq<Entry>, gs: Seq<Group>, x: Seq<char>)
    requires
        ops.len() == gs.len(),
        forall|i: int| 0 <= i < ops.len() ==> is_write_of(#[trigger] ops[i], gs[i], x),
    ensures
        plan_spec(ops) == Some(group_steps(gs, x)),
        all_writes(group_steps(gs, x)),
    decreases ops.len(),
{
    if ops.len() > 0 {
        let (o, g) = (ops.drop_last(), gs.drop_last());
        assert forall|i: int| 0 <= i < o.len() implies is_write_of(#[trigger] o[i], g[i], x) by {
            assert(o[i] == ops[i] && g[i] == gs[i]);
        }
        lemma_plan_of_writes(o, g, x);
        assert(is_write_of(ops[ops.len() - 1], gs[gs.len() - 1], x));
        assert(entry_steps(ops.last()) == Some(write_steps(gs.last().0@, gs.last().1, x, gs.last().2@)));
        let a = group_steps(g, x);
        let b = write_steps(gs.last().0@, gs.last().1, x, gs.last().2@);
        assert forall|i: int| 0 <= i < (a + b).len() implies (#[trigger] (a + b)[i]).operation
            == Operation::Write by {
            if i >= a.len() {
                assert((a + b)[i] == b[i - a.len()]);
            }
        }
    }
}

/// The file of the entry `k` of group `g`, in category `x`.
pub open spec fn held_path(g: Group, k: int, x: Seq<char>, roots: XdgRoots) -> Result<Seq<char>, crate::config::ErrorKind> {
    entry_path_spec(g.0@, g.1, g.2@[k].0@, x, roots)
}

proof fn lemma_last_write_group(g: Group, x: Seq<char>, roots: XdgRoots, c: Seq<char>, v: u64, e: Seq<char>, n: int)
    requires
        0 <= n <= g.2@.len(),
        forall|i: int, j: int| 0 <= i < j < g.2@.len() ==> (#[trigger] g.2@[i]).0@ != (#[trigger] g.2@[j]).0@,
        forall|k: int|
            0 <= k < g.2@.len() && !(g.0@ == c && g.1 == v && (#[trigger] g.2@[k]).0@ == e) ==> held_path(g, k, x, roots)
                != entry_path_spec(c, v, e, x, roots),
        entry_path_spec(c, v, e, x, roots) is Ok,
    ensures
        forall|k: int|
            0 <= k < n && g.0@ == c && g.1 == v && (#[trigger] g.2@[k]).0@ == e ==> last_write(
                write_steps(g.0@, g.1, x, g.2@.take(n)),
                entry_path_spec(c, v, e, x, roots)->Ok_0,
                roots,
            ) == unescape_result(g.2@[k].1@),
        (forall|k: int| 0 <= k < n ==> !(g.0@ == c && g.1 == v && (#[trigger] g.2@[k]).0@ == e)) ==> last_write(
            write_steps(g.0@, g.1, x, g.2@.take(n)),
            entry_path_spec(c, v, e, x, roots)->Ok_0,
            roots,
        ) is None,
    decreases n,
{
    let p = entry_path_spec(c, v, e, x, roots)->Ok_0;
    if n > 0 {
        lemma_last_write_group(g, x, roots, c, v, e, n - 1);
        let ws = write_steps(g.0@, g.1, x, g.2@.take(n));
        assert(ws.drop_last() =~= write_steps(g.0@, g.1, x, g.2@.take(n - 1)));
        let last = g.2@[n - 1];
        assert(ws.last() == StepView {
            operation: Operation::Write,
            target: TargetView::Address(g.0@, g.1, last.0@, x),
            value: Some(last.1@),
        });
        assert(target_path_spec(ws.last().target, roots) == held_path(g, n - 1, x, roots));
    }
}

proof fn lemma_last_write_groups(gs: Seq<Group>, x: Seq<char>, roots: XdgRoots, c: Seq<char>, v: u64, e: Seq<char>)
    requires
        groups_distinct(gs),
        groups_well_formed(gs),
        forall|g: int, k: int|
            0 <= g < gs.len() && 0 <= k < gs[g].2@.len() && !(gs[g].0@ == c && gs[g].1 == v && (
            #[trigger] gs[g].2@[k]).0@ == e) ==> held_path(gs[g], k, x, roots) != entry_path_spec(c, v, e, x, roots),
        entry_path_spec(c, v, e, x, roots) is Ok,
    ensures
        forall|g: int, k: int|
            0 <= g < gs.len() && 0 <= k < gs[g].2@.len() && gs[g].0@ == c && gs[g].1 == v && (
            #[trigger] gs[g].2@[k]).0@ == e ==> last_write(
                group_steps(gs, x),
                entry_path_spec(c, v, e, x, roots)->Ok_0,
                roots,
            ) == unescape_result(gs[g].2@[k].1@),
        !groups_hold(gs, c, v, e) ==> last_write(group_steps(gs, x), entry_path_spec(c, v, e, x, roots)->Ok_0, roots)
            is None,
    decreases gs.len(),
{
    let p = entry_path_spec(c, v, e, x, roots)->Ok_0;
    if gs.len() > 0 {
        let pre = gs.drop_last();
        let l = gs.last();
        let m = gs.len() - 1;
        assert(l == gs[m]);
        assert forall|i: int, j: int| 0 <= i < j < pre.len() implies !(#[trigger] pre[i].0@ == #[trigger] pre[j].0@
            && pre[i].1 == pre[j].1) by {
            assert(pre[i] == gs[i] && pre[j] == gs[j]);
        }
        assert forall|g: int| 0 <= g < pre.len() implies {
            &&& (#[trigger] pre[g]).2@.len() > 0
            &&& forall|i: int, j: int|
                0 <= i < j < pre[g].2@.len() ==> (#[trigger] pre[g].2@[i]).0@ != (#[trigger] pre[g].2@[j]).0@
        } by {
            assert(pre[g] == gs[g]);
        }
        assert forall|g: int, k: int|
            0 <= g < pre.len() && 0 <= k < pre[g].2@.len() && !(pre[g].0@ == c && pre[g].1 == v && (
            #[trigger] pre[g].2@[k]).0@ == e) implies held_path(pre[g], k, x, roots) != entry_path_spec(c, v, e, x, roots) by {
            assert(pre[g] == gs[g]);
        }
        lemma_last_write_groups(pre, x, roots, c, v, e);
        assert forall|k: int|
            0 <= k < l.2@.len() && !(l.0@ == c && l.1 == v && (#[trigger] l.2@[k]).0@ == e) implies held_path(l, k, x, roots)
                != entry_path_spec(c, v, e, x, roots) by {
            assert(gs[m].2@[k] == l.2@[k]);
        }
        assert forall|i: int, j: int| 0 <= i < j < l.2@.len() implies (#[trigger] l.2@[i]).0@ != (#[trigger] l.2@[j]).0@ by {
            assert(gs[m].2@[i] == l.2@[i] && gs[m].2@[j] == l.2@[j]);
        }
        lemma_last_write_group(l, x, roots, c, v, e, l.2@.len() as int);
        assert(l.2@.take(l.2@.len() as int) =~= l.2@);
        lemma_last_write_concat(group_steps(pre, x), write_steps(l.0@, l.1, x, l.2@), p, roots);
        assert forall|g: int, k: int|
            0 <= g < gs.len() && 0 <= k < gs[g].2@.len() && gs[g].0@ == c && gs[g].1 == v && (
            #[trigger] gs[g].2@[k]).0@ == e implies last_write(group_steps(gs, x), p, roots) == unescape_result(gs[g].2@[k].1@) by {
            if g < m {
                assert(pre[g] == gs[g]);
                assert(pre[g].2@[k].0@ == e);
                if l.0@ == c && l.1 == v {
                    assert(gs[g].0@ == gs[m].0@ && gs[g].1 == gs[m].1);
                }
                assert forall|kk: int| 0 <= kk < l.2@.len() implies !(l.0@ == c && l.1 == v && (#[trigger] l.2@[kk]).0@ == e) by {
                    if l.0@ == c && l.1 == v {
                        assert(gs[g].0@ == gs[m].0@ && gs[g].1 == gs[m].1);
                    }
                }
            } else {
                assert(l.2@[k].0@ == e);
            }
        }
        if !groups_hold(gs, c, v, e) {
            assert forall|kk: int| 0 <= kk < l.2@.len() implies !(l.0@ == c && l.1 == v && (#[trigger] l.2@[kk]).0@ == e) by {
                if l.0@ == c && l.1 == v && l.2@[kk].0@ == e {
                    assert(gs[m].2@[kk].0@ == e);
                }
            }
            if groups_hold(pre, c, v, e) {
                let (g, k) = choose|g: int, k: int|
                    0 <= g < pre.len() && 0 <= k < pre[g].2@.len() && pre[g].0@ == c && pre[g].1 == v && (
                    #[trigger] pre[g].2@[k]).0@ == e;
                assert(pre[g] == gs[g]);
                assert(gs[g].2@[k].0@ == e);
            }
        }
    }
}

/// Restoring a backup: running the write operations that a backup built from
/// the found files, on any store (an empty one included), leaves each found
/// entry with exactly the content last found for it, backslashes included.
/// This holds where the category resolves and no other backed-up entry
/// resolves to the same file.
pub proof fn lemma_backup_restores(
    found: Seq<(String, String)>,
    gs: Seq<Group>,
    ops: Seq<Entry>,
    xdg: Seq<char>,
    roots: XdgRoots,
    files: Files,
    sum: Summary,
    c: Seq<char>,
    v: u64,
    e: Seq<char>,
)
    requires
        backup_of(gs, found_records(found)),
        ops.len() == gs.len(),
        forall|i: int| 0 <= i < ops.len() ==> is_write_of(#[trigger] ops[i], gs[i], xdg),
        store_root_spec(xdg, roots) is Ok,
        latest(found_records(found), c, v, e) is Some,
        forall|g: int, k: int|
            0 <= g < gs.len() && 0 <= k < gs[g].2@.len() && !(gs[g].0@ == c && gs[g].1 == v && (
            #[trigger] gs[g].2@[k]).0@ == e) ==> held_path(gs[g], k, xdg, roots) != entry_path_spec(c, v, e, xdg, roots),
    ensures
        plan_spec(ops) is Some,
        content_at(
            run_steps(files, plan_spec(ops)->Some_0, roots, sum).0,
            entry_path_spec(c, v, e, xdg, roots)->Ok_0,
        ) == latest(found_records(found), c, v, e),
{
    let recs = found_records(found);
    let p = entry_path_spec(c, v, e, xdg, roots)->Ok_0;
    lemma_plan_of_writes(ops, gs, xdg);
    lemma_last_write_groups(gs, xdg, roots, c, v, e);
    assert(groups_hold(gs, c, v, e));
    let (g, k) = choose|g: int, k: int|
        0 <= g < gs.len() && 0 <= k < gs[g].2@.len() && gs[g].0@ == c && gs[g].1 == v && (#[trigger] gs[g].2@[k]).0@ == e;
    assert(escaped_opt(latest(recs, gs[g].0@, gs[g].1, gs[g].2@[k].0@)) == Some(gs[g].2@[k].1@));
    lemma_halved_doubled(latest(recs, c, v, e)->Some_0);
    lemma_run_writes(files, group_steps(gs, xdg), roots, sum, p);
}

} // verus!
