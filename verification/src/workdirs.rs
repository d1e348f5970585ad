//! The scratch directories of runs on the command line: when one is in use,
//! and which may be removed.
use vstd::prelude::*;

use crate::paths::{
    file_name, is_inside, join_path, joined_path, law_name_stays_in_directory, lies_in, path_name,
};
use crate::table::{ascending, Table};
use crate::text::{
    dec, dec_string, is_digit, pad_left, pad_right, padded_left, padded_right, starts_with, views,
};

verus! {

/// One entry of the process table.
#[derive(Debug)]
pub struct ProcEntry {
    pub name: String,
    /// Where the open descriptors of a process lead; None where they cannot
    /// be listed, or where one of them cannot be read.
    pub fds: Option<Vec<Option<String>>>,
}

/// Whether an entry stands for a process: its name is a number.
pub open spec fn is_process(name: Seq<char>) -> bool {
    forall|i: int| 0 <= i < name.len() ==> is_digit(#[trigger] name[i])
}

/// Whether a process may be using `dir`: it has something open in there, or
/// what it has open cannot be seen.
pub open spec fn may_use(p: ProcEntry, dir: Seq<char>) -> bool {
    match p.fds {
        None => true,
        Some(fds) => exists|i: int|
            0 <= i < fds@.len() && match #[trigger] fds@[i] {
                None => true,
                Some(target) => lies_in(target@, dir),
            },
    }
}

/// Whether any process may be using `dir`, given the process table (None where
/// that cannot be read).
pub open spec fn in_use(proc: Option<Seq<ProcEntry>>, dir: Seq<char>) -> bool {
    match proc {
        None => true,
        Some(entries) => exists|i: int|
            0 <= i < entries.len() && is_process((#[trigger] entries[i]).name@) && may_use(
                entries[i],
                dir,
            ),
    }
}

fn names_process(name: &str) -> (r: bool)
    ensures
        r == is_process(name@),
{
    let v = crate::text::chars_of(name);
    let mut i: usize = 0;
    while i < v.len()
        invariant
            i <= v.len(),
            v@ == name@,
            forall|j: int| 0 <= j < i ==> is_digit(#[trigger] name@[j]),
        decreases v.len() - i,
    {
        let c = v[i];
        if !('0' <= c && c <= '9') {
            assert(!is_digit(name@[i as int]));
            return false;
        }
        i += 1;
    }
    true
}

fn uses(p: &ProcEntry, dir: &str) -> (r: bool)
    ensures
        r == may_use(*p, dir@),
{
    let fds = match &p.fds {
        None => {
            return true;
        },
        Some(fds) => fds,
    };
    let mut i: usize = 0;
    while i < fds.len()
        invariant
            i <= fds.len(),
            p.fds == Some(*fds),
            forall|j: int|
                0 <= j < i ==> match #[trigger] fds@[j] {
                    None => false,
                    Some(target) => !lies_in(target@, dir@),
                },
        decreases fds.len() - i,
    {
        let hit = match &fds[i] {
            None => true,
            Some(target) => is_inside(target.as_str(), dir),
        };
        if hit {
            assert(match fds@[i as int] {
                None => true,
                Some(target) => lies_in(target@, dir@),
            });
            return true;
        }
        i += 1;
    }
    false
}

/// Whether a process may be using the directory. Where that cannot be told it
/// counts as in use.
pub fn workdir_has_live_process(proc: &Option<Vec<ProcEntry>>, dir: &str) -> (r: bool)
    ensures
        r == in_use(match *proc {
            Some(v) => Some(v@),
            None => None,
        }, dir@),
{
    let entries = match proc {
        None => {
            return true;
        },
        Some(entries) => entries,
    };
    let mut i: usize = 0;
    while i < entries.len()
        invariant
            i <= entries.len(),
            *proc == Some(*entries),
            forall|j: int|
                0 <= j < i ==> !(is_process((#[trigger] entries@[j]).name@) && may_use(
                    entries@[j],
                    dir@,
                )),
        decreases entries.len() - i,
    {
        if names_process(entries[i].name.as_str()) && uses(&entries[i], dir) {
            assert(is_process(entries@[i as int].name@) && may_use(entries@[i as int], dir@));
            return true;
        }
        i += 1;
    }
    false
}

// ---------------------------------------------------------------------
// Before a run
// ---------------------------------------------------------------------

/// Whether the directory of a run stands in its way: it is in use, or it is
/// there and not one that runs are given.
pub open spec fn workdir_refused(work_dir: Seq<char>, present: bool, live: bool) -> bool {
    &&& present
    &&& live || !("/tmp/forkd-fork-"@.is_prefix_of(work_dir)
        || "/tmp/forkd-parent-"@.is_prefix_of(work_dir))
}

/// What is said where it does.
pub open spec fn workdir_text(work_dir: Seq<char>, op: Seq<char>, tag: Seq<char>, live: bool) -> Seq<char> {
    if live {
        "another `forkd "@ + op + "` looks active on tag '"@ + tag + "' — its work_dir at "@
            + work_dir
            + " still has a live Firecracker process holding sockets. Wait for the other run to finish (or kill it) before re-running. If you're sure nothing's alive, run `forkd cleanup --yes`."@
    } else {
        "internal error: preflight refusing unexpected path: "@ + work_dir
    }
}

/// Prepares the directory of a run on `tag`: says whether a leftover has to be
/// removed first, or why there can be no run.
pub fn preflight_workdir(work_dir: &str, op: &str, tag: &str, present: bool, live: bool) -> (r: Result<
    bool,
    String,
>)
    ensures
        match r {
            Ok(stale) => !workdir_refused(work_dir@, present, live) && stale == present,
            Err(e) => workdir_refused(work_dir@, present, live) && e@ == workdir_text(
                work_dir@,
                op@,
                tag@,
                live,
            ),
        },
{
    if !present {
        return Ok(false);
    }
    if live {
        return Err(
            "another `forkd ".to_string().concat(op).concat("` looks active on tag '").concat(
                tag,
            ).concat("' — its work_dir at ").concat(work_dir).concat(
                " still has a live Firecracker process holding sockets. Wait for the other run to finish (or kill it) before re-running. If you're sure nothing's alive, run `forkd cleanup --yes`.",
            ),
        );
    }
    if !starts_with(work_dir, "/tmp/forkd-fork-") && !starts_with(work_dir, "/tmp/forkd-parent-") {
        return Err(
            "internal error: preflight refusing unexpected path: ".to_string().concat(work_dir),
        );
    }
    Ok(true)
}

/// What to do with the directory of a run that is over.
#[derive(Debug, Clone, Copy, PartialEq, Eq, Structural)]
pub enum WorkdirEnd {
    Nothing,
    Refuse,
    Remove,
}

/// Only a directory that a run was given is removed.
pub fn cleanup_workdir(work_dir: &str, present: bool) -> (r: WorkdirEnd)
    ensures
        r == (if !present {
            WorkdirEnd::Nothing
        } else if "/tmp/forkd-"@.is_prefix_of(work_dir@) {
            WorkdirEnd::Remove
        } else {
            WorkdirEnd::Refuse
        }),
{
    if !present {
        WorkdirEnd::Nothing
    } else if starts_with(work_dir, "/tmp/forkd-") {
        WorkdirEnd::Remove
    } else {
        WorkdirEnd::Refuse
    }
}

// ---------------------------------------------------------------------
// Sweeping up
// ---------------------------------------------------------------------

/// Whether a name is that of something a run leaves in the temporary
/// directory.
pub open spec fn is_scratch(name: Seq<char>) -> bool {
    ||| "forkd-fork-"@.is_prefix_of(name)
    ||| "forkd-parent-"@.is_prefix_of(name)
    ||| "forkd-unpack-"@.is_prefix_of(name)
    ||| "forkd-pull-"@.is_prefix_of(name)
}

pub fn is_scratch_name(name: &str) -> (r: bool)
    ensures
        r == is_scratch(name@),
{
    starts_with(name, "forkd-fork-") || starts_with(name, "forkd-parent-") || starts_with(
        name,
        "forkd-unpack-",
    ) || starts_with(name, "forkd-pull-")
}

/// Whether `path` is a leftover among `names` in `tmp`.
pub open spec fn is_leftover(tmp: Seq<char>, names: Seq<Seq<char>>, path: Seq<char>) -> bool {
    exists|i: int|
        0 <= i < names.len() && is_scratch(#[trigger] names[i]) && path == joined_path(
            tmp,
            names[i],
        )
}

/// The leftovers among the entries of the temporary directory, in order.
pub fn leftovers(tmp: &str, names: &Vec<String>) -> (r: Vec<String>)
    ensures
        ascending(views(r@)),
        forall|p: Seq<char>| #[trigger]
            views(r@).contains(p) <==> is_leftover(tmp@, views(names@), p),
{
    let ghost all = views(names@);
    let mut found: Table<()> = Table::new();
    let mut i: usize = 0;
    while i < names.len()
        invariant
            i <= names.len(),
            all == views(names@),
            forall|p: Seq<char>| #[trigger]
                found@.contains_key(p) <==> is_leftover(tmp@, all.take(i as int), p),
        decreases names.len() - i,
    {
        let ghost before = found@;
        let ghost part = all.take(i as int);
        let ghost next = all.take(i + 1);
        let ghost name = names@[i as int]@;
        assert(next =~= part.push(name));
        if is_scratch_name(names[i].as_str()) {
            let path = join_path(tmp, names[i].as_str());
            let _ = found.insert(path, ());
        }
        proof {
            assert forall|p: Seq<char>| #[trigger]
                found@.contains_key(p) <==> is_leftover(tmp@, next, p) by {
                if is_leftover(tmp@, part, p) {
                    let j = choose|j: int|
                        0 <= j < part.len() && is_scratch(#[trigger] part[j]) && p == joined_path(
                            tmp@,
                            part[j],
                        );
                    assert(next[j] == part[j]);
                    assert(is_leftover(tmp@, next, p));
                }
                if is_scratch(name) && p == joined_path(tmp@, name) {
                    assert(next[i as int] == name);
                    assert(is_leftover(tmp@, next, p));
                }
                if is_leftover(tmp@, next, p) {
                    let j = choose|j: int|
                        0 <= j < next.len() && is_scratch(#[trigger] next[j]) && p == joined_path(
                            tmp@,
                            next[j],
                        );
                    if j < i {
                        assert(part[j] == next[j]);
                        assert(is_leftover(tmp@, part, p));
                    }
                }
                assert(before.contains_key(p) <==> is_leftover(tmp@, part, p));
            }
        }
        i += 1;
    }
    assert(all.take(i as int) =~= all);
    found.key_list()
}

/// The leftovers that nothing is using. `live[i]` says whether leftover `i` is
/// in use.
pub open spec fn idle(paths: Seq<Seq<char>>, live: Seq<bool>) -> Seq<Seq<char>>
    decreases paths.len(),
{
    if paths.len() == 0 || live.len() < paths.len() {
        Seq::empty()
    } else {
        let rest = idle(paths.drop_last(), live.take(paths.len() - 1));
        if live[paths.len() - 1] {
            rest
        } else {
            rest.push(paths.last())
        }
    }
}

pub fn removable(paths: &Vec<String>, live: &Vec<bool>) -> (r: Vec<String>)
    requires
        live@.len() == paths@.len(),
    ensures
        views(r@) == idle(views(paths@), live@),
{
    let ghost all = views(paths@);
    let mut out: Vec<String> = Vec::new();
    let mut i: usize = 0;
    assert(views(out@) =~= idle(all.take(0), live@.take(0)));
    while i < paths.len()
        invariant
            i <= paths.len(),
            all == views(paths@),
            live@.len() == paths@.len(),
            views(out@) == idle(all.take(i as int), live@.take(i as int)),
        decreases paths.len() - i,
    {
        let ghost before = views(out@);
        proof {
            let p = all.take(i + 1);
            let l = live@.take(i + 1);
            assert(p.drop_last() =~= all.take(i as int));
            assert(l.take(i as int) =~= live@.take(i as int));
            assert(p.last() == paths@[i as int]@);
            assert(l[i as int] == live@[i as int]);
        }
        if !live[i] {
            let p = paths[i].clone();
            out.push(p);
            assert(views(out@) =~= before.push(p@));
        }
        i += 1;
    }
    assert(all.take(i as int) =~= all);
    assert(live@.take(i as int) =~= live@);
    out
}

/// Whether a leftover may be removed after all.
#[derive(Debug, Clone, Copy, PartialEq, Eq, Structural)]
pub enum RemovalCheck {
    Remove,
    /// Its last component is no name.
    NoName,
    /// It lies elsewhere, or is not named like a leftover.
    Unexpected,
}

pub open spec fn removal_of(tmp: Seq<char>, path: Seq<char>) -> RemovalCheck {
    match path_name(path) {
        None => RemovalCheck::NoName,
        Some(name) => if (tmp + "/"@).is_prefix_of(path) && is_scratch(name) {
            RemovalCheck::Remove
        } else {
            RemovalCheck::Unexpected
        },
    }
}

pub fn check_removal(tmp: &str, path: &str) -> (r: RemovalCheck)
    ensures
        r == removal_of(tmp@, path@),
{
    match file_name(path) {
        None => RemovalCheck::NoName,
        Some(name) => {
            let prefix = tmp.to_string().concat("/");
            if starts_with(path, prefix.as_str()) && is_scratch_name(name.as_str()) {
                RemovalCheck::Remove
            } else {
                RemovalCheck::Unexpected
            }
        },
    }
}

/// How a leftover is listed. `size` is how much it holds, in words.
pub fn leftover_line(path: &str, size: &str, live: bool) -> (r: String)
    ensures
        r@ == (if live {
            "  SKIP "@ + pad_right(path@, 48, ' ') + "  "@ + pad_left(size@, 10, ' ')
                + "  (live socket — a forkd run looks active)"@
        } else {
            "  DEL  "@ + pad_right(path@, 48, ' ') + "  "@ + pad_left(size@, 10, ' ')
        }),
{
    let p = padded_right(path, 48, ' ');
    let s = padded_left(size, 10, ' ');
    if live {
        "  SKIP ".to_string().concat(p.as_str()).concat("  ").concat(s.as_str()).concat(
            "  (live socket — a forkd run looks active)",
        )
    } else {
        "  DEL  ".to_string().concat(p.as_str()).concat("  ").concat(s.as_str())
    }
}

/// What a sweep does after listing.
#[derive(Debug, PartialEq, Eq)]
pub enum Sweep {
    /// There is nothing to list.
    Nothing(String),
    /// Everything is in use.
    AllLive(String),
    /// Leave was not given.
    DryRun(String),
    Delete,
}

/// What a sweep does, given how many leftovers there are and how many of them
/// nothing is using.
pub fn plan_sweep(tmp: &str, found: usize, idle: usize, yes: bool) -> (r: Sweep)
    ensures
        if found == 0 {
            r matches Sweep::Nothing(t) && t@ == "no orphan work_dirs under "@ + tmp@
        } else if idle == 0 {
            r matches Sweep::AllLive(t) && t@ == "nothing safe to remove."@
        } else if !yes {
            r matches Sweep::DryRun(t) && t@ == "dry run — pass `--yes` to delete the "@ + dec(
                idle as nat,
            ) + " dir(s) marked DEL above."@
        } else {
            r == Sweep::Delete
        },
{
    if found == 0 {
        Sweep::Nothing("no orphan work_dirs under ".to_string().concat(tmp))
    } else if idle == 0 {
        Sweep::AllLive("nothing safe to remove.".to_string())
    } else if !yes {
        let n = dec_string(idle as u64);
        Sweep::DryRun(
            "dry run — pass `--yes` to delete the ".to_string().concat(n.as_str()).concat(
                " dir(s) marked DEL above.",
            ),
        )
    } else {
        Sweep::Delete
    }
}

/// The sum of file sizes.
pub open spec fn sum_of(sizes: Seq<u64>) -> nat
    decreases sizes.len(),
{
    if sizes.len() == 0 {
        0
    } else {
        sum_of(sizes.drop_last()) + sizes.last() as nat
    }
}

proof fn lemma_sum_monotone(sizes: Seq<u64>, k: int)
    requires
        0 <= k <= sizes.len(),
    ensures
        sum_of(sizes.take(k)) <= sum_of(sizes),
    decreases sizes.len(),
{
    if k == sizes.len() {
        assert(sizes.take(k) =~= sizes);
    } else {
        lemma_sum_monotone(sizes.drop_last(), k);
        assert(sizes.drop_last().take(k) =~= sizes.take(k));
    }
}

/// How much a directory holds, from the sizes of the files in it.
pub fn dir_size_bytes(sizes: &Vec<u64>) -> (r: u64)
    requires
        sum_of(sizes@) <= u64::MAX,
    ensures
        r == sum_of(sizes@),
{
    let mut total: u64 = 0;
    let mut i: usize = 0;
    while i < sizes.len()
        invariant
            i <= sizes.len(),
            sum_of(sizes@) <= u64::MAX,
            total == sum_of(sizes@.take(i as int)),
        decreases sizes.len() - i,
    {
        proof {
            lemma_sum_monotone(sizes@, i + 1);
            assert(sizes@.take(i + 1).drop_last() =~= sizes@.take(i as int));
        }
        total += sizes[i];
        i += 1;
    }
    assert(sizes@.take(i as int) =~= sizes@);
    total
}

/// What a sweep has found it may remove, unless the temporary directory is
/// written with a separator at its end.
pub proof fn law_leftovers_can_be_removed(tmp: Seq<char>, name: Seq<char>)
    requires
        is_scratch(name),
        !name.contains('/'),
        tmp.len() > 0,
        tmp.last() != '/',
    ensures
        removal_of(tmp, joined_path(tmp, name)) == RemovalCheck::Remove,
{
    reveal_strlit("forkd-fork-");
    reveal_strlit("forkd-parent-");
    reveal_strlit("forkd-unpack-");
    reveal_strlit("forkd-pull-");
    let p = if "forkd-fork-"@.is_prefix_of(name) {
        "forkd-fork-"@
    } else if "forkd-parent-"@.is_prefix_of(name) {
        "forkd-parent-"@
    } else if "forkd-unpack-"@.is_prefix_of(name) {
        "forkd-unpack-"@
    } else {
        "forkd-pull-"@
    };
    assert(name.subrange(0, p.len() as int)[0] == p[0]);
    assert(name.len() > 2 && name[0] == 'f');
    law_name_stays_in_directory(tmp, name);
    let path = tmp + "/"@ + name;
    assert((tmp + "/"@) =~= path.subrange(0, (tmp + "/"@).len() as int));
}

/// A sweep removes a leftover exactly where nothing uses it.
pub proof fn law_sweep_spares_what_is_in_use(
    paths: Seq<Seq<char>>,
    live: Seq<bool>,
    i: int,
    p: Seq<char>,
)
    requires
        paths.len() == live.len(),
    ensures
        0 <= i < paths.len() && !live[i] ==> idle(paths, live).contains(paths[i]),
        idle(paths, live).contains(p) ==> exists|j: int|
            0 <= j < paths.len() && paths[j] == p && !#[trigger] live[j],
    decreases paths.len(),
{
    if paths.len() > 0 {
        let n = paths.len() - 1;
        let before = paths.drop_last();
        let states = live.take(n);
        law_sweep_spares_what_is_in_use(before, states, i, p);
        let rest = idle(before, states);
        let all = idle(paths, live);
        if 0 <= i < n && !live[i] {
            assert(before[i] == paths[i] && states[i] == live[i]);
            let k = choose|k: int| 0 <= k < rest.len() && rest[k] == paths[i];
            assert(all[k] == paths[i]);
        }
        if i == n && !live[n] {
            assert(all.last() == paths[n]);
        }
        if all.contains(p) {
            let k = choose|k: int| 0 <= k < all.len() && all[k] == p;
            if k < rest.len() {
                assert(rest[k] == p);
                let j = choose|j: int|
                    0 <= j < before.len() && before[j] == p && !#[trigger] states[j];
                assert(paths[j] == p && live[j] == states[j]);
            } else {
                assert(paths[n] == p && !live[n]);
            }
        }
    }
}

} // verus!
