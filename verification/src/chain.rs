//! Chains of diff snapshots: which tag builds on which, what depends on a
//! tag, and what a tag is built from.
//!
//! What the daemon sees on disk comes in as a table of [`DirFacts`], one entry
//! for each tag it looked at.
use vstd::prelude::*;
use vstd::set_lib::lemma_len_subset;

use crate::api::{opt_view, server_error, ApiError, SnapshotInfo};
use crate::fork::Snapshot;
use crate::paths::{join_path, joined_path};
use crate::state::{holds_str, Registry};
use crate::table::{ascending, lemma_take_next_contains, Table};
use crate::tags::{is_safe_tag, safe_tag};
use crate::text::{str_eq, views};

verus! {

/// What is on disk for one tag.
#[derive(Debug)]
pub struct DirFacts {
    /// Whether `<root>/<tag>/vmstate` is there.
    pub on_disk: bool,
    /// The `snapshot.json` of the tag's directory, where it can be read.
    pub meta: Option<Snapshot>,
}

/// What the daemon knows: registered snapshots and what is on disk.
pub ghost struct Known {
    pub registered: Map<Seq<char>, SnapshotInfo>,
    pub disk: Map<Seq<char>, DirFacts>,
}

pub open spec fn known(registry: Registry, disk: Table<DirFacts>) -> Known {
    Known { registered: registry.snapshots(), disk: disk@ }
}

impl Known {
    /// Whether `tag` names a snapshot: it is registered, or its directory
    /// holds a vmstate.
    pub open spec fn resolves(self, tag: Seq<char>) -> bool {
        ||| self.registered.contains_key(tag)
        ||| self.disk.contains_key(tag) && self.disk[tag].on_disk
    }

    /// The directory of `tag`: the registered one, else the one below `root`.
    pub open spec fn dir_of(self, root: Seq<char>, tag: Seq<char>) -> Seq<char> {
        if self.registered.contains_key(tag) {
            self.registered[tag].dir@
        } else {
            joined_path(root, tag)
        }
    }

    /// The tag that `tag` is a diff on top of, if its metadata names one.
    pub open spec fn parent(self, tag: Seq<char>) -> Option<Seq<char>> {
        if self.disk.contains_key(tag) {
            match self.disk[tag].meta {
                Some(m) => opt_view(m.parent_tag),
                None => None,
            }
        } else {
            None
        }
    }

    /// Whether the daemon counts `tag` among its snapshots.
    pub open spec fn listed(self, tag: Seq<char>) -> bool {
        ||| exists|k: Seq<char>| #[trigger]
            self.registered.contains_key(k) && self.registered[k].tag@ == tag
        ||| self.disk.contains_key(tag) && self.disk[tag].on_disk && safe_tag(tag)
    }

    /// Whether `tag` is a snapshot recorded as a diff on top of `parent`.
    pub open spec fn depends(self, tag: Seq<char>, parent: Seq<char>) -> bool {
        &&& self.listed(tag)
        &&& tag != parent
        &&& self.resolves(tag)
        &&& self.parent(tag) == Some(parent)
    }
}

/// The snapshot that a directory without readable metadata holds.
pub open spec fn is_fallback(s: Snapshot, dir: Seq<char>) -> bool {
    &&& s.vmstate@ == joined_path(dir, "vmstate"@)
    &&& s.memory@ == joined_path(dir, "memory.bin"@)
    &&& s.volumes@.len() == 0
    &&& s.parent_tag is None
    &&& s.parent_content_hash is None
}

/// The snapshot in `dir`: what its metadata says, or a plain one where there
/// is none.
pub fn load_snapshot_with_fallback(dir: &str, meta: &Option<Snapshot>) -> (r: Snapshot)
    ensures
        match meta {
            Some(m) => r.same(*m),
            None => is_fallback(r, dir@),
        },
{
    match meta {
        Some(m) => m.copy(),
        None => Snapshot {
            vmstate: join_path(dir, "vmstate"),
            memory: join_path(dir, "memory.bin"),
            volumes: Vec::new(),
            parent_tag: None,
            parent_content_hash: None,
        },
    }
}

/// A tag that names no snapshot.
#[derive(Debug, PartialEq, Eq)]
pub struct UnknownTag {
    pub tag: String,
    pub root: String,
}

impl UnknownTag {
    pub open spec fn text(self) -> Seq<char> {
        "snapshot tag `"@ + self.tag@ + "` not found in registry or under "@ + self.root@
    }

    pub fn message(&self) -> (r: String)
        ensures
            r@ == self.text(),
    {
        "snapshot tag `".to_string().concat(self.tag.as_str()).concat(
            "` not found in registry or under ",
        ).concat(self.root.as_str())
    }
}

/// The directory of a tag: the registered one, else the one below the
/// snapshot root if a vmstate is there.
pub fn resolve_snap_dir(registry: &Registry, root: &str, disk: &Table<DirFacts>, tag: &str) -> (r:
    Result<String, UnknownTag>)
    ensures
        match r {
            Ok(dir) => known(*registry, *disk).resolves(tag@) && dir@ == known(
                *registry,
                *disk,
            ).dir_of(root@, tag@),
            Err(e) => !known(*registry, *disk).resolves(tag@) && e.tag@ == tag@ && e.root@ == root@,
        },
{
    match registry.get_snapshot(tag) {
        Some(s) => Ok(s.dir),
        None => {
            let there = match disk.get(tag) {
                Some(f) => f.on_disk,
                None => false,
            };
            if there {
                Ok(join_path(root, tag))
            } else {
                Err(UnknownTag { tag: tag.to_string(), root: root.to_string() })
            }
        },
    }
}

/// The snapshot of a tag.
pub fn lookup_snapshot_for_chain(
    registry: &Registry,
    root: &str,
    disk: &Table<DirFacts>,
    tag: &str,
) -> (r: Result<Snapshot, UnknownTag>)
    ensures
        match r {
            Ok(s) => {
                &&& known(*registry, *disk).resolves(tag@)
                &&& opt_view(s.parent_tag) == known(*registry, *disk).parent(tag@)
                &&& if disk@.contains_key(tag@) && disk@[tag@].meta is Some {
                    s.same(disk@[tag@].meta->0)
                } else {
                    is_fallback(s, known(*registry, *disk).dir_of(root@, tag@))
                }
            },
            Err(e) => !known(*registry, *disk).resolves(tag@) && e.tag@ == tag@ && e.root@ == root@,
        },
{
    match resolve_snap_dir(registry, root, disk, tag) {
        Ok(dir) => match disk.get(tag) {
            Some(f) => Ok(load_snapshot_with_fallback(dir.as_str(), &f.meta)),
            None => Ok(load_snapshot_with_fallback(dir.as_str(), &None)),
        },
        Err(e) => Err(e),
    }
}

fn parent_tag(disk: &Table<DirFacts>, tag: &str) -> (r: Option<String>)
    ensures
        opt_view(r) == (Known { registered: Map::empty(), disk: disk@ }).parent(tag@),
{
    match disk.get(tag) {
        Some(f) => match &f.meta {
            Some(m) => crate::api::copy_opt(&m.parent_tag),
            None => None,
        },
        None => None,
    }
}

/// Every snapshot that the daemon can see, registered or on disk, in order.
pub fn enumerate_all_snapshot_tags(registry: &Registry, disk: &Table<DirFacts>) -> (r: Vec<String>)
    ensures
        ascending(views(r@)),
        forall|t: Seq<char>| #[trigger]
            views(r@).contains(t) <==> known(*registry, *disk).listed(t),
{
    let ghost kn = known(*registry, *disk);
    let mut out: Table<()> = Table::new();
    let infos = registry.list_snapshots();
    let ghost rk = registry.state.snapshots.keys();
    let mut i: usize = 0;
    while i < infos.len()
        invariant
            i <= infos.len(),
            kn.registered == registry.snapshots(),
            rk == registry.state.snapshots.keys(),
            infos@ == rk.map_values(|k: Seq<char>| registry.snapshots()[k]),
            forall|k: Seq<char>| #[trigger] rk.contains(k) <==> registry.snapshots().contains_key(k),
            forall|t: Seq<char>| #[trigger] out@.contains_key(t) ==> kn.listed(t),
            forall|j: int| 0 <= j < i ==> out@.contains_key((#[trigger] infos@[j]).tag@),
        decreases infos.len() - i,
    {
        proof {
            let k = rk[i as int];
            assert(rk.contains(k));
            assert(kn.registered.contains_key(k) && kn.registered[k].tag@ == infos@[i as int].tag@);
        }
        let _ = out.insert(infos[i].tag.clone(), ());
        i += 1;
    }
    let names = disk.key_list();
    let ghost nk = views(names@);
    let mut j: usize = 0;
    while j < names.len()
        invariant
            j <= names.len(),
            nk == views(names@),
            kn == known(*registry, *disk),
            forall|k: Seq<char>| #[trigger] nk.contains(k) <==> disk@.contains_key(k),
            forall|t: Seq<char>| #[trigger] out@.contains_key(t) ==> kn.listed(t),
            forall|m: int| 0 <= m < infos@.len() ==> out@.contains_key((#[trigger] infos@[m]).tag@),
            forall|t: Seq<char>| #[trigger]
                nk.take(j as int).contains(t) && disk@[t].on_disk && safe_tag(t)
                    ==> out@.contains_key(t),
        decreases names.len() - j,
    {
        let ghost before = out@;
        let ghost key = nk[j as int];
        proof {
            assert(key == names@[j as int]@);
            assert(nk.contains(key));
        }
        let there = match disk.get(names[j].as_str()) {
            Some(f) => f.on_disk,
            None => false,
        };
        if there && is_safe_tag(names[j].as_str()) {
            let _ = out.insert(names[j].clone(), ());
        }
        proof {
            assert forall|t: Seq<char>| #[trigger]
                nk.take(j + 1).contains(t) && disk@[t].on_disk && safe_tag(
                    t,
                ) implies out@.contains_key(t) by {
                lemma_take_next_contains(nk, j as int, t);
                if t != key {
                    assert(nk.take(j as int).contains(t));
                    assert(before.contains_key(t));
                }
            }
        }
        j += 1;
    }
    let r = out.key_list();
    proof {
        assert(nk.take(j as int) =~= nk);
        assert forall|t: Seq<char>| #[trigger] views(r@).contains(t) <==> kn.listed(t) by {
            assert(out.keys().contains(t) <==> out@.contains_key(t));
            if kn.listed(t) {
                if exists|k: Seq<char>| #[trigger]
                    kn.registered.contains_key(k) && kn.registered[k].tag@ == t {
                    let k = choose|k: Seq<char>| #[trigger]
                        kn.registered.contains_key(k) && kn.registered[k].tag@ == t;
                    assert(rk.contains(k));
                    let m = choose|m: int| 0 <= m < rk.len() && rk[m] == k;
                    assert(infos@[m].tag@ == t);
                } else {
                    assert(nk.contains(t));
                }
            }
        }
    }
    r
}

/// The snapshots recorded as diffs on top of `parent`, in order.
pub fn find_dependents(registry: &Registry, disk: &Table<DirFacts>, parent: &str) -> (r: Vec<String>)
    ensures
        ascending(views(r@)),
        forall|t: Seq<char>| #[trigger]
            views(r@).contains(t) <==> known(*registry, *disk).depends(t, parent@),
{
    let ghost kn = known(*registry, *disk);
    let tags = enumerate_all_snapshot_tags(registry, disk);
    let ghost all = views(tags@);
    let mut out: Vec<String> = Vec::new();
    let mut i: usize = 0;
    assert(views(out@) =~= Seq::<Seq<char>>::empty());
    while i < tags.len()
        invariant
            i <= tags.len(),
            kn == known(*registry, *disk),
            all == views(tags@),
            ascending(all),
            forall|t: Seq<char>| #[trigger] all.contains(t) <==> kn.listed(t),
            ascending(views(out@)),
            forall|j: int, m: int|
                0 <= j < out@.len() && i <= m < all.len() ==> crate::text::str_lt(
                    (#[trigger] out@[j])@,
                    #[trigger] all[m],
                ),
            forall|t: Seq<char>| #[trigger]
                views(out@).contains(t) <==> all.take(i as int).contains(t) && kn.depends(
                    t,
                    parent@,
                ),
        decreases tags.len() - i,
    {
        let ghost before = out@;
        let ghost key = all[i as int];
        proof {
            assert(key == tags@[i as int]@);
            assert(all.contains(key));
        }
        let mut take = false;
        if !str_eq(tags[i].as_str(), parent) {
            let resolves = registry.get_snapshot(tags[i].as_str()).is_some() || match disk.get(
                tags[i].as_str(),
            ) {
                Some(f) => f.on_disk,
                None => false,
            };
            if resolves {
                match parent_tag(disk, tags[i].as_str()) {
                    Some(p) => {
                        take = str_eq(p.as_str(), parent);
                    },
                    None => {},
                }
            }
        }
        assert(take == kn.depends(key, parent@));
        if take {
            let t = tags[i].clone();
            out.push(t);
            proof {
                assert(views(out@) =~= views(before).push(key));
            }
        }
        proof {
            let vo = views(out@);
            assert(ascending(vo)) by {
                assert forall|a: int, b: int| 0 <= a < b < vo.len() implies crate::text::str_lt(
                    #[trigger] vo[a],
                    #[trigger] vo[b],
                ) by {
                    if b < before.len() {
                        assert(views(before)[a] == vo[a] && views(before)[b] == vo[b]);
                    } else {
                        assert(vo[b] == all[i as int]);
                        assert(vo[a] == before[a]@);
                    }
                }
            }
            assert forall|j: int, m: int|
                0 <= j < out@.len() && i + 1 <= m < all.len() implies crate::text::str_lt(
                (#[trigger] out@[j])@,
                #[trigger] all[m],
            ) by {
                if j < before.len() {
                    assert(out@[j] == before[j]);
                } else {
                    assert(out@[j]@ == all[i as int]);
                }
            }
            assert forall|t: Seq<char>| #[trigger]
                views(out@).contains(t) <==> all.take(i + 1).contains(t) && kn.depends(
                    t,
                    parent@,
                ) by {
                lemma_take_next_contains(all, i as int, t);
                if take {
                    lemma_push_contains(views(before), key, t);
                }
                assert(views(before).contains(t) <==> all.take(i as int).contains(t) && kn.depends(
                    t,
                    parent@,
                ));
            }
        }
        i += 1;
    }
    proof {
        assert(all.take(i as int) =~= all);
        assert forall|t: Seq<char>| #[trigger]
            views(out@).contains(t) <==> kn.depends(t, parent@) by {
            assert(all.contains(t) <==> kn.listed(t));
        }
    }
    out
}

pub proof fn lemma_push_contains<A>(s: Seq<A>, a: A, x: A)
    ensures
        s.push(a).contains(x) <==> s.contains(x) || x == a,
{
    let t = s.push(a);
    if s.contains(x) {
        let i = choose|i: int| 0 <= i < s.len() && s[i] == x;
        assert(t[i] == x);
    }
    assert(t[s.len() as int] == a);
    if t.contains(x) {
        let i = choose|i: int| 0 <= i < t.len() && t[i] == x;
        if i < s.len() {
            assert(s[i] == x);
        }
    }
}

// ---------------------------------------------------------------------
// Ancestors
// ---------------------------------------------------------------------

/// `path` goes from `path[0]` down through parents, never twice through the
/// same tag.
pub open spec fn descent(kn: Known, path: Seq<Seq<char>>) -> bool {
    &&& path.len() > 0
    &&& path.no_duplicates()
    &&& forall|j: int|
        0 <= j < path.len() - 1 ==> kn.resolves(#[trigger] path[j]) && kn.parent(path[j]) == Some(
            path[j + 1],
        )
}

/// A descent that ends at a base snapshot.
pub open spec fn lineage(kn: Known, path: Seq<Seq<char>>) -> bool {
    &&& descent(kn, path)
    &&& kn.resolves(path.last())
    &&& kn.parent(path.last()) is None
}

/// Why a tag has no lineage.
#[derive(Debug, PartialEq, Eq)]
pub enum LineageError {
    /// The chain leads to a tag that names no snapshot.
    Missing(UnknownTag),
    /// The chain leads back to a tag that it went through.
    Cycle { tag: String, parent: String },
}

impl LineageError {
    pub open spec fn text(self) -> Seq<char> {
        match self {
            LineageError::Missing(u) => u.text(),
            LineageError::Cycle { tag, parent } => "chain cycle detected: snapshot `"@ + tag@
                + "` reaches `"@ + parent@ + "` twice"@,
        }
    }

    pub fn message(&self) -> (r: String)
        ensures
            r@ == self.text(),
    {
        match self {
            LineageError::Missing(u) => u.message(),
            LineageError::Cycle { tag, parent } => "chain cycle detected: snapshot `".to_string().concat(
                tag.as_str(),
            ).concat("` reaches `").concat(parent.as_str()).concat("` twice"),
        }
    }
}

/// What is said of a chain that does not lead to a base.
pub open spec fn unresolved_text(tag: Seq<char>, e: LineageError) -> Seq<char> {
    "resolve chain for `"@ + tag + "`: "@ + e.text()
}

/// The answer to a request about a chain that does not lead to a base.
pub fn unresolved(tag: &str, e: &LineageError) -> (r: ApiError)
    ensures
        r.is(500, unresolved_text(tag@, *e)),
{
    let why = e.message();
    let m = "resolve chain for `".to_string().concat(tag).concat("`: ").concat(why.as_str());
    server_error(m.as_str())
}

/// Whether the walk from `tag` cannot go on at the end of `path`.
pub open spec fn fails_at(
    kn: Known,
    root: Seq<char>,
    tag: Seq<char>,
    path: Seq<Seq<char>>,
    e: LineageError,
) -> bool {
    match e {
        LineageError::Missing(u) => {
            &&& !kn.resolves(path.last())
            &&& u.tag@ == path.last()
            &&& u.root@ == root
        },
        LineageError::Cycle { tag: t, parent } => {
            &&& kn.resolves(path.last())
            &&& kn.parent(path.last()) == Some(parent@)
            &&& path.contains(parent@)
            &&& t@ == tag
        },
    }
}

/// Whether the walk from `tag` fails with `e`.
pub open spec fn walk_fails(kn: Known, root: Seq<char>, tag: Seq<char>, e: LineageError) -> bool {
    exists|path: Seq<Seq<char>>| #[trigger]
        descent(kn, path) && path[0] == tag && fails_at(kn, root, tag, path, e)
}

proof fn lemma_no_more_than<A>(s: Seq<A>, set: Set<A>)
    requires
        s.no_duplicates(),
        set.finite(),
        forall|i: int| 0 <= i < s.len() ==> set.contains(#[trigger] s[i]),
    ensures
        s.len() <= set.len(),
{
    s.unique_seq_to_set();
    assert(s.to_set().subset_of(set)) by {
        assert forall|a: A| s.to_set().contains(a) implies set.contains(a) by {
            let i = choose|i: int| 0 <= i < s.len() && s[i] == a;
            assert(set.contains(s[i]));
        }
    }
    lemma_len_subset(s.to_set(), set);
}

/// The tags that can resolve at all.
spec fn universe(kn: Known) -> Set<Seq<char>> {
    kn.registered.dom().union(kn.disk.dom())
}

proof fn lemma_known_is_finite(registry: Registry, disk: Table<DirFacts>)
    ensures
        universe(known(registry, disk)).finite(),
{
    registry.state.snapshots.lemma_finite();
    disk.lemma_finite();
}

/// The chain that `tag` is built from, base first, and how many diffs that
/// makes.
pub fn compute_ancestors(registry: &Registry, root: &str, disk: &Table<DirFacts>, tag: &str) -> (r:
    Result<(Vec<String>, usize), LineageError>)
    ensures
        match r {
            Ok(p) => {
                &&& p.1 == p.0@.len()
                &&& lineage(known(*registry, *disk), seq![tag@] + views(p.0@).reverse())
            },
            Err(e) => walk_fails(known(*registry, *disk), root@, tag@, e),
        },
{
    let ghost kn = known(*registry, *disk);
    proof {
        lemma_known_is_finite(*registry, *disk);
    }
    let mut seen: Vec<String> = Vec::new();
    seen.push(tag.to_string());
    assert(views(seen@) =~= seq![tag@]);
    loop
        invariant
            kn == known(*registry, *disk),
            universe(kn).finite(),
            seen@.len() > 0,
            descent(kn, views(seen@)),
            views(seen@)[0] == tag@,
            seen@.len() - 1 <= universe(kn).len(),
        ensures
            lineage(kn, views(seen@)),
            views(seen@)[0] == tag@,
        decreases universe(kn).len() + 1 - seen@.len(),
    {
        let ghost path = views(seen@);
        let at: usize = seen.len() - 1;
        assert(path.last() == seen@[at as int]@);
        match resolve_snap_dir(registry, root, disk, seen[at].as_str()) {
            Err(u) => {
                let e = LineageError::Missing(u);
                assert(descent(kn, path) && path[0] == tag@);
                return Err(e);
            },
            Ok(_) => {},
        }
        match parent_tag(disk, seen[at].as_str()) {
            None => {
                break;
            },
            Some(p) => {
                if holds_str(&seen, p.as_str()) {
                    assert(descent(kn, path) && path[0] == tag@);
                    return Err(LineageError::Cycle { tag: tag.to_string(), parent: p });
                }
                proof {
                    let next = path.push(p@);
                    assert(views(seen@.push(p)) =~= next);
                    assert forall|j: int| 0 <= j < next.len() - 1 implies kn.resolves(
                        #[trigger] next[j],
                    ) && kn.parent(next[j]) == Some(next[j + 1]) by {
                        if j < path.len() - 1 {
                            assert(kn.resolves(path[j]));
                        }
                    }
                    assert(next.no_duplicates()) by {
                        assert forall|a: int, b: int|
                            0 <= a < next.len() && 0 <= b < next.len() && a != b implies next[a]
                            != next[b] by {
                            if a == path.len() {
                                assert(path.contains(path[b]));
                            } else if b == path.len() {
                                assert(path.contains(path[a]));
                            }
                        }
                    }
                    assert forall|i: int| 0 <= i < path.len() implies universe(kn).contains(
                        #[trigger] path[i],
                    ) by {
                        assert(kn.resolves(path[i]));
                    }
                    lemma_no_more_than(path, universe(kn));
                }
                seen.push(p);
            },
        }
    }
    let mut out: Vec<String> = Vec::new();
    let mut i: usize = seen.len();
    let ghost path = views(seen@);
    let ghost back = path.skip(1);
    assert(back.skip(i - 1) =~= Seq::<Seq<char>>::empty());
    assert(views(out@) =~= back.skip(i - 1).reverse());
    while i > 1
        invariant
            1 <= i <= seen@.len(),
            path == views(seen@),
            back == path.skip(1),
            views(out@) == back.skip(i - 1).reverse(),
        decreases i,
    {
        i -= 1;
        let t = seen[i].clone();
        proof {
            let tail = back.skip(i - 1);
            assert(tail =~= seq![t@] + back.skip(i as int));
            assert(tail.reverse() =~= back.skip(i as int).reverse().push(t@));
            assert(views(out@.push(t)) =~= views(out@).push(t@));
        }
        out.push(t);
    }
    proof {
        assert(back.skip(0) =~= back);
        assert(views(out@).reverse() =~= back);
        assert(seq![tag@] + views(out@).reverse() =~= path);
    }
    let depth: usize = out.len();
    Ok((out, depth))
}

/// A tag has one lineage.
pub proof fn law_lineage_is_unique(kn: Known, p: Seq<Seq<char>>, q: Seq<Seq<char>>)
    requires
        lineage(kn, p),
        lineage(kn, q),
        p[0] == q[0],
    ensures
        p == q,
{
    lemma_descents_agree(kn, p, q, p.len() as int);
    lemma_descents_agree(kn, q, p, q.len() as int);
    assert(p =~= q);
}

/// The walk from a tag that has a lineage does not fail.
pub proof fn law_lineage_excludes_failure(
    kn: Known,
    root: Seq<char>,
    path: Seq<Seq<char>>,
    e: LineageError,
)
    requires
        lineage(kn, path),
    ensures
        !walk_fails(kn, root, path[0], e),
{
    if walk_fails(kn, root, path[0], e) {
        let q = choose|q: Seq<Seq<char>>| #[trigger]
            descent(kn, q) && q[0] == path[0] && fails_at(kn, root, path[0], q, e);
        lemma_descents_agree(kn, q, path, q.len() as int);
        let n = q.len() - 1;
        assert(q[n] == path[n]);
        if n < path.len() - 1 {
            assert(kn.resolves(path[n]));
            assert(kn.parent(path[n]) == Some(path[n + 1]));
            if q.contains(path[n + 1]) {
                let j = choose|j: int| 0 <= j < q.len() && q[j] == path[n + 1];
                assert(path[j] == path[n + 1]);
            }
        }
    }
}

proof fn lemma_descents_agree(kn: Known, p: Seq<Seq<char>>, q: Seq<Seq<char>>, n: int)
    requires
        descent(kn, p),
        lineage(kn, q),
        p[0] == q[0],
        0 <= n <= p.len(),
    ensures
        n <= q.len(),
        forall|i: int| 0 <= i < n ==> p[i] == q[i],
    decreases n,
{
    if n > 1 {
        lemma_descents_agree(kn, p, q, n - 1);
        assert(kn.parent(p[n - 2]) == Some(p[n - 2 + 1]));
        if n - 1 == q.len() {
            assert(q.last() == p[n - 2]);
        } else {
            assert(kn.parent(q[n - 2]) == Some(q[n - 2 + 1]));
        }
    }
}

/// One snapshot of a chain.
#[derive(Debug)]
pub struct ChainLink {
    pub tag: String,
    pub snapshot: Snapshot,
}

/// The snapshot that a tag which resolves stands for.
pub open spec fn is_snapshot_of(snap: Snapshot, kn: Known, root: Seq<char>, tag: Seq<char>) -> bool {
    if kn.disk.contains_key(tag) && kn.disk[tag].meta is Some {
        snap.same(kn.disk[tag].meta->0)
    } else {
        is_fallback(snap, kn.dir_of(root, tag))
    }
}

/// The tags of a chain.
pub open spec fn link_tags(links: Seq<ChainLink>) -> Seq<Seq<char>> {
    links.map_values(|l: ChainLink| l.tag@)
}

/// Whether `links` are the snapshots that `tag` is assembled from: its base
/// first, itself last.
pub open spec fn is_chain(links: Seq<ChainLink>, kn: Known, root: Seq<char>, tag: Seq<char>) -> bool {
    &&& links.len() > 0
    &&& links.last().tag@ == tag
    &&& lineage(kn, link_tags(links).reverse())
    &&& forall|i: int|
        0 <= i < links.len() ==> is_snapshot_of(
            (#[trigger] links[i]).snapshot,
            kn,
            root,
            links[i].tag@,
        )
}

/// The snapshots that `tag` is assembled from: its base first, itself last.
pub fn resolve_chain(registry: &Registry, root: &str, disk: &Table<DirFacts>, tag: &str) -> (r:
    Result<Vec<ChainLink>, LineageError>)
    ensures
        match r {
            Ok(links) => is_chain(links@, known(*registry, *disk), root@, tag@),
            Err(e) => walk_fails(known(*registry, *disk), root@, tag@, e),
        },
{
    let ghost kn = known(*registry, *disk);
    let mut tags = match compute_ancestors(registry, root, disk, tag) {
        Ok(p) => p.0,
        Err(e) => {
            return Err(e);
        },
    };
    let ghost up = views(tags@);
    tags.push(tag.to_string());
    let ghost all = views(tags@);
    let ghost path = all.reverse();
    proof {
        assert(all =~= up.push(tag@));
        assert(path =~= seq![tag@] + up.reverse());
    }
    let mut links: Vec<ChainLink> = Vec::new();
    let mut i: usize = 0;
    while i < tags.len()
        invariant
            i <= tags.len(),
            kn == known(*registry, *disk),
            all == views(tags@),
            path == all.reverse(),
            lineage(kn, path),
            links@.len() == i,
            forall|j: int|
                0 <= j < i ==> (#[trigger] links@[j]).tag@ == all[j] && is_snapshot_of(
                    links@[j].snapshot,
                    kn,
                    root@,
                    links@[j].tag@,
                ),
        decreases tags.len() - i,
    {
        assert(all[i as int] == tags@[i as int]@);
        let ghost at = path.len() - 1 - i;
        assert(path[at] == all[i as int]);
        assert(kn.resolves(path[at])) by {
            if at < path.len() - 1 {
                assert(kn.parent(path[at]) == Some(path[at + 1]));
            }
        }
        match lookup_snapshot_for_chain(registry, root, disk, tags[i].as_str()) {
            Ok(snapshot) => {
                links.push(ChainLink { tag: tags[i].clone(), snapshot });
            },
            Err(_) => {
                return vstd::pervasive::unreached();
            },
        }
        i += 1;
    }
    proof {
        assert(link_tags(links@) =~= all);
        assert(all.last() == tag@);
    }
    Ok(links)
}

/// What is assembled: the base's memory with every later diff merged into it,
/// in order; and what each parent's memory file has to hash to first, where
/// its child recorded that.
#[derive(Debug)]
pub struct Assembly {
    pub base: String,
    pub diffs: Vec<String>,
    pub checks: Vec<(String, Option<String>)>,
}

/// Whether `a` puts the memory of these snapshots together.
pub open spec fn assembles(a: Assembly, links: Seq<ChainLink>) -> bool {
    &&& a.base@ == links[0].snapshot.memory@
    &&& a.diffs@.len() == links.len() - 1
    &&& a.checks@.len() == links.len() - 1
    &&& forall|i: int|
        0 <= i < a.diffs@.len() ==> (#[trigger] a.diffs@[i])@ == links[i + 1].snapshot.memory@
    &&& forall|i: int|
        0 <= i < a.checks@.len() ==> {
            &&& (#[trigger] a.checks@[i]).0@ == links[i].snapshot.memory@
            &&& opt_view(a.checks@[i].1) == opt_view(links[i + 1].snapshot.parent_content_hash)
        }
}

/// How the memory of a chain is put together.
pub fn assembly(links: &Vec<ChainLink>) -> (r: Assembly)
    requires
        links@.len() > 0,
    ensures
        assembles(r, links@),
{
    let mut diffs: Vec<String> = Vec::new();
    let mut checks: Vec<(String, Option<String>)> = Vec::new();
    let mut i: usize = 1;
    while i < links.len()
        invariant
            1 <= i <= links.len(),
            diffs@.len() == i - 1,
            checks@.len() == i - 1,
            forall|j: int|
                0 <= j < diffs@.len() ==> (#[trigger] diffs@[j])@ == links@[j
                    + 1].snapshot.memory@,
            forall|j: int|
                0 <= j < checks@.len() ==> {
                    &&& (#[trigger] checks@[j]).0@ == links@[j].snapshot.memory@
                    &&& opt_view(checks@[j].1) == opt_view(
                        links@[j + 1].snapshot.parent_content_hash,
                    )
                },
        decreases links.len() - i,
    {
        diffs.push(links[i].snapshot.memory.clone());
        checks.push(
            (
                links[i - 1].snapshot.memory.clone(),
                crate::api::copy_opt(&links[i].snapshot.parent_content_hash),
            ),
        );
        i += 1;
    }
    Assembly { base: links[0].snapshot.memory.clone(), diffs, checks }
}

/// Whether `a` puts the memory of `tag` together.
pub open spec fn is_assembly_of(a: Assembly, kn: Known, root: Seq<char>, tag: Seq<char>) -> bool {
    exists|links: Seq<ChainLink>| #[trigger] is_chain(links, kn, root, tag) && assembles(a, links)
}

/// The snapshot that `tag` stands for, and how its memory is put together.
pub fn resolve_assembly(registry: &Registry, root: &str, disk: &Table<DirFacts>, tag: &str) -> (r:
    Result<(Snapshot, Assembly), LineageError>)
    ensures
        match r {
            Ok(p) => {
                &&& is_snapshot_of(p.0, known(*registry, *disk), root@, tag@)
                &&& is_assembly_of(p.1, known(*registry, *disk), root@, tag@)
            },
            Err(e) => walk_fails(known(*registry, *disk), root@, tag@, e),
        },
{
    match resolve_chain(registry, root, disk, tag) {
        Ok(links) => {
            let a = assembly(&links);
            assert(is_chain(links@, known(*registry, *disk), root@, tag@));
            let at: usize = links.len() - 1;
            let head = links[at].snapshot.copy();
            Ok((head, a))
        },
        Err(e) => Err(e),
    }
}

/// The memory of a tag is put together in one way, whether its children are
/// forked or its chain is compacted.
pub proof fn law_assembly_is_unique(
    kn: Known,
    root: Seq<char>,
    tag: Seq<char>,
    a: Assembly,
    b: Assembly,
)
    requires
        is_assembly_of(a, kn, root, tag),
        is_assembly_of(b, kn, root, tag),
    ensures
        a.base@ == b.base@,
        views(a.diffs@) == views(b.diffs@),
        a.checks@.len() == b.checks@.len(),
        forall|i: int|
            0 <= i < a.checks@.len() ==> (#[trigger] a.checks@[i]).0@ == b.checks@[i].0@
                && opt_view(a.checks@[i].1) == opt_view(b.checks@[i].1),
{
    let p = choose|links: Seq<ChainLink>| #[trigger]
        is_chain(links, kn, root, tag) && assembles(a, links);
    let q = choose|links: Seq<ChainLink>| #[trigger]
        is_chain(links, kn, root, tag) && assembles(b, links);
    let up = link_tags(p).reverse();
    let uq = link_tags(q).reverse();
    assert(up[0] == tag && uq[0] == tag);
    law_lineage_is_unique(kn, up, uq);
    assert(p.len() == q.len());
    assert forall|i: int| 0 <= i < p.len() implies (#[trigger] p[i]).snapshot.memory@
        == q[i].snapshot.memory@ && opt_view(p[i].snapshot.parent_content_hash) == opt_view(
        q[i].snapshot.parent_content_hash,
    ) by {
        assert(up[p.len() - 1 - i] == p[i].tag@);
        assert(uq[p.len() - 1 - i] == q[i].tag@);
        assert(is_snapshot_of(q[i].snapshot, kn, root, q[i].tag@));
    }
    assert(a.base@ == p[0].snapshot.memory@);
    assert forall|i: int| 0 <= i < a.diffs@.len() implies views(a.diffs@)[i] == views(b.diffs@)[i] by {
        assert(a.diffs@[i]@ == p[i + 1].snapshot.memory@);
        assert(b.diffs@[i]@ == q[i + 1].snapshot.memory@);
    }
    assert(views(a.diffs@) =~= views(b.diffs@));
    assert forall|i: int| 0 <= i < a.checks@.len() implies (#[trigger] a.checks@[i]).0@
        == b.checks@[i].0@ && opt_view(a.checks@[i].1) == opt_view(b.checks@[i].1) by {
        let x = p[i].snapshot;
        let y = p[i + 1].snapshot;
        assert(b.checks@[i].0@ == q[i].snapshot.memory@);
    }
}

/// A parent's memory file that no longer holds what its child was taken on
/// top of.
#[derive(Debug, PartialEq, Eq)]
pub struct HashMismatch {
    pub memory: String,
    pub recorded: String,
    pub actual: String,
}

impl HashMismatch {
    pub open spec fn text(self) -> Seq<char> {
        self.memory@ + " hashes to "@ + self.actual@ + ", but its child recorded "@ + self.recorded@
    }

    pub fn message(&self) -> (r: String)
        ensures
            r@ == self.text(),
    {
        self.memory.clone().concat(" hashes to ").concat(self.actual.as_str()).concat(
            ", but its child recorded ",
        ).concat(self.recorded.as_str())
    }
}

/// Whether a memory file may stand for what its child recorded: the hash is
/// the recorded one, or none was recorded.
pub open spec fn hash_agrees(check: (String, Option<String>), hash: Seq<char>) -> bool {
    check.1 matches Some(h) ==> h@ == hash
}

/// Checks the hashes of the parents' memory files, one for each check, against
/// what their children recorded, and names the first that differs.
pub fn verify_parent_hashes(a: &Assembly, hashes: &Vec<String>) -> (r: Result<(), HashMismatch>)
    requires
        hashes@.len() == a.checks@.len(),
    ensures
        match r {
            Ok(_) => forall|i: int|
                0 <= i < hashes@.len() ==> hash_agrees(#[trigger] a.checks@[i], hashes@[i]@),
            Err(m) => exists|i: int|
                {
                    &&& 0 <= i < hashes@.len()
                    &&& !hash_agrees(#[trigger] a.checks@[i], hashes@[i]@)
                    &&& forall|j: int|
                        0 <= j < i ==> hash_agrees(#[trigger] a.checks@[j], hashes@[j]@)
                    &&& m.memory@ == a.checks@[i].0@
                    &&& opt_view(a.checks@[i].1) == Some(m.recorded@)
                    &&& m.actual@ == hashes@[i]@
                },
        },
{
    let mut i: usize = 0;
    while i < hashes.len()
        invariant
            i <= hashes.len(),
            hashes@.len() == a.checks@.len(),
            forall|j: int| 0 <= j < i ==> hash_agrees(#[trigger] a.checks@[j], hashes@[j]@),
        decreases hashes.len() - i,
    {
        match &a.checks[i].1 {
            Some(h) => {
                if !str_eq(h.as_str(), hashes[i].as_str()) {
                    let m = HashMismatch {
                        memory: a.checks[i].0.clone(),
                        recorded: h.clone(),
                        actual: hashes[i].clone(),
                    };
                    assert(!hash_agrees(a.checks@[i as int], hashes@[i as int]@));
                    return Err(m);
                }
            },
            None => {},
        }
        i += 1;
    }
    Ok(())
}

// ---------------------------------------------------------------------
// Descendants
// ---------------------------------------------------------------------

/// `r` lists `tag` and everything built on it in pre-order: each snapshot
/// stands behind the one it is a diff on top of, and in one run with
/// everything that is built on it.
pub open spec fn subtree(kn: Known, tag: Seq<char>, r: Seq<Seq<char>>) -> bool {
    &&& r.len() > 0
    &&& r[0] == tag
    &&& r.no_duplicates()
    &&& forall|j: int| 0 < j < r.len() ==> has_parent_before(kn, r, #[trigger] r[j], j)
    &&& forall|i: int, t: Seq<char>|
        0 <= i < r.len() && #[trigger] kn.depends(t, #[trigger] r[i]) ==> r.contains(t)
    &&& forall|i: int| 0 <= i < r.len() ==> #[trigger] one_run(kn, r, i)
}

/// From `r[i]` to the last snapshot behind it that is built on it, all are.
pub open spec fn one_run(kn: Known, r: Seq<Seq<char>>, i: int) -> bool {
    forall|k: int, j: int|
        i <= k <= j < r.len() && #[trigger] descends(kn, r[j], r[i]) ==> #[trigger] descends(
            kn,
            r[k],
            r[i],
        )
}

pub open spec fn has_parent_before(kn: Known, r: Seq<Seq<char>>, t: Seq<char>, j: int) -> bool {
    exists|i: int| 0 <= i < j && kn.depends(t, #[trigger] r[i])
}

/// Whether `t` is built on `tag`, over any number of diffs.
pub open spec fn descends(kn: Known, t: Seq<char>, tag: Seq<char>) -> bool {
    exists|path: Seq<Seq<char>>| #[trigger] descends_by(kn, path, t, tag)
}

pub open spec fn descends_by(kn: Known, path: Seq<Seq<char>>, t: Seq<char>, tag: Seq<char>) -> bool {
    &&& path.len() > 0
    &&& path[0] == t
    &&& path.last() == tag
    &&& forall|j: int| 0 <= j < path.len() - 1 ==> kn.depends(#[trigger] path[j], path[j + 1])
}

proof fn lemma_listed_in_bound(kn: Known, tag: Seq<char>, r: Seq<Seq<char>>)
    requires
        universe(kn).finite(),
        r.len() > 0,
        r[0] == tag,
        r.no_duplicates(),
        forall|j: int| 0 < j < r.len() ==> has_parent_before(kn, r, #[trigger] r[j], j),
    ensures
        r.len() <= universe(kn).len() + 1,
{
    let rest = r.skip(1);
    assert(rest.no_duplicates()) by {
        assert forall|a: int, b: int|
            0 <= a < rest.len() && 0 <= b < rest.len() && a != b implies rest[a] != rest[b] by {
            assert(r[a + 1] != r[b + 1]);
        }
    }
    assert forall|i: int| 0 <= i < rest.len() implies universe(kn).contains(#[trigger] rest[i]) by {
        assert(rest[i] == r[i + 1]);
        assert(has_parent_before(kn, r, r[i + 1], i + 1));
        assert(kn.resolves(rest[i]));
    }
    lemma_no_more_than(rest, universe(kn));
}

/// Whether `at[j]` is where in `r` the snapshot stands that `r[j]` is a diff on
/// top of, and whatever stands between the two was reached from there.
spec fn walked(kn: Known, tag: Seq<char>, r: Seq<Seq<char>>, at: Seq<int>) -> bool {
    &&& r.len() > 0
    &&& r[0] == tag
    &&& r.no_duplicates()
    &&& at.len() == r.len()
    &&& forall|j: int|
        0 < j < r.len() ==> 0 <= (#[trigger] at[j]) < j && kn.depends(r[j], r[at[j]])
    &&& forall|j: int, k: int|
        0 < j < r.len() && (#[trigger] at[j]) < k < j ==> (#[trigger] at[k]) >= at[j]
}

/// Whether following the positions in `at` leads from `j` to `i`.
spec fn leads(at: Seq<int>, i: int, j: int) -> bool
    decreases j,
{
    j == i || (i < j < at.len() && 0 <= at[j] < j && leads(at, i, at[j]))
}

proof fn lemma_walked_parents(kn: Known, tag: Seq<char>, r: Seq<Seq<char>>, at: Seq<int>)
    requires
        walked(kn, tag, r, at),
    ensures
        forall|j: int| 0 < j < r.len() ==> has_parent_before(kn, r, #[trigger] r[j], j),
{
    assert forall|j: int| 0 < j < r.len() implies has_parent_before(kn, r, #[trigger] r[j], j) by {
        assert(0 <= at[j] < j && kn.depends(r[j], r[at[j]]));
    }
}

proof fn lemma_descends_step(kn: Known, t: Seq<char>, parent: Seq<char>, tag: Seq<char>)
    requires
        kn.depends(t, parent),
        descends(kn, parent, tag),
    ensures
        descends(kn, t, tag),
{
    let path = choose|path: Seq<Seq<char>>| #[trigger] descends_by(kn, path, parent, tag);
    let longer = seq![t] + path;
    assert forall|k: int| 0 <= k < longer.len() - 1 implies kn.depends(
        #[trigger] longer[k],
        longer[k + 1],
    ) by {
        if k > 0 {
            assert(kn.depends(path[k - 1], path[k - 1 + 1]));
        }
    }
    assert(descends_by(kn, longer, t, tag));
}

proof fn lemma_leads_descends(
    kn: Known,
    tag: Seq<char>,
    r: Seq<Seq<char>>,
    at: Seq<int>,
    i: int,
    j: int,
)
    requires
        walked(kn, tag, r, at),
        0 <= i <= j < r.len(),
        leads(at, i, j),
    ensures
        descends(kn, r[j], r[i]),
    decreases j,
{
    if j == i {
        assert(descends_by(kn, seq![r[i]], r[i], r[i]));
    } else {
        assert(leads(at, i, at[j]));
        lemma_leads_bound(at, i, at[j]);
        lemma_leads_descends(kn, tag, r, at, i, at[j]);
        lemma_descends_step(kn, r[j], r[at[j]], r[i]);
    }
}

proof fn lemma_leads_bound(at: Seq<int>, i: int, j: int)
    requires
        leads(at, i, j),
    ensures
        i <= j,
{
}

proof fn lemma_between_leads(
    kn: Known,
    tag: Seq<char>,
    r: Seq<Seq<char>>,
    at: Seq<int>,
    i: int,
    k: int,
    j: int,
)
    requires
        walked(kn, tag, r, at),
        0 <= i <= k <= j < r.len(),
        leads(at, i, j),
    ensures
        leads(at, i, k),
    decreases k, j,
{
    if k > i && k < j {
        assert(0 <= at[j] < j && 0 <= at[k] < k);
        lemma_leads_bound(at, i, at[j]);
        if k <= at[j] {
            lemma_between_leads(kn, tag, r, at, i, k, at[j]);
        } else {
            assert(at[k] >= at[j]);
            lemma_between_leads(kn, tag, r, at, i, at[k], j);
        }
    }
}

/// A chain of diffs from one member to another follows the positions, unless
/// it goes through the root.
proof fn lemma_descent_leads(
    kn: Known,
    tag: Seq<char>,
    r: Seq<Seq<char>>,
    at: Seq<int>,
    path: Seq<Seq<char>>,
    i: int,
    j: int,
)
    requires
        walked(kn, tag, r, at),
        0 <= i < r.len(),
        0 <= j < r.len(),
        descends_by(kn, path, r[j], r[i]),
    ensures
        leads(at, i, j) || descends(kn, tag, r[i]),
    decreases path.len(),
{
    if path.len() > 1 && j > 0 {
        assert(0 <= at[j] < j && kn.depends(r[j], r[at[j]]));
        assert(kn.depends(path[0], path[0int + 1]));
        let rest = path.skip(1);
        assert forall|k: int| 0 <= k < rest.len() - 1 implies kn.depends(
            #[trigger] rest[k],
            rest[k + 1],
        ) by {
            assert(kn.depends(path[k + 1], path[k + 1 + 1]));
        }
        assert(rest[0] == r[at[j]]);
        lemma_descent_leads(kn, tag, r, at, rest, i, at[j]);
        if leads(at, i, at[j]) {
            lemma_leads_bound(at, i, at[j]);
        }
    }
}

proof fn lemma_walked_is_preorder(kn: Known, tag: Seq<char>, r: Seq<Seq<char>>, at: Seq<int>, i: int)
    requires
        walked(kn, tag, r, at),
        0 <= i < r.len(),
    ensures
        one_run(kn, r, i),
{
    assert forall|k: int, j: int|
        i <= k <= j < r.len() && #[trigger] descends(kn, r[j], r[i]) implies #[trigger] descends(
        kn,
        r[k],
        r[i],
    ) by {
        let path = choose|path: Seq<Seq<char>>| #[trigger] descends_by(kn, path, r[j], r[i]);
        lemma_descent_leads(kn, tag, r, at, path, i, j);
        if leads(at, i, j) {
            lemma_between_leads(kn, tag, r, at, i, k, j);
            lemma_leads_descends(kn, tag, r, at, i, k);
        } else {
            lemma_root_carries(kn, tag, r, at, i, k);
        }
    }
}

proof fn lemma_root_carries(
    kn: Known,
    tag: Seq<char>,
    r: Seq<Seq<char>>,
    at: Seq<int>,
    i: int,
    k: int,
)
    requires
        walked(kn, tag, r, at),
        0 <= i < r.len(),
        0 <= k < r.len(),
        descends(kn, tag, r[i]),
    ensures
        descends(kn, r[k], r[i]),
    decreases k,
{
    if k > 0 {
        assert(0 <= at[k] < k && kn.depends(r[k], r[at[k]]));
        lemma_root_carries(kn, tag, r, at, i, at[k]);
        lemma_descends_step(kn, r[k], r[at[k]], r[i]);
    }
}

/// Puts `items` on a stack, the first of them on top.
fn push_all(stack: &mut Vec<String>, items: &Vec<String>)
    ensures
        views(final(stack)@) == views(old(stack)@) + views(items@).reverse(),
{
    let ghost start = views(stack@);
    let ghost back = views(items@).reverse();
    let mut i: usize = items.len();
    assert(start + back.take(0) =~= start);
    while i > 0
        invariant
            i <= items.len(),
            start == views(old(stack)@),
            back == views(items@).reverse(),
            views(stack@) == start + back.take(items.len() - i),
        decreases i,
    {
        i -= 1;
        let x = items[i].clone();
        proof {
            let n = items.len() - i;
            assert(back[n - 1] == x@);
            assert(back.take(n) =~= back.take(n - 1).push(x@));
            assert(views(stack@.push(x)) =~= views(stack@).push(x@));
            assert((start + back.take(n - 1)).push(x@) =~= start + back.take(n));
        }
        stack.push(x);
    }
    assert(back.take(items.len() - i) =~= back);
}

/// What is still to be visited, and what each of them builds on.
spec fn pending(
    kn: Known,
    r: Seq<Seq<char>>,
    at: Seq<int>,
    stack: Seq<Seq<char>>,
    from: Seq<int>,
) -> bool {
    &&& from.len() == stack.len()
    &&& forall|s: int|
        0 <= s < stack.len() ==> 0 <= (#[trigger] from[s]) < r.len() && kn.depends(
            stack[s],
            r[from[s]],
        )
    &&& forall|s: int, u: int|
        0 <= s <= u < stack.len() ==> (#[trigger] from[s]) <= (#[trigger] from[u])
    &&& forall|s: int, k: int|
        0 <= s < stack.len() && (#[trigger] from[s]) < k < r.len() ==> (#[trigger] at[k])
            >= from[s]
    &&& forall|i: int, t: Seq<char>|
        0 <= i < r.len() && #[trigger] kn.depends(t, #[trigger] r[i]) ==> r.contains(t)
            || stack.contains(t)
}

/// Visiting the snapshot on top of the stack keeps the walk in order.
proof fn lemma_visit(
    kn: Known,
    tag: Seq<char>,
    r: Seq<Seq<char>>,
    at: Seq<int>,
    stack: Seq<Seq<char>>,
    from: Seq<int>,
    kids: Seq<Seq<char>>,
)
    requires
        walked(kn, tag, r, at),
        pending(kn, r, at, stack, from),
        stack.len() > 0,
        !r.contains(stack.last()),
        forall|x: Seq<char>| #[trigger] kids.contains(x) <==> kn.depends(x, stack.last()),
    ensures
        ({
            let n = r.len() as int;
            let kid_from = Seq::new(kids.len(), |k: int| n);
            &&& walked(kn, tag, r.push(stack.last()), at.push(from.last()))
            &&& pending(
                kn,
                r.push(stack.last()),
                at.push(from.last()),
                stack.drop_last() + kids.reverse(),
                from.drop_last() + kid_from,
            )
        }),
{
    let n = r.len() as int;
    let top = stack.last();
    let p = from.last();
    let m = stack.len() - 1;
    let r2 = r.push(top);
    let at2 = at.push(p);
    let s2 = stack.drop_last() + kids.reverse();
    let f2 = from.drop_last() + Seq::new(kids.len(), |k: int| n);
    assert(0 <= from[m] < r.len() && kn.depends(stack[m], r[from[m]]));
    assert(r2.no_duplicates()) by {
        assert forall|a: int, b: int| 0 <= a < r2.len() && 0 <= b < r2.len() && a != b implies r2[a]
            != r2[b] by {
            if a == n {
                assert(r.contains(r[b]));
            } else if b == n {
                assert(r.contains(r[a]));
            }
        }
    }
    assert forall|j: int| 0 < j < r2.len() implies 0 <= (#[trigger] at2[j]) < j && kn.depends(
        r2[j],
        r2[at2[j]],
    ) by {
        if j < n {
            assert(0 <= at[j] < j && kn.depends(r[j], r[at[j]]));
        }
    }
    assert forall|j: int, k: int|
        0 < j < r2.len() && (#[trigger] at2[j]) < k < j implies (#[trigger] at2[k]) >= at2[j] by {
        if j < n {
            assert(at[j] < k < j);
            assert(at[k] >= at[j]);
        } else {
            assert(from[m] < k < r.len());
            assert(at[k] >= from[m]);
        }
    }
    assert forall|s: int| 0 <= s < s2.len() implies 0 <= (#[trigger] f2[s]) < r2.len()
        && kn.depends(s2[s], r2[f2[s]]) by {
        if s < m {
            assert(0 <= from[s] < r.len() && kn.depends(stack[s], r[from[s]]));
        } else {
            let kid = kids.reverse()[s - m];
            assert(kid == kids[kids.len() - 1 - (s - m)]);
            assert(kids.contains(kid));
        }
    }
    assert forall|s: int, u: int| 0 <= s <= u < s2.len() implies (#[trigger] f2[s]) <= (
    #[trigger] f2[u]) by {
        if u < m {
            assert(from[s] <= from[u]);
        } else if s < m {
            assert(from[s] < r.len());
        }
    }
    assert forall|s: int, k: int|
        0 <= s < s2.len() && (#[trigger] f2[s]) < k < r2.len() implies (#[trigger] at2[k])
        >= f2[s] by {
        if s < m {
            if k < n {
                assert(from[s] < k < r.len());
                assert(at[k] >= from[s]);
            } else {
                assert(from[s] <= from[m]);
            }
        }
    }
    assert forall|i: int, t: Seq<char>|
        0 <= i < r2.len() && #[trigger] kn.depends(t, #[trigger] r2[i]) implies r2.contains(t)
        || s2.contains(t) by {
        lemma_push_contains(r, top, t);
        if i < n {
            assert(kn.depends(t, r[i]));
            if !r.contains(t) {
                let s = choose|s: int| 0 <= s < stack.len() && stack[s] == t;
                if s < m {
                    assert(s2[s] == t);
                }
            }
        } else {
            assert(kids.contains(t));
            let c = choose|c: int| 0 <= c < kids.len() && kids[c] == t;
            assert(kids.reverse()[kids.len() - 1 - c] == t);
            assert(s2[m + kids.len() - 1 - c] == t);
        }
    }
}

/// `tag` and every snapshot built on it, in pre-order, so that going backwards
/// removes leaves first.
pub fn collect_subtree(registry: &Registry, disk: &Table<DirFacts>, tag: &str) -> (r: Vec<String>)
    ensures
        subtree(known(*registry, *disk), tag@, views(r@)),
{
    let ghost kn = known(*registry, *disk);
    proof {
        lemma_known_is_finite(*registry, *disk);
    }
    let mut out: Vec<String> = Vec::new();
    let mut stack: Vec<String> = Vec::new();
    let ghost mut at: Seq<int> = seq![0];
    let ghost mut from: Seq<int>;
    out.push(tag.to_string());
    let children = find_dependents(registry, disk, tag);
    push_all(&mut stack, &children);
    proof {
        let kids = views(children@);
        from = Seq::new(kids.len(), |k: int| 0);
        assert(views(out@) =~= seq![tag@]);
        assert(views(stack@) =~= kids.reverse());
        assert forall|s: int| 0 <= s < kids.len() implies kids.contains(
            #[trigger] kids.reverse()[s],
        ) by {
            assert(kids.reverse()[s] == kids[kids.len() - 1 - s]);
        }
        assert forall|s: int| 0 <= s < views(stack@).len() implies 0 <= (#[trigger] from[s])
            < views(out@).len() && kn.depends(views(stack@)[s], views(out@)[from[s]]) by {
            assert(kids.contains(kids.reverse()[s]));
        }
        assert forall|i: int, t: Seq<char>|
            0 <= i < views(out@).len() && #[trigger] kn.depends(
                t,
                #[trigger] views(out@)[i],
            ) implies views(out@).contains(t) || views(stack@).contains(t) by {
            assert(kids.contains(t));
            let c = choose|c: int| 0 <= c < kids.len() && kids[c] == t;
            assert(kids.reverse()[kids.len() - 1 - c] == t);
        }
        lemma_walked_parents(kn, tag@, views(out@), at);
        lemma_listed_in_bound(kn, tag@, views(out@));
    }
    while stack.len() > 0
        invariant
            kn == known(*registry, *disk),
            universe(kn).finite(),
            walked(kn, tag@, views(out@), at),
            pending(kn, views(out@), at, views(stack@), from),
            out@.len() <= universe(kn).len() + 1,
        decreases universe(kn).len() + 1 - out@.len(), stack@.len(),
    {
        let ghost r0 = views(out@);
        let ghost s0 = views(stack@);
        let ghost items = stack@;
        let t = match stack.pop() {
            Some(t) => t,
            None => String::new(),
        };
        proof {
            assert(items.last() == t);
            assert(s0.last() == t@);
            assert(views(stack@) =~= s0.drop_last());
        }
        if holds_str(&out, t.as_str()) {
            proof {
                let rest = from.drop_last();
                assert forall|s: int, u: int|
                    0 <= s <= u < rest.len() implies (#[trigger] rest[s]) <= (#[trigger] rest[u]) by {
                    assert(from[s] <= from[u]);
                }
                assert forall|s: int, k: int|
                    0 <= s < rest.len() && (#[trigger] rest[s]) < k < r0.len() implies (
                #[trigger] at[k]) >= rest[s] by {
                    assert(from[s] < k < r0.len());
                }
                assert forall|s: int| 0 <= s < rest.len() implies 0 <= (#[trigger] rest[s])
                    < r0.len() && kn.depends(views(stack@)[s], r0[rest[s]]) by {
                    assert(0 <= from[s] < r0.len() && kn.depends(s0[s], r0[from[s]]));
                }
                assert forall|i: int, x: Seq<char>|
                    0 <= i < r0.len() && #[trigger] kn.depends(x, #[trigger] r0[i]) implies r0.contains(
                    x,
                ) || views(stack@).contains(x) by {
                    if !r0.contains(x) {
                        let s = choose|s: int| 0 <= s < s0.len() && s0[s] == x;
                        assert(views(stack@)[s] == x);
                    }
                }
                from = rest;
            }
        } else {
            let children = find_dependents(registry, disk, t.as_str());
            push_all(&mut stack, &children);
            proof {
                let kids = views(children@);
                lemma_visit(kn, tag@, r0, at, s0, from, kids);
                let n = r0.len() as int;
                at = at.push(from.last());
                from = from.drop_last() + Seq::new(kids.len(), |k: int| n);
                assert(views(out@.push(t)) =~= r0.push(t@));
                lemma_walked_parents(kn, tag@, r0.push(t@), at);
                lemma_listed_in_bound(kn, tag@, r0.push(t@));
            }
            out.push(t);
        }
    }
    proof {
        let r = views(out@);
        lemma_walked_parents(kn, tag@, r, at);
        assert forall|i: int| 0 <= i < r.len() implies #[trigger] one_run(kn, r, i) by {
            lemma_walked_is_preorder(kn, tag@, r, at, i);
        }
    }
    out
}

/// Going backwards through a subtree, no snapshot is met before everything
/// that is a diff on top of it, except that a chain that leads in a circle
/// still starts where it was entered.
pub proof fn law_subtree_backwards_is_leaves_first(
    kn: Known,
    tag: Seq<char>,
    r: Seq<Seq<char>>,
    i: int,
    j: int,
)
    requires
        subtree(kn, tag, r),
        0 <= i < r.len(),
        0 < j < r.len(),
        kn.depends(r[j], r[i]),
    ensures
        i < j,
{
    assert(has_parent_before(kn, r, r[j], j));
    let k = choose|k: int| 0 <= k < j && kn.depends(r[j], #[trigger] r[k]);
    assert(r[k] == r[i]);
}

/// In a subtree, a snapshot with diffs on top of it is followed by one of
/// them, unless its chain leads in a circle.
pub proof fn law_subtree_goes_down_first(
    kn: Known,
    tag: Seq<char>,
    r: Seq<Seq<char>>,
    i: int,
    t: Seq<char>,
)
    requires
        subtree(kn, tag, r),
        0 <= i < r.len(),
        kn.depends(t, r[i]),
        i > 0 ==> !descends(kn, tag, r[i]),
        t != tag,
    ensures
        i + 1 < r.len(),
        kn.depends(r[i + 1], r[i]),
{
    assert(r.contains(t));
    let j = choose|j: int| 0 <= j < r.len() && r[j] == t;
    law_subtree_backwards_is_leaves_first(kn, tag, r, i, j);
    assert(descends_by(kn, seq![r[i]], r[i], r[i]));
    lemma_descends_step(kn, t, r[i], r[i]);
    assert(one_run(kn, r, i));
    assert(descends(kn, r[i + 1], r[i]));
    assert(has_parent_before(kn, r, r[i + 1], i + 1));
    let p = choose|p: int| 0 <= p < i + 1 && kn.depends(r[i + 1], #[trigger] r[p]);
    if p < i {
        lemma_descent_goes_up(kn, r[i + 1], r[p], r[i]);
        lemma_earlier_goes_through_root(kn, tag, r, i, p);
    }
}

proof fn lemma_descent_goes_up(kn: Known, t: Seq<char>, parent: Seq<char>, tag: Seq<char>)
    requires
        descends(kn, t, tag),
        t != tag,
        kn.depends(t, parent),
    ensures
        descends(kn, parent, tag),
{
    let path = choose|path: Seq<Seq<char>>| #[trigger] descends_by(kn, path, t, tag);
    assert(path.len() > 1);
    assert(kn.depends(path[0], path[0int + 1]));
    let rest = path.skip(1);
    assert forall|k: int| 0 <= k < rest.len() - 1 implies kn.depends(
        #[trigger] rest[k],
        rest[k + 1],
    ) by {
        assert(kn.depends(path[k + 1], path[k + 1 + 1]));
    }
    assert(descends_by(kn, rest, parent, tag));
}

proof fn lemma_earlier_goes_through_root(
    kn: Known,
    tag: Seq<char>,
    r: Seq<Seq<char>>,
    i: int,
    p: int,
)
    requires
        subtree(kn, tag, r),
        0 <= p < i < r.len(),
        descends(kn, r[p], r[i]),
    ensures
        descends(kn, tag, r[i]),
    decreases p,
{
    if p > 0 {
        assert(has_parent_before(kn, r, r[p], p));
        let q = choose|q: int| 0 <= q < p && kn.depends(r[p], #[trigger] r[q]);
        lemma_descent_goes_up(kn, r[p], r[q], r[i]);
        lemma_earlier_goes_through_root(kn, tag, r, i, q);
    }
}

/// A subtree holds its root and exactly the snapshots built on it.
pub proof fn law_subtree_is_the_descendants(kn: Known, tag: Seq<char>, r: Seq<Seq<char>>, t: Seq<char>)
    requires
        subtree(kn, tag, r),
    ensures
        r.contains(t) <==> descends(kn, t, tag),
{
    if r.contains(t) {
        let j = choose|j: int| 0 <= j < r.len() && r[j] == t;
        lemma_member_descends(kn, tag, r, j);
    }
    if descends(kn, t, tag) {
        let path = choose|path: Seq<Seq<char>>| #[trigger] descends_by(kn, path, t, tag);
        lemma_path_in_subtree(kn, tag, r, path, 0);
    }
}

proof fn lemma_member_descends(kn: Known, tag: Seq<char>, r: Seq<Seq<char>>, j: int)
    requires
        subtree(kn, tag, r),
        0 <= j < r.len(),
    ensures
        descends(kn, r[j], tag),
    decreases j,
{
    if j == 0 {
        assert(descends_by(kn, seq![tag], tag, tag));
    } else {
        assert(has_parent_before(kn, r, r[j], j));
        let i = choose|i: int| 0 <= i < j && kn.depends(r[j], #[trigger] r[i]);
        lemma_member_descends(kn, tag, r, i);
        lemma_descends_step(kn, r[j], r[i], tag);
    }
}

proof fn lemma_path_in_subtree(
    kn: Known,
    tag: Seq<char>,
    r: Seq<Seq<char>>,
    path: Seq<Seq<char>>,
    k: int,
)
    requires
        subtree(kn, tag, r),
        path.len() > 0,
        path.last() == tag,
        forall|j: int| 0 <= j < path.len() - 1 ==> kn.depends(#[trigger] path[j], path[j + 1]),
        0 <= k < path.len(),
    ensures
        r.contains(path[k]),
    decreases path.len() - k,
{
    if k == path.len() - 1 {
        assert(r[0] == tag);
    } else {
        lemma_path_in_subtree(kn, tag, r, path, k + 1);
        let i = choose|i: int| 0 <= i < r.len() && r[i] == path[k + 1];
        assert(kn.depends(path[k], r[i]));
    }
}

} // verus!
