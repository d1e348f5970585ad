//! The controller's registry: what it knows of snapshots, sandboxes and
//! workspaces, and how a restart reconciles that with the running system.
use vstd::prelude::*;

use crate::api::{SandboxInfo, SnapshotInfo, WorkspaceInfo, WorkspaceStatus};
use crate::table::{ascending, Table};
use crate::text::{dec, dec_string, str_eq, views};

verus! {

/// The part of the registry that is written to the state file.
#[derive(Debug)]
pub struct PersistentState {
    pub snapshots: Table<SnapshotInfo>,
    pub sandboxes: Table<SandboxInfo>,
    pub workspaces: Table<WorkspaceInfo>,
}

impl Default for PersistentState {
    fn default() -> (r: Self)
        ensures
            r.snapshots@ == Map::<Seq<char>, SnapshotInfo>::empty(),
            r.sandboxes@ == Map::<Seq<char>, SandboxInfo>::empty(),
            r.workspaces@ == Map::<Seq<char>, WorkspaceInfo>::empty(),
    {
        PersistentState { snapshots: Table::new(), sandboxes: Table::new(), workspaces: Table::new() }
    }
}

/// The names in a list, where there is one.
pub open spec fn listed(names: Option<Vec<String>>) -> Option<Seq<Seq<char>>> {
    match names {
        Some(v) => Some(views(v@)),
        None => None,
    }
}

/// Whether a sandbox entry no longer stands for a running sandbox: its
/// process is gone, or the network namespace it was given is. None for `netns`
/// where it is not known which namespaces there are.
pub open spec fn stale_sandbox(
    sb: SandboxInfo,
    alive: Seq<u32>,
    netns: Option<Seq<Seq<char>>>,
) -> bool {
    ||| sb.pid matches Some(p) && !alive.contains(p)
    ||| {
        &&& netns matches Some(names)
        &&& sb.netns matches Some(ns)
        &&& !names.contains(ns@)
    }
}

/// The sandbox entries that still stand for running sandboxes.
pub open spec fn survivors(
    m: Map<Seq<char>, SandboxInfo>,
    alive: Seq<u32>,
    netns: Option<Seq<Seq<char>>>,
) -> Map<Seq<char>, SandboxInfo> {
    Map::new(
        |k: Seq<char>| m.contains_key(k) && !stale_sandbox(m[k], alive, netns),
        |k: Seq<char>| m[k],
    )
}

/// A workspace entry after a restart, given the sandboxes that survived.
pub open spec fn settled(ws: WorkspaceInfo, sandboxes: Map<Seq<char>, SandboxInfo>) -> WorkspaceInfo {
    let gone = ws.live_sandbox_id matches Some(id) ==> !sandboxes.contains_key(id@);
    if ws.status == WorkspaceStatus::Running && gone {
        WorkspaceInfo { status: WorkspaceStatus::Stale, live_sandbox_id: None, ..ws }
    } else {
        ws
    }
}

/// A sandbox entry after one more branch wrote its memory to `path`.
pub open spec fn branched(sb: SandboxInfo, after: SandboxInfo, path: Seq<char>) -> bool {
    &&& after.last_branch_memory_path matches Some(p) && p@ == path
    &&& after == (SandboxInfo {
        has_branched: true,
        last_branch_memory_path: after.last_branch_memory_path,
        branch_count: if sb.branch_count < u32::MAX {
            (sb.branch_count + 1) as u32
        } else {
            u32::MAX
        },
        ..sb
    })
}

fn holds_pid(v: &Vec<u32>, p: u32) -> (r: bool)
    ensures
        r == v@.contains(p),
{
    let mut i: usize = 0;
    while i < v.len()
        invariant
            i <= v.len(),
            forall|j: int| 0 <= j < i ==> #[trigger] v@[j] != p,
        decreases v.len() - i,
    {
        if v[i] == p {
            return true;
        }
        i += 1;
    }
    false
}

/// Whether `s` is one of the strings.
pub fn holds_str(v: &Vec<String>, s: &str) -> (r: bool)
    ensures
        r == views(v@).contains(s@),
{
    let mut i: usize = 0;
    while i < v.len()
        invariant
            i <= v.len(),
            forall|j: int| 0 <= j < i ==> #[trigger] v@[j]@ != s@,
        decreases v.len() - i,
    {
        if str_eq(v[i].as_str(), s) {
            assert(views(v@)[i as int] == s@);
            return true;
        }
        i += 1;
    }
    assert forall|j: int| 0 <= j < views(v@).len() implies views(v@)[j] != s@ by {
        assert(v@[j]@ == views(v@)[j]);
    }
    false
}

/// The directory whose presence tells that process `pid` runs.
pub fn pid_probe(pid: u32) -> (r: String)
    ensures
        r@ == "/proc/"@ + dec(pid as nat),
{
    let n = dec_string(pid as u64);
    "/proc/".to_string().concat(n.as_str())
}

#[derive(Debug)]
pub struct Registry {
    pub state: PersistentState,
}

impl Registry {
    pub open spec fn snapshots(&self) -> Map<Seq<char>, SnapshotInfo> {
        self.state.snapshots@
    }

    pub open spec fn sandboxes(&self) -> Map<Seq<char>, SandboxInfo> {
        self.state.sandboxes@
    }

    pub open spec fn workspaces(&self) -> Map<Seq<char>, WorkspaceInfo> {
        self.state.workspaces@
    }

    /// The registry of a saved state, or an empty one where none was saved.
    pub fn load_or_init(saved: Option<PersistentState>) -> (r: Self)
        ensures
            match saved {
                Some(s) => r.state == s,
                None => r.snapshots().dom().is_empty() && r.sandboxes().dom().is_empty()
                    && r.workspaces().dom().is_empty(),
            },
    {
        match saved {
            Some(state) => Registry { state },
            None => Registry { state: PersistentState::default() },
        }
    }

    /// A copy of the state, to be written out.
    pub fn snapshot(&self) -> (r: PersistentState)
        ensures
            r.snapshots@ == self.snapshots(),
            r.sandboxes@ == self.sandboxes(),
            r.workspaces@ == self.workspaces(),
    {
        PersistentState {
            snapshots: self.state.snapshots.copy(),
            sandboxes: self.state.sandboxes.copy(),
            workspaces: self.state.workspaces.copy(),
        }
    }

    /// The snapshots, in tag order.
    pub fn list_snapshots(&self) -> (r: Vec<SnapshotInfo>)
        ensures
            ascending(self.state.snapshots.keys()),
            forall|k: Seq<char>| #[trigger]
                self.state.snapshots.keys().contains(k) <==> self.snapshots().contains_key(k),
            r@ == self.state.snapshots.keys().map_values(|k: Seq<char>| self.snapshots()[k]),
    {
        self.state.snapshots.list()
    }

    /// The sandboxes, in id order.
    pub fn list_sandboxes(&self) -> (r: Vec<SandboxInfo>)
        ensures
            ascending(self.state.sandboxes.keys()),
            forall|k: Seq<char>| #[trigger]
                self.state.sandboxes.keys().contains(k) <==> self.sandboxes().contains_key(k),
            r@ == self.state.sandboxes.keys().map_values(|k: Seq<char>| self.sandboxes()[k]),
    {
        self.state.sandboxes.list()
    }

    /// The workspaces, in name order.
    pub fn list_workspaces(&self) -> (r: Vec<WorkspaceInfo>)
        ensures
            ascending(self.state.workspaces.keys()),
            forall|k: Seq<char>| #[trigger]
                self.state.workspaces.keys().contains(k) <==> self.workspaces().contains_key(k),
            r@ == self.state.workspaces.keys().map_values(|k: Seq<char>| self.workspaces()[k]),
    {
        self.state.workspaces.list()
    }

    pub fn get_snapshot(&self, tag: &str) -> (r: Option<SnapshotInfo>)
        ensures
            r == self.snapshots().get(tag@),
    {
        self.state.snapshots.get_copy(tag)
    }

    pub fn get_sandbox(&self, id: &str) -> (r: Option<SandboxInfo>)
        ensures
            r == self.sandboxes().get(id@),
    {
        self.state.sandboxes.get_copy(id)
    }

    pub fn get_workspace(&self, name: &str) -> (r: Option<WorkspaceInfo>)
        ensures
            r == self.workspaces().get(name@),
    {
        self.state.workspaces.get_copy(name)
    }

    pub fn insert_snapshot(&mut self, snap: SnapshotInfo)
        ensures
            final(self).snapshots() == old(self).snapshots().insert(snap.tag@, snap),
            final(self).state.sandboxes == old(self).state.sandboxes,
            final(self).state.workspaces == old(self).state.workspaces,
    {
        let key = snap.tag.clone();
        let _ = self.state.snapshots.insert(key, snap);
    }

    pub fn insert_sandbox(&mut self, sb: SandboxInfo)
        ensures
            final(self).sandboxes() == old(self).sandboxes().insert(sb.id@, sb),
            final(self).state.snapshots == old(self).state.snapshots,
            final(self).state.workspaces == old(self).state.workspaces,
    {
        let key = sb.id.clone();
        let _ = self.state.sandboxes.insert(key, sb);
    }

    pub fn insert_workspace(&mut self, ws: WorkspaceInfo)
        ensures
            final(self).workspaces() == old(self).workspaces().insert(ws.name@, ws),
            final(self).state.snapshots == old(self).state.snapshots,
            final(self).state.sandboxes == old(self).state.sandboxes,
    {
        let key = ws.name.clone();
        let _ = self.state.workspaces.insert(key, ws);
    }

    pub fn remove_snapshot(&mut self, tag: &str) -> (r: Option<SnapshotInfo>)
        ensures
            final(self).snapshots() == old(self).snapshots().remove(tag@),
            final(self).state.sandboxes == old(self).state.sandboxes,
            final(self).state.workspaces == old(self).state.workspaces,
            r == old(self).snapshots().get(tag@),
    {
        self.state.snapshots.remove(tag)
    }

    pub fn remove_sandbox(&mut self, id: &str) -> (r: Option<SandboxInfo>)
        ensures
            final(self).sandboxes() == old(self).sandboxes().remove(id@),
            final(self).state.snapshots == old(self).state.snapshots,
            final(self).state.workspaces == old(self).state.workspaces,
            r == old(self).sandboxes().get(id@),
    {
        self.state.sandboxes.remove(id)
    }

    pub fn remove_workspace(&mut self, name: &str) -> (r: Option<WorkspaceInfo>)
        ensures
            final(self).workspaces() == old(self).workspaces().remove(name@),
            final(self).state.snapshots == old(self).state.snapshots,
            final(self).state.sandboxes == old(self).state.sandboxes,
            r == old(self).workspaces().get(name@),
    {
        self.state.workspaces.remove(name)
    }

    /// Replaces the entry of workspace `name`, where there is one.
    pub fn update_workspace(&mut self, name: &str, ws: WorkspaceInfo) -> (r: bool)
        ensures
            r == old(self).workspaces().contains_key(name@),
            final(self).workspaces() == (if r {
                old(self).workspaces().insert(name@, ws)
            } else {
                old(self).workspaces()
            }),
            final(self).state.snapshots == old(self).state.snapshots,
            final(self).state.sandboxes == old(self).state.sandboxes,
    {
        if self.state.workspaces.contains(name) {
            let _ = self.state.workspaces.insert(name.to_string(), ws);
            true
        } else {
            false
        }
    }

    /// Records that a branch of sandbox `id` wrote its memory to `path`; says
    /// how many branches that makes.
    pub fn mark_branched(&mut self, id: &str, path: &str) -> (r: Option<u32>)
        ensures
            final(self).state.snapshots == old(self).state.snapshots,
            final(self).state.workspaces == old(self).state.workspaces,
            match r {
                Some(n) => {
                    &&& old(self).sandboxes().contains_key(id@)
                    &&& final(self).sandboxes() == old(self).sandboxes().insert(
                        id@,
                        final(self).sandboxes()[id@],
                    )
                    &&& branched(
                        old(self).sandboxes()[id@],
                        final(self).sandboxes()[id@],
                        path@,
                    )
                    &&& n == final(self).sandboxes()[id@].branch_count
                },
                None => {
                    &&& !old(self).sandboxes().contains_key(id@)
                    &&& final(self).sandboxes() == old(self).sandboxes()
                },
            },
    {
        match self.state.sandboxes.get_copy(id) {
            Some(sb) => {
                let n: u32 = sb.branch_count.saturating_add(1);
                let mut next = sb;
                next.has_branched = true;
                next.last_branch_memory_path = Some(path.to_string());
                next.branch_count = n;
                let _ = self.state.sandboxes.insert(id.to_string(), next);
                assert(old(self).sandboxes().insert(id@, next) =~= self.sandboxes());
                Some(n)
            },
            None => None,
        }
    }

    /// Drops the sandboxes that no longer run and marks the running
    /// workspaces that lost theirs as stale. Snapshots are kept: they are
    /// files. `alive` holds the pids that run, `netns` the network namespaces
    /// that exist, where they can be listed. Says how many sandboxes were
    /// dropped.
    pub fn reconcile(&mut self, alive: &Vec<u32>, netns: &Option<Vec<String>>) -> (pruned: usize)
        ensures
            final(self).state.snapshots == old(self).state.snapshots,
            final(self).sandboxes() == survivors(old(self).sandboxes(), alive@, listed(*netns)),
            final(self).workspaces() == old(self).workspaces().map_values(
                |w: WorkspaceInfo| settled(w, final(self).sandboxes()),
            ),
            pruned == old(self).sandboxes().dom().len() - final(self).sandboxes().dom().len(),
    {
        let keys = self.state.sandboxes.key_list();
        let ghost ks = views(keys@);
        let mut stale: Vec<String> = Vec::new();
        let mut i: usize = 0;
        assert(views(stale@) =~= Seq::<Seq<char>>::empty());
        while i < keys.len()
            invariant
                i <= keys.len(),
                *self == *old(self),
                ks == views(keys@),
                ks == self.state.sandboxes.keys(),
                forall|k: Seq<char>| #[trigger] ks.contains(k) <==> self.sandboxes().contains_key(k),
                forall|k: Seq<char>| #[trigger]
                    views(stale@).contains(k) <==> ks.take(i as int).contains(k) && stale_sandbox(
                        self.sandboxes()[k],
                        alive@,
                        listed(*netns),
                    ),
            decreases keys.len() - i,
        {
            let ghost before = views(stale@);
            let ghost key = ks[i as int];
            proof {
                assert(key == keys@[i as int]@);
                assert(ks.contains(key));
            }
            let mut drop_it = false;
            match self.state.sandboxes.get(keys[i].as_str()) {
                Some(sb) => {
                    match sb.pid {
                        Some(p) => {
                            if !holds_pid(alive, p) {
                                drop_it = true;
                            }
                        },
                        None => {},
                    }
                    match (netns, &sb.netns) {
                        (Some(names), Some(ns)) => {
                            if !holds_str(names, ns.as_str()) {
                                drop_it = true;
                            }
                        },
                        _ => {},
                    }
                },
                None => {},
            }
            assert(drop_it == stale_sandbox(self.sandboxes()[key], alive@, listed(*netns)));
            if drop_it {
                let k0 = keys[i].clone();
                proof {
                    assert(views(stale@.push(k0)) =~= before.push(key));
                }
                stale.push(k0);
            }
            proof {
                assert forall|k: Seq<char>| #[trigger]
                    views(stale@).contains(k) <==> ks.take(i + 1).contains(k) && stale_sandbox(
                        self.sandboxes()[k],
                        alive@,
                        listed(*netns),
                    ) by {
                    crate::table::lemma_take_next_contains(ks, i as int, k);
                    if drop_it {
                        let t = views(stale@);
                        assert(t.take(t.len() - 1) =~= before);
                        crate::table::lemma_take_next_contains(t, t.len() - 1, k);
                        assert(t.take(t.len() as int) =~= t);
                    }
                    assert(before.contains(k) <==> ks.take(i as int).contains(k) && stale_sandbox(
                        self.sandboxes()[k],
                        alive@,
                        listed(*netns),
                    ));
                }
            }
            i += 1;
        }
        assert(ks.take(i as int) =~= ks);
        let pruned = self.state.sandboxes.remove_all(&stale);
        proof {
            assert forall|k: Seq<char>| #[trigger]
                self.sandboxes().contains_key(k) <==> old(self).sandboxes().contains_key(k)
                    && !stale_sandbox(old(self).sandboxes()[k], alive@, listed(*netns)) by {
                assert(views(stale@).contains(k) <==> ks.contains(k) && stale_sandbox(
                    old(self).sandboxes()[k],
                    alive@,
                    listed(*netns),
                ));
            }
        }
        assert(self.sandboxes() =~= survivors(old(self).sandboxes(), alive@, listed(*netns)));
        self.settle_workspaces();
        pruned
    }

    fn settle_workspaces(&mut self)
        ensures
            final(self).state.snapshots == old(self).state.snapshots,
            final(self).state.sandboxes == old(self).state.sandboxes,
            final(self).workspaces() == old(self).workspaces().map_values(
                |w: WorkspaceInfo| settled(w, old(self).sandboxes()),
            ),
    {
        let names = self.state.workspaces.key_list();
        let ghost ks = views(names@);
        let ghost start = self.workspaces();
        let mut i: usize = 0;
        assert(ks.take(0) =~= Seq::<Seq<char>>::empty());
        while i < names.len()
            invariant
                i <= names.len(),
                ks == views(names@),
                start == old(self).workspaces(),
                self.state.snapshots == old(self).state.snapshots,
                self.state.sandboxes == old(self).state.sandboxes,
                forall|k: Seq<char>| #[trigger] ks.contains(k) <==> start.contains_key(k),
                self.workspaces().dom() == start.dom(),
                forall|k: Seq<char>| #[trigger]
                    start.contains_key(k) ==> self.workspaces()[k] == start[k]
                        || self.workspaces()[k] == settled(start[k], self.sandboxes()),
                forall|k: Seq<char>| #[trigger]
                    ks.take(i as int).contains(k) ==> self.workspaces()[k] == settled(
                        start[k],
                        self.sandboxes(),
                    ),
            decreases names.len() - i,
        {
            let ghost before = self.workspaces();
            let ghost key = ks[i as int];
            proof {
                assert(key == names@[i as int]@);
                assert(ks.contains(key));
            }
            match self.state.workspaces.get_copy(names[i].as_str()) {
                Some(ws) => {
                    let gone = match &ws.live_sandbox_id {
                        Some(id) => !self.state.sandboxes.contains(id.as_str()),
                        None => true,
                    };
                    if ws.status == WorkspaceStatus::Running && gone {
                        let mut next = ws;
                        next.status = WorkspaceStatus::Stale;
                        next.live_sandbox_id = None;
                        let _ = self.state.workspaces.insert(names[i].clone(), next);
                    }
                },
                None => {},
            }
            proof {
                assert(self.workspaces().dom() =~= start.dom());
                assert forall|k: Seq<char>| #[trigger]
                    ks.take(i + 1).contains(k) implies self.workspaces()[k] == settled(
                    start[k],
                    self.sandboxes(),
                ) by {
                    crate::table::lemma_take_next_contains(ks, i as int, k);
                    if k != key {
                        assert(ks.take(i as int).contains(k));
                        assert(self.workspaces()[k] == before[k]);
                    }
                }
            }
            i += 1;
        }
        proof {
            assert(ks.take(i as int) =~= ks);
            assert forall|k: Seq<char>| #[trigger] start.contains_key(k) implies self.workspaces()[k]
                == settled(start[k], old(self).sandboxes()) by {
                assert(ks.contains(k));
            }
            assert(self.workspaces() =~= start.map_values(
                |w: WorkspaceInfo| settled(w, old(self).sandboxes()),
            ));
        }
    }

    /// How many snapshots and sandboxes there are.
    pub fn counts(&self) -> (r: (usize, usize))
        ensures
            r.0 == self.snapshots().dom().len(),
            r.1 == self.sandboxes().dom().len(),
    {
        (self.state.snapshots.len(), self.state.sandboxes.len())
    }
}

/// Reconciling again against the same system changes nothing more.
pub proof fn law_reconcile_is_idempotent(
    sandboxes: Map<Seq<char>, SandboxInfo>,
    workspaces: Map<Seq<char>, WorkspaceInfo>,
    alive: Seq<u32>,
    netns: Option<Seq<Seq<char>>>,
)
    ensures
        ({
            let kept = survivors(sandboxes, alive, netns);
            let once = workspaces.map_values(|w: WorkspaceInfo| settled(w, kept));
            &&& survivors(kept, alive, netns) == kept
            &&& once.map_values(|w: WorkspaceInfo| settled(w, kept)) == once
        }),
{
    let kept = survivors(sandboxes, alive, netns);
    let once = workspaces.map_values(|w: WorkspaceInfo| settled(w, kept));
    assert(survivors(kept, alive, netns) =~= kept);
    assert(once.map_values(|w: WorkspaceInfo| settled(w, kept)) =~= once);
}

/// After a restart every running workspace has a sandbox that runs.
pub proof fn law_running_workspace_has_sandbox(
    ws: WorkspaceInfo,
    sandboxes: Map<Seq<char>, SandboxInfo>,
)
    ensures
        settled(ws, sandboxes).status == WorkspaceStatus::Running ==> {
            &&& settled(ws, sandboxes).live_sandbox_id matches Some(id)
            &&& sandboxes.contains_key(id@)
        },
{
}

/// A restart keeps exactly the sandboxes whose process still runs and whose
/// namespace is still there, as far as either is known, and keeps them as they
/// were.
pub proof fn law_restart_keeps_what_runs(
    sandboxes: Map<Seq<char>, SandboxInfo>,
    alive: Seq<u32>,
    netns: Option<Seq<Seq<char>>>,
    id: Seq<char>,
)
    ensures
        ({
            let kept = survivors(sandboxes, alive, netns);
            let sb = sandboxes[id];
            &&& kept.contains_key(id) <==> {
                &&& sandboxes.contains_key(id)
                &&& sb.pid matches Some(p) ==> alive.contains(p)
                &&& netns is Some && sb.netns is Some ==> netns->0.contains(sb.netns->0@)
            }
            &&& kept.contains_key(id) ==> kept[id] == sb
        }),
{
}

} // verus!
