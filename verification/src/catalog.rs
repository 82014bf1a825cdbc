//! The catalog: the registry owning all live sandboxes and the composition
//! point of the host.
//!
//! All catalog state is mutated only by the single mainloop thread, which
//! drains a command queue and applies each command serially; the methods here
//! are those serial steps.  Filesystem and network effects are returned as
//! plans (paths to write, text to persist, URLs to fetch) for the caller to
//! perform.

use crate::chan::channel_send;
use crate::descriptor::{encode_name_list, DescriptorView, PluginDescriptor};
use crate::path::{join_path, join_path_spec};
use crate::lifecycle::{sandbox_step, sandbox_step_spec, ControlMessage, SandboxEvent, SandboxState};
use crate::rpc::{PluginCatalogNotification, PluginCatalogRpc, PluginServerRpcHandler, ServerRpc};
use crate::strutil::{free_of, join_lines, pieces_free_of, seq_views, str_free_of};
use crate::PluginId;
use vstd::prelude::*;

verus! {

/// A plugin's name, the key of the descriptor map and the disabled set.
pub type PluginName = String;

/// One live sandbox as the catalog sees it: its identity, the plugin it
/// runs, the installation directory its filesystem view is rooted at, and
/// where it stands in its lifecycle.
pub struct SandboxInstance {
    pub id: PluginId,
    pub name: String,
    pub dir: Option<String>,
    pub state: SandboxState,
}

/// Why a sandbox could not be started.
#[derive(Clone, Copy, Debug, PartialEq, Eq, Structural)]
pub enum StartError {
    /// The descriptor names no bytecode artifact.
    MissingArtifact,
    /// The descriptor has no resolved installation directory to root the
    /// sandbox's filesystem view at.
    MissingDirectory,
}

/// What the caller must do to finish starting a sandbox: compile the
/// artifact, build the isolated environment rooted at `root_dir`, and spawn
/// the worker thread for the instance registered under `plugin_id`.
pub struct StartPlan {
    pub plugin_id: PluginId,
    pub wasm: String,
    pub root_dir: String,
}

/// The registry owning all live sandboxes, the known descriptors, and the
/// persisted disabled-plugin set.
pub struct PluginCatalog {
    pub next_id: u64,
    pub items: Vec<PluginDescriptor>,
    pub disabled: Vec<String>,
    pub instances: Vec<SandboxInstance>,
    pub senders: Vec<(String, crossbeam_channel::Sender<ControlMessage>)>,
    pub servers: Vec<PluginServerRpcHandler>,
}

impl PluginCatalog {
    /// The id the next sandbox will be given.
    pub open spec fn next_plugin_id_spec(self) -> u64 {
        self.next_id
    }

    /// The live instances, in registration order.
    pub open spec fn instances_view(self) -> Seq<SandboxInstance> {
        self.instances@
    }

    /// The per-plugin control senders, by plugin name.
    pub open spec fn senders_view(self) -> Seq<(String, crossbeam_channel::Sender<ControlMessage>)> {
        self.senders@
    }

    /// The loaded plugin servers, in arrival order.
    pub open spec fn servers_view(self) -> Seq<PluginServerRpcHandler> {
        self.servers@
    }

    /// A descriptor with this name is known.
    pub open spec fn has_item(self, name: Seq<char>) -> bool {
        item_named(self.items@, name)
    }

    /// This name stands in the disabled set.
    pub open spec fn is_disabled(self, name: Seq<char>) -> bool {
        name_listed(self.disabled@, name)
    }

    /// A live instance carries this id.
    pub open spec fn has_instance(self, id: PluginId) -> bool {
        instance_with(self.instances@, id)
    }

    /// A control sender is stored for this name.
    pub open spec fn has_sender(self, name: Seq<char>) -> bool {
        sender_named(self.senders@, name)
    }

    /// Names are unique among items, the disabled set, and the sender map; a
    /// PluginId is bound to at most one instance, and every assigned id lies
    /// below the allocation cursor — so an id is never reused.
    pub open spec fn wf(self) -> bool {
        &&& forall|i: int, j: int|
            #![trigger self.items@[i], self.items@[j]]
            0 <= i < j < self.items@.len() ==> self.items@[i].name@ != self.items@[j].name@
        &&& forall|i: int, j: int|
            #![trigger self.disabled@[i], self.disabled@[j]]
            0 <= i < j < self.disabled@.len() ==> self.disabled@[i]@ != self.disabled@[j]@
        &&& forall|i: int|
            0 <= i < self.disabled@.len() ==> free_of((#[trigger] self.disabled@[i])@, '\n')
        &&& forall|i: int, j: int|
            #![trigger self.senders@[i], self.senders@[j]]
            0 <= i < j < self.senders@.len() ==> self.senders@[i].0@ != self.senders@[j].0@
        &&& forall|i: int, j: int|
            #![trigger self.instances@[i], self.instances@[j]]
            0 <= i < j < self.instances@.len() ==> self.instances@[i].id != self.instances@[j].id
        &&& forall|i: int|
            #![trigger self.instances@[i]]
            0 <= i < self.instances@.len() ==> self.instances@[i].id.0 < self.next_id
    }

    /// An empty catalog.
    pub fn new() -> (r: Self)
        ensures
            r.wf(),
            r.next_plugin_id_spec() == 0,
            r.items@.len() == 0,
            r.disabled@.len() == 0,
            r.instances_view().len() == 0,
            r.senders_view().len() == 0,
            r.servers_view().len() == 0,
    {
        PluginCatalog {
            next_id: 0,
            items: Vec::new(),
            disabled: Vec::new(),
            instances: Vec::new(),
            senders: Vec::new(),
            servers: Vec::new(),
        }
    }

    /// How one id allocation changes the catalog: the returned id is the
    /// cursor, the cursor advances, and nothing else moves.
    pub open spec fn plugin_id_assigned(pre: Self, post: Self, id: PluginId) -> bool {
        &&& id.0 == pre.next_plugin_id_spec()
        &&& post.next_plugin_id_spec() == pre.next_plugin_id_spec() + 1
        &&& post.items == pre.items
        &&& post.disabled == pre.disabled
        &&& post.instances_view() == pre.instances_view()
        &&& post.senders_view() == pre.senders_view()
        &&& post.servers_view() == pre.servers_view()
    }

    /// Assigns the next PluginId; monotonically increasing, never reused.
    pub fn next_plugin_id(&mut self) -> (id: PluginId)
        requires
            old(self).wf(),
            old(self).next_plugin_id_spec() < u64::MAX,
        ensures
            final(self).wf(),
            Self::plugin_id_assigned(*old(self), *final(self), id),
            !old(self).has_instance(id),
    {
        let id = PluginId(self.next_id);
        self.next_id = self.next_id + 1;
        id
    }

    /// PluginIds are distinct across any two allocations, whatever happens
    /// in between: no later operation lowers the cursor, so the second id is
    /// strictly larger.
    pub proof fn lemma_plugin_ids_distinct(
        c0: Self,
        c1: Self,
        c2: Self,
        c3: Self,
        id1: PluginId,
        id2: PluginId,
    )
        requires
            Self::plugin_id_assigned(c0, c1, id1),
            c1.next_plugin_id_spec() <= c2.next_plugin_id_spec(),
            Self::plugin_id_assigned(c2, c3, id2),
        ensures
            id1.0 < id2.0,
            id1 != id2,
    {
    }

    /// How applying one lifecycle event to the instance with `id` changes the
    /// catalog: that instance steps by the transition relation, every other
    /// instance — and everything else — is untouched.
    pub open spec fn instance_event_applied(
        pre: Self,
        post: Self,
        id: PluginId,
        e: SandboxEvent,
    ) -> bool {
        &&& post.items == pre.items
        &&& post.disabled == pre.disabled
        &&& post.senders_view() == pre.senders_view()
        &&& post.servers_view() == pre.servers_view()
        &&& post.next_plugin_id_spec() == pre.next_plugin_id_spec()
        &&& post.instances_view().len() == pre.instances_view().len()
        &&& forall|i: int|
            0 <= i < pre.instances_view().len() && (#[trigger] pre.instances_view()[i]).id != id
                ==> post.instances_view()[i] == pre.instances_view()[i]
        &&& forall|i: int|
            0 <= i < pre.instances_view().len() && (#[trigger] pre.instances_view()[i]).id == id
                ==> {
                &&& post.instances_view()[i].id == pre.instances_view()[i].id
                &&& post.instances_view()[i].name == pre.instances_view()[i].name
                &&& post.instances_view()[i].dir == pre.instances_view()[i].dir
                &&& post.instances_view()[i].state == sandbox_step_spec(
                    pre.instances_view()[i].state,
                    e,
                )
            }
    }

    /// Applies one observed lifecycle event to the instance carrying `id`.
    /// Every other instance is untouched: a fault in one sandbox cannot move
    /// any other sandbox's state.
    #[verifier::loop_isolation(false)]
    pub fn apply_instance_event(&mut self, id: PluginId, e: SandboxEvent) -> (found: bool)
        requires
            old(self).wf(),
        ensures
            final(self).wf(),
            Self::instance_event_applied(*old(self), *final(self), id, e),
            found == old(self).has_instance(id),
    {
        let mut i: usize = 0;
        while i < self.instances.len()
            invariant
                i <= self.instances@.len(),
                forall|j: int|
                    0 <= j < i ==> (#[trigger] self.instances@[j]).id != id,
                *self == *old(self),
            decreases self.instances@.len() - i,
        {
            if self.instances[i].id == id {
                let state = self.instances[i].state;
                let next = sandbox_step(state, e);
                let ghost pre_seq = self.instances@;
                let inst = self.instances.remove(i);
                self.instances.insert(
                    i,
                    SandboxInstance { id: inst.id, name: inst.name, dir: inst.dir, state: next },
                );
                proof {
                    assert(self.instances@ =~= pre_seq.update(
                        i as int,
                        SandboxInstance {
                            id: pre_seq[i as int].id,
                            name: pre_seq[i as int].name,
                            dir: pre_seq[i as int].dir,
                            state: sandbox_step_spec(pre_seq[i as int].state, e),
                        },
                    ));
                    assert forall|j: int|
                        0 <= j < old(self).instances@.len() && (#[trigger] old(
                            self,
                        ).instances@[j]).id == id implies j == i by {
                        if j != i {
                            assert(old(self).instances@[j].id != old(self).instances@[i as int].id);
                        }
                    }
                }
                return true;
            }
            i = i + 1;
        }
        false
    }

    /// A trap inside one instance's `initialize` is fatal to that instance
    /// alone: every other instance keeps its state exactly, so none is kept
    /// from reaching `Running`.
    pub proof fn lemma_trap_isolated(pre: Self, post: Self, id: PluginId, i: int)
        requires
            Self::instance_event_applied(pre, post, id, SandboxEvent::InitializeTrap),
            0 <= i < pre.instances_view().len(),
            pre.instances_view()[i].id != id,
        ensures
            post.instances_view()[i] == pre.instances_view()[i],
    {
    }

    /// Forgets every known descriptor and live instance.
    pub fn stop(&mut self)
        requires
            old(self).wf(),
        ensures
            final(self).wf(),
            final(self).items@.len() == 0,
            final(self).instances_view().len() == 0,
            final(self).disabled == old(self).disabled,
            final(self).senders_view() == old(self).senders_view(),
            final(self).servers_view() == old(self).servers_view(),
            final(self).next_plugin_id_spec() == old(self).next_plugin_id_spec(),
    {
        self.items.clear();
        self.instances.clear();
    }

    /// Drops every live instance and rebuilds the descriptor map and disabled
    /// set from a full discovery pass.
    pub fn reload(&mut self, descriptors: &Vec<PluginDescriptor>, disabled_names: &Vec<String>)
        requires
            old(self).wf(),
        ensures
            final(self).wf(),
            final(self).instances_view().len() == 0,
            final(self).senders_view() == old(self).senders_view(),
            final(self).servers_view() == old(self).servers_view(),
            final(self).next_plugin_id_spec() == old(self).next_plugin_id_spec(),
            forall|n: Seq<char>| #[trigger] final(self).has_item(n) <==> item_named(descriptors@, n),
            forall|i: int|
                0 <= i < final(self).items@.len() ==> last_occurrence_of(
                    descriptors@,
                    #[trigger] final(self).items@[i],
                ),
            forall|n: Seq<char>| #[trigger]
                final(self).is_disabled(n) <==> (name_listed(disabled_names@, n) && item_named(
                    descriptors@,
                    n,
                ) && free_of(n, '\n')),
    {
        self.instances.clear();
        self.load(descriptors, disabled_names);
    }

    /// Rebuilds the descriptor map and the disabled set from a full discovery
    /// pass: `descriptors` are the parsed descriptor files (a later file with
    /// the same name wins), and `disabled_names` is the parsed persisted
    /// disabled list — a listed name counts only while a descriptor bears it.
    #[verifier::loop_isolation(false)]
    pub fn load(&mut self, descriptors: &Vec<PluginDescriptor>, disabled_names: &Vec<String>)
        requires
            old(self).wf(),
        ensures
            final(self).wf(),
            final(self).instances_view() == old(self).instances_view(),
            final(self).senders_view() == old(self).senders_view(),
            final(self).servers_view() == old(self).servers_view(),
            final(self).next_plugin_id_spec() == old(self).next_plugin_id_spec(),
            forall|n: Seq<char>| #[trigger] final(self).has_item(n) <==> item_named(descriptors@, n),
            forall|i: int|
                0 <= i < final(self).items@.len() ==> last_occurrence_of(
                    descriptors@,
                    #[trigger] final(self).items@[i],
                ),
            forall|n: Seq<char>| #[trigger]
                final(self).is_disabled(n) <==> (name_listed(disabled_names@, n) && item_named(
                    descriptors@,
                    n,
                ) && free_of(n, '\n')),
    {
        self.items.clear();
        self.disabled.clear();
        let mut idx: usize = 0;
        while idx < descriptors.len()
            invariant
                idx <= descriptors@.len(),
                self.instances@ == old(self).instances@,
                self.senders@ == old(self).senders@,
                self.servers@ == old(self).servers@,
                self.next_id == old(self).next_id,
                self.disabled@.len() == 0,
                forall|i: int, j: int|
                    #![trigger self.items@[i], self.items@[j]]
                    0 <= i < j < self.items@.len() ==> self.items@[i].name@ != self.items@[j].name@,
                forall|n: Seq<char>| #[trigger]
                    item_named(self.items@, n) <==> item_named(descriptors@.take(idx as int), n),
                forall|i: int|
                    0 <= i < self.items@.len() ==> last_occurrence_of(
                        descriptors@.take(idx as int),
                        #[trigger] self.items@[i],
                    ),
            decreases descriptors@.len() - idx,
        {
            let d = descriptors[idx].clone();
            let ghost head = *self;
            let ghost pre_items = self.items@;
            let ghost pre_take = descriptors@.take(idx as int);
            let found = find_item_index(&self.items, &d.name);
            match found {
                Some(f) => {
                    self.items.remove(f);
                },
                None => {},
            }
            self.items.push(d);
            proof {
                let new_take = descriptors@.take(idx as int + 1);
                assert(new_take =~~= pre_take.push(descriptors@[idx as int]));
                assert(descriptors@[idx as int]@ == d@);
                // maps an index of the mutated items back to the head state
                assert forall|i: int|
                    0 <= i < self.items@.len() - 1 implies exists|p: int|
                    0 <= p < pre_items.len() && #[trigger] self.items@[i] == pre_items[p] by {
                    match found {
                        Some(f) => {
                            if i < f as int {
                                assert(self.items@[i] == pre_items[i]);
                            } else {
                                assert(self.items@[i] == pre_items[i + 1]);
                            }
                        },
                        None => {
                            assert(self.items@[i] == pre_items[i]);
                        },
                    }
                }
                // names are still unique
                assert forall|i: int, j: int|
                    #![trigger self.items@[i], self.items@[j]]
                    0 <= i < j < self.items@.len() implies self.items@[i].name@
                    != self.items@[j].name@ by {
                    if j == self.items@.len() - 1 {
                        let p = choose|p: int|
                            0 <= p < pre_items.len() && #[trigger] self.items@[i] == pre_items[p];
                        match found {
                            Some(f) => {
                                if i < f as int {
                                } else {
                                    assert(self.items@[i] == pre_items[i + 1]);
                                }
                                assert(pre_items[f as int].name@ == d.name@);
                            },
                            None => {
                                assert(self.items@[i] == pre_items[i]);
                                assert(head.items@[i].name@ != d.name@);
                            },
                        }
                    }
                }
                assert forall|n: Seq<char>| #[trigger]
                    item_named(self.items@, n) <==> item_named(new_take, n) by {
                    if item_named(self.items@, n) {
                        let i = choose|i: int|
                            0 <= i < self.items@.len() && (#[trigger] self.items@[i]).name@ == n;
                        if i == self.items@.len() - 1 {
                            assert(n == d.name@);
                            assert(new_take[idx as int].name@ == n);
                        } else {
                            let p = choose|p: int|
                                0 <= p < pre_items.len() && #[trigger] self.items@[i]
                                    == pre_items[p];
                            assert(head.items@[p].name@ == n);
                            assert(item_named(head.items@, n));
                            assert(item_named(pre_take, n));
                            let k = choose|k: int|
                                0 <= k < pre_take.len() && (#[trigger] pre_take[k]).name@ == n;
                            assert(new_take[k].name@ == n);
                        }
                    }
                    if item_named(new_take, n) {
                        let k = choose|k: int|
                            0 <= k < new_take.len() && (#[trigger] new_take[k]).name@ == n;
                        if k == idx as int {
                            assert(self.items@[self.items@.len() - 1].name@ == n);
                        } else {
                            assert(pre_take[k].name@ == n);
                            assert(item_named(pre_take, n));
                            assert(item_named(head.items@, n));
                            if n == d.name@ {
                                assert(self.items@[self.items@.len() - 1].name@ == n);
                            } else {
                                let q = choose|q: int|
                                    0 <= q < head.items@.len() && #[trigger] head.items@[q].name@
                                        == n;
                                match found {
                                    Some(f) => {
                                        assert(q != f);
                                        if q < f as int {
                                            assert(self.items@[q].name@ == n);
                                        } else {
                                            assert(self.items@[q - 1].name@ == n);
                                        }
                                    },
                                    None => {
                                        assert(self.items@[q].name@ == n);
                                    },
                                }
                            }
                        }
                    }
                }
                assert forall|i: int|
                    0 <= i < self.items@.len() implies last_occurrence_of(
                    new_take,
                    #[trigger] self.items@[i],
                ) by {
                    let s = self.items@[i];
                    if i == self.items@.len() - 1 {
                        assert(new_take[idx as int]@ == s@);
                        assert(forall|k: int|
                            (idx as int) < k < new_take.len() ==> (#[trigger] new_take[k]).name@
                                != s.name@);
                        assert(last_occurrence_of(new_take, s));
                    } else {
                        let p = choose|p: int|
                            0 <= p < pre_items.len() && #[trigger] self.items@[i] == pre_items[p];
                        assert(head.items@[p] == s);
                        assert(last_occurrence_of(pre_take, head.items@[p]));
                        let j = choose|j: int|
                            0 <= j < pre_take.len() && #[trigger] pre_take[j]@ == s@ && (forall|
                                k: int,
                            |
                                j < k < pre_take.len() ==> (#[trigger] pre_take[k]).name@
                                    != s.name@);
                        assert(s.name@ != d.name@) by {
                            match found {
                                Some(f) => {
                                    assert(pre_items[f as int].name@ == d.name@);
                                    if p < f as int {
                                    } else {
                                        assert(self.items@[i] == pre_items[p]);
                                    }
                                    assert(p != f);
                                },
                                None => {
                                    assert(head.items@[p].name@ != d.name@);
                                },
                            }
                        }
                        assert forall|k: int| j < k < new_take.len() implies (#[trigger]
                        new_take[k]).name@ != s.name@ by {
                            if k < (idx as int) {
                                assert(new_take[k] == pre_take[k]);
                            } else {
                                assert(new_take[k].name@ == d.name@);
                            }
                        }
                        assert(new_take[j]@ == s@);
                        assert(last_occurrence_of(new_take, s));
                    }
                }
            }
            idx = idx + 1;
        }
        proof {
            assert(descriptors@.take(descriptors@.len() as int) =~~= descriptors@);
        }
        let mut k: usize = 0;
        while k < disabled_names.len()
            invariant
                k <= disabled_names@.len(),
                self.instances@ == old(self).instances@,
                self.senders@ == old(self).senders@,
                self.servers@ == old(self).servers@,
                self.next_id == old(self).next_id,
                forall|i: int, j: int|
                    #![trigger self.items@[i], self.items@[j]]
                    0 <= i < j < self.items@.len() ==> self.items@[i].name@ != self.items@[j].name@,
                forall|n: Seq<char>| #[trigger]
                    item_named(self.items@, n) <==> item_named(descriptors@, n),
                forall|i: int|
                    0 <= i < self.items@.len() ==> last_occurrence_of(
                        descriptors@,
                        #[trigger] self.items@[i],
                    ),
                forall|i: int, j: int|
                    #![trigger self.disabled@[i], self.disabled@[j]]
                    0 <= i < j < self.disabled@.len() ==> self.disabled@[i]@ != self.disabled@[j]@,
                forall|i: int|
                    0 <= i < self.disabled@.len() ==> free_of(
                        (#[trigger] self.disabled@[i])@,
                        '\n',
                    ),
                forall|n: Seq<char>| #[trigger]
                    name_listed(self.disabled@, n) <==> (name_listed(
                        disabled_names@.take(k as int),
                        n,
                    ) && item_named(descriptors@, n) && free_of(n, '\n')),
            decreases disabled_names@.len() - k,
        {
            let n = disabled_names[k].clone();
            let ghost pre_take = disabled_names@.take(k as int);
            let ghost head = *self;
            let known = match find_item_index(&self.items, &n) {
                Some(_) => true,
                None => false,
            };
            let already = match find_string_index(&self.disabled, &n) {
                Some(_) => true,
                None => false,
            };
            let clean = str_free_of(n.as_str(), '\n');
            if known && !already && clean {
                self.disabled.push(n);
            }
            proof {
                let new_take = disabled_names@.take(k as int + 1);
                assert(new_take =~~= pre_take.push(disabled_names@[k as int]));
                assert(disabled_names@[k as int]@ == n@);
                assert forall|m: Seq<char>| #[trigger]
                    name_listed(self.disabled@, m) <==> (name_listed(new_take, m) && item_named(
                    descriptors@,
                    m,
                ) && free_of(m, '\n')) by {
                    if name_listed(self.disabled@, m) {
                        let i = choose|i: int|
                            0 <= i < self.disabled@.len() && (#[trigger] self.disabled@[i])@ == m;
                        if i < head.disabled@.len() {
                            assert(head.disabled@[i]@ == m);
                            assert(name_listed(head.disabled@, m));
                            assert(name_listed(pre_take, m));
                            let q = choose|q: int|
                                0 <= q < pre_take.len() && (#[trigger] pre_take[q])@ == m;
                            assert(new_take[q]@ == m);
                            assert(item_named(descriptors@, m));
                        } else {
                            assert(m == n@);
                            assert(new_take[k as int]@ == m);
                            assert(known && clean);
                            assert(item_named(self.items@, m));
                            assert(free_of(m, '\n'));
                        }
                    }
                    if name_listed(new_take, m) && item_named(descriptors@, m) && free_of(
                        m,
                        '\n',
                    ) {
                        let q = choose|q: int|
                            0 <= q < new_take.len() && (#[trigger] new_take[q])@ == m;
                        assert(item_named(self.items@, m));
                        if q < k as int {
                            assert(pre_take[q]@ == m);
                            assert(name_listed(pre_take, m));
                            assert(name_listed(head.disabled@, m));
                            let i = choose|i: int|
                                0 <= i < head.disabled@.len() && (#[trigger] head.disabled@[i])@
                                    == m;
                            assert(self.disabled@[i]@ == m);
                        } else {
                            assert(m == n@);
                            if known && !already && clean {
                                assert(self.disabled@[self.disabled@.len() - 1]@ == m);
                            } else if known && already {
                                assert(name_listed(head.disabled@, m));
                                let i = choose|i: int|
                                    0 <= i < head.disabled@.len() && (#[trigger]
                                    head.disabled@[i])@ == m;
                                assert(self.disabled@[i]@ == m);
                            } else if known {
                                assert(!clean);
                                assert(!free_of(m, '\n'));
                            } else {
                                assert(!item_named(self.items@, m));
                            }
                        }
                    }
                }
            }
            k = k + 1;
        }
        proof {
            assert(disabled_names@.take(disabled_names@.len() as int) =~~= disabled_names@);
        }
    }
}

impl Default for PluginCatalog {
    /// The same empty catalog `new` builds.
    fn default() -> (r: Self)
        ensures
            r.wf(),
            r.next_plugin_id_spec() == 0,
            r.items@.len() == 0,
            r.disabled@.len() == 0,
            r.instances_view().len() == 0,
            r.senders_view().len() == 0,
            r.servers_view().len() == 0,
    {
        PluginCatalog::new()
    }
}

/// In a well-formed catalog the disabled names are newline-free, so the
/// persisted list reads back as written.
proof fn lemma_disabled_views_clean(c: PluginCatalog)
    requires
        forall|i: int| 0 <= i < c.disabled@.len() ==> free_of((#[trigger] c.disabled@[i])@, '\n'),
    ensures
        pieces_free_of(seq_views(c.disabled@), '\n'),
{
    assert forall|i: int, j: int|
        0 <= i < seq_views(c.disabled@).len() && 0 <= j < seq_views(c.disabled@)[i].len() implies
        seq_views(c.disabled@)[i][j] != '\n' by {
        assert(seq_views(c.disabled@)[i] == c.disabled@[i]@);
        assert(free_of(c.disabled@[i]@, '\n'));
    }
}

/// Some descriptor in `ds` bears this name.
pub open spec fn item_named(ds: Seq<PluginDescriptor>, n: Seq<char>) -> bool {
    exists|i: int| 0 <= i < ds.len() && (#[trigger] ds[i]).name@ == n
}

/// Some sender entry bears this name.
pub open spec fn sender_named(
    ss: Seq<(String, crossbeam_channel::Sender<ControlMessage>)>,
    n: Seq<char>,
) -> bool {
    exists|i: int| 0 <= i < ss.len() && (#[trigger] ss[i]).0@ == n
}

/// Some instance carries this id.
pub open spec fn instance_with(insts: Seq<SandboxInstance>, id: PluginId) -> bool {
    exists|i: int| 0 <= i < insts.len() && (#[trigger] insts[i]).id == id
}

/// Some name in `ns` reads as `n`.
pub open spec fn name_listed(ns: Seq<String>, n: Seq<char>) -> bool {
    exists|i: int| 0 <= i < ns.len() && (#[trigger] ns[i])@ == n
}

/// `d` carries the content of the last descriptor in `ds` bearing its name.
pub open spec fn last_occurrence_of(ds: Seq<PluginDescriptor>, d: PluginDescriptor) -> bool {
    exists|j: int|
        0 <= j < ds.len() && #[trigger] ds[j]@ == d@ && (forall|k: int|
            j < k < ds.len() ==> (#[trigger] ds[k]).name@ != d.name@)
}

impl PluginCatalog {
    /// The descriptors to auto-start on a full start: every known descriptor
    /// whose name is not disabled, and no other.
    #[verifier::loop_isolation(false)]
    #[verifier::rlimit(30)]
    pub fn start_all(&self) -> (r: Vec<PluginDescriptor>)
        requires
            self.wf(),
        ensures
            forall|i: int|
                0 <= i < r@.len() ==> item_named(self.items@, (#[trigger] r@[i]).name@)
                    && !name_listed(self.disabled@, r@[i].name@),
            forall|i: int|
                0 <= i < r@.len() ==> exists|j: int|
                    0 <= j < self.items@.len() && (#[trigger] r@[i])@ == self.items@[j]@,
            forall|j: int|
                0 <= j < self.items@.len() && !name_listed(
                    self.disabled@,
                    (#[trigger] self.items@[j]).name@,
                ) ==> exists|i: int| 0 <= i < r@.len() && (#[trigger] r@[i])@ == self.items@[j]@,
    {
        let mut r: Vec<PluginDescriptor> = Vec::new();
        let mut j: usize = 0;
        while j < self.items.len()
            invariant
                j <= self.items@.len(),
                self.wf(),
                forall|i: int|
                    0 <= i < r@.len() ==> item_named(self.items@, (#[trigger] r@[i]).name@)
                        && !name_listed(self.disabled@, r@[i].name@),
                forall|i: int|
                    0 <= i < r@.len() ==> exists|q: int|
                        0 <= q < self.items@.len() && (#[trigger] r@[i])@ == self.items@[q]@,
                forall|q: int|
                    0 <= q < j && !name_listed(self.disabled@, (#[trigger] self.items@[q]).name@)
                        ==> exists|i: int|
                        0 <= i < r@.len() && (#[trigger] r@[i])@ == self.items@[q]@,
            decreases self.items@.len() - j,
        {
            match find_string_index(&self.disabled, &self.items[j].name) {
                Some(_) => {
                    proof {
                        assert(name_listed(self.disabled@, self.items@[j as int].name@));
                    }
                },
                None => {
                    let d = self.items[j].clone();
                    proof {
                        assert(!name_listed(self.disabled@, self.items@[j as int].name@));
                        assert(self.items@[j as int].name@ == d@.name);
                        assert(item_named(self.items@, d.name@));
                    }
                    let ghost prev_r = r@;
                    r.push(d);
                    proof {
                        assert(r@.len() == prev_r.len() + 1);
                        assert(forall|q: int| 0 <= q < prev_r.len() ==> #[trigger] r@[q] == prev_r[q]);
                        assert(r@[r@.len() - 1]@ == self.items@[j as int]@);
                        assert(r@[r@.len() - 1].name@ == self.items@[j as int].name@);
                        assert forall|q: int|
                            0 <= q < j + 1 && !name_listed(
                                self.disabled@,
                                (#[trigger] self.items@[q]).name@,
                            ) implies exists|i: int|
                            0 <= i < r@.len() && (#[trigger] r@[i])@ == self.items@[q]@ by {
                            if q == j as int {
                                assert(r@[r@.len() - 1]@ == self.items@[q]@);
                            } else {
                                let i = choose|i: int|
                                    0 <= i < prev_r.len() && (#[trigger] prev_r[i])@
                                        == self.items@[q]@;
                                assert(r@[i]@ == self.items@[q]@);
                            }
                        }
                    }
                },
            }
            j = j + 1;
        }
        r
    }

    /// Disables a plugin: its name enters the disabled set (it stays a known
    /// descriptor — disabled is not deleted), its control sender leaves the
    /// map and is handed back for an asynchronous `Stop`, and the text to
    /// persist is the encoding of the new disabled list.
    pub fn disable_plugin(&mut self, name: &String) -> (r: (
        Option<crossbeam_channel::Sender<ControlMessage>>,
        String,
    ))
        requires
            old(self).wf(),
            free_of(name@, '\n'),
        ensures
            final(self).wf(),
            final(self).items == old(self).items,
            final(self).instances_view() == old(self).instances_view(),
            final(self).servers_view() == old(self).servers_view(),
            final(self).next_plugin_id_spec() == old(self).next_plugin_id_spec(),
            final(self).is_disabled(name@),
            forall|n: Seq<char>| #[trigger]
                final(self).is_disabled(n) <==> (old(self).is_disabled(n) || n == name@),
            r.0 is Some <==> old(self).has_sender(name@),
            !final(self).has_sender(name@),
            forall|n: Seq<char>|
                n != name@ ==> (#[trigger] final(self).has_sender(n) <==> old(self).has_sender(n)),
            r.1@ == join_lines(seq_views(final(self).disabled@)),
            crate::descriptor::parse_name_list_spec(r.1@) == Some(seq_views(final(self).disabled@)),
    {
        let ghost pre_senders = self.senders@;
        let tx = match find_sender_index(&self.senders, name) {
            Some(i) => {
                let entry = self.senders.remove(i);
                proof {
                    assert forall|n: Seq<char>| n != name@ implies (#[trigger] sender_named(
                        self.senders@,
                        n,
                    ) <==> sender_named(pre_senders, n)) by {
                        if sender_named(self.senders@, n) {
                            let q = choose|q: int|
                                0 <= q < self.senders@.len() && (#[trigger] self.senders@[q]).0@
                                    == n;
                            if q < i {
                                assert(pre_senders[q].0@ == n);
                            } else {
                                assert(pre_senders[q + 1].0@ == n);
                            }
                        }
                        if sender_named(pre_senders, n) {
                            let q = choose|q: int|
                                0 <= q < pre_senders.len() && (#[trigger] pre_senders[q]).0@ == n;
                            if q < i {
                                assert(self.senders@[q].0@ == n);
                            } else {
                                assert(q > i);
                                assert(self.senders@[q - 1].0@ == n);
                            }
                        }
                    }
                    assert forall|q: int| 0 <= q < self.senders@.len() implies (#[trigger]
                    self.senders@[q]).0@ != name@ by {
                        if q < i {
                            assert(pre_senders[q].0@ != pre_senders[i as int].0@);
                        } else {
                            assert(pre_senders[q + 1].0@ != pre_senders[i as int].0@);
                        }
                    }
                }
                Some(entry.1)
            },
            None => None,
        };
        let ghost pre_disabled = self.disabled@;
        match find_string_index(&self.disabled, name) {
            Some(_) => {
                proof {
                    assert(name_listed(self.disabled@, name@));
                    assert forall|n: Seq<char>| #[trigger]
                        name_listed(self.disabled@, n) <==> (name_listed(pre_disabled, n) || n
                        == name@) by {
                        if n == name@ {
                            assert(name_listed(self.disabled@, n));
                        }
                    }
                }
            },
            None => {
                self.disabled.push(name.clone());
                proof {
                    assert(self.disabled@[self.disabled@.len() - 1]@ == name@);
                    assert forall|n: Seq<char>| #[trigger]
                        name_listed(self.disabled@, n) <==> (name_listed(pre_disabled, n) || n
                        == name@) by {
                        if name_listed(self.disabled@, n) {
                            let q = choose|q: int|
                                0 <= q < self.disabled@.len() && (#[trigger] self.disabled@[q])@
                                    == n;
                            if q < pre_disabled.len() {
                                assert(pre_disabled[q]@ == n);
                            } else {
                                assert(n == name@);
                            }
                        }
                        if name_listed(pre_disabled, n) {
                            let q = choose|q: int|
                                0 <= q < pre_disabled.len() && (#[trigger] pre_disabled[q])@ == n;
                            assert(self.disabled@[q]@ == n);
                        }
                        if n == name@ {
                            assert(self.disabled@[self.disabled@.len() - 1]@ == n);
                        }
                    }
                    assert forall|i: int, j: int|
                        #![trigger self.disabled@[i], self.disabled@[j]]
                        0 <= i < j < self.disabled@.len() implies self.disabled@[i]@
                        != self.disabled@[j]@ by {
                        if j == self.disabled@.len() - 1 {
                            assert(pre_disabled[i]@ != name@);
                        } else {
                            assert(pre_disabled[i]@ != pre_disabled[j]@);
                        }
                    }
                }
            },
        }
        let text = encode_name_list(&self.disabled);
        proof {
            lemma_disabled_views_clean(*self);
            crate::descriptor::lemma_name_list_round_trip(seq_views(self.disabled@));
        }
        (tx, text)
    }

    /// Enables a plugin: rewrites its descriptor against the plugin root (the
    /// installation directory and the artifact path below it), removes the
    /// name from the disabled set, and returns the descriptor to start along
    /// with the text to persist.  A descriptor with no artifact is refused
    /// and nothing changes.
    pub fn enable_plugin(&mut self, desc: &PluginDescriptor, plugins_root: &str) -> (r: Result<
        (PluginDescriptor, String),
        StartError,
    >)
        requires
            old(self).wf(),
        ensures
            final(self).wf(),
            final(self).items == old(self).items,
            final(self).instances_view() == old(self).instances_view(),
            final(self).senders_view() == old(self).senders_view(),
            final(self).servers_view() == old(self).servers_view(),
            final(self).next_plugin_id_spec() == old(self).next_plugin_id_spec(),
            match r {
                Ok((started, persist)) => {
                    &&& desc@.wasm is Some
                    &&& started@.name == desc@.name
                    &&& started@.version == desc@.version
                    &&& started@.repository == desc@.repository
                    &&& started@.themes == desc@.themes
                    &&& started@.configuration == desc@.configuration
                    &&& started@.dir == Some(join_path_spec(plugins_root@, desc@.name))
                    &&& started@.wasm == Some(
                        join_path_spec(join_path_spec(plugins_root@, desc@.name), desc@.wasm->0),
                    )
                    &&& !final(self).is_disabled(desc@.name)
                    &&& forall|n: Seq<char>| #[trigger]
                        final(self).is_disabled(n) <==> (old(self).is_disabled(n) && n
                            != desc@.name)
                    &&& persist@ == join_lines(seq_views(final(self).disabled@))
                    &&& crate::descriptor::parse_name_list_spec(persist@) == Some(
                        seq_views(final(self).disabled@),
                    )
                },
                Err(e) => {
                    &&& e == StartError::MissingArtifact
                    &&& desc@.wasm is None
                    &&& *final(self) == *old(self)
                },
            },
    {
        match &desc.wasm {
            None => Err(StartError::MissingArtifact),
            Some(w) => {
                let dir = join_path(plugins_root, desc.name.as_str());
                let wasm = join_path(dir.as_str(), w.as_str());
                let started = PluginDescriptor {
                    name: desc.name.clone(),
                    version: desc.version.clone(),
                    repository: desc.repository.clone(),
                    wasm: Some(wasm),
                    themes: crate::descriptor::clone_string_vec(&desc.themes),
                    configuration: crate::descriptor::clone_opt_string(&desc.configuration),
                    dir: Some(dir),
                };
                let ghost pre_disabled = self.disabled@;
                match find_string_index(&self.disabled, &desc.name) {
                    Some(i) => {
                        self.disabled.remove(i);
                        proof {
                            assert forall|n: Seq<char>| #[trigger]
                                self.is_disabled(n) <==> (old(self).is_disabled(n) && n
                                != desc@.name) by {
                                if self.is_disabled(n) {
                                    let q = choose|q: int|
                                        0 <= q < self.disabled@.len()
                                            && #[trigger] self.disabled@[q]@ == n;
                                    if q < i {
                                        assert(pre_disabled[q]@ == n);
                                        assert(pre_disabled[q]@ != pre_disabled[i as int]@);
                                    } else {
                                        assert(pre_disabled[q + 1]@ == n);
                                        assert(pre_disabled[q + 1]@ != pre_disabled[i as int]@);
                                    }
                                }
                                if old(self).is_disabled(n) && n != desc@.name {
                                    let q = choose|q: int|
                                        0 <= q < pre_disabled.len() && #[trigger] pre_disabled[q]@
                                            == n;
                                    if q < i {
                                        assert(self.disabled@[q]@ == n);
                                    } else {
                                        assert(q != i);
                                        assert(self.disabled@[q - 1]@ == n);
                                    }
                                }
                            }
                        }
                    },
                    None => {},
                }
                let persist = encode_name_list(&self.disabled);
                proof {
                    lemma_disabled_views_clean(*self);
                    crate::descriptor::lemma_name_list_round_trip(seq_views(self.disabled@));
                }
                Ok((started, persist))
            },
        }
    }

    /// Removes a plugin: the disable side effects come first (the control
    /// sender leaves the map and is handed back for the `Stop`), then the
    /// descriptor and the disabled entry are dropped; the caller deletes the
    /// returned installation directory and persists the returned text.
    pub fn remove_plugin(&mut self, name: &String, plugins_root: &str) -> (r: (
        Option<crossbeam_channel::Sender<ControlMessage>>,
        String,
        String,
    ))
        requires
            old(self).wf(),
            free_of(name@, '\n'),
        ensures
            final(self).wf(),
            final(self).instances_view() == old(self).instances_view(),
            final(self).servers_view() == old(self).servers_view(),
            final(self).next_plugin_id_spec() == old(self).next_plugin_id_spec(),
            !final(self).has_item(name@),
            forall|n: Seq<char>|
                n != name@ ==> (#[trigger] final(self).has_item(n) <==> old(self).has_item(n)),
            !final(self).is_disabled(name@),
            forall|n: Seq<char>|
                n != name@ ==> (#[trigger] final(self).is_disabled(n) <==> old(self).is_disabled(
                    n,
                )),
            r.0 is Some <==> old(self).has_sender(name@),
            !final(self).has_sender(name@),
            forall|n: Seq<char>|
                n != name@ ==> (#[trigger] final(self).has_sender(n) <==> old(self).has_sender(n)),
            r.1@ == join_lines(seq_views(final(self).disabled@)),
            crate::descriptor::parse_name_list_spec(r.1@) == Some(seq_views(final(self).disabled@)),
            r.2@ == join_path_spec(plugins_root@, name@),
    {
        let (tx, _) = self.disable_plugin(name);
        let ghost mid = *self;
        let ghost pre_items = self.items@;
        match find_item_index(&self.items, name) {
            Some(i) => {
                self.items.remove(i);
                proof {
                    assert forall|n: Seq<char>| n != name@ implies (#[trigger] item_named(
                        self.items@,
                        n,
                    ) <==> item_named(pre_items, n)) by {
                        if item_named(self.items@, n) {
                            let q = choose|q: int|
                                0 <= q < self.items@.len() && (#[trigger] self.items@[q]).name@
                                    == n;
                            if q < i {
                                assert(pre_items[q].name@ == n);
                            } else {
                                assert(pre_items[q + 1].name@ == n);
                            }
                        }
                        if item_named(pre_items, n) {
                            let q = choose|q: int|
                                0 <= q < pre_items.len() && (#[trigger] pre_items[q]).name@ == n;
                            if q < i {
                                assert(self.items@[q].name@ == n);
                            } else {
                                assert(q != i);
                                assert(self.items@[q - 1].name@ == n);
                            }
                        }
                    }
                    assert forall|q: int| 0 <= q < self.items@.len() implies (#[trigger]
                    self.items@[q]).name@ != name@ by {
                        if q < i {
                            assert(pre_items[q].name@ != pre_items[i as int].name@);
                        } else {
                            assert(pre_items[q + 1].name@ != pre_items[i as int].name@);
                        }
                    }
                }
            },
            None => {},
        }
        let ghost mid2 = *self;
        let ghost pre_disabled = self.disabled@;
        match find_string_index(&self.disabled, name) {
            Some(i) => {
                self.disabled.remove(i);
                proof {
                    assert forall|n: Seq<char>| n != name@ implies (#[trigger] name_listed(
                        self.disabled@,
                        n,
                    ) <==> name_listed(pre_disabled, n)) by {
                        if name_listed(self.disabled@, n) {
                            let q = choose|q: int|
                                0 <= q < self.disabled@.len() && (#[trigger] self.disabled@[q])@
                                    == n;
                            if q < i {
                                assert(pre_disabled[q]@ == n);
                            } else {
                                assert(pre_disabled[q + 1]@ == n);
                            }
                        }
                        if name_listed(pre_disabled, n) {
                            let q = choose|q: int|
                                0 <= q < pre_disabled.len() && (#[trigger] pre_disabled[q])@ == n;
                            if q < i {
                                assert(self.disabled@[q]@ == n);
                            } else {
                                assert(q != i);
                                assert(self.disabled@[q - 1]@ == n);
                            }
                        }
                    }
                    assert forall|q: int| 0 <= q < self.disabled@.len() implies (#[trigger]
                    self.disabled@[q])@ != name@ by {
                        if q < i {
                            assert(pre_disabled[q]@ != pre_disabled[i as int]@);
                        } else {
                            assert(pre_disabled[q + 1]@ != pre_disabled[i as int]@);
                        }
                    }
                }
            },
            None => {},
        }
        let text = encode_name_list(&self.disabled);
        let dir = join_path(plugins_root, name.as_str());
        proof {
            lemma_disabled_views_clean(*self);
            crate::descriptor::lemma_name_list_round_trip(seq_views(self.disabled@));
            assert(mid.items@ == old(self).items@);
            assert forall|n: Seq<char>| n != name@ implies (#[trigger] item_named(self.items@, n)
                <==> item_named(old(self).items@, n)) by {
            }
            assert forall|n: Seq<char>| n != name@ implies (#[trigger] name_listed(
                self.disabled@,
                n,
            ) <==> name_listed(old(self).disabled@, n)) by {
                assert(mid.is_disabled(n) <==> (old(self).is_disabled(n) || n == name@));
                assert(mid2.disabled@ == mid.disabled@);
            }
            assert forall|n: Seq<char>| n != name@ implies (#[trigger] sender_named(
                self.senders@,
                n,
            ) <==> sender_named(old(self).senders@, n)) by {
                assert(mid.has_sender(n) <==> old(self).has_sender(n));
                assert(self.senders@ == mid.senders@);
            }
            assert(!mid.has_sender(name@));
            assert(self.senders@ == mid.senders@);
        }
        (tx, text, dir)
    }
}

/// A descriptor as it stands after installation below `root`: its directory
/// is `root/name`, and when it names an artifact, the artifact path is
/// resolved below that directory; a descriptor with no artifact keeps its
/// fields as they came.
pub open spec fn installed_view(d: DescriptorView, root: Seq<char>) -> DescriptorView {
    match d.wasm {
        None => d,
        Some(w) => DescriptorView {
            name: d.name,
            version: d.version,
            repository: d.repository,
            wasm: Some(join_path_spec(join_path_spec(root, d.name), w)),
            themes: d.themes,
            configuration: d.configuration,
            dir: Some(join_path_spec(root, d.name)),
        },
    }
}

/// The registry URL a repository-relative file is fetched from.
pub open spec fn raw_file_url_spec(repo: Seq<char>, file: Seq<char>) -> Seq<char> {
    ("https://raw.githubusercontent.com/")@ + repo + ("/master/")@ + file
}

/// Builds the registry URL for a repository-relative file.
fn raw_file_url(repo: &String, file: &String) -> (r: String)
    ensures
        r@ == raw_file_url_spec(repo@, file@),
{
    let mut r = String::from_str("https://raw.githubusercontent.com/");
    r.append(repo.as_str());
    r.append("/master/");
    r.append(file.as_str());
    proof {
        assert(r@ =~= raw_file_url_spec(repo@, file@));
    }
    r
}

/// The filesystem and network work an installation needs: the caller creates
/// the directory, writes the record text into it, fetches each URL to its
/// destination, and then starts the plugin.
pub struct InstallPlan {
    pub install_dir: String,
    pub descriptor_text: String,
    pub wasm_url: Option<String>,
    pub wasm_dest: Option<String>,
    pub theme_urls: Vec<String>,
    pub theme_dests: Vec<String>,
}

/// Discovery of one descriptor file: parses the record text and resolves the
/// artifact and theme paths against the descriptor's own directory (which the
/// caller has made absolute); the directory itself is recorded on the
/// descriptor.  A record that does not parse yields `None` — the caller skips
/// it and discovery continues.
pub open spec fn resolved_view(d: DescriptorView, dir: Seq<char>) -> DescriptorView {
    DescriptorView {
        name: d.name,
        version: d.version,
        repository: d.repository,
        wasm: match d.wasm {
            Some(w) => Some(join_path_spec(dir, w)),
            None => None,
        },
        themes: d.themes.map_values(|t: Seq<char>| join_path_spec(dir, t)),
        configuration: d.configuration,
        dir: Some(dir),
    }
}

/// Parses one discovered descriptor record and resolves its paths.
#[verifier::loop_isolation(false)]
pub fn load_plugin(text: &str, descriptor_dir: &str) -> (r: Option<PluginDescriptor>)
    ensures
        match r {
            Some(d) => crate::descriptor::parse_descriptor_spec(text@) is Some && d@
                == resolved_view(
                crate::descriptor::parse_descriptor_spec(text@)->0,
                descriptor_dir@,
            ),
            None => crate::descriptor::parse_descriptor_spec(text@) is None,
        },
{
    let parsed = match crate::descriptor::parse_descriptor(text) {
        Some(d) => d,
        None => {
            return None;
        },
    };
    let wasm = match &parsed.wasm {
        Some(w) => Some(join_path(descriptor_dir, w.as_str())),
        None => None,
    };
    let ghost theme_views = parsed@.themes;
    let mut themes: Vec<String> = Vec::new();
    let mut i: usize = 0;
    while i < parsed.themes.len()
        invariant
            i <= parsed.themes@.len(),
            theme_views == seq_views(parsed.themes@),
            seq_views(themes@) =~~= theme_views.map_values(
                |t: Seq<char>| join_path_spec(descriptor_dir@, t),
            ).take(i as int),
        decreases parsed.themes@.len() - i,
    {
        let ghost prev = themes@;
        let t = join_path(descriptor_dir, parsed.themes[i].as_str());
        themes.push(t);
        proof {
            assert(seq_views(themes@) =~~= seq_views(prev).push(
                join_path_spec(descriptor_dir@, theme_views[i as int]),
            ));
            assert(seq_views(themes@) =~~= theme_views.map_values(
                |t: Seq<char>| join_path_spec(descriptor_dir@, t),
            ).take(i as int + 1));
        }
        i = i + 1;
    }
    proof {
        let m = theme_views.map_values(|t: Seq<char>| join_path_spec(descriptor_dir@, t));
        assert(m.take(m.len() as int) =~~= m);
    }
    let d = PluginDescriptor {
        name: parsed.name,
        version: parsed.version,
        repository: parsed.repository,
        wasm,
        themes,
        configuration: parsed.configuration,
        dir: Some(descriptor_dir.to_owned()),
    };
    Some(d)
}

impl PluginCatalog {
    /// Installs a plugin: records the descriptor (rewritten against the
    /// plugin root) and returns the plan of writes and fetches the caller
    /// performs — the record text written to the installation directory is
    /// the descriptor exactly as handed in, which is what discovery reads
    /// back.
    #[verifier::loop_isolation(false)]
    pub fn install_plugin(&mut self, desc: &PluginDescriptor, plugins_root: &str) -> (plan:
        InstallPlan)
        requires
            old(self).wf(),
            crate::descriptor::descriptor_encodable(desc@),
        ensures
            final(self).wf(),
            final(self).disabled == old(self).disabled,
            final(self).instances_view() == old(self).instances_view(),
            final(self).senders_view() == old(self).senders_view(),
            final(self).servers_view() == old(self).servers_view(),
            final(self).next_plugin_id_spec() == old(self).next_plugin_id_spec(),
            plan.install_dir@ == join_path_spec(plugins_root@, desc@.name),
            plan.descriptor_text@ == crate::descriptor::encode_descriptor_spec(desc@),
            crate::descriptor::parse_descriptor_spec(plan.descriptor_text@) == Some(desc@),
            match desc@.wasm {
                Some(w) => {
                    &&& plan.wasm_url matches Some(u) && u@ == raw_file_url_spec(
                        desc@.repository,
                        w,
                    )
                    &&& plan.wasm_dest matches Some(p) && p@ == join_path_spec(
                        join_path_spec(plugins_root@, desc@.name),
                        w,
                    )
                },
                None => plan.wasm_url is None && plan.wasm_dest is None,
            },
            plan.theme_urls@.len() == desc@.themes.len(),
            forall|i: int|
                0 <= i < desc@.themes.len() ==> (#[trigger] plan.theme_urls@[i])@
                    == raw_file_url_spec(desc@.repository, desc@.themes[i]),
            plan.theme_dests@.len() == desc@.themes.len(),
            forall|i: int|
                0 <= i < desc@.themes.len() ==> (#[trigger] plan.theme_dests@[i])@
                    == join_path_spec(join_path_spec(plugins_root@, desc@.name), desc@.themes[i]),
            final(self).has_item(desc@.name),
            forall|i: int|
                0 <= i < final(self).items@.len() && (#[trigger] final(self).items@[i]).name@
                    == desc@.name ==> final(self).items@[i]@ == installed_view(
                    desc@,
                    plugins_root@,
                ),
            forall|n: Seq<char>|
                n != desc@.name ==> (#[trigger] final(self).has_item(n) <==> old(self).has_item(
                    n,
                )),
    {
        let dir = join_path(plugins_root, desc.name.as_str());
        let text = crate::descriptor::encode_descriptor(desc);
        proof {
            crate::descriptor::lemma_descriptor_round_trip(desc@);
        }
        let (wasm_url, wasm_dest, stored) = match &desc.wasm {
            Some(w) => {
                let u = raw_file_url(&desc.repository, w);
                let p = join_path(dir.as_str(), w.as_str());
                let stored = PluginDescriptor {
                    name: desc.name.clone(),
                    version: desc.version.clone(),
                    repository: desc.repository.clone(),
                    wasm: Some(p.clone()),
                    themes: crate::descriptor::clone_string_vec(&desc.themes),
                    configuration: crate::descriptor::clone_opt_string(&desc.configuration),
                    dir: Some(dir.clone()),
                };
                (Some(u), Some(p), stored)
            },
            None => (None, None, desc.clone()),
        };
        proof {
            assert(stored@ == installed_view(desc@, plugins_root@));
            assert(stored.name@ == desc@.name);
        }
        let mut theme_urls: Vec<String> = Vec::new();
        let mut theme_dests: Vec<String> = Vec::new();
        let mut i: usize = 0;
        while i < desc.themes.len()
            invariant
                i <= desc.themes@.len(),
                theme_urls@.len() == i,
                theme_dests@.len() == i,
                forall|q: int|
                    0 <= q < i ==> (#[trigger] theme_urls@[q])@ == raw_file_url_spec(
                        desc@.repository,
                        desc@.themes[q],
                    ),
                forall|q: int|
                    0 <= q < i ==> (#[trigger] theme_dests@[q])@ == join_path_spec(
                        join_path_spec(plugins_root@, desc@.name),
                        desc@.themes[q],
                    ),
                dir@ == join_path_spec(plugins_root@, desc@.name),
            decreases desc.themes@.len() - i,
        {
            theme_urls.push(raw_file_url(&desc.repository, &desc.themes[i]));
            theme_dests.push(join_path(dir.as_str(), desc.themes[i].as_str()));
            i = i + 1;
        }
        let ghost pre_items = self.items@;
        match find_item_index(&self.items, &desc.name) {
            Some(idx) => {
                self.items.remove(idx);
                proof {
                    assert forall|n: Seq<char>| n != desc@.name implies (#[trigger] item_named(
                        self.items@,
                        n,
                    ) <==> item_named(pre_items, n)) by {
                        if item_named(self.items@, n) {
                            let q = choose|q: int|
                                0 <= q < self.items@.len() && (#[trigger] self.items@[q]).name@
                                    == n;
                            if q < idx {
                                assert(pre_items[q].name@ == n);
                            } else {
                                assert(pre_items[q + 1].name@ == n);
                            }
                        }
                        if item_named(pre_items, n) {
                            let q = choose|q: int|
                                0 <= q < pre_items.len() && (#[trigger] pre_items[q]).name@ == n;
                            if q < idx {
                                assert(self.items@[q].name@ == n);
                            } else {
                                assert(q != idx);
                                assert(self.items@[q - 1].name@ == n);
                            }
                        }
                    }
                    assert forall|q: int| 0 <= q < self.items@.len() implies (#[trigger]
                    self.items@[q]).name@ != desc@.name by {
                        if q < idx {
                            assert(pre_items[q].name@ != pre_items[idx as int].name@);
                        } else {
                            assert(pre_items[q + 1].name@ != pre_items[idx as int].name@);
                        }
                    }
                }
            },
            None => {},
        }
        let ghost pre2 = self.items@;
        self.items.push(stored);
        proof {
            assert(self.items@[self.items@.len() - 1].name@ == desc@.name);
            assert(forall|q: int| 0 <= q < pre2.len() ==> #[trigger] self.items@[q] == pre2[q]);
            assert forall|n: Seq<char>| n != desc@.name implies (#[trigger] item_named(
                self.items@,
                n,
            ) <==> item_named(pre2, n)) by {
                if item_named(self.items@, n) {
                    let q = choose|q: int|
                        0 <= q < self.items@.len() && (#[trigger] self.items@[q]).name@ == n;
                    assert(q < pre2.len());
                    assert(pre2[q].name@ == n);
                }
                if item_named(pre2, n) {
                    let q = choose|q: int|
                        0 <= q < pre2.len() && (#[trigger] pre2[q]).name@ == n;
                    assert(self.items@[q].name@ == n);
                }
            }
            assert forall|q: int| 0 <= q < pre2.len() implies (#[trigger] pre2[q]).name@
                != desc@.name by {
            }
        }
        InstallPlan { install_dir: dir, descriptor_text: text, wasm_url, wasm_dest, theme_urls, theme_dests }
    }

    /// Begins one sandbox: checks the descriptor names a bytecode artifact
    /// and a resolved installation directory (the virtual filesystem root),
    /// assigns a fresh PluginId, records the instance as `Loaded`, and stores
    /// the worker's control sender.  The caller compiles the artifact, builds
    /// the environment rooted at the plan's directory, instantiates, and
    /// spawns the worker thread.  A failure is surfaced and the catalog is
    /// unchanged: the plugin is not registered.
    pub fn start_plugin(
        &mut self,
        desc: &PluginDescriptor,
        control_tx: crossbeam_channel::Sender<ControlMessage>,
    ) -> (r: Result<StartPlan, StartError>)
        requires
            old(self).wf(),
            old(self).next_plugin_id_spec() < u64::MAX,
        ensures
            final(self).wf(),
            final(self).items == old(self).items,
            final(self).disabled == old(self).disabled,
            final(self).servers_view() == old(self).servers_view(),
            match r {
                Ok(plan) => {
                    &&& desc@.wasm is Some && desc@.dir is Some
                    &&& plan.wasm@ == desc@.wasm->0
                    &&& plan.root_dir@ == desc@.dir->0
                    &&& plan.plugin_id.0 == old(self).next_plugin_id_spec()
                    &&& !old(self).has_instance(plan.plugin_id)
                    &&& final(self).next_plugin_id_spec() == old(self).next_plugin_id_spec() + 1
                    &&& final(self).instances_view() == old(self).instances_view().push(
                        SandboxInstance {
                            id: plan.plugin_id,
                            name: desc.name,
                            dir: desc.dir,
                            state: SandboxState::Loaded,
                        },
                    )
                    &&& final(self).has_sender(desc@.name)
                    &&& forall|n: Seq<char>|
                        n != desc@.name ==> (#[trigger] final(self).has_sender(n) <==> old(
                            self,
                        ).has_sender(n))
                },
                Err(e) => {
                    &&& *final(self) == *old(self)
                    &&& (e == StartError::MissingArtifact <==> desc@.wasm is None)
                    &&& (e == StartError::MissingDirectory <==> desc@.wasm is Some
                        && desc@.dir is None)
                },
            },
    {
        let wasm = match &desc.wasm {
            Some(w) => w.clone(),
            None => {
                return Err(StartError::MissingArtifact);
            },
        };
        let root = match &desc.dir {
            Some(d) => d.clone(),
            None => {
                return Err(StartError::MissingDirectory);
            },
        };
        let id = self.next_plugin_id();
        let ghost mid = *self;
        let inst = SandboxInstance {
            id,
            name: desc.name.clone(),
            dir: crate::descriptor::clone_opt_string(&desc.dir),
            state: SandboxState::Loaded,
        };
        self.instances.push(inst);
        proof {
            assert(self.instances@ =~= old(self).instances@.push(
                SandboxInstance {
                    id,
                    name: desc.name,
                    dir: desc.dir,
                    state: SandboxState::Loaded,
                },
            ));
            assert forall|p: int, q: int|
                #![trigger self.instances@[p], self.instances@[q]]
                0 <= p < q < self.instances@.len() implies self.instances@[p].id
                != self.instances@[q].id by {
                if q == self.instances@.len() - 1 {
                    assert(mid.instances@[p].id.0 < mid.next_id);
                }
            }
        }
        let ghost before_senders = *self;
        let ghost pre_senders = self.senders@;
        match find_sender_index(&self.senders, &desc.name) {
            Some(i) => {
                self.senders.remove(i);
                proof {
                    assert forall|n: Seq<char>| n != desc@.name implies (#[trigger] self.has_sender(
                        n,
                    ) <==> before_senders.has_sender(n)) by {
                        if self.has_sender(n) {
                            let q = choose|q: int|
                                0 <= q < self.senders@.len() && #[trigger] self.senders@[q].0@
                                    == n;
                            if q < i {
                                assert(pre_senders[q].0@ == n);
                            } else {
                                assert(pre_senders[q + 1].0@ == n);
                            }
                        }
                        if before_senders.has_sender(n) {
                            let q = choose|q: int|
                                0 <= q < pre_senders.len() && #[trigger] pre_senders[q].0@ == n;
                            if q < i {
                                assert(self.senders@[q].0@ == n);
                            } else {
                                assert(q != i);
                                assert(self.senders@[q - 1].0@ == n);
                            }
                        }
                    }
                    assert forall|q: int| 0 <= q < self.senders@.len() implies (#[trigger]
                    self.senders@[q]).0@ != desc@.name by {
                        if q < i {
                            assert(pre_senders[q].0@ != pre_senders[i as int].0@);
                        } else {
                            assert(pre_senders[q + 1].0@ != pre_senders[i as int].0@);
                        }
                    }
                }
            },
            None => {},
        }
        let ghost mid_senders = *self;
        self.senders.push((desc.name.clone(), control_tx));
        proof {
            assert(self.senders@[self.senders@.len() - 1].0@ == desc@.name);
            assert forall|n: Seq<char>| n != desc@.name implies (#[trigger] self.has_sender(n)
                <==> mid_senders.has_sender(n)) by {
                if self.has_sender(n) {
                    let q = choose|q: int|
                        0 <= q < self.senders@.len() && #[trigger] self.senders@[q].0@ == n;
                    if q < self.senders@.len() - 1 {
                        assert(mid_senders.senders_view()[q].0@ == n);
                    }
                }
                if mid_senders.has_sender(n) {
                    let q = choose|q: int|
                        0 <= q < mid_senders.senders_view().len()
                            && #[trigger] mid_senders.senders_view()[q].0@ == n;
                    assert(self.senders@[q].0@ == n);
                }
            }
        }
        Ok(StartPlan { plugin_id: id, wasm, root_dir: root })
    }

    /// Applies one queued command serially: a server request or notification
    /// (or a document change) fans out to every loaded plugin server, and a
    /// catalog-internal event is applied to the catalog itself.
    #[verifier::loop_isolation(false)]
    pub fn handle_catalog_rpc(&mut self, rpc: PluginCatalogRpc)
        requires
            old(self).wf(),
        ensures
            final(self).wf(),
            final(self).items == old(self).items,
            final(self).disabled == old(self).disabled,
            final(self).instances_view() == old(self).instances_view(),
            final(self).senders_view() == old(self).senders_view(),
            final(self).next_plugin_id_spec() == old(self).next_plugin_id_spec(),
            match rpc {
                PluginCatalogRpc::Handler(
                    PluginCatalogNotification::PluginServerLoaded(h),
                ) => final(self).servers_view() == old(self).servers_view().push(h),
                _ => final(self).servers_view() == old(self).servers_view(),
            },
    {
        match rpc {
            PluginCatalogRpc::ServerRequest { id, method, params } => {
                let mut i: usize = 0;
                while i < self.servers.len()
                    invariant
                        *self == *old(self),
                        i <= self.servers@.len(),
                    decreases self.servers@.len() - i,
                {
                    let _ = channel_send(
                        &self.servers[i].server_tx,
                        ServerRpc::Request {
                            id,
                            method: method.clone(),
                            params: crate::json::clone_json(&params),
                        },
                    );
                    i = i + 1;
                }
            },
            PluginCatalogRpc::ServerNotification { method, params } => {
                let mut i: usize = 0;
                while i < self.servers.len()
                    invariant
                        *self == *old(self),
                        i <= self.servers@.len(),
                    decreases self.servers@.len() - i,
                {
                    let _ = channel_send(
                        &self.servers[i].server_tx,
                        ServerRpc::Notification {
                            method: method.clone(),
                            params: crate::json::clone_json(&params),
                        },
                    );
                    i = i + 1;
                }
            },
            PluginCatalogRpc::DidChangeTextDocument { uri, version, text } => {
                let mut i: usize = 0;
                while i < self.servers.len()
                    invariant
                        *self == *old(self),
                        i <= self.servers@.len(),
                    decreases self.servers@.len() - i,
                {
                    let _ = channel_send(
                        &self.servers[i].server_tx,
                        ServerRpc::DidChange { uri: uri.clone(), version, text: text.clone() },
                    );
                    i = i + 1;
                }
            },
            PluginCatalogRpc::Handler(n) => {
                match n {
                    PluginCatalogNotification::PluginServerLoaded(h) => {
                        self.servers.push(h);
                    },
                }
            },
        }
    }

    /// The installation directory of the plugin running in the instance with
    /// this id, for routing its notifications; `None` when the id is unknown.
    #[verifier::loop_isolation(false)]
    pub fn instance_dir(&self, id: PluginId) -> (r: Option<String>)
        ensures
            match r {
                Some(d) => exists|i: int|
                    0 <= i < self.instances@.len() && (#[trigger] self.instances@[i]).id == id
                        && self.instances@[i].dir == Some(d),
                None => !self.has_instance(id) || exists|i: int|
                    0 <= i < self.instances@.len() && (#[trigger] self.instances@[i]).id == id
                        && self.instances@[i].dir is None,
            },
    {
        let mut i: usize = 0;
        while i < self.instances.len()
            invariant
                i <= self.instances@.len(),
                forall|j: int| 0 <= j < i ==> (#[trigger] self.instances@[j]).id != id,
            decreases self.instances@.len() - i,
        {
            if self.instances[i].id == id {
                let r = crate::descriptor::clone_opt_string(&self.instances[i].dir);
                proof {
                    assert((#[trigger] self.instances@[i as int]).id == id);
                }
                return r;
            }
            i = i + 1;
        }
        None
    }
}

/// Disabling a plugin excludes it from auto-start on the next full start,
/// and the exclusion survives a full discovery reload from persisted state:
/// whatever `disable_plugin` persisted parses back to the same names, a
/// `load` from those names disables the plugin again wherever its descriptor
/// is rediscovered, and `start_all` then never returns a descriptor bearing
/// the disabled name.
pub proof fn lemma_disable_survives_reload(
    disabled_after: Seq<String>,
    t: Seq<char>,
    reload_names: Seq<String>,
    c2: PluginCatalog,
    started: Seq<PluginDescriptor>,
    name: Seq<char>,
)
    requires
        name_listed(disabled_after, name),
        crate::strutil::pieces_free_of(seq_views(disabled_after), '\n'),
        t == join_lines(seq_views(disabled_after)),
        crate::descriptor::parse_name_list_spec(t) == Some(seq_views(reload_names)),
        forall|n: Seq<char>| #[trigger]
            c2.is_disabled(n) <==> (name_listed(reload_names, n) && c2.has_item(n) && free_of(
                n,
                '\n',
            )),
        forall|i: int|
            0 <= i < started.len() ==> c2.has_item((#[trigger] started[i]).name@)
                && !c2.is_disabled(started[i].name@),
    ensures
        forall|i: int| 0 <= i < started.len() ==> (#[trigger] started[i]).name@ != name,
{
    crate::descriptor::lemma_name_list_round_trip(seq_views(disabled_after));
    assert(seq_views(reload_names) == seq_views(disabled_after));
    let q = choose|q: int| 0 <= q < disabled_after.len() && (#[trigger] disabled_after[q])@ == name;
    assert(seq_views(reload_names)[q] == name);
    assert(reload_names[q]@ == name);
    assert(name_listed(reload_names, name));
    assert(free_of(name, '\n')) by {
        assert forall|j: int| 0 <= j < name.len() implies name[j] != '\n' by {
            assert(seq_views(disabled_after)[q][j] != '\n');
        }
    }
    assert forall|i: int| 0 <= i < started.len() implies (#[trigger] started[i]).name@ != name by {
        if started[i].name@ == name {
            assert(c2.has_item(name));
            assert(c2.is_disabled(name));
        }
    }
}

/// The index of the control sender stored for `name`, if any.
fn find_sender_index(
    v: &Vec<(String, crossbeam_channel::Sender<ControlMessage>)>,
    name: &String,
) -> (r: Option<usize>)
    ensures
        match r {
            Some(i) => i < v@.len() && v@[i as int].0@ == name@,
            None => forall|i: int| 0 <= i < v@.len() ==> (#[trigger] v@[i]).0@ != name@,
        },
{
    let mut i: usize = 0;
    while i < v.len()
        invariant
            i <= v@.len(),
            forall|j: int| 0 <= j < i ==> (#[trigger] v@[j]).0@ != name@,
        decreases v@.len() - i,
    {
        if v[i].0.eq(name) {
            return Some(i);
        }
        i = i + 1;
    }
    None
}

/// The index of the descriptor bearing `name`, if one is stored.
fn find_item_index(items: &Vec<PluginDescriptor>, name: &String) -> (r: Option<usize>)
    ensures
        match r {
            Some(i) => i < items@.len() && items@[i as int].name@ == name@,
            None => forall|i: int| 0 <= i < items@.len() ==> (#[trigger] items@[i]).name@ != name@,
        },
{
    let mut i: usize = 0;
    while i < items.len()
        invariant
            i <= items@.len(),
            forall|j: int| 0 <= j < i ==> (#[trigger] items@[j]).name@ != name@,
        decreases items@.len() - i,
    {
        if items[i].name.eq(name) {
            return Some(i);
        }
        i = i + 1;
    }
    None
}

/// The index of `name` in a list of names, if present.
fn find_string_index(v: &Vec<String>, name: &String) -> (r: Option<usize>)
    ensures
        match r {
            Some(i) => i < v@.len() && v@[i as int]@ == name@,
            None => forall|i: int| 0 <= i < v@.len() ==> (#[trigger] v@[i])@ != name@,
        },
{
    let mut i: usize = 0;
    while i < v.len()
        invariant
            i <= v@.len(),
            forall|j: int| 0 <= j < i ==> (#[trigger] v@[j])@ != name@,
        decreases v@.len() - i,
    {
        if v[i].eq(name) {
            return Some(i);
        }
        i = i + 1;
    }
    None
}

} // verus!
