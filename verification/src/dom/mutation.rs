//! Mutation observers: record DOM changes for interested observers.

use vstd::prelude::*;
use super::node::NodeId;
use super::Document;

verus! {

/// The kind of mutation that was recorded.
#[allow(inconsistent_fields)]
pub enum MutationRecord {
    /// Children were added or removed.
    ChildList { target: NodeId },
    /// An attribute was changed.
    Attributes { target: NodeId, attribute_name: String, old_value: Option<String> },
    /// Text content of a text node was changed.
    CharacterData { target: NodeId, old_value: String },
}

/// The node a record is about.
pub open spec fn record_target(r: MutationRecord) -> NodeId {
    match r {
        MutationRecord::ChildList { target } => target,
        MutationRecord::Attributes { target, .. } => target,
        MutationRecord::CharacterData { target, .. } => target,
    }
}

/// Two records describe the same mutation (same variant, target and texts).
pub open spec fn same_record(a: MutationRecord, b: MutationRecord) -> bool {
    match (a, b) {
        (MutationRecord::ChildList { target: t1 }, MutationRecord::ChildList { target: t2 }) => t1 == t2,
        (
            MutationRecord::Attributes { target: t1, attribute_name: n1, old_value: v1 },
            MutationRecord::Attributes { target: t2, attribute_name: n2, old_value: v2 },
        ) => {
            &&& t1 == t2
            &&& n1@ == n2@
            &&& v1.is_some() == v2.is_some()
            &&& (v1.is_some() ==> v1.unwrap()@ == v2.unwrap()@)
        },
        (
            MutationRecord::CharacterData { target: t1, old_value: v1 },
            MutationRecord::CharacterData { target: t2, old_value: v2 },
        ) => t1 == t2 && v1@ == v2@,
        _ => false,
    }
}

/// The observer options ask for records of this kind.
pub open spec fn wants_record(o: MutationObserverOptions, r: MutationRecord) -> bool {
    match r {
        MutationRecord::ChildList { .. } => o.child_list,
        MutationRecord::Attributes { .. } => o.attributes,
        MutationRecord::CharacterData { .. } => o.character_data,
    }
}

impl MutationRecord {
    /// A copy of this record.
    pub fn clone_record(&self) -> (r: Self)
        ensures
            same_record(r, *self),
    {
        match self {
            MutationRecord::ChildList { target } => MutationRecord::ChildList { target: *target },
            MutationRecord::Attributes { target, attribute_name, old_value } => {
                MutationRecord::Attributes {
                    target: *target,
                    attribute_name: attribute_name.clone(),
                    old_value: match old_value {
                        Some(v) => Some(v.clone()),
                        None => None,
                    },
                }
            },
            MutationRecord::CharacterData { target, old_value } => {
                MutationRecord::CharacterData { target: *target, old_value: old_value.clone() }
            },
        }
    }

    /// The node this record is about.
    pub fn target(&self) -> (t: NodeId)
        ensures
            t == record_target(*self),
    {
        match self {
            MutationRecord::ChildList { target } => *target,
            MutationRecord::Attributes { target, .. } => *target,
            MutationRecord::CharacterData { target, .. } => *target,
        }
    }
}

/// Options controlling what an observer watches.
#[derive(Clone, Copy, PartialEq, Eq, Structural, Debug)]
pub struct MutationObserverOptions {
    pub child_list: bool,
    pub attributes: bool,
    pub character_data: bool,
    pub subtree: bool,
    pub attribute_old_value: bool,
    pub character_data_old_value: bool,
}

impl MutationObserverOptions {
    /// Options that watch nothing.
    pub fn new() -> (o: Self)
        ensures
            o == (MutationObserverOptions {
                child_list: false,
                attributes: false,
                character_data: false,
                subtree: false,
                attribute_old_value: false,
                character_data_old_value: false,
            }),
    {
        MutationObserverOptions {
            child_list: false,
            attributes: false,
            character_data: false,
            subtree: false,
            attribute_old_value: false,
            character_data_old_value: false,
        }
    }

    /// Also watch child-list changes.
    pub fn child_list(self) -> (o: Self)
        ensures
            o == (MutationObserverOptions { child_list: true, ..self }),
    {
        MutationObserverOptions { child_list: true, ..self }
    }

    /// Also watch attribute changes.
    pub fn attributes(self) -> (o: Self)
        ensures
            o == (MutationObserverOptions { attributes: true, ..self }),
    {
        MutationObserverOptions { attributes: true, ..self }
    }

    /// Also watch character-data changes.
    pub fn character_data(self) -> (o: Self)
        ensures
            o == (MutationObserverOptions { character_data: true, ..self }),
    {
        MutationObserverOptions { character_data: true, ..self }
    }

    /// Also watch the whole subtree below the target.
    pub fn subtree(self) -> (o: Self)
        ensures
            o == (MutationObserverOptions { subtree: true, ..self }),
    {
        MutationObserverOptions { subtree: true, ..self }
    }
}

/// A mutation observer watches a target node for changes.
pub struct MutationObserver {
    pub target: NodeId,
    pub options: MutationObserverOptions,
    pub records: Vec<MutationRecord>,
    pub callback_id: usize,
}

impl MutationObserver {
    /// An observer of `target` with no pending records.
    pub fn new(target: NodeId, options: MutationObserverOptions, callback_id: usize) -> (o: Self)
        ensures
            o.target == target,
            o.options == options,
            o.records@.len() == 0,
            o.callback_id == callback_id,
    {
        MutationObserver { target, options, records: Vec::new(), callback_id }
    }

    /// Returns and clears all pending mutation records.
    pub fn take_records(&mut self) -> (taken: Vec<MutationRecord>)
        ensures
            taken@ == old(self).records@,
            final(self).records@.len() == 0,
            final(self).target == old(self).target,
            final(self).options == old(self).options,
            final(self).callback_id == old(self).callback_id,
    {
        let mut taken = Vec::new();
        std::mem::swap(&mut taken, &mut self.records);
        taken
    }
}

impl Document {
    /// The observer at `i` watches mutations of `target`.
    pub open spec fn observer_watches(&self, o: MutationObserver, target: NodeId) -> bool {
        o.target == target || (o.options.subtree && self.ancestors_of(target).contains(o.target))
    }

    /// `self`'s observers are `before` with a child-list record for `target` added
    /// to each observer that watches `target` and asks for child-list records.
    pub open spec fn child_list_recorded(&self, before: Seq<MutationObserver>, target: NodeId) -> bool {
        &&& self.mutation_observers@.len() == before.len()
        &&& forall|i: int| 0 <= i < before.len() ==> {
            let o = #[trigger] before[i];
            let n = self.mutation_observers@[i];
            if self.observer_watches(o, target) && o.options.child_list {
                &&& n.target == o.target
                &&& n.options == o.options
                &&& n.callback_id == o.callback_id
                &&& n.records@.len() == o.records@.len() + 1
                &&& n.records@.subrange(0, o.records@.len() as int) == o.records@
                &&& n.records@.last() matches MutationRecord::ChildList { target: t } && t == target
            } else {
                n == o
            }
        }
    }

    /// Records that the children of `target` changed.
    pub(crate) fn record_child_list(&mut self, target: NodeId)
        requires
            old(self).wf(),
            old(self).valid(target),
        ensures
            final(self).wf(),
            final(self).child_list_recorded(old(self).mutation_observers@, target),
            final(self).nodes == old(self).nodes,
            final(self).kids == old(self).kids,
            final(self).root == old(self).root,
            final(self).free_list == old(self).free_list,
            final(self).id_index == old(self).id_index,
    {
        let ghost before = *self;
        self.record_mutation(MutationRecord::ChildList { target });
        proof {
            Document::lemma_wf_same_links(before, *self);
            assert forall|i: int| 0 <= i < old(self).mutation_observers@.len() implies {
                let o = #[trigger] old(self).mutation_observers@[i];
                let n = self.mutation_observers@[i];
                if self.observer_watches(o, target) && o.options.child_list {
                    &&& n.target == o.target
                    &&& n.options == o.options
                    &&& n.callback_id == o.callback_id
                    &&& n.records@.len() == o.records@.len() + 1
                    &&& n.records@.subrange(0, o.records@.len() as int) == o.records@
                    &&& n.records@.last() matches MutationRecord::ChildList { target: t } && t == target
                } else {
                    n == o
                }
            } by {
                let o = old(self).mutation_observers@[i];
                assert(self.observer_watches(o, target) == old(self).observer_watches(o, target));
            }
        }
    }

    /// Registers a mutation observer on a target node; returns its index.
    pub fn observe(&mut self, target: NodeId, options: MutationObserverOptions, callback_id: usize) -> (idx: usize)
        ensures
            idx == old(self).mutation_observers@.len(),
            final(self).mutation_observers@.len() == old(self).mutation_observers@.len() + 1,
            forall|i: int| 0 <= i < idx ==> #[trigger] final(self).mutation_observers@[i] == old(self).mutation_observers@[i],
            final(self).mutation_observers@[idx as int].target == target,
            final(self).mutation_observers@[idx as int].options == options,
            final(self).mutation_observers@[idx as int].records@.len() == 0,
            final(self).mutation_observers@[idx as int].callback_id == callback_id,
            final(self).nodes == old(self).nodes,
            final(self).kids == old(self).kids,
            final(self).root == old(self).root,
            final(self).free_list == old(self).free_list,
            final(self).id_index == old(self).id_index,
    {
        let idx = self.mutation_observers.len();
        self.mutation_observers.push(MutationObserver::new(target, options, callback_id));
        idx
    }

    /// Removes a mutation observer by index (no effect when out of range).
    pub fn disconnect_observer(&mut self, index: usize)
        ensures
            final(self).mutation_observers@ == (if index < old(self).mutation_observers@.len() {
                old(self).mutation_observers@.remove(index as int)
            } else {
                old(self).mutation_observers@
            }),
            final(self).nodes == old(self).nodes,
            final(self).kids == old(self).kids,
            final(self).root == old(self).root,
            final(self).free_list == old(self).free_list,
            final(self).id_index == old(self).id_index,
    {
        if index < self.mutation_observers.len() {
            self.mutation_observers.remove(index);
        }
    }

    /// Returns the pending records of an observer and clears them
    /// (an empty list when the index is out of range).
    pub fn take_observer_records(&mut self, index: usize) -> (taken: Vec<MutationRecord>)
        ensures
            index < old(self).mutation_observers@.len() ==> {
                &&& taken@ == old(self).mutation_observers@[index as int].records@
                &&& final(self).mutation_observers@.len() == old(self).mutation_observers@.len()
                &&& final(self).mutation_observers@[index as int].records@.len() == 0
                &&& final(self).mutation_observers@[index as int].target == old(self).mutation_observers@[index as int].target
                &&& final(self).mutation_observers@[index as int].options == old(self).mutation_observers@[index as int].options
                &&& forall|i: int| 0 <= i < old(self).mutation_observers@.len() && i != index
                    ==> #[trigger] final(self).mutation_observers@[i] == old(self).mutation_observers@[i]
            },
            index >= old(self).mutation_observers@.len() ==> {
                &&& taken@.len() == 0
                &&& final(self).mutation_observers == old(self).mutation_observers
            },
            final(self).nodes == old(self).nodes,
            final(self).kids == old(self).kids,
            final(self).root == old(self).root,
            final(self).free_list == old(self).free_list,
            final(self).id_index == old(self).id_index,
    {
        if index < self.mutation_observers.len() {
            self.mutation_observers[index].take_records()
        } else {
            Vec::new()
        }
    }

    /// Checks whether `node` is a descendant of `ancestor`.
    pub fn is_descendant_of(&self, node: NodeId, ancestor: NodeId) -> (r: bool)
        requires
            self.wf(),
            self.valid(node),
        ensures
            r == self.ancestors_of(node).contains(ancestor),
    {
        let mut fuel: usize = self.nodes.len();
        let mut current = node;
        let ghost mut seen: Seq<NodeId> = Seq::empty();
        while fuel > 0
            invariant
                self.wf(),
                self.valid(current),
                seen + super::traversal::ancestor_chain(self.nodes@, current, fuel as nat) == self.ancestors_of(node),
                !seen.contains(ancestor),
            ensures
                !seen.contains(ancestor) ==> (
                    seen + super::traversal::ancestor_chain(self.nodes@, current, fuel as nat) == self.ancestors_of(node)),
                fuel == 0 || self.nodes@[current.0 as int].parent is None || seen.contains(ancestor),
                seen.contains(ancestor) ==> self.ancestors_of(node).contains(ancestor),
            decreases fuel,
        {
            match self.nodes[current.0].parent {
                None => {
                    break;
                },
                Some(p) => {
                    proof {
                        assert(self.node_links_ok(current.0 as int));
                        assert(seen.push(p) + super::traversal::ancestor_chain(self.nodes@, p, (fuel - 1) as nat)
                            =~= seen + super::traversal::ancestor_chain(self.nodes@, current, fuel as nat));
                    }
                    if p == ancestor {
                        proof {
                            let full = self.ancestors_of(node);
                            assert(full[seen.len() as int] == p);
                            seen = seen.push(p);
                        }
                        return true;
                    }
                    proof {
                        seen = seen.push(p);
                    }
                    current = p;
                    fuel -= 1;
                },
            }
        }
        proof {
            let chain = super::traversal::ancestor_chain(self.nodes@, current, fuel as nat);
            assert(chain =~= Seq::<NodeId>::empty());
            assert(seen + chain =~= seen);
        }
        false
    }

    /// Appends `record` to every observer that watches its target and asks for its kind.
    pub fn record_mutation(&mut self, record: MutationRecord)
        requires
            old(self).wf(),
            old(self).valid(record_target(record)),
        ensures
            final(self).mutation_observers@.len() == old(self).mutation_observers@.len(),
            forall|i: int| 0 <= i < old(self).mutation_observers@.len() ==> {
                let o = #[trigger] old(self).mutation_observers@[i];
                let n = final(self).mutation_observers@[i];
                if old(self).observer_watches(o, record_target(record)) && wants_record(o.options, record) {
                    &&& n.target == o.target
                    &&& n.options == o.options
                    &&& n.callback_id == o.callback_id
                    &&& n.records@.len() == o.records@.len() + 1
                    &&& n.records@.subrange(0, o.records@.len() as int) == o.records@
                    &&& same_record(n.records@.last(), record)
                } else {
                    n == o
                }
            },
            final(self).nodes == old(self).nodes,
            final(self).kids == old(self).kids,
            final(self).root == old(self).root,
            final(self).free_list == old(self).free_list,
            final(self).id_index == old(self).id_index,
    {
        let ghost old_self = *self;
        let target = record.target();
        let n = self.mutation_observers.len();
        let mut i: usize = 0;
        while i < n
            invariant
                old_self.wf(),
                old_self.valid(target),
                self.wf(),
                self.valid(target),
                target == record_target(record),
                n == old_self.mutation_observers@.len(),
                0 <= i <= n,
                self.mutation_observers@.len() == n,
                self.nodes == old_self.nodes,
                self.kids == old_self.kids,
                self.root == old_self.root,
                self.free_list == old_self.free_list,
                self.id_index == old_self.id_index,
                forall|j: int| i <= j < n ==> #[trigger] self.mutation_observers@[j] == old_self.mutation_observers@[j],
                forall|j: int| 0 <= j < i ==> {
                    let o = #[trigger] old_self.mutation_observers@[j];
                    let m = self.mutation_observers@[j];
                    if old_self.observer_watches(o, target) && wants_record(o.options, record) {
                        &&& m.target == o.target
                        &&& m.options == o.options
                        &&& m.callback_id == o.callback_id
                        &&& m.records@.len() == o.records@.len() + 1
                        &&& m.records@.subrange(0, o.records@.len() as int) == o.records@
                        &&& same_record(m.records@.last(), record)
                    } else {
                        m == o
                    }
                },
            decreases n - i,
        {
            let obs_target = self.mutation_observers[i].target;
            let subtree = self.mutation_observers[i].options.subtree;
            let watches = obs_target == target || (subtree && self.is_descendant_of(target, obs_target));
            let interested = match &record {
                MutationRecord::ChildList { .. } => self.mutation_observers[i].options.child_list,
                MutationRecord::Attributes { .. } => self.mutation_observers[i].options.attributes,
                MutationRecord::CharacterData { .. } => self.mutation_observers[i].options.character_data,
            };
            if watches && interested {
                let copy = record.clone_record();
                let ghost before = self.mutation_observers@[i as int].records@;
                self.mutation_observers[i].records.push(copy);
                proof {
                    assert(self.mutation_observers@[i as int].records@.subrange(0, before.len() as int) =~= before);
                }
            }
            proof {
                Document::lemma_wf_same_links(old_self, *self);
            }
            i += 1;
        }
    }
}

} // verus!
