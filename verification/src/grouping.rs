//! Grouping events of both layers by what they do.

use vstd::prelude::*;

use crate::event::GroundTruthEvent;
use crate::event::KernelEvent;
use crate::event::KernelEventType;
use crate::event::OperationKind;

verus! {

/// What an event acts on: the semantic key under which events of the two layers meet.
#[derive(Debug, Clone, Copy, PartialEq, Eq, Hash, Structural)]
pub enum MatchKey {
    /// Files.
    File,
    /// Network peers.
    Network,
    /// Processes.
    Process,
}

/// The key of operations of the kind `op`.
pub open spec fn key_of_kind(op: OperationKind) -> MatchKey {
    match op {
        OperationKind::FileRead => MatchKey::File,
        OperationKind::FileWrite => MatchKey::File,
        OperationKind::NetworkConnect => MatchKey::Network,
        OperationKind::ProcessSpawn => MatchKey::Process,
    }
}

/// The key of kernel events of the type `ev`; an unknown syscall has none.
pub open spec fn key_of_type(ev: KernelEventType) -> Option<MatchKey> {
    match ev {
        KernelEventType::Openat => Some(MatchKey::File),
        KernelEventType::Read => Some(MatchKey::File),
        KernelEventType::Write => Some(MatchKey::File),
        KernelEventType::Socket => Some(MatchKey::Network),
        KernelEventType::Connect => Some(MatchKey::Network),
        KernelEventType::Clone => Some(MatchKey::Process),
        KernelEventType::Fork => Some(MatchKey::Process),
        KernelEventType::Execve => Some(MatchKey::Process),
        KernelEventType::Unknown => None,
    }
}

impl MatchKey {
    /// The key of a ground-truth event.
    pub fn from_ground_truth(e: &GroundTruthEvent) -> (r: MatchKey)
        ensures
            r == key_of_kind(e.operation),
    {
        match e.operation {
            OperationKind::FileRead => MatchKey::File,
            OperationKind::FileWrite => MatchKey::File,
            OperationKind::NetworkConnect => MatchKey::Network,
            OperationKind::ProcessSpawn => MatchKey::Process,
        }
    }

    /// The key of a kernel event, if it has one.
    pub fn from_kernel_event(e: &KernelEvent) -> (r: Option<MatchKey>)
        ensures
            r == key_of_type(e.event_type),
    {
        match e.event_type {
            KernelEventType::Openat => Some(MatchKey::File),
            KernelEventType::Read => Some(MatchKey::File),
            KernelEventType::Write => Some(MatchKey::File),
            KernelEventType::Socket => Some(MatchKey::Network),
            KernelEventType::Connect => Some(MatchKey::Network),
            KernelEventType::Clone => Some(MatchKey::Process),
            KernelEventType::Fork => Some(MatchKey::Process),
            KernelEventType::Execve => Some(MatchKey::Process),
            KernelEventType::Unknown => None,
        }
    }
}

/// The ground-truth events of `events` with the key `key`, in their order.
pub open spec fn truth_with_key(events: Seq<GroundTruthEvent>, key: MatchKey) -> Seq<
    GroundTruthEvent,
> {
    events.filter(|e: GroundTruthEvent| key_of_kind(e.operation) == key)
}

/// The kernel events of `events` with the key `key`, in their order.
pub open spec fn kernel_with_key(events: Seq<KernelEvent>, key: MatchKey) -> Seq<KernelEvent> {
    events.filter(|e: KernelEvent| key_of_type(e.event_type) == Some(key))
}

/// The values behind a list of references.
pub open spec fn behind<E>(v: Seq<&E>) -> Seq<E> {
    v.map_values(|e: &E| *e)
}

/// A list of groups: a key, and the events with it.
type Groups<'a, E> = Vec<(MatchKey, Vec<&'a E>)>;

/// Whether each key has one group.
spec fn distinct<E>(groups: Seq<(MatchKey, Vec<&E>)>) -> bool {
    forall|i: int, j: int|
        0 <= i < j < groups.len() ==> (#[trigger] groups[i]).0 != (#[trigger] groups[j]).0
}

/// Whether there is a group for `key`.
spec fn present<E>(groups: Seq<(MatchKey, Vec<&E>)>, key: MatchKey) -> bool {
    exists|i: int| 0 <= i < groups.len() && (#[trigger] groups[i]).0 == key
}

/// The events with the key `key`, in their order.
spec fn found<E>(groups: Seq<(MatchKey, Vec<&E>)>, key: MatchKey) -> Seq<E> {
    if present(groups, key) {
        let i = choose|i: int| 0 <= i < groups.len() && (#[trigger] groups[i]).0 == key;
        behind(groups[i].1@)
    } else {
        Seq::<E>::empty()
    }
}

/// The place of the group of `key`, or the number of groups where there is none.
fn place<E>(groups: &Groups<E>, key: MatchKey) -> (r: usize)
    requires
        distinct(groups@),
    ensures
        r <= groups@.len(),
        r < groups@.len() ==> groups@[r as int].0 == key && present(groups@, key) && found(
            groups@,
            key,
        ) == behind(groups@[r as int].1@),
        r == groups@.len() ==> !present(groups@, key),
{
    let mut i: usize = 0;
    while i < groups.len()
        invariant
            i <= groups@.len(),
            distinct(groups@),
            forall|j: int| 0 <= j < i ==> (#[trigger] groups@[j]).0 != key,
        decreases groups@.len() - i,
    {
        if groups[i].0 == key {
            proof {
                let k = choose|k: int| 0 <= k < groups@.len() && (#[trigger] groups@[k]).0 == key;
                assert(groups@[i as int].0 == key);
                assert(k == i) by {
                    if k < i {
                        assert(groups@[k].0 != groups@[i as int].0);
                    } else if i < k {
                        assert(groups@[i as int].0 != groups@[k].0);
                    }
                }
            }
            return i;
        }
        i += 1;
    }
    i
}

/// Adds an event at the end of its group.
fn add_to_group<'a, E>(groups: &mut Groups<'a, E>, key: MatchKey, e: &'a E)
    requires
        distinct(old(groups)@),
    ensures
        distinct(final(groups)@),
        forall|k: MatchKey| #[trigger]
            present(final(groups)@, k) <==> present(old(groups)@, k) || k == key,
        forall|k: MatchKey| #[trigger]
            found(final(groups)@, k) == (if k == key {
                found(old(groups)@, k).push(*e)
            } else {
                found(old(groups)@, k)
            }),
{
    let ghost before = groups@;
    let at: usize = place(groups, key);
    if at < groups.len() {
        let group = &mut groups[at];
        group.1.push(e);
    } else {
        let mut fresh: Vec<&'a E> = Vec::new();
        fresh.push(e);
        groups.push((key, fresh));
    }
    proof {
        let after = groups@;
        assert(behind(after[at as int].1@) =~= found(before, key).push(*e));
        assert forall|i: int| 0 <= i < before.len() implies (#[trigger] after[i]).0
            == before[i].0 by {}
        assert forall|k: MatchKey| #[trigger] present(after, k) <==> present(before, k) || k
            == key by {
            if present(after, k) {
                let i = choose|i: int| 0 <= i < after.len() && (#[trigger] after[i]).0 == k;
                if i < before.len() {
                    assert(before[i].0 == k);
                }
            }
            if present(before, k) {
                let i = choose|i: int| 0 <= i < before.len() && (#[trigger] before[i]).0 == k;
                assert(after[i].0 == k);
            }
            assert(after[at as int].0 == key);
        }
        assert(distinct(after)) by {
            assert forall|i: int, j: int| 0 <= i < j < after.len() implies (#[trigger] after[i]).0
                != (#[trigger] after[j]).0 by {
                if j < before.len() {
                    assert(before[i].0 != before[j].0);
                } else {
                    assert(before[i].0 == after[i].0);
                }
            }
        }
        assert forall|k: MatchKey| #[trigger]
            found(after, k) == (if k == key {
                found(before, k).push(*e)
            } else {
                found(before, k)
            }) by {
            assert(present(after, k) <==> present(before, k) || k == key);
            if present(after, k) {
                let i = choose|i: int| 0 <= i < after.len() && (#[trigger] after[i]).0 == k;
                if k == key {
                    assert(i == at) by {
                        if i < at {
                            assert(after[i].0 != after[at as int].0);
                        } else if at < i {
                            assert(after[at as int].0 != after[i].0);
                        }
                    }
                } else {
                    assert(i < before.len()) by {
                        if i == before.len() {
                            assert(after[i].0 == key);
                        }
                    }
                    let j = choose|j: int| 0 <= j < before.len() && (#[trigger] before[j]).0 == k;
                    assert(before[i].0 == k);
                    assert(i == j) by {
                        if i < j {
                            assert(before[i].0 != before[j].0);
                        } else if j < i {
                            assert(before[j].0 != before[i].0);
                        }
                    }
                    assert(after[i] == before[i]);
                }
            }
        }
    }
}

/// Events grouped by key. Each key has one group.
#[derive(Debug)]
pub struct KeyGroups<'a, E> {
    groups: Vec<(MatchKey, Vec<&'a E>)>,
}

impl<'a, E> KeyGroups<'a, E> {
    #[verifier::type_invariant]
    spec fn one_group_each(self) -> bool {
        distinct(self.groups@)
    }

    /// Whether there is a group for `key`.
    pub closed spec fn has(self, key: MatchKey) -> bool {
        present(self.groups@, key)
    }

    /// The events with the key `key`, in their order.
    pub closed spec fn members(self, key: MatchKey) -> Seq<E> {
        found(self.groups@, key)
    }

    /// The events with the key `key`, if there are any.
    pub fn get(&self, key: &MatchKey) -> (r: Option<&Vec<&'a E>>)
        ensures
            match r {
                Some(v) => self.has(*key) && behind(v@) == self.members(*key),
                None => !self.has(*key),
            },
    {
        proof {
            use_type_invariant(self);
        }
        let at: usize = place(&self.groups, *key);
        if at < self.groups.len() {
            Some(&self.groups[at].1)
        } else {
            None
        }
    }
}

/// Group ground-truth events by their semantic match key.
///
/// This aligns the ground-truth and kernel-event streams without relying on PID/TID identity
/// (which is unreliable when the workload runs in separate processes).
pub fn group_gt_by_match_key<'a>(events: &'a [GroundTruthEvent]) -> (r: KeyGroups<
    'a,
    GroundTruthEvent,
>)
    ensures
        forall|key: MatchKey| #[trigger] r.members(key) == truth_with_key(events@, key),
        forall|key: MatchKey| #[trigger] r.has(key) <==> truth_with_key(events@, key).len() > 0,
{
    let mut map: Groups<'a, GroundTruthEvent> = Vec::new();
    let mut i: usize = 0;
    proof {
        reveal(Seq::filter);
        assert forall|key: MatchKey| #[trigger]
            found(map@, key) == truth_with_key(events@.take(0), key) by {
            assert(truth_with_key(events@.take(0), key) =~= Seq::<GroundTruthEvent>::empty());
        }
    }
    while i < events.len()
        invariant
            i <= events.len(),
            distinct(map@),
            forall|key: MatchKey| #[trigger]
                found(map@, key) == truth_with_key(events@.take(i as int), key),
            forall|key: MatchKey| #[trigger]
                present(map@, key) <==> truth_with_key(events@.take(i as int), key).len() > 0,
        decreases events.len() - i,
    {
        let e = &events[i];
        let ghost before = map@;
        add_to_group(&mut map, MatchKey::from_ground_truth(e), e);
        proof {
            reveal(Seq::filter);
            let upto = events@.take(i + 1);
            assert(upto.drop_last() =~= events@.take(i as int));
            assert forall|key: MatchKey| #[trigger] found(map@, key) == truth_with_key(upto, key) by {
                assert(found(before, key) == truth_with_key(events@.take(i as int), key));
            }
            assert forall|key: MatchKey| #[trigger]
                present(map@, key) <==> truth_with_key(upto, key).len() > 0 by {
                assert(present(before, key) <==> truth_with_key(events@.take(i as int), key).len() > 0);
            }
        }
        i += 1;
    }
    assert(events@.take(events.len() as int) =~= events@);
    KeyGroups { groups: map }
}

/// Group kernel events by their semantic match key. Events without a key are left out.
pub fn group_ke_by_match_key<'a>(events: &'a [KernelEvent]) -> (r: KeyGroups<'a, KernelEvent>)
    ensures
        forall|key: MatchKey| #[trigger] r.members(key) == kernel_with_key(events@, key),
        forall|key: MatchKey| #[trigger] r.has(key) <==> kernel_with_key(events@, key).len() > 0,
{
    let mut map: Groups<'a, KernelEvent> = Vec::new();
    let mut i: usize = 0;
    proof {
        reveal(Seq::filter);
        assert forall|key: MatchKey| #[trigger]
            found(map@, key) == kernel_with_key(events@.take(0), key) by {
            assert(kernel_with_key(events@.take(0), key) =~= Seq::<KernelEvent>::empty());
        }
    }
    while i < events.len()
        invariant
            i <= events.len(),
            distinct(map@),
            forall|key: MatchKey| #[trigger]
                found(map@, key) == kernel_with_key(events@.take(i as int), key),
            forall|key: MatchKey| #[trigger]
                present(map@, key) <==> kernel_with_key(events@.take(i as int), key).len() > 0,
        decreases events.len() - i,
    {
        let e = &events[i];
        let ghost before = map@;
        if let Some(key) = MatchKey::from_kernel_event(e) {
            add_to_group(&mut map, key, e);
        }
        proof {
            reveal(Seq::filter);
            let upto = events@.take(i + 1);
            assert(upto.drop_last() =~= events@.take(i as int));
            assert forall|key: MatchKey| #[trigger] found(map@, key) == kernel_with_key(
                upto,
                key,
            ) by {
                assert(found(before, key) == kernel_with_key(events@.take(i as int), key));
            }
            assert forall|key: MatchKey| #[trigger]
                present(map@, key) <==> kernel_with_key(upto, key).len() > 0 by {
                assert(present(before, key) <==> kernel_with_key(events@.take(i as int), key).len() > 0);
            }
        }
        i += 1;
    }
    assert(events@.take(events.len() as int) =~= events@);
    KeyGroups { groups: map }
}

/// An operation and a kernel event that it produces have the same key.
pub proof fn law_keys_align(op: OperationKind, ev: KernelEventType)
    requires
        crate::matcher::produces(op, ev),
    ensures
        key_of_type(ev) == Some(key_of_kind(op)),
{
}

} // verus!
