//! What it means that a kernel event is matched.

use vstd::prelude::*;

use crate::event::GroundTruthEvent;
use crate::event::KernelEvent;
use crate::event::KernelEventType;
use crate::event::OperationKind;
use crate::grouping::behind;
use crate::grouping::kernel_with_key;
use crate::grouping::key_of_kind;
use crate::grouping::key_of_type;
use crate::grouping::truth_with_key;
use crate::grouping::MatchKey;
use crate::laws::closest_alone;
use crate::laws::law_closest_is_matched;
use crate::laws::law_match_is_closest;
use crate::matcher::candidate;
use crate::matcher::produces;
use crate::matcher::true_rpc;
use crate::sorting::stable_sort_of;
use crate::sorting::with_key;
use crate::timeline::of_thread;

verus! {

/// A file read produces `openat` and `read`, a file write `openat` and `write`, a connection
/// `socket` and `connect`, a spawned process `clone`, `fork` and `execve`, and nothing else.
pub proof fn law_operations_produce(op: OperationKind, ev: KernelEventType)
    ensures
        produces(op, ev) <==> {
            ||| ev is Openat && (op is FileRead || op is FileWrite)
            ||| ev is Read && op is FileRead
            ||| ev is Write && op is FileWrite
            ||| (ev is Socket || ev is Connect) && op is NetworkConnect
            ||| (ev is Clone || ev is Fork || ev is Execve) && op is ProcessSpawn
        },
{
}

/// A record of the thread of `k`, of a kind that maps to its type, at most ten seconds away, is
/// what `k` is matched to, if every other such record of the thread is strictly farther. Nothing
/// else of the records counts: neither what they act on nor their ids.
pub proof fn law_closest_record_is_matched(gt: Seq<GroundTruthEvent>, k: KernelEvent, i: int)
    requires
        0 <= i < gt.len(),
        gt[i].pid == k.pid,
        gt[i].tid == k.tid,
        ({
            let op = gt[i].operation;
            let ev = k.event_type;
            ||| ev is Openat && (op is FileRead || op is FileWrite)
            ||| ev is Read && op is FileRead
            ||| ev is Write && op is FileWrite
            ||| (ev is Socket || ev is Connect) && op is NetworkConnect
            ||| (ev is Clone || ev is Fork || ev is Execve) && op is ProcessSpawn
        }),
        -10_000_000_000 <= gt[i].timestamp_ns - k.timestamp_ns <= 10_000_000_000,
        forall|j: int|
            #![trigger gt[j]]
            0 <= j < gt.len() && j != i && gt[j].pid == k.pid && gt[j].tid == k.tid && ({
                let op = gt[j].operation;
                let ev = k.event_type;
                ||| ev is Openat && (op is FileRead || op is FileWrite)
                ||| ev is Read && op is FileRead
                ||| ev is Write && op is FileWrite
                ||| (ev is Socket || ev is Connect) && op is NetworkConnect
                ||| (ev is Clone || ev is Fork || ev is Execve) && op is ProcessSpawn
            }) ==> {
                let near = gt[i].timestamp_ns - k.timestamp_ns;
                let far = gt[j].timestamp_ns - k.timestamp_ns;
                (near < far || near < -far) && (-near < far || -near < -far)
            },
    ensures
        true_rpc(gt, k) == Some(gt[i].rpc_id),
{
    assert forall|j: int|
        0 <= j < gt.len() && j != i && candidate(#[trigger] gt[j], k) implies crate::matcher::distance(
        gt[i].timestamp_ns,
        k.timestamp_ns,
    ) < crate::matcher::distance(gt[j].timestamp_ns, k.timestamp_ns) by {
        law_operations_produce(gt[j].operation, k.event_type);
    }
    assert(closest_alone(gt, k, i));
    law_closest_is_matched(gt, k, i);
}

/// A matched event belongs to a record of its thread, of a kind that maps to its type, at most ten
/// seconds away; and every other such record of the thread is strictly farther.
pub proof fn law_matched_record_is_closest(gt: Seq<GroundTruthEvent>, k: KernelEvent)
    requires
        true_rpc(gt, k) is Some,
    ensures
        exists|i: int|
            #![trigger gt[i]]
            {
                &&& 0 <= i < gt.len()
                &&& true_rpc(gt, k) == Some(gt[i].rpc_id)
                &&& gt[i].pid == k.pid
                &&& gt[i].tid == k.tid
                &&& ({
                    let op = gt[i].operation;
                    let ev = k.event_type;
                    ||| ev is Openat && (op is FileRead || op is FileWrite)
                    ||| ev is Read && op is FileRead
                    ||| ev is Write && op is FileWrite
                    ||| (ev is Socket || ev is Connect) && op is NetworkConnect
                    ||| (ev is Clone || ev is Fork || ev is Execve) && op is ProcessSpawn
                })
                &&& -10_000_000_000 <= gt[i].timestamp_ns - k.timestamp_ns <= 10_000_000_000
                &&& forall|j: int|
                    #![trigger gt[j]]
                    0 <= j < gt.len() && j != i && gt[j].pid == k.pid && gt[j].tid == k.tid && ({
                        let op = gt[j].operation;
                        let ev = k.event_type;
                        ||| ev is Openat && (op is FileRead || op is FileWrite)
                        ||| ev is Read && op is FileRead
                        ||| ev is Write && op is FileWrite
                        ||| (ev is Socket || ev is Connect) && op is NetworkConnect
                        ||| (ev is Clone || ev is Fork || ev is Execve) && op is ProcessSpawn
                    }) ==> {
                        let near = gt[i].timestamp_ns - k.timestamp_ns;
                        let far = gt[j].timestamp_ns - k.timestamp_ns;
                        (near < far || near < -far) && (-near < far || -near < -far)
                    }
            },
{
    law_match_is_closest(gt, k);
    let i = choose|i: int| #[trigger]
        closest_alone(gt, k, i) && Some(gt[i].rpc_id) == true_rpc(gt, k);
    law_operations_produce(gt[i].operation, k.event_type);
    assert forall|j: int|
        #![trigger gt[j]]
        0 <= j < gt.len() && j != i && gt[j].pid == k.pid && gt[j].tid == k.tid && ({
            let op = gt[j].operation;
            let ev = k.event_type;
            ||| ev is Openat && (op is FileRead || op is FileWrite)
            ||| ev is Read && op is FileRead
            ||| ev is Write && op is FileWrite
            ||| (ev is Socket || ev is Connect) && op is NetworkConnect
            ||| (ev is Clone || ev is Fork || ev is Execve) && op is ProcessSpawn
        }) implies {
        let near = gt[i].timestamp_ns - k.timestamp_ns;
        let far = gt[j].timestamp_ns - k.timestamp_ns;
        (near < far || near < -far) && (-near < far || -near < -far)
    } by {
        law_operations_produce(gt[j].operation, k.event_type);
        assert(candidate(gt[j], k));
    }
    assert(gt[i].pid == k.pid);
}

/// Two ground truths that differ only in targets and operation ids give the same match, and so do
/// two kernel events that differ only in arguments and return values.
pub proof fn law_match_sees_thread_kind_and_time(
    a: Seq<GroundTruthEvent>,
    b: Seq<GroundTruthEvent>,
    k: KernelEvent,
    l: KernelEvent,
)
    requires
        a.len() == b.len(),
        forall|i: int|
            #![trigger a[i]]
            #![trigger b[i]]
            0 <= i < a.len() ==> a[i].rpc_id == b[i].rpc_id && a[i].operation == b[i].operation
                && a[i].pid == b[i].pid && a[i].tid == b[i].tid && a[i].timestamp_ns
                == b[i].timestamp_ns,
        k.pid == l.pid,
        k.tid == l.tid,
        k.timestamp_ns == l.timestamp_ns,
        k.event_type == l.event_type,
    ensures
        true_rpc(a, k) == true_rpc(b, l),
{
    if true_rpc(a, k) is Some {
        lemma_same_match(a, b, k, l);
    }
    if true_rpc(b, l) is Some {
        lemma_same_match(b, a, l, k);
    }
}

proof fn lemma_same_match(
    a: Seq<GroundTruthEvent>,
    b: Seq<GroundTruthEvent>,
    k: KernelEvent,
    l: KernelEvent,
)
    requires
        a.len() == b.len(),
        forall|i: int|
            #![trigger a[i]]
            #![trigger b[i]]
            0 <= i < a.len() ==> a[i].rpc_id == b[i].rpc_id && a[i].operation == b[i].operation
                && a[i].pid == b[i].pid && a[i].tid == b[i].tid && a[i].timestamp_ns
                == b[i].timestamp_ns,
        k.pid == l.pid,
        k.tid == l.tid,
        k.timestamp_ns == l.timestamp_ns,
        k.event_type == l.event_type,
        true_rpc(a, k) is Some,
    ensures
        true_rpc(b, l) == true_rpc(a, k),
{
    law_match_is_closest(a, k);
    let i = choose|i: int| #[trigger] closest_alone(a, k, i) && Some(a[i].rpc_id) == true_rpc(a, k);
    assert(closest_alone(b, l, i)) by {
        assert forall|j: int|
            0 <= j < b.len() && j != i && candidate(#[trigger] b[j], l) implies crate::matcher::distance(
            b[i].timestamp_ns,
            l.timestamp_ns,
        ) < crate::matcher::distance(b[j].timestamp_ns, l.timestamp_ns) by {
            assert(candidate(a[j], k));
        }
    }
    law_closest_is_matched(b, l, i);
}

// ---------------------------------------------------------------------------
// Groups
// ---------------------------------------------------------------------------

/// The key of an operation says whether it acts on files, on the network or on processes.
pub proof fn law_keys_of_operations(op: OperationKind)
    ensures
        key_of_kind(op) == MatchKey::File <==> op is FileRead || op is FileWrite,
        key_of_kind(op) == MatchKey::Network <==> op is NetworkConnect,
        key_of_kind(op) == MatchKey::Process <==> op is ProcessSpawn,
{
}

/// The key of a syscall says whether it acts on files, on the network or on processes; only an
/// unknown syscall has none.
pub proof fn law_keys_of_syscalls(ev: KernelEventType)
    ensures
        key_of_type(ev) == Some(MatchKey::File) <==> ev is Openat || ev is Read || ev is Write,
        key_of_type(ev) == Some(MatchKey::Network) <==> ev is Socket || ev is Connect,
        key_of_type(ev) == Some(MatchKey::Process) <==> ev is Clone || ev is Fork || ev is Execve,
        key_of_type(ev) is None <==> ev is Unknown,
{
}

/// One more record joins the end of the group of its key and leaves the other groups as they are.
pub proof fn law_record_joins_its_group(
    events: Seq<GroundTruthEvent>,
    e: GroundTruthEvent,
    key: MatchKey,
)
    ensures
        truth_with_key(events.push(e), key) == (if key_of_kind(e.operation) == key {
            truth_with_key(events, key).push(e)
        } else {
            truth_with_key(events, key)
        }),
        truth_with_key(Seq::empty(), key).len() == 0,
{
    reveal(Seq::filter);
    assert(events.push(e).drop_last() =~= events);
}

/// One more kernel event joins the end of the group of its key, if it has one, and leaves the other
/// groups as they are.
pub proof fn law_event_joins_its_group(events: Seq<KernelEvent>, e: KernelEvent, key: MatchKey)
    ensures
        kernel_with_key(events.push(e), key) == (if key_of_type(e.event_type) == Some(key) {
            kernel_with_key(events, key).push(e)
        } else {
            kernel_with_key(events, key)
        }),
        kernel_with_key(Seq::empty(), key).len() == 0,
{
    reveal(Seq::filter);
    assert(events.push(e).drop_last() =~= events);
}

/// The entries of a thread are those listed with its key, in their order.
pub proof fn law_entries_of_thread<T>(items: Seq<(u64, (u64, T))>, key: u64)
    ensures
        of_thread(items, key) == items.filter(|e: (u64, (u64, T))| e.0 == key).map_values(
            |e: (u64, (u64, T))| e.1,
        ),
    decreases items.len(),
{
    reveal(Seq::filter);
    let p = |e: (u64, (u64, T))| e.0 == key;
    let f = |e: (u64, (u64, T))| e.1;
    if items.len() > 0 {
        law_entries_of_thread(items.drop_last(), key);
    }
    assert(of_thread(items, key) =~= items.filter(p).map_values(f));
}

/// A sorted list holds the entries of each key in their order, no others, and its keys never fall.
pub proof fn law_sorted_entries<T>(out: Seq<(u64, T)>, input: Seq<(u64, T)>, k: u64)
    requires
        stable_sort_of(out, input),
    ensures
        out.len() == input.len(),
        out.filter(|e: (u64, T)| e.0 == k) == input.filter(|e: (u64, T)| e.0 == k),
        forall|i: int, j: int|
            0 <= i <= j < out.len() ==> (#[trigger] out[i]).0 <= (#[trigger] out[j]).0,
{
    lemma_of_key(out, k);
    lemma_of_key(input, k);
    assert(with_key(out, k) == with_key(input, k));
}

proof fn lemma_of_key<T>(s: Seq<(u64, T)>, k: u64)
    ensures
        with_key(s, k) == s.filter(|e: (u64, T)| e.0 == k),
    decreases s.len(),
{
    reveal(Seq::filter);
    if s.len() > 0 {
        lemma_of_key(s.drop_last(), k);
    }
}

/// What a list of references stands for is what they refer to, one for one.
pub proof fn law_references_stand_for_values<E>(v: Seq<&E>)
    ensures
        behind(v).len() == v.len(),
        forall|i: int| 0 <= i < v.len() ==> #[trigger] behind(v)[i] == *v[i],
{
}

} // verus!
