//! The mathematical model of an append-only read/write log and the
//! read-after-write consistency the circuit relies on: within one log,
//! every READ of a resource key must carry the value established by the
//! most recent prior WRITE to that key, or the key's defined initial
//! value if no prior WRITE exists.

use crate::operation::RW;
use vstd::prelude::*;

verus! {

/// One recorded access, abstracted to its read/write flag, resource key
/// and value. Each operation container projects to a sequence of these.
pub struct Access<K, V> {
    pub rw: RW,
    pub key: K,
    pub value: V,
}

/// The value of the most recent WRITE to `key` in `log`, if any.
pub open spec fn last_write<K, V>(log: Seq<Access<K, V>>, key: K) -> Option<V>
    decreases log.len(),
{
    if log.len() == 0 {
        None
    } else if log.last().key == key && log.last().rw == RW::WRITE {
        Some(log.last().value)
    } else {
        last_write(log.drop_last(), key)
    }
}

/// The current value of `key` after replaying `log`: the most recent
/// WRITE, or the defined initial value `init` if the key was never written.
pub open spec fn value_of<K, V>(log: Seq<Access<K, V>>, key: K, init: V) -> V {
    match last_write(log, key) {
        Some(v) => v,
        None => init,
    }
}

/// Read consistency of a whole log: every READ equals the value
/// established by the most recent prior WRITE to the same key, or `init`.
pub open spec fn reads_ok<K, V>(log: Seq<Access<K, V>>, init: V) -> bool {
    forall|i: int|
        0 <= i < log.len() && (#[trigger] log[i]).rw == RW::READ ==> log[i].value == value_of(
            log.take(i),
            log[i].key,
            init,
        )
}

/// Appending an access changes `last_write` only for its own key, and
/// only when it is a WRITE.
pub proof fn lemma_last_write_push<K, V>(log: Seq<Access<K, V>>, a: Access<K, V>, key: K)
    ensures
        last_write(log.push(a), key) == if a.key == key && a.rw == RW::WRITE {
            Some(a.value)
        } else {
            last_write(log, key)
        },
{
    assert(log.push(a).drop_last() =~= log);
    assert(log.push(a).last() == a);
}

/// Read consistency is preserved by appending a WRITE, or a READ whose
/// value matches the key's current value.
pub proof fn lemma_reads_ok_push<K, V>(log: Seq<Access<K, V>>, a: Access<K, V>, init: V)
    requires
        reads_ok(log, init),
        a.rw == RW::READ ==> a.value == value_of(log, a.key, init),
    ensures
        reads_ok(log.push(a), init),
{
    let l2 = log.push(a);
    assert forall|i: int| 0 <= i < l2.len() && (#[trigger] l2[i]).rw == RW::READ implies l2[i].value
        == value_of(l2.take(i), l2[i].key, init) by {
        if i < log.len() {
            assert(l2.take(i) =~= log.take(i));
            assert(l2[i] == log[i]);
        } else {
            assert(l2[i] == a);
            assert(l2.take(i) =~= log);
        }
    }
}

} // verus!
