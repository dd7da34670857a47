//! One physical copy of the map: a hash table from key to value cell, the
//! user metadata, and the readiness flag, together with the two ways an
//! operation is absorbed into a copy (first application and replay).

use vstd::prelude::*;

use std::collections::HashMap;
use std::hash::BuildHasher;
use std::hash::Hash;

use crate::op::Op;
use crate::op::apply_op_data;
use crate::op::apply_op_meta;
use crate::op::apply_op_ready;
use crate::value::DropTag;
use crate::value::Value;
use crate::value::clone_exact;

verus! {

/// The standing assumptions under which a buffer's hash table behaves like a
/// mathematical map: the key type has a consistent equality and hash, and the
/// hash builder produces valid hashers.
pub open spec fn hash_model_ok<K, S>() -> bool {
    &&& vstd::std_specs::hash::obeys_key_model::<K>()
    &&& vstd::std_specs::hash::builds_valid_hashers::<S>()
}

/// An empty map, stated without naming its type arguments.
pub open spec fn map_is_empty<K, V>(m: Map<K, V>) -> bool {
    m == Map::<K, V>::empty()
}

/// Relies on std's `HashMap::with_hasher`: it returns an empty map that will
/// hash with the given builder.
pub assume_specification<K, V, S>[ HashMap::<K, V, S>::with_hasher ](hasher: S) -> (r: HashMap<K, V, S>)
    ensures
        map_is_empty(r@),
;

/// The payloads of a cell map, with the tags and identities stripped.
pub open spec fn payload_of<K, V>(cells: Map<K, Value<V>>) -> Map<K, V> {
    cells.map_values(|c: Value<V>| c.val)
}

/// Cell-level effect of absorbing an operation into the copy that sees it
/// first: an insert mints a `Suppressed` cell, leaving the responsibility for
/// destruction with the pending log entry.
pub open spec fn absorb_first_cells<K, V, M>(pre: Map<K, Value<V>>, op: Op<K, V, M>) -> Map<
    K,
    Value<V>,
> {
    match op {
        Op::Insert(k, v, id) => pre.insert(k, Value { val: v, tag: DropTag::Suppressed, id }),
        Op::Delete(k) => pre.remove(k),
        Op::SetMeta(_) => pre,
        Op::MarkReady => pre,
    }
}

/// Cell-level effect of replaying an operation onto the copy that sees it
/// second: an insert mints the `Owning` twin of the cell the first
/// application created.
pub open spec fn absorb_second_cells<K, V, M>(pre: Map<K, Value<V>>, op: Op<K, V, M>) -> Map<
    K,
    Value<V>,
> {
    match op {
        Op::Insert(k, v, id) => pre.insert(k, Value { val: v, tag: DropTag::Owning, id }),
        Op::Delete(k) => pre.remove(k),
        Op::SetMeta(_) => pre,
        Op::MarkReady => pre,
    }
}

/// The identity of the value an operation destroys when it is absorbed into a
/// copy whose current cell for the touched key is `Owning`; removing or
/// overwriting a `Suppressed` cell destroys nothing.
pub open spec fn dropped_on_absorb<K, V, M>(pre: Map<K, Value<V>>, op: Op<K, V, M>) -> Option<
    nat,
> {
    match op {
        Op::Insert(k, _, _) => if pre.contains_key(k) && pre[k].tag is Owning {
            Some(pre[k].id@)
        } else {
            None
        },
        Op::Delete(k) => if pre.contains_key(k) && pre[k].tag is Owning {
            Some(pre[k].id@)
        } else {
            None
        },
        Op::SetMeta(_) => None,
        Op::MarkReady => None,
    }
}

/// Stripping payloads commutes with either way of absorbing an operation, so
/// both buffer copies track [`apply_op_data`] at the payload level.
pub proof fn lemma_absorb_payload<K, V, M>(pre: Map<K, Value<V>>, op: Op<K, V, M>)
    ensures
        payload_of(absorb_first_cells(pre, op)) == apply_op_data(payload_of(pre), op),
        payload_of(absorb_second_cells(pre, op)) == apply_op_data(payload_of(pre), op),
{
    match op {
        Op::Insert(k, v, id) => {
            assert(payload_of(absorb_first_cells(pre, op)) =~= apply_op_data(
                payload_of(pre),
                op,
            ));
            assert(payload_of(absorb_second_cells(pre, op)) =~= apply_op_data(
                payload_of(pre),
                op,
            ));
        },
        Op::Delete(k) => {
            assert(payload_of(absorb_first_cells(pre, op)) =~= apply_op_data(
                payload_of(pre),
                op,
            ));
            assert(payload_of(absorb_second_cells(pre, op)) =~= apply_op_data(
                payload_of(pre),
                op,
            ));
        },
        Op::SetMeta(_) => {
        },
        Op::MarkReady => {
        },
    }
}

/// A cell map and its payload map have the same keys.
pub proof fn lemma_payload_dom<K, V>(cells: Map<K, Value<V>>)
    ensures
        payload_of(cells).dom() == cells.dom(),
        payload_of(cells).len() == cells.len(),
{
    assert(payload_of(cells).dom() =~= cells.dom());
}

/// Whether some cell of a cell map is tagged `Owning` and carries the given
/// identity.
pub open spec fn has_owning_in<K, V>(b: Map<K, Value<V>>, n: nat) -> bool {
    exists|k: K| #[trigger] b.contains_key(k) && b[k].id@ == n && b[k].tag is Owning
}

/// Whether the cell map holds an `Owning` cell with the given identity at
/// the given key.
pub open spec fn owns_at<K, V>(b: Map<K, Value<V>>, k: K, n: nat) -> bool {
    b.contains_key(k) && b[k].id@ == n && b[k].tag is Owning
}

/// At most one cell of a cell map is `Owning` for any one identity.
pub open spec fn owning_unique<K, V>(b: Map<K, Value<V>>) -> bool {
    forall|k1: K, k2: K|
        #![trigger b.contains_key(k1), b.contains_key(k2)]
        b.contains_key(k1) && b.contains_key(k2) && b[k1].tag is Owning && b[k2].tag is Owning
            && b[k1].id@ == b[k2].id@ ==> k1 == k2
}

/// How replacing the cell at one key changes which identities have an
/// `Owning` cell, given that no identity had two `Owning` cells before.
pub proof fn lemma_owning_insert<K, V>(pre: Map<K, Value<V>>, k: K, c: Value<V>)
    requires
        owning_unique(pre),
        c.tag is Owning ==> !has_owning_in(pre, c.id@) || owns_at(pre, k, c.id@),
    ensures
        owning_unique(pre.insert(k, c)),
        forall|n: nat| #[trigger] has_owning_in(pre.insert(k, c), n) <==> ((c.tag is Owning
            && c.id@ == n) || (has_owning_in(pre, n) && !owns_at(pre, k, n))),
{
    let post = pre.insert(k, c);
    assert forall|n: nat| #[trigger] has_owning_in(post, n) implies ((c.tag is Owning && c.id@
        == n) || (has_owning_in(pre, n) && !owns_at(pre, k, n))) by {
        let w = choose|w: K| #[trigger] post.contains_key(w) && post[w].id@ == n
            && post[w].tag is Owning;
        if w == k {
            assert(c.tag is Owning && c.id@ == n);
        } else {
            assert(pre.contains_key(w) && pre[w].id@ == n && pre[w].tag is Owning);
            if owns_at(pre, k, n) {
                assert(w == k);
            }
        }
    }
    assert forall|n: nat| ((c.tag is Owning && c.id@ == n) || (has_owning_in(pre, n) && !owns_at(
        pre,
        k,
        n,
    ))) implies #[trigger] has_owning_in(post, n) by {
        if c.tag is Owning && c.id@ == n {
            assert(post.contains_key(k) && post[k].id@ == n && post[k].tag is Owning);
        } else {
            let w = choose|w: K| #[trigger] pre.contains_key(w) && pre[w].id@ == n
                && pre[w].tag is Owning;
            assert(w != k);
            assert(post.contains_key(w) && post[w].id@ == n && post[w].tag is Owning);
        }
    }
    assert forall|k1: K, k2: K|
        #![trigger post.contains_key(k1), post.contains_key(k2)]
        post.contains_key(k1) && post.contains_key(k2) && post[k1].tag is Owning
            && post[k2].tag is Owning && post[k1].id@ == post[k2].id@ implies k1 == k2 by {
        if k1 != k2 {
            if k1 == k {
                assert(pre.contains_key(k2) && pre[k2].tag is Owning && pre[k2].id@ == c.id@);
                assert(has_owning_in(pre, c.id@));
                assert(owns_at(pre, k, c.id@));
                assert(pre.contains_key(k) && pre[k].tag is Owning && pre[k].id@ == c.id@);
            } else if k2 == k {
                assert(pre.contains_key(k1) && pre[k1].tag is Owning && pre[k1].id@ == c.id@);
                assert(has_owning_in(pre, c.id@));
                assert(owns_at(pre, k, c.id@));
                assert(pre.contains_key(k) && pre[k].tag is Owning && pre[k].id@ == c.id@);
            } else {
                assert(pre.contains_key(k1) && pre.contains_key(k2));
            }
        }
    }
}

/// How removing the cell at one key changes which identities have an
/// `Owning` cell, given that no identity had two `Owning` cells before.
pub proof fn lemma_owning_remove<K, V>(pre: Map<K, Value<V>>, k: K)
    requires
        owning_unique(pre),
    ensures
        owning_unique(pre.remove(k)),
        forall|n: nat| #[trigger] has_owning_in(pre.remove(k), n) <==> (has_owning_in(pre, n)
            && !owns_at(pre, k, n)),
{
    let post = pre.remove(k);
    assert forall|n: nat| #[trigger] has_owning_in(post, n) implies (has_owning_in(pre, n)
        && !owns_at(pre, k, n)) by {
        let w = choose|w: K| #[trigger] post.contains_key(w) && post[w].id@ == n
            && post[w].tag is Owning;
        assert(w != k);
        assert(pre.contains_key(w) && pre[w].id@ == n && pre[w].tag is Owning);
        if owns_at(pre, k, n) {
            assert(w == k);
        }
    }
    assert forall|n: nat| (has_owning_in(pre, n) && !owns_at(pre, k, n)) implies
        #[trigger] has_owning_in(post, n) by {
        let w = choose|w: K| #[trigger] pre.contains_key(w) && pre[w].id@ == n
            && pre[w].tag is Owning;
        assert(w != k);
        assert(post.contains_key(w) && post[w].id@ == n && post[w].tag is Owning);
    }
}

/// An empty cell map owns nothing.
pub proof fn lemma_owning_empty<K, V>(b: Map<K, Value<V>>)
    requires
        b == Map::<K, Value<V>>::empty(),
    ensures
        owning_unique(b),
        forall|n: nat| !(#[trigger] has_owning_in(b, n)),
{
    assert forall|n: nat| !(#[trigger] has_owning_in(b, n)) by {
        if has_owning_in(b, n) {
            let w = choose|w: K| #[trigger] b.contains_key(w) && b[w].id@ == n
                && b[w].tag is Owning;
            assert(!b.contains_key(w));
        }
    }
}

/// One physical copy of the map.
#[verifier::reject_recursive_types(S)]
pub struct Inner<K, V, M, S> {
    pub data: HashMap<K, Value<V>, S>,
    pub meta: M,
    pub hasher: S,
    pub ready: bool,
}

impl<K, V, M, S> Inner<K, V, M, S> {
    /// The logical key-value contents of this copy.
    pub open spec fn payload(self) -> Map<K, V> {
        payload_of(self.data@)
    }

    /// Whether some cell of this copy is the `Owning` cell for the value
    /// with the given identity.
    pub open spec fn has_owning(self, id: nat) -> bool {
        has_owning_in(self.data@, id)
    }
}

impl<K: Eq + Hash, V, M, S: BuildHasher> Inner<K, V, M, S> {
    /// A copy with the given metadata and hash builder and no data; it is not
    /// ready until a `MarkReady` operation is absorbed.
    pub(crate) fn with_meta_and_hasher(meta: M, hasher: S) -> (r: Self)
        where S: Clone,
        ensures
            map_is_empty(r.data@),
            r.meta == meta,
            r.hasher == hasher,
            !r.ready,
    {
        Inner { data: HashMap::with_hasher(hasher.clone()), meta, hasher, ready: false }
    }

    /// A second, still-empty copy of a copy that has absorbed nothing yet:
    /// the starting point of the other buffer.
    pub(crate) fn clone_empty(&self) -> (r: Self)
        where M: Clone, S: Clone,
        requires
            map_is_empty(self.data@),
            clone_exact::<M>(),
        ensures
            map_is_empty(r.data@),
            r.meta == self.meta,
            vstd::pervasive::cloned::<S>(self.hasher, r.hasher),
            r.ready == self.ready,
    {
        let meta = self.meta.clone();
        proof {
            assert(vstd::pervasive::cloned::<M>(self.meta, meta));
        }
        Inner {
            data: HashMap::with_hasher(self.hasher.clone()),
            meta,
            hasher: self.hasher.clone(),
            ready: self.ready,
        }
    }

    /// Absorb one operation into the copy that sees it first (the shadow
    /// buffer): the operation stays in the log, so the keys, values and
    /// metadata it carries are cloned in.
    pub(crate) fn absorb_first(&mut self, op: &Op<K, V, M>)
        where K: Clone, V: Clone, M: Clone,
        requires
            hash_model_ok::<K, S>(),
            clone_exact::<K>(),
            clone_exact::<V>(),
            clone_exact::<M>(),
        ensures
            final(self).data@ == absorb_first_cells(old(self).data@, *op),
            final(self).meta == apply_op_meta(old(self).meta, *op),
            final(self).ready == apply_op_ready(old(self).ready, *op),
            final(self).hasher == old(self).hasher,
    {
        match op {
            Op::Insert(k, v, id) => {
                let k2 = k.clone();
                let v2 = v.clone();
                proof {
                    assert(vstd::pervasive::cloned::<K>(*k, k2));
                    assert(vstd::pervasive::cloned::<V>(*v, v2));
                }
                let cell = Value::new(v2, *id);
                self.data.insert(k2, cell);
            },
            Op::Delete(k) => {
                self.data.remove(k);
            },
            Op::SetMeta(m) => {
                let m2 = m.clone();
                proof {
                    assert(vstd::pervasive::cloned::<M>(*m, m2));
                }
                self.meta = m2;
            },
            Op::MarkReady => {
                self.ready = true;
            },
        }
    }

    /// Replay one operation onto the copy that sees it second (the buffer
    /// just retired from exposure): the operation is consumed, handing its
    /// key, value and metadata over without cloning.
    pub(crate) fn absorb_second(&mut self, op: Op<K, V, M>)
        requires
            hash_model_ok::<K, S>(),
        ensures
            final(self).data@ == absorb_second_cells(old(self).data@, op),
            final(self).meta == apply_op_meta(old(self).meta, op),
            final(self).ready == apply_op_ready(old(self).ready, op),
            final(self).hasher == old(self).hasher,
    {
        match op {
            Op::Insert(k, v, id) => {
                let cell = Value::alias(v, id);
                self.data.insert(k, cell);
            },
            Op::Delete(k) => {
                self.data.remove(&k);
            },
            Op::SetMeta(m) => {
                self.meta = m;
            },
            Op::MarkReady => {
                self.ready = true;
            },
        }
    }

    /// A borrow of the cell stored for the given key, if any.
    pub(crate) fn get_cell<'a>(&'a self, key: &K) -> (r: Option<&'a Value<V>>)
        requires
            hash_model_ok::<K, S>(),
        ensures
            match r {
                Some(c) => self.data@.contains_key(*key) && *c == self.data@[*key],
                None => !self.data@.contains_key(*key),
            },
    {
        self.data.get(key)
    }

    /// A borrow of the value stored for the given key, if any.
    pub(crate) fn get_value<'a>(&'a self, key: &K) -> (r: Option<&'a V>)
        requires
            hash_model_ok::<K, S>(),
        ensures
            match r {
                Some(v) => self.payload().contains_key(*key) && *v == self.payload()[*key],
                None => !self.payload().contains_key(*key),
            },
    {
        match self.data.get(key) {
            Some(cell) => Some(cell.as_ref()),
            None => None,
        }
    }

    /// The number of keys in this copy.
    pub(crate) fn len(&self) -> (r: usize)
        requires
            hash_model_ok::<K, S>(),
        ensures
            r == self.payload().len(),
    {
        proof {
            lemma_payload_dom::<K, V>(self.data@);
        }
        self.data.len()
    }

    /// Whether the given key is present in this copy.
    pub(crate) fn contains_key(&self, key: &K) -> (r: bool)
        requires
            hash_model_ok::<K, S>(),
        ensures
            r == self.payload().contains_key(*key),
    {
        proof {
            lemma_payload_dom::<K, V>(self.data@);
        }
        self.data.contains_key(key)
    }
}

} // verus!
