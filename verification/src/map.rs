//! The synchronization core: both buffer copies, the exposure switch, the
//! pending operation log, and the destruction sentinel, together with the
//! writer-side and reader-side operations of the map.

use vstd::prelude::*;

use std::collections::hash_map::RandomState;
use std::hash::BuildHasher;
use std::hash::Hash;

use crate::inner::Inner;
use crate::inner::absorb_first_cells;
use crate::inner::absorb_second_cells;
use crate::inner::dropped_on_absorb;
use crate::inner::hash_model_ok;
use crate::inner::has_owning_in;
use crate::inner::lemma_absorb_payload;
use crate::inner::lemma_owning_empty;
use crate::inner::lemma_owning_insert;
use crate::inner::lemma_owning_remove;
use crate::inner::map_is_empty;
use crate::inner::owning_unique;
use crate::inner::owns_at;
use crate::mapguard::MapReadRef;
use crate::op::Op;
use crate::op::apply_op_meta;
use crate::op::apply_op_ready;
use crate::op::apply_ops_data;
use crate::op::apply_ops_meta;
use crate::op::apply_ops_ready;
use crate::op::lemma_apply_ops_data_push;
use crate::op::lemma_apply_ops_meta_push;
use crate::op::lemma_apply_ops_ready_push;
use crate::value::DropTag;
use crate::value::Value;
use crate::value::clone_exact;

verus! {

/// Whether some pending log entry still has to hand the value with the given
/// identity over to the buffer that absorbs it second.
pub open spec fn has_pending_id<K, V, M>(log: Seq<Op<K, V, M>>, n: nat) -> bool {
    exists|i: int| 0 <= i < log.len() && #[trigger] log[i].pending_id() == Some(n)
}

/// The set a destruction event adds to the set of destroyed identities.
pub open spec fn as_dropped_set(o: Option<nat>) -> Set<nat> {
    match o {
        Some(n) => Set::<nat>::empty().insert(n),
        None => Set::<nat>::empty(),
    }
}

/// An eventually consistent, read-optimized map: one writer, any number of
/// readers, two physical copies of the data.
///
/// Mutations are applied at once to the shadow copy and logged; readers see
/// only the exposed copy, so nothing becomes visible before [`RwMap::publish`]
/// swaps the two copies and replays the log onto the retired one. The
/// concurrent embedding hands the writer role to a single owner; calling a
/// writer operation from two threads at once is not supported, which this
/// sequential core enforces by taking the map by `&mut`.
#[verifier::reject_recursive_types(S)]
pub struct RwMap<K, V, M = (), S = RandomState> {
    left: Inner<K, V, M, S>,
    right: Inner<K, V, M, S>,
    exposed_left: bool,
    log: Vec<Op<K, V, M>>,
    destroyed: bool,
    next_id: Ghost<nat>,
    dropped: Ghost<Set<nat>>,
}

impl<K, V, M, S> RwMap<K, V, M, S> {
    /// The buffer copy readers currently see.
    pub closed spec fn exposed(self) -> Inner<K, V, M, S> {
        if self.exposed_left {
            self.left
        } else {
            self.right
        }
    }

    /// The buffer copy the writer currently mutates.
    pub closed spec fn shadow(self) -> Inner<K, V, M, S> {
        if self.exposed_left {
            self.right
        } else {
            self.left
        }
    }

    /// The operations appended since the last publish, oldest first.
    pub closed spec fn pending(self) -> Seq<Op<K, V, M>> {
        self.log@
    }

    /// Whether the writer side has been torn down.
    pub closed spec fn is_destroyed(self) -> bool {
        self.destroyed
    }

    /// Whether a publish has ever completed, so that readers may see data.
    pub open spec fn is_ready(self) -> bool {
        self.exposed().ready
    }

    /// The key-value contents of the exposed copy.
    pub open spec fn published(self) -> Map<K, V> {
        self.exposed().payload()
    }

    /// What lookups through a read handle actually see: the published
    /// contents once a publish has happened, and nothing before the first
    /// publish or after destruction.
    pub open spec fn visible(self) -> Map<K, V> {
        if self.is_ready() && !self.is_destroyed() {
            self.published()
        } else {
            Map::<K, V>::empty()
        }
    }

    /// The metadata readers see.
    pub open spec fn meta_view(self) -> M {
        self.exposed().meta
    }

    /// Identities handed out to inserted values so far.
    pub closed spec fn id_ceiling(self) -> nat {
        self.next_id@
    }

    /// The identities of the values whose destructor has run.
    pub closed spec fn dropped_ids(self) -> Set<nat> {
        self.dropped@
    }

    /// The destroyed identities after one more operation is absorbed into the
    /// shadow copy: unchanged, unless the operation replaces or removes the
    /// shadow's `Owning` cell for some value.
    pub open spec fn dropped_after(self, op: Op<K, V, M>) -> Set<nat> {
        self.dropped_ids().union(as_dropped_set(dropped_on_absorb(self.shadow().data@, op)))
    }

    /// The two copies and the log agree: the shadow copy is exactly the
    /// exposed copy with the pending operations applied, in order.
    pub open spec fn coupled(self) -> bool {
        &&& self.shadow().payload() == apply_ops_data(self.exposed().payload(), self.pending())
        &&& self.shadow().meta == apply_ops_meta(self.exposed().meta, self.pending())
        &&& self.shadow().ready == apply_ops_ready(self.exposed().ready, self.pending())
    }

    /// The drop-responsibility discipline. Every value identity the map has
    /// handed out is, at any instant, in at most one of three places: the set
    /// of destroyed values, a single `Owning` cell across the two copies, or
    /// a single pending `Insert` entry of the log; and every identity below
    /// the ceiling is in one of them, so no value is ever leaked or destroyed
    /// twice.
    pub open spec fn drop_inv(self) -> bool {
        &&& forall|k: K| #[trigger] self.exposed().data@.contains_key(k)
            ==> self.exposed().data@[k].id@ < self.id_ceiling()
        &&& forall|k: K| #[trigger] self.shadow().data@.contains_key(k)
            ==> self.shadow().data@[k].id@ < self.id_ceiling()
        &&& forall|i: int|
            0 <= i < self.pending().len() ==> (#[trigger] self.pending()[i].pending_id() matches
            Some(n) ==> n < self.id_ceiling())
        &&& forall|n: nat| #[trigger] self.dropped_ids().contains(n) ==> n < self.id_ceiling()
        &&& forall|n: nat| #[trigger]
            self.dropped_ids().contains(n) ==> !has_owning_in(self.exposed().data@, n)
                && !has_owning_in(self.shadow().data@, n) && !has_pending_id(self.pending(), n)
        &&& owning_unique(self.exposed().data@)
        &&& owning_unique(self.shadow().data@)
        &&& forall|n: nat|
            #![trigger has_owning_in(self.exposed().data@, n)]
            #![trigger has_owning_in(self.shadow().data@, n)]
            !(has_owning_in(self.exposed().data@, n) && has_owning_in(self.shadow().data@, n))
        &&& forall|n: nat| #[trigger]
            has_pending_id(self.pending(), n) ==> !has_owning_in(self.exposed().data@, n)
                && !has_owning_in(self.shadow().data@, n)
        &&& forall|i: int, j: int|
            #![trigger self.pending()[i].pending_id(), self.pending()[j].pending_id()]
            0 <= i < self.pending().len() && 0 <= j < self.pending().len()
                && self.pending()[i].pending_id() is Some && self.pending()[i].pending_id()
                == self.pending()[j].pending_id() ==> i == j
        &&& forall|n: nat|
            #![trigger self.dropped_ids().contains(n)]
            n < self.id_ceiling() ==> (self.dropped_ids().contains(n) || has_owning_in(
                self.exposed().data@,
                n,
            ) || has_owning_in(self.shadow().data@, n) || has_pending_id(self.pending(), n))
    }
}

impl<K: Eq + Hash + Clone, V: Clone, M: Clone, S: BuildHasher + Clone> RwMap<K, V, M, S> {
    /// While the map is alive and not yet ready, the readiness marker
    /// enqueued at construction is still in the log, so the next publish is
    /// guaranteed to make the map ready.
    pub open spec fn mark_ready_pending(self) -> bool {
        !self.is_ready() ==> exists|i: int|
            0 <= i < self.pending().len() && #[trigger] self.pending()[i] is MarkReady
    }

    /// The standing type assumptions, the coupling between the copies and
    /// the log, and the drop-responsibility discipline; everything
    /// well-formedness asks except that the readiness marker be pending,
    /// which construction establishes last.
    pub open spec fn wf_core(self) -> bool {
        &&& hash_model_ok::<K, S>()
        &&& clone_exact::<K>()
        &&& clone_exact::<V>()
        &&& clone_exact::<M>()
        &&& !self.is_destroyed() ==> self.coupled()
        &&& self.drop_inv()
    }

    /// Well-formedness: the standing type assumptions, and, while the map is
    /// alive, the coupling between the copies and the log.
    pub open spec fn wf(self) -> bool {
        &&& self.wf_core()
        &&& !self.is_destroyed() ==> self.mark_ready_pending()
    }

    /// A fresh map from explicit or defaulted metadata and hash strategy.
    ///
    /// The map starts unready; the log already carries the `MarkReady`
    /// operation, so readiness reaches both copies with the first publish.
    pub fn maybe_with_meta_and_hasher(meta: Option<M>, hasher: Option<S>) -> (r: Self)
        where M: Default, S: Default,
        requires
            hash_model_ok::<K, S>(),
            clone_exact::<K>(),
            clone_exact::<V>(),
            clone_exact::<M>(),
        ensures
            r.wf(),
            !r.is_destroyed(),
            !r.is_ready(),
            map_is_empty(r.published()),
            map_is_empty(r.visible()),
            r.pending().len() == 1,
            r.pending()[0] is MarkReady,
            meta matches Some(m) ==> r.meta_view() == m,
            meta is None ==> call_ensures(
                <M as core::default::Default>::default,
                (),
                r.meta_view(),
            ),
            r.id_ceiling() == 0,
            r.dropped_ids() == Set::<nat>::empty(),
    {
        let m = match meta {
            Some(m) => m,
            None => M::default(),
        };
        let h = match hasher {
            Some(h) => h,
            None => S::default(),
        };
        let first = Inner::with_meta_and_hasher(m, h);
        let second = first.clone_empty();
        let mut r = RwMap {
            left: first,
            right: second,
            exposed_left: true,
            log: Vec::new(),
            destroyed: false,
            next_id: Ghost(0),
            dropped: Ghost(Set::empty()),
        };
        proof {
            assert(r.exposed().payload() =~= Map::<K, V>::empty());
            assert(r.shadow().payload() =~= r.exposed().payload());
            assert(apply_ops_data(r.exposed().payload(), Seq::<Op<K, V, M>>::empty())
                == r.exposed().payload());
            assert(apply_ops_meta(r.exposed().meta, Seq::<Op<K, V, M>>::empty())
                == r.exposed().meta);
            assert(apply_ops_ready(r.exposed().ready, Seq::<Op<K, V, M>>::empty())
                == r.exposed().ready);
        }
        r.add_op(Op::MarkReady);
        proof {
            assert(map_is_empty(r.published()));
            assert(map_is_empty(r.visible()));
            assert(r.pending()[0] is MarkReady);
        }
        r
    }

    /// Appending one operation (and absorbing it into the shadow copy first)
    /// preserves the drop-responsibility discipline.
    proof fn lemma_drop_inv_append(pre: Self, post: Self, op: Op<K, V, M>)
        requires
            pre.drop_inv(),
            op.pending_id() matches Some(n) ==> n == pre.id_ceiling(),
            post.exposed() == pre.exposed(),
            post.shadow().data@ == absorb_first_cells(pre.shadow().data@, op),
            post.pending() == pre.pending().push(op),
            post.dropped_ids() == pre.dropped_ids().union(
                as_dropped_set(dropped_on_absorb(pre.shadow().data@, op)),
            ),
            post.id_ceiling() == if op.pending_id() is Some {
                pre.id_ceiling() + 1
            } else {
                pre.id_ceiling()
            },
        ensures
            post.drop_inv(),
    {
        let e = pre.exposed().data@;
        let b0 = pre.shadow().data@;
        let b1 = post.shadow().data@;
        let log0 = pre.pending();
        let log1 = post.pending();
        let dr0 = pre.dropped_ids();
        let dr1 = post.dropped_ids();
        let c0 = pre.id_ceiling();
        let c1 = post.id_ceiling();
        // How the owning cells of the shadow copy change, per kind of operation.
        match op {
            Op::Insert(k, v, id) => {
                lemma_owning_insert(b0, k, Value { val: v, tag: DropTag::Suppressed, id });
            },
            Op::Delete(k) => {
                lemma_owning_remove(b0, k);
            },
            Op::SetMeta(_) => {
            },
            Op::MarkReady => {
            },
        }
        // The shadow copy never gains an owning cell on first application.
        assert forall|n: nat| #[trigger] has_owning_in(b1, n) implies has_owning_in(b0, n) by {}
        // Entries of the grown log.
        assert(forall|i: int| 0 <= i < log0.len() ==> log1[i] == log0[i]);
        assert(log1[log0.len() as int] == op);
        assert forall|n: nat| #[trigger] has_pending_id(log1, n) implies has_pending_id(log0, n)
            || op.pending_id() == Some(n) by {
            let i = choose|i: int| 0 <= i < log1.len() && #[trigger] log1[i].pending_id() == Some(
                n,
            );
            if i < log0.len() {
                assert(log0[i].pending_id() == Some(n));
            }
        }
        assert forall|n: nat| has_pending_id(log0, n) implies #[trigger] has_pending_id(
            log1,
            n,
        ) by {
            let i = choose|i: int| 0 <= i < log0.len() && #[trigger] log0[i].pending_id() == Some(
                n,
            );
            assert(log1[i].pending_id() == Some(n));
        }
        // Identity bounds.
        assert forall|k: K| #[trigger] b1.contains_key(k) implies b1[k].id@ < c1 by {
            if !(b0.contains_key(k) && b1[k] == b0[k]) {
                assert(op.pending_id() is Some);
            }
        }
        // What the destruction event was, if any.
        let ev = dropped_on_absorb(b0, op);
        assert forall|n: nat| #[trigger] dr1.contains(n) implies n < c1 && !has_owning_in(e, n)
            && !has_owning_in(b1, n) && !has_pending_id(log1, n) by {
            if dr0.contains(n) {
                if has_pending_id(log1, n) {
                    assert(op.pending_id() matches Some(f) ==> f == c0 && n < c0);
                }
            } else {
                // the event: the shadow copy owned n at the touched key
                assert(ev == Some(n));
                match op {
                    Op::Insert(k, _, _) => {
                        assert(owns_at(b0, k, n));
                        assert(has_owning_in(b0, n));
                    },
                    Op::Delete(k) => {
                        assert(owns_at(b0, k, n));
                        assert(has_owning_in(b0, n));
                    },
                    Op::SetMeta(_) => {
                        assert(false);
                    },
                    Op::MarkReady => {
                        assert(false);
                    },
                }
                assert(!has_owning_in(e, n));
                assert(!has_pending_id(log0, n));
                if has_pending_id(log1, n) {
                    assert(op.pending_id() == Some(n));
                    assert(n == c0);
                }
            }
        }
        // A pending identity has no owning cell.
        assert forall|n: nat| #[trigger] has_pending_id(log1, n) implies !has_owning_in(e, n)
            && !has_owning_in(b1, n) by {
            if has_pending_id(log0, n) {
            } else {
                assert(op.pending_id() == Some(n));
                assert(n == c0);
                if has_owning_in(e, n) {
                    let w = choose|w: K| #[trigger] e.contains_key(w) && e[w].id@ == n
                        && e[w].tag is Owning;
                }
                if has_owning_in(b1, n) {
                    assert(has_owning_in(b0, n));
                    let w = choose|w: K| #[trigger] b0.contains_key(w) && b0[w].id@ == n
                        && b0[w].tag is Owning;
                }
            }
        }
        // Pending entries stay unique.
        assert forall|i: int, j: int|
            0 <= i < log1.len() && 0 <= j < log1.len() && log1[i].pending_id() is Some
                && #[trigger] log1[i].pending_id() == #[trigger] log1[j].pending_id() implies i
            == j by {
            if i < log0.len() && j < log0.len() {
                assert(log0[i].pending_id() == log1[i].pending_id());
                assert(log0[j].pending_id() == log1[j].pending_id());
            } else if i < log0.len() {
                assert(log1[j] == op);
                assert(log0[i].pending_id() is Some);
                assert(op.pending_id() matches Some(n) ==> n == c0);
            } else if j < log0.len() {
                assert(log1[i] == op);
                assert(op.pending_id() matches Some(n) ==> n == c0);
                assert(log0[j].pending_id() is Some);
            }
        }
        // Every identity below the new ceiling is still accounted for.
        assert forall|n: nat| n < c1 implies (#[trigger] dr1.contains(n) || has_owning_in(e, n)
            || has_owning_in(b1, n) || has_pending_id(log1, n)) by {
            if n < c0 {
                assert(dr0.contains(n) || has_owning_in(e, n) || has_owning_in(b0, n)
                    || has_pending_id(log0, n));
                if has_owning_in(b0, n) && !has_owning_in(b1, n) && !dr0.contains(n) {
                    match op {
                        Op::Insert(k, _, _) => {
                            assert(owns_at(b0, k, n));
                            assert(ev == Some(n));
                        },
                        Op::Delete(k) => {
                            assert(owns_at(b0, k, n));
                            assert(ev == Some(n));
                        },
                        Op::SetMeta(_) => {
                            assert(false);
                        },
                        Op::MarkReady => {
                            assert(false);
                        },
                    }
                    assert(dr1.contains(n));
                }
            } else {
                assert(op.pending_id() == Some(n));
                assert(has_pending_id(log1, n));
            }
        }
    }

    /// Append one operation: absorb it into the shadow copy at once and log
    /// it for the replay that the next publish performs.
    fn add_op(&mut self, op: Op<K, V, M>)
        requires
            old(self).wf_core(),
            old(self).mark_ready_pending() || op is MarkReady,
            !old(self).is_destroyed(),
            op.pending_id() matches Some(n) ==> n == old(self).id_ceiling(),
        ensures
            final(self).wf(),
            !final(self).is_destroyed(),
            final(self).pending() == old(self).pending().push(op),
            final(self).exposed() == old(self).exposed(),
            final(self).published() == old(self).published(),
            final(self).visible() == old(self).visible(),
            final(self).meta_view() == old(self).meta_view(),
            final(self).is_ready() == old(self).is_ready(),
            final(self).shadow().data@ == absorb_first_cells(old(self).shadow().data@, op),
            final(self).shadow().meta == apply_op_meta(old(self).shadow().meta, op),
            final(self).shadow().ready == apply_op_ready(old(self).shadow().ready, op),
            final(self).id_ceiling() == if op.pending_id() is Some {
                old(self).id_ceiling() + 1
            } else {
                old(self).id_ceiling()
            },
            final(self).dropped_ids() == old(self).dropped_after(op),
    {
        let ghost pre = *self;
        if let Op::Insert(_, _, _) = &op {
            self.next_id = Ghost(self.next_id@ + 1);
        }
        if self.exposed_left {
            self.right.absorb_first(&op);
        } else {
            self.left.absorb_first(&op);
        }
        self.dropped = Ghost(
            pre.dropped@.union(as_dropped_set(dropped_on_absorb(pre.shadow().data@, op))),
        );
        self.log.push(op);
        proof {
            lemma_apply_ops_data_push(pre.exposed().payload(), pre.pending(), op);
            lemma_apply_ops_meta_push(pre.exposed().meta, pre.pending(), op);
            lemma_apply_ops_ready_push(pre.exposed().ready, pre.pending(), op);
            lemma_absorb_payload(pre.shadow().data@, op);
            Self::lemma_drop_inv_append(pre, *self, op);
            if !self.is_ready() {
                if op is MarkReady {
                    assert(self.pending()[pre.pending().len() as int] is MarkReady);
                } else {
                    let i = choose|i: int|
                        0 <= i < pre.pending().len() && #[trigger] pre.pending()[i] is MarkReady;
                    assert(self.pending()[i] is MarkReady);
                }
            }
        }
    }

    /// Replaying the oldest logged operation onto the retired copy (which
    /// takes the operation over, minting the `Owning` twin of an insert)
    /// preserves the drop-responsibility discipline.
    proof fn lemma_drop_inv_replay(pre: Self, post: Self, op: Op<K, V, M>)
        requires
            pre.drop_inv(),
            pre.pending().len() > 0,
            pre.pending()[0] == op,
            post.exposed() == pre.exposed(),
            post.shadow().data@ == absorb_second_cells(pre.shadow().data@, op),
            post.pending() == pre.pending().skip(1),
            post.dropped_ids() == pre.dropped_ids().union(
                as_dropped_set(dropped_on_absorb(pre.shadow().data@, op)),
            ),
            post.id_ceiling() == pre.id_ceiling(),
        ensures
            post.drop_inv(),
    {
        let e = pre.exposed().data@;
        let b0 = pre.shadow().data@;
        let b1 = post.shadow().data@;
        let log0 = pre.pending();
        let log1 = post.pending();
        let dr0 = pre.dropped_ids();
        let dr1 = post.dropped_ids();
        let c = pre.id_ceiling();
        assert(forall|i: int| 0 <= i < log1.len() ==> log1[i] == log0[i + 1]);
        // Shifting the log: what stays pending.
        assert forall|n: nat| #[trigger] has_pending_id(log1, n) implies has_pending_id(log0, n)
            && op.pending_id() != Some(n) by {
            let i = choose|i: int| 0 <= i < log1.len() && #[trigger] log1[i].pending_id() == Some(
                n,
            );
            assert(log0[i + 1].pending_id() == Some(n));
            if op.pending_id() == Some(n) {
                assert(log0[0].pending_id() == log0[i + 1].pending_id());
                assert(0 == i + 1);
            }
        }
        assert forall|n: nat| has_pending_id(log0, n) && op.pending_id() != Some(n) implies
            #[trigger] has_pending_id(log1, n) by {
            let i = choose|i: int| 0 <= i < log0.len() && #[trigger] log0[i].pending_id() == Some(
                n,
            );
            assert(i != 0);
            assert(log1[i - 1].pending_id() == Some(n));
        }
        // How the owning cells of the retired copy change.
        match op {
            Op::Insert(k, v, id) => {
                assert(log0[0].pending_id() == Some(id@));
                assert(has_pending_id(log0, id@));
                lemma_owning_insert(b0, k, Value { val: v, tag: DropTag::Owning, id });
            },
            Op::Delete(k) => {
                lemma_owning_remove(b0, k);
            },
            Op::SetMeta(_) => {
            },
            Op::MarkReady => {
            },
        }
        let ev = dropped_on_absorb(b0, op);
        // Identity bounds for the changed copy.
        assert forall|k: K| #[trigger] b1.contains_key(k) implies b1[k].id@ < c by {
            if !(b0.contains_key(k) && b1[k] == b0[k]) {
                assert(log0[0].pending_id() is Some);
            }
        }
        // Destroyed identities stay out of the live places.
        assert forall|n: nat| #[trigger] dr1.contains(n) implies n < c && !has_owning_in(e, n)
            && !has_owning_in(b1, n) && !has_pending_id(log1, n) by {
            if dr0.contains(n) {
                assert(!has_owning_in(b0, n));
                assert(!has_pending_id(log0, n));
            } else {
                assert(ev == Some(n));
                match op {
                    Op::Insert(k, _, _) => {
                        assert(owns_at(b0, k, n));
                        assert(has_owning_in(b0, n));
                    },
                    Op::Delete(k) => {
                        assert(owns_at(b0, k, n));
                        assert(has_owning_in(b0, n));
                    },
                    Op::SetMeta(_) => {
                        assert(false);
                    },
                    Op::MarkReady => {
                        assert(false);
                    },
                }
                assert(!has_owning_in(e, n));
                assert(!has_pending_id(log0, n));
                assert(op.pending_id() != Some(n));
            }
        }
        // A still-pending identity has no owning cell yet.
        assert forall|n: nat| #[trigger] has_pending_id(log1, n) implies !has_owning_in(e, n)
            && !has_owning_in(b1, n) by {
            assert(has_pending_id(log0, n));
            if has_owning_in(b1, n) {
                assert(op.pending_id() != Some(n));
                assert(has_owning_in(b0, n));
            }
        }
        // Every identity below the ceiling is still accounted for.
        assert forall|n: nat| n < c implies (#[trigger] dr1.contains(n) || has_owning_in(e, n)
            || has_owning_in(b1, n) || has_pending_id(log1, n)) by {
            assert(dr0.contains(n) || has_owning_in(e, n) || has_owning_in(b0, n)
                || has_pending_id(log0, n));
            if has_owning_in(b0, n) && !has_owning_in(b1, n) && !dr0.contains(n) {
                match op {
                    Op::Insert(k, _, _) => {
                        assert(owns_at(b0, k, n) || (n == op.pending_id().unwrap()));
                        if owns_at(b0, k, n) {
                            assert(ev == Some(n));
                        }
                    },
                    Op::Delete(k) => {
                        assert(owns_at(b0, k, n));
                        assert(ev == Some(n));
                    },
                    Op::SetMeta(_) => {
                        assert(false);
                    },
                    Op::MarkReady => {
                        assert(false);
                    },
                }
            }
            if has_pending_id(log0, n) && !has_pending_id(log1, n) {
                assert(op.pending_id() == Some(n));
                match op {
                    Op::Insert(k, v, id) => {
                        assert(has_owning_in(b1, n));
                    },
                    Op::Delete(_) => {
                        assert(false);
                    },
                    Op::SetMeta(_) => {
                        assert(false);
                    },
                    Op::MarkReady => {
                        assert(false);
                    },
                }
            }
        }
        // Pending entries stay unique after the shift.
        assert forall|i: int, j: int|
            0 <= i < log1.len() && 0 <= j < log1.len() && log1[i].pending_id() is Some
                && #[trigger] log1[i].pending_id() == #[trigger] log1[j].pending_id() implies i
            == j by {
            assert(log0[i + 1].pending_id() == log1[i].pending_id());
            assert(log0[j + 1].pending_id() == log1[j].pending_id());
        }
    }

    /// Record an insert of the given key and value.
    ///
    /// The writer's own shadow copy observes it at once; readers observe it
    /// only after the next publish. Inserting over a present key overwrites
    /// its value.
    pub fn insert(&mut self, k: K, v: V)
        requires
            old(self).wf(),
            !old(self).is_destroyed(),
        ensures
            final(self).wf(),
            !final(self).is_destroyed(),
            final(self).pending() == old(self).pending().push(
                Op::Insert(k, v, Ghost(old(self).id_ceiling())),
            ),
            final(self).visible() == old(self).visible(),
            final(self).published() == old(self).published(),
            final(self).meta_view() == old(self).meta_view(),
            final(self).is_ready() == old(self).is_ready(),
            final(self).shadow().payload() == old(self).shadow().payload().insert(k, v),
            final(self).id_ceiling() == old(self).id_ceiling() + 1,
            final(self).dropped_ids() == old(self).dropped_after(
                Op::Insert(k, v, Ghost(old(self).id_ceiling())),
            ),
    {
        let ghost n = self.next_id@;
        let op = Op::Insert(k, v, Ghost(n));
        proof {
            lemma_absorb_payload(self.shadow().data@, op);
        }
        self.add_op(op);
    }

    /// Record a removal of the given key; removing an absent key is a no-op,
    /// not an error. Readers observe the removal only after the next publish.
    pub fn remove(&mut self, k: K)
        requires
            old(self).wf(),
            !old(self).is_destroyed(),
        ensures
            final(self).wf(),
            !final(self).is_destroyed(),
            final(self).pending() == old(self).pending().push(Op::Delete(k)),
            final(self).visible() == old(self).visible(),
            final(self).published() == old(self).published(),
            final(self).meta_view() == old(self).meta_view(),
            final(self).is_ready() == old(self).is_ready(),
            final(self).shadow().payload() == old(self).shadow().payload().remove(k),
            final(self).id_ceiling() == old(self).id_ceiling(),
            final(self).dropped_ids() == old(self).dropped_after(Op::Delete(k)),
    {
        let op = Op::Delete(k);
        proof {
            lemma_absorb_payload(self.shadow().data@, op);
        }
        self.add_op(op);
    }

    /// Record a wholesale overwrite of the metadata. Readers observe it only
    /// after the next publish.
    pub fn set_meta(&mut self, meta: M)
        requires
            old(self).wf(),
            !old(self).is_destroyed(),
        ensures
            final(self).wf(),
            !final(self).is_destroyed(),
            final(self).pending() == old(self).pending().push(Op::SetMeta(meta)),
            final(self).visible() == old(self).visible(),
            final(self).published() == old(self).published(),
            final(self).meta_view() == old(self).meta_view(),
            final(self).is_ready() == old(self).is_ready(),
            final(self).shadow().meta == meta,
            final(self).id_ceiling() == old(self).id_ceiling(),
            final(self).dropped_ids() == old(self).dropped_ids(),
    {
        let op = Op::SetMeta(meta);
        self.add_op(op);
    }

    /// Whether operations appended since the last publish are still waiting
    /// to be made visible to readers.
    pub fn has_pending(&self) -> (r: bool)
        ensures
            r == (self.pending().len() != 0),
    {
        self.log.len() != 0
    }

    /// Make every pending operation visible to readers, atomically as one
    /// batch: swap which copy is exposed, then replay the log, in order, onto
    /// the retired copy so that both copies converge, and clear the log.
    ///
    /// With nothing pending this is a no-op. In the concurrent embedding this
    /// is the only operation that may block: it waits until every reader that
    /// entered the retired copy has left it.
    pub fn publish(&mut self)
        requires
            old(self).wf(),
            !old(self).is_destroyed(),
        ensures
            final(self).wf(),
            !final(self).is_destroyed(),
            final(self).pending().len() == 0,
            final(self).published() == apply_ops_data(old(self).published(), old(self).pending()),
            final(self).published() == old(self).shadow().payload(),
            final(self).meta_view() == apply_ops_meta(old(self).meta_view(), old(self).pending()),
            final(self).is_ready(),
            final(self).visible() == apply_ops_data(old(self).published(), old(self).pending()),
            final(self).id_ceiling() == old(self).id_ceiling(),
            old(self).dropped_ids().subset_of(final(self).dropped_ids()),
    {
        if self.log.len() == 0 {
            proof {
                if !self.is_ready() {
                    let i = choose|i: int|
                        0 <= i < self.pending().len() && #[trigger] self.pending()[i] is MarkReady;
                }
                assert(apply_ops_data(self.published(), self.pending()) == self.published());
            }
            return ;
        }
        let ghost orig = *self;
        self.exposed_left = !self.exposed_left;
        proof {
            assert(self.exposed() == orig.shadow());
            assert(self.shadow() == orig.exposed());
            assert(self.log@ == orig.pending().skip(0));
            assert(orig.pending().take(0) =~= Seq::<Op<K, V, M>>::empty());
            assert(self.exposed().data@ == orig.shadow().data@);
            assert(self.shadow().data@ == orig.exposed().data@);
            assert(self.pending() == orig.pending());
            assert(self.dropped_ids() == orig.dropped_ids());
            assert(self.id_ceiling() == orig.id_ceiling());
            assert(self.drop_inv());
        }
        while self.log.len() != 0
            invariant
                orig.wf(),
                !orig.is_destroyed(),
                self.destroyed == orig.destroyed,
                self.exposed_left == !orig.exposed_left,
                self.exposed() == orig.shadow(),
                self.next_id == orig.next_id,
                self.drop_inv(),
                orig.dropped@.subset_of(self.dropped@),
                self.log@ == orig.pending().skip(orig.pending().len() - self.log@.len()),
                self.log@.len() <= orig.pending().len(),
                self.shadow().payload() == apply_ops_data(
                    orig.exposed().payload(),
                    orig.pending().take(orig.pending().len() - self.log@.len()),
                ),
                self.shadow().meta == apply_ops_meta(
                    orig.exposed().meta,
                    orig.pending().take(orig.pending().len() - self.log@.len()),
                ),
                self.shadow().ready == apply_ops_ready(
                    orig.exposed().ready,
                    orig.pending().take(orig.pending().len() - self.log@.len()),
                ),
            decreases self.log@.len(),
        {
            let ghost done = orig.pending().len() - self.log@.len();
            let ghost pre = *self;
            let op = self.log.remove(0);
            proof {
                assert(op == orig.pending()[done]);
                assert(self.log@ =~= orig.pending().skip(done + 1));
                assert(self.log@ =~= pre.pending().skip(1));
                assert(orig.pending().take(done + 1) =~= orig.pending().take(done).push(op));
                lemma_apply_ops_data_push(orig.exposed().payload(), orig.pending().take(done), op);
                lemma_apply_ops_meta_push(orig.exposed().meta, orig.pending().take(done), op);
                lemma_apply_ops_ready_push(orig.exposed().ready, orig.pending().take(done), op);
                lemma_absorb_payload(pre.shadow().data@, op);
            }
            self.dropped = Ghost(
                pre.dropped@.union(as_dropped_set(dropped_on_absorb(pre.shadow().data@, op))),
            );
            if self.exposed_left {
                self.right.absorb_second(op);
            } else {
                self.left.absorb_second(op);
            }
            proof {
                Self::lemma_drop_inv_replay(pre, *self, op);
            }
        }
        proof {
            assert(orig.pending().take(orig.pending().len() as int) =~= orig.pending());
            assert(self.log@ =~= Seq::<Op<K, V, M>>::empty());
            assert(apply_ops_data(self.exposed().payload(), self.log@)
                == self.exposed().payload());
            assert(apply_ops_meta(self.exposed().meta, self.log@) == self.exposed().meta);
            assert(apply_ops_ready(self.exposed().ready, self.log@) == self.exposed().ready);
            if orig.is_ready() {
                crate::op::lemma_ready_monotone::<K, V, M>(orig.pending());
            } else {
                crate::op::lemma_ready_after_mark(orig.is_ready(), orig.pending());
            }
        }
    }

    /// Tear the map down, as dropping the writer side does in the concurrent
    /// embedding: every existing and future lookup through any read handle
    /// reports absence from now on.
    pub fn destroy(&mut self)
        requires
            old(self).wf(),
        ensures
            final(self).wf(),
            final(self).is_destroyed(),
            map_is_empty(final(self).published()),
            map_is_empty(final(self).visible()),
            final(self).pending().len() == 0,
            final(self).id_ceiling() == old(self).id_ceiling(),
            old(self).dropped_ids().subset_of(final(self).dropped_ids()),
            forall|n: nat|
                n < old(self).id_ceiling() ==> #[trigger] final(self).dropped_ids().contains(n),
    {
        let ghost pre = *self;
        self.destroyed = true;
        self.left.data.clear();
        self.right.data.clear();
        self.log.clear();
        self.dropped = Ghost(
            Set::new(
                |n: nat|
                    pre.dropped@.contains(n) || pre.left.has_owning(n) || pre.right.has_owning(n)
                        || has_pending_id(pre.log@, n),
            ),
        );
        proof {
            assert(final(self).published() =~= Map::<K, V>::empty());
            assert(pre.dropped@.subset_of(self.dropped@));
            lemma_owning_empty::<K, V>(self.left.data@);
            lemma_owning_empty::<K, V>(self.right.data@);
            assert forall|n: nat| !(#[trigger] has_pending_id(self.pending(), n)) by {
                if has_pending_id(self.pending(), n) {
                    let i = choose|i: int|
                        0 <= i < self.pending().len() && #[trigger] self.pending()[i].pending_id()
                            == Some(n);
                }
            }
            assert forall|n: nat| #[trigger] self.dropped@.contains(n) implies n
                < self.next_id@ by {
                assert(pre.dropped@.contains(n) || pre.left.has_owning(n) || pre.right.has_owning(
                    n,
                ) || has_pending_id(pre.log@, n));
                if pre.dropped@.contains(n) {
                    assert(pre.dropped_ids().contains(n));
                    assert(n < pre.id_ceiling());
                } else if pre.left.has_owning(n) {
                    assert(has_owning_in(pre.left.data@, n));
                    let w = choose|w: K| #[trigger] pre.left.data@.contains_key(w)
                        && pre.left.data@[w].id@ == n && pre.left.data@[w].tag is Owning;
                    assert(pre.exposed().data@.contains_key(w) || pre.shadow().data@.contains_key(
                        w,
                    ));
                    assert(n < pre.id_ceiling());
                } else if pre.right.has_owning(n) {
                    assert(has_owning_in(pre.right.data@, n));
                    let w = choose|w: K| #[trigger] pre.right.data@.contains_key(w)
                        && pre.right.data@[w].id@ == n && pre.right.data@[w].tag is Owning;
                    assert(pre.exposed().data@.contains_key(w) || pre.shadow().data@.contains_key(
                        w,
                    ));
                    assert(n < pre.id_ceiling());
                } else {
                    assert(has_pending_id(pre.pending(), n));
                    let i = choose|i: int|
                        0 <= i < pre.pending().len() && #[trigger] pre.pending()[i].pending_id()
                            == Some(n);
                    assert(pre.pending()[i].pending_id() == Some(n));
                    assert(n < pre.id_ceiling());
                }
            }
            assert forall|n: nat| n < pre.id_ceiling() implies #[trigger] self.dropped@.contains(
                n,
            ) by {
                assert(pre.dropped_ids().contains(n) || has_owning_in(pre.exposed().data@, n)
                    || has_owning_in(pre.shadow().data@, n) || has_pending_id(pre.pending(), n));
                assert(has_owning_in(pre.exposed().data@, n) ==> has_owning_in(pre.left.data@, n)
                    || has_owning_in(pre.right.data@, n));
                assert(has_owning_in(pre.shadow().data@, n) ==> has_owning_in(pre.left.data@, n)
                    || has_owning_in(pre.right.data@, n));
            }
        }
    }

    /// Drop-at-most-once: a value whose destructor has already run has no
    /// remaining `Owning` cell in either copy and no pending insert, so no
    /// later operation or teardown can destroy it a second time.
    pub proof fn lemma_drop_at_most_once(m: Self, n: nat)
        requires
            m.wf(),
            m.dropped_ids().contains(n),
        ensures
            !has_owning_in(m.exposed().data@, n),
            !has_owning_in(m.shadow().data@, n),
            !has_pending_id(m.pending(), n),
    {
    }

    /// Single-owner: for any one value, at most one cell across the two
    /// copies carries the responsibility for destroying it, and the two
    /// copies never both claim it.
    pub proof fn lemma_single_owner(m: Self, n: nat)
        requires
            m.wf(),
        ensures
            !(has_owning_in(m.exposed().data@, n) && has_owning_in(m.shadow().data@, n)),
            owning_unique(m.exposed().data@),
            owning_unique(m.shadow().data@),
    {
    }

    /// No value is leaked: every value the map ever accepted is, at every
    /// instant, either already destroyed, held by an `Owning` cell, or still
    /// pending in the log; with [`RwMap::destroy`]'s contract (every identity
    /// below the ceiling ends up destroyed) this makes the destructor of
    /// every inserted value run exactly once over the map's lifetime.
    pub proof fn lemma_value_accounted(m: Self, n: nat)
        requires
            m.wf(),
            n < m.id_ceiling(),
        ensures
            m.dropped_ids().contains(n) || has_owning_in(m.exposed().data@, n) || has_owning_in(
                m.shadow().data@,
                n,
            ) || has_pending_id(m.pending(), n),
    {
    }

    /// Take out a live reference to the read side of the map.
    ///
    /// Returns nothing if no publish has ever happened or the map has been
    /// destroyed. While the guard lives the map is borrowed, so no publish
    /// can run: successive reads through one guard are mutually consistent.
    pub fn enter<'a>(&'a self) -> (r: Option<MapReadRef<'a, K, V, M, S>>)
        requires
            self.wf(),
        ensures
            (r is Some) == (!self.is_destroyed() && self.is_ready()),
            r matches Some(g) ==> g.wf() && g.contents() == self.visible() && g.meta_view()
                == self.meta_view(),
    {
        if self.destroyed {
            return None;
        }
        let inner = if self.exposed_left {
            &self.left
        } else {
            &self.right
        };
        if !inner.ready {
            return None;
        }
        Some(MapReadRef::new(inner))
    }

    /// A borrow of the value published for the given key.
    ///
    /// Only writes made visible by a publish are reflected; before the first
    /// publish, after destruction, or for an absent key this returns nothing.
    pub fn get<'a>(&'a self, key: &K) -> (r: Option<&'a V>)
        requires
            self.wf(),
        ensures
            match r {
                Some(v) => self.visible().contains_key(*key) && *v == self.visible()[*key],
                None => !self.visible().contains_key(*key),
            },
    {
        match self.enter() {
            Some(guard) => guard.get(key),
            None => None,
        }
    }

    /// The number of published keys; zero before the first publish and after
    /// destruction.
    pub fn len(&self) -> (r: usize)
        requires
            self.wf(),
        ensures
            r == self.visible().len(),
    {
        match self.enter() {
            Some(guard) => guard.len(),
            None => {
                proof {
                    assert(self.visible() =~= Map::<K, V>::empty());
                    assert(self.visible().dom() =~= Set::<K>::empty());
                }
                0
            },
        }
    }

    /// Whether no key is published.
    pub fn is_empty(&self) -> (r: bool)
        requires
            self.wf(),
        ensures
            r == (self.visible().len() == 0),
    {
        match self.enter() {
            Some(guard) => guard.is_empty(),
            None => {
                proof {
                    assert(self.visible() =~= Map::<K, V>::empty());
                    assert(self.visible().dom() =~= Set::<K>::empty());
                }
                true
            },
        }
    }

    /// Whether the given key is published.
    pub fn contains_key(&self, key: &K) -> (r: bool)
        requires
            self.wf(),
        ensures
            r == self.visible().contains_key(*key),
    {
        match self.enter() {
            Some(guard) => guard.contains_key(key),
            None => false,
        }
    }

    /// The metadata as of the last publish; nothing before the first publish
    /// or once the map is destroyed, like the other convenience reads.
    pub fn meta(&self) -> (r: Option<M>)
        requires
            self.wf(),
        ensures
            (r is Some) == (!self.is_destroyed() && self.is_ready()),
            r matches Some(m) ==> m == self.meta_view(),
    {
        if self.destroyed {
            return None;
        }
        let inner = if self.exposed_left {
            &self.left
        } else {
            &self.right
        };
        if !inner.ready {
            return None;
        }
        let m = inner.meta.clone();
        proof {
            assert(vstd::pervasive::cloned::<M>(inner.meta, m));
        }
        Some(m)
    }

    /// The published cell for the given key together with the metadata;
    /// nothing before the first publish or after destruction. An absent key
    /// yields a present pair with no cell.
    pub fn meta_get<'a>(&'a self, key: &K) -> (r: Option<(Option<&'a Value<V>>, M)>)
        requires
            self.wf(),
        ensures
            (r is Some) == (!self.is_destroyed() && self.is_ready()),
            r matches Some((c, m)) ==> m == self.meta_view() && (match c {
                Some(cell) => self.exposed().data@.contains_key(*key) && *cell
                    == self.exposed().data@[*key],
                None => !self.exposed().data@.contains_key(*key),
            }),
    {
        if self.destroyed {
            return None;
        }
        let inner = if self.exposed_left {
            &self.left
        } else {
            &self.right
        };
        if !inner.ready {
            return None;
        }
        let m = inner.meta.clone();
        proof {
            assert(vstd::pervasive::cloned::<M>(inner.meta, m));
        }
        let cell = inner.get_cell(key);
        Some((cell, m))
    }

    /// Whether the writer side has been torn down.
    pub fn was_dropped(&self) -> (r: bool)
        ensures
            r == self.is_destroyed(),
    {
        self.destroyed
    }
}

impl<K: Eq + Hash + Clone, V: Clone> RwMap<K, V, (), RandomState> {
    /// A fresh map with unit metadata and the standard keyed hash strategy.
    pub fn default() -> (r: Self)
        requires
            vstd::std_specs::hash::obeys_key_model::<K>(),
            clone_exact::<K>(),
            clone_exact::<V>(),
        ensures
            r.wf(),
            !r.is_destroyed(),
            !r.is_ready(),
            map_is_empty(r.published()),
            map_is_empty(r.visible()),
            r.pending().len() == 1,
            r.pending()[0] is MarkReady,
            r.id_ceiling() == 0,
            r.dropped_ids() == Set::<nat>::empty(),
    {
        proof {
            assert forall|a: (), b: ()| #[trigger] vstd::pervasive::cloned::<()>(a, b) implies a
                == b by {
            }
        }
        Self::maybe_with_meta_and_hasher(None, None)
    }
}

} // verus!
