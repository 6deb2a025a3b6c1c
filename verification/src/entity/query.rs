use vstd::prelude::*;
use crate::custom_errors::CustomError;
use crate::entity::Entity;
use crate::entity::or_all;
use crate::entity::lemma_or_all_superset;
use crate::entity::lemma_bit_nonzero;
use crate::entity::lemma_mask_bit;

verus! {

/// The entity indices whose signature contains `mask`, in ascending order.
pub open spec fn matching(sigs: Seq<u32>, mask: u32) -> Seq<int>
    decreases sigs.len(),
{
    if sigs.len() == 0 {
        Seq::empty()
    } else if sigs.last() & mask == mask {
        matching(sigs.drop_last(), mask).push(sigs.len() - 1)
    } else {
        matching(sigs.drop_last(), mask)
    }
}

/// An index is in `matching` exactly when its signature contains the mask:
/// an entity matches when it carries at least every requested type, extra
/// components notwithstanding.
pub proof fn lemma_matching_characterizes(sigs: Seq<u32>, mask: u32, i: int)
    ensures
        matching(sigs, mask).contains(i) <==> 0 <= i < sigs.len() && sigs[i] & mask == mask,
    decreases sigs.len(),
{
    if sigs.len() > 0 {
        let prefix = sigs.drop_last();
        let last = sigs.len() - 1;
        lemma_matching_characterizes(prefix, mask, i);
        let m = matching(sigs, mask);
        let mp = matching(prefix, mask);
        if sigs.last() & mask == mask {
            assert(m == mp.push(last));
            if m.contains(i) {
                let j = choose|j: int| 0 <= j < m.len() && m[j] == i;
                if j < mp.len() {
                    assert(mp[j] == i);
                    assert(mp.contains(i));
                } else {
                    assert(i == last);
                }
            }
            if 0 <= i < sigs.len() && sigs[i] & mask == mask {
                if i == last {
                    assert(m[mp.len() as int] == i);
                } else {
                    let j = choose|j: int| 0 <= j < mp.len() && mp[j] == i;
                    assert(m[j] == i);
                }
            }
        } else {
            if 0 <= i < sigs.len() && sigs[i] & mask == mask {
                assert(i != last);
            }
        }
    }
}

/// The matching indices are listed in ascending entity order, all in range.
pub proof fn lemma_matching_sorted(sigs: Seq<u32>, mask: u32)
    ensures
        forall|a: int|
            0 <= a < matching(sigs, mask).len() ==> 0 <= #[trigger] matching(sigs, mask)[a]
                < sigs.len(),
        forall|a: int, b: int|
            0 <= a < b < matching(sigs, mask).len() ==> matching(sigs, mask)[a] < matching(
                sigs,
                mask,
            )[b],
    decreases sigs.len(),
{
    if sigs.len() > 0 {
        let prefix = sigs.drop_last();
        lemma_matching_sorted(prefix, mask);
        let m = matching(sigs, mask);
        let mp = matching(prefix, mask);
        assert forall|a: int| 0 <= a < m.len() implies 0 <= #[trigger] m[a] < sigs.len() by {
            if a < mp.len() {
                assert(m[a] == mp[a]);
            }
        }
        assert forall|a: int, b: int| 0 <= a < b < m.len() implies m[a] < m[b] by {
            if b < mp.len() {
            } else if b == mp.len() && m.len() > mp.len() {
                assert(m[a] == mp[a]);
            }
        }
    }
}

/// The ordered projection of one column onto a list of entity indices.
pub open spec fn project(col: Seq<Option<u64>>, idx: Seq<int>) -> Seq<Option<u64>> {
    Seq::new(idx.len(), |j: int| col[idx[j]])
}

/// Result columns are aligned: for any two columns projected onto the same
/// index list, the `j`-th elements come from the same entity `idx[j]`.
pub proof fn lemma_cross_column_alignment(
    col1: Seq<Option<u64>>,
    col2: Seq<Option<u64>>,
    idx: Seq<int>,
    j: int,
)
    requires
        0 <= j < idx.len(),
    ensures
        project(col1, idx)[j] == col1[idx[j]],
        project(col2, idx)[j] == col2[idx[j]],
{
}

/// A bulk read over one [`Entity`] store: it accumulates the mask of the
/// requested component types and their tokens in request order, then scans
/// the store's signatures.
pub struct Query<'a> {
    /// The store this query is bound to; `run` reads it at call time.
    pub entities: &'a Entity,
    /// The accumulated required mask: `or_all` of the requested bits.
    pub map: u32,
    /// The requested type tokens, in request order (duplicates permitted);
    /// this order fixes the order of the result columns.
    pub type_ids: Vec<u64>,
}

impl<'a> Query<'a> {
    /// The signature bits of the requested types, in request order.
    pub open spec fn requested_bits(self) -> Seq<u32> {
        Seq::new(self.type_ids@.len(), |c: int| self.entities.bit_of(self.type_ids@[c]))
    }

    /// Well-formedness: the bound store is well-formed, every requested
    /// token is registered on it, and the mask is the OR of their bits.
    pub open spec fn wf(self) -> bool {
        &&& self.entities.wf()
        &&& forall|c: int|
            0 <= c < self.type_ids@.len() ==> self.entities.is_registered(
                #[trigger] self.type_ids@[c],
            )
        &&& self.map == or_all(self.requested_bits())
    }

    /// Binds a fresh, empty query to a store.
    pub fn new(entities: &'a Entity) -> (q: Query<'a>)
        requires
            entities.wf(),
        ensures
            q.wf(),
            q.entities == entities,
            q.map == 0,
            q.type_ids@.len() == 0,
    {
        Query { entities, map: 0, type_ids: Vec::new() }
    }

    /// Adds one required component type: ORs its bit into the mask and
    /// appends its token to the result-column order.
    ///
    /// Fails with `UnregisteredComponentAdded`, leaving the query
    /// unchanged, when `token` is not registered on the bound store.
    pub fn with_component(&mut self, token: u64) -> (r: Result<(), CustomError>)
        requires
            old(self).wf(),
        ensures
            final(self).wf(),
            final(self).entities == old(self).entities,
            r is Ok <==> old(self).entities.is_registered(token),
            !old(self).entities.is_registered(token) ==> r == Err::<(), CustomError>(
                CustomError::UnregisteredComponentAdded,
            ) && *final(self) == *old(self),
            r is Ok ==> final(self).map == (old(self).map | old(self).entities.bit_of(token))
                && final(self).type_ids@ == old(self).type_ids@.push(token),
    {
        let bitmask = match self.entities.get_bitmask(token) {
            None => {
                return Err(CustomError::UnregisteredComponentAdded);
            },
            Some(b) => b,
        };
        self.map = self.map | bitmask;
        self.type_ids.push(token);
        proof {
            assert(self.requested_bits().drop_last() =~= old(self).requested_bits());
            assert(self.requested_bits().last() == self.entities.bit_of(token));
        }
        Ok(())
    }

    /// Runs the query: selects the entities whose signature contains the
    /// mask, in creation order, and projects each requested type's column
    /// onto them, in request order.
    ///
    /// Always succeeds; the result holds one column per requested type, and
    /// the `j`-th elements of all columns belong to the same matching
    /// entity, the `j`-th smallest. A query with no requested types returns
    /// an empty outer list. The read of each selected slot is a defensive
    /// check (`ComponentNotFound`), proved unreachable.
    pub fn run(&self) -> (r: Result<Vec<Vec<u64>>, CustomError>)
        requires
            self.wf(),
        ensures
            r is Ok,
            ({
                let idx = matching(self.entities.bitmap@, self.map);
                let res = r->Ok_0;
                &&& res@.len() == self.type_ids@.len()
                &&& forall|c: int| 0 <= c < res@.len() ==> (#[trigger] res@[c])@.len() == idx.len()
                &&& forall|c: int|
                    0 <= c < res@.len() ==> project(
                        self.entities.column(self.entities.type_index(self.type_ids@[c])),
                        idx,
                    ) =~= (#[trigger] res@[c])@.map_values(|v: u64| Some(v))
            }),
    {
        let sigs_len = self.entities.bitmap.len();
        let ghost idx_full = matching(self.entities.bitmap@, self.map);
        let mut indices: Vec<usize> = Vec::new();
        let mut i: usize = 0;
        while i < sigs_len
            invariant
                self.wf(),
                0 <= i <= sigs_len,
                sigs_len == self.entities.bitmap@.len(),
                indices@.len() == matching(self.entities.bitmap@.take(i as int), self.map).len(),
                forall|j: int|
                    0 <= j < indices@.len() ==> #[trigger] indices@[j] as int == matching(
                        self.entities.bitmap@.take(i as int),
                        self.map,
                    )[j],
            decreases sigs_len - i,
        {
            let sig = self.entities.bitmap[i];
            proof {
                let t1 = self.entities.bitmap@.take(i + 1);
                assert(t1.drop_last() =~= self.entities.bitmap@.take(i as int));
                assert(t1.last() == self.entities.bitmap@[i as int]);
            }
            if sig & self.map == self.map {
                indices.push(i);
            }
            i = i + 1;
        }
        proof {
            assert(self.entities.bitmap@.take(sigs_len as int) =~= self.entities.bitmap@);
            assert(indices@.len() == idx_full.len());
            lemma_matching_sorted(self.entities.bitmap@, self.map);
        }
        let mut result: Vec<Vec<u64>> = Vec::new();
        let n_requested = self.type_ids.len();
        let mut c: usize = 0;
        while c < n_requested
            invariant
                self.wf(),
                0 <= c <= n_requested,
                n_requested == self.type_ids@.len(),
                idx_full == matching(self.entities.bitmap@, self.map),
                indices@.len() == idx_full.len(),
                forall|j: int|
                    0 <= j < indices@.len() ==> #[trigger] indices@[j] as int == idx_full[j],
                forall|j: int| 0 <= j < idx_full.len() ==> 0 <= #[trigger] idx_full[j]
                    < self.entities.bitmap@.len(),
                result@.len() == c,
                forall|d: int| 0 <= d < c ==> (#[trigger] result@[d])@.len() == idx_full.len(),
                forall|d: int|
                    0 <= d < c ==> project(
                        self.entities.column(self.entities.type_index(self.type_ids@[d])),
                        idx_full,
                    ) =~= (#[trigger] result@[d])@.map_values(|v: u64| Some(v)),
            decreases n_requested - c,
        {
            let token = self.type_ids[c];
            let entity_component = self.entities.get_component(token);
            let ghost col = self.entities.column(self.entities.type_index(token));
            let mut component_to_keep: Vec<u64> = Vec::new();
            let mut jj: usize = 0;
            while jj < indices.len()
                invariant
                    self.wf(),
                    0 <= jj <= indices@.len(),
                    idx_full == matching(self.entities.bitmap@, self.map),
                    indices@.len() == idx_full.len(),
                    forall|j: int|
                        0 <= j < indices@.len() ==> #[trigger] indices@[j] as int == idx_full[j],
                    forall|j: int| 0 <= j < idx_full.len() ==> 0 <= #[trigger] idx_full[j]
                        < self.entities.bitmap@.len(),
                    0 <= c < self.type_ids@.len(),
                    self.entities.is_registered(self.type_ids@[c as int]),
                    token == self.type_ids@[c as int],
                    col == self.entities.column(self.entities.type_index(token)),
                    entity_component@ == col,
                    col.len() == self.entities.bitmap@.len(),
                    component_to_keep@.len() == jj,
                    forall|j: int|
                        0 <= j < jj ==> Some(#[trigger] component_to_keep@[j]) == col[idx_full[j]],
                decreases indices@.len() - jj,
            {
                let i = indices[jj];
                proof {
                    assert(idx_full[jj as int] == i as int);
                    assert(idx_full.contains(i as int));
                    lemma_matching_characterizes(self.entities.bitmap@, self.map, i as int);
                    let sig = self.entities.bitmap@[i as int];
                    let k = self.entities.type_index(token);
                    let bit = self.entities.bit_of(token);
                    assert(self.entities.index_of@.contains_key(token));
                    assert(0 <= k < self.entities.n_types());
                    lemma_or_all_superset(self.requested_bits(), c as int);
                    assert(self.requested_bits()[c as int] == bit);
                    lemma_mask_bit(sig, self.map, bit);
                    lemma_bit_nonzero(k as u32);
                    assert(sig & (1u32 << (k as u32)) != 0);
                }
                match entity_component[i] {
                    Some(v) => component_to_keep.push(v),
                    None => {
                        // Every selected slot is provably filled: a matching
                        // signature carries the requested bit. This branch is
                        // the defensive check and never runs.
                        proof {
                            assert(false);
                        }
                        return Err(CustomError::ComponentNotFound);
                    },
                }
                jj = jj + 1;
            }
            proof {
                assert(project(col, idx_full) =~= component_to_keep@.map_values(
                    |v: u64| Some(v),
                ));
            }
            result.push(component_to_keep);
            c = c + 1;
        }
        Ok(result)
    }
}

} // verus!
