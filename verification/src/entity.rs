pub mod query;

use vstd::prelude::*;
use std::collections::HashMap;
use crate::custom_errors::CustomError;

verus! {

broadcast use vstd::std_specs::hash::group_hash_axioms;

/// A word with no bit set stays empty under masking.
proof fn lemma_zero_and(b: u32)
    ensures
        0u32 & b == 0,
{
    assert(0u32 & b == 0) by (bit_vector);
}

/// Setting bit `k` makes bit `k` nonzero.
proof fn lemma_or_bit_set(s: u32, k: u32)
    requires
        k < 32,
    ensures
        (s | (1u32 << k)) & (1u32 << k) != 0,
{
    assert((s | (1u32 << k)) & (1u32 << k) != 0) by (bit_vector)
        requires
            k < 32,
    ;
}

/// Setting bit `k` leaves every other bit as it was.
proof fn lemma_or_bit_other(s: u32, k: u32, j: u32)
    requires
        k < 32,
        j < 32,
        j != k,
    ensures
        (s | (1u32 << k)) & (1u32 << j) == s & (1u32 << j),
{
    assert((s | (1u32 << k)) & (1u32 << j) == s & (1u32 << j)) by (bit_vector)
        requires
            k < 32,
            j < 32,
            j != k,
    ;
}

/// A set bit stays nonzero under its own mask.
pub(crate) proof fn lemma_bit_nonzero(k: u32)
    requires
        k < 32,
    ensures
        1u32 << k != 0,
{
    assert(1u32 << k != 0) by (bit_vector)
        requires
            k < 32,
    ;
}

/// A word that contains a mask contains every part of it.
pub(crate) proof fn lemma_mask_bit(s: u32, m: u32, b: u32)
    requires
        s & m == m,
        m & b == b,
    ensures
        s & b == b,
{
    assert(s & b == b) by (bit_vector)
        requires
            s & m == m,
            m & b == b,
    ;
}

/// The bitwise OR of a list of words, `0` for the empty list.
///
/// A signature is `or_all` of the bits of the component types attached to
/// its entity, and a query mask is `or_all` of the bits of the requested
/// types.
pub open spec fn or_all(bits: Seq<u32>) -> u32
    decreases bits.len(),
{
    if bits.len() == 0 {
        0u32
    } else {
        or_all(bits.drop_last()) | bits.last()
    }
}

/// Every word of the list is contained, bit for bit, in `or_all` of it.
pub proof fn lemma_or_all_superset(bits: Seq<u32>, c: int)
    requires
        0 <= c < bits.len(),
    ensures
        or_all(bits) & bits[c] == bits[c],
    decreases bits.len(),
{
    let a = or_all(bits.drop_last());
    let b = bits.last();
    if c == bits.len() - 1 {
        assert((a | b) & b == b) by (bit_vector);
    } else {
        lemma_or_all_superset(bits.drop_last(), c);
        let m = bits[c];
        assert(a & m == m ==> (a | b) & m == m) by (bit_vector);
    }
}

/// A mask survives in `or_all` exactly when it survives in some word of
/// the list.
pub proof fn lemma_or_all_masked(bits: Seq<u32>, m: u32)
    ensures
        or_all(bits) & m != 0 <==> exists|c: int| 0 <= c < bits.len() && #[trigger] (bits[c] & m)
            != 0,
    decreases bits.len(),
{
    if bits.len() == 0 {
        assert(0u32 & m == 0) by (bit_vector);
    } else {
        let prefix = bits.drop_last();
        lemma_or_all_masked(prefix, m);
        let a = or_all(prefix);
        let b = bits.last();
        assert(((a | b) & m != 0) == (a & m != 0 || b & m != 0)) by (bit_vector);
        if or_all(bits) & m != 0 {
            if a & m != 0 {
                let c = choose|c: int| 0 <= c < prefix.len() && #[trigger] (prefix[c] & m) != 0;
                assert(bits[c] & m != 0);
            } else {
                assert(bits[bits.len() - 1] & m != 0);
            }
        }
        if exists|c: int| 0 <= c < bits.len() && #[trigger] (bits[c] & m) != 0 {
            let c = choose|c: int| 0 <= c < bits.len() && #[trigger] (bits[c] & m) != 0;
            if c < bits.len() - 1 {
                assert(prefix[c] & m != 0);
            }
        }
    }
}

/// The entity/component storage engine.
///
/// Component types are identified by a caller-chosen token (`u64`); two
/// tokens are equal exactly when they stand for the same type. A component
/// value is carried as a plain 64-bit payload chosen by the caller (for
/// example, the bit representation of the attached value).
///
/// An entity is nothing but a row index shared by every column: `bitmap[i]`
/// is entity `i`'s signature, and each registered type's column holds one
/// optional payload per entity. Entities are never deleted.
pub struct Entity {
    /// The registered type tokens, in registration order.
    pub tokens: Vec<u64>,
    /// One column per registered type: `components[k]` belongs to
    /// `tokens[k]` and holds one optional payload per entity row.
    pub components: Vec<Vec<Option<u64>>>,
    /// Registration index of each registered token.
    pub index_of: HashMap<u64, u32>,
    /// Per-entity signatures: bit `k` of `bitmap[i]` is set exactly when
    /// entity `i` carries a component of the `k`-th registered type.
    pub bitmap: Vec<u32>,
}

/// The number of distinct component types one store can register: the
/// width of a signature. Registering more is ruled out by precondition.
pub const MAX_COMPONENT_TYPES: usize = 32;

impl Entity {
    /// How many component types have been registered.
    pub open spec fn n_types(self) -> int {
        self.tokens@.len() as int
    }

    /// How many entity rows have been created.
    pub open spec fn n_entities(self) -> int {
        self.bitmap@.len() as int
    }

    /// Whether `token` has been registered on this store.
    pub open spec fn is_registered(self, token: u64) -> bool {
        self.tokens@.contains(token)
    }

    /// The registration index of a registered `token`.
    pub open spec fn type_index(self, token: u64) -> int {
        self.index_of@[token] as int
    }

    /// The signature bit assigned to a registered `token`: `2^k` for the
    /// `k`-th registered type.
    pub open spec fn bit_of(self, token: u64) -> u32 {
        1u32 << self.index_of@[token]
    }

    /// The column of the `k`-th registered type.
    pub open spec fn column(self, k: int) -> Seq<Option<u64>> {
        self.components@[k]@
    }

    /// Well-formedness: the invariants every store operation preserves.
    ///
    /// - the token list, the column list and the index map agree;
    /// - every column is exactly one slot per entity (column alignment);
    /// - bit `k` of a signature is set exactly when the `k`-th column's
    ///   slot for that entity is filled, and no signature carries a bit
    ///   outside the registered range.
    pub open spec fn wf(self) -> bool {
        &&& self.components@.len() == self.tokens@.len()
        &&& self.tokens@.len() <= MAX_COMPONENT_TYPES
        &&& forall|t: u64|
            #[trigger] self.index_of@.contains_key(t) <==> self.tokens@.contains(t)
        &&& forall|t: u64|
            self.index_of@.contains_key(t) ==> #[trigger] self.index_of@[t] < self.tokens@.len()
        &&& forall|k: int|
            0 <= k < self.tokens@.len() ==> self.index_of@[#[trigger] self.tokens@[k]] == k as u32
        &&& forall|k: int|
            0 <= k < self.components@.len() ==> (#[trigger] self.components@[k]@).len()
                == self.bitmap@.len()
        &&& forall|i: int, k: int|
            0 <= i < self.bitmap@.len() && 0 <= k < self.tokens@.len() ==> ((#[trigger] (
            self.bitmap@[i] & (1u32 << (k as u32)))) != 0 <==> self.components@[k]@[i] is Some)
        &&& forall|i: int, k: int|
            0 <= i < self.bitmap@.len() && self.tokens@.len() <= k < 32 ==> (#[trigger] (
            self.bitmap@[i] & (1u32 << (k as u32)))) == 0
    }

    /// An empty store: no types registered, no entities created.
    pub fn new() -> (e: Entity)
        ensures
            e.wf(),
            e.n_types() == 0,
            e.n_entities() == 0,
            e.index_of@ == Map::<u64, u32>::empty(),
    {
        Entity {
            tokens: Vec::new(),
            components: Vec::new(),
            index_of: HashMap::new(),
            bitmap: Vec::new(),
        }
    }

    /// Registers a new component type under `token` and assigns it the next
    /// unused signature bit, `2^k` for the `k`-th registration.
    ///
    /// The assignment of a registered token never changes afterwards. A type
    /// registered after rows already exist starts with an empty slot for
    /// every existing entity, so the columns stay aligned with the entity
    /// count. At most [`MAX_COMPONENT_TYPES`] distinct types can be
    /// registered, and registering the same token twice is ruled out: both
    /// limits are preconditions, as the store has no error for them.
    pub fn register_component(&mut self, token: u64)
        requires
            old(self).wf(),
            !old(self).is_registered(token),
            old(self).n_types() < MAX_COMPONENT_TYPES,
        ensures
            final(self).wf(),
            final(self).tokens@ == old(self).tokens@.push(token),
            final(self).bitmap@ == old(self).bitmap@,
            final(self).n_types() == old(self).n_types() + 1,
            forall|k: int|
                0 <= k < old(self).n_types() ==> #[trigger] final(self).components@[k]
                    == old(self).components@[k],
            final(self).column(old(self).n_types()).len() == old(self).n_entities(),
            forall|i: int|
                0 <= i < old(self).n_entities() ==> final(self).column(old(self).n_types())[i]
                    is None,
            final(self).is_registered(token),
            final(self).type_index(token) == old(self).n_types(),
            final(self).bit_of(token) == 1u32 << (old(self).n_types() as u32),
            forall|t: u64|
                #[trigger] final(self).is_registered(t) <==> old(self).is_registered(t) || t
                    == token,
            forall|t: u64|
                old(self).is_registered(t) ==> #[trigger] final(self).type_index(t) == old(
                    self,
                ).type_index(t) && final(self).bit_of(t) == old(self).bit_of(t),
    {
        let k: usize = self.tokens.len();
        let rows: usize = self.bitmap.len();
        let column: Vec<Option<u64>> = vec![None; rows];
        self.tokens.push(token);
        self.index_of.insert(token, k as u32);
        self.components.push(column);
        proof {
            assert(self.tokens@[old(self).tokens@.len() as int] == token);
            assert forall|t: u64| #[trigger]
                self.is_registered(t) <==> old(self).is_registered(t) || t == token by {
                if self.tokens@.contains(t) {
                    let j = choose|j: int| 0 <= j < self.tokens@.len() && self.tokens@[j] == t;
                    if j < old(self).tokens@.len() {
                        assert(old(self).tokens@[j] == t);
                        assert(old(self).tokens@.contains(t));
                    }
                }
                if old(self).tokens@.contains(t) {
                    let j = choose|j: int|
                        0 <= j < old(self).tokens@.len() && old(self).tokens@[j] == t;
                    assert(self.tokens@[j] == t);
                }
            }
            assert forall|t: u64| #[trigger]
                self.index_of@.contains_key(t) <==> self.tokens@.contains(t) by {
                if self.index_of@.contains_key(t) {
                    if t == token {
                        assert(self.tokens@[k as int] == token);
                    } else {
                        assert(old(self).tokens@.contains(t));
                        let j = choose|j: int|
                            0 <= j < old(self).tokens@.len() && old(self).tokens@[j] == t;
                        assert(self.tokens@[j] == t);
                    }
                }
                if self.tokens@.contains(t) {
                    let j = choose|j: int| 0 <= j < self.tokens@.len() && self.tokens@[j] == t;
                    if j == k as int {
                    } else {
                        assert(old(self).tokens@[j] == t);
                        assert(old(self).tokens@.contains(t));
                    }
                }
            }
            assert forall|t: u64|
                old(self).is_registered(t) implies #[trigger] self.type_index(t) == old(
                self,
            ).type_index(t) && self.bit_of(t) == old(self).bit_of(t) by {
                assert(old(self).index_of@.contains_key(t));
            }
        }
    }

    /// Appends a fresh entity row: one empty slot at the end of every
    /// registered column, and a signature of `0` (no components attached).
    pub fn create_entity(&mut self)
        requires
            old(self).wf(),
        ensures
            final(self).wf(),
            final(self).tokens@ == old(self).tokens@,
            final(self).index_of@ == old(self).index_of@,
            final(self).n_entities() == old(self).n_entities() + 1,
            final(self).bitmap@ == old(self).bitmap@.push(0u32),
            final(self).components@.len() == old(self).components@.len(),
            forall|k: int|
                0 <= k < old(self).n_types() ==> #[trigger] final(self).column(k) == old(
                    self,
                ).column(k).push(None),
    {
        let n: usize = self.components.len();
        let mut k: usize = 0;
        while k < n
            invariant
                0 <= k <= n,
                n == self.components@.len(),
                self.tokens@ == old(self).tokens@,
                self.index_of@ == old(self).index_of@,
                self.bitmap@ == old(self).bitmap@,
                forall|j: int|
                    0 <= j < k ==> #[trigger] self.components@[j]@ == old(
                        self,
                    ).components@[j]@.push(None::<u64>),
                forall|j: int|
                    k <= j < n ==> #[trigger] self.components@[j] == old(self).components@[j],
            decreases n - k,
        {
            self.components[k].push(None);
            k = k + 1;
        }
        self.bitmap.push(0);
        proof {
            let rows = old(self).bitmap@.len() as int;
            assert forall|j: int| 0 <= j < 32 implies #[trigger] (0u32 & (1u32 << (j as u32)))
                == 0 by {
                lemma_zero_and(1u32 << (j as u32));
            }
            assert(self.bitmap@[rows] == 0u32);
        }
    }

    /// Attaches a component to the most recently created entity: stores the
    /// payload in the last slot of the token's column and sets the token's
    /// bit in the last signature.
    ///
    /// Fails with `UnregisteredComponentAdded` when `token` was never
    /// registered, and with `CreateComponentNeverCalled` when no entity row
    /// exists yet; in both cases the store is left unchanged.
    pub fn with_component(&mut self, token: u64, value: u64) -> (r: Result<(), CustomError>)
        requires
            old(self).wf(),
        ensures
            final(self).wf(),
            r is Ok <==> old(self).is_registered(token) && old(self).n_entities() > 0,
            !old(self).is_registered(token) ==> r == Err::<(), CustomError>(
                CustomError::UnregisteredComponentAdded,
            ) && *final(self) == *old(self),
            old(self).is_registered(token) && old(self).n_entities() == 0 ==> r == Err::<
                (),
                CustomError,
            >(CustomError::CreateComponentNeverCalled) && *final(self) == *old(self),
            r is Ok ==> ({
                let k = old(self).type_index(token);
                let last = old(self).n_entities() - 1;
                &&& final(self).tokens@ == old(self).tokens@
                &&& final(self).index_of@ == old(self).index_of@
                &&& final(self).components@.len() == old(self).components@.len()
                &&& forall|j: int|
                    0 <= j < old(self).n_types() && j != k ==> #[trigger] final(self).components@[j]
                        == old(self).components@[j]
                &&& final(self).column(k) == old(self).column(k).update(last, Some(value))
                &&& final(self).bitmap@ == old(self).bitmap@.update(
                    last,
                    old(self).bitmap@[last] | old(self).bit_of(token),
                )
            }),
    {
        let k: u32 = match self.index_of.get(&token) {
            None => {
                proof {
                    assert(!self.index_of@.contains_key(token));
                }
                return Err(CustomError::UnregisteredComponentAdded);
            },
            Some(v) => *v,
        };
        proof {
            assert(self.index_of@.contains_key(token));
        }
        if self.bitmap.len() == 0 {
            return Err(CustomError::CreateComponentNeverCalled);
        }
        let kk: usize = k as usize;
        let last: usize = self.bitmap.len() - 1;
        self.components[kk][last] = Some(value);
        let bit: u32 = 1u32 << k;
        self.bitmap[last] = self.bitmap[last] | bit;
        proof {
            let rows = self.bitmap@.len() as int;
            let old_sig = old(self).bitmap@[rows - 1];
            lemma_or_bit_set(old_sig, k);
            assert forall|j: int| 0 <= j < 32 && j != k as int implies #[trigger] ((old_sig | (1u32
                << k)) & (1u32 << (j as u32))) == (old_sig & (1u32 << (j as u32))) by {
                lemma_or_bit_other(old_sig, k, j as u32);
            }
        }
        Ok(())
    }

    /// Returns the signature bit assigned to `token`, or `None` when
    /// `token` was never registered.
    pub fn get_bitmask(&self, token: u64) -> (r: Option<u32>)
        requires
            self.wf(),
        ensures
            match r {
                Some(b) => self.is_registered(token) && b == self.bit_of(token),
                None => !self.is_registered(token),
            },
    {
        match self.index_of.get(&token) {
            None => None,
            Some(k) => Some(1u32 << *k),
        }
    }

    /// Returns the full column of a registered `token`: one optional
    /// payload per entity, in creation order. Asking for an unregistered
    /// token is a caller error and is ruled out by precondition.
    pub fn get_component(&self, token: u64) -> (r: &Vec<Option<u64>>)
        requires
            self.wf(),
            self.is_registered(token),
        ensures
            r@ == self.column(self.type_index(token)),
            r@.len() == self.n_entities(),
    {
        let k: u32 = match self.index_of.get(&token) {
            None => vstd::pervasive::unreached(),
            Some(v) => *v,
        };
        &self.components[k as usize]
    }
}

/// Distinct single bits do not overlap.
proof fn lemma_distinct_bits(c: u32, j: u32)
    requires
        c < 32,
        j < 32,
        c != j,
    ensures
        (1u32 << c) & (1u32 << j) == 0,
{
    assert((1u32 << c) & (1u32 << j) == 0) by (bit_vector)
        requires
            c < 32,
            j < 32,
            c != j,
    ;
}

/// Two words that agree on every bit are equal.
proof fn lemma_u32_eq_by_bits(a: u32, b: u32)
    requires
        forall|j: u32| j < 32 ==> #[trigger] (a & (1u32 << j)) == b & (1u32 << j),
    ensures
        a == b,
{
    assert forall|j: u32| j < 32 implies #[trigger] (a & (1u32 << j)) == b & (1u32 << j) by {}
    assert(a == b) by (bit_vector)
        requires
            a & (1u32 << 0u32) == b & (1u32 << 0u32),
            a & (1u32 << 1u32) == b & (1u32 << 1u32),
            a & (1u32 << 2u32) == b & (1u32 << 2u32),
            a & (1u32 << 3u32) == b & (1u32 << 3u32),
            a & (1u32 << 4u32) == b & (1u32 << 4u32),
            a & (1u32 << 5u32) == b & (1u32 << 5u32),
            a & (1u32 << 6u32) == b & (1u32 << 6u32),
            a & (1u32 << 7u32) == b & (1u32 << 7u32),
            a & (1u32 << 8u32) == b & (1u32 << 8u32),
            a & (1u32 << 9u32) == b & (1u32 << 9u32),
            a & (1u32 << 10u32) == b & (1u32 << 10u32),
            a & (1u32 << 11u32) == b & (1u32 << 11u32),
            a & (1u32 << 12u32) == b & (1u32 << 12u32),
            a & (1u32 << 13u32) == b & (1u32 << 13u32),
            a & (1u32 << 14u32) == b & (1u32 << 14u32),
            a & (1u32 << 15u32) == b & (1u32 << 15u32),
            a & (1u32 << 16u32) == b & (1u32 << 16u32),
            a & (1u32 << 17u32) == b & (1u32 << 17u32),
            a & (1u32 << 18u32) == b & (1u32 << 18u32),
            a & (1u32 << 19u32) == b & (1u32 << 19u32),
            a & (1u32 << 20u32) == b & (1u32 << 20u32),
            a & (1u32 << 21u32) == b & (1u32 << 21u32),
            a & (1u32 << 22u32) == b & (1u32 << 22u32),
            a & (1u32 << 23u32) == b & (1u32 << 23u32),
            a & (1u32 << 24u32) == b & (1u32 << 24u32),
            a & (1u32 << 25u32) == b & (1u32 << 25u32),
            a & (1u32 << 26u32) == b & (1u32 << 26u32),
            a & (1u32 << 27u32) == b & (1u32 << 27u32),
            a & (1u32 << 28u32) == b & (1u32 << 28u32),
            a & (1u32 << 29u32) == b & (1u32 << 29u32),
            a & (1u32 << 30u32) == b & (1u32 << 30u32),
            a & (1u32 << 31u32) == b & (1u32 << 31u32),
    ;
}

/// Column alignment: in a well-formed store, every registered type's
/// column holds exactly one slot per entity created so far.
pub proof fn lemma_column_alignment(e: Entity, k: int)
    requires
        e.wf(),
        0 <= k < e.n_types(),
    ensures
        e.column(k).len() == e.n_entities(),
{
}

/// Bit assignment: in a well-formed store, the `k`-th registered type
/// (0-indexed) carries the signature bit `2^k`. The assignment is stable:
/// by the contract of [`Entity::register_component`], later registrations
/// leave every earlier token's index and bit unchanged.
pub proof fn lemma_bit_assignment(e: Entity, k: int)
    requires
        e.wf(),
        0 <= k < e.n_types(),
    ensures
        e.bit_of(e.tokens@[k]) == 1u32 << (k as u32),
        e.bit_of(e.tokens@[k]) == vstd::arithmetic::power2::pow2(k as nat),
{
    assert(e.tokens@.contains(e.tokens@[k]));
    vstd::bits::lemma_u32_pow2_no_overflow(k as nat);
    vstd::bits::lemma_u32_shl_is_mul(1u32, k as u32);
}

/// The signature bits of the components attached to entity `i`: the
/// `k`-th registered type contributes its bit `2^k` when its slot for the
/// entity is filled, and nothing when it is empty.
pub open spec fn attached_bits(e: Entity, i: int) -> Seq<u32> {
    Seq::new(
        e.n_types() as nat,
        |k: int|
            if e.column(k)[i] is Some {
                1u32 << (k as u32)
            } else {
                0u32
            },
    )
}

/// Signature correctness: in a well-formed store, an entity's signature
/// is exactly the OR of the bits of its attached component types, and no
/// other bits are set.
pub proof fn lemma_signature_is_or_of_attached(e: Entity, i: int)
    requires
        e.wf(),
        0 <= i < e.n_entities(),
    ensures
        e.bitmap@[i] == or_all(attached_bits(e, i)),
{
    let bits = attached_bits(e, i);
    let sig = e.bitmap@[i];
    let o = or_all(bits);
    assert forall|j: u32| j < 32 implies #[trigger] (sig & (1u32 << j)) == o & (1u32 << j) by {
        lemma_or_all_masked(bits, 1u32 << j);
        lemma_bit_nonzero(j);
        let ji = j as int;
        assert((1u32 << (ji as u32)) == (1u32 << j));
        assert(e.bitmap@[i] & (1u32 << (ji as u32)) == sig & (1u32 << j));
        if j < e.n_types() {
            if e.column(j as int)[i] is Some {
                assert(bits[j as int] == 1u32 << j);
                assert((1u32 << j) & (1u32 << j) == 1u32 << j) by (bit_vector);
                assert(bits[j as int] & (1u32 << j) != 0);
                assert(o & (1u32 << j) != 0);
                assert(sig & (1u32 << j) != 0);
                lemma_single_bit_masked(sig, j);
                lemma_single_bit_masked(o, j);
            } else {
                assert forall|c: int| 0 <= c < bits.len() implies #[trigger] (bits[c] & (1u32
                    << j)) == 0 by {
                    if c == j as int {
                        lemma_zero_and(1u32 << j);
                    } else if e.column(c)[i] is Some {
                        lemma_distinct_bits(c as u32, j);
                    } else {
                        lemma_zero_and(1u32 << j);
                    }
                }
                assert(o & (1u32 << j) == 0);
                assert(sig & (1u32 << j) == 0);
            }
        } else {
            assert(sig & (1u32 << j) == 0);
            assert forall|c: int| 0 <= c < bits.len() implies #[trigger] (bits[c] & (1u32 << j))
                == 0 by {
                if e.column(c)[i] is Some {
                    lemma_distinct_bits(c as u32, j);
                } else {
                    lemma_zero_and(1u32 << j);
                }
            }
            assert(o & (1u32 << j) == 0);
        }
    }
    lemma_u32_eq_by_bits(sig, o);
}

/// A word masked to a single set bit yields that bit exactly.
proof fn lemma_single_bit_masked(s: u32, j: u32)
    requires
        j < 32,
        s & (1u32 << j) != 0,
    ensures
        s & (1u32 << j) == 1u32 << j,
{
    assert(s & (1u32 << j) == 1u32 << j) by (bit_vector)
        requires
            j < 32,
            s & (1u32 << j) != 0,
    ;
}

impl Default for Entity {
    /// The same empty store as [`Entity::new`].
    fn default() -> (e: Entity)
        ensures
            e.wf(),
            e.n_types() == 0,
            e.n_entities() == 0,
            e.index_of@ == Map::<u64, u32>::empty(),
    {
        Entity::new()
    }
}

} // verus!
