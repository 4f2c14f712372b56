use vstd::prelude::*;

use crate::room::{SessionId, MAX_SESSIONS_PER_ROOM};

verus! {

/// A set of selected square indices, one bit per square: there are 81
/// squares, so the whole selection fits in the low bits of a u128.
#[derive(Clone, Copy, Debug, PartialEq, Eq, Structural)]
pub struct CursorSelection {
    pub square_bit_flags: u128,
}

impl View for CursorSelection {
    type V = u128;

    open spec fn view(&self) -> u128 {
        self.square_bit_flags
    }
}

/// A well-formed selection only uses the 81 low bits.
pub open spec fn sel_wf(bits: u128) -> bool {
    bits >> 81 == 0
}

/// The indices of the set bits of `bits` that are at least `i` and below 81,
/// in ascending order.
pub open spec fn sel_indices_from(bits: u128, i: int) -> Seq<u8>
    decreases 81 - i,
{
    if !(0 <= i < 81) {
        Seq::empty()
    } else if (bits >> (i as u128)) & 1 == 1 {
        seq![i as u8] + sel_indices_from(bits, i + 1)
    } else {
        sel_indices_from(bits, i + 1)
    }
}

/// The externalized form of a selection: the indices of its set bits in
/// ascending order.
pub open spec fn sel_indices(bits: u128) -> Seq<u8> {
    sel_indices_from(bits, 0)
}

/// The selection holding exactly the indices of `ids`.
pub open spec fn sel_mask(ids: Seq<u8>) -> u128
    decreases ids.len(),
{
    if ids.len() == 0 {
        0u128
    } else {
        sel_mask(ids.drop_first()) | (1u128 << (ids[0] as u128))
    }
}

/// Adding one index to the tail of a list ORs its bit into the mask.
pub proof fn lemma_sel_mask_push(ids: Seq<u8>, x: u8)
    ensures
        sel_mask(ids.push(x)) == sel_mask(ids) | (1u128 << (x as u128)),
    decreases ids.len(),
{
    if ids.len() == 0 {
        assert(ids.push(x).drop_first() =~= Seq::<u8>::empty());
        let b = 1u128 << (x as u128);
        assert(sel_mask(Seq::<u8>::empty()) == 0);
        assert(ids.push(x)[0] == x);
        assert(ids.push(x).len() == 1);
        assert(sel_mask(ids.push(x)) == sel_mask(ids.push(x).drop_first()) | (1u128 << (ids.push(x)[0] as u128)));
        assert(sel_mask(ids.push(x)) == 0u128 | b);
        assert(sel_mask(ids) == 0);
        assert(0u128 | b == b && b | 0u128 == b) by (bit_vector);
    } else {
        assert(ids.push(x).drop_first() =~= ids.drop_first().push(x));
        lemma_sel_mask_push(ids.drop_first(), x);
        let m = sel_mask(ids.drop_first());
        let bx = 1u128 << (x as u128);
        let b0 = 1u128 << (ids[0] as u128);
        assert((m | bx) | b0 == (m | b0) | bx) by (bit_vector);
    }
}

/// A mask built from indices below 81 is well formed.
pub proof fn lemma_sel_mask_wf(ids: Seq<u8>)
    requires
        forall|k: int| 0 <= k < ids.len() ==> (#[trigger] ids[k]) < 81,
    ensures
        sel_wf(sel_mask(ids)),
    decreases ids.len(),
{
    if ids.len() == 0 {
        assert(0u128 >> 81 == 0) by (bit_vector);
    } else {
        lemma_sel_mask_wf(ids.drop_first());
        let m = sel_mask(ids.drop_first());
        let x = ids[0] as u128;
        assert(m >> 81 == 0 && x < 81 ==> (m | (1u128 << x)) >> 81 == 0) by (bit_vector);
    }
}

/// The externalized indices are strictly ascending and all below 81; the
/// ones listed from `i` on are at least `i`.
pub proof fn lemma_sel_indices_ascending(bits: u128, i: int)
    ensures
        forall|k: int|
            0 <= k < sel_indices_from(bits, i).len() ==> i <= (#[trigger] sel_indices_from(
                bits,
                i,
            )[k]) < 81,
        forall|k1: int, k2: int|
            0 <= k1 < k2 < sel_indices_from(bits, i).len() ==> sel_indices_from(bits, i)[k1]
                < sel_indices_from(bits, i)[k2],
    decreases 81 - i,
{
    if 0 <= i < 81 {
        lemma_sel_indices_ascending(bits, i + 1);
        let s = sel_indices_from(bits, i);
        let rest = sel_indices_from(bits, i + 1);
        if (bits >> (i as u128)) & 1 == 1 {
            assert forall|k: int| 0 <= k < s.len() implies i <= (#[trigger] s[k]) < 81 by {
                if k > 0 {
                    assert(s[k] == rest[k - 1]);
                }
            }
            assert forall|k1: int, k2: int| 0 <= k1 < k2 < s.len() implies s[k1] < s[k2] by {
                assert(s[k2] == rest[k2 - 1]);
                if k1 > 0 {
                    assert(s[k1] == rest[k1 - 1]);
                }
            }
        } else {
            assert forall|k: int| 0 <= k < s.len() implies i <= (#[trigger] s[k]) < 81 by {
                assert(s[k] == rest[k]);
            }
            assert forall|k1: int, k2: int| 0 <= k1 < k2 < s.len() implies s[k1] < s[k2] by {
                assert(s[k1] == rest[k1]);
                assert(s[k2] == rest[k2]);
            }
        }
    }
}

/// Rebuilding a mask from the indices listed from `i` on recovers the bits
/// of the mask from position `i` up.
proof fn lemma_sel_round_trip_from(bits: u128, i: int)
    requires
        sel_wf(bits),
        0 <= i <= 81,
    ensures
        sel_mask(sel_indices_from(bits, i)) == (bits >> (i as u128)) << (i as u128),
    decreases 81 - i,
{
    let b = bits;
    let j = i as u128;
    if i == 81 {
        assert(b >> 81 == 0 ==> (b >> 81u128) << 81u128 == 0) by (bit_vector);
    } else {
        lemma_sel_round_trip_from(bits, i + 1);
        let rest = sel_indices_from(bits, i + 1);
        if (bits >> j) & 1 == 1 {
            assert((seq![i as u8] + rest).drop_first() =~= rest);
            assert(sel_mask(seq![i as u8] + rest) == sel_mask(rest) | (1u128 << (i as u8)));
            assert(j < 81 && (b >> j) & 1 == 1 ==> ((b >> ((j + 1) as u128)) << ((j + 1) as u128))
                | (1u128 << j) == (b >> j) << j) by (bit_vector);
        } else {
            assert(j < 81 && (b >> j) & 1 != 1 ==> (b >> ((j + 1) as u128)) << ((j + 1) as u128)
                == (b >> j) << j) by (bit_vector);
        }
    }
}

/// Round trip for cursor selections: deserializing the serialized form of a
/// well-formed selection yields the selection back, and the serialized form
/// is strictly ascending with every index below 81.
pub proof fn lemma_selection_round_trip(c: CursorSelection)
    requires
        sel_wf(c@),
    ensures
        sel_mask(sel_indices(c@)) == c@,
        forall|k: int| 0 <= k < sel_indices(c@).len() ==> (#[trigger] sel_indices(c@)[k]) < 81,
        forall|k1: int, k2: int|
            0 <= k1 < k2 < sel_indices(c@).len() ==> sel_indices(c@)[k1] < sel_indices(c@)[k2],
{
    let b = c@;
    lemma_sel_round_trip_from(b, 0);
    assert((b >> 0u128) << 0u128 == b) by (bit_vector);
    lemma_sel_indices_ascending(b, 0);
}

impl CursorSelection {
    /// The empty selection.
    pub fn new() -> (r: Self)
        ensures
            r@ == 0u128,
    {
        CursorSelection { square_bit_flags: 0 }
    }

    /// Whether no square is selected.
    pub fn is_empty(&self) -> (r: bool)
        ensures
            r == (self@ == 0),
    {
        self.square_bit_flags == 0
    }

    /// The externalized form: the selected indices in ascending order. A
    /// selection with any bit at position 81 or above fails.
    pub fn serialize(&self) -> (r: Result<Vec<u8>, &'static str>)
        ensures
            r is Ok <==> sel_wf(self@),
            r matches Ok(v) ==> v@ == sel_indices(self@),
    {
        if self.square_bit_flags >> 81 != 0 {
            return Err("CursorSelection contains an invalid high bit");
        }
        let mut result: Vec<u8> = Vec::new();
        let mut i: usize = 0;
        while i < 81
            invariant
                0 <= i <= 81,
                result@ + sel_indices_from(self@, i as int) == sel_indices(self@),
            decreases 81 - i,
        {
            if (self.square_bit_flags >> (i as u128)) & 1 == 1 {
                result.push(i as u8);
                proof {
                    assert(result@ + sel_indices_from(self@, i + 1 as int) =~= sel_indices(
                        self@,
                    ));
                }
            }
            i = i + 1;
        }
        proof {
            assert(result@ =~= sel_indices(self@));
        }
        Ok(result)
    }

    /// Reads a selection back from a list of indices; any index of 81 or
    /// more fails.
    pub fn deserialize(indices: &[u8]) -> (r: Result<CursorSelection, &'static str>)
        ensures
            r is Ok <==> (forall|k: int| 0 <= k < indices@.len() ==> (#[trigger] indices@[k])
                < 81),
            r matches Ok(c) ==> c@ == sel_mask(indices@) && sel_wf(c@),
    {
        let mut bits: u128 = 0;
        let mut k: usize = 0;
        while k < indices.len()
            invariant
                0 <= k <= indices@.len(),
                bits == sel_mask(indices@.take(k as int)),
                forall|t: int| 0 <= t < k ==> (#[trigger] indices@[t]) < 81,
            decreases indices@.len() - k,
        {
            let el = *vstd::slice::slice_index_get(indices, k);
            if el >= 81 {
                return Err("an index in the selection is 81 or more");
            }
            proof {
                lemma_sel_mask_push(indices@.take(k as int), indices@[k as int]);
                assert(indices@.take(k + 1 as int) =~= indices@.take(k as int).push(
                    indices@[k as int],
                ));
            }
            bits = bits | (1u128 << (el as u128));
            k = k + 1;
        }
        proof {
            assert(indices@.take(indices@.len() as int) =~= indices@);
            lemma_sel_mask_wf(indices@);
        }
        Ok(CursorSelection { square_bit_flags: bits })
    }
}

/// A stable slot index into a room's cursor map, handed out when a session
/// is created and valid for the session's lifetime.
#[derive(Clone, Copy, Debug, PartialEq, Eq, Structural)]
pub struct CursorsMapIndex(usize);

impl View for CursorsMapIndex {
    type V = usize;

    closed spec fn view(&self) -> usize {
        self.0
    }
}

/// Why a cursor-map operation failed.
#[derive(Clone, Copy, Debug, PartialEq, Eq)]
#[non_exhaustive]
pub enum CursorUpdateError {
    /// No free slot: the room already holds the maximum number of sessions.
    Full,
    /// The watch channel around the map was closed; produced only by the
    /// unverified notification plumbing.
    Notify,
    /// The lock around the map's watch sender was poisoned; produced only by
    /// the unverified notification plumbing.
    Lock,
    /// The slot index is stale or belongs to another map.
    InvalidIndex(CursorsMapIndex),
}

/// Why receiving a cursor update failed; produced by the unverified watch
/// plumbing around this map.
#[derive(Clone, Copy, Debug, PartialEq, Eq)]
#[non_exhaustive]
pub enum CursorReceiveError {
    Notify,
    Lock,
}

/// A fixed-capacity table of `(session id, selection)` slots. The slot index
/// assigned at session creation is stable for the session's lifetime, and
/// removal clears a slot without shifting the others, so iteration order is
/// deterministic and equality works. The table is cheap to copy by value; it
/// is cloned on every broadcast.
#[derive(Clone, Debug, PartialEq, Eq)]
pub struct CursorsMap {
    inner: Vec<Option<(SessionId, CursorSelection)>>,
}

impl View for CursorsMap {
    type V = Seq<Option<(SessionId, u128)>>;

    closed spec fn view(&self) -> Seq<Option<(SessionId, u128)>> {
        self.inner@.map_values(
            |e: Option<(SessionId, CursorSelection)>|
                match e {
                    Some(p) => Some((p.0, p.1@)),
                    None => None,
                },
        )
    }
}

impl CursorsMap {
    /// A well-formed map has exactly the fixed number of slots, and every
    /// occupied slot holds a well-formed selection.
    pub open spec fn wf(&self) -> bool {
        &&& self@.len() == MAX_SESSIONS_PER_ROOM
        &&& forall|i: int|
            0 <= i < self@.len() ==> (match #[trigger] self@[i] {
                Some(p) => sel_wf(p.1),
                None => true,
            })
    }

    /// An empty map: all slots free.
    pub fn new() -> (r: Self)
        ensures
            r.wf(),
            forall|i: int| 0 <= i < r@.len() ==> r@[i] is None,
    {
        CursorsMap { inner: vec![None;MAX_SESSIONS_PER_ROOM] }
    }

    /// Claims the first free slot for `session_id` with an empty selection
    /// and returns its index; fails with `Full` when every slot is taken.
    pub fn new_session(&mut self, session_id: SessionId) -> (r: Result<
        CursorsMapIndex,
        CursorUpdateError,
    >)
        requires
            old(self).wf(),
        ensures
            final(self).wf(),
            match r {
                Ok(idx) => {
                    &&& (idx@ as int) < old(self)@.len()
                    &&& old(self)@[idx@ as int] is None
                    &&& forall|j: int| 0 <= j < idx@ ==> old(self)@[j] is Some
                    &&& final(self)@ == old(self)@.update(idx@ as int, Some((session_id, 0u128)))
                },
                Err(e) => {
                    &&& e == CursorUpdateError::Full
                    &&& forall|j: int| 0 <= j < old(self)@.len() ==> old(self)@[j] is Some
                    &&& final(self)@ == old(self)@
                },
            },
    {
        let mut iter_idx: usize = 0;
        while iter_idx < self.inner.len()
            invariant
                0 <= iter_idx <= self.inner@.len(),
                self.wf(),
                self.inner@.len() == self@.len(),
                self@ == old(self)@,
                forall|j: int| 0 <= j < iter_idx ==> self@[j] is Some,
            decreases self.inner@.len() - iter_idx,
        {
            if self.inner[iter_idx].is_none() {
                self.inner[iter_idx] = Some((session_id, CursorSelection::new()));
                proof {
                    assert(0u128 >> 81 == 0) by (bit_vector);
                    assert(self@ =~= old(self)@.update(
                        iter_idx as int,
                        Some((session_id, 0u128)),
                    ));
                }
                return Ok(CursorsMapIndex(iter_idx));
            }
            iter_idx = iter_idx + 1;
        }
        Err(CursorUpdateError::Full)
    }

    /// Writes `selection` into the slot at `idx`, keeping the slot's session
    /// id; fails when the slot is free.
    pub fn update(&mut self, idx: CursorsMapIndex, selection: CursorSelection) -> (r: Result<
        (),
        CursorUpdateError,
    >)
        requires
            old(self).wf(),
            (idx@ as int) < old(self)@.len(),
            sel_wf(selection@),
        ensures
            final(self).wf(),
            match r {
                Ok(()) => old(self)@[idx@ as int] matches Some(p) && final(self)@ == old(
                    self,
                )@.update(idx@ as int, Some((p.0, selection@))),
                Err(e) => {
                    &&& e == CursorUpdateError::InvalidIndex(idx)
                    &&& old(self)@[idx@ as int] is None
                    &&& final(self)@ == old(self)@
                },
            },
    {
        match self.inner[idx.0] {
            Some(entry) => {
                self.inner[idx.0] = Some((entry.0, selection));
                proof {
                    assert(self@ =~= old(self)@.update(
                        idx@ as int,
                        Some((entry.0, selection@)),
                    ));
                }
                Ok(())
            },
            None => Err(CursorUpdateError::InvalidIndex(idx)),
        }
    }

    /// Frees the slot at `idx`; fails when it is already free.
    pub fn remove(&mut self, idx: CursorsMapIndex) -> (r: Result<(), CursorUpdateError>)
        requires
            old(self).wf(),
            (idx@ as int) < old(self)@.len(),
        ensures
            final(self).wf(),
            match r {
                Ok(()) => old(self)@[idx@ as int] is Some && final(self)@ == old(self)@.update(
                    idx@ as int,
                    None,
                ),
                Err(e) => {
                    &&& e == CursorUpdateError::InvalidIndex(idx)
                    &&& old(self)@[idx@ as int] is None
                    &&& final(self)@ == old(self)@
                },
            },
    {
        if self.inner[idx.0].is_some() {
            self.inner[idx.0] = None;
            proof {
                assert(self@ =~= old(self)@.update(idx@ as int, None));
            }
            Ok(())
        } else {
            Err(CursorUpdateError::InvalidIndex(idx))
        }
    }

    /// Packages this map for one receiving session: serializing the view
    /// omits that session's own slot.
    pub fn into_view(self, idx: CursorsMapIndex) -> (r: CursorsMapView)
        ensures
            r.map_view() == self@,
            r.own_idx() == idx@ as int,
    {
        CursorsMapView { map: self, idx }
    }
}

/// The entries of a map that one session gets to see: every occupied slot
/// except its own and except empty selections, as `(slot index, ascending
/// selection indices)`, in slot order.
pub open spec fn spec_visible_entries(m: Seq<Option<(SessionId, u128)>>, own: int) -> Seq<
    (usize, Seq<u8>),
>
    decreases m.len(),
{
    if m.len() == 0 {
        Seq::empty()
    } else {
        let prefix = spec_visible_entries(m.drop_last(), own);
        let i = m.len() - 1;
        match m[i] {
            Some(p) => if i != own && p.1 != 0 {
                prefix.push((i as usize, sel_indices(p.1)))
            } else {
                prefix
            },
            None => prefix,
        }
    }
}

/// A cursor map paired with the slot of the session that will receive it;
/// its externalized form elides that slot and all empty selections.
pub struct CursorsMapView {
    map: CursorsMap,
    idx: CursorsMapIndex,
}

impl CursorsMapView {
    /// The slots of the underlying map.
    pub closed spec fn map_view(&self) -> Seq<Option<(SessionId, u128)>> {
        self.map@
    }

    /// The slot of the receiving session.
    pub closed spec fn own_idx(&self) -> int {
        self.idx@ as int
    }

    /// A view is well formed when its map is.
    pub open spec fn wf(&self) -> bool {
        &&& self.map_view().len() == MAX_SESSIONS_PER_ROOM
        &&& forall|i: int|
            0 <= i < self.map_view().len() ==> (match #[trigger] self.map_view()[i] {
                Some(p) => sel_wf(p.1),
                None => true,
            })
    }

    /// The entries the receiving session gets to see, keyed by slot index,
    /// each selection in its externalized ascending form.
    pub fn visible_entries(&self) -> (r: Vec<(usize, Vec<u8>)>)
        requires
            self.wf(),
        ensures
            r@.len() == spec_visible_entries(self.map_view(), self.own_idx()).len(),
            forall|k: int|
                0 <= k < r@.len() ==> (#[trigger] r@[k]).0 == spec_visible_entries(
                    self.map_view(),
                    self.own_idx(),
                )[k].0 && r@[k].1@ == spec_visible_entries(self.map_view(), self.own_idx())[k].1,
    {
        let ghost target = spec_visible_entries(self.map_view(), self.own_idx());
        let mut result: Vec<(usize, Vec<u8>)> = Vec::new();
        let mut i: usize = 0;
        while i < self.map.inner.len()
            invariant
                0 <= i <= self.map.inner@.len(),
                self.wf(),
                self.map.inner@.len() == self.map_view().len(),
                result@.len() == spec_visible_entries(
                    self.map_view().take(i as int),
                    self.own_idx(),
                ).len(),
                forall|k: int|
                    0 <= k < result@.len() ==> (#[trigger] result@[k]).0 == spec_visible_entries(
                        self.map_view().take(i as int),
                        self.own_idx(),
                    )[k].0 && result@[k].1@ == spec_visible_entries(
                        self.map_view().take(i as int),
                        self.own_idx(),
                    )[k].1,
            decreases self.map.inner@.len() - i,
        {
            proof {
                assert(self.map_view().take(i + 1 as int).drop_last() =~= self.map_view().take(
                    i as int,
                ));
                assert(self.map_view().take(i + 1 as int).last() == self.map_view()[i as int]);
            }
            match self.map.inner[i] {
                Some(entry) => {
                    if i != self.idx.0 && !entry.1.is_empty() {
                        let indices = match entry.1.serialize() {
                            Ok(v) => v,
                            Err(_) => {
                                proof {
                                    assert(false);
                                }
                                Vec::new()
                            },
                        };
                        result.push((i, indices));
                    }
                },
                None => {},
            }
            i = i + 1;
        }
        proof {
            assert(self.map_view().take(self.map_view().len() as int) =~= self.map_view());
        }
        result
    }
}

} // verus!
