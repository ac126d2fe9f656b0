//! The GPU residency table of the local contour renderer: one uploaded
//! buffer per source tile with its geometry version, size and the frame it
//! was last drawn, the per-frame upload plan (at most three uploads a frame)
//! and least-recently-drawn eviction down to a memory budget. Buffers are
//! opaque to the library; the caller creates them for the planned uploads.
use crate::instances::LocalTileId;
use vstd::prelude::*;

verus! {

/// Most tile uploads in one frame.
pub const MAX_TILE_UPLOADS_PER_FRAME: usize = 3;

/// One resident tile.
pub struct TileSlot<B> {
    pub version: u64,
    pub buffer: B,
    pub count: u32,
    pub bytes: u64,
    pub last_used: u64,
}

/// The resident tiles, the byte count they are charged, and the frame clock.
pub struct TileResidency<B> {
    pub tiles: Vec<(LocalTileId, TileSlot<B>)>,
    pub resident_bytes: u64,
    pub frame: u64,
}

/// The tile identities of the table, in order.
pub open spec fn slot_ids<B>(s: Seq<(LocalTileId, TileSlot<B>)>) -> Seq<LocalTileId> {
    Seq::new(s.len(), |i: int| s[i].0)
}

/// The position of `id` in the table (its last occurrence), if resident.
pub open spec fn resident_index<B>(s: Seq<(LocalTileId, TileSlot<B>)>, id: LocalTileId) -> Option<int>
    decreases s.len(),
{
    if s.len() == 0 {
        None
    } else if s.last().0 == id {
        Some(s.len() - 1)
    } else {
        resident_index(s.drop_last(), id)
    }
}

/// The version resident for `id`, if any.
pub open spec fn resident_version<B>(s: Seq<(LocalTileId, TileSlot<B>)>, id: LocalTileId) -> Option<u64> {
    match resident_index(s, id) {
        Some(i) => Some(s[i].1.version),
        None => None,
    }
}

/// The charge left once the slot resident for `id`, if any, is released.
pub open spec fn charge_without<B>(s: Seq<(LocalTileId, TileSlot<B>)>, resident: u64, id: LocalTileId) -> int {
    match resident_index(s, id) {
        Some(i) => if resident >= s[i].1.bytes { resident - s[i].1.bytes } else { 0 },
        None => resident as int,
    }
}

/// The version of the last planned upload of `id`, if any.
pub open spec fn planned_version(batches: Seq<(LocalTileId, u64, usize)>, plan: Seq<usize>, id: LocalTileId) -> Option<u64>
    decreases plan.len(),
{
    if plan.len() == 0 {
        None
    } else if batches[plan.last() as int].0 == id {
        Some(batches[plan.last() as int].1)
    } else {
        planned_version(batches, plan.drop_last(), id)
    }
}

/// A batch needs an upload: what will be resident for its tile after the
/// uploads planned so far is not its version.
pub open spec fn needs_upload<B>(
    table: Seq<(LocalTileId, TileSlot<B>)>,
    batches: Seq<(LocalTileId, u64, usize)>,
    plan: Seq<usize>,
    id: LocalTileId,
    version: u64,
) -> bool {
    match planned_version(batches, plan, id) {
        Some(v) => v != version,
        None => match resident_version(table, id) {
            Some(v) => v != version,
            None => true,
        },
    }
}

/// The uploads of a frame over the first `k` batches: each non-empty batch
/// that needs an upload, in order, while fewer than three are planned.
pub open spec fn upload_plan<B>(
    table: Seq<(LocalTileId, TileSlot<B>)>,
    batches: Seq<(LocalTileId, u64, usize)>,
    k: int,
) -> Seq<usize>
    decreases k,
{
    if k <= 0 {
        Seq::empty()
    } else {
        let p = upload_plan(table, batches, k - 1);
        let b = batches[k - 1];
        if b.2 > 0 && needs_upload(table, batches, p, b.0, b.1) && p.len()
            < MAX_TILE_UPLOADS_PER_FRAME {
            p.push((k - 1) as usize)
        } else {
            p
        }
    }
}

/// A resident tile is drawn this frame with its resident version.
pub open spec fn drawn_resident<B>(batches: Seq<(LocalTileId, u64, usize)>, slot: (LocalTileId, TileSlot<B>)) -> bool {
    exists|k: int| 0 <= k < batches.len() && (#[trigger] batches[k]).0 == slot.0 && batches[k].1 == slot.1.version
        && batches[k].2 > 0
}

/// The table with the drawn resident tiles marked as used in `frame`.
pub open spec fn touched<B>(
    s: Seq<(LocalTileId, TileSlot<B>)>,
    batches: Seq<(LocalTileId, u64, usize)>,
    frame: u64,
) -> Seq<(LocalTileId, TileSlot<B>)> {
    Seq::new(
        s.len(),
        |i: int|
            if drawn_resident(batches, s[i]) {
                (s[i].0, TileSlot { last_used: frame, ..s[i].1 })
            } else {
                s[i]
            },
    )
}

/// A candidate for eviction: its tile, the frame it was last drawn and its size.
pub type Candidate = (LocalTileId, u64, u64);

/// The resident tiles not drawn in `frame`, in table order.
pub open spec fn evictable<B>(s: Seq<(LocalTileId, TileSlot<B>)>, frame: u64) -> Seq<Candidate>
    decreases s.len(),
{
    if s.len() == 0 {
        Seq::empty()
    } else {
        let r = evictable(s.drop_last(), frame);
        let e = s.last();
        if e.1.last_used != frame {
            r.push((e.0, e.1.last_used, e.1.bytes))
        } else {
            r
        }
    }
}

/// `x` inserted into `s` after every candidate drawn no later than it.
pub open spec fn insert_by_age(s: Seq<Candidate>, x: Candidate) -> Seq<Candidate>
    decreases s.len(),
{
    if s.len() == 0 {
        seq![x]
    } else if s.last().1 <= x.1 {
        s.push(x)
    } else {
        insert_by_age(s.drop_last(), x).push(s.last())
    }
}

/// The candidates least recently drawn first; ties keep their order.
pub open spec fn oldest_first(s: Seq<Candidate>) -> Seq<Candidate>
    decreases s.len(),
{
    if s.len() == 0 {
        Seq::empty()
    } else {
        insert_by_age(oldest_first(s.drop_last()), s.last())
    }
}

/// Evict candidates in order while the charge exceeds the budget: the
/// evicted tiles and the charge left (each eviction subtracts its size, not
/// below zero).
pub open spec fn evictions(cands: Seq<Candidate>, resident: int, budget: int) -> (Seq<LocalTileId>, int)
    decreases cands.len(),
{
    if cands.len() == 0 || resident <= budget {
        (Seq::empty(), resident)
    } else {
        let rest = evictions(
            cands.drop_first(),
            if resident >= cands[0].2 { resident - cands[0].2 } else { 0 },
            budget,
        );
        (seq![cands[0].0].add(rest.0), rest.1)
    }
}

/// The slots of `s` whose tile `gone` does not name, in order.
pub open spec fn without_ids<B>(s: Seq<(LocalTileId, TileSlot<B>)>, gone: Seq<LocalTileId>) -> Seq<(LocalTileId, TileSlot<B>)>
    decreases s.len(),
{
    if s.len() == 0 {
        Seq::empty()
    } else {
        let r = without_ids(s.drop_last(), gone);
        if gone.contains(s.last().0) {
            r
        } else {
            r.push(s.last())
        }
    }
}

proof fn lemma_resident_index_found<B>(s: Seq<(LocalTileId, TileSlot<B>)>, id: LocalTileId, i: int)
    requires
        0 <= i < s.len(),
        s[i].0 == id,
        forall|j: int| i < j < s.len() ==> (#[trigger] s[j]).0 != id,
    ensures
        resident_index(s, id) == Some(i),
    decreases s.len(),
{
    if i < s.len() - 1 {
        lemma_resident_index_found(s.drop_last(), id, i);
    }
}

proof fn lemma_resident_index_absent<B>(s: Seq<(LocalTileId, TileSlot<B>)>, id: LocalTileId)
    requires
        forall|j: int| 0 <= j < s.len() ==> (#[trigger] s[j]).0 != id,
    ensures
        resident_index(s, id) is None,
    decreases s.len(),
{
    if s.len() > 0 {
        lemma_resident_index_absent(s.drop_last(), id);
    }
}

proof fn lemma_resident_index_bounds<B>(s: Seq<(LocalTileId, TileSlot<B>)>, id: LocalTileId)
    ensures
        resident_index(s, id) matches Some(i) ==> 0 <= i < s.len() && s[i].0 == id,
    decreases s.len(),
{
    if s.len() > 0 {
        lemma_resident_index_bounds(s.drop_last(), id);
    }
}

proof fn lemma_insert_by_age_at(s: Seq<Candidate>, x: Candidate, j: int)
    requires
        0 <= j <= s.len(),
        forall|k: int| j <= k < s.len() ==> (#[trigger] s[k]).1 > x.1,
        j == 0 || s[j - 1].1 <= x.1,
    ensures
        insert_by_age(s, x) == s.insert(j, x),
    decreases s.len(),
{
    if s.len() == 0 {
        assert(s.insert(j, x) =~= seq![x]);
    } else if j == s.len() {
        assert(s.insert(j, x) =~= s.push(x));
    } else {
        let t = s.drop_last();
        lemma_insert_by_age_at(t, x, j);
        assert(t.insert(j, x).push(s.last()) =~= s.insert(j, x));
    }
}

proof fn lemma_evictions_step(cands: Seq<Candidate>, i: int, resident: int, budget: int)
    requires
        0 <= i < cands.len(),
        resident > budget,
    ensures
        evictions(cands.skip(i), resident, budget) == ({
            let rest = evictions(
                cands.skip(i + 1),
                if resident >= cands[i].2 { resident - cands[i].2 } else { 0 },
                budget,
            );
            (seq![cands[i].0].add(rest.0), rest.1)
        }),
{
    assert(cands.skip(i).drop_first() =~= cands.skip(i + 1));
}

/// The version resident for `id`, if any.
fn find_version<B>(tiles: &Vec<(LocalTileId, TileSlot<B>)>, id: LocalTileId) -> (r: Option<u64>)
    ensures
        r == resident_version(tiles@, id),
{
    let mut i: usize = tiles.len();
    while i > 0
        invariant
            i <= tiles@.len(),
            forall|j: int| i <= j < tiles@.len() ==> (#[trigger] tiles@[j]).0 != id,
        decreases i,
    {
        i = i - 1;
        if tiles[i].0 == id {
            proof {
                lemma_resident_index_found(tiles@, id, i as int);
            }
            return Some(tiles[i].1.version);
        }
    }
    proof {
        lemma_resident_index_absent(tiles@, id);
    }
    None
}

/// The version of the last planned upload of `id`, if any.
fn find_planned(batches: &[(LocalTileId, u64, usize)], plan: &Vec<usize>, id: LocalTileId) -> (r: Option<u64>)
    requires
        forall|k: int| 0 <= k < plan@.len() ==> (#[trigger] plan@[k]) < batches@.len(),
    ensures
        r == planned_version(batches@, plan@, id),
{
    let mut i: usize = plan.len();
    assert(plan@.take(plan@.len() as int) =~= plan@);
    while i > 0
        invariant
            i <= plan@.len(),
            forall|k: int| 0 <= k < plan@.len() ==> (#[trigger] plan@[k]) < batches@.len(),
            planned_version(batches@, plan@, id) == planned_version(batches@, plan@.take(i as int), id),
        decreases i,
    {
        assert(plan@.take(i as int).drop_last() =~= plan@.take(i - 1));
        let b: usize = plan[i - 1];
        if batches[b].0 == id {
            return Some(batches[b].1);
        }
        i = i - 1;
    }
    None
}

impl<B> TileResidency<B> {
    /// Each tile is resident at most once.
    pub open spec fn well_formed(self) -> bool {
        slot_ids(self.tiles@).no_duplicates()
    }

    /// Nothing resident at frame zero.
    pub fn new() -> (r: TileResidency<B>)
        ensures
            r.well_formed(),
            r.tiles@.len() == 0,
            r.resident_bytes == 0,
            r.frame == 0,
    {
        TileResidency { tiles: Vec::new(), resident_bytes: 0, frame: 0 }
    }

    /// Start drawing one pass: the first pass of a frame advances the clock
    /// (wrapping); the frame drawn is returned.
    pub fn begin_pass(&mut self, first_pass: bool) -> (r: u64)
        ensures
            final(self).frame == (if first_pass {
                (if old(self).frame == u64::MAX {
                    0
                } else {
                    (old(self).frame + 1) as u64
                })
            } else {
                old(self).frame
            }),
            r == final(self).frame,
            final(self).tiles == old(self).tiles,
            final(self).resident_bytes == old(self).resident_bytes,
    {
        if first_pass {
            self.frame = self.frame.wrapping_add(1);
        }
        self.frame
    }

    /// Plan a frame's uploads over its tile batches (tile, version, instance
    /// count): see [`upload_plan`]. Resident tiles drawn with their resident
    /// version are marked used in `frame`.
    pub fn plan_uploads(&mut self, batches: &[(LocalTileId, u64, usize)], frame: u64) -> (r: Vec<usize>)
        requires
            old(self).well_formed(),
        ensures
            r@ == upload_plan(old(self).tiles@, batches@, batches@.len() as int),
            final(self).tiles@ == touched(old(self).tiles@, batches@, frame),
            final(self).resident_bytes == old(self).resident_bytes,
            final(self).frame == old(self).frame,
            final(self).well_formed(),
    {
        let mut plan: Vec<usize> = Vec::new();
        let mut k: usize = 0;
        while k < batches.len()
            invariant
                k <= batches@.len(),
                plan@ == upload_plan(self.tiles@, batches@, k as int),
                forall|j: int| 0 <= j < plan@.len() ==> (#[trigger] plan@[j]) < k,
            decreases batches@.len() - k,
        {
            let (id, version, n): (LocalTileId, u64, usize) = batches[k];
            if n > 0 && plan.len() < MAX_TILE_UPLOADS_PER_FRAME {
                let stale: bool = match find_planned(batches, &plan, id) {
                    Some(v) => v != version,
                    None => match find_version(&self.tiles, id) {
                        Some(v) => v != version,
                        None => true,
                    },
                };
                if stale {
                    plan.push(k);
                }
            }
            k = k + 1;
        }
        let ghost before = self.tiles@;
        let mut tiles: Vec<(LocalTileId, TileSlot<B>)> = Vec::new();
        std::mem::swap(&mut self.tiles, &mut tiles);
        let mut out: Vec<(LocalTileId, TileSlot<B>)> = Vec::new();
        let ghost want = touched(before, batches@, frame);
        while tiles.len() > 0
            invariant
                out@.len() + tiles@.len() == before.len(),
                out@ == want.take(out@.len() as int),
                tiles@ == before.skip(out@.len() as int),
                want == touched(before, batches@, frame),
            decreases tiles@.len(),
        {
            let (id, slot) = tiles.remove(0);
            let i: usize = out.len();
            let mut drawn: bool = false;
            let mut k: usize = 0;
            while k < batches.len()
                invariant
                    k <= batches@.len(),
                    drawn == exists|j: int|
                        0 <= j < k && (#[trigger] batches@[j]).0 == id && batches@[j].1 == slot.version
                            && batches@[j].2 > 0,
                decreases batches@.len() - k,
            {
                if batches[k].0 == id && batches[k].1 == slot.version && batches[k].2 > 0 {
                    drawn = true;
                }
                k = k + 1;
            }
            assert(before[i as int] == (id, slot));
            let new_slot: TileSlot<B> = if drawn {
                TileSlot { last_used: frame, ..slot }
            } else {
                slot
            };
            out.push((id, new_slot));
            assert(out@ =~= want.take(out@.len() as int));
        }
        self.tiles = out;
        assert(slot_ids(self.tiles@) =~= slot_ids(before));
        plan
    }

    /// Install a freshly uploaded buffer for `id`, used in `frame`: it
    /// replaces the resident slot of `id` (whose size is released) or joins
    /// the table.
    pub fn install(&mut self, id: LocalTileId, version: u64, buffer: B, count: u32, bytes: u64, frame: u64)
        requires
            old(self).well_formed(),
            charge_without(old(self).tiles@, old(self).resident_bytes, id) + bytes <= u64::MAX,
        ensures
            final(self).well_formed(),
            final(self).frame == old(self).frame,
            final(self).resident_bytes == charge_without(old(self).tiles@, old(self).resident_bytes, id)
                + bytes,
            ({
                let slot = TileSlot { version, buffer, count, bytes, last_used: frame };
                match resident_index(old(self).tiles@, id) {
                    Some(i) => final(self).tiles@ == old(self).tiles@.update(i, (id, slot)),
                    None => final(self).tiles@ == old(self).tiles@.push((id, slot)),
                }
            }),
    {
        let mut i: usize = self.tiles.len();
        while i > 0
            invariant
                *self == *old(self),
                old(self).well_formed(),
                charge_without(old(self).tiles@, old(self).resident_bytes, id) + bytes <= u64::MAX,
                i <= self.tiles@.len(),
                forall|j: int| i <= j < self.tiles@.len() ==> (#[trigger] self.tiles@[j]).0 != id,
            decreases i,
        {
            i = i - 1;
            if self.tiles[i].0 == id {
                proof {
                    lemma_resident_index_found(self.tiles@, id, i as int);
                }
                let ghost before = self.tiles@;
                let previous_bytes: u64 = self.tiles[i].1.bytes;
                self.resident_bytes = self.resident_bytes.saturating_sub(previous_bytes) + bytes;
                self.tiles.set(i, (id, TileSlot { version, buffer, count, bytes, last_used: frame }));
                assert(slot_ids(self.tiles@) =~= slot_ids(before));
                return;
            }
        }
        proof {
            lemma_resident_index_absent(self.tiles@, id);
        }
        let ghost before = self.tiles@;
        self.tiles.push((id, TileSlot { version, buffer, count, bytes, last_used: frame }));
        self.resident_bytes = self.resident_bytes + bytes;
        proof {
            assert(slot_ids(self.tiles@) =~= slot_ids(before).push(id));
            assert(!slot_ids(before).contains(id)) by {
                if slot_ids(before).contains(id) {
                    let j = choose|j: int| 0 <= j < slot_ids(before).len() && slot_ids(before)[j] == id;
                    assert(before[j].0 == id);
                }
            }
        }
    }

    /// Evict least-recently-drawn tiles until the charge fits `budget_bytes`;
    /// tiles drawn in `frame` are never evicted (see [`evictions`]).
    pub fn enforce_budget(&mut self, budget_bytes: u64, frame: u64)
        requires
            old(self).well_formed(),
        ensures
            final(self).well_formed(),
            final(self).frame == old(self).frame,
            old(self).resident_bytes <= budget_bytes ==> *final(self) == *old(self),
            old(self).resident_bytes > budget_bytes ==> ({
                let plan = evictions(
                    oldest_first(evictable(old(self).tiles@, frame)),
                    old(self).resident_bytes as int,
                    budget_bytes as int,
                );
                &&& final(self).tiles@ == without_ids(old(self).tiles@, plan.0)
                &&& final(self).resident_bytes == plan.1
            }),
    {
        if self.resident_bytes <= budget_bytes {
            return;
        }
        let ghost table = self.tiles@;
        // The candidates, least recently drawn first (stable).
        let mut cands: Vec<Candidate> = Vec::new();
        let mut i: usize = 0;
        while i < self.tiles.len()
            invariant
                table == self.tiles@,
                i <= table.len(),
                cands@ == oldest_first(evictable(table.take(i as int), frame)),
            decreases table.len() - i,
        {
            assert(table.take(i + 1).drop_last() =~= table.take(i as int));
            let last_used: u64 = self.tiles[i].1.last_used;
            if last_used != frame {
                let c: Candidate = (self.tiles[i].0, last_used, self.tiles[i].1.bytes);
                assert(evictable(table.take(i + 1), frame) =~= evictable(table.take(i as int), frame).push(c));
                assert(evictable(table.take(i + 1), frame).drop_last() =~= evictable(table.take(i as int), frame));
                let mut j: usize = cands.len();
                while j > 0 && cands[j - 1].1 > last_used
                    invariant
                        j <= cands@.len(),
                        forall|k: int| j <= k < cands@.len() ==> (#[trigger] cands@[k]).1 > last_used,
                    decreases j,
                {
                    j = j - 1;
                }
                let ghost before = cands@;
                proof {
                    lemma_insert_by_age_at(before, c, j as int);
                }
                cands.insert(j, c);
                assert(cands@ =~= before.insert(j as int, c));
            }
            i = i + 1;
        }
        assert(table.take(table.len() as int) =~= table);
        // Walk the candidates while over budget.
        let ghost all = cands@;
        let ghost total = evictions(all, self.resident_bytes as int, budget_bytes as int);
        let mut gone: Vec<LocalTileId> = Vec::new();
        let mut resident: u64 = self.resident_bytes;
        let mut k: usize = 0;
        assert(all.skip(0) =~= all);
        assert(gone@ + total.0 =~= total.0);
        while k < cands.len() && resident > budget_bytes
            invariant
                cands@ == all,
                k <= all.len(),
                total.0 == gone@ + evictions(all.skip(k as int), resident as int, budget_bytes as int).0,
                total.1 == evictions(all.skip(k as int), resident as int, budget_bytes as int).1,
            decreases all.len() - k,
        {
            proof {
                lemma_evictions_step(all, k as int, resident as int, budget_bytes as int);
            }
            let ghost before = gone@;
            gone.push(cands[k].0);
            resident = resident.saturating_sub(cands[k].2);
            assert(gone@ =~= before.push(all[k as int].0));
            assert(before + (seq![all[k as int].0].add(
                evictions(all.skip(k + 1), resident as int, budget_bytes as int).0,
            )) =~= gone@ + evictions(all.skip(k + 1), resident as int, budget_bytes as int).0);
            k = k + 1;
        }
        assert(evictions(all.skip(k as int), resident as int, budget_bytes as int).0 =~= Seq::<LocalTileId>::empty());
        assert(gone@ =~= total.0);
        // Drop the evicted tiles.
        let mut tiles: Vec<(LocalTileId, TileSlot<B>)> = Vec::new();
        std::mem::swap(&mut self.tiles, &mut tiles);
        let mut kept: Vec<(LocalTileId, TileSlot<B>)> = Vec::new();
        let mut n: usize = 0;
        assert(table.len() <= usize::MAX);
        assert(table.skip(0) =~= table);
        assert(table.take(0) =~= Seq::<(LocalTileId, TileSlot<B>)>::empty());
        assert(slot_ids(kept@) =~= Seq::<LocalTileId>::empty());
        while tiles.len() > 0
            invariant
                table.len() <= usize::MAX,
                n + tiles@.len() == table.len(),
                tiles@ == table.skip(n as int),
                kept@ == without_ids(table.take(n as int), gone@),
                slot_ids(table).no_duplicates(),
                forall|a: int| 0 <= a < kept@.len() ==> exists|b: int| 0 <= b < n && #[trigger] kept@[a] == table[b],
                slot_ids(kept@).no_duplicates(),
            decreases tiles@.len(),
        {
            let entry = tiles.remove(0);
            assert(table[n as int] == entry);
            assert(table.take(n + 1).drop_last() =~= table.take(n as int));
            let mut evicted: bool = false;
            let mut g: usize = 0;
            while g < gone.len()
                invariant
                    g <= gone@.len(),
                    evicted == gone@.take(g as int).contains(entry.0),
                decreases gone@.len() - g,
            {
                let ghost t = gone@.take(g as int);
                assert(gone@.take(g + 1) =~= t.push(gone@[g as int]));
                if gone[g] == entry.0 {
                    evicted = true;
                    assert(t.push(gone@[g as int])[g as int] == entry.0);
                }
                proof {
                    if t.contains(entry.0) {
                        let q = choose|q: int| 0 <= q < t.len() && t[q] == entry.0;
                        assert(t.push(gone@[g as int])[q] == entry.0);
                    }
                    if t.push(gone@[g as int]).contains(entry.0) && gone@[g as int] != entry.0 {
                        let q = choose|q: int| 0 <= q < t.len() + 1 && t.push(gone@[g as int])[q] == entry.0;
                        assert(t[q] == entry.0);
                    }
                }
                g = g + 1;
            }
            assert(gone@.take(gone@.len() as int) =~= gone@);
            if !evicted {
                let ghost before = kept@;
                proof {
                    assert forall|a: int| 0 <= a < before.len() implies (#[trigger] slot_ids(before)[a]) != entry.0 by {
                        let b = choose|b: int| 0 <= b < n && before[a] == table[b];
                        assert(slot_ids(table)[b] == before[a].0);
                        assert(slot_ids(table)[n as int] == entry.0);
                    }
                }
                kept.push(entry);
                proof {
                    assert(slot_ids(kept@) =~= slot_ids(before).push(entry.0));
                    assert forall|a: int| 0 <= a < kept@.len() implies exists|b: int|
                        0 <= b < n + 1 && #[trigger] kept@[a] == table[b] by {
                        if a < before.len() {
                            let b = choose|b: int| 0 <= b < n && before[a] == table[b];
                            assert(kept@[a] == table[b]);
                        } else {
                            assert(kept@[a] == table[n as int]);
                        }
                    }
                }
            }
            n = n + 1;
        }
        assert(table.take(table.len() as int) =~= table);
        self.tiles = kept;
        self.resident_bytes = resident;
    }
}

} // verus!
