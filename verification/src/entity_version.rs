//! Block-range entity versioning.
//!
//! All derived application state is stored as versioned rows tagged with
//! a half-open interval `[lower, upper)` of block numbers; an upper
//! bound equal to the sentinel `BLOCK_NUMBER_MAX` means the version is
//! current. A mutation clamps the current version at the mutation block
//! and inserts the successor, so history and current state live in one
//! relation, and point-in-time, current, and change-since reads are all
//! bound tests on the same pair of columns.

use vstd::prelude::*;

use crate::block_range::{range_contains, BlockNumber, BLOCK_NUMBER_MAX};

verus! {

/// The mathematical value of a stored version.
pub ghost struct EntityVersionV {
    pub lower: int,
    pub upper: int,
    pub attributes: serde_json::Value,
}

/// The range a version occupies, without its attributes.
pub ghost struct VersionSpan {
    pub lower: int,
    pub upper: int,
}

/// One stored version of an entity: its attributes, valid for the block
/// range `[lower, upper)`.
pub struct EntityVersion {
    pub lower: BlockNumber,
    pub upper: BlockNumber,
    pub attributes: serde_json::Value,
}

impl View for EntityVersion {
    type V = EntityVersionV;

    open spec fn view(&self) -> EntityVersionV {
        EntityVersionV { lower: self.lower as int, upper: self.upper as int, attributes: self.attributes }
    }
}

/// The ranges of a version sequence.
pub open spec fn spans(vs: Seq<EntityVersionV>) -> Seq<VersionSpan> {
    vs.map_values(|v: EntityVersionV| VersionSpan { lower: v.lower, upper: v.upper })
}

/// A version of a mutable entity contains `block` when its range does;
/// a version of an immutable entity is visible from its creation block
/// on, and trivially at the sentinel.
pub open spec fn version_contains(immutable: bool, v: EntityVersionV, block: int) -> bool {
    if immutable {
        block == BLOCK_NUMBER_MAX as int || v.lower <= block
    } else {
        range_contains(v.lower, v.upper, block)
    }
}

/// A version is current when its upper bound is open; every version of
/// an immutable entity is current.
pub open spec fn version_is_current(immutable: bool, v: EntityVersionV) -> bool {
    immutable || v.upper == BLOCK_NUMBER_MAX as int
}

/// A version changed at or after `block`: its lower bound test.
pub open spec fn version_changed_since(v: EntityVersionV, block: int) -> bool {
    v.lower >= block
}

/// The ranges partition `[first, +infinity)`: they touch, each is
/// non-empty, and exactly the last is unbounded.
pub open spec fn contiguous_partition(sp: Seq<VersionSpan>, first: int) -> bool {
    &&& sp.len() > 0
    &&& sp[0].lower == first
    &&& forall|i: int| 0 <= i < sp.len() - 1 ==> (#[trigger] sp[i]).upper == sp[i + 1].lower
    &&& forall|i: int| 0 <= i < sp.len() ==> (#[trigger] sp[i]).lower < sp[i].upper
    &&& forall|i: int|
        0 <= i < sp.len() ==> ((#[trigger] sp[i]).upper == BLOCK_NUMBER_MAX as int <==> i == sp.len()
            - 1)
}

/// One clamp-and-insert mutation at `block`: the last range is closed at
/// `block` and an unbounded successor starting there is appended.
pub open spec fn clamp_insert(sp: Seq<VersionSpan>, block: int) -> Seq<VersionSpan> {
    sp.update(
        sp.len() - 1,
        VersionSpan { lower: sp[sp.len() - 1].lower, upper: block },
    ).push(VersionSpan { lower: block, upper: BLOCK_NUMBER_MAX as int })
}

/// `blocks` is strictly increasing, every entry above `floor` and below
/// the sentinel.
pub open spec fn increasing_blocks(blocks: Seq<int>, floor: int) -> bool {
    &&& forall|i: int| 0 <= i < blocks.len() ==> floor < #[trigger] blocks[i]
        < BLOCK_NUMBER_MAX as int
    &&& forall|i: int, j: int| 0 <= i < j < blocks.len() ==> blocks[i] < blocks[j]
}

/// The mutations applied one after the other.
pub open spec fn clamp_insert_all(sp: Seq<VersionSpan>, blocks: Seq<int>) -> Seq<VersionSpan>
    decreases blocks.len(),
{
    if blocks.len() == 0 {
        sp
    } else {
        clamp_insert_all(clamp_insert(sp, blocks[0]), blocks.drop_first())
    }
}

/// Range partition: starting from any contiguous partition (a freshly
/// created entity is one), a run of clamp-and-insert mutations at
/// strictly increasing blocks yields exactly one more range per
/// mutation, still contiguous, non-overlapping, with exactly one
/// unbounded range.
pub proof fn lemma_range_partition(sp: Seq<VersionSpan>, first: int, blocks: Seq<int>)
    requires
        contiguous_partition(sp, first),
        increasing_blocks(blocks, sp[sp.len() - 1].lower),
    ensures
        contiguous_partition(clamp_insert_all(sp, blocks), first),
        clamp_insert_all(sp, blocks).len() == sp.len() + blocks.len(),
        clamp_insert_all(sp, blocks)[clamp_insert_all(sp, blocks).len() - 1].lower == if blocks.len()
            > 0 {
            blocks[blocks.len() - 1]
        } else {
            sp[sp.len() - 1].lower
        },
    decreases blocks.len(),
{
    if blocks.len() > 0 {
        let b = blocks[0];
        let sp1 = clamp_insert(sp, b);
        assert(contiguous_partition(sp1, first)) by {
            assert(forall|i: int| 0 <= i < sp.len() - 1 ==> sp1[i] == sp[i]);
            assert(sp1[sp.len() - 1] == (VersionSpan { lower: sp[sp.len() - 1].lower, upper: b }));
            assert(sp1[sp1.len() - 1] == (VersionSpan { lower: b, upper: BLOCK_NUMBER_MAX as int }));
        }
        let rest = blocks.drop_first();
        assert(increasing_blocks(rest, sp1[sp1.len() - 1].lower)) by {
            assert(forall|i: int| 0 <= i < rest.len() ==> rest[i] == blocks[i + 1]);
        }
        lemma_range_partition(sp1, first, rest);
    }
}

/// containsAt and isCurrent agree: the current version contains every
/// block from its lower bound on.
pub proof fn lemma_current_version_contains(immutable: bool, v: EntityVersionV, block: int)
    requires
        version_is_current(immutable, v),
        v.lower <= block,
    ensures
        version_contains(immutable, v, block),
{
}

/// The versions of one entity in one causality region, oldest first.
pub struct VersionTable {
    entity_id: String,
    causality_region: i32,
    immutable: bool,
    versions: Vec<EntityVersion>,
}

impl VersionTable {
    /// The entity this table belongs to.
    pub closed spec fn spec_entity_id(&self) -> Seq<char> {
        self.entity_id@
    }

    /// The causality region this table belongs to.
    pub closed spec fn spec_causality_region(&self) -> int {
        self.causality_region as int
    }

    /// Whether the entity kind is immutable.
    pub closed spec fn spec_immutable(&self) -> bool {
        self.immutable
    }

    /// The stored versions, as mathematical values, oldest first.
    pub closed spec fn versions_view(&self) -> Seq<EntityVersionV> {
        self.versions@.map_values(|v: EntityVersion| v@)
    }

    /// Well-formedness. Mutable entities: ranges are non-empty, ordered
    /// and pairwise non-overlapping, and only the last may be unbounded.
    /// Immutable entities: at most a single version, never clamped.
    pub open spec fn wf(&self) -> bool {
        if self.spec_immutable() {
            self.versions_view().len() <= 1 && forall|i: int|
                0 <= i < self.versions_view().len() ==> (#[trigger] self.versions_view()[
                i]).upper == BLOCK_NUMBER_MAX as int
        } else {
            &&& forall|i: int|
                0 <= i < self.versions_view().len() ==> (#[trigger] self.versions_view()[i]).lower
                    < self.versions_view()[i].upper
            &&& forall|i: int, j: int|
                0 <= i < j < self.versions_view().len() ==> (#[trigger] self.versions_view()[
                i]).upper <= (#[trigger] self.versions_view()[j]).lower
            &&& forall|i: int|
                0 <= i < self.versions_view().len() - 1 ==> (#[trigger] self.versions_view()[
                i]).upper != BLOCK_NUMBER_MAX as int
        }
    }

    /// The entity id, as text.
    pub fn entity_id(&self) -> (r: &str)
        ensures
            r@ == self.spec_entity_id(),
    {
        self.entity_id.as_str()
    }

    /// The causality region tag.
    pub fn causality_region(&self) -> (r: i32)
        ensures
            r as int == self.spec_causality_region(),
    {
        self.causality_region
    }

    /// Whether the entity kind is immutable.
    pub fn immutable(&self) -> (r: bool)
        ensures
            r == self.spec_immutable(),
    {
        self.immutable
    }

    /// An empty table for one entity in one causality region.
    pub fn new(entity_id: String, causality_region: i32, immutable: bool) -> (r: VersionTable)
        ensures
            r.wf(),
            r.spec_entity_id() == entity_id@,
            r.spec_causality_region() == causality_region as int,
            r.spec_immutable() == immutable,
            r.versions_view() == Seq::<EntityVersionV>::empty(),
    {
        let r = VersionTable { entity_id, causality_region, immutable, versions: Vec::new() };
        proof {
            assert(r.versions_view() =~= Seq::<EntityVersionV>::empty());
        }
        r
    }

    /// How many versions are stored.
    pub fn version_count(&self) -> (r: usize)
        ensures
            r == self.versions_view().len(),
    {
        self.versions.len()
    }

    /// The range of the version at `idx`.
    pub fn version_range(&self, idx: usize) -> (r: (BlockNumber, BlockNumber))
        requires
            idx < self.versions_view().len(),
        ensures
            r.0 as int == self.versions_view()[idx as int].lower,
            r.1 as int == self.versions_view()[idx as int].upper,
    {
        proof {
            assert(self.versions_view()[idx as int] == self.versions@[idx as int]@);
        }
        (self.versions[idx].lower, self.versions[idx].upper)
    }

    /// The attributes of the version at `idx`.
    pub fn version_attributes(&self, idx: usize) -> (r: &serde_json::Value)
        requires
            idx < self.versions_view().len(),
        ensures
            *r == self.versions_view()[idx as int].attributes,
    {
        proof {
            assert(self.versions_view()[idx as int] == self.versions@[idx as int]@);
        }
        &self.versions[idx].attributes
    }

    /// Create the entity at `block`: insert a version valid from `block`
    /// on. The entity must not currently exist: no stored version may
    /// reach `block`.
    pub fn create(&mut self, block: BlockNumber, attributes: serde_json::Value)
        requires
            old(self).wf(),
            block < BLOCK_NUMBER_MAX,
            old(self).spec_immutable() ==> old(self).versions_view().len() == 0,
            !old(self).spec_immutable() ==> (old(self).versions_view().len() == 0 || (old(
                self,
            ).versions_view()[old(self).versions_view().len() - 1].upper
                != BLOCK_NUMBER_MAX as int && old(self).versions_view()[old(
                self,
            ).versions_view().len() - 1].upper <= block as int)),
        ensures
            final(self).wf(),
            final(self).spec_entity_id() == old(self).spec_entity_id(),
            final(self).spec_causality_region() == old(self).spec_causality_region(),
            final(self).spec_immutable() == old(self).spec_immutable(),
            final(self).versions_view() == old(self).versions_view().push(
                EntityVersionV {
                    lower: block as int,
                    upper: BLOCK_NUMBER_MAX as int,
                    attributes,
                },
            ),
    {
        let ghost vs0 = self.versions_view();
        self.versions.push(EntityVersion { lower: block, upper: BLOCK_NUMBER_MAX, attributes });
        proof {
            assert(self.versions_view() =~= vs0.push(
                EntityVersionV { lower: block as int, upper: BLOCK_NUMBER_MAX as int, attributes },
            ));
        }
    }

    /// Supersede the current version at `block`: clamp it to end at
    /// `block` and insert the new version valid from `block` on. Only
    /// mutable entities can be updated, and only while a current version
    /// exists that started before `block`.
    pub fn update(&mut self, block: BlockNumber, attributes: serde_json::Value)
        requires
            old(self).wf(),
            !old(self).spec_immutable(),
            block < BLOCK_NUMBER_MAX,
            old(self).versions_view().len() > 0,
            old(self).versions_view()[old(self).versions_view().len() - 1].upper
                == BLOCK_NUMBER_MAX as int,
            old(self).versions_view()[old(self).versions_view().len() - 1].lower < block as int,
        ensures
            final(self).wf(),
            final(self).spec_entity_id() == old(self).spec_entity_id(),
            final(self).spec_causality_region() == old(self).spec_causality_region(),
            final(self).spec_immutable() == old(self).spec_immutable(),
            ({
                let vs0 = old(self).versions_view();
                let last = vs0[vs0.len() - 1];
                final(self).versions_view() == vs0.update(
                    vs0.len() - 1,
                    EntityVersionV { lower: last.lower, upper: block as int, attributes: last.attributes },
                ).push(
                    EntityVersionV {
                        lower: block as int,
                        upper: BLOCK_NUMBER_MAX as int,
                        attributes,
                    },
                )
            }),
            spans(final(self).versions_view()) == clamp_insert(
                spans(old(self).versions_view()),
                block as int,
            ),
    {
        let ghost vs0 = self.versions_view();
        self.clamp(block);
        let ghost vs1 = self.versions_view();
        self.versions.push(EntityVersion { lower: block, upper: BLOCK_NUMBER_MAX, attributes });
        proof {
            let last = vs0[vs0.len() - 1];
            assert(self.versions_view() =~= vs1.push(
                EntityVersionV { lower: block as int, upper: BLOCK_NUMBER_MAX as int, attributes },
            ));
            assert(self.versions_view() =~= vs0.update(
                vs0.len() - 1,
                EntityVersionV { lower: last.lower, upper: block as int, attributes: last.attributes },
            ).push(EntityVersionV { lower: block as int, upper: BLOCK_NUMBER_MAX as int, attributes }));
            assert(spans(self.versions_view()) =~= clamp_insert(spans(vs0), block as int));
        }
    }

    /// Delete the entity at `block`: clamp the current version with no
    /// replacement. Only mutable entities can be deleted.
    pub fn delete(&mut self, block: BlockNumber)
        requires
            old(self).wf(),
            !old(self).spec_immutable(),
            block < BLOCK_NUMBER_MAX,
            old(self).versions_view().len() > 0,
            old(self).versions_view()[old(self).versions_view().len() - 1].upper
                == BLOCK_NUMBER_MAX as int,
            old(self).versions_view()[old(self).versions_view().len() - 1].lower < block as int,
        ensures
            final(self).wf(),
            final(self).spec_entity_id() == old(self).spec_entity_id(),
            final(self).spec_causality_region() == old(self).spec_causality_region(),
            final(self).spec_immutable() == old(self).spec_immutable(),
            ({
                let vs0 = old(self).versions_view();
                let last = vs0[vs0.len() - 1];
                final(self).versions_view() == vs0.update(
                    vs0.len() - 1,
                    EntityVersionV { lower: last.lower, upper: block as int, attributes: last.attributes },
                )
            }),
    {
        self.clamp(block);
    }

    /// Set the current version's upper bound to `block`, keeping its
    /// lower bound.
    fn clamp(&mut self, block: BlockNumber)
        requires
            old(self).wf(),
            !old(self).spec_immutable(),
            old(self).versions_view().len() > 0,
            old(self).versions_view()[old(self).versions_view().len() - 1].upper
                == BLOCK_NUMBER_MAX as int,
            old(self).versions_view()[old(self).versions_view().len() - 1].lower < block as int,
        ensures
            final(self).wf(),
            final(self).spec_entity_id() == old(self).spec_entity_id(),
            final(self).spec_causality_region() == old(self).spec_causality_region(),
            final(self).spec_immutable() == old(self).spec_immutable(),
            ({
                let vs0 = old(self).versions_view();
                let last = vs0[vs0.len() - 1];
                final(self).versions_view() == vs0.update(
                    vs0.len() - 1,
                    EntityVersionV { lower: last.lower, upper: block as int, attributes: last.attributes },
                )
            }),
    {
        let ghost vs0 = self.versions_view();
        let last_idx = self.versions.len() - 1;
        proof {
            assert(vs0[last_idx as int] == self.versions@[last_idx as int]@);
        }
        let lower = self.versions[last_idx].lower;
        let attributes = crate::types::clone_value(&self.versions[last_idx].attributes);
        self.versions.set(last_idx, EntityVersion { lower, upper: block, attributes });
        proof {
            let last = vs0[vs0.len() - 1];
            assert(self.versions_view() =~= vs0.update(
                vs0.len() - 1,
                EntityVersionV { lower: last.lower, upper: block as int, attributes: last.attributes },
            ));
        }
    }

    /// The indices of the versions visible at `block`, in order: for a
    /// mutable entity, those whose range contains `block`; for an
    /// immutable entity, those created at or before `block` (every one,
    /// at the sentinel).
    pub fn contains_at(&self, block: BlockNumber) -> (r: Vec<usize>)
        ensures
            forall|k: int|
                0 <= k < r@.len() ==> r@[k] < self.versions_view().len() && version_contains(
                    self.spec_immutable(),
                    self.versions_view()[r@[k] as int],
                    block as int,
                ),
            forall|i: int|
                0 <= i < self.versions_view().len() && version_contains(
                    self.spec_immutable(),
                    self.versions_view()[i],
                    block as int,
                ) ==> exists|k: int| 0 <= k < r@.len() && #[trigger] r@[k] == i,
            forall|k1: int, k2: int| 0 <= k1 < k2 < r@.len() ==> r@[k1] < r@[k2],
    {
        let ghost vs = self.versions_view();
        let mut r: Vec<usize> = Vec::new();
        let mut i: usize = 0;
        while i < self.versions.len()
            invariant
                i <= self.versions.len(),
                vs == self.versions_view(),
                vs.len() == self.versions@.len(),
                forall|k: int|
                    0 <= k < r@.len() ==> r@[k] < i && version_contains(
                        self.spec_immutable(),
                        vs[r@[k] as int],
                        block as int,
                    ),
                forall|j: int|
                    0 <= j < i && version_contains(self.spec_immutable(), vs[j], block as int)
                        ==> exists|k: int| 0 <= k < r@.len() && #[trigger] r@[k] == j,
                forall|k1: int, k2: int| 0 <= k1 < k2 < r@.len() ==> r@[k1] < r@[k2],
            decreases self.versions.len() - i,
        {
            proof {
                assert(vs[i as int] == self.versions@[i as int]@);
            }
            let v = &self.versions[i];
            let visible = if self.immutable {
                block == BLOCK_NUMBER_MAX || v.lower <= block
            } else {
                v.lower <= block && (v.upper == BLOCK_NUMBER_MAX || block < v.upper)
            };
            let ghost r0 = r@;
            if visible {
                r.push(i);
                proof {
                    assert(r@ == r0.push(i));
                    assert(forall|k: int| 0 <= k < r0.len() ==> r@[k] == r0[k]);
                    assert(r@[r@.len() - 1] == i);
                    assert forall|j: int|
                        0 <= j <= i && version_contains(
                            self.spec_immutable(),
                            vs[j],
                            block as int,
                        ) implies exists|k: int| 0 <= k < r@.len() && #[trigger] r@[k] == j by {
                        if j < i {
                            let k = choose|k: int| 0 <= k < r0.len() && #[trigger] r0[k] == j;
                            assert(r@[k] == j);
                        } else {
                            assert(r@[r@.len() - 1] == j);
                        }
                    }
                }
            }
            i = i + 1;
        }
        r
    }

    /// Whether the version at `idx` is the current one: its upper bound
    /// is open, or the entity is immutable.
    pub fn is_current(&self, idx: usize) -> (r: bool)
        requires
            idx < self.versions_view().len(),
        ensures
            r == version_is_current(self.spec_immutable(), self.versions_view()[idx as int]),
    {
        proof {
            assert(self.versions_view()[idx as int] == self.versions@[idx as int]@);
        }
        self.immutable || self.versions[idx].upper == BLOCK_NUMBER_MAX
    }

    /// The indices of the versions whose lower bound is at least
    /// `block`: exactly the versions that became active at or after it.
    pub fn changed_since(&self, block: BlockNumber) -> (r: Vec<usize>)
        ensures
            forall|k: int|
                0 <= k < r@.len() ==> r@[k] < self.versions_view().len() && version_changed_since(
                    self.versions_view()[r@[k] as int],
                    block as int,
                ),
            forall|i: int|
                0 <= i < self.versions_view().len() && version_changed_since(
                    self.versions_view()[i],
                    block as int,
                ) ==> exists|k: int| 0 <= k < r@.len() && #[trigger] r@[k] == i,
            forall|k1: int, k2: int| 0 <= k1 < k2 < r@.len() ==> r@[k1] < r@[k2],
    {
        let ghost vs = self.versions_view();
        let mut r: Vec<usize> = Vec::new();
        let mut i: usize = 0;
        while i < self.versions.len()
            invariant
                i <= self.versions.len(),
                vs == self.versions_view(),
                vs.len() == self.versions@.len(),
                forall|k: int|
                    0 <= k < r@.len() ==> r@[k] < i && version_changed_since(
                        vs[r@[k] as int],
                        block as int,
                    ),
                forall|j: int|
                    0 <= j < i && version_changed_since(vs[j], block as int) ==> exists|k: int|
                        0 <= k < r@.len() && #[trigger] r@[k] == j,
                forall|k1: int, k2: int| 0 <= k1 < k2 < r@.len() ==> r@[k1] < r@[k2],
            decreases self.versions.len() - i,
        {
            proof {
                assert(vs[i as int] == self.versions@[i as int]@);
            }
            let ghost r0 = r@;
            if self.versions[i].lower >= block {
                r.push(i);
                proof {
                    assert(r@ == r0.push(i));
                    assert(forall|k: int| 0 <= k < r0.len() ==> r@[k] == r0[k]);
                    assert(r@[r@.len() - 1] == i);
                    assert forall|j: int|
                        0 <= j <= i && version_changed_since(vs[j], block as int) implies exists|
                        k: int|
                        0 <= k < r@.len() && #[trigger] r@[k] == j by {
                        if j < i {
                            let k = choose|k: int| 0 <= k < r0.len() && #[trigger] r0[k] == j;
                            assert(r@[k] == j);
                        } else {
                            assert(r@[r@.len() - 1] == j);
                        }
                    }
                }
            }
            i = i + 1;
        }
        r
    }
}

/// A table matches a key.
pub open spec fn table_has_key(t: VersionTable, id: Seq<char>, region: int) -> bool {
    t.spec_entity_id() == id && t.spec_causality_region() == region
}

/// The entity version store: versioned rows keyed by entity id,
/// causality region and block range, grouped into one table per
/// (entity id, causality region).
pub struct EntityVersionStore {
    tables: Vec<VersionTable>,
}

impl EntityVersionStore {
    /// The tables, as values.
    pub closed spec fn tables_view(&self) -> Seq<VersionTable> {
        self.tables@
    }

    /// Well-formedness: every table is well-formed and keys are pairwise
    /// distinct.
    pub open spec fn wf(&self) -> bool {
        &&& forall|i: int| 0 <= i < self.tables_view().len() ==> (#[trigger] self.tables_view()[
        i]).wf()
        &&& forall|i: int, j: int|
            0 <= i < self.tables_view().len() && 0 <= j < self.tables_view().len() && i != j ==> !(
            (#[trigger] self.tables_view()[i]).spec_entity_id() == (
            #[trigger] self.tables_view()[j]).spec_entity_id() && self.tables_view()[
            i].spec_causality_region() == self.tables_view()[j].spec_causality_region())
    }

    /// Whether a table for the key exists.
    pub open spec fn has_table(&self, id: Seq<char>, region: int) -> bool {
        exists|i: int|
            0 <= i < self.tables_view().len() && table_has_key(
                #[trigger] self.tables_view()[i],
                id,
                region,
            )
    }

    /// Position of the table for the key; meaningful only when it exists
    /// and keys are unique.
    pub open spec fn spec_table_index(&self, id: Seq<char>, region: int) -> int {
        choose|i: int|
            0 <= i < self.tables_view().len() && table_has_key(
                #[trigger] self.tables_view()[i],
                id,
                region,
            )
    }

    /// The table for the key; meaningful only when it exists and keys
    /// are unique.
    pub open spec fn spec_table(&self, id: Seq<char>, region: int) -> VersionTable {
        self.tables_view()[self.spec_table_index(id, region)]
    }

    /// An empty store.
    pub fn new() -> (r: EntityVersionStore)
        ensures
            r.wf(),
            r.tables_view() == Seq::<VersionTable>::empty(),
    {
        EntityVersionStore { tables: Vec::new() }
    }

    /// How many keys have a table.
    pub fn table_count(&self) -> (r: usize)
        ensures
            r == self.tables_view().len(),
    {
        self.tables.len()
    }

    /// Position of the table for the key, if any.
    fn find_table(&self, entity_id: &str, causality_region: i32) -> (r: Option<usize>)
        ensures
            match r {
                Some(i) => i < self.tables_view().len() && table_has_key(
                    self.tables_view()[i as int],
                    entity_id@,
                    causality_region as int,
                ),
                None => !self.has_table(entity_id@, causality_region as int),
            },
    {
        let ghost s = self.tables_view();
        let mut i: usize = 0;
        while i < self.tables.len()
            invariant
                i <= self.tables.len(),
                s == self.tables_view(),
                forall|j: int|
                    0 <= j < i ==> !table_has_key(
                        #[trigger] s[j],
                        entity_id@,
                        causality_region as int,
                    ),
            decreases self.tables.len() - i,
        {
            let t = &self.tables[i];
            if t.causality_region() == causality_region && crate::strutil::str_eq(
                t.entity_id(),
                entity_id,
            ) {
                return Some(i);
            }
            i = i + 1;
        }
        None
    }

    /// Register the key with an empty table. The key must be new.
    pub fn register(&mut self, entity_id: String, causality_region: i32, immutable: bool)
        requires
            old(self).wf(),
            !old(self).has_table(entity_id@, causality_region as int),
        ensures
            final(self).wf(),
            final(self).has_table(entity_id@, causality_region as int),
            ({
                let t = final(self).tables_view()[final(self).tables_view().len() - 1];
                &&& final(self).tables_view() == old(self).tables_view().push(t)
                &&& table_has_key(t, entity_id@, causality_region as int)
                &&& t.wf()
                &&& t.spec_immutable() == immutable
                &&& t.versions_view() == Seq::<EntityVersionV>::empty()
            }),
    {
        let ghost id = entity_id@;
        let t = VersionTable::new(entity_id, causality_region, immutable);
        self.tables.push(t);
        proof {
            let s0 = old(self).tables_view();
            let s1 = self.tables_view();
            assert(s1[s1.len() - 1] == t);
            assert(table_has_key(s1[s1.len() - 1], id, causality_region as int));
            assert forall|i: int, j: int|
                0 <= i < s1.len() && 0 <= j < s1.len() && i != j implies !((#[trigger] s1[
            i]).spec_entity_id() == (#[trigger] s1[j]).spec_entity_id() && s1[
            i].spec_causality_region() == s1[j].spec_causality_region()) by {
                if i < s0.len() && j < s0.len() {
                    assert(s1[i] == s0[i] && s1[j] == s0[j]);
                } else if i == s0.len() && j < s0.len() {
                    assert(s1[i] == t && s1[j] == s0[j]);
                    if table_has_key(s0[j], id, causality_region as int) {
                        assert(false);
                    }
                } else if j == s0.len() && i < s0.len() {
                    assert(s1[j] == t && s1[i] == s0[i]);
                    if table_has_key(s0[i], id, causality_region as int) {
                        assert(false);
                    }
                }
            }
        }
    }

    /// Read-only access to the table for the key.
    pub fn table(&self, entity_id: &str, causality_region: i32) -> (r: Option<&VersionTable>)
        requires
            self.wf(),
        ensures
            match r {
                Some(t) => self.has_table(entity_id@, causality_region as int) && *t
                    == self.spec_table(entity_id@, causality_region as int),
                None => !self.has_table(entity_id@, causality_region as int),
            },
    {
        match self.find_table(entity_id, causality_region) {
            Some(i) => {
                proof {
                    let ghost s = self.tables_view();
                    let j = choose|j: int|
                        0 <= j < s.len() && table_has_key(
                            #[trigger] s[j],
                            entity_id@,
                            causality_region as int,
                        );
                    assert(j == i as int);
                }
                Some(&self.tables[i])
            },
            None => None,
        }
    }

    /// Apply `op` to the table for the key by taking it out and putting
    /// the changed table back in the same position.
    #[verifier::inline]
    spec fn replaced(&self, i: int, t: VersionTable) -> Seq<VersionTable> {
        self.tables_view().update(i, t)
    }

    /// Write a new entity under the key: create its version valid from
    /// `block` on. The key must have a table whose versions allow a
    /// creation at `block`.
    pub fn create(
        &mut self,
        entity_id: &str,
        causality_region: i32,
        block: BlockNumber,
        attributes: serde_json::Value,
    )
        requires
            old(self).wf(),
            old(self).has_table(entity_id@, causality_region as int),
            block < BLOCK_NUMBER_MAX,
            ({
                let t = old(self).spec_table(entity_id@, causality_region as int);
                &&& (t.spec_immutable() ==> t.versions_view().len() == 0)
                &&& (!t.spec_immutable() ==> (t.versions_view().len() == 0 || (t.versions_view()[
                    t.versions_view().len() - 1].upper != BLOCK_NUMBER_MAX as int
                    && t.versions_view()[t.versions_view().len() - 1].upper <= block as int)))
            }),
        ensures
            final(self).wf(),
            ({
                let t0 = old(self).spec_table(entity_id@, causality_region as int);
                let t1 = final(self).spec_table(entity_id@, causality_region as int);
                &&& final(self).has_table(entity_id@, causality_region as int)
                &&& final(self).tables_view() == old(self).tables_view().update(
                    old(self).spec_table_index(entity_id@, causality_region as int),
                    final(self).spec_table(entity_id@, causality_region as int),
                )
                &&& t1.spec_entity_id() == t0.spec_entity_id()
                &&& t1.spec_causality_region() == t0.spec_causality_region()
                &&& t1.spec_immutable() == t0.spec_immutable()
                &&& t1.versions_view() == t0.versions_view().push(
                    version_value(block as int, BLOCK_NUMBER_MAX as int, attributes),
                )
            }),
    {
        let i = match self.find_table(entity_id, causality_region) {
            Some(i) => i,
            None => {
                proof {
                    assert(false);
                }
                return ;
            },
        };
        proof {
            self.lemma_found_is_the_table(i as int, entity_id@, causality_region as int);
        }
        let ghost s0 = self.tables_view();
        let mut t = self.tables.remove(i);
        t.create(block, attributes);
        self.tables.insert(i, t);
        proof {
            assert(self.tables_view() =~= s0.update(i as int, self.tables_view()[i as int]));
            self.lemma_found_is_the_table(i as int, entity_id@, causality_region as int);
        }
    }

    /// Supersede the current version under the key at `block`.
    pub fn update(
        &mut self,
        entity_id: &str,
        causality_region: i32,
        block: BlockNumber,
        attributes: serde_json::Value,
    )
        requires
            old(self).wf(),
            old(self).has_table(entity_id@, causality_region as int),
            block < BLOCK_NUMBER_MAX,
            ({
                let t = old(self).spec_table(entity_id@, causality_region as int);
                &&& !t.spec_immutable()
                &&& t.versions_view().len() > 0
                &&& t.versions_view()[t.versions_view().len() - 1].upper
                    == BLOCK_NUMBER_MAX as int
                &&& t.versions_view()[t.versions_view().len() - 1].lower < block as int
            }),
        ensures
            final(self).wf(),
            ({
                let t0 = old(self).spec_table(entity_id@, causality_region as int);
                let t1 = final(self).spec_table(entity_id@, causality_region as int);
                let vs0 = t0.versions_view();
                let last = vs0[vs0.len() - 1];
                &&& final(self).has_table(entity_id@, causality_region as int)
                &&& final(self).tables_view() == old(self).tables_view().update(
                    old(self).spec_table_index(entity_id@, causality_region as int),
                    final(self).spec_table(entity_id@, causality_region as int),
                )
                &&& t1.spec_entity_id() == t0.spec_entity_id()
                &&& t1.spec_causality_region() == t0.spec_causality_region()
                &&& t1.spec_immutable() == t0.spec_immutable()
                &&& t1.versions_view() == vs0.update(
                    vs0.len() - 1,
                    version_value(last.lower, block as int, last.attributes),
                ).push(version_value(block as int, BLOCK_NUMBER_MAX as int, attributes))
                &&& spans(t1.versions_view()) == clamp_insert(spans(vs0), block as int)
            }),
    {
        let i = match self.find_table(entity_id, causality_region) {
            Some(i) => i,
            None => {
                proof {
                    assert(false);
                }
                return ;
            },
        };
        proof {
            self.lemma_found_is_the_table(i as int, entity_id@, causality_region as int);
        }
        let ghost s0 = self.tables_view();
        let mut t = self.tables.remove(i);
        t.update(block, attributes);
        self.tables.insert(i, t);
        proof {
            assert(self.tables_view() =~= s0.update(i as int, self.tables_view()[i as int]));
            self.lemma_found_is_the_table(i as int, entity_id@, causality_region as int);
        }
    }

    /// Delete the entity under the key at `block`: clamp with no
    /// replacement.
    pub fn delete(&mut self, entity_id: &str, causality_region: i32, block: BlockNumber)
        requires
            old(self).wf(),
            old(self).has_table(entity_id@, causality_region as int),
            block < BLOCK_NUMBER_MAX,
            ({
                let t = old(self).spec_table(entity_id@, causality_region as int);
                &&& !t.spec_immutable()
                &&& t.versions_view().len() > 0
                &&& t.versions_view()[t.versions_view().len() - 1].upper
                    == BLOCK_NUMBER_MAX as int
                &&& t.versions_view()[t.versions_view().len() - 1].lower < block as int
            }),
        ensures
            final(self).wf(),
            ({
                let t0 = old(self).spec_table(entity_id@, causality_region as int);
                let t1 = final(self).spec_table(entity_id@, causality_region as int);
                let vs0 = t0.versions_view();
                let last = vs0[vs0.len() - 1];
                &&& final(self).has_table(entity_id@, causality_region as int)
                &&& final(self).tables_view() == old(self).tables_view().update(
                    old(self).spec_table_index(entity_id@, causality_region as int),
                    final(self).spec_table(entity_id@, causality_region as int),
                )
                &&& t1.spec_entity_id() == t0.spec_entity_id()
                &&& t1.spec_causality_region() == t0.spec_causality_region()
                &&& t1.spec_immutable() == t0.spec_immutable()
                &&& t1.versions_view() == vs0.update(
                    vs0.len() - 1,
                    version_value(last.lower, block as int, last.attributes),
                )
            }),
    {
        let i = match self.find_table(entity_id, causality_region) {
            Some(i) => i,
            None => {
                proof {
                    assert(false);
                }
                return ;
            },
        };
        proof {
            self.lemma_found_is_the_table(i as int, entity_id@, causality_region as int);
        }
        let ghost s0 = self.tables_view();
        let mut t = self.tables.remove(i);
        t.delete(block);
        self.tables.insert(i, t);
        proof {
            assert(self.tables_view() =~= s0.update(i as int, self.tables_view()[i as int]));
            self.lemma_found_is_the_table(i as int, entity_id@, causality_region as int);
        }
    }

    /// With unique keys, any position holding the key holds the table
    /// the key denotes.
    proof fn lemma_found_is_the_table(&self, i: int, id: Seq<char>, region: int)
        requires
            self.wf(),
            0 <= i < self.tables_view().len(),
            table_has_key(self.tables_view()[i], id, region),
        ensures
            self.has_table(id, region),
            self.spec_table_index(id, region) == i,
            self.spec_table(id, region) == self.tables_view()[i],
    {
        let s = self.tables_view();
        assert(self.has_table(id, region));
        let j = choose|j: int| 0 <= j < s.len() && table_has_key(#[trigger] s[j], id, region);
        if j != i {
            assert(false);
        }
    }
}

/// A version value, spelled out.
pub open spec fn version_value(lower: int, upper: int, attributes: serde_json::Value) -> EntityVersionV {
    EntityVersionV { lower, upper, attributes }
}

} // verus!
