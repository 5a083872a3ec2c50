//! Block numbers and block ranges.
//!
//! An entity version is valid for a half-open interval `[lower, upper)` of
//! block numbers. Block numbers are 32-bit signed integers; `i32::MAX` is
//! reserved as the sentinel meaning "no upper bound", and `-1` marks
//! unversioned rows that are visible at every block.

use vstd::prelude::*;

use crate::types::BlockPtr;

verus! {

/// The type of a block number.
pub type BlockNumber = i32;

/// The largest representable block number; reserved as the sentinel for
/// "no upper bound" in a block range.
pub const BLOCK_NUMBER_MAX: i32 = 2147483647;

/// Lower bound of the block range of unversioned rows, which are visible
/// at every block.
pub const BLOCK_UNVERSIONED: i32 = -1;

/// One end of a block range.
#[derive(Clone, Copy, Debug, PartialEq, Eq, Structural)]
pub enum RangeBound {
    Included(BlockNumber),
    Excluded(BlockNumber),
    Unbounded,
}

/// The range of blocks for which an entity version is valid: a pair of a
/// lower and an upper bound.
#[derive(Clone, Copy, Debug, PartialEq, Eq, Structural)]
pub struct BlockRange(pub RangeBound, pub RangeBound);

impl BlockRange {
    /// The half-open range `[start, end)`.
    pub fn from_bounds(start: BlockNumber, end: BlockNumber) -> (r: BlockRange)
        ensures
            r == (BlockRange(RangeBound::Included(start), RangeBound::Excluded(end))),
    {
        BlockRange(RangeBound::Included(start), RangeBound::Excluded(end))
    }

    /// The unbounded range `[start, +infinity)`.
    pub fn from_start(start: BlockNumber) -> (r: BlockRange)
        ensures
            r == (BlockRange(RangeBound::Included(start), RangeBound::Unbounded)),
    {
        BlockRange(RangeBound::Included(start), RangeBound::Unbounded)
    }
}

/// The range of unversioned rows: `[-1, +infinity)`.
pub open spec fn unversioned_range() -> BlockRange {
    BlockRange(RangeBound::Included(BLOCK_UNVERSIONED as i32), RangeBound::Unbounded)
}

/// The first concrete block number a range covers, or `None` for the
/// unversioned sentinel range and for ranges unbounded below.
pub fn first_block_in_range(bound: &BlockRange) -> (r: Option<BlockNumber>)
    ensures
        r == (if *bound == unversioned_range() {
            None::<BlockNumber>
        } else {
            match bound.0 {
                RangeBound::Included(nr) => Some(nr),
                RangeBound::Excluded(nr) => if nr < BLOCK_NUMBER_MAX {
                    Some((nr + 1) as i32)
                } else {
                    None::<BlockNumber>
                },
                RangeBound::Unbounded => None::<BlockNumber>,
            }
        }),
{
    if *bound == BlockRange(RangeBound::Included(BLOCK_UNVERSIONED), RangeBound::Unbounded) {
        return None;
    }
    match bound.0 {
        RangeBound::Included(nr) => Some(nr),
        RangeBound::Excluded(nr) => {
            if nr < BLOCK_NUMBER_MAX {
                Some(nr + 1)
            } else {
                None
            }
        },
        RangeBound::Unbounded => None,
    }
}

/// The block number a block pointer carries.
pub fn block_number(block_ptr: &BlockPtr) -> (r: BlockNumber)
    ensures
        r as int == block_ptr@.number,
{
    block_ptr.number
}

/// A mutable version's range `[lower, upper)` contains `block`; an
/// upper bound equal to `BLOCK_NUMBER_MAX` means "no upper bound".
pub open spec fn range_contains(lower: int, upper: int, block: int) -> bool {
    lower <= block && (upper == BLOCK_NUMBER_MAX as int || block < upper)
}

/// The optional conjunct `upper > block and lower <= block` that steers
/// the storage engine toward a coarse range index is redundant: below
/// the sentinel it is equivalent to containment, so adding it never
/// changes the result set.
pub proof fn lemma_brin_conjunct_redundant(lower: int, upper: int, block: int)
    requires
        block < BLOCK_NUMBER_MAX as int,
    ensures
        range_contains(lower, upper, block) <==> (upper > block && lower <= block),
{
}

/// What the block-range logic reads of a table: whether its entities
/// are immutable, and whether it is account-like (one row mutated over
/// and over), which makes the coarse range index worthwhile.
#[derive(Clone, Copy, Debug, PartialEq, Eq, Structural)]
pub struct Table {
    pub immutable: bool,
    pub is_account_like: bool,
}

/// One element of a generated query fragment: raw SQL text, a quoted
/// identifier, a bound block number, or a bound block range. The query
/// layer renders these in order.
#[derive(Debug)]
pub enum SqlPiece {
    Sql(String),
    Identifier(String),
    Bind(BlockNumber),
    BindRange(BlockRange),
}

/// The mathematical value of one query-fragment element.
pub ghost enum SqlPieceV {
    Sql(Seq<char>),
    Identifier(Seq<char>),
    Bind(int),
    BindRange(BlockRange),
}

impl View for SqlPiece {
    type V = SqlPieceV;

    open spec fn view(&self) -> SqlPieceV {
        match self {
            SqlPiece::Sql(s) => SqlPieceV::Sql(s@),
            SqlPiece::Identifier(s) => SqlPieceV::Identifier(s@),
            SqlPiece::Bind(b) => SqlPieceV::Bind(*b as int),
            SqlPiece::BindRange(r) => SqlPieceV::BindRange(*r),
        }
    }
}

/// The fragment elements of `s`, as mathematical values.
pub open spec fn views(s: Seq<SqlPiece>) -> Seq<SqlPieceV> {
    s.map_values(|p: SqlPiece| p@)
}

/// `lower("block_range") = $block`: selects rows whose range starts
/// exactly at `block`.
pub open spec fn lower_bound_clause_sql(block: int) -> Seq<SqlPieceV> {
    seq![
        SqlPieceV::Sql("lower("@),
        SqlPieceV::Identifier("block_range"@),
        SqlPieceV::Sql(") = "@),
        SqlPieceV::Bind(block),
    ]
}

/// `coalesce(upper("block_range"), 2147483647) = $block`: selects rows
/// whose range ends exactly at `block`, counting an unbounded range as
/// ending at the sentinel.
pub open spec fn upper_bound_clause_sql(block: int) -> Seq<SqlPieceV> {
    seq![
        SqlPieceV::Sql("coalesce(upper("@),
        SqlPieceV::Identifier("block_range"@),
        SqlPieceV::Sql("), 2147483647) = "@),
        SqlPieceV::Bind(block),
    ]
}

/// Selects rows whose range starts at `block`.
#[derive(Debug)]
pub struct BlockRangeLowerBoundClause {
    pub table_prefix: String,
    pub block: BlockNumber,
}

impl BlockRangeLowerBoundClause {
    pub fn new(table_prefix: &str, block: BlockNumber) -> (r: BlockRangeLowerBoundClause)
        ensures
            r.block == block,
    {
        BlockRangeLowerBoundClause { table_prefix: table_prefix.to_owned(), block }
    }

    /// Append the clause's fragment elements to `out`.
    pub fn walk_ast(&self, out: &mut Vec<SqlPiece>)
        ensures
            views(final(out)@) == views(old(out)@) + lower_bound_clause_sql(self.block as int),
    {
        let ghost v0 = views(out@);
        out.push(SqlPiece::Sql(String::from_str("lower(")));
        out.push(SqlPiece::Identifier(String::from_str("block_range")));
        out.push(SqlPiece::Sql(String::from_str(") = ")));
        out.push(SqlPiece::Bind(self.block));
        proof {
            assert(views(out@) =~= v0 + lower_bound_clause_sql(self.block as int));
        }
    }
}

/// Selects rows whose range ends at `block`.
#[derive(Debug)]
pub struct BlockRangeUpperBoundClause {
    pub table_prefix: String,
    pub block: BlockNumber,
}

impl BlockRangeUpperBoundClause {
    pub fn new(table_prefix: &str, block: BlockNumber) -> (r: BlockRangeUpperBoundClause)
        ensures
            r.block == block,
    {
        BlockRangeUpperBoundClause { table_prefix: table_prefix.to_owned(), block }
    }

    /// Append the clause's fragment elements to `out`.
    pub fn walk_ast(&self, out: &mut Vec<SqlPiece>)
        ensures
            views(final(out)@) == views(old(out)@) + upper_bound_clause_sql(self.block as int),
    {
        let ghost v0 = views(out@);
        out.push(SqlPiece::Sql(String::from_str("coalesce(upper(")));
        out.push(SqlPiece::Identifier(String::from_str("block_range")));
        out.push(SqlPiece::Sql(String::from_str("), 2147483647) = ")));
        out.push(SqlPiece::Bind(self.block));
        proof {
            assert(views(out@) =~= v0 + upper_bound_clause_sql(self.block as int));
        }
    }
}

/// Which border of a block range a change query compares.
#[derive(Clone, Copy, Debug, PartialEq, Eq, Structural)]
pub enum BoundSide {
    Lower,
    Upper,
}

/// Selects entities whose version border falls inside an interval of
/// blocks: exactly the rows that would raise a change event there.
#[derive(Clone, Copy, Debug)]
pub enum EntityBlockRange {
    Mutable((BlockRange, BoundSide)),
    Immutable(BlockRange),
}

/// The column an `EntityBlockRange` comparison reads: the chosen border
/// of the range for mutable entities, the creation block for immutable
/// ones.
pub open spec fn entity_compare_column_sql(e: EntityBlockRange) -> Seq<SqlPieceV> {
    match e {
        EntityBlockRange::Mutable((_r, BoundSide::Lower)) => seq![
            SqlPieceV::Sql(" lower(block_range) "@),
        ],
        EntityBlockRange::Mutable((_r, BoundSide::Upper)) => seq![
            SqlPieceV::Sql(" upper(block_range) "@),
        ],
        EntityBlockRange::Immutable(_r) => seq![SqlPieceV::Sql(" block$ "@)],
    }
}

/// The lower end of the interval, as bound values: an excluded start is
/// shifted up by one.
pub open spec fn bound_start_sql(b: RangeBound) -> Seq<SqlPieceV> {
    match b {
        RangeBound::Included(n) => seq![SqlPieceV::Bind(n as int)],
        RangeBound::Excluded(n) => seq![SqlPieceV::Bind(n as int), SqlPieceV::Sql("+1"@)],
        RangeBound::Unbounded => Seq::empty(),
    }
}

/// The upper end of the interval, as bound values: an included end is
/// shifted up by one.
pub open spec fn bound_finish_sql(b: RangeBound) -> Seq<SqlPieceV> {
    match b {
        RangeBound::Included(n) => seq![SqlPieceV::Bind(n as int), SqlPieceV::Sql("+1"@)],
        RangeBound::Excluded(n) => seq![SqlPieceV::Bind(n as int)],
        RangeBound::Unbounded => Seq::empty(),
    }
}

/// The whole interval comparison: `column >= start and column <= end`.
pub open spec fn entity_contains_sql(e: EntityBlockRange) -> Seq<SqlPieceV> {
    let r = match e {
        EntityBlockRange::Mutable((br, _)) => br,
        EntityBlockRange::Immutable(br) => br,
    };
    entity_compare_column_sql(e) + seq![SqlPieceV::Sql(">= "@)] + bound_start_sql(r.0) + seq![
        SqlPieceV::Sql(" and"@),
    ] + entity_compare_column_sql(e) + seq![SqlPieceV::Sql("<= "@)] + bound_finish_sql(r.1)
}

impl EntityBlockRange {
    pub fn new(
        immutable: bool,
        block_range: std::ops::Range<BlockNumber>,
        bound_side: BoundSide,
    ) -> (r: EntityBlockRange)
        ensures
            r == (if immutable {
                EntityBlockRange::Immutable(
                    BlockRange(
                        RangeBound::Included(block_range.start),
                        RangeBound::Excluded(block_range.end),
                    ),
                )
            } else {
                EntityBlockRange::Mutable(
                    (
                        BlockRange(
                            RangeBound::Included(block_range.start),
                            RangeBound::Excluded(block_range.end),
                        ),
                        bound_side,
                    ),
                )
            }),
    {
        let start: RangeBound = RangeBound::Included(block_range.start);
        let end: RangeBound = RangeBound::Excluded(block_range.end);
        let block_range = BlockRange(start, end);
        if immutable {
            EntityBlockRange::Immutable(block_range)
        } else {
            EntityBlockRange::Mutable((block_range, bound_side))
        }
    }

    /// The range this comparison works over.
    pub open spec fn spec_range(&self) -> BlockRange {
        match self {
            EntityBlockRange::Mutable((br, _)) => *br,
            EntityBlockRange::Immutable(br) => *br,
        }
    }

    /// Append SQL that matches only rows whose entities would raise a
    /// change event inside the interval: the compared border lies
    /// between the interval's ends.
    pub fn contains(&self, out: &mut Vec<SqlPiece>)
        requires
            !(self.spec_range().0 is Unbounded),
            !(self.spec_range().1 is Unbounded),
        ensures
            views(final(out)@) == views(old(out)@) + entity_contains_sql(*self),
    {
        let ghost v0 = views(out@);
        let block_range = match self {
            EntityBlockRange::Mutable((br, _)) => br,
            EntityBlockRange::Immutable(br) => br,
        };
        let BlockRange(start, finish) = *block_range;
        self.compare_column(out);
        let ghost v1 = views(out@);
        out.push(SqlPiece::Sql(String::from_str(">= ")));
        match start {
            RangeBound::Included(block) => out.push(SqlPiece::Bind(block)),
            RangeBound::Excluded(block) => {
                out.push(SqlPiece::Bind(block));
                out.push(SqlPiece::Sql(String::from_str("+1")));
            },
            RangeBound::Unbounded => {},
        }
        out.push(SqlPiece::Sql(String::from_str(" and")));
        proof {
            assert(views(out@) =~= v1 + seq![SqlPieceV::Sql(">= "@)] + bound_start_sql(start)
                + seq![SqlPieceV::Sql(" and"@)]);
        }
        let ghost v2 = views(out@);
        self.compare_column(out);
        let ghost v3 = views(out@);
        out.push(SqlPiece::Sql(String::from_str("<= ")));
        match finish {
            RangeBound::Included(block) => {
                out.push(SqlPiece::Bind(block));
                out.push(SqlPiece::Sql(String::from_str("+1")));
            },
            RangeBound::Excluded(block) => out.push(SqlPiece::Bind(block)),
            RangeBound::Unbounded => {},
        }
        proof {
            assert(views(out@) =~= v3 + seq![SqlPieceV::Sql("<= "@)] + bound_finish_sql(
                finish,
            ));
            assert(views(out@) =~= v0 + entity_contains_sql(*self));
        }
    }

    /// Append the name of the compared column.
    pub fn compare_column(&self, out: &mut Vec<SqlPiece>)
        ensures
            views(final(out)@) == views(old(out)@) + entity_compare_column_sql(*self),
    {
        let ghost v0 = views(out@);
        match self {
            EntityBlockRange::Mutable((_, BoundSide::Lower)) => {
                out.push(SqlPiece::Sql(String::from_str(" lower(block_range) ")));
            },
            EntityBlockRange::Mutable((_, BoundSide::Upper)) => {
                out.push(SqlPiece::Sql(String::from_str(" upper(block_range) ")));
            },
            EntityBlockRange::Immutable(_) => {
                out.push(SqlPiece::Sql(String::from_str(" block$ ")));
            },
        }
        proof {
            assert(views(out@) =~= v0 + entity_compare_column_sql(*self));
        }
    }
}

/// Generates the block-range fragments that select or mutate entity
/// versions in a table: containment at a block, the current version, a
/// clamp, and a change feed.
#[derive(Debug)]
pub enum BlockRangeColumn {
    Mutable { table: Table, table_prefix: String, block: BlockNumber },
    Immutable { table: Table, table_prefix: String, block: BlockNumber },
}

/// The qualified name of the block range column (mutable tables) or of
/// the creation block column (immutable tables).
pub open spec fn column_name_sql(c: BlockRangeColumn) -> Seq<SqlPieceV> {
    match c {
        BlockRangeColumn::Mutable { table_prefix, .. } => seq![
            SqlPieceV::Sql(table_prefix@),
            SqlPieceV::Sql("block_range"@),
        ],
        BlockRangeColumn::Immutable { table_prefix, .. } => seq![
            SqlPieceV::Sql(table_prefix@),
            SqlPieceV::Sql("block$"@),
        ],
    }
}

/// Containment of `block`, with the redundant range-index conjunct for
/// account-like tables when the caller does not filter by id (or the
/// configuration forces it). The conjunct never changes the result set.
pub open spec fn column_contains_sql(
    c: BlockRangeColumn,
    filters_by_id: bool,
    use_brin_for_all_query_types: bool,
) -> Seq<SqlPieceV> {
    match c {
        BlockRangeColumn::Mutable { table, block, .. } => {
            let base = column_name_sql(c) + seq![SqlPieceV::Sql(" @> "@), SqlPieceV::Bind(block as int)];
            let should_use_brin = !filters_by_id || use_brin_for_all_query_types;
            if table.is_account_like && block < BLOCK_NUMBER_MAX && should_use_brin {
                base + seq![
                    SqlPieceV::Sql(" and coalesce(upper("@),
                    SqlPieceV::Identifier("block_range"@),
                    SqlPieceV::Sql("), 2147483647) > "@),
                    SqlPieceV::Bind(block as int),
                    SqlPieceV::Sql(" and lower("@),
                    SqlPieceV::Identifier("block_range"@),
                    SqlPieceV::Sql(") <= "@),
                    SqlPieceV::Bind(block as int),
                ]
            } else {
                base
            }
        },
        BlockRangeColumn::Immutable { block, .. } => {
            if block == BLOCK_NUMBER_MAX {
                seq![SqlPieceV::Sql("true"@)]
            } else {
                column_name_sql(c) + seq![SqlPieceV::Sql(" <= "@), SqlPieceV::Bind(block as int)]
            }
        },
    }
}

/// The expression selecting the latest version: the sentinel is in the
/// range (mutable), or unconditionally true (immutable).
pub open spec fn column_latest_sql(c: BlockRangeColumn) -> Seq<SqlPieceV> {
    match c {
        BlockRangeColumn::Mutable { .. } => seq![SqlPieceV::Sql("block_range @> 2147483647"@)],
        BlockRangeColumn::Immutable { .. } => seq![SqlPieceV::Sql("true"@)],
    }
}

/// The mutation closing a mutable row's range at `block`, keeping its
/// lower bound.
pub open spec fn column_clamp_sql(c: BlockRangeColumn) -> Seq<SqlPieceV> {
    match c {
        BlockRangeColumn::Mutable { block, .. } => column_name_sql(c) + seq![
            SqlPieceV::Sql(" = int4range(lower("@),
            SqlPieceV::Identifier("block_range"@),
            SqlPieceV::Sql("), "@),
            SqlPieceV::Bind(block as int),
            SqlPieceV::Sql(")"@),
        ],
        BlockRangeColumn::Immutable { .. } => Seq::empty(),
    }
}

/// The expression selecting rows changed at or after `block`: a
/// lower-bound test (mutable) or a creation-block test (immutable).
pub open spec fn column_changed_since_sql(c: BlockRangeColumn) -> Seq<SqlPieceV> {
    match c {
        BlockRangeColumn::Mutable { block, .. } => seq![
            SqlPieceV::Sql("lower("@),
            SqlPieceV::Identifier("block_range"@),
            SqlPieceV::Sql(") >= "@),
            SqlPieceV::Bind(block as int),
        ],
        BlockRangeColumn::Immutable { block, .. } => seq![
            SqlPieceV::Identifier("block$"@),
            SqlPieceV::Sql(" >= "@),
            SqlPieceV::Bind(block as int),
        ],
    }
}

impl BlockRangeColumn {
    pub fn new(table: &Table, table_prefix: &str, block: BlockNumber) -> (r: BlockRangeColumn)
        ensures
            ({
                match r {
                    BlockRangeColumn::Mutable { table: t, table_prefix: p, block: b } => {
                        !table.immutable && t == *table && p@ == table_prefix@ && b == block
                    },
                    BlockRangeColumn::Immutable { table: t, table_prefix: p, block: b } => {
                        table.immutable && t == *table && p@ == table_prefix@ && b == block
                    },
                }
            }),
    {
        if table.immutable {
            BlockRangeColumn::Immutable {
                table: *table,
                table_prefix: table_prefix.to_owned(),
                block,
            }
        } else {
            BlockRangeColumn::Mutable {
                table: *table,
                table_prefix: table_prefix.to_owned(),
                block,
            }
        }
    }

    /// Append SQL that matches only rows whose block range contains
    /// `block`. `filters_by_id` only steers index choice; it never
    /// changes the result set.
    pub fn contains(
        &self,
        out: &mut Vec<SqlPiece>,
        filters_by_id: bool,
        use_brin_for_all_query_types: bool,
    )
        ensures
            views(final(out)@) == views(old(out)@) + column_contains_sql(
                *self,
                filters_by_id,
                use_brin_for_all_query_types,
            ),
    {
        let ghost v0 = views(out@);
        match self {
            BlockRangeColumn::Mutable { table, block, .. } => {
                self.name(out);
                let ghost v1 = views(out@);
                out.push(SqlPiece::Sql(String::from_str(" @> ")));
                out.push(SqlPiece::Bind(*block));
                proof {
                    assert(views(out@) =~= v1 + seq![
                        SqlPieceV::Sql(" @> "@),
                        SqlPieceV::Bind(*block as int),
                    ]);
                }
                let ghost v2 = views(out@);
                let should_use_brin = !filters_by_id || use_brin_for_all_query_types;
                if table.is_account_like && *block < BLOCK_NUMBER_MAX && should_use_brin {
                    out.push(SqlPiece::Sql(String::from_str(" and coalesce(upper(")));
                    out.push(SqlPiece::Identifier(String::from_str("block_range")));
                    out.push(SqlPiece::Sql(String::from_str("), 2147483647) > ")));
                    out.push(SqlPiece::Bind(*block));
                    out.push(SqlPiece::Sql(String::from_str(" and lower(")));
                    out.push(SqlPiece::Identifier(String::from_str("block_range")));
                    out.push(SqlPiece::Sql(String::from_str(") <= ")));
                    out.push(SqlPiece::Bind(*block));
                    proof {
                        assert(views(out@) =~= v2 + seq![
                            SqlPieceV::Sql(" and coalesce(upper("@),
                            SqlPieceV::Identifier("block_range"@),
                            SqlPieceV::Sql("), 2147483647) > "@),
                            SqlPieceV::Bind(*block as int),
                            SqlPieceV::Sql(" and lower("@),
                            SqlPieceV::Identifier("block_range"@),
                            SqlPieceV::Sql(") <= "@),
                            SqlPieceV::Bind(*block as int),
                        ]);
                    }
                }
            },
            BlockRangeColumn::Immutable { block, .. } => {
                if *block == BLOCK_NUMBER_MAX {
                    // Comparing the creation block against the sentinel is
                    // always true; skip the real comparison.
                    out.push(SqlPiece::Sql(String::from_str("true")));
                } else {
                    self.name(out);
                    let ghost v1 = views(out@);
                    out.push(SqlPiece::Sql(String::from_str(" <= ")));
                    out.push(SqlPiece::Bind(*block));
                    proof {
                        assert(views(out@) =~= v1 + seq![
                            SqlPieceV::Sql(" <= "@),
                            SqlPieceV::Bind(*block as int),
                        ]);
                    }
                }
            },
        }
        proof {
            assert(views(out@) =~= v0 + column_contains_sql(
                *self,
                filters_by_id,
                use_brin_for_all_query_types,
            ));
        }
    }

    /// Append the qualified name of the block range column.
    pub fn name(&self, out: &mut Vec<SqlPiece>)
        ensures
            views(final(out)@) == views(old(out)@) + column_name_sql(*self),
    {
        let ghost v0 = views(out@);
        match self {
            BlockRangeColumn::Mutable { table_prefix, .. } => {
                out.push(SqlPiece::Sql(table_prefix.clone()));
                out.push(SqlPiece::Sql(String::from_str("block_range")));
            },
            BlockRangeColumn::Immutable { table_prefix, .. } => {
                out.push(SqlPiece::Sql(table_prefix.clone()));
                out.push(SqlPiece::Sql(String::from_str("block$")));
            },
        }
        proof {
            assert(views(out@) =~= v0 + column_name_sql(*self));
        }
    }

    /// Append an expression matching rows that are the latest version of
    /// their entity.
    pub fn latest(&self, out: &mut Vec<SqlPiece>)
        ensures
            views(final(out)@) == views(old(out)@) + column_latest_sql(*self),
    {
        let ghost v0 = views(out@);
        match self {
            BlockRangeColumn::Mutable { .. } => {
                out.push(SqlPiece::Sql(String::from_str("block_range @> 2147483647")));
            },
            BlockRangeColumn::Immutable { .. } => {
                out.push(SqlPiece::Sql(String::from_str("true")));
            },
        }
        proof {
            assert(views(out@) =~= v0 + column_latest_sql(*self));
        }
    }

    /// Append SQL that updates the block range column so that the row is
    /// only valid up to `block` (exclusive). Immutable entities are
    /// never updated or deleted, so clamping one is a contract
    /// violation, kept out by the precondition.
    pub fn clamp(&self, out: &mut Vec<SqlPiece>)
        requires
            self is Mutable,
        ensures
            views(final(out)@) == views(old(out)@) + column_clamp_sql(*self),
    {
        let ghost v0 = views(out@);
        match self {
            BlockRangeColumn::Mutable { block, .. } => {
                self.name(out);
                let ghost v1 = views(out@);
                out.push(SqlPiece::Sql(String::from_str(" = int4range(lower(")));
                out.push(SqlPiece::Identifier(String::from_str("block_range")));
                out.push(SqlPiece::Sql(String::from_str("), ")));
                out.push(SqlPiece::Bind(*block));
                out.push(SqlPiece::Sql(String::from_str(")")));
                proof {
                    assert(views(out@) =~= v1 + seq![
                        SqlPieceV::Sql(" = int4range(lower("@),
                        SqlPieceV::Identifier("block_range"@),
                        SqlPieceV::Sql("), "@),
                        SqlPieceV::Bind(*block as int),
                        SqlPieceV::Sql(")"@),
                    ]);
                }
            },
            BlockRangeColumn::Immutable { .. } => {},
        }
        proof {
            assert(views(out@) =~= v0 + column_clamp_sql(*self));
        }
    }

    /// Append an expression matching all rows changed at or after
    /// `block`.
    pub fn changed_since(&self, out: &mut Vec<SqlPiece>)
        ensures
            views(final(out)@) == views(old(out)@) + column_changed_since_sql(*self),
    {
        let ghost v0 = views(out@);
        match self {
            BlockRangeColumn::Mutable { block, .. } => {
                out.push(SqlPiece::Sql(String::from_str("lower(")));
                out.push(SqlPiece::Identifier(String::from_str("block_range")));
                out.push(SqlPiece::Sql(String::from_str(") >= ")));
                out.push(SqlPiece::Bind(*block));
            },
            BlockRangeColumn::Immutable { block, .. } => {
                out.push(SqlPiece::Identifier(String::from_str("block$")));
                out.push(SqlPiece::Sql(String::from_str(" >= ")));
                out.push(SqlPiece::Bind(*block));
            },
        }
        proof {
            assert(views(out@) =~= v0 + column_changed_since_sql(*self));
        }
    }
}

/// The value bound for the block or block range column when a row is
/// inserted.
#[derive(Clone, Copy, Debug, PartialEq, Eq, Structural)]
pub enum BlockRangeValue {
    Immutable(BlockNumber),
    Mutable(BlockRange),
}

/// The bound value: the creation block (immutable) or the whole range
/// (mutable).
pub open spec fn range_value_sql(v: BlockRangeValue) -> Seq<SqlPieceV> {
    match v {
        BlockRangeValue::Immutable(block) => seq![SqlPieceV::Bind(block as int)],
        BlockRangeValue::Mutable(range) => seq![SqlPieceV::BindRange(range)],
    }
}

impl BlockRangeValue {
    pub fn new(table: &Table, block: BlockNumber, end: Option<BlockNumber>) -> (r:
        BlockRangeValue)
        ensures
            r == (if table.immutable {
                BlockRangeValue::Immutable(block)
            } else {
                match end {
                    Some(e) => BlockRangeValue::Mutable(
                        BlockRange(RangeBound::Included(block), RangeBound::Excluded(e)),
                    ),
                    None => BlockRangeValue::Mutable(
                        BlockRange(RangeBound::Included(block), RangeBound::Unbounded),
                    ),
                }
            }),
    {
        if table.immutable {
            BlockRangeValue::Immutable(block)
        } else {
            match end {
                Some(e) => BlockRangeValue::Mutable(BlockRange::from_bounds(block, e)),
                None => BlockRangeValue::Mutable(BlockRange::from_start(block)),
            }
        }
    }

    /// Append the bound value.
    pub fn walk_ast(&self, out: &mut Vec<SqlPiece>)
        ensures
            views(final(out)@) == views(old(out)@) + range_value_sql(*self),
    {
        let ghost v0 = views(out@);
        match self {
            BlockRangeValue::Immutable(block) => {
                out.push(SqlPiece::Bind(*block));
            },
            BlockRangeValue::Mutable(range) => {
                out.push(SqlPiece::BindRange(*range));
            },
        }
        proof {
            assert(views(out@) =~= v0 + range_value_sql(*self));
        }
    }
}

} // verus!
