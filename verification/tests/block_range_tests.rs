use graph_core::block_range::{
    block_number, first_block_in_range, BlockRange, BlockRangeColumn, BlockRangeLowerBoundClause,
    BlockRangeUpperBoundClause, BlockRangeValue, BoundSide, EntityBlockRange, RangeBound,
    SqlPiece, Table, BLOCK_NUMBER_MAX, BLOCK_UNVERSIONED,
};
use graph_core::types::{BlockHash, BlockPtr};

#[test]
fn block_number_max_is_i32_max() {
    assert_eq!(2147483647, BLOCK_NUMBER_MAX);
}

fn sql(p: &SqlPiece) -> &str {
    match p {
        SqlPiece::Sql(s) => s.as_str(),
        _ => panic!("expected raw sql"),
    }
}

fn ident(p: &SqlPiece) -> &str {
    match p {
        SqlPiece::Identifier(s) => s.as_str(),
        _ => panic!("expected an identifier"),
    }
}

fn bind(p: &SqlPiece) -> i32 {
    match p {
        SqlPiece::Bind(b) => *b,
        _ => panic!("expected a bound number"),
    }
}

#[test]
fn unversioned_range_has_no_first_block() {
    let r = BlockRange(RangeBound::Included(BLOCK_UNVERSIONED), RangeBound::Unbounded);
    assert_eq!(first_block_in_range(&r), None);
}

#[test]
fn first_block_of_ordinary_ranges() {
    assert_eq!(first_block_in_range(&BlockRange::from_bounds(5, 9)), Some(5));
    assert_eq!(first_block_in_range(&BlockRange::from_start(7)), Some(7));
    let excl = BlockRange(RangeBound::Excluded(5), RangeBound::Unbounded);
    assert_eq!(first_block_in_range(&excl), Some(6));
    let unb = BlockRange(RangeBound::Unbounded, RangeBound::Excluded(5));
    assert_eq!(first_block_in_range(&unb), None);
}

#[test]
fn block_number_reads_the_pointer() {
    let ptr = BlockPtr::new(42, BlockHash::new(vec![1, 2, 3]));
    assert_eq!(block_number(&ptr), 42);
}

#[test]
fn lower_bound_clause_sql_shape() {
    let c = BlockRangeLowerBoundClause::new("c.", 5);
    let mut out: Vec<SqlPiece> = Vec::new();
    c.walk_ast(&mut out);
    assert_eq!(out.len(), 4);
    assert_eq!(sql(&out[0]), "lower(");
    assert_eq!(ident(&out[1]), "block_range");
    assert_eq!(sql(&out[2]), ") = ");
    assert_eq!(bind(&out[3]), 5);
}

#[test]
fn upper_bound_clause_sql_shape() {
    let c = BlockRangeUpperBoundClause::new("c.", 7);
    let mut out: Vec<SqlPiece> = Vec::new();
    c.walk_ast(&mut out);
    assert_eq!(out.len(), 4);
    assert_eq!(sql(&out[0]), "coalesce(upper(");
    assert_eq!(ident(&out[1]), "block_range");
    assert_eq!(sql(&out[2]), "), 2147483647) = ");
    assert_eq!(bind(&out[3]), 7);
}

#[test]
fn entity_block_range_contains_lower_side() {
    let e = EntityBlockRange::new(false, 3..8, BoundSide::Lower);
    let mut out: Vec<SqlPiece> = Vec::new();
    e.contains(&mut out);
    assert_eq!(sql(&out[0]), " lower(block_range) ");
    assert_eq!(sql(&out[1]), ">= ");
    assert_eq!(bind(&out[2]), 3);
    assert_eq!(sql(&out[3]), " and");
    assert_eq!(sql(&out[4]), " lower(block_range) ");
    assert_eq!(sql(&out[5]), "<= ");
    assert_eq!(bind(&out[6]), 8);
    assert_eq!(out.len(), 7);
}

#[test]
fn entity_block_range_immutable_uses_block_column() {
    let e = EntityBlockRange::new(true, 3..8, BoundSide::Upper);
    let mut out: Vec<SqlPiece> = Vec::new();
    e.compare_column(&mut out);
    assert_eq!(sql(&out[0]), " block$ ");
}

#[test]
fn column_contains_plain() {
    let table = Table { immutable: false, is_account_like: false };
    let col = BlockRangeColumn::new(&table, "c.", 12);
    let mut out: Vec<SqlPiece> = Vec::new();
    col.contains(&mut out, false, false);
    assert_eq!(sql(&out[0]), "c.");
    assert_eq!(sql(&out[1]), "block_range");
    assert_eq!(sql(&out[2]), " @> ");
    assert_eq!(bind(&out[3]), 12);
    assert_eq!(out.len(), 4);
}

#[test]
fn column_contains_account_like_adds_redundant_conjunct() {
    let table = Table { immutable: false, is_account_like: true };
    let col = BlockRangeColumn::new(&table, "c.", 12);
    let mut out: Vec<SqlPiece> = Vec::new();
    col.contains(&mut out, false, false);
    assert_eq!(out.len(), 12);
    assert_eq!(sql(&out[4]), " and coalesce(upper(");
    assert_eq!(ident(&out[5]), "block_range");
    assert_eq!(sql(&out[6]), "), 2147483647) > ");
    assert_eq!(bind(&out[7]), 12);
    assert_eq!(sql(&out[8]), " and lower(");
    assert_eq!(ident(&out[9]), "block_range");
    assert_eq!(sql(&out[10]), ") <= ");
    assert_eq!(bind(&out[11]), 12);
}

#[test]
fn column_contains_filtered_by_id_skips_conjunct() {
    let table = Table { immutable: false, is_account_like: true };
    let col = BlockRangeColumn::new(&table, "c.", 12);
    let mut out: Vec<SqlPiece> = Vec::new();
    col.contains(&mut out, true, false);
    assert_eq!(out.len(), 4);
    let mut forced: Vec<SqlPiece> = Vec::new();
    col.contains(&mut forced, true, true);
    assert_eq!(forced.len(), 12);
}

#[test]
fn column_contains_immutable_at_sentinel_is_true() {
    let table = Table { immutable: true, is_account_like: false };
    let col = BlockRangeColumn::new(&table, "c.", BLOCK_NUMBER_MAX);
    let mut out: Vec<SqlPiece> = Vec::new();
    col.contains(&mut out, false, false);
    assert_eq!(out.len(), 1);
    assert_eq!(sql(&out[0]), "true");

    let col = BlockRangeColumn::new(&table, "c.", 9);
    let mut out: Vec<SqlPiece> = Vec::new();
    col.contains(&mut out, false, false);
    assert_eq!(sql(&out[0]), "c.");
    assert_eq!(sql(&out[1]), "block$");
    assert_eq!(sql(&out[2]), " <= ");
    assert_eq!(bind(&out[3]), 9);
}

#[test]
fn column_latest_and_name() {
    let table = Table { immutable: false, is_account_like: false };
    let col = BlockRangeColumn::new(&table, "c.", 3);
    let mut out: Vec<SqlPiece> = Vec::new();
    col.latest(&mut out);
    assert_eq!(sql(&out[0]), "block_range @> 2147483647");

    let table = Table { immutable: true, is_account_like: false };
    let col = BlockRangeColumn::new(&table, "c.", 3);
    let mut out: Vec<SqlPiece> = Vec::new();
    col.latest(&mut out);
    assert_eq!(sql(&out[0]), "true");
}

#[test]
fn column_clamp_sets_upper_bound() {
    let table = Table { immutable: false, is_account_like: false };
    let col = BlockRangeColumn::new(&table, "c.", 15);
    let mut out: Vec<SqlPiece> = Vec::new();
    col.clamp(&mut out);
    assert_eq!(sql(&out[0]), "c.");
    assert_eq!(sql(&out[1]), "block_range");
    assert_eq!(sql(&out[2]), " = int4range(lower(");
    assert_eq!(ident(&out[3]), "block_range");
    assert_eq!(sql(&out[4]), "), ");
    assert_eq!(bind(&out[5]), 15);
    assert_eq!(sql(&out[6]), ")");
}

#[test]
fn column_changed_since_tests_the_lower_bound() {
    let table = Table { immutable: false, is_account_like: false };
    let col = BlockRangeColumn::new(&table, "c.", 20);
    let mut out: Vec<SqlPiece> = Vec::new();
    col.changed_since(&mut out);
    assert_eq!(sql(&out[0]), "lower(");
    assert_eq!(ident(&out[1]), "block_range");
    assert_eq!(sql(&out[2]), ") >= ");
    assert_eq!(bind(&out[3]), 20);

    let table = Table { immutable: true, is_account_like: false };
    let col = BlockRangeColumn::new(&table, "c.", 20);
    let mut out: Vec<SqlPiece> = Vec::new();
    col.changed_since(&mut out);
    assert_eq!(ident(&out[0]), "block$");
    assert_eq!(sql(&out[1]), " >= ");
    assert_eq!(bind(&out[2]), 20);
}

#[test]
fn range_value_binds_point_or_range() {
    let table = Table { immutable: true, is_account_like: false };
    let v = BlockRangeValue::new(&table, 4, None);
    let mut out: Vec<SqlPiece> = Vec::new();
    v.walk_ast(&mut out);
    assert_eq!(bind(&out[0]), 4);

    let table = Table { immutable: false, is_account_like: false };
    let v = BlockRangeValue::new(&table, 4, Some(9));
    let mut out: Vec<SqlPiece> = Vec::new();
    v.walk_ast(&mut out);
    match &out[0] {
        SqlPiece::BindRange(BlockRange(RangeBound::Included(4), RangeBound::Excluded(9))) => {},
        _ => panic!("expected the bounded range"),
    }

    let v = BlockRangeValue::new(&table, 4, None);
    let mut out: Vec<SqlPiece> = Vec::new();
    v.walk_ast(&mut out);
    match &out[0] {
        SqlPiece::BindRange(BlockRange(RangeBound::Included(4), RangeBound::Unbounded)) => {},
        _ => panic!("expected the unbounded range"),
    }
}
