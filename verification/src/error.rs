//! What a statement can be turned down for, and the sentence each refusal carries.

use vstd::prelude::*;
use crate::text::push_dec;

verus! {

/// A construct that is recognised and declined.
#[derive(Clone, Copy, PartialEq, Eq, Debug, Structural)]
pub enum Refused {
    /// A join this engine cannot pair records for: one that names no key at all - a comma
    /// between tables, `CROSS JOIN`, `NATURAL JOIN` - or one that would need a table grouped by
    /// two keys at once.
    Joins,
    /// An outer join, which names a key and then has to produce a row for a record with no
    /// partner under it.
    OuterJoin,
    /// A join condition that is not one equality between two columns.
    JoinOn,
    /// An aggregate, or a select list, a join cannot answer.
    JoinShape,
    /// A column that does not say which of a join's tables it belongs to.
    Ambiguous,
    /// A `WHERE` term that names two of a join's tables where they cannot be separated.
    JoinFilter,
    /// A semi-join whose inner set is larger than the union it would expand into.
    SetTooLarge,
    /// `EXPLAIN` over a statement containing a semi-join.
    ExplainSet,
    /// A `SEGMENT(...)` that reached the lowering, which means nothing expanded it.
    Segment,
    /// A `SEGMENT(...)` naming a view of a table this statement does not read.
    SegmentTable,
    /// A subquery, a CTE, or `UNION` between two selects.
    Subquery,
    /// A `HAVING` that names an aggregate the answer does not carry.
    Having,
    /// A window where the answer is numbers about sets rather than rows.
    Window,
    /// `ORDER BY` something the answer holds no number or key for.
    Order,
    /// `OFFSET` where the answer is not a list of groups.
    Offset,
    /// An expression in the select list that names anything but exactly one column.
    Expression,
    /// `DISTINCT` over anything but one keyed column inside `count`.
    MultiDistinct,
    /// `IS NULL` or `IS NOT NULL`.
    Null,
    /// `MERGE`, `REPLACE`, or a schema change this engine has no operation behind.
    Write,
    /// An `INSERT` with no column list, which would be positional against a field order the
    /// statement does not carry.
    InsertColumns,
    /// An `id` that is not a whole number.
    InsertId,
    /// A field declared as `_record_id`, which is the name the record itself answers under.
    IdColumn,
    /// An `INSERT ... SELECT` whose query answers with something other than values.
    InsertSelect,
    /// `INSERT INTO t ... SELECT ... FROM t`: one table on both sides of one statement.
    InsertSelfRead,
    /// More rows in one `INSERT` than a statement may carry.
    InsertSize,
    /// `DELETE FROM t` with no `WHERE`, which names every record.
    DeleteAll,
    /// A delete whose `WHERE` selects more records than one transaction may clear.
    DeleteTooLarge,
    /// An `UPDATE` naming a column where writing a value adds one rather than replacing it.
    UpdateColumn,
    /// `USE`, which asks a stateless surface to remember something between statements.
    SessionUse,
    /// `SET`, `SET SESSION`, `SHOW VARIABLES`: a limit asked to outlive the statement it bounds.
    SessionSetting,
    /// A key in a `SETTINGS` clause that names no limit this engine reads.
    Setting,
    /// A `KILL` that names something other than one running query by its id.
    KillTarget,
    /// `TTL ts + INTERVAL 90 DAY`: retention as a standing promise.
    DeclarativeTtl,
    /// A name under `system.` this build does not have.
    SystemTable,
    /// A clause a system view does not take.
    SystemClause,
    /// `sales.orders.amount`: a column qualified by more than an alias.
    ThreePartName,
    /// A materialised view. A plain one exists - see `Ddl::CreateView`.
    MaterializedView,
    /// A view body that is not a filter and a projection over one table.
    ViewBody,
    /// A statement naming a column its view does not expose.
    ViewColumn,
    /// Views nested past `MAX_VIEW_DEPTH`.
    ViewDepth,
    /// `CASE <expr> WHEN <value> THEN ...`: the simple form of a case, which this dialect does
    /// not read.
    Case,
    /// `CAST`, `toInt64`, `toString`: a conversion between representations that do not convert.
    Cast,
    /// An aggregate this engine has no fold for — `argMin`, `stddev`, `corr`, `any`.
    Aggregate,
    /// `bitmap_and`, `bitmap_count`, `bsi_sum`, `to_bitmap`: a bitmap named as a value to pass
    /// between functions.
    BitmapFunction,
    /// `MODIFY`, `ALTER COLUMN` or `CHANGE`: a field's kind and depth are what its bit planes
    /// are, and there is no operation below that changes either.
    AlterKind,
    /// `RENAME COLUMN`. A field's name is what routes a fact to a bitmap, and nothing below
    /// renames one.
    Rename,
    /// `ALTER TABLE ... ENGINE =`, which asks a table to store something else than it does.
    AlterEngine,
    /// A type name in a column list that names nothing this engine stores.
    ColumnType,
    /// `Nullable(T)`: a column declared to hold a value that may be absent.
    NullableType,
    /// `BITMAP`, `AggregateFunction(groupBitmap, ...)`, `HLL`: a bitmap declared as a column's
    /// type.
    BitmapType,
    /// `date_trunc` given a boundary the calendar does not have, or one finer than the column.
    TruncUnit,
    /// An interval spelling of a rounding this dialect writes as `date_trunc`.
    Interval,
    /// A scalar call in a `WHERE`, where there are no values yet to apply it to.
    ScalarFilter,
    /// A `GROUP BY` term that is neither a column nor a calendar rounding of one.
    GroupExpression,
    /// A rounding in a `WHERE` compared against a value it can never produce:
    /// `date_trunc('month', ts) = '2024-01-15'`, which no month begins on.
    Round,
    /// A column constraint - `NOT NULL`, `PRIMARY KEY`, `DEFAULT` - which is a promise about
    /// rows, and there are no rows here to make it about.
    Constraint,
    /// `DECIMAL` or `NUMERIC` written without the precision and scale that say what it holds.
    DecimalScale,
    /// A bit depth outside the 1..=64 a bit-sliced value can occupy.
    BitDepth,
    /// A select list this dialect cannot turn into one plan.
    Shape,
    /// A `WHERE` term that is not a comparison — `LIKE`, and anything else with no set
    /// operation behind it.
    Predicate,
    /// A select list asking for more plans than one statement may fan out.
    TooManyCalls,
    /// A `FORMAT` this surface cannot write.
    Format,
    /// A `UNION` that is not `UNION ALL`, or branches that do not line up.
    Union,
    /// A quantile level that is not a fraction this surface resolves.
    Quantile,
    /// `EXPLAIN PLAN` or `EXPLAIN SHAPE` over a statement that is not a query.
    ExplainHalf,
    /// `EXPLAIN`, asked of a surface that answers with plans rather than with rows.
    ExplainRows,
    /// `CREATE USER`, `ALTER USER`, `DROP USER`, `ALTER ROLE`.
    CreateUser,
    /// A word in a privilege list that is not a privilege.
    AclPrivilege,
    /// A privilege that means nothing at the level it was granted on: `ROLES` inside a database,
    /// or `CREATE` on a table that would have to exist for the statement to parse.
    AclObject,
    /// `GRANT SELECT(a, b) ON t`. Grants here are per table.
    AclColumns,
    /// `GRANT analyst TO senior`: a role holding another role.
    RoleGrant,
    /// `TO PUBLIC`, `TO ALL`: a role everybody holds without being given it.
    AclPublic,
    /// `WITH GRANT OPTION`, `WITH ADMIN OPTION`: the power to pass a grant on.
    GrantOption,
    /// `CREATE ROLE superuser`, or a grant aimed at it.
    ReservedRole,
    /// `GROUP BY a WITH TOTALS`: a grand total beside the rows rather than among them.
    WithTotals,
    /// More sets than one statement may name - see `parse::select::MAX_GROUPING_SETS`.
    GroupingSets,
    /// `ORDER BY`, `LIMIT` or `OFFSET` over a `ROLLUP`, `CUBE` or `GROUPING SETS` answer.
    RollupOrder,
    /// A frame clause, or an ordering under an aggregate window - which means one.
    WindowFrame,
    /// `WINDOW w AS (...)` and `OVER w`: the clause written somewhere other than where it is used.
    WindowName,
    /// `QUALIFY`: a `HAVING` over a window function's own output.
    Qualify,
    /// An approximate-distinct sketch, or a `-State`/`-Merge` combinator over one.
    Sketch,
    /// A regular expression, in the select list or in a `WHERE`.
    Regex,
    /// `ANALYZE TABLE`, and therefore `EXPLAIN ANALYZE`.
    Analyze,
    /// `OPTIMIZE TABLE`, `ALTER TABLE ... COMPACT`, `FREEZE`.
    Optimize,
    /// `s3(...)`, `url(...)`, `file(...)`, `generateRandom()` in a `FROM`.
    TableFunction,
    /// `numbers(n)` for an `n` past `MAX_NUMBERS`.
    NumbersTooLarge,
    /// `neighbor`, `sequenceMatch`, `windowFunnel`, `retention`: the row-sequence family.
    SequenceFunction,
    /// A `SAMPLE` fraction that names no whole stride, or `SAMPLE BY` in a `CREATE TABLE`.
    Sample,
    /// `INSERT OVERWRITE ... PARTITION (...)`.
    Overwrite,
    /// `COPY INTO t FROM 's3://...'`.
    CopyInto,
    /// `CREATE TEMPORARY TABLE`.
    TemporaryTable,
    /// `PARTITION BY`, `DISTRIBUTED BY ... BUCKETS n`, `CLUSTER BY`.
    Distribution,
    /// A column declared as `MATERIALIZED expr` or `ALIAS expr`.
    ComputedColumn,
    /// `Array(T)`, `Map(K, V)`, `Tuple(...)`, `Nested(...)`.
    CompositeType,
    /// An `ENUM` declared in a shape this dialect does not keep.
    EnumType,
    /// `ARRAY JOIN`, `LATERAL VIEW explode(...)`, `UNNEST(...)`.
    ArrayJoin,
    /// `arrayMap`, `has`, `arrayExists`, and the lambdas that go inside them.
    ArrayFunction,
}

impl Refused {
    /// Every refusal.
    pub const ALL: [Refused; 97] = [
        Refused::Joins,
        Refused::OuterJoin,
        Refused::JoinOn,
        Refused::JoinShape,
        Refused::Ambiguous,
        Refused::JoinFilter,
        Refused::Subquery,
        Refused::Having,
        Refused::Window,
        Refused::Order,
        Refused::Offset,
        Refused::Expression,
        Refused::MultiDistinct,
        Refused::Null,
        Refused::Write,
        Refused::InsertColumns,
        Refused::InsertId,
        Refused::IdColumn,
        Refused::InsertSelect,
        Refused::InsertSelfRead,
        Refused::InsertSize,
        Refused::DeleteAll,
        Refused::DeleteTooLarge,
        Refused::UpdateColumn,
        Refused::DeclarativeTtl,
        Refused::KillTarget,
        Refused::SessionUse,
        Refused::SessionSetting,
        Refused::Setting,
        Refused::MaterializedView,
        Refused::Case,
        Refused::Cast,
        Refused::Aggregate,
        Refused::BitmapFunction,
        Refused::AlterKind,
        Refused::Rename,
        Refused::AlterEngine,
        Refused::ColumnType,
        Refused::NullableType,
        Refused::BitmapType,
        Refused::TruncUnit,
        Refused::Interval,
        Refused::ScalarFilter,
        Refused::Round,
        Refused::GroupExpression,
        Refused::SetTooLarge,
        Refused::ExplainSet,
        Refused::Segment,
        Refused::SegmentTable,
        Refused::Constraint,
        Refused::DecimalScale,
        Refused::BitDepth,
        Refused::Shape,
        Refused::Predicate,
        Refused::TooManyCalls,
        Refused::Format,
        Refused::Union,
        Refused::Quantile,
        Refused::SystemTable,
        Refused::SystemClause,
        Refused::ThreePartName,
        Refused::ViewBody,
        Refused::ViewColumn,
        Refused::ViewDepth,
        Refused::ExplainHalf,
        Refused::ExplainRows,
        Refused::CreateUser,
        Refused::AclPrivilege,
        Refused::AclObject,
        Refused::AclColumns,
        Refused::RoleGrant,
        Refused::AclPublic,
        Refused::GrantOption,
        Refused::ReservedRole,
        Refused::WithTotals,
        Refused::GroupingSets,
        Refused::RollupOrder,
        Refused::WindowFrame,
        Refused::WindowName,
        Refused::Qualify,
        Refused::Sketch,
        Refused::Regex,
        Refused::Analyze,
        Refused::Optimize,
        Refused::TableFunction,
        Refused::NumbersTooLarge,
        Refused::SequenceFunction,
        Refused::Sample,
        Refused::Overwrite,
        Refused::CopyInto,
        Refused::TemporaryTable,
        Refused::Distribution,
        Refused::ComputedColumn,
        Refused::CompositeType,
        Refused::EnumType,
        Refused::ArrayJoin,
        Refused::ArrayFunction,
    ];

    /// Where a refusal sits in [`Refused::ALL`].
    pub open spec fn rank_of(self) -> nat {
        match self {
            Refused::Joins => 0,
            Refused::OuterJoin => 1,
            Refused::JoinOn => 2,
            Refused::JoinShape => 3,
            Refused::Ambiguous => 4,
            Refused::JoinFilter => 5,
            Refused::SetTooLarge => 45,
            Refused::ExplainSet => 46,
            Refused::Segment => 47,
            Refused::SegmentTable => 48,
            Refused::Subquery => 6,
            Refused::Having => 7,
            Refused::Window => 8,
            Refused::Order => 9,
            Refused::Offset => 10,
            Refused::Expression => 11,
            Refused::MultiDistinct => 12,
            Refused::Null => 13,
            Refused::Write => 14,
            Refused::InsertColumns => 15,
            Refused::InsertId => 16,
            Refused::IdColumn => 17,
            Refused::InsertSelect => 18,
            Refused::InsertSelfRead => 19,
            Refused::InsertSize => 20,
            Refused::DeleteAll => 21,
            Refused::DeleteTooLarge => 22,
            Refused::UpdateColumn => 23,
            Refused::SessionUse => 26,
            Refused::SessionSetting => 27,
            Refused::Setting => 28,
            Refused::KillTarget => 25,
            Refused::DeclarativeTtl => 24,
            Refused::SystemTable => 58,
            Refused::SystemClause => 59,
            Refused::ThreePartName => 60,
            Refused::MaterializedView => 29,
            Refused::ViewBody => 61,
            Refused::ViewColumn => 62,
            Refused::ViewDepth => 63,
            Refused::Case => 30,
            Refused::Cast => 31,
            Refused::Aggregate => 32,
            Refused::BitmapFunction => 33,
            Refused::AlterKind => 34,
            Refused::Rename => 35,
            Refused::AlterEngine => 36,
            Refused::ColumnType => 37,
            Refused::NullableType => 38,
            Refused::BitmapType => 39,
            Refused::TruncUnit => 40,
            Refused::Interval => 41,
            Refused::ScalarFilter => 42,
            Refused::GroupExpression => 44,
            Refused::Round => 43,
            Refused::Constraint => 49,
            Refused::DecimalScale => 50,
            Refused::BitDepth => 51,
            Refused::Shape => 52,
            Refused::Predicate => 53,
            Refused::TooManyCalls => 54,
            Refused::Format => 55,
            Refused::Union => 56,
            Refused::Quantile => 57,
            Refused::ExplainHalf => 64,
            Refused::ExplainRows => 65,
            Refused::CreateUser => 66,
            Refused::AclPrivilege => 67,
            Refused::AclObject => 68,
            Refused::AclColumns => 69,
            Refused::RoleGrant => 70,
            Refused::AclPublic => 71,
            Refused::GrantOption => 72,
            Refused::ReservedRole => 73,
            Refused::WithTotals => 74,
            Refused::GroupingSets => 75,
            Refused::RollupOrder => 76,
            Refused::WindowFrame => 77,
            Refused::WindowName => 78,
            Refused::Qualify => 79,
            Refused::Sketch => 80,
            Refused::Regex => 81,
            Refused::Analyze => 82,
            Refused::Optimize => 83,
            Refused::TableFunction => 84,
            Refused::NumbersTooLarge => 85,
            Refused::SequenceFunction => 86,
            Refused::Sample => 87,
            Refused::Overwrite => 88,
            Refused::CopyInto => 89,
            Refused::TemporaryTable => 90,
            Refused::Distribution => 91,
            Refused::ComputedColumn => 92,
            Refused::CompositeType => 93,
            Refused::EnumType => 94,
            Refused::ArrayJoin => 95,
            Refused::ArrayFunction => 96,
        }
    }

    /// The stable string a client matches on.
    pub open spec fn code_text(self) -> Seq<char> {
        match self {
            Refused::Joins => "sql_no_joins"@,
            Refused::OuterJoin => "sql_no_outer_joins"@,
            Refused::JoinOn => "sql_join_condition"@,
            Refused::JoinShape => "sql_unsupported"@,
            Refused::Ambiguous => "sql_ambiguous_column"@,
            Refused::JoinFilter => "sql_join_filter"@,
            Refused::SetTooLarge => "sql_set_too_large"@,
            Refused::ExplainSet => "sql_explain_set"@,
            Refused::Segment => "sql_segment_unexpanded"@,
            Refused::SegmentTable => "sql_segment_table"@,
            Refused::Subquery => "sql_unsupported"@,
            Refused::Having => "sql_unsupported"@,
            Refused::Window => "sql_window_shape"@,
            Refused::Order => "sql_unsupported_order"@,
            Refused::Offset => "sql_unsupported"@,
            Refused::Expression => "sql_unsupported"@,
            Refused::MultiDistinct => "sql_unsupported"@,
            Refused::Null => "sql_no_nulls"@,
            Refused::Write => "sql_read_only"@,
            Refused::InsertColumns => "sql_insert_shape"@,
            Refused::InsertId => "sql_insert_shape"@,
            Refused::IdColumn => "sql_id_column"@,
            Refused::InsertSelect => "sql_unsupported"@,
            Refused::InsertSelfRead => "sql_insert_self_read"@,
            Refused::InsertSize => "sql_insert_too_large"@,
            Refused::DeleteAll => "sql_delete_all"@,
            Refused::DeleteTooLarge => "sql_delete_too_large"@,
            Refused::UpdateColumn => "sql_update_column"@,
            Refused::SessionUse => "sql_use_unsupported"@,
            Refused::SessionSetting => "sql_no_session_settings"@,
            Refused::Setting => "sql_unknown_setting"@,
            Refused::KillTarget => "sql_kill_target"@,
            Refused::DeclarativeTtl => "sql_declarative_ttl"@,
            Refused::SystemTable => "sql_system_table"@,
            Refused::SystemClause => "sql_system_clause"@,
            Refused::ThreePartName => "sql_ambiguous_column"@,
            Refused::MaterializedView => "sql_no_materialized_views"@,
            Refused::ViewBody => "sql_view_body"@,
            Refused::ViewColumn => "sql_view_column"@,
            Refused::ViewDepth => "sql_view_depth"@,
            Refused::Case => "sql_unsupported"@,
            Refused::Cast => "sql_unsupported"@,
            Refused::Aggregate => "sql_unsupported"@,
            Refused::BitmapFunction => "sql_bitmap_function"@,
            Refused::AlterKind => "sql_no_alter_column"@,
            Refused::Rename => "sql_no_rename"@,
            Refused::AlterEngine => "sql_no_alter_engine"@,
            Refused::ColumnType => "sql_unknown_column_type"@,
            Refused::NullableType => "sql_nullable_type"@,
            Refused::BitmapType => "sql_bitmap_type"@,
            Refused::TruncUnit => "sql_bad_trunc_unit"@,
            Refused::Interval => "sql_unsupported"@,
            Refused::ScalarFilter => "sql_scalar_in_filter"@,
            Refused::GroupExpression => "sql_group_expression"@,
            Refused::Round => "sql_rounded_value"@,
            Refused::Constraint => "sql_no_constraints"@,
            Refused::DecimalScale => "sql_decimal_scale"@,
            Refused::BitDepth => "sql_bit_depth"@,
            Refused::Shape => "sql_unsupported"@,
            Refused::Predicate => "sql_unsupported"@,
            Refused::TooManyCalls => "sql_too_many_aggregates"@,
            Refused::Format => "sql_unknown_format"@,
            Refused::Union => "sql_union"@,
            Refused::Quantile => "sql_quantile_level"@,
            Refused::ExplainHalf => "sql_explain_half"@,
            Refused::ExplainRows => "sql_explain_rows"@,
            Refused::CreateUser => "sql_no_users"@,
            Refused::AclPrivilege => "sql_unknown_privilege"@,
            Refused::AclObject => "sql_acl_object"@,
            Refused::AclColumns => "sql_acl_columns"@,
            Refused::RoleGrant => "sql_no_role_hierarchy"@,
            Refused::AclPublic => "sql_no_public"@,
            Refused::GrantOption => "sql_no_grant_option"@,
            Refused::ReservedRole => "sql_reserved_role"@,
            Refused::WithTotals => "sql_with_totals"@,
            Refused::GroupingSets => "sql_too_many_grouping_sets"@,
            Refused::RollupOrder => "sql_rollup_order"@,
            Refused::WindowFrame => "sql_window_frame"@,
            Refused::WindowName => "sql_window_named"@,
            Refused::Qualify => "sql_qualify"@,
            Refused::Sketch => "sql_sketch"@,
            Refused::Regex => "sql_no_regex"@,
            Refused::Analyze => "sql_no_analyze"@,
            Refused::Optimize => "sql_no_optimize"@,
            Refused::TableFunction => "sql_no_table_function"@,
            Refused::NumbersTooLarge => "sql_numbers_too_large"@,
            Refused::SequenceFunction => "sql_no_sequence_function"@,
            Refused::Sample => "sql_no_sample"@,
            Refused::Overwrite => "sql_no_overwrite"@,
            Refused::CopyInto => "sql_no_copy_into"@,
            Refused::TemporaryTable => "sql_no_temporary_table"@,
            Refused::Distribution => "sql_no_distribution"@,
            Refused::ComputedColumn => "sql_computed_column"@,
            Refused::CompositeType => "sql_composite_type"@,
            Refused::EnumType => "sql_enum_type"@,
            Refused::ArrayJoin => "sql_no_array_join"@,
            Refused::ArrayFunction => "sql_array_function"@,
        }
    }

    /// What the refusal says, and what exists instead.
    pub open spec fn sentence(self) -> Seq<char> {
        match self {
            Refused::Joins => "a join here pairs records through a keyed column the tables share, written as `FROM a JOIN b ON a.k = b.k` and repeated for each further table - every one of them keyed on the same column. A comma between tables, `CROSS JOIN` and `NATURAL JOIN` name no key to pair on - the first two pair everything with everything, and the third asks the schema to choose - and a table joined on two different columns would have to be grouped by both at once, which is a pass over the second per value of the first"@,
            Refused::OuterJoin => "`LEFT`, `RIGHT` and `FULL` are answered, but a `FULL JOIN` only where every join in the statement is one. `(a JOIN b) FULL JOIN c` pairs on the keys `a` and `b` share unioned with `c`'s, and what this engine carries is one flag per side saying whether it has to match - which cannot tell that nesting from the union of all three. Write the full join over one pair of tables"@,
            Refused::JoinOn => "a join is one equality between two keyed columns, as `ON a.k = b.k`, naming the table being joined in on one side and a table already in `FROM` on the other. Two conditions would pair on a composite key this index never stored, and `USING` names one column for two tables that each keep their own dictionary"@,
            Refused::JoinShape => "over a join this surface answers `count(*)`, `sum`, `min`, `max` and `avg` of one table's column, and `count(DISTINCT <the join key>)` - each of which is arithmetic over the per-key counts every side produces. What it has no answer for is a *row* of a join: a pair of records has no identity this engine stores"@,
            Refused::Ambiguous => "with a join in the statement every column has to say which table it belongs to, as `a.amount`. The translation resolves names before it ever sees a schema, so there is nothing here to guess with"@,
            Refused::JoinFilter => "a `WHERE` over a join is each table's own conditions, combined with `AND`. A term that names two of them under `OR` or `NOT` selects records neither side can be filtered to on its own"@,
            Refused::SetTooLarge => "`IN (SELECT _record_id FROM ...)` narrows a bit-sliced column by the ids the inner set holds, and that is one equality per id - each of them a read per bit plane. A set this large is a scan wearing a `WHERE`, so it is refused with the number rather than answered slowly. Narrow the inner `WHERE`"@,
            Refused::ExplainSet => "a statement with `IN (SELECT ...)` has no plan until it has run: the outer call is narrowed by the ids the inner set holds, so its tree is a fact about the other table's contents rather than about the statement. Explaining the inner set on its own says everything that is fixed about it"@,
            Refused::Segment => "a segment is a named `WHERE` over one table, and expanding it needs the catalog the view is stored in - which this translation does not have. Reached through a server, `SEGMENT(...)` is substituted before anything is planned"@,
            Refused::SegmentTable => "`SEGMENT(...)` names a view whose `WHERE` becomes a term of this one, so the view has to exist, has to be over exactly one table this statement reads, and has to select by something - a view with no `WHERE` is every record of its table and defines no set"@,
            Refused::Subquery => "subqueries, CTEs and `UNION` between selects are not supported; a set of records is combined inside `WHERE` with `AND`, `OR` and `NOT`"@,
            Refused::Having => "`HAVING` compares the aggregate the select list already asked for, over a `GROUP BY` - `count(*)` when the answer carries counts, or the same `sum`, `min` or `max` it selects. A grouped answer holds one number per group, so a `HAVING` on a second one would filter on a number that is not there, and one without a `GROUP BY` has no groups to keep"@,
            Refused::Window => "a window is computed over the rows a **projection** read - `SELECT country, row_number() OVER (PARTITION BY country ORDER BY amount DESC) FROM t` - because that is the one answer this surface materialises as rows. A grouped answer, a tuple grouping and a join are numbers about sets rather than rows, so there is nothing for a partition to be a partition of: `ORDER BY count(*) DESC LIMIT 10` is the ranking those already carry, and `topK(n)(x)` is the same ranking as a list in one cell. A window function written without `OVER` earns this too - it is a window missing the clause that says which rows it ranks"@,
            Refused::Order => "a grouped answer is ordered by the grouped column or by the one aggregate the select list asked for, in either direction; `ORDER BY count(*) DESC` is the ranking the plan itself carries. An ordering that names a second aggregate names a number the answer does not hold, and a record listing has no values to order by at all"@,
            Refused::Offset => "`OFFSET` pages a list of groups, which this surface materialises in full before it cuts. A record listing is paged with the `after` cursor on `GET /table/{t}/records` instead: a cursor does not shift when records are inserted under it, and a skip count does"@,
            Refused::Expression => "an expression in the select list is computed over one column - the one the projection reads, or the one the aggregate folds - and constants beside it: `round(amount / 100, 2)` and `substring(country, 1, 2)` are answered, and so is `date_diff('day', ts, now())`. Two columns in one cell is two plans, and a projection reads one field per column; an expression over no column at all is a constant, which needs no table to be true"@,
            Refused::MultiDistinct => "`DISTINCT` takes one keyed column - as `SELECT DISTINCT <column>`, which is `GROUP BY <column>`, or as `count(DISTINCT <column>)`. Two of them is a grouping over a composite key this index never stored"@,
            Refused::Null => "there are no nulls here: a record either carries a value or the bit is not set, and neither is a null that comparisons propagate"@,
            Refused::Write => "the writes on this surface are `INSERT INTO t (...) VALUES (...)`, `CREATE TABLE`, `ALTER TABLE ... ADD`/`DROP COLUMN`, `DROP TABLE`, `CREATE DATABASE`/`DROP DATABASE` and `CREATE VIEW`/`DROP VIEW`. `ALTER VIEW` is `CREATE OR REPLACE VIEW`, which says the whole statement rather than a change to one; and `MERGE`, `REPLACE` and `CREATE INDEX` are each a statement with no operation behind it here: a bitmap is already the index. Write facts in volume with `POST /table/{t}/import` and use the `/table` routes for the rest"@,
            Refused::InsertColumns => "an `INSERT` names the columns it writes, as `INSERT INTO t (country, amount) VALUES ('GB', 100)`. This translation holds no schema - which is what keeps it a translation - so `INSERT INTO t VALUES (...)` would be positional against a field order that is not in the statement and that the next `ALTER TABLE ... ADD` moves"@,
            Refused::InsertId => "an `id` is a whole number: a fact is a bit at `(row, record)`, so the id is the address it is written to rather than a name for what is written there - which is why `POST /table/{t}/import` names the record on every line, why `POST /table/{t}/delete` takes ids, and why `SELECT *` answers with nothing else. Write one, as `INSERT INTO t (_record_id, country) VALUES (7, 'GB')`, or leave the column out and the server allocates one"@,
            Refused::IdColumn => "`_record_id` is what a record is called here, not a field it can hold: `SELECT *` answers with it, `INSERT INTO t (_record_id, ...)` writes about it, and `POST /table/{t}/delete` takes it. A field of that name could never be written through this surface - an `INSERT` would read the value as the record to write *about* - so a condition on it would answer nothing while the record sat there. It is spelled with the underscore precisely so that `id` is free for a field of yours"@,
            Refused::InsertSelect => "`INSERT ... SELECT` reads any answer whose cells are **values**, naming as many columns as the `INSERT` does - a projection, and a grouping just as much: a key is a string and a count is a number, and writing a merged grouping into a table is what a materialised rollup is here. What it cannot read is `SELECT *`, which answers with record *ids* - the address a fact is written to rather than anything stored in a column. The ids are allocated, so the column list may not name `_record_id` either"@,
            Refused::InsertSelfRead => "an `INSERT ... SELECT` reads one table and writes another. Reading and writing the same one in a single statement has no snapshot under it here: the records being written are visible to the read that is still running, so the statement would feed itself. Copy through a second table, or read it out and write it back with `POST /table/{t}/import`"@,
            Refused::InsertSize => "an `INSERT` carries a bounded number of rows, because the whole statement is lexed and parsed into literals before the first fact is written - so the batch is resident twice over before any of it lands. A request is bounded by its bytes as well, and that is usually the one a statement meets first. `POST /table/{t}/import` is the route for volume: one fact per line, with no statement to hold"@,
            Refused::DeleteAll => "a `DELETE` here names the records to clear, as `DELETE FROM t WHERE ts < '2026-01-01'`. Without a `WHERE` it names every one of them, and clearing them id by id is the most expensive way to say what `TRUNCATE TABLE t` says by freeing the fragments - which keeps the table, its fields and its row keys. `ORDER BY` and `LIMIT` are refused for a different reason: a record id is an address rather than a position, so taking the first ten of a set would clear an arbitrary ten while reading as though it had chosen them"@,
            Refused::DeleteTooLarge => "a delete is one transaction and nothing interrupts one: the `WHERE` is bounded by `max_execution_time`, and the clearing that follows it is not. This one selects more records than that half may carry. Narrow the `WHERE` - a window on a time column is the usual way, deleting a day or a month at a time - or lower the ceiling deliberately with `SETTINGS max_delete_records`, which may only tighten it. `TRUNCATE TABLE t` is the whole-table spelling and costs fragments rather than records"@,
            Refused::UpdateColumn => "that column holds every value a record was ever given, so writing a new one adds it rather than replacing it - and there is no per-value unset below this surface to remove the old. What updates in place are the columns where one record holds one value: the integer, decimal and float columns, `MUTEX` and `BOOL`. For a `SET` or a `TIMEQUANTUM`, delete the record and write it again, which is two statements because it is two operations"@,
            Refused::SessionUse => "`USE` asks this surface to remember a database between statements, and it remembers nothing: one statement is one request, answered and forgotten. The database is per request - send `?database=sales`, or qualify the name as `sales.orders`. `bigctl` accepts `USE` and does exactly that for you"@,
            Refused::SessionSetting => "`SET` asks this surface to remember a limit between statements, and it remembers nothing: one statement is one request, answered and forgotten - the same reason `USE` is refused. A limit is written on the statement it bounds, as `SELECT ... SETTINGS max_execution_time = 30`, which is also the only spelling that survives a reconnect, a pooled proxy connection or a retry on another node. The keys are `max_execution_time` (seconds), `max_memory_usage` (bytes), `max_result_rows` and `max_delete_records`, and each may only lower what the server allows"@,
            Refused::Setting => "that key names no limit this engine reads. The three it reads are `max_execution_time` (seconds a read may run), `max_memory_usage` (bytes of bitmap it may hold) and `max_result_rows` (records it may read back). `max_threads`, `max_block_size` and `join_algorithm` are refused rather than accepted and ignored: there are no bind parameters here, so a key was typed, and a dropped one is a statement running without the bound its author believes it has"@,
            Refused::KillTarget => "`KILL QUERY` names one running query by its id, as `KILL QUERY '<node>/<n>'` or `KILL QUERY WHERE query_id = '<node>/<n>'`. `SHOW PROCESSLIST` says what the ids are. A predicate over users, tables or elapsed time would kill a set nobody named - and a different set each time it ran - and `KILL MUTATION` names work this engine does not queue: a schema change is applied and finished, with no background rewrite left to cancel"@,
            Refused::DeclarativeTtl => "`TTL` names a promise to expire data on its own, and there is nothing here to keep one: this database has no scheduler and the library under it starts no threads. What exists is the statement that does it when you run it - `ALTER TABLE t DROP DAYS BEFORE '2026-01-01' ON ts` - which travels to every node the way a schema change does, so no two of them disagree about what a window holds. Note what it removes: the per-period *index* over those days, not the records. A `BETWEEN` stops finding them and `count(*)` does not change; `DELETE FROM t WHERE ts < '2026-01-01'` is the one that removes them. Run it from cron"@,
            Refused::SystemTable => "there is no such view under `system.`. This build has `system.tables` (every table and view, in every database), `system.columns` (every column of every table), `system.databases` and `system.parts` (every fragment: table, field, view and shard, which is the one thing no other statement shows). `system` is not a database anybody creates, so a name here is a question about this engine rather than about your schema - `system.query_log` and `system.processlist` would each need state this build does not keep"@,
            Refused::SystemClause => "a system view answers in full, and the clause it takes is `WHERE database = '<name>'` - on `system.columns` and `system.parts` also `WHERE table = '<name>'`, joined by `AND`. Those two are the only ones because they are already what `SHOW TABLES FROM d` and `DESCRIBE t` pass underneath; the answer is a set of rows read out of the catalog rather than a plan over bitmaps, so there is nothing here for a join, a grouping, an ordering, a limit or a `SETTINGS` budget to act on. Order it and cut it in the client, or select the columns you want by name"@,
            Refused::ThreePartName => "a column is qualified by an alias and nothing else, so `sales.orders.amount` has one name too many. A table is qualified - `FROM sales.orders` - and a column then reaches it through an alias: `FROM sales.orders o WHERE o.amount > 5`"@,
            Refused::MaterializedView => "a materialised view is a table plus a promise to keep it current, and nothing here keeps that promise. A plain `CREATE VIEW` does exist - it is a name for a statement, re-planned at every read - and the materialised half is written out loud: create a table and write the answer into it"@,
            Refused::ViewBody => "a view here is a filter and a projection over one table: `SELECT <columns> FROM <table> [WHERE ...]`. It is inlined into the statement that reads it, and there is no subquery below to nest one in - so a body that groups, aggregates, joins, orders or limits has no statement to become. `*` is refused too: a view is re-planned at every read, so a body written with one would start exposing whatever column the table gains next. A view names the columns it exposes"@,
            Refused::ViewColumn => "the view does not expose that column, which is most of what a view is for. `SHOW CREATE VIEW` says what it does expose; reading the column means going to the table underneath, or a view that names it"@,
            Refused::ViewDepth => "views nested too deep. A view over a view is expanded by substitution, so the depth is a bound on the statement this becomes rather than a taste in schemas"@,
            Refused::Case => "a case here is written out in full - `CASE WHEN amount > 500 THEN 'big' ELSE 'small' END` - and `if(cond, a, b)`, `multiIf(...)`, `coalesce`, `nullIf` and `ifNull` are answered too. The short form, `CASE amount WHEN 500 THEN ...`, is the same statement with the comparison factored out, and there is one spelling of it so that two trees cannot come to disagree about what they answer"@,
            Refused::Cast => "a value's type is its field's, decided when the field was created: a keyed column is a string in a dictionary and an integer column is bit planes, and neither has a representation the other could be read as. A column that should be counted as a number is an `INT` field, and one that should be grouped is a `SET`"@,
            Refused::Aggregate => "the aggregates here are `count`, `sum`, `min`, `max`, `avg`, `uniq` (which is `count(DISTINCT x)`), `topK` and `quantile`, each of which is a fold over bit planes or over a grouping - which is why every one of them is exact. `argMin`, `argMax`, `stddev`, `varPop` and `corr` need each record's value revisited against a running total, and this engine holds bits at `(row, record)` rather than values to revisit"@,
            Refused::BitmapFunction => "every one of these already has an answer here, spelled the way the rest of the dialect is spelled - the bitmaps are the storage, not a value to pass between functions. `bitmap_count` and `bitmapCardinality` are `count(DISTINCT x)`, and exact, because the cardinality of a bitmap is a popcount - which is also why `uniq`, `uniqHLL12` and `approx_count_distinct` are read as written and answered exactly rather than refused at all; `bsi_sum` is `sum(x)` and `bsi_range` is `x BETWEEN a AND b`, both folds over bit planes; `bitmap_and` is `AND` and `bitmap_andnot` is `NOT IN (SELECT _record_id FROM ...)`; `to_bitmap` and `groupBitmapState` name what a `SET` column already did when the fact was written. What has no spelling here is a bitmap held *in* a column, which is what a `BITMAP` type would be"@,
            Refused::AlterKind => "a field's kind decides how every fact in it was routed and its bit depth is how many bitmaps hold a value, so neither can change without rewriting every fact ever written to it. Add a second field, copy into it, and drop the first - which is three statements because it is three changes, not one hidden inside a `MODIFY` that would look free. To rebuild the whole table instead, create it beside this one and `EXCHANGE TABLES` them"@,
            Refused::Rename => "a field's name is what routes a fact to a bitmap, and nothing below this renames one: a new name means a new field, the facts copied into it, and the old one dropped. A *table* is not reached by name below the catalog - it is reached by an interned id, which is why `ALTER TABLE t RENAME TO u` costs one record and is a statement this surface has"@,
            Refused::AlterEngine => "the engine a table stores under is fixed when it is created: it decides what is written for every fact, and the facts already written were written under the old one. Create a second table under the engine you want, copy into it, then `EXCHANGE TABLES old AND new` - which puts it in place in one change and leaves the old one under the other name"@,
            Refused::ColumnType => "a column takes one of `SET`, `MUTEX`, `BOOL`, `TIMEQUANTUM`, `SIGNED`, `UINT(bits)`, `DECIMAL(precision, scale)`, `FLOAT32`, `FLOAT64`, `DATE`, `DATETIME`, or a SQL spelling of one of those: `TEXT`, `VARCHAR`, `CHAR` and `STRING` are a set, `TINYINT`, `SMALLINT`, `INT`, `INTEGER` and `BIGINT` are an unsigned integer of 8, 16, 32, 32 and 64 bits, `BOOLEAN` is a bool, `FLOAT` and `REAL` are a `FLOAT32`, `DOUBLE` is a `FLOAT64`, and `TIMESTAMP` is a `DATETIME`. `LowCardinality(String)` is a set too - that is what a set already is here, one bitmap per interned key - but only over a string: a number is bit planes, with no dictionary to be low cardinality of. None of them takes a width in brackets that its name does not already carry: `FLOAT(10, 2)` is a `DECIMAL(10, 2)`, which keeps those digits exactly where a float would not. There is nothing here a blob or a JSON document lands in - a document is a `TEXT` column, and `JSONExtractString(c, 'k')` reads a key out of one. `IPv4` is not on this list at all: it is read as the `UINT(32)` an address is. `UUID` and `IPv6` are, and the difference is what would be lost - both are 128 bits where a bit-sliced value stops at 64, so the only column they could land in is a keyed one, which answers `=` but not `<`. Declare them `TEXT` if equality is all you need, and know that is what you have"@,
            Refused::NullableType => "absence is already how a column answers here, so there is no wrapper to declare: a record either has the bit set for a value or it does not, and `SELECT *` says so by leaving the cell out. `Nullable(String)` would add a second way to be absent that nothing below could tell from the first. Declare the type itself - `TEXT`, `INT`, `DECIMAL(10, 2)` - and read the absence off the answer"@,
            Refused::BitmapType => "a bitmap is not a value a column holds here; it is what every column already is. A `SET` column is one bitmap per interned key and an integer column is one per bit plane, so a `BITMAP` column would be a bitmap inside a bitmap. Declare `SET` for the column you would have built one from: `count(DISTINCT x)` over it is the cardinality, and it is exact rather than a sketch"@,
            Refused::TruncUnit => "`date_trunc` rounds a moment back to a boundary, and the boundary has to be one the calendar has: year, quarter, month, week, day, hour, minute or second. A `DATE` counts whole days, so nothing below a day means anything about one"@,
            Refused::Interval => "this dialect writes the rounding as `date_trunc('month', ts)` and not as an interval: there is one spelling so that two of them cannot come to disagree about what a month is"@,
            Refused::ScalarFilter => "a scalar runs on a value that has been read, and a `WHERE` runs before any has been: it chooses a set out of bitmaps, so there is nothing here for one to apply to. The roundings are the exception, because they can be turned around rather than run - `date_trunc('month', ts) = '2024-01-01'` is every value in `[2024-01-01, 2024-02-01)`, which is a range off the bit planes - and `date_trunc`, `toDate` and `toYear` are answered here for that reason. This one cannot be turned around: `lower(country) = 'gb'` and `abs(balance) > 5` each have answers scattered across the column rather than gathered into a range. Write the comparison against the column itself"@,
            Refused::GroupExpression => "a `GROUP BY` term is a column, or `date_trunc(<boundary>, <column>)` over a DATE or DATETIME column - those are the two the engine has a plan for. Any other expression over a column relabels its values without merging them, which answers one row per stored value with all of them printed under one name"@,
            Refused::Round => "no rounding ever produces this value, so nothing could match it: `date_trunc('month', ts)` answers the first day of a month, and `'2024-01-15'` is not one. Compare against the boundary that contains it - `= '2024-01-01'` - or write the range itself, `ts >= '2024-01-15'`. Another engine answers this with no rows; it is refused here because there are no bind parameters in this dialect, so the value was typed rather than substituted, and an empty answer to a typo reads as a table with nothing in that month"@,
            Refused::Constraint => "a column list here declares fields and nothing else: there are no rows for `PRIMARY KEY` to be unique over, no nulls for `NOT NULL` to exclude, and no write path that would apply a `DEFAULT` to a record nobody wrote a fact for"@,
            Refused::DecimalScale => "a decimal is written `DECIMAL(precision, scale)` - digits in total, then digits after the point. Neither is optional: `DECIMAL` alone is an integer wearing a different name, and `price > 5` means `> 500` on a field with two digits after the point, so the number a comparison is against depends on it"@,
            Refused::BitDepth => "a value occupies between 1 and 64 bits here, one bitmap per bit. Wider than 64 is wider than the integer a value is read back into; narrower than 1 is no value at all"@,
            Refused::Shape => "a statement answers one question: an aggregate, or a grouped column and one aggregate of it"@,
            Refused::Predicate => "a condition compares a column with a value using `=`, `!=`, `<`, `<=`, `>`, `>=`, `IN` or `BETWEEN`; there is no pattern matching and no arithmetic"@,
            Refused::TooManyCalls => "a select list asks for one plan per aggregate and a join for one per table, and each is fanned out and merged on its own - so the number of them is what the statement costs in round trips. Ask for at most 16, counting `avg` as two: a sum and a count"@,
            Refused::Format => "the formats this surface writes are `JSON`, `JSONCompact`, `TSV`, `TabSeparated`, `TSVWithNames`, `TabSeparatedWithNames`, `CSV` and `CSVWithNames`. Anything else would be a spelling of bytes nobody here produces"@,
            Refused::Union => "`UNION ALL` stacks two answers with the same number of columns, named by the first. A plain `UNION` removes duplicate rows, and a row here is a rendered answer rather than a stored tuple - there is nothing to compare two of them by that is not comparing strings"@,
            Refused::Quantile => "a quantile takes a level between 0 and 1 with at most three digits after the point, as `quantile(0.95)(amount)`; `median(amount)` is `quantile(0.5)`. A finer level would name a place in the distribution no number of records this engine holds could resolve"@,
            Refused::ExplainHalf => "`PLAN` and `SHAPE` name the two halves of a query's explanation - the plans its calls resolve to, and the columns and clauses its answer takes. A schema change, a write and a question about the catalog have one description and no halves, so `EXPLAIN` on its own is the whole of what there is to ask for"@,
            Refused::ExplainRows => "`EXPLAIN` is answered as rows - one line of the description per row, under a column called `explain` - and this surface resolves a statement to plans instead, of which an explanation has none. Nothing is wrong with the statement: ask it of the surface that builds result sets"@,
            Refused::CreateUser => "people are not stored in this database. A credential is a line in the users file the server reads off its own disk, written with `big passwd`, and a route that could write one would let an `admin` password rewrite the password file over the network. What SQL administers is roles - `CREATE ROLE`, `GRANT`, `REVOKE` - and the users file says who holds one"@,
            Refused::AclPrivilege => "the privileges are SELECT, INSERT, DELETE, CREATE, DROP, ALTER and ROLES, or ALL for every one grantable on the object named"@,
            Refused::AclObject => "a privilege has to mean something where it is granted: ROLES is held on `*.*` or nowhere, because a role that could hand out privileges inside one database would still be handing out the power to hand them out; and CREATE is held on `*.*` or `db.*`, because a table that exists is not one there is anything left to create"@,
            Refused::AclColumns => "grants here are per table. This surface answers questions over whole tables, so a privilege on some columns of one would be a fence that a slightly different question walks around - grant on the table, or keep the columns somebody may not read in a table of their own"@,
            Refused::RoleGrant => "a role does not hold another role. What was written names a role where a privilege belongs: grant the privileges themselves, or give the person the other role in the users file. One name resolving to a set of others is a graph whose answer depends on how far it is walked"@,
            Refused::AclPublic => "there is no role everybody holds. A privilege nobody was given and everybody has is one that no listing explains and no revoke reaches - make a role, grant it what it needs, and name it in the users file for whoever should hold it"@,
            Refused::GrantOption => "a grant cannot be passed on. Delegation here is one privilege, ROLES on `*.*`, which is the power to administer every role - held or not, with nothing in between, because the levels between are what nobody can audit"@,
            Refused::ReservedRole => "`superuser` holds everything and exists without being created. It is what a database whose catalog is empty is recovered through, so it cannot be made, dropped, or narrowed by a grant - name any other role"@,
            Refused::WithTotals => "`WITH TOTALS` puts the grand total outside the rows, in a `totals` field beside them - and a result set here is columns and rows, one definition all five formats render from, so there is nowhere for it to go. The same number as a *row* is `GROUP BY a WITH ROLLUP`, whose last row is the empty grouping set; `grouping(a)` is what tells that row from a group whose key this node was never told"@,
            Refused::GroupingSets => "`ROLLUP`, `CUBE` and `GROUPING SETS` are one grouping per set - a call planned, fanned out to every owner and merged on its own - so the number of sets multiplied by the aggregates in the select list is what the statement costs in round trips, against the same budget every select list answers to. `CUBE` over four columns is sixteen sets, which is that whole budget before a second aggregate is named. `WITH ROLLUP` is one set per prefix - five for four columns - and `GROUPING SETS ((a,b),(a),())` names exactly the ones you want, up to eight"@,
            Refused::RollupOrder => "a `ROLLUP`, `CUBE` or `GROUPING SETS` answer is one grouping per set, rendered one after the other - the same stacking `UNION ALL` is - so there is no single list for an `ORDER BY` to sort or a `LIMIT` to cut. Ordering each set on its own would look sorted and not be, and a `LIMIT 10` would answer with ten rows per set. The rows do arrive in a fixed order - the sets longest first, each in its own key order - so order and cut them in the client, or write the one set you want ordered as its own `GROUP BY`"@,
            Refused::WindowFrame => "a window here is computed over the whole partition in the order given, which is the default frame for `row_number`, `rank`, `lag`, `first_value` and the rest of those two families - so `ROWS`, `RANGE`, `GROUPS` and `EXCLUDE` have nothing to narrow and are refused rather than accepted and ignored. An `ORDER BY` under `sum`, `avg`, `count`, `min` or `max` says the same thing: the running total, whose frame is `RANGE UNBOUNDED PRECEDING` and whose answer is a different number from the partition total. Write `sum(x) OVER (PARTITION BY c)` for the partition total, and order the answer itself"@,
            Refused::WindowName => "a window is written where it is used - `row_number() OVER (PARTITION BY country ORDER BY amount DESC)` - and there is no `WINDOW w AS (...)` to name one somewhere else. A name would be a second place for the clause to live and a second thing to keep in step with the first; writing it out at each entry is longer and says what it does"@,
            Refused::Qualify => "`QUALIFY` filters on a window function's own output, which exists only once every row of every partition has been read - so it is a second pass over the finished answer rather than anything a plan could carry. `WHERE` narrows the records the window then ranks, which is the cheap half and usually the one that was meant; filter on the ranking itself in the client"@,
            Refused::Sketch => "there is no sketch here because there is nothing for one to approximate: `count(DISTINCT x)` is the cardinality of a bitmap, which is a popcount - exact, and paid per container rather than per record. `uniq`, `uniqExact`, `uniqCombined`, `uniqCombined64`, `uniqHLL12`, `uniqTheta` and `approx_count_distinct` are all accepted exactly as written and all answered exactly, and `quantile`, `quantileExact` and `median` are exact too. A `-State`/`-Merge` pair exists elsewhere to carry a partial sketch between queries; the partial result that travels between nodes here **is** the bitmap, and the engine merges it"@,
            Refused::Regex => "the pattern language here is `LIKE`'s: `%` for any run of characters, `_` for exactly one, and `ILIKE` to fold case. It runs over a keyed column's **dictionary** rather than over records - each distinct string is stored once with the bitmap of the records holding it - so `country LIKE 'G%'` costs the field's cardinality once where a row engine pays it per record. A regular expression engine in that loop would be a dependency, a compile step and a class of pathological pattern, to implement two characters. Write `LIKE` or `ILIKE`, or `IN (...)` for a fixed set of values"@,
            Refused::Analyze => "there are no statistics to gather. The planner here is purely syntactic - a call resolves against the schema, and nothing about the data changes which plan it becomes - so there is no cost model for an `ANALYZE` to feed. What this engine keeps instead is a zone map per fragment, `min`, `max`, `bit_depth` and whether it holds values, written as facts are and therefore never stale; it is already readable as `SELECT * FROM system.parts`. `EXPLAIN <statement>` is the whole of what this surface says about a statement, and it says it without running one. And `EXPLAIN ANALYZE` in the other sense - run it, then report what it cost - is absent for a second reason worth separating from the first: the numbers exist per node, but nothing carries them back beside the answer and nothing says how two nodes' would merge"@,
            Refused::Optimize => "compaction here is whole-file rather than per part, because there are no parts to merge: a fragment is a range of records inside one page store, and what accumulates is free pages rather than small files. Rewriting the store into a fresh one and swapping it in is a server operation - `POST /admin/backup` - rather than a statement, because it needs the file's exclusive lock, which a statement running inside a read does not hold. `SELECT * FROM system.parts` is what says whether it is worth doing"@,
            Refused::TableFunction => "the one table function here is `numbers(n)`, which counts. Reading an external source needs a catalog this build has not got - `s3`, `url` and `file` are the external-catalog milestone - and loading data is `POST /table/{t}/import`, which streams it in without a statement having to name a path"@,
            Refused::NumbersTooLarge => "`numbers(n)` builds every row at the coordinator before any of them is written out, so the count is the only bound there is: `SETTINGS max_result_rows` bounds a query, and this is answered from the catalog side without ever reaching a read. Ask for fewer, or write the rows into a table and select from that"@,
            Refused::SequenceFunction => "`neighbor(x, n)` is `lag(x, n)` backwards and `lead(x, n)` forwards, and this dialect writes it as whichever one was meant - one spelling per operation, so two cannot come to disagree about which direction a sign means. `runningDifference(x)` is here and is `x - lag(x, 1)`. `sequenceMatch`, `windowFunnel` and `retention` are not: each is a pattern over a *sliding window* of rows, which is the frame `sql_window_frame` refuses, plus a pattern language over them. Counting by period is `GROUP BY date_trunc(...)`"@,
            Refused::Sample => "`SAMPLE` takes one record in every `n`, written as `SAMPLE 10`, `SAMPLE 1/10` or `SAMPLE 0.1` - three spellings of one stride. A fraction that is not one over a whole number has no stride: `0.3` would be one in 3.33, and answering it as one in three is a tenth more data than was asked for under the name that was asked for. `SAMPLE BY` is a different thing again - it names the column a sample is drawn on, and here the unit is the record id, which is not a column"@,
            Refused::Overwrite => "`INSERT OVERWRITE` is answered, but not at a partition: a shard here is `record_id >> 20`, computed from the id a record was written under, so there is nothing for `PARTITION (...)` to name. Write the statement without it. Note what the plain form does and does not promise - it empties and then writes, and nothing wraps those two in one transaction, so a crash between them leaves the table empty. For a replacement that is genuinely atomic, write into a second table and `EXCHANGE TABLES` them"@,
            Refused::CopyInto => "loading data is `POST /table/{t}/import`, which streams rows in without a statement having to name a path the server can reach. Reading object storage from inside a query is an external catalog, and that is a milestone of its own rather than a clause"@,
            Refused::TemporaryTable => "there is no session for a table to be temporary to: `POST /sql` answers one statement and forgets everything about the caller, which is the same decision that refuses `USE` and `SET`. An ordinary `CREATE TABLE` and a `DROP TABLE` when you are done is the pair that survives a reconnect, a proxied connection and a retry against another node"@,
            Refused::Distribution => "distribution here is computed rather than declared: a shard is `record_id >> 20`, so which one a record lands in follows from the id it was written under and there is nothing for a clause to choose. A bucket count nothing reads would be a promise this engine does not keep - the objection `sql_unknown_setting` makes to `max_threads`. `SELECT * FROM system.parts` is where the distribution that actually happened can be seen"@,
            Refused::ComputedColumn => "a computed column is computed at one of two moments, and each has its own answer here. `ALIAS expr` is computed when the column is read, which is what a view already is: `CREATE VIEW v AS SELECT <expr> AS <name>, ... FROM t`. `MATERIALIZED expr` is computed when the row is written, which is a materialised view - and that one this build has not got (`sql_no_materialized _views`)"@,
            Refused::CompositeType => "every value stored here is one number wide, from the fact that is written to the codec that packs it, so there is nowhere to put a list or a pair. But a keyed column already holds *many* values for one record - that is what `SET` is - so `Array(String)` is `SET` under another name, and it arrives indexed: `has(arr, x)` is `WHERE c = 'x'`, and one row per element is `GROUP BY c`. A `Map` or a `Tuple` is two columns"@,
            Refused::EnumType => "an enum is written `ENUM('a', 'b')` - the values, and nothing else. The `'a' = 1` form says which integer each value is stored as, and here a mutex interns each one into the dictionary and the *dictionary* decides that number, so a written `= 1` would be a promise about storage that nothing keeps. A repeated value is refused for a nearer reason: the second one is unreachable, and a list holding fewer values than it names would make `SHOW CREATE TABLE` disagree with what was typed"@,
            Refused::ArrayJoin => "one row per element of a repeated column is `GROUP BY <the column>`, which is what a keyed column already gives: the elements are its keys, and walking them is a walk of the dictionary rather than a multiplication of rows. There is no array-valued column here for the clause to expand - see `sql_composite_type`"@,
            Refused::ArrayFunction => "a repeated column here is a `SET`, and each of these has a spelling over one: `has(c, x)` is `c = 'x'` in a `WHERE`, `arrayExists` is the same, `arrayDistinct`/`arrayUniq` is `count(DISTINCT c)`, `arraySum` is `sum(c)`, and one row per element is `GROUP BY c`. A lambda has no collection to walk for the same reason - there is no array-valued column (`sql_composite_type`)"@,
        }
    }

    /// Where this refusal sits in [`Refused::ALL`].
    pub fn rank(self) -> (r: usize)
        ensures
            r == self.rank_of(),
            r < Refused::ALL@.len(),
            Refused::ALL@[r as int] == self,
    {
        match self {
            Refused::Joins => 0,
            Refused::OuterJoin => 1,
            Refused::JoinOn => 2,
            Refused::JoinShape => 3,
            Refused::Ambiguous => 4,
            Refused::JoinFilter => 5,
            Refused::SetTooLarge => 45,
            Refused::ExplainSet => 46,
            Refused::Segment => 47,
            Refused::SegmentTable => 48,
            Refused::Subquery => 6,
            Refused::Having => 7,
            Refused::Window => 8,
            Refused::Order => 9,
            Refused::Offset => 10,
            Refused::Expression => 11,
            Refused::MultiDistinct => 12,
            Refused::Null => 13,
            Refused::Write => 14,
            Refused::InsertColumns => 15,
            Refused::InsertId => 16,
            Refused::IdColumn => 17,
            Refused::InsertSelect => 18,
            Refused::InsertSelfRead => 19,
            Refused::InsertSize => 20,
            Refused::DeleteAll => 21,
            Refused::DeleteTooLarge => 22,
            Refused::UpdateColumn => 23,
            Refused::SessionUse => 26,
            Refused::SessionSetting => 27,
            Refused::Setting => 28,
            Refused::KillTarget => 25,
            Refused::DeclarativeTtl => 24,
            Refused::SystemTable => 58,
            Refused::SystemClause => 59,
            Refused::ThreePartName => 60,
            Refused::MaterializedView => 29,
            Refused::ViewBody => 61,
            Refused::ViewColumn => 62,
            Refused::ViewDepth => 63,
            Refused::Case => 30,
            Refused::Cast => 31,
            Refused::Aggregate => 32,
            Refused::BitmapFunction => 33,
            Refused::AlterKind => 34,
            Refused::Rename => 35,
            Refused::AlterEngine => 36,
            Refused::ColumnType => 37,
            Refused::NullableType => 38,
            Refused::BitmapType => 39,
            Refused::TruncUnit => 40,
            Refused::Interval => 41,
            Refused::ScalarFilter => 42,
            Refused::GroupExpression => 44,
            Refused::Round => 43,
            Refused::Constraint => 49,
            Refused::DecimalScale => 50,
            Refused::BitDepth => 51,
            Refused::Shape => 52,
            Refused::Predicate => 53,
            Refused::TooManyCalls => 54,
            Refused::Format => 55,
            Refused::Union => 56,
            Refused::Quantile => 57,
            Refused::ExplainHalf => 64,
            Refused::ExplainRows => 65,
            Refused::CreateUser => 66,
            Refused::AclPrivilege => 67,
            Refused::AclObject => 68,
            Refused::AclColumns => 69,
            Refused::RoleGrant => 70,
            Refused::AclPublic => 71,
            Refused::GrantOption => 72,
            Refused::ReservedRole => 73,
            Refused::WithTotals => 74,
            Refused::GroupingSets => 75,
            Refused::RollupOrder => 76,
            Refused::WindowFrame => 77,
            Refused::WindowName => 78,
            Refused::Qualify => 79,
            Refused::Sketch => 80,
            Refused::Regex => 81,
            Refused::Analyze => 82,
            Refused::Optimize => 83,
            Refused::TableFunction => 84,
            Refused::NumbersTooLarge => 85,
            Refused::SequenceFunction => 86,
            Refused::Sample => 87,
            Refused::Overwrite => 88,
            Refused::CopyInto => 89,
            Refused::TemporaryTable => 90,
            Refused::Distribution => 91,
            Refused::ComputedColumn => 92,
            Refused::CompositeType => 93,
            Refused::EnumType => 94,
            Refused::ArrayJoin => 95,
            Refused::ArrayFunction => 96,
        }
    }

    /// The stable string a client matches on.
    pub fn code(self) -> (r: &'static str)
        ensures
            r@ == self.code_text(),
    {
        match self {
            Refused::Joins => "sql_no_joins",
            Refused::OuterJoin => "sql_no_outer_joins",
            Refused::JoinOn => "sql_join_condition",
            Refused::JoinShape => "sql_unsupported",
            Refused::Ambiguous => "sql_ambiguous_column",
            Refused::JoinFilter => "sql_join_filter",
            Refused::SetTooLarge => "sql_set_too_large",
            Refused::ExplainSet => "sql_explain_set",
            Refused::Segment => "sql_segment_unexpanded",
            Refused::SegmentTable => "sql_segment_table",
            Refused::Subquery => "sql_unsupported",
            Refused::Having => "sql_unsupported",
            Refused::Window => "sql_window_shape",
            Refused::Order => "sql_unsupported_order",
            Refused::Offset => "sql_unsupported",
            Refused::Expression => "sql_unsupported",
            Refused::MultiDistinct => "sql_unsupported",
            Refused::Null => "sql_no_nulls",
            Refused::Write => "sql_read_only",
            Refused::InsertColumns => "sql_insert_shape",
            Refused::InsertId => "sql_insert_shape",
            Refused::IdColumn => "sql_id_column",
            Refused::InsertSelect => "sql_unsupported",
            Refused::InsertSelfRead => "sql_insert_self_read",
            Refused::InsertSize => "sql_insert_too_large",
            Refused::DeleteAll => "sql_delete_all",
            Refused::DeleteTooLarge => "sql_delete_too_large",
            Refused::UpdateColumn => "sql_update_column",
            Refused::SessionUse => "sql_use_unsupported",
            Refused::SessionSetting => "sql_no_session_settings",
            Refused::Setting => "sql_unknown_setting",
            Refused::KillTarget => "sql_kill_target",
            Refused::DeclarativeTtl => "sql_declarative_ttl",
            Refused::SystemTable => "sql_system_table",
            Refused::SystemClause => "sql_system_clause",
            Refused::ThreePartName => "sql_ambiguous_column",
            Refused::MaterializedView => "sql_no_materialized_views",
            Refused::ViewBody => "sql_view_body",
            Refused::ViewColumn => "sql_view_column",
            Refused::ViewDepth => "sql_view_depth",
            Refused::Case => "sql_unsupported",
            Refused::Cast => "sql_unsupported",
            Refused::Aggregate => "sql_unsupported",
            Refused::BitmapFunction => "sql_bitmap_function",
            Refused::AlterKind => "sql_no_alter_column",
            Refused::Rename => "sql_no_rename",
            Refused::AlterEngine => "sql_no_alter_engine",
            Refused::ColumnType => "sql_unknown_column_type",
            Refused::NullableType => "sql_nullable_type",
            Refused::BitmapType => "sql_bitmap_type",
            Refused::TruncUnit => "sql_bad_trunc_unit",
            Refused::Interval => "sql_unsupported",
            Refused::ScalarFilter => "sql_scalar_in_filter",
            Refused::GroupExpression => "sql_group_expression",
            Refused::Round => "sql_rounded_value",
            Refused::Constraint => "sql_no_constraints",
            Refused::DecimalScale => "sql_decimal_scale",
            Refused::BitDepth => "sql_bit_depth",
            Refused::Shape => "sql_unsupported",
            Refused::Predicate => "sql_unsupported",
            Refused::TooManyCalls => "sql_too_many_aggregates",
            Refused::Format => "sql_unknown_format",
            Refused::Union => "sql_union",
            Refused::Quantile => "sql_quantile_level",
            Refused::ExplainHalf => "sql_explain_half",
            Refused::ExplainRows => "sql_explain_rows",
            Refused::CreateUser => "sql_no_users",
            Refused::AclPrivilege => "sql_unknown_privilege",
            Refused::AclObject => "sql_acl_object",
            Refused::AclColumns => "sql_acl_columns",
            Refused::RoleGrant => "sql_no_role_hierarchy",
            Refused::AclPublic => "sql_no_public",
            Refused::GrantOption => "sql_no_grant_option",
            Refused::ReservedRole => "sql_reserved_role",
            Refused::WithTotals => "sql_with_totals",
            Refused::GroupingSets => "sql_too_many_grouping_sets",
            Refused::RollupOrder => "sql_rollup_order",
            Refused::WindowFrame => "sql_window_frame",
            Refused::WindowName => "sql_window_named",
            Refused::Qualify => "sql_qualify",
            Refused::Sketch => "sql_sketch",
            Refused::Regex => "sql_no_regex",
            Refused::Analyze => "sql_no_analyze",
            Refused::Optimize => "sql_no_optimize",
            Refused::TableFunction => "sql_no_table_function",
            Refused::NumbersTooLarge => "sql_numbers_too_large",
            Refused::SequenceFunction => "sql_no_sequence_function",
            Refused::Sample => "sql_no_sample",
            Refused::Overwrite => "sql_no_overwrite",
            Refused::CopyInto => "sql_no_copy_into",
            Refused::TemporaryTable => "sql_no_temporary_table",
            Refused::Distribution => "sql_no_distribution",
            Refused::ComputedColumn => "sql_computed_column",
            Refused::CompositeType => "sql_composite_type",
            Refused::EnumType => "sql_enum_type",
            Refused::ArrayJoin => "sql_no_array_join",
            Refused::ArrayFunction => "sql_array_function",
        }
    }

    /// What this engine does instead, in a sentence.
    pub fn why(self) -> (r: &'static str)
        ensures
            r@ == self.sentence(),
    {
        match self {
            Refused::Joins => "a join here pairs records through a keyed column the tables share, written as `FROM a JOIN b ON a.k = b.k` and repeated for each further table - every one of them keyed on the same column. A comma between tables, `CROSS JOIN` and `NATURAL JOIN` name no key to pair on - the first two pair everything with everything, and the third asks the schema to choose - and a table joined on two different columns would have to be grouped by both at once, which is a pass over the second per value of the first",
            Refused::OuterJoin => "`LEFT`, `RIGHT` and `FULL` are answered, but a `FULL JOIN` only where every join in the statement is one. `(a JOIN b) FULL JOIN c` pairs on the keys `a` and `b` share unioned with `c`'s, and what this engine carries is one flag per side saying whether it has to match - which cannot tell that nesting from the union of all three. Write the full join over one pair of tables",
            Refused::JoinOn => "a join is one equality between two keyed columns, as `ON a.k = b.k`, naming the table being joined in on one side and a table already in `FROM` on the other. Two conditions would pair on a composite key this index never stored, and `USING` names one column for two tables that each keep their own dictionary",
            Refused::JoinShape => "over a join this surface answers `count(*)`, `sum`, `min`, `max` and `avg` of one table's column, and `count(DISTINCT <the join key>)` - each of which is arithmetic over the per-key counts every side produces. What it has no answer for is a *row* of a join: a pair of records has no identity this engine stores",
            Refused::Ambiguous => "with a join in the statement every column has to say which table it belongs to, as `a.amount`. The translation resolves names before it ever sees a schema, so there is nothing here to guess with",
            Refused::JoinFilter => "a `WHERE` over a join is each table's own conditions, combined with `AND`. A term that names two of them under `OR` or `NOT` selects records neither side can be filtered to on its own",
            Refused::SetTooLarge => "`IN (SELECT _record_id FROM ...)` narrows a bit-sliced column by the ids the inner set holds, and that is one equality per id - each of them a read per bit plane. A set this large is a scan wearing a `WHERE`, so it is refused with the number rather than answered slowly. Narrow the inner `WHERE`",
            Refused::ExplainSet => "a statement with `IN (SELECT ...)` has no plan until it has run: the outer call is narrowed by the ids the inner set holds, so its tree is a fact about the other table's contents rather than about the statement. Explaining the inner set on its own says everything that is fixed about it",
            Refused::Segment => "a segment is a named `WHERE` over one table, and expanding it needs the catalog the view is stored in - which this translation does not have. Reached through a server, `SEGMENT(...)` is substituted before anything is planned",
            Refused::SegmentTable => "`SEGMENT(...)` names a view whose `WHERE` becomes a term of this one, so the view has to exist, has to be over exactly one table this statement reads, and has to select by something - a view with no `WHERE` is every record of its table and defines no set",
            Refused::Subquery => "subqueries, CTEs and `UNION` between selects are not supported; a set of records is combined inside `WHERE` with `AND`, `OR` and `NOT`",
            Refused::Having => "`HAVING` compares the aggregate the select list already asked for, over a `GROUP BY` - `count(*)` when the answer carries counts, or the same `sum`, `min` or `max` it selects. A grouped answer holds one number per group, so a `HAVING` on a second one would filter on a number that is not there, and one without a `GROUP BY` has no groups to keep",
            Refused::Window => "a window is computed over the rows a **projection** read - `SELECT country, row_number() OVER (PARTITION BY country ORDER BY amount DESC) FROM t` - because that is the one answer this surface materialises as rows. A grouped answer, a tuple grouping and a join are numbers about sets rather than rows, so there is nothing for a partition to be a partition of: `ORDER BY count(*) DESC LIMIT 10` is the ranking those already carry, and `topK(n)(x)` is the same ranking as a list in one cell. A window function written without `OVER` earns this too - it is a window missing the clause that says which rows it ranks",
            Refused::Order => "a grouped answer is ordered by the grouped column or by the one aggregate the select list asked for, in either direction; `ORDER BY count(*) DESC` is the ranking the plan itself carries. An ordering that names a second aggregate names a number the answer does not hold, and a record listing has no values to order by at all",
            Refused::Offset => "`OFFSET` pages a list of groups, which this surface materialises in full before it cuts. A record listing is paged with the `after` cursor on `GET /table/{t}/records` instead: a cursor does not shift when records are inserted under it, and a skip count does",
            Refused::Expression => "an expression in the select list is computed over one column - the one the projection reads, or the one the aggregate folds - and constants beside it: `round(amount / 100, 2)` and `substring(country, 1, 2)` are answered, and so is `date_diff('day', ts, now())`. Two columns in one cell is two plans, and a projection reads one field per column; an expression over no column at all is a constant, which needs no table to be true",
            Refused::MultiDistinct => "`DISTINCT` takes one keyed column - as `SELECT DISTINCT <column>`, which is `GROUP BY <column>`, or as `count(DISTINCT <column>)`. Two of them is a grouping over a composite key this index never stored",
            Refused::Null => "there are no nulls here: a record either carries a value or the bit is not set, and neither is a null that comparisons propagate",
            Refused::Write => "the writes on this surface are `INSERT INTO t (...) VALUES (...)`, `CREATE TABLE`, `ALTER TABLE ... ADD`/`DROP COLUMN`, `DROP TABLE`, `CREATE DATABASE`/`DROP DATABASE` and `CREATE VIEW`/`DROP VIEW`. `ALTER VIEW` is `CREATE OR REPLACE VIEW`, which says the whole statement rather than a change to one; and `MERGE`, `REPLACE` and `CREATE INDEX` are each a statement with no operation behind it here: a bitmap is already the index. Write facts in volume with `POST /table/{t}/import` and use the `/table` routes for the rest",
            Refused::InsertColumns => "an `INSERT` names the columns it writes, as `INSERT INTO t (country, amount) VALUES ('GB', 100)`. This translation holds no schema - which is what keeps it a translation - so `INSERT INTO t VALUES (...)` would be positional against a field order that is not in the statement and that the next `ALTER TABLE ... ADD` moves",
            Refused::InsertId => "an `id` is a whole number: a fact is a bit at `(row, record)`, so the id is the address it is written to rather than a name for what is written there - which is why `POST /table/{t}/import` names the record on every line, why `POST /table/{t}/delete` takes ids, and why `SELECT *` answers with nothing else. Write one, as `INSERT INTO t (_record_id, country) VALUES (7, 'GB')`, or leave the column out and the server allocates one",
            Refused::IdColumn => "`_record_id` is what a record is called here, not a field it can hold: `SELECT *` answers with it, `INSERT INTO t (_record_id, ...)` writes about it, and `POST /table/{t}/delete` takes it. A field of that name could never be written through this surface - an `INSERT` would read the value as the record to write *about* - so a condition on it would answer nothing while the record sat there. It is spelled with the underscore precisely so that `id` is free for a field of yours",
            Refused::InsertSelect => "`INSERT ... SELECT` reads any answer whose cells are **values**, naming as many columns as the `INSERT` does - a projection, and a grouping just as much: a key is a string and a count is a number, and writing a merged grouping into a table is what a materialised rollup is here. What it cannot read is `SELECT *`, which answers with record *ids* - the address a fact is written to rather than anything stored in a column. The ids are allocated, so the column list may not name `_record_id` either",
            Refused::InsertSelfRead => "an `INSERT ... SELECT` reads one table and writes another. Reading and writing the same one in a single statement has no snapshot under it here: the records being written are visible to the read that is still running, so the statement would feed itself. Copy through a second table, or read it out and write it back with `POST /table/{t}/import`",
            Refused::InsertSize => "an `INSERT` carries a bounded number of rows, because the whole statement is lexed and parsed into literals before the first fact is written - so the batch is resident twice over before any of it lands. A request is bounded by its bytes as well, and that is usually the one a statement meets first. `POST /table/{t}/import` is the route for volume: one fact per line, with no statement to hold",
            Refused::DeleteAll => "a `DELETE` here names the records to clear, as `DELETE FROM t WHERE ts < '2026-01-01'`. Without a `WHERE` it names every one of them, and clearing them id by id is the most expensive way to say what `TRUNCATE TABLE t` says by freeing the fragments - which keeps the table, its fields and its row keys. `ORDER BY` and `LIMIT` are refused for a different reason: a record id is an address rather than a position, so taking the first ten of a set would clear an arbitrary ten while reading as though it had chosen them",
            Refused::DeleteTooLarge => "a delete is one transaction and nothing interrupts one: the `WHERE` is bounded by `max_execution_time`, and the clearing that follows it is not. This one selects more records than that half may carry. Narrow the `WHERE` - a window on a time column is the usual way, deleting a day or a month at a time - or lower the ceiling deliberately with `SETTINGS max_delete_records`, which may only tighten it. `TRUNCATE TABLE t` is the whole-table spelling and costs fragments rather than records",
            Refused::UpdateColumn => "that column holds every value a record was ever given, so writing a new one adds it rather than replacing it - and there is no per-value unset below this surface to remove the old. What updates in place are the columns where one record holds one value: the integer, decimal and float columns, `MUTEX` and `BOOL`. For a `SET` or a `TIMEQUANTUM`, delete the record and write it again, which is two statements because it is two operations",
            Refused::SessionUse => "`USE` asks this surface to remember a database between statements, and it remembers nothing: one statement is one request, answered and forgotten. The database is per request - send `?database=sales`, or qualify the name as `sales.orders`. `bigctl` accepts `USE` and does exactly that for you",
            Refused::SessionSetting => "`SET` asks this surface to remember a limit between statements, and it remembers nothing: one statement is one request, answered and forgotten - the same reason `USE` is refused. A limit is written on the statement it bounds, as `SELECT ... SETTINGS max_execution_time = 30`, which is also the only spelling that survives a reconnect, a pooled proxy connection or a retry on another node. The keys are `max_execution_time` (seconds), `max_memory_usage` (bytes), `max_result_rows` and `max_delete_records`, and each may only lower what the server allows",
            Refused::Setting => "that key names no limit this engine reads. The three it reads are `max_execution_time` (seconds a read may run), `max_memory_usage` (bytes of bitmap it may hold) and `max_result_rows` (records it may read back). `max_threads`, `max_block_size` and `join_algorithm` are refused rather than accepted and ignored: there are no bind parameters here, so a key was typed, and a dropped one is a statement running without the bound its author believes it has",
            Refused::KillTarget => "`KILL QUERY` names one running query by its id, as `KILL QUERY '<node>/<n>'` or `KILL QUERY WHERE query_id = '<node>/<n>'`. `SHOW PROCESSLIST` says what the ids are. A predicate over users, tables or elapsed time would kill a set nobody named - and a different set each time it ran - and `KILL MUTATION` names work this engine does not queue: a schema change is applied and finished, with no background rewrite left to cancel",
            Refused::DeclarativeTtl => "`TTL` names a promise to expire data on its own, and there is nothing here to keep one: this database has no scheduler and the library under it starts no threads. What exists is the statement that does it when you run it - `ALTER TABLE t DROP DAYS BEFORE '2026-01-01' ON ts` - which travels to every node the way a schema change does, so no two of them disagree about what a window holds. Note what it removes: the per-period *index* over those days, not the records. A `BETWEEN` stops finding them and `count(*)` does not change; `DELETE FROM t WHERE ts < '2026-01-01'` is the one that removes them. Run it from cron",
            Refused::SystemTable => "there is no such view under `system.`. This build has `system.tables` (every table and view, in every database), `system.columns` (every column of every table), `system.databases` and `system.parts` (every fragment: table, field, view and shard, which is the one thing no other statement shows). `system` is not a database anybody creates, so a name here is a question about this engine rather than about your schema - `system.query_log` and `system.processlist` would each need state this build does not keep",
            Refused::SystemClause => "a system view answers in full, and the clause it takes is `WHERE database = '<name>'` - on `system.columns` and `system.parts` also `WHERE table = '<name>'`, joined by `AND`. Those two are the only ones because they are already what `SHOW TABLES FROM d` and `DESCRIBE t` pass underneath; the answer is a set of rows read out of the catalog rather than a plan over bitmaps, so there is nothing here for a join, a grouping, an ordering, a limit or a `SETTINGS` budget to act on. Order it and cut it in the client, or select the columns you want by name",
            Refused::ThreePartName => "a column is qualified by an alias and nothing else, so `sales.orders.amount` has one name too many. A table is qualified - `FROM sales.orders` - and a column then reaches it through an alias: `FROM sales.orders o WHERE o.amount > 5`",
            Refused::MaterializedView => "a materialised view is a table plus a promise to keep it current, and nothing here keeps that promise. A plain `CREATE VIEW` does exist - it is a name for a statement, re-planned at every read - and the materialised half is written out loud: create a table and write the answer into it",
            Refused::ViewBody => "a view here is a filter and a projection over one table: `SELECT <columns> FROM <table> [WHERE ...]`. It is inlined into the statement that reads it, and there is no subquery below to nest one in - so a body that groups, aggregates, joins, orders or limits has no statement to become. `*` is refused too: a view is re-planned at every read, so a body written with one would start exposing whatever column the table gains next. A view names the columns it exposes",
            Refused::ViewColumn => "the view does not expose that column, which is most of what a view is for. `SHOW CREATE VIEW` says what it does expose; reading the column means going to the table underneath, or a view that names it",
            Refused::ViewDepth => "views nested too deep. A view over a view is expanded by substitution, so the depth is a bound on the statement this becomes rather than a taste in schemas",
            Refused::Case => "a case here is written out in full - `CASE WHEN amount > 500 THEN 'big' ELSE 'small' END` - and `if(cond, a, b)`, `multiIf(...)`, `coalesce`, `nullIf` and `ifNull` are answered too. The short form, `CASE amount WHEN 500 THEN ...`, is the same statement with the comparison factored out, and there is one spelling of it so that two trees cannot come to disagree about what they answer",
            Refused::Cast => "a value's type is its field's, decided when the field was created: a keyed column is a string in a dictionary and an integer column is bit planes, and neither has a representation the other could be read as. A column that should be counted as a number is an `INT` field, and one that should be grouped is a `SET`",
            Refused::Aggregate => "the aggregates here are `count`, `sum`, `min`, `max`, `avg`, `uniq` (which is `count(DISTINCT x)`), `topK` and `quantile`, each of which is a fold over bit planes or over a grouping - which is why every one of them is exact. `argMin`, `argMax`, `stddev`, `varPop` and `corr` need each record's value revisited against a running total, and this engine holds bits at `(row, record)` rather than values to revisit",
            Refused::BitmapFunction => "every one of these already has an answer here, spelled the way the rest of the dialect is spelled - the bitmaps are the storage, not a value to pass between functions. `bitmap_count` and `bitmapCardinality` are `count(DISTINCT x)`, and exact, because the cardinality of a bitmap is a popcount - which is also why `uniq`, `uniqHLL12` and `approx_count_distinct` are read as written and answered exactly rather than refused at all; `bsi_sum` is `sum(x)` and `bsi_range` is `x BETWEEN a AND b`, both folds over bit planes; `bitmap_and` is `AND` and `bitmap_andnot` is `NOT IN (SELECT _record_id FROM ...)`; `to_bitmap` and `groupBitmapState` name what a `SET` column already did when the fact was written. What has no spelling here is a bitmap held *in* a column, which is what a `BITMAP` type would be",
            Refused::AlterKind => "a field's kind decides how every fact in it was routed and its bit depth is how many bitmaps hold a value, so neither can change without rewriting every fact ever written to it. Add a second field, copy into it, and drop the first - which is three statements because it is three changes, not one hidden inside a `MODIFY` that would look free. To rebuild the whole table instead, create it beside this one and `EXCHANGE TABLES` them",
            Refused::Rename => "a field's name is what routes a fact to a bitmap, and nothing below this renames one: a new name means a new field, the facts copied into it, and the old one dropped. A *table* is not reached by name below the catalog - it is reached by an interned id, which is why `ALTER TABLE t RENAME TO u` costs one record and is a statement this surface has",
            Refused::AlterEngine => "the engine a table stores under is fixed when it is created: it decides what is written for every fact, and the facts already written were written under the old one. Create a second table under the engine you want, copy into it, then `EXCHANGE TABLES old AND new` - which puts it in place in one change and leaves the old one under the other name",
            Refused::ColumnType => "a column takes one of `SET`, `MUTEX`, `BOOL`, `TIMEQUANTUM`, `SIGNED`, `UINT(bits)`, `DECIMAL(precision, scale)`, `FLOAT32`, `FLOAT64`, `DATE`, `DATETIME`, or a SQL spelling of one of those: `TEXT`, `VARCHAR`, `CHAR` and `STRING` are a set, `TINYINT`, `SMALLINT`, `INT`, `INTEGER` and `BIGINT` are an unsigned integer of 8, 16, 32, 32 and 64 bits, `BOOLEAN` is a bool, `FLOAT` and `REAL` are a `FLOAT32`, `DOUBLE` is a `FLOAT64`, and `TIMESTAMP` is a `DATETIME`. `LowCardinality(String)` is a set too - that is what a set already is here, one bitmap per interned key - but only over a string: a number is bit planes, with no dictionary to be low cardinality of. None of them takes a width in brackets that its name does not already carry: `FLOAT(10, 2)` is a `DECIMAL(10, 2)`, which keeps those digits exactly where a float would not. There is nothing here a blob or a JSON document lands in - a document is a `TEXT` column, and `JSONExtractString(c, 'k')` reads a key out of one. `IPv4` is not on this list at all: it is read as the `UINT(32)` an address is. `UUID` and `IPv6` are, and the difference is what would be lost - both are 128 bits where a bit-sliced value stops at 64, so the only column they could land in is a keyed one, which answers `=` but not `<`. Declare them `TEXT` if equality is all you need, and know that is what you have",
            Refused::NullableType => "absence is already how a column answers here, so there is no wrapper to declare: a record either has the bit set for a value or it does not, and `SELECT *` says so by leaving the cell out. `Nullable(String)` would add a second way to be absent that nothing below could tell from the first. Declare the type itself - `TEXT`, `INT`, `DECIMAL(10, 2)` - and read the absence off the answer",
            Refused::BitmapType => "a bitmap is not a value a column holds here; it is what every column already is. A `SET` column is one bitmap per interned key and an integer column is one per bit plane, so a `BITMAP` column would be a bitmap inside a bitmap. Declare `SET` for the column you would have built one from: `count(DISTINCT x)` over it is the cardinality, and it is exact rather than a sketch",
            Refused::TruncUnit => "`date_trunc` rounds a moment back to a boundary, and the boundary has to be one the calendar has: year, quarter, month, week, day, hour, minute or second. A `DATE` counts whole days, so nothing below a day means anything about one",
            Refused::Interval => "this dialect writes the rounding as `date_trunc('month', ts)` and not as an interval: there is one spelling so that two of them cannot come to disagree about what a month is",
            Refused::ScalarFilter => "a scalar runs on a value that has been read, and a `WHERE` runs before any has been: it chooses a set out of bitmaps, so there is nothing here for one to apply to. The roundings are the exception, because they can be turned around rather than run - `date_trunc('month', ts) = '2024-01-01'` is every value in `[2024-01-01, 2024-02-01)`, which is a range off the bit planes - and `date_trunc`, `toDate` and `toYear` are answered here for that reason. This one cannot be turned around: `lower(country) = 'gb'` and `abs(balance) > 5` each have answers scattered across the column rather than gathered into a range. Write the comparison against the column itself",
            Refused::GroupExpression => "a `GROUP BY` term is a column, or `date_trunc(<boundary>, <column>)` over a DATE or DATETIME column - those are the two the engine has a plan for. Any other expression over a column relabels its values without merging them, which answers one row per stored value with all of them printed under one name",
            Refused::Round => "no rounding ever produces this value, so nothing could match it: `date_trunc('month', ts)` answers the first day of a month, and `'2024-01-15'` is not one. Compare against the boundary that contains it - `= '2024-01-01'` - or write the range itself, `ts >= '2024-01-15'`. Another engine answers this with no rows; it is refused here because there are no bind parameters in this dialect, so the value was typed rather than substituted, and an empty answer to a typo reads as a table with nothing in that month",
            Refused::Constraint => "a column list here declares fields and nothing else: there are no rows for `PRIMARY KEY` to be unique over, no nulls for `NOT NULL` to exclude, and no write path that would apply a `DEFAULT` to a record nobody wrote a fact for",
            Refused::DecimalScale => "a decimal is written `DECIMAL(precision, scale)` - digits in total, then digits after the point. Neither is optional: `DECIMAL` alone is an integer wearing a different name, and `price > 5` means `> 500` on a field with two digits after the point, so the number a comparison is against depends on it",
            Refused::BitDepth => "a value occupies between 1 and 64 bits here, one bitmap per bit. Wider than 64 is wider than the integer a value is read back into; narrower than 1 is no value at all",
            Refused::Shape => "a statement answers one question: an aggregate, or a grouped column and one aggregate of it",
            Refused::Predicate => "a condition compares a column with a value using `=`, `!=`, `<`, `<=`, `>`, `>=`, `IN` or `BETWEEN`; there is no pattern matching and no arithmetic",
            Refused::TooManyCalls => "a select list asks for one plan per aggregate and a join for one per table, and each is fanned out and merged on its own - so the number of them is what the statement costs in round trips. Ask for at most 16, counting `avg` as two: a sum and a count",
            Refused::Format => "the formats this surface writes are `JSON`, `JSONCompact`, `TSV`, `TabSeparated`, `TSVWithNames`, `TabSeparatedWithNames`, `CSV` and `CSVWithNames`. Anything else would be a spelling of bytes nobody here produces",
            Refused::Union => "`UNION ALL` stacks two answers with the same number of columns, named by the first. A plain `UNION` removes duplicate rows, and a row here is a rendered answer rather than a stored tuple - there is nothing to compare two of them by that is not comparing strings",
            Refused::Quantile => "a quantile takes a level between 0 and 1 with at most three digits after the point, as `quantile(0.95)(amount)`; `median(amount)` is `quantile(0.5)`. A finer level would name a place in the distribution no number of records this engine holds could resolve",
            Refused::ExplainHalf => "`PLAN` and `SHAPE` name the two halves of a query's explanation - the plans its calls resolve to, and the columns and clauses its answer takes. A schema change, a write and a question about the catalog have one description and no halves, so `EXPLAIN` on its own is the whole of what there is to ask for",
            Refused::ExplainRows => "`EXPLAIN` is answered as rows - one line of the description per row, under a column called `explain` - and this surface resolves a statement to plans instead, of which an explanation has none. Nothing is wrong with the statement: ask it of the surface that builds result sets",
            Refused::CreateUser => "people are not stored in this database. A credential is a line in the users file the server reads off its own disk, written with `big passwd`, and a route that could write one would let an `admin` password rewrite the password file over the network. What SQL administers is roles - `CREATE ROLE`, `GRANT`, `REVOKE` - and the users file says who holds one",
            Refused::AclPrivilege => "the privileges are SELECT, INSERT, DELETE, CREATE, DROP, ALTER and ROLES, or ALL for every one grantable on the object named",
            Refused::AclObject => "a privilege has to mean something where it is granted: ROLES is held on `*.*` or nowhere, because a role that could hand out privileges inside one database would still be handing out the power to hand them out; and CREATE is held on `*.*` or `db.*`, because a table that exists is not one there is anything left to create",
            Refused::AclColumns => "grants here are per table. This surface answers questions over whole tables, so a privilege on some columns of one would be a fence that a slightly different question walks around - grant on the table, or keep the columns somebody may not read in a table of their own",
            Refused::RoleGrant => "a role does not hold another role. What was written names a role where a privilege belongs: grant the privileges themselves, or give the person the other role in the users file. One name resolving to a set of others is a graph whose answer depends on how far it is walked",
            Refused::AclPublic => "there is no role everybody holds. A privilege nobody was given and everybody has is one that no listing explains and no revoke reaches - make a role, grant it what it needs, and name it in the users file for whoever should hold it",
            Refused::GrantOption => "a grant cannot be passed on. Delegation here is one privilege, ROLES on `*.*`, which is the power to administer every role - held or not, with nothing in between, because the levels between are what nobody can audit",
            Refused::ReservedRole => "`superuser` holds everything and exists without being created. It is what a database whose catalog is empty is recovered through, so it cannot be made, dropped, or narrowed by a grant - name any other role",
            Refused::WithTotals => "`WITH TOTALS` puts the grand total outside the rows, in a `totals` field beside them - and a result set here is columns and rows, one definition all five formats render from, so there is nowhere for it to go. The same number as a *row* is `GROUP BY a WITH ROLLUP`, whose last row is the empty grouping set; `grouping(a)` is what tells that row from a group whose key this node was never told",
            Refused::GroupingSets => "`ROLLUP`, `CUBE` and `GROUPING SETS` are one grouping per set - a call planned, fanned out to every owner and merged on its own - so the number of sets multiplied by the aggregates in the select list is what the statement costs in round trips, against the same budget every select list answers to. `CUBE` over four columns is sixteen sets, which is that whole budget before a second aggregate is named. `WITH ROLLUP` is one set per prefix - five for four columns - and `GROUPING SETS ((a,b),(a),())` names exactly the ones you want, up to eight",
            Refused::RollupOrder => "a `ROLLUP`, `CUBE` or `GROUPING SETS` answer is one grouping per set, rendered one after the other - the same stacking `UNION ALL` is - so there is no single list for an `ORDER BY` to sort or a `LIMIT` to cut. Ordering each set on its own would look sorted and not be, and a `LIMIT 10` would answer with ten rows per set. The rows do arrive in a fixed order - the sets longest first, each in its own key order - so order and cut them in the client, or write the one set you want ordered as its own `GROUP BY`",
            Refused::WindowFrame => "a window here is computed over the whole partition in the order given, which is the default frame for `row_number`, `rank`, `lag`, `first_value` and the rest of those two families - so `ROWS`, `RANGE`, `GROUPS` and `EXCLUDE` have nothing to narrow and are refused rather than accepted and ignored. An `ORDER BY` under `sum`, `avg`, `count`, `min` or `max` says the same thing: the running total, whose frame is `RANGE UNBOUNDED PRECEDING` and whose answer is a different number from the partition total. Write `sum(x) OVER (PARTITION BY c)` for the partition total, and order the answer itself",
            Refused::WindowName => "a window is written where it is used - `row_number() OVER (PARTITION BY country ORDER BY amount DESC)` - and there is no `WINDOW w AS (...)` to name one somewhere else. A name would be a second place for the clause to live and a second thing to keep in step with the first; writing it out at each entry is longer and says what it does",
            Refused::Qualify => "`QUALIFY` filters on a window function's own output, which exists only once every row of every partition has been read - so it is a second pass over the finished answer rather than anything a plan could carry. `WHERE` narrows the records the window then ranks, which is the cheap half and usually the one that was meant; filter on the ranking itself in the client",
            Refused::Sketch => "there is no sketch here because there is nothing for one to approximate: `count(DISTINCT x)` is the cardinality of a bitmap, which is a popcount - exact, and paid per container rather than per record. `uniq`, `uniqExact`, `uniqCombined`, `uniqCombined64`, `uniqHLL12`, `uniqTheta` and `approx_count_distinct` are all accepted exactly as written and all answered exactly, and `quantile`, `quantileExact` and `median` are exact too. A `-State`/`-Merge` pair exists elsewhere to carry a partial sketch between queries; the partial result that travels between nodes here **is** the bitmap, and the engine merges it",
            Refused::Regex => "the pattern language here is `LIKE`'s: `%` for any run of characters, `_` for exactly one, and `ILIKE` to fold case. It runs over a keyed column's **dictionary** rather than over records - each distinct string is stored once with the bitmap of the records holding it - so `country LIKE 'G%'` costs the field's cardinality once where a row engine pays it per record. A regular expression engine in that loop would be a dependency, a compile step and a class of pathological pattern, to implement two characters. Write `LIKE` or `ILIKE`, or `IN (...)` for a fixed set of values",
            Refused::Analyze => "there are no statistics to gather. The planner here is purely syntactic - a call resolves against the schema, and nothing about the data changes which plan it becomes - so there is no cost model for an `ANALYZE` to feed. What this engine keeps instead is a zone map per fragment, `min`, `max`, `bit_depth` and whether it holds values, written as facts are and therefore never stale; it is already readable as `SELECT * FROM system.parts`. `EXPLAIN <statement>` is the whole of what this surface says about a statement, and it says it without running one. And `EXPLAIN ANALYZE` in the other sense - run it, then report what it cost - is absent for a second reason worth separating from the first: the numbers exist per node, but nothing carries them back beside the answer and nothing says how two nodes' would merge",
            Refused::Optimize => "compaction here is whole-file rather than per part, because there are no parts to merge: a fragment is a range of records inside one page store, and what accumulates is free pages rather than small files. Rewriting the store into a fresh one and swapping it in is a server operation - `POST /admin/backup` - rather than a statement, because it needs the file's exclusive lock, which a statement running inside a read does not hold. `SELECT * FROM system.parts` is what says whether it is worth doing",
            Refused::TableFunction => "the one table function here is `numbers(n)`, which counts. Reading an external source needs a catalog this build has not got - `s3`, `url` and `file` are the external-catalog milestone - and loading data is `POST /table/{t}/import`, which streams it in without a statement having to name a path",
            Refused::NumbersTooLarge => "`numbers(n)` builds every row at the coordinator before any of them is written out, so the count is the only bound there is: `SETTINGS max_result_rows` bounds a query, and this is answered from the catalog side without ever reaching a read. Ask for fewer, or write the rows into a table and select from that",
            Refused::SequenceFunction => "`neighbor(x, n)` is `lag(x, n)` backwards and `lead(x, n)` forwards, and this dialect writes it as whichever one was meant - one spelling per operation, so two cannot come to disagree about which direction a sign means. `runningDifference(x)` is here and is `x - lag(x, 1)`. `sequenceMatch`, `windowFunnel` and `retention` are not: each is a pattern over a *sliding window* of rows, which is the frame `sql_window_frame` refuses, plus a pattern language over them. Counting by period is `GROUP BY date_trunc(...)`",
            Refused::Sample => "`SAMPLE` takes one record in every `n`, written as `SAMPLE 10`, `SAMPLE 1/10` or `SAMPLE 0.1` - three spellings of one stride. A fraction that is not one over a whole number has no stride: `0.3` would be one in 3.33, and answering it as one in three is a tenth more data than was asked for under the name that was asked for. `SAMPLE BY` is a different thing again - it names the column a sample is drawn on, and here the unit is the record id, which is not a column",
            Refused::Overwrite => "`INSERT OVERWRITE` is answered, but not at a partition: a shard here is `record_id >> 20`, computed from the id a record was written under, so there is nothing for `PARTITION (...)` to name. Write the statement without it. Note what the plain form does and does not promise - it empties and then writes, and nothing wraps those two in one transaction, so a crash between them leaves the table empty. For a replacement that is genuinely atomic, write into a second table and `EXCHANGE TABLES` them",
            Refused::CopyInto => "loading data is `POST /table/{t}/import`, which streams rows in without a statement having to name a path the server can reach. Reading object storage from inside a query is an external catalog, and that is a milestone of its own rather than a clause",
            Refused::TemporaryTable => "there is no session for a table to be temporary to: `POST /sql` answers one statement and forgets everything about the caller, which is the same decision that refuses `USE` and `SET`. An ordinary `CREATE TABLE` and a `DROP TABLE` when you are done is the pair that survives a reconnect, a proxied connection and a retry against another node",
            Refused::Distribution => "distribution here is computed rather than declared: a shard is `record_id >> 20`, so which one a record lands in follows from the id it was written under and there is nothing for a clause to choose. A bucket count nothing reads would be a promise this engine does not keep - the objection `sql_unknown_setting` makes to `max_threads`. `SELECT * FROM system.parts` is where the distribution that actually happened can be seen",
            Refused::ComputedColumn => "a computed column is computed at one of two moments, and each has its own answer here. `ALIAS expr` is computed when the column is read, which is what a view already is: `CREATE VIEW v AS SELECT <expr> AS <name>, ... FROM t`. `MATERIALIZED expr` is computed when the row is written, which is a materialised view - and that one this build has not got (`sql_no_materialized _views`)",
            Refused::CompositeType => "every value stored here is one number wide, from the fact that is written to the codec that packs it, so there is nowhere to put a list or a pair. But a keyed column already holds *many* values for one record - that is what `SET` is - so `Array(String)` is `SET` under another name, and it arrives indexed: `has(arr, x)` is `WHERE c = 'x'`, and one row per element is `GROUP BY c`. A `Map` or a `Tuple` is two columns",
            Refused::EnumType => "an enum is written `ENUM('a', 'b')` - the values, and nothing else. The `'a' = 1` form says which integer each value is stored as, and here a mutex interns each one into the dictionary and the *dictionary* decides that number, so a written `= 1` would be a promise about storage that nothing keeps. A repeated value is refused for a nearer reason: the second one is unreachable, and a list holding fewer values than it names would make `SHOW CREATE TABLE` disagree with what was typed",
            Refused::ArrayJoin => "one row per element of a repeated column is `GROUP BY <the column>`, which is what a keyed column already gives: the elements are its keys, and walking them is a walk of the dictionary rather than a multiplication of rows. There is no array-valued column here for the clause to expand - see `sql_composite_type`",
            Refused::ArrayFunction => "a repeated column here is a `SET`, and each of these has a spelling over one: `has(c, x)` is `c = 'x'` in a `WHERE`, `arrayExists` is the same, `arrayDistinct`/`arrayUniq` is `count(DISTINCT c)`, `arraySum` is `sum(c)`, and one row per element is `GROUP BY c`. A lambda has no collection to walk for the same reason - there is no array-valued column (`sql_composite_type`)",
        }
    }
}

/// A refusal sits in the list of all of them where its rank says, and the rank of whatever sits
/// somewhere is that place.
pub proof fn a_rank_is_a_place_in_the_list(r: Refused, i: int)
    requires
        0 <= i < Refused::ALL@.len(),
    ensures
        r.rank_of() < Refused::ALL@.len(),
        Refused::ALL@[r.rank_of() as int] == r,
        Refused::ALL@[i].rank_of() == i,
{
}

/// No two refusals share a rank.
pub proof fn refusal_ranks_are_distinct(a: Refused, b: Refused)
    ensures
        a.rank_of() == b.rank_of() <==> a == b,
{
}

/// The list of all refusals leaves none out and names none twice.
pub proof fn every_refusal_is_listed(r: Refused)
    ensures
        Refused::ALL@.contains(r),
        Refused::ALL@.no_duplicates(),
{
    a_rank_is_a_place_in_the_list(r, 0);
    assert forall|i: int, j: int|
        0 <= i < Refused::ALL@.len() && 0 <= j < Refused::ALL@.len() && i != j implies Refused::ALL@[i]
        != Refused::ALL@[j] by {
        a_rank_is_a_place_in_the_list(r, i);
        a_rank_is_a_place_in_the_list(r, j);
    }
}

/// The refusals that share a code, each a set of mistakes a client mends the same way. Zero is for
/// those whose code is their own.
pub open spec fn code_group(r: Refused) -> nat {
    match r {
        Refused::Ambiguous | Refused::ThreePartName => 1,
        Refused::InsertColumns | Refused::InsertId => 2,
        Refused::Subquery | Refused::Having | Refused::Offset | Refused::Expression
        | Refused::MultiDistinct | Refused::Shape | Refused::JoinShape | Refused::InsertSelect
        | Refused::Case | Refused::Cast | Refused::Aggregate | Refused::Predicate
        | Refused::Interval => 3,
        _ => 0,
    }
}

/// What tells the codes apart: how long each is, and three of its characters.
spec fn mark(code: Seq<char>) -> (int, char, char, char) {
    (code.len() as int, code[4], code[7], code[code.len() - 2])
}

/// Two refusals share a code exactly where they are of one group, and the largest group's code says
/// that the statement is not supported.
pub proof fn codes_are_shared_within_a_group(a: Refused, b: Refused)
    ensures
        a.code_text() == b.code_text() <==> a == b || (code_group(a) == code_group(b)
            && code_group(a) != 0),
        code_group(a) == 3 <==> a.code_text() == "sql_unsupported"@,
{
    reveal_strlit("sql_acl_columns");
    reveal_strlit("sql_acl_object");
    reveal_strlit("sql_ambiguous_column");
    reveal_strlit("sql_array_function");
    reveal_strlit("sql_bad_trunc_unit");
    reveal_strlit("sql_bit_depth");
    reveal_strlit("sql_bitmap_function");
    reveal_strlit("sql_bitmap_type");
    reveal_strlit("sql_composite_type");
    reveal_strlit("sql_computed_column");
    reveal_strlit("sql_decimal_scale");
    reveal_strlit("sql_declarative_ttl");
    reveal_strlit("sql_delete_all");
    reveal_strlit("sql_delete_too_large");
    reveal_strlit("sql_enum_type");
    reveal_strlit("sql_explain_half");
    reveal_strlit("sql_explain_rows");
    reveal_strlit("sql_explain_set");
    reveal_strlit("sql_group_expression");
    reveal_strlit("sql_id_column");
    reveal_strlit("sql_insert_self_read");
    reveal_strlit("sql_insert_shape");
    reveal_strlit("sql_insert_too_large");
    reveal_strlit("sql_join_condition");
    reveal_strlit("sql_join_filter");
    reveal_strlit("sql_kill_target");
    reveal_strlit("sql_no_alter_column");
    reveal_strlit("sql_no_alter_engine");
    reveal_strlit("sql_no_analyze");
    reveal_strlit("sql_no_array_join");
    reveal_strlit("sql_no_constraints");
    reveal_strlit("sql_no_copy_into");
    reveal_strlit("sql_no_distribution");
    reveal_strlit("sql_no_grant_option");
    reveal_strlit("sql_no_joins");
    reveal_strlit("sql_no_materialized_views");
    reveal_strlit("sql_no_nulls");
    reveal_strlit("sql_no_optimize");
    reveal_strlit("sql_no_outer_joins");
    reveal_strlit("sql_no_overwrite");
    reveal_strlit("sql_no_public");
    reveal_strlit("sql_no_regex");
    reveal_strlit("sql_no_rename");
    reveal_strlit("sql_no_role_hierarchy");
    reveal_strlit("sql_no_sample");
    reveal_strlit("sql_no_sequence_function");
    reveal_strlit("sql_no_session_settings");
    reveal_strlit("sql_no_table_function");
    reveal_strlit("sql_no_temporary_table");
    reveal_strlit("sql_no_users");
    reveal_strlit("sql_nullable_type");
    reveal_strlit("sql_numbers_too_large");
    reveal_strlit("sql_qualify");
    reveal_strlit("sql_quantile_level");
    reveal_strlit("sql_read_only");
    reveal_strlit("sql_reserved_role");
    reveal_strlit("sql_rollup_order");
    reveal_strlit("sql_rounded_value");
    reveal_strlit("sql_scalar_in_filter");
    reveal_strlit("sql_segment_table");
    reveal_strlit("sql_segment_unexpanded");
    reveal_strlit("sql_set_too_large");
    reveal_strlit("sql_sketch");
    reveal_strlit("sql_system_clause");
    reveal_strlit("sql_system_table");
    reveal_strlit("sql_too_many_aggregates");
    reveal_strlit("sql_too_many_grouping_sets");
    reveal_strlit("sql_union");
    reveal_strlit("sql_unknown_column_type");
    reveal_strlit("sql_unknown_format");
    reveal_strlit("sql_unknown_privilege");
    reveal_strlit("sql_unknown_setting");
    reveal_strlit("sql_unsupported");
    reveal_strlit("sql_unsupported_order");
    reveal_strlit("sql_update_column");
    reveal_strlit("sql_use_unsupported");
    reveal_strlit("sql_view_body");
    reveal_strlit("sql_view_column");
    reveal_strlit("sql_view_depth");
    reveal_strlit("sql_window_frame");
    reveal_strlit("sql_window_named");
    reveal_strlit("sql_window_shape");
    reveal_strlit("sql_with_totals");
    if a.code_text() == b.code_text() {
        assert(mark(a.code_text()) == mark(b.code_text()));
    }
    if a.code_text() == "sql_unsupported"@ {
        assert(mark(a.code_text()) == mark("sql_unsupported"@));
    }
}

/// Every code is in the dialect's own namespace, and every refusal says something.
pub proof fn every_refusal_has_a_code_and_a_reason(r: Refused)
    ensures
        r.code_text().len() > 4,
        r.code_text().take(4) == "sql_"@,
        r.sentence().len() > 20,
{
    reveal_strlit("sql_");
    reveal_strlit("sql_acl_columns");
    reveal_strlit("sql_acl_object");
    reveal_strlit("sql_ambiguous_column");
    reveal_strlit("sql_array_function");
    reveal_strlit("sql_bad_trunc_unit");
    reveal_strlit("sql_bit_depth");
    reveal_strlit("sql_bitmap_function");
    reveal_strlit("sql_bitmap_type");
    reveal_strlit("sql_composite_type");
    reveal_strlit("sql_computed_column");
    reveal_strlit("sql_decimal_scale");
    reveal_strlit("sql_declarative_ttl");
    reveal_strlit("sql_delete_all");
    reveal_strlit("sql_delete_too_large");
    reveal_strlit("sql_enum_type");
    reveal_strlit("sql_explain_half");
    reveal_strlit("sql_explain_rows");
    reveal_strlit("sql_explain_set");
    reveal_strlit("sql_group_expression");
    reveal_strlit("sql_id_column");
    reveal_strlit("sql_insert_self_read");
    reveal_strlit("sql_insert_shape");
    reveal_strlit("sql_insert_too_large");
    reveal_strlit("sql_join_condition");
    reveal_strlit("sql_join_filter");
    reveal_strlit("sql_kill_target");
    reveal_strlit("sql_no_alter_column");
    reveal_strlit("sql_no_alter_engine");
    reveal_strlit("sql_no_analyze");
    reveal_strlit("sql_no_array_join");
    reveal_strlit("sql_no_constraints");
    reveal_strlit("sql_no_copy_into");
    reveal_strlit("sql_no_distribution");
    reveal_strlit("sql_no_grant_option");
    reveal_strlit("sql_no_joins");
    reveal_strlit("sql_no_materialized_views");
    reveal_strlit("sql_no_nulls");
    reveal_strlit("sql_no_optimize");
    reveal_strlit("sql_no_outer_joins");
    reveal_strlit("sql_no_overwrite");
    reveal_strlit("sql_no_public");
    reveal_strlit("sql_no_regex");
    reveal_strlit("sql_no_rename");
    reveal_strlit("sql_no_role_hierarchy");
    reveal_strlit("sql_no_sample");
    reveal_strlit("sql_no_sequence_function");
    reveal_strlit("sql_no_session_settings");
    reveal_strlit("sql_no_table_function");
    reveal_strlit("sql_no_temporary_table");
    reveal_strlit("sql_no_users");
    reveal_strlit("sql_nullable_type");
    reveal_strlit("sql_numbers_too_large");
    reveal_strlit("sql_qualify");
    reveal_strlit("sql_quantile_level");
    reveal_strlit("sql_read_only");
    reveal_strlit("sql_reserved_role");
    reveal_strlit("sql_rollup_order");
    reveal_strlit("sql_rounded_value");
    reveal_strlit("sql_scalar_in_filter");
    reveal_strlit("sql_segment_table");
    reveal_strlit("sql_segment_unexpanded");
    reveal_strlit("sql_set_too_large");
    reveal_strlit("sql_sketch");
    reveal_strlit("sql_system_clause");
    reveal_strlit("sql_system_table");
    reveal_strlit("sql_too_many_aggregates");
    reveal_strlit("sql_too_many_grouping_sets");
    reveal_strlit("sql_union");
    reveal_strlit("sql_unknown_column_type");
    reveal_strlit("sql_unknown_format");
    reveal_strlit("sql_unknown_privilege");
    reveal_strlit("sql_unknown_setting");
    reveal_strlit("sql_unsupported");
    reveal_strlit("sql_unsupported_order");
    reveal_strlit("sql_update_column");
    reveal_strlit("sql_use_unsupported");
    reveal_strlit("sql_view_body");
    reveal_strlit("sql_view_column");
    reveal_strlit("sql_view_depth");
    reveal_strlit("sql_window_frame");
    reveal_strlit("sql_window_named");
    reveal_strlit("sql_window_shape");
    reveal_strlit("sql_with_totals");
    reveal_strlit("a join here pairs records through a keyed column the tables share, written as `FROM a JOIN b ON a.k = b.k` and repeated for each further table - every one of them keyed on the same column. A comma between tables, `CROSS JOIN` and `NATURAL JOIN` name no key to pair on - the first two pair everything with everything, and the third asks the schema to choose - and a table joined on two different columns would have to be grouped by both at once, which is a pass over the second per value of the first");
    reveal_strlit("`LEFT`, `RIGHT` and `FULL` are answered, but a `FULL JOIN` only where every join in the statement is one. `(a JOIN b) FULL JOIN c` pairs on the keys `a` and `b` share unioned with `c`'s, and what this engine carries is one flag per side saying whether it has to match - which cannot tell that nesting from the union of all three. Write the full join over one pair of tables");
    reveal_strlit("a join is one equality between two keyed columns, as `ON a.k = b.k`, naming the table being joined in on one side and a table already in `FROM` on the other. Two conditions would pair on a composite key this index never stored, and `USING` names one column for two tables that each keep their own dictionary");
    reveal_strlit("over a join this surface answers `count(*)`, `sum`, `min`, `max` and `avg` of one table's column, and `count(DISTINCT <the join key>)` - each of which is arithmetic over the per-key counts every side produces. What it has no answer for is a *row* of a join: a pair of records has no identity this engine stores");
    reveal_strlit("with a join in the statement every column has to say which table it belongs to, as `a.amount`. The translation resolves names before it ever sees a schema, so there is nothing here to guess with");
    reveal_strlit("a `WHERE` over a join is each table's own conditions, combined with `AND`. A term that names two of them under `OR` or `NOT` selects records neither side can be filtered to on its own");
    reveal_strlit("`IN (SELECT _record_id FROM ...)` narrows a bit-sliced column by the ids the inner set holds, and that is one equality per id - each of them a read per bit plane. A set this large is a scan wearing a `WHERE`, so it is refused with the number rather than answered slowly. Narrow the inner `WHERE`");
    reveal_strlit("a statement with `IN (SELECT ...)` has no plan until it has run: the outer call is narrowed by the ids the inner set holds, so its tree is a fact about the other table's contents rather than about the statement. Explaining the inner set on its own says everything that is fixed about it");
    reveal_strlit("a segment is a named `WHERE` over one table, and expanding it needs the catalog the view is stored in - which this translation does not have. Reached through a server, `SEGMENT(...)` is substituted before anything is planned");
    reveal_strlit("`SEGMENT(...)` names a view whose `WHERE` becomes a term of this one, so the view has to exist, has to be over exactly one table this statement reads, and has to select by something - a view with no `WHERE` is every record of its table and defines no set");
    reveal_strlit("subqueries, CTEs and `UNION` between selects are not supported; a set of records is combined inside `WHERE` with `AND`, `OR` and `NOT`");
    reveal_strlit("`HAVING` compares the aggregate the select list already asked for, over a `GROUP BY` - `count(*)` when the answer carries counts, or the same `sum`, `min` or `max` it selects. A grouped answer holds one number per group, so a `HAVING` on a second one would filter on a number that is not there, and one without a `GROUP BY` has no groups to keep");
    reveal_strlit("a window is computed over the rows a **projection** read - `SELECT country, row_number() OVER (PARTITION BY country ORDER BY amount DESC) FROM t` - because that is the one answer this surface materialises as rows. A grouped answer, a tuple grouping and a join are numbers about sets rather than rows, so there is nothing for a partition to be a partition of: `ORDER BY count(*) DESC LIMIT 10` is the ranking those already carry, and `topK(n)(x)` is the same ranking as a list in one cell. A window function written without `OVER` earns this too - it is a window missing the clause that says which rows it ranks");
    reveal_strlit("a grouped answer is ordered by the grouped column or by the one aggregate the select list asked for, in either direction; `ORDER BY count(*) DESC` is the ranking the plan itself carries. An ordering that names a second aggregate names a number the answer does not hold, and a record listing has no values to order by at all");
    reveal_strlit("`OFFSET` pages a list of groups, which this surface materialises in full before it cuts. A record listing is paged with the `after` cursor on `GET /table/{t}/records` instead: a cursor does not shift when records are inserted under it, and a skip count does");
    reveal_strlit("an expression in the select list is computed over one column - the one the projection reads, or the one the aggregate folds - and constants beside it: `round(amount / 100, 2)` and `substring(country, 1, 2)` are answered, and so is `date_diff('day', ts, now())`. Two columns in one cell is two plans, and a projection reads one field per column; an expression over no column at all is a constant, which needs no table to be true");
    reveal_strlit("`DISTINCT` takes one keyed column - as `SELECT DISTINCT <column>`, which is `GROUP BY <column>`, or as `count(DISTINCT <column>)`. Two of them is a grouping over a composite key this index never stored");
    reveal_strlit("there are no nulls here: a record either carries a value or the bit is not set, and neither is a null that comparisons propagate");
    reveal_strlit("the writes on this surface are `INSERT INTO t (...) VALUES (...)`, `CREATE TABLE`, `ALTER TABLE ... ADD`/`DROP COLUMN`, `DROP TABLE`, `CREATE DATABASE`/`DROP DATABASE` and `CREATE VIEW`/`DROP VIEW`. `ALTER VIEW` is `CREATE OR REPLACE VIEW`, which says the whole statement rather than a change to one; and `MERGE`, `REPLACE` and `CREATE INDEX` are each a statement with no operation behind it here: a bitmap is already the index. Write facts in volume with `POST /table/{t}/import` and use the `/table` routes for the rest");
    reveal_strlit("an `INSERT` names the columns it writes, as `INSERT INTO t (country, amount) VALUES ('GB', 100)`. This translation holds no schema - which is what keeps it a translation - so `INSERT INTO t VALUES (...)` would be positional against a field order that is not in the statement and that the next `ALTER TABLE ... ADD` moves");
    reveal_strlit("an `id` is a whole number: a fact is a bit at `(row, record)`, so the id is the address it is written to rather than a name for what is written there - which is why `POST /table/{t}/import` names the record on every line, why `POST /table/{t}/delete` takes ids, and why `SELECT *` answers with nothing else. Write one, as `INSERT INTO t (_record_id, country) VALUES (7, 'GB')`, or leave the column out and the server allocates one");
    reveal_strlit("`_record_id` is what a record is called here, not a field it can hold: `SELECT *` answers with it, `INSERT INTO t (_record_id, ...)` writes about it, and `POST /table/{t}/delete` takes it. A field of that name could never be written through this surface - an `INSERT` would read the value as the record to write *about* - so a condition on it would answer nothing while the record sat there. It is spelled with the underscore precisely so that `id` is free for a field of yours");
    reveal_strlit("`INSERT ... SELECT` reads any answer whose cells are **values**, naming as many columns as the `INSERT` does - a projection, and a grouping just as much: a key is a string and a count is a number, and writing a merged grouping into a table is what a materialised rollup is here. What it cannot read is `SELECT *`, which answers with record *ids* - the address a fact is written to rather than anything stored in a column. The ids are allocated, so the column list may not name `_record_id` either");
    reveal_strlit("an `INSERT ... SELECT` reads one table and writes another. Reading and writing the same one in a single statement has no snapshot under it here: the records being written are visible to the read that is still running, so the statement would feed itself. Copy through a second table, or read it out and write it back with `POST /table/{t}/import`");
    reveal_strlit("an `INSERT` carries a bounded number of rows, because the whole statement is lexed and parsed into literals before the first fact is written - so the batch is resident twice over before any of it lands. A request is bounded by its bytes as well, and that is usually the one a statement meets first. `POST /table/{t}/import` is the route for volume: one fact per line, with no statement to hold");
    reveal_strlit("a `DELETE` here names the records to clear, as `DELETE FROM t WHERE ts < '2026-01-01'`. Without a `WHERE` it names every one of them, and clearing them id by id is the most expensive way to say what `TRUNCATE TABLE t` says by freeing the fragments - which keeps the table, its fields and its row keys. `ORDER BY` and `LIMIT` are refused for a different reason: a record id is an address rather than a position, so taking the first ten of a set would clear an arbitrary ten while reading as though it had chosen them");
    reveal_strlit("a delete is one transaction and nothing interrupts one: the `WHERE` is bounded by `max_execution_time`, and the clearing that follows it is not. This one selects more records than that half may carry. Narrow the `WHERE` - a window on a time column is the usual way, deleting a day or a month at a time - or lower the ceiling deliberately with `SETTINGS max_delete_records`, which may only tighten it. `TRUNCATE TABLE t` is the whole-table spelling and costs fragments rather than records");
    reveal_strlit("that column holds every value a record was ever given, so writing a new one adds it rather than replacing it - and there is no per-value unset below this surface to remove the old. What updates in place are the columns where one record holds one value: the integer, decimal and float columns, `MUTEX` and `BOOL`. For a `SET` or a `TIMEQUANTUM`, delete the record and write it again, which is two statements because it is two operations");
    reveal_strlit("`USE` asks this surface to remember a database between statements, and it remembers nothing: one statement is one request, answered and forgotten. The database is per request - send `?database=sales`, or qualify the name as `sales.orders`. `bigctl` accepts `USE` and does exactly that for you");
    reveal_strlit("`SET` asks this surface to remember a limit between statements, and it remembers nothing: one statement is one request, answered and forgotten - the same reason `USE` is refused. A limit is written on the statement it bounds, as `SELECT ... SETTINGS max_execution_time = 30`, which is also the only spelling that survives a reconnect, a pooled proxy connection or a retry on another node. The keys are `max_execution_time` (seconds), `max_memory_usage` (bytes), `max_result_rows` and `max_delete_records`, and each may only lower what the server allows");
    reveal_strlit("that key names no limit this engine reads. The three it reads are `max_execution_time` (seconds a read may run), `max_memory_usage` (bytes of bitmap it may hold) and `max_result_rows` (records it may read back). `max_threads`, `max_block_size` and `join_algorithm` are refused rather than accepted and ignored: there are no bind parameters here, so a key was typed, and a dropped one is a statement running without the bound its author believes it has");
    reveal_strlit("`KILL QUERY` names one running query by its id, as `KILL QUERY '<node>/<n>'` or `KILL QUERY WHERE query_id = '<node>/<n>'`. `SHOW PROCESSLIST` says what the ids are. A predicate over users, tables or elapsed time would kill a set nobody named - and a different set each time it ran - and `KILL MUTATION` names work this engine does not queue: a schema change is applied and finished, with no background rewrite left to cancel");
    reveal_strlit("`TTL` names a promise to expire data on its own, and there is nothing here to keep one: this database has no scheduler and the library under it starts no threads. What exists is the statement that does it when you run it - `ALTER TABLE t DROP DAYS BEFORE '2026-01-01' ON ts` - which travels to every node the way a schema change does, so no two of them disagree about what a window holds. Note what it removes: the per-period *index* over those days, not the records. A `BETWEEN` stops finding them and `count(*)` does not change; `DELETE FROM t WHERE ts < '2026-01-01'` is the one that removes them. Run it from cron");
    reveal_strlit("there is no such view under `system.`. This build has `system.tables` (every table and view, in every database), `system.columns` (every column of every table), `system.databases` and `system.parts` (every fragment: table, field, view and shard, which is the one thing no other statement shows). `system` is not a database anybody creates, so a name here is a question about this engine rather than about your schema - `system.query_log` and `system.processlist` would each need state this build does not keep");
    reveal_strlit("a system view answers in full, and the clause it takes is `WHERE database = '<name>'` - on `system.columns` and `system.parts` also `WHERE table = '<name>'`, joined by `AND`. Those two are the only ones because they are already what `SHOW TABLES FROM d` and `DESCRIBE t` pass underneath; the answer is a set of rows read out of the catalog rather than a plan over bitmaps, so there is nothing here for a join, a grouping, an ordering, a limit or a `SETTINGS` budget to act on. Order it and cut it in the client, or select the columns you want by name");
    reveal_strlit("a column is qualified by an alias and nothing else, so `sales.orders.amount` has one name too many. A table is qualified - `FROM sales.orders` - and a column then reaches it through an alias: `FROM sales.orders o WHERE o.amount > 5`");
    reveal_strlit("a materialised view is a table plus a promise to keep it current, and nothing here keeps that promise. A plain `CREATE VIEW` does exist - it is a name for a statement, re-planned at every read - and the materialised half is written out loud: create a table and write the answer into it");
    reveal_strlit("a view here is a filter and a projection over one table: `SELECT <columns> FROM <table> [WHERE ...]`. It is inlined into the statement that reads it, and there is no subquery below to nest one in - so a body that groups, aggregates, joins, orders or limits has no statement to become. `*` is refused too: a view is re-planned at every read, so a body written with one would start exposing whatever column the table gains next. A view names the columns it exposes");
    reveal_strlit("the view does not expose that column, which is most of what a view is for. `SHOW CREATE VIEW` says what it does expose; reading the column means going to the table underneath, or a view that names it");
    reveal_strlit("views nested too deep. A view over a view is expanded by substitution, so the depth is a bound on the statement this becomes rather than a taste in schemas");
    reveal_strlit("a case here is written out in full - `CASE WHEN amount > 500 THEN 'big' ELSE 'small' END` - and `if(cond, a, b)`, `multiIf(...)`, `coalesce`, `nullIf` and `ifNull` are answered too. The short form, `CASE amount WHEN 500 THEN ...`, is the same statement with the comparison factored out, and there is one spelling of it so that two trees cannot come to disagree about what they answer");
    reveal_strlit("a value's type is its field's, decided when the field was created: a keyed column is a string in a dictionary and an integer column is bit planes, and neither has a representation the other could be read as. A column that should be counted as a number is an `INT` field, and one that should be grouped is a `SET`");
    reveal_strlit("the aggregates here are `count`, `sum`, `min`, `max`, `avg`, `uniq` (which is `count(DISTINCT x)`), `topK` and `quantile`, each of which is a fold over bit planes or over a grouping - which is why every one of them is exact. `argMin`, `argMax`, `stddev`, `varPop` and `corr` need each record's value revisited against a running total, and this engine holds bits at `(row, record)` rather than values to revisit");
    reveal_strlit("every one of these already has an answer here, spelled the way the rest of the dialect is spelled - the bitmaps are the storage, not a value to pass between functions. `bitmap_count` and `bitmapCardinality` are `count(DISTINCT x)`, and exact, because the cardinality of a bitmap is a popcount - which is also why `uniq`, `uniqHLL12` and `approx_count_distinct` are read as written and answered exactly rather than refused at all; `bsi_sum` is `sum(x)` and `bsi_range` is `x BETWEEN a AND b`, both folds over bit planes; `bitmap_and` is `AND` and `bitmap_andnot` is `NOT IN (SELECT _record_id FROM ...)`; `to_bitmap` and `groupBitmapState` name what a `SET` column already did when the fact was written. What has no spelling here is a bitmap held *in* a column, which is what a `BITMAP` type would be");
    reveal_strlit("a field's kind decides how every fact in it was routed and its bit depth is how many bitmaps hold a value, so neither can change without rewriting every fact ever written to it. Add a second field, copy into it, and drop the first - which is three statements because it is three changes, not one hidden inside a `MODIFY` that would look free. To rebuild the whole table instead, create it beside this one and `EXCHANGE TABLES` them");
    reveal_strlit("a field's name is what routes a fact to a bitmap, and nothing below this renames one: a new name means a new field, the facts copied into it, and the old one dropped. A *table* is not reached by name below the catalog - it is reached by an interned id, which is why `ALTER TABLE t RENAME TO u` costs one record and is a statement this surface has");
    reveal_strlit("the engine a table stores under is fixed when it is created: it decides what is written for every fact, and the facts already written were written under the old one. Create a second table under the engine you want, copy into it, then `EXCHANGE TABLES old AND new` - which puts it in place in one change and leaves the old one under the other name");
    reveal_strlit("a column takes one of `SET`, `MUTEX`, `BOOL`, `TIMEQUANTUM`, `SIGNED`, `UINT(bits)`, `DECIMAL(precision, scale)`, `FLOAT32`, `FLOAT64`, `DATE`, `DATETIME`, or a SQL spelling of one of those: `TEXT`, `VARCHAR`, `CHAR` and `STRING` are a set, `TINYINT`, `SMALLINT`, `INT`, `INTEGER` and `BIGINT` are an unsigned integer of 8, 16, 32, 32 and 64 bits, `BOOLEAN` is a bool, `FLOAT` and `REAL` are a `FLOAT32`, `DOUBLE` is a `FLOAT64`, and `TIMESTAMP` is a `DATETIME`. `LowCardinality(String)` is a set too - that is what a set already is here, one bitmap per interned key - but only over a string: a number is bit planes, with no dictionary to be low cardinality of. None of them takes a width in brackets that its name does not already carry: `FLOAT(10, 2)` is a `DECIMAL(10, 2)`, which keeps those digits exactly where a float would not. There is nothing here a blob or a JSON document lands in - a document is a `TEXT` column, and `JSONExtractString(c, 'k')` reads a key out of one. `IPv4` is not on this list at all: it is read as the `UINT(32)` an address is. `UUID` and `IPv6` are, and the difference is what would be lost - both are 128 bits where a bit-sliced value stops at 64, so the only column they could land in is a keyed one, which answers `=` but not `<`. Declare them `TEXT` if equality is all you need, and know that is what you have");
    reveal_strlit("absence is already how a column answers here, so there is no wrapper to declare: a record either has the bit set for a value or it does not, and `SELECT *` says so by leaving the cell out. `Nullable(String)` would add a second way to be absent that nothing below could tell from the first. Declare the type itself - `TEXT`, `INT`, `DECIMAL(10, 2)` - and read the absence off the answer");
    reveal_strlit("a bitmap is not a value a column holds here; it is what every column already is. A `SET` column is one bitmap per interned key and an integer column is one per bit plane, so a `BITMAP` column would be a bitmap inside a bitmap. Declare `SET` for the column you would have built one from: `count(DISTINCT x)` over it is the cardinality, and it is exact rather than a sketch");
    reveal_strlit("`date_trunc` rounds a moment back to a boundary, and the boundary has to be one the calendar has: year, quarter, month, week, day, hour, minute or second. A `DATE` counts whole days, so nothing below a day means anything about one");
    reveal_strlit("this dialect writes the rounding as `date_trunc('month', ts)` and not as an interval: there is one spelling so that two of them cannot come to disagree about what a month is");
    reveal_strlit("a scalar runs on a value that has been read, and a `WHERE` runs before any has been: it chooses a set out of bitmaps, so there is nothing here for one to apply to. The roundings are the exception, because they can be turned around rather than run - `date_trunc('month', ts) = '2024-01-01'` is every value in `[2024-01-01, 2024-02-01)`, which is a range off the bit planes - and `date_trunc`, `toDate` and `toYear` are answered here for that reason. This one cannot be turned around: `lower(country) = 'gb'` and `abs(balance) > 5` each have answers scattered across the column rather than gathered into a range. Write the comparison against the column itself");
    reveal_strlit("a `GROUP BY` term is a column, or `date_trunc(<boundary>, <column>)` over a DATE or DATETIME column - those are the two the engine has a plan for. Any other expression over a column relabels its values without merging them, which answers one row per stored value with all of them printed under one name");
    reveal_strlit("no rounding ever produces this value, so nothing could match it: `date_trunc('month', ts)` answers the first day of a month, and `'2024-01-15'` is not one. Compare against the boundary that contains it - `= '2024-01-01'` - or write the range itself, `ts >= '2024-01-15'`. Another engine answers this with no rows; it is refused here because there are no bind parameters in this dialect, so the value was typed rather than substituted, and an empty answer to a typo reads as a table with nothing in that month");
    reveal_strlit("a column list here declares fields and nothing else: there are no rows for `PRIMARY KEY` to be unique over, no nulls for `NOT NULL` to exclude, and no write path that would apply a `DEFAULT` to a record nobody wrote a fact for");
    reveal_strlit("a decimal is written `DECIMAL(precision, scale)` - digits in total, then digits after the point. Neither is optional: `DECIMAL` alone is an integer wearing a different name, and `price > 5` means `> 500` on a field with two digits after the point, so the number a comparison is against depends on it");
    reveal_strlit("a value occupies between 1 and 64 bits here, one bitmap per bit. Wider than 64 is wider than the integer a value is read back into; narrower than 1 is no value at all");
    reveal_strlit("a statement answers one question: an aggregate, or a grouped column and one aggregate of it");
    reveal_strlit("a condition compares a column with a value using `=`, `!=`, `<`, `<=`, `>`, `>=`, `IN` or `BETWEEN`; there is no pattern matching and no arithmetic");
    reveal_strlit("a select list asks for one plan per aggregate and a join for one per table, and each is fanned out and merged on its own - so the number of them is what the statement costs in round trips. Ask for at most 16, counting `avg` as two: a sum and a count");
    reveal_strlit("the formats this surface writes are `JSON`, `JSONCompact`, `TSV`, `TabSeparated`, `TSVWithNames`, `TabSeparatedWithNames`, `CSV` and `CSVWithNames`. Anything else would be a spelling of bytes nobody here produces");
    reveal_strlit("`UNION ALL` stacks two answers with the same number of columns, named by the first. A plain `UNION` removes duplicate rows, and a row here is a rendered answer rather than a stored tuple - there is nothing to compare two of them by that is not comparing strings");
    reveal_strlit("a quantile takes a level between 0 and 1 with at most three digits after the point, as `quantile(0.95)(amount)`; `median(amount)` is `quantile(0.5)`. A finer level would name a place in the distribution no number of records this engine holds could resolve");
    reveal_strlit("`PLAN` and `SHAPE` name the two halves of a query's explanation - the plans its calls resolve to, and the columns and clauses its answer takes. A schema change, a write and a question about the catalog have one description and no halves, so `EXPLAIN` on its own is the whole of what there is to ask for");
    reveal_strlit("`EXPLAIN` is answered as rows - one line of the description per row, under a column called `explain` - and this surface resolves a statement to plans instead, of which an explanation has none. Nothing is wrong with the statement: ask it of the surface that builds result sets");
    reveal_strlit("people are not stored in this database. A credential is a line in the users file the server reads off its own disk, written with `big passwd`, and a route that could write one would let an `admin` password rewrite the password file over the network. What SQL administers is roles - `CREATE ROLE`, `GRANT`, `REVOKE` - and the users file says who holds one");
    reveal_strlit("the privileges are SELECT, INSERT, DELETE, CREATE, DROP, ALTER and ROLES, or ALL for every one grantable on the object named");
    reveal_strlit("a privilege has to mean something where it is granted: ROLES is held on `*.*` or nowhere, because a role that could hand out privileges inside one database would still be handing out the power to hand them out; and CREATE is held on `*.*` or `db.*`, because a table that exists is not one there is anything left to create");
    reveal_strlit("grants here are per table. This surface answers questions over whole tables, so a privilege on some columns of one would be a fence that a slightly different question walks around - grant on the table, or keep the columns somebody may not read in a table of their own");
    reveal_strlit("a role does not hold another role. What was written names a role where a privilege belongs: grant the privileges themselves, or give the person the other role in the users file. One name resolving to a set of others is a graph whose answer depends on how far it is walked");
    reveal_strlit("there is no role everybody holds. A privilege nobody was given and everybody has is one that no listing explains and no revoke reaches - make a role, grant it what it needs, and name it in the users file for whoever should hold it");
    reveal_strlit("a grant cannot be passed on. Delegation here is one privilege, ROLES on `*.*`, which is the power to administer every role - held or not, with nothing in between, because the levels between are what nobody can audit");
    reveal_strlit("`superuser` holds everything and exists without being created. It is what a database whose catalog is empty is recovered through, so it cannot be made, dropped, or narrowed by a grant - name any other role");
    reveal_strlit("`WITH TOTALS` puts the grand total outside the rows, in a `totals` field beside them - and a result set here is columns and rows, one definition all five formats render from, so there is nowhere for it to go. The same number as a *row* is `GROUP BY a WITH ROLLUP`, whose last row is the empty grouping set; `grouping(a)` is what tells that row from a group whose key this node was never told");
    reveal_strlit("`ROLLUP`, `CUBE` and `GROUPING SETS` are one grouping per set - a call planned, fanned out to every owner and merged on its own - so the number of sets multiplied by the aggregates in the select list is what the statement costs in round trips, against the same budget every select list answers to. `CUBE` over four columns is sixteen sets, which is that whole budget before a second aggregate is named. `WITH ROLLUP` is one set per prefix - five for four columns - and `GROUPING SETS ((a,b),(a),())` names exactly the ones you want, up to eight");
    reveal_strlit("a `ROLLUP`, `CUBE` or `GROUPING SETS` answer is one grouping per set, rendered one after the other - the same stacking `UNION ALL` is - so there is no single list for an `ORDER BY` to sort or a `LIMIT` to cut. Ordering each set on its own would look sorted and not be, and a `LIMIT 10` would answer with ten rows per set. The rows do arrive in a fixed order - the sets longest first, each in its own key order - so order and cut them in the client, or write the one set you want ordered as its own `GROUP BY`");
    reveal_strlit("a window here is computed over the whole partition in the order given, which is the default frame for `row_number`, `rank`, `lag`, `first_value` and the rest of those two families - so `ROWS`, `RANGE`, `GROUPS` and `EXCLUDE` have nothing to narrow and are refused rather than accepted and ignored. An `ORDER BY` under `sum`, `avg`, `count`, `min` or `max` says the same thing: the running total, whose frame is `RANGE UNBOUNDED PRECEDING` and whose answer is a different number from the partition total. Write `sum(x) OVER (PARTITION BY c)` for the partition total, and order the answer itself");
    reveal_strlit("a window is written where it is used - `row_number() OVER (PARTITION BY country ORDER BY amount DESC)` - and there is no `WINDOW w AS (...)` to name one somewhere else. A name would be a second place for the clause to live and a second thing to keep in step with the first; writing it out at each entry is longer and says what it does");
    reveal_strlit("`QUALIFY` filters on a window function's own output, which exists only once every row of every partition has been read - so it is a second pass over the finished answer rather than anything a plan could carry. `WHERE` narrows the records the window then ranks, which is the cheap half and usually the one that was meant; filter on the ranking itself in the client");
    reveal_strlit("there is no sketch here because there is nothing for one to approximate: `count(DISTINCT x)` is the cardinality of a bitmap, which is a popcount - exact, and paid per container rather than per record. `uniq`, `uniqExact`, `uniqCombined`, `uniqCombined64`, `uniqHLL12`, `uniqTheta` and `approx_count_distinct` are all accepted exactly as written and all answered exactly, and `quantile`, `quantileExact` and `median` are exact too. A `-State`/`-Merge` pair exists elsewhere to carry a partial sketch between queries; the partial result that travels between nodes here **is** the bitmap, and the engine merges it");
    reveal_strlit("the pattern language here is `LIKE`'s: `%` for any run of characters, `_` for exactly one, and `ILIKE` to fold case. It runs over a keyed column's **dictionary** rather than over records - each distinct string is stored once with the bitmap of the records holding it - so `country LIKE 'G%'` costs the field's cardinality once where a row engine pays it per record. A regular expression engine in that loop would be a dependency, a compile step and a class of pathological pattern, to implement two characters. Write `LIKE` or `ILIKE`, or `IN (...)` for a fixed set of values");
    reveal_strlit("there are no statistics to gather. The planner here is purely syntactic - a call resolves against the schema, and nothing about the data changes which plan it becomes - so there is no cost model for an `ANALYZE` to feed. What this engine keeps instead is a zone map per fragment, `min`, `max`, `bit_depth` and whether it holds values, written as facts are and therefore never stale; it is already readable as `SELECT * FROM system.parts`. `EXPLAIN <statement>` is the whole of what this surface says about a statement, and it says it without running one. And `EXPLAIN ANALYZE` in the other sense - run it, then report what it cost - is absent for a second reason worth separating from the first: the numbers exist per node, but nothing carries them back beside the answer and nothing says how two nodes' would merge");
    reveal_strlit("compaction here is whole-file rather than per part, because there are no parts to merge: a fragment is a range of records inside one page store, and what accumulates is free pages rather than small files. Rewriting the store into a fresh one and swapping it in is a server operation - `POST /admin/backup` - rather than a statement, because it needs the file's exclusive lock, which a statement running inside a read does not hold. `SELECT * FROM system.parts` is what says whether it is worth doing");
    reveal_strlit("the one table function here is `numbers(n)`, which counts. Reading an external source needs a catalog this build has not got - `s3`, `url` and `file` are the external-catalog milestone - and loading data is `POST /table/{t}/import`, which streams it in without a statement having to name a path");
    reveal_strlit("`numbers(n)` builds every row at the coordinator before any of them is written out, so the count is the only bound there is: `SETTINGS max_result_rows` bounds a query, and this is answered from the catalog side without ever reaching a read. Ask for fewer, or write the rows into a table and select from that");
    reveal_strlit("`neighbor(x, n)` is `lag(x, n)` backwards and `lead(x, n)` forwards, and this dialect writes it as whichever one was meant - one spelling per operation, so two cannot come to disagree about which direction a sign means. `runningDifference(x)` is here and is `x - lag(x, 1)`. `sequenceMatch`, `windowFunnel` and `retention` are not: each is a pattern over a *sliding window* of rows, which is the frame `sql_window_frame` refuses, plus a pattern language over them. Counting by period is `GROUP BY date_trunc(...)`");
    reveal_strlit("`SAMPLE` takes one record in every `n`, written as `SAMPLE 10`, `SAMPLE 1/10` or `SAMPLE 0.1` - three spellings of one stride. A fraction that is not one over a whole number has no stride: `0.3` would be one in 3.33, and answering it as one in three is a tenth more data than was asked for under the name that was asked for. `SAMPLE BY` is a different thing again - it names the column a sample is drawn on, and here the unit is the record id, which is not a column");
    reveal_strlit("`INSERT OVERWRITE` is answered, but not at a partition: a shard here is `record_id >> 20`, computed from the id a record was written under, so there is nothing for `PARTITION (...)` to name. Write the statement without it. Note what the plain form does and does not promise - it empties and then writes, and nothing wraps those two in one transaction, so a crash between them leaves the table empty. For a replacement that is genuinely atomic, write into a second table and `EXCHANGE TABLES` them");
    reveal_strlit("loading data is `POST /table/{t}/import`, which streams rows in without a statement having to name a path the server can reach. Reading object storage from inside a query is an external catalog, and that is a milestone of its own rather than a clause");
    reveal_strlit("there is no session for a table to be temporary to: `POST /sql` answers one statement and forgets everything about the caller, which is the same decision that refuses `USE` and `SET`. An ordinary `CREATE TABLE` and a `DROP TABLE` when you are done is the pair that survives a reconnect, a proxied connection and a retry against another node");
    reveal_strlit("distribution here is computed rather than declared: a shard is `record_id >> 20`, so which one a record lands in follows from the id it was written under and there is nothing for a clause to choose. A bucket count nothing reads would be a promise this engine does not keep - the objection `sql_unknown_setting` makes to `max_threads`. `SELECT * FROM system.parts` is where the distribution that actually happened can be seen");
    reveal_strlit("a computed column is computed at one of two moments, and each has its own answer here. `ALIAS expr` is computed when the column is read, which is what a view already is: `CREATE VIEW v AS SELECT <expr> AS <name>, ... FROM t`. `MATERIALIZED expr` is computed when the row is written, which is a materialised view - and that one this build has not got (`sql_no_materialized _views`)");
    reveal_strlit("every value stored here is one number wide, from the fact that is written to the codec that packs it, so there is nowhere to put a list or a pair. But a keyed column already holds *many* values for one record - that is what `SET` is - so `Array(String)` is `SET` under another name, and it arrives indexed: `has(arr, x)` is `WHERE c = 'x'`, and one row per element is `GROUP BY c`. A `Map` or a `Tuple` is two columns");
    reveal_strlit("an enum is written `ENUM('a', 'b')` - the values, and nothing else. The `'a' = 1` form says which integer each value is stored as, and here a mutex interns each one into the dictionary and the *dictionary* decides that number, so a written `= 1` would be a promise about storage that nothing keeps. A repeated value is refused for a nearer reason: the second one is unreachable, and a list holding fewer values than it names would make `SHOW CREATE TABLE` disagree with what was typed");
    reveal_strlit("one row per element of a repeated column is `GROUP BY <the column>`, which is what a keyed column already gives: the elements are its keys, and walking them is a walk of the dictionary rather than a multiplication of rows. There is no array-valued column here for the clause to expand - see `sql_composite_type`");
    reveal_strlit("a repeated column here is a `SET`, and each of these has a spelling over one: `has(c, x)` is `c = 'x'` in a `WHERE`, `arrayExists` is the same, `arrayDistinct`/`arrayUniq` is `count(DISTINCT c)`, `arraySum` is `sum(c)`, and one row per element is `GROUP BY c`. A lambda has no collection to walk for the same reason - there is no array-valued column (`sql_composite_type`)");
    assert(r.code_text().take(4) =~= "sql_"@);
}

/// What the planning layer said was wrong with a call: its code and its sentence.
#[derive(Clone, PartialEq, Eq, Debug)]
pub struct PlanError {
    pub code: &'static str,
    pub message: String,
}

/// What went wrong, by value.
pub enum SqlErrorView {
    Syntax { at: nat, found: Seq<char>, want: Seq<char> },
    UnterminatedString { at: nat },
    NumberTooLarge { at: nat },
    NegativeDecimal { at: nat },
    TooDeep { at: nat, limit: nat },
    Refused { what: Refused, at: nat },
    Plan { code: Seq<char>, message: Seq<char> },
}

/// Why a statement was not translated.
#[derive(Clone, PartialEq, Eq, Debug)]
pub enum SqlError {
    /// The text is not a statement.
    Syntax {
        /// Byte offset.
        at: usize,
        /// What was there.
        found: String,
        /// What was wanted.
        want: &'static str,
    },
    /// A quote that opens and never closes.
    UnterminatedString { at: usize },
    /// A number that does not fit.
    NumberTooLarge { at: usize },
    /// A negative decimal compared against an unsigned field.
    NegativeDecimal { at: usize },
    /// The condition nests deeper than the dialect allows.
    TooDeep { at: usize, limit: usize },
    /// A statement that parses and is declined.
    Refused { what: Refused, at: usize },
    /// The planning layer declined it.
    Plan(PlanError),
}

impl View for SqlError {
    type V = SqlErrorView;

    open spec fn view(&self) -> SqlErrorView {
        match self {
            SqlError::Syntax { at, found, want } => SqlErrorView::Syntax {
                at: *at as nat,
                found: found@,
                want: want@,
            },
            SqlError::UnterminatedString { at } => SqlErrorView::UnterminatedString {
                at: *at as nat,
            },
            SqlError::NumberTooLarge { at } => SqlErrorView::NumberTooLarge { at: *at as nat },
            SqlError::NegativeDecimal { at } => SqlErrorView::NegativeDecimal { at: *at as nat },
            SqlError::TooDeep { at, limit } => SqlErrorView::TooDeep {
                at: *at as nat,
                limit: *limit as nat,
            },
            SqlError::Refused { what, at } => SqlErrorView::Refused { what: *what, at: *at as nat },
            SqlError::Plan(e) => SqlErrorView::Plan { code: e.code@, message: e.message@ },
        }
    }
}

impl SqlErrorView {
    /// The stable string a client matches on.
    pub open spec fn code_text(self) -> Seq<char> {
        match self {
            SqlErrorView::Syntax { .. } => "parse_error"@,
            SqlErrorView::UnterminatedString { .. } => "parse_error"@,
            SqlErrorView::NumberTooLarge { .. } => "parse_error"@,
            SqlErrorView::NegativeDecimal { .. } => "parse_error"@,
            SqlErrorView::TooDeep { .. } => "parse_error"@,
            SqlErrorView::Refused { what, .. } => what.code_text(),
            SqlErrorView::Plan { code, .. } => code,
        }
    }

    /// The sentence a person reads.
    pub open spec fn sentence(self) -> Seq<char> {
        match self {
            SqlErrorView::Syntax { at, found, want } => "at byte "@ + crate::text::dec(at)
                + ": expected "@ + want + ", found `"@ + found + "`"@,
            SqlErrorView::UnterminatedString { at } => "at byte "@ + crate::text::dec(at)
                + ": unterminated string"@,
            SqlErrorView::NumberTooLarge { at } => "at byte "@ + crate::text::dec(at)
                + ": number does not fit in u64"@,
            SqlErrorView::NegativeDecimal { at } => "at byte "@ + crate::text::dec(at)
                + ": decimal fields are unsigned, so a negative decimal cannot be compared against one"@,
            SqlErrorView::TooDeep { at, limit } => "at byte "@ + crate::text::dec(at)
                + ": the condition nests deeper than the limit of "@ + crate::text::dec(limit),
            SqlErrorView::Refused { what, at } => "at byte "@ + crate::text::dec(at) + ": "@
                + what.sentence(),
            SqlErrorView::Plan { message, .. } => message,
        }
    }
}

impl From<PlanError> for SqlError {
    fn from(e: PlanError) -> (r: SqlError) {
        SqlError::Plan(e)
    }
}

impl vstd::std_specs::convert::FromSpecImpl<PlanError> for SqlError {
    open spec fn obeys_from_spec() -> bool {
        true
    }

    open spec fn from_spec(e: PlanError) -> SqlError {
        SqlError::Plan(e)
    }
}

impl SqlError {
    /// The stable string a client matches on. The five syntactic failures share one: text that
    /// cannot be read leaves a client one thing to do about it.
    pub fn code(&self) -> (r: &'static str)
        ensures
            r@ == self@.code_text(),
    {
        match self {
            SqlError::Syntax { .. } => "parse_error",
            SqlError::UnterminatedString { .. } => "parse_error",
            SqlError::NumberTooLarge { .. } => "parse_error",
            SqlError::NegativeDecimal { .. } => "parse_error",
            SqlError::TooDeep { .. } => "parse_error",
            SqlError::Refused { what, .. } => what.code(),
            SqlError::Plan(e) => e.code,
        }
    }

    /// The sentence a person reads.
    pub fn message(&self) -> (r: String)
        ensures
            r@ == self@.sentence(),
    {
        let mut out = String::new();
        match self {
            SqlError::Syntax { at, found, want } => {
                out.append("at byte ");
                push_dec(&mut out, *at as u128);
                out.append(": expected ");
                out.append(want);
                out.append(", found `");
                out.append(found.as_str());
                out.append("`");
            },
            SqlError::UnterminatedString { at } => {
                out.append("at byte ");
                push_dec(&mut out, *at as u128);
                out.append(": unterminated string");
            },
            SqlError::NumberTooLarge { at } => {
                out.append("at byte ");
                push_dec(&mut out, *at as u128);
                out.append(": number does not fit in u64");
            },
            SqlError::NegativeDecimal { at } => {
                out.append("at byte ");
                push_dec(&mut out, *at as u128);
                out.append(
                    ": decimal fields are unsigned, so a negative decimal cannot be compared against one",
                );
            },
            SqlError::TooDeep { at, limit } => {
                out.append("at byte ");
                push_dec(&mut out, *at as u128);
                out.append(": the condition nests deeper than the limit of ");
                push_dec(&mut out, *limit as u128);
            },
            SqlError::Refused { what, at } => {
                out.append("at byte ");
                push_dec(&mut out, *at as u128);
                out.append(": ");
                out.append(what.why());
            },
            SqlError::Plan(e) => {
                out.append(e.message.as_str());
            },
        }
        assert(out@ =~= self@.sentence());
        out
    }
}

/// A result whose error says why a statement was not translated.
pub type Result<T> = core::result::Result<T, SqlError>;

} // verus!
