//! `CREATE DATABASE`, `CREATE TABLE` and `CREATE VIEW`.

use vstd::prelude::*;
use crate::ast::{Item, ItemView, Proj, Select, SelectView};
use crate::ddl::{Column, ColumnKind, ColumnView, Ddl, DdlView};
use crate::error::{Refused, Result};
use crate::insert::RECORD_COLUMN;
use crate::lex::{Tok, TokView};
use crate::parse::acl::read_if_exists;
use crate::parse::cursor::{ended, expected, goes, moved, offset, past_word, peek_at, read_ident, read_number, read_table, refusal, refused, seen, seen_all, seen_plain, tok_is, word_at, Env, Out, Parser};
use crate::parse::item::written;
use crate::parse::select::read_select;
use crate::shape::Format;
use crate::show::SYSTEM_DATABASE;
use crate::text::{opt_text, same_word, views};

verus! {

/// What a field that stores no number carries as its depth.
pub const KEYLESS_DEPTH: u32 = 32;

/// How many bits a decimal of some digits is given: ten thirds of a bit for each, rounded up.
pub open spec fn bits_for(precision: u64) -> int {
    let tens = if precision * 10 > u64::MAX {
        u64::MAX as int
    } else {
        precision * 10
    };
    (tens + 2) / 3
}

/// How many bits a decimal of `precision` digits needs.
pub fn decimal_bits(precision: u64) -> (r: u64)
    ensures
        r == bits_for(precision),
{
    let tens: u64 = match precision.checked_mul(10) {
        Some(t) => t,
        None => u64::MAX,
    };
    if tens % 3 == 0 {
        tens / 3
    } else {
        tens / 3 + 1
    }
}

/// The kind of a type that stores no number.
pub open spec fn keyless_type(w: Seq<char>) -> Option<ColumnKind> {
    if same_word(w, "SET"@) {
        Some(ColumnKind::Keyed)
    } else if same_word(w, "MUTEX"@) {
        Some(ColumnKind::Mutex)
    } else if same_word(w, "BOOL"@) || same_word(w, "BOOLEAN"@) {
        Some(ColumnKind::Bool)
    } else if same_word(w, "TIMEQUANTUM"@) {
        Some(ColumnKind::TimeQuantum)
    } else {
        None
    }
}

/// The kind and the depth of a type that carries its width in its name.
pub open spec fn fixed_type(w: Seq<char>) -> Option<(ColumnKind, u32)> {
    if same_word(w, "DATE"@) {
        Some((ColumnKind::Date, 32))
    } else if same_word(w, "DATETIME"@) || same_word(w, "TIMESTAMP"@) {
        Some((ColumnKind::DateTime, 64))
    } else if same_word(w, "FLOAT"@) || same_word(w, "FLOAT32"@) || same_word(w, "REAL"@) {
        Some((ColumnKind::Float32, 32))
    } else if same_word(w, "DOUBLE"@) || same_word(w, "FLOAT64"@) {
        Some((ColumnKind::Float64, 64))
    } else {
        None
    }
}

/// Whether a type is a text, which is stored as keys.
pub open spec fn text_type(w: Seq<char>) -> bool {
    same_word(w, "TEXT"@) || same_word(w, "VARCHAR"@) || same_word(w, "CHAR"@) || same_word(
        w,
        "STRING"@,
    )
}

/// Why a type other engines have is refused.
pub open spec fn refused_type(w: Seq<char>) -> Option<Refused> {
    if same_word(w, "NULLABLE"@) {
        Some(Refused::NullableType)
    } else if same_word(w, "ARRAY"@) || same_word(w, "MAP"@) || same_word(w, "TUPLE"@)
        || same_word(w, "NESTED"@) {
        Some(Refused::CompositeType)
    } else if same_word(w, "ENUM"@) || same_word(w, "ENUM8"@) || same_word(w, "ENUM16"@) {
        Some(Refused::EnumType)
    } else if same_word(w, "BITMAP"@) || same_word(w, "AGGREGATEFUNCTION"@) {
        Some(Refused::BitmapType)
    } else if same_word(w, "HLL"@) || same_word(w, "QUANTILE_STATE"@) || same_word(
        w,
        "QUANTILESTATE"@,
    ) || same_word(w, "SIMPLEAGGREGATEFUNCTION"@) {
        Some(Refused::Sketch)
    } else {
        None
    }
}

/// The depth of a whole number's type.
pub open spec fn whole_type(w: Seq<char>) -> Option<u32> {
    if same_word(w, "TINYINT"@) {
        Some(8)
    } else if same_word(w, "SMALLINT"@) {
        Some(16)
    } else if same_word(w, "INT"@) || same_word(w, "INTEGER"@) {
        Some(32)
    } else if same_word(w, "BIGINT"@) {
        Some(64)
    } else {
        None
    }
}

/// `( bits )`, between one and sixty-four.
pub open spec fn read_bits(e: Env, i: int) -> Out<u32> {
    if !tok_is(e, i, TokView::LParen) {
        Err(expected(e, i, "( and a number of bits"@))
    } else {
        match read_number(e, i + 1, "a number of bits"@) {
            Err(x) => Err(x),
            Ok((bits, j)) => if !tok_is(e, j, TokView::RParen) {
                Err(expected(e, j, ") after the number of bits"@))
            } else if 1 <= bits <= 64 {
                Ok((bits as u32, j + 1))
            } else {
                Err(refused(e, j + 1, Refused::BitDepth))
            },
        }
    }
}

/// `( name )`, for a type whose argument is another type's name.
pub open spec fn read_wrapped(e: Env, i: int) -> Out<Seq<char>> {
    if !tok_is(e, i, TokView::LParen) {
        Err(expected(e, i, "( and a type name"@))
    } else {
        match peek_at(e, i + 1) {
            Some(TokView::Word(w)) => if tok_is(e, i + 2, TokView::RParen) {
                Ok((w, i + 3))
            } else {
                Err(expected(e, i + 2, ") after the type name"@))
            },
            _ => Err(expected(e, i + 1, "a type name"@)),
        }
    }
}

/// `(precision, scale)`, of a decimal. The precision buys the bits.
pub open spec fn read_decimal(e: Env, i: int, name: Seq<char>) -> Out<ColumnView> {
    if !tok_is(e, i, TokView::LParen) {
        Err(refused(e, i, Refused::DecimalScale))
    } else {
        match read_number(e, i + 1, "the precision, in digits"@) {
            Err(x) => Err(x),
            Ok((precision, j)) => if !tok_is(e, j, TokView::Comma) {
                Err(refused(e, j, Refused::DecimalScale))
            } else {
                match read_number(e, j + 1, "the scale, in digits after the point"@) {
                    Err(x) => Err(x),
                    Ok((scale, k)) => if !tok_is(e, k, TokView::RParen) {
                        Err(expected(e, k, ") after the scale"@))
                    } else if precision == 0 || scale > precision || scale > i8::MAX {
                        Err(refused(e, k + 1, Refused::DecimalScale))
                    } else if bits_for(precision) > 64 {
                        Err(refused(e, k + 1, Refused::BitDepth))
                    } else {
                        Ok(
                            (
                                ColumnView {
                                    name,
                                    kind: ColumnKind::Decimal,
                                    bit_depth: bits_for(precision) as u32,
                                    scale: Some(scale as i8),
                                },
                                k + 1,
                            ),
                        )
                    },
                }
            },
        }
    }
}

/// A type name at `i`, and whatever it takes in brackets.
pub open spec fn read_type(e: Env, i: int, w: Seq<char>, name: Seq<char>) -> Out<ColumnView> {
    let j = i + 1;
    let keyed = ColumnView {
        name,
        kind: ColumnKind::Keyed,
        bit_depth: KEYLESS_DEPTH,
        scale: None,
    };
    if keyless_type(w) is Some {
        Ok((ColumnView { kind: keyless_type(w)->0, ..keyed }, j))
    } else if fixed_type(w) is Some {
        if tok_is(e, j, TokView::LParen) {
            Err(refused(e, i, Refused::ColumnType))
        } else {
            let (kind, bit_depth) = fixed_type(w)->0;
            Ok(
                (
                    ColumnView { name, kind, bit_depth, scale: None },
                    if same_word(w, "DOUBLE"@) {
                        past_word(e, j, "PRECISION"@)
                    } else {
                        j
                    },
                ),
            )
        }
    } else if text_type(w) {
        if tok_is(e, j, TokView::LParen) {
            Err(refused(e, j, Refused::Constraint))
        } else {
            Ok((keyed, j))
        }
    } else if same_word(w, "LOWCARDINALITY"@) {
        match read_wrapped(e, j) {
            Err(x) => Err(x),
            Ok((inner, k)) => if text_type(inner) {
                Ok((keyed, k))
            } else {
                Err(refused(e, i, Refused::ColumnType))
            },
        }
    } else if refused_type(w) is Some {
        Err(refused(e, i, refused_type(w)->0))
    } else if whole_type(w) is Some {
        if tok_is(e, j, TokView::LParen) {
            Err(refused(e, j, Refused::ColumnType))
        } else if word_at(e, j, "SIGNED"@) {
            Ok(
                (
                    ColumnView {
                        name,
                        kind: ColumnKind::Signed,
                        bit_depth: whole_type(w)->0,
                        scale: None,
                    },
                    j + 1,
                ),
            )
        } else {
            Ok(
                (
                    ColumnView {
                        name,
                        kind: ColumnKind::Int,
                        bit_depth: whole_type(w)->0,
                        scale: None,
                    },
                    past_word(e, j, "UNSIGNED"@),
                ),
            )
        }
    } else if same_word(w, "UINT"@) {
        match read_bits(e, j) {
            Err(x) => Err(x),
            Ok((bit_depth, k)) => Ok(
                (ColumnView { name, kind: ColumnKind::Int, bit_depth, scale: None }, k),
            ),
        }
    } else if same_word(w, "SIGNED"@) {
        if tok_is(e, j, TokView::LParen) {
            match read_bits(e, j) {
                Err(x) => Err(x),
                Ok((bit_depth, k)) => Ok(
                    (ColumnView { name, kind: ColumnKind::Signed, bit_depth, scale: None }, k),
                ),
            }
        } else {
            Ok((ColumnView { name, kind: ColumnKind::Signed, bit_depth: 32, scale: None }, j))
        }
    } else if same_word(w, "DECIMAL"@) || same_word(w, "NUMERIC"@) {
        read_decimal(e, j, name)
    } else {
        Err(refused(e, i, Refused::ColumnType))
    }
}

/// Whether what follows a type is a constraint rather than the end of the column.
pub open spec fn constraint_at(e: Env, i: int) -> bool {
    word_at(e, i, "NOT"@) || word_at(e, i, "NULL"@) || word_at(e, i, "PRIMARY"@) || word_at(
        e,
        i,
        "UNIQUE"@,
    ) || word_at(e, i, "DEFAULT"@) || word_at(e, i, "REFERENCES"@) || word_at(e, i, "CHECK"@)
        || word_at(e, i, "KEY"@) || word_at(e, i, "AUTO_INCREMENT"@) || word_at(e, i, "COMMENT"@)
}

/// One column's type, whole.
pub open spec fn read_column_type(e: Env, i: int, name: Seq<char>) -> Out<ColumnView> {
    match peek_at(e, i) {
        Some(TokView::Word(w)) => match read_type(e, i, w, name) {
            Err(x) => Err(x),
            Ok((column, j)) => if word_at(e, j, "MATERIALIZED"@) || word_at(e, j, "ALIAS"@) {
                Err(refused(e, j, Refused::ComputedColumn))
            } else if constraint_at(e, j) {
                Err(refused(e, j, Refused::Constraint))
            } else {
                Ok((column, j))
            },
        },
        _ => Err(expected(e, i, "a column type"@)),
    }
}

/// A column's name and type. The name of the record id is taken.
pub open spec fn read_column(e: Env, i: int) -> Out<ColumnView> {
    match read_ident(e, i, "a column name"@) {
        Err(x) => Err(x),
        Ok((name, j)) => if same_word(name, RECORD_COLUMN@) {
            Err(refused(e, i, Refused::IdColumn))
        } else {
            read_column_type(e, j, name)
        },
    }
}

/// The columns, after those already read, and the closing bracket.
pub open spec fn more_columns(e: Env, i: int, before: Seq<ColumnView>) -> Out<Seq<ColumnView>>
    decreases e.t.len() - i,
{
    match moved(e, i, read_column(e, i)) {
        Err(x) => Err(x),
        Ok((column, j)) => if tok_is(e, j, TokView::Comma) {
            more_columns(e, j + 1, before.push(column))
        } else if tok_is(e, j, TokView::RParen) {
            Ok((before.push(column), j + 1))
        } else {
            Err(expected(e, j, ", or ) after the columns"@))
        },
    }
}

/// The column list, after its opening bracket.
pub open spec fn read_columns(e: Env, i: int) -> Out<Seq<ColumnView>> {
    if tok_is(e, i, TokView::RParen) {
        Ok((Seq::empty(), i + 1))
    } else {
        more_columns(e, i, Seq::empty())
    }
}

/// A column list in brackets, when it is written.
pub open spec fn read_column_list(e: Env, i: int) -> Out<Seq<ColumnView>> {
    if tok_is(e, i, TokView::LParen) {
        read_columns(e, i + 1)
    } else {
        Ok((Seq::empty(), i))
    }
}

/// `ENGINE = <engine>`, when it is written. The name is bare or quoted.
pub open spec fn read_engine(e: Env, i: int) -> Out<Option<Seq<char>>> {
    if !word_at(e, i, "ENGINE"@) {
        Ok((None, i))
    } else if !tok_is(e, i + 1, TokView::Op("="@)) {
        Err(expected(e, i + 1, "= after ENGINE"@))
    } else {
        match peek_at(e, i + 2) {
            Some(TokView::Str(s)) => Ok((Some(s), i + 3)),
            Some(TokView::Word(s)) => Ok((Some(s), i + 3)),
            Some(TokView::Quoted(s)) => Ok((Some(s), i + 3)),
            _ => Err(expected(e, i + 2, "an engine name, like columnar or 'bitmap+columnar'"@)),
        }
    }
}

/// What is left of a `CREATE TABLE` after its engine, which is nothing.
pub open spec fn read_table_end<T>(e: Env, i: int, v: T) -> Out<T> {
    if word_at(e, i, "TTL"@) {
        Err(refused(e, i, Refused::DeclarativeTtl))
    } else if word_at(e, i, "PARTITION"@) || word_at(e, i, "DISTRIBUTED"@) || word_at(
        e,
        i,
        "CLUSTER"@,
    ) {
        Err(refused(e, i, Refused::Distribution))
    } else if word_at(e, i, "SAMPLE"@) {
        Err(refused(e, i, Refused::Sample))
    } else {
        ended(e, i, v)
    }
}

/// `[IF NOT EXISTS] <name> [(<column>, ...)] [ENGINE = <engine>]`, after `CREATE TABLE`.
pub open spec fn read_create_table(e: Env, i: int) -> Out<DdlView> {
    match read_if_exists(e, i, true) {
        Err(x) => Err(x),
        Ok((if_not_exists, j)) => match read_table(e, j, "a table name"@) {
            Err(x) => Err(x),
            Ok(((database, table), k)) => match read_column_list(e, k) {
                Err(x) => Err(x),
                Ok((columns, l)) => match read_engine(e, l) {
                    Err(x) => Err(x),
                    Ok((engine, m)) => read_table_end(
                        e,
                        m,
                        DdlView::CreateTable { database, table, engine, columns, if_not_exists },
                    ),
                },
            },
        },
    }
}

/// `[IF NOT EXISTS] <name>`, after `CREATE DATABASE`.
pub open spec fn read_create_database(e: Env, i: int) -> Out<DdlView> {
    match read_if_exists(e, i, true) {
        Err(x) => Err(x),
        Ok((if_not_exists, j)) => match read_ident(e, j, "a database name"@) {
            Err(x) => Err(x),
            Ok((name, k)) => if same_word(name, SYSTEM_DATABASE@) {
                Err(refused(e, j, Refused::SystemTable))
            } else {
                ended(e, k, DdlView::CreateDatabase { name, if_not_exists })
            },
        },
    }
}

/// An entry that can be renamed through: a bare column of the one table.
pub open spec fn renames(item: ItemView) -> bool {
    &&& item.filter is None
    &&& item.proj is Column
    &&& item.proj->Column_0.qualifier is None
}

/// The first entry that cannot be renamed through, from a position on.
pub open spec fn first_fault(items: Seq<ItemView>, k: int) -> Option<int>
    decreases items.len() - k,
{
    if k < 0 || k >= items.len() {
        None
    } else if !renames(items[k]) {
        Some(k)
    } else {
        first_fault(items, k + 1)
    }
}

/// Whether a body is a filter and a projection over one table, which is what can be inlined into
/// the statement that reads the view.
pub open spec fn inlines(select: SelectView) -> bool {
    &&& select.joins.len() == 0
    &&& select.group_by.len() == 0
    &&& select.grouping_sets is None
    &&& select.having is None
    &&& select.order_by is None
    &&& select.limit is None
    &&& select.offset is None
    &&& select.format == Format::Json
    &&& select.items.len() > 0
    &&& first_fault(select.items, 0) is None
}

/// Where a body that cannot be inlined is pointed at: the entry that cannot, or the end.
pub open spec fn fault_at(e: Env, j: int, select: SelectView) -> usize {
    match first_fault(select.items, 0) {
        Some(k) => select.items[k].at,
        None => offset(e, j),
    }
}

/// The text of a view's body, with `SELECT` at `i`.
pub open spec fn read_view_body(e: Env, i: int, d: int) -> Out<Seq<char>> {
    if !word_at(e, i, "SELECT"@) {
        Err(expected(e, i, "SELECT after AS"@))
    } else {
        match read_select(e, i + 1, d) {
            Err(x) => Err(x),
            Ok((select, j)) => if !inlines(select) {
                Err(refusal(Refused::ViewBody, fault_at(e, j, select)))
            } else if j < e.t.len() {
                Err(refused(e, j, Refused::ViewBody))
            } else {
                Ok((written(e, i, j), j))
            },
        }
    }
}

/// `[IF NOT EXISTS] <name> AS <select>`, after `CREATE [OR REPLACE] VIEW`.
pub open spec fn read_create_view(e: Env, i: int, d: int, or_replace: bool) -> Out<DdlView> {
    match read_if_exists(e, i, true) {
        Err(x) => Err(x),
        Ok((if_not_exists, j)) => if or_replace && if_not_exists {
            Err(expected(e, j, "only one of OR REPLACE and IF NOT EXISTS"@))
        } else {
            match read_table(e, j, "a view name"@) {
                Err(x) => Err(x),
                Ok(((database, name), k)) => if !word_at(e, k, "AS"@) {
                    Err(expected(e, k, "AS before the view's SELECT"@))
                } else {
                    match read_view_body(e, k + 1, d) {
                        Err(x) => Err(x),
                        Ok((body, l)) => Ok(
                            (
                                DdlView::CreateView {
                                    database,
                                    name,
                                    body,
                                    or_replace,
                                    if_not_exists,
                                },
                                l,
                            ),
                        ),
                    }
                },
            }
        },
    }
}

/// `CREATE TABLE` and `CREATE [OR REPLACE] VIEW`, after `CREATE` and what `OR REPLACE` there is.
pub open spec fn read_created(e: Env, i: int, d: int, or_replace: bool) -> Out<DdlView> {
    if word_at(e, i, "VIEW"@) {
        read_create_view(e, i + 1, d, or_replace)
    } else if !word_at(e, i, "TABLE"@) {
        if word_at(e, i, "MATERIALIZED"@) {
            Err(refused(e, i, Refused::MaterializedView))
        } else {
            Err(refused(e, i, Refused::Write))
        }
    } else if or_replace {
        Err(refused(e, i, Refused::Write))
    } else {
        read_create_table(e, i + 1)
    }
}

/// A `CREATE`, after the word.
pub open spec fn read_create(e: Env, i: int, d: int) -> Out<DdlView> {
    if word_at(e, i, "DATABASE"@) || word_at(e, i, "SCHEMA"@) || word_at(e, i, "DATASET"@) {
        read_create_database(e, i + 1)
    } else if word_at(e, i, "OR"@) {
        if word_at(e, i + 1, "REPLACE"@) {
            read_created(e, i + 2, d, true)
        } else {
            Err(expected(e, i + 1, "REPLACE after OR"@))
        }
    } else {
        read_created(e, i, d, false)
    }
}

/// The kind of a type that stores no number.
fn keyless(w: &str) -> (r: Option<ColumnKind>)
    ensures
        r == keyless_type(w@),
{
    if w.eq_ignore_ascii_case("SET") {
        Some(ColumnKind::Keyed)
    } else if w.eq_ignore_ascii_case("MUTEX") {
        Some(ColumnKind::Mutex)
    } else if w.eq_ignore_ascii_case("BOOL") || w.eq_ignore_ascii_case("BOOLEAN") {
        Some(ColumnKind::Bool)
    } else if w.eq_ignore_ascii_case("TIMEQUANTUM") {
        Some(ColumnKind::TimeQuantum)
    } else {
        None
    }
}

/// The kind and the depth of a type that carries its width in its name.
fn fixed(w: &str) -> (r: Option<(ColumnKind, u32)>)
    ensures
        r == fixed_type(w@),
{
    if w.eq_ignore_ascii_case("DATE") {
        Some((ColumnKind::Date, 32))
    } else if w.eq_ignore_ascii_case("DATETIME") || w.eq_ignore_ascii_case("TIMESTAMP") {
        Some((ColumnKind::DateTime, 64))
    } else if w.eq_ignore_ascii_case("FLOAT") || w.eq_ignore_ascii_case("FLOAT32")
        || w.eq_ignore_ascii_case("REAL") {
        Some((ColumnKind::Float32, 32))
    } else if w.eq_ignore_ascii_case("DOUBLE") || w.eq_ignore_ascii_case("FLOAT64") {
        Some((ColumnKind::Float64, 64))
    } else {
        None
    }
}

/// Whether a type is a text.
fn is_text(w: &str) -> (r: bool)
    ensures
        r == text_type(w@),
{
    w.eq_ignore_ascii_case("TEXT") || w.eq_ignore_ascii_case("VARCHAR") || w.eq_ignore_ascii_case(
        "CHAR",
    ) || w.eq_ignore_ascii_case("STRING")
}

/// Why a type other engines have is refused.
fn refusal_of(w: &str) -> (r: Option<Refused>)
    ensures
        r == refused_type(w@),
{
    if w.eq_ignore_ascii_case("NULLABLE") {
        Some(Refused::NullableType)
    } else if w.eq_ignore_ascii_case("ARRAY") || w.eq_ignore_ascii_case("MAP")
        || w.eq_ignore_ascii_case("TUPLE") || w.eq_ignore_ascii_case("NESTED") {
        Some(Refused::CompositeType)
    } else if w.eq_ignore_ascii_case("ENUM") || w.eq_ignore_ascii_case("ENUM8")
        || w.eq_ignore_ascii_case("ENUM16") {
        Some(Refused::EnumType)
    } else if w.eq_ignore_ascii_case("BITMAP") || w.eq_ignore_ascii_case("AGGREGATEFUNCTION") {
        Some(Refused::BitmapType)
    } else if w.eq_ignore_ascii_case("HLL") || w.eq_ignore_ascii_case("QUANTILE_STATE")
        || w.eq_ignore_ascii_case("QUANTILESTATE") || w.eq_ignore_ascii_case(
        "SIMPLEAGGREGATEFUNCTION",
    ) {
        Some(Refused::Sketch)
    } else {
        None
    }
}

/// The depth of a whole number's type.
fn whole(w: &str) -> (r: Option<u32>)
    ensures
        r == whole_type(w@),
{
    if w.eq_ignore_ascii_case("TINYINT") {
        Some(8)
    } else if w.eq_ignore_ascii_case("SMALLINT") {
        Some(16)
    } else if w.eq_ignore_ascii_case("INT") || w.eq_ignore_ascii_case("INTEGER") {
        Some(32)
    } else if w.eq_ignore_ascii_case("BIGINT") {
        Some(64)
    } else {
        None
    }
}

/// The first entry that cannot be renamed through.
fn find_fault(items: &Vec<Item>) -> (r: Option<usize>)
    ensures
        match r {
            Some(k) => first_fault(views(items@), 0) == Some(k as int) && k < items@.len(),
            None => first_fault(views(items@), 0) is None,
        },
{
    let mut k: usize = 0;
    while k < items.len()
        invariant
            k <= items@.len(),
            first_fault(views(items@), 0) == first_fault(views(items@), k as int),
        decreases items.len() - k,
    {
        assert(views(items@)[k as int] == items@[k as int]@);
        let plain = items[k].filter.is_none() && match &items[k].proj {
            Proj::Column(name) => name.qualifier.is_none(),
            _ => false,
        };
        if !plain {
            return Some(k);
        }
        k += 1;
    }
    None
}

impl<'a> Parser<'a> {
    /// `( bits )`, bounded where a bit-sliced value is bounded.
    fn bit_depth(&mut self) -> (r: Result<u32>)
        requires
            old(self).wf(),
        ensures
            goes(
                *old(self),
                *final(self),
                seen_plain(r),
                read_bits(old(self).env(), old(self).i as int),
            ),
    {
        self.expect(&Tok::LParen, "( and a number of bits")?;
        let bits = self.small_number("a number of bits")?;
        self.expect(&Tok::RParen, ") after the number of bits")?;
        if bits < 1 || bits > 64 {
            return Err(self.refuse(Refused::BitDepth));
        }
        Ok(bits as u32)
    }

    /// `( name )`, for a type whose argument is another type's name.
    fn wrapped_type(&mut self) -> (r: Result<String>)
        requires
            old(self).wf(),
        ensures
            goes(
                *old(self),
                *final(self),
                seen(r),
                read_wrapped(old(self).env(), old(self).i as int),
            ),
    {
        self.expect(&Tok::LParen, "( and a type name")?;
        let inner = match self.word() {
            Some(w) => str::to_owned(w),
            None => {
                return Err(self.syntax("a type name"));
            },
        };
        self.skip(1);
        self.expect(&Tok::RParen, ") after the type name")?;
        Ok(inner)
    }

    /// `DECIMAL(precision, scale)`, with the type name consumed.
    fn decimal(&mut self, name: String) -> (r: Result<Column>)
        requires
            old(self).wf(),
        ensures
            goes(
                *old(self),
                *final(self),
                seen(r),
                read_decimal(old(self).env(), old(self).i as int, name@),
            ),
    {
        if !self.eat(&Tok::LParen) {
            return Err(self.refuse(Refused::DecimalScale));
        }
        let precision = self.small_number("the precision, in digits")?;
        if !self.eat(&Tok::Comma) {
            return Err(self.refuse(Refused::DecimalScale));
        }
        let scale = self.small_number("the scale, in digits after the point")?;
        self.expect(&Tok::RParen, ") after the scale")?;
        if precision == 0 || scale > precision || scale > 127 {
            return Err(self.refuse(Refused::DecimalScale));
        }
        let bits = decimal_bits(precision);
        if bits < 1 || bits > 64 {
            return Err(self.refuse(Refused::BitDepth));
        }
        Ok(
            Column {
                name,
                kind: ColumnKind::Decimal,
                bit_depth: bits as u32,
                scale: Some(scale as i8),
            },
        )
    }

    /// A type name at the word before this position, and whatever it takes in brackets. `at` is
    /// where the word is.
    fn typed(&mut self, w: &str, name: String, at: usize) -> (r: Result<Column>)
        requires
            old(self).wf(),
            old(self).i > 0,
            at == offset(old(self).env(), old(self).i - 1),
        ensures
            goes(
                *old(self),
                *final(self),
                seen(r),
                read_type(old(self).env(), old(self).i - 1, w@, name@),
            ),
    {
        if let Some(kind) = keyless(w) {
            return Ok(Column { name, kind, bit_depth: KEYLESS_DEPTH, scale: None });
        }
        if let Some((kind, bit_depth)) = fixed(w) {
            if self.is_tok(&Tok::LParen) {
                return Err(self.refuse_at(Refused::ColumnType, at));
            }
            if w.eq_ignore_ascii_case("DOUBLE") {
                self.eat_word("PRECISION");
            }
            return Ok(Column { name, kind, bit_depth, scale: None });
        }
        if is_text(w) {
            if self.is_tok(&Tok::LParen) {
                return Err(self.refuse(Refused::Constraint));
            }
            return Ok(
                Column { name, kind: ColumnKind::Keyed, bit_depth: KEYLESS_DEPTH, scale: None },
            );
        }
        if w.eq_ignore_ascii_case("LOWCARDINALITY") {
            let inner = self.wrapped_type()?;
            if !is_text(inner.as_str()) {
                return Err(self.refuse_at(Refused::ColumnType, at));
            }
            return Ok(
                Column { name, kind: ColumnKind::Keyed, bit_depth: KEYLESS_DEPTH, scale: None },
            );
        }
        if let Some(what) = refusal_of(w) {
            return Err(self.refuse_at(what, at));
        }
        if let Some(bit_depth) = whole(w) {
            if self.is_tok(&Tok::LParen) {
                return Err(self.refuse(Refused::ColumnType));
            }
            let kind = if self.eat_word("SIGNED") {
                ColumnKind::Signed
            } else {
                self.eat_word("UNSIGNED");
                ColumnKind::Int
            };
            return Ok(Column { name, kind, bit_depth, scale: None });
        }
        if w.eq_ignore_ascii_case("UINT") {
            let bit_depth = self.bit_depth()?;
            return Ok(Column { name, kind: ColumnKind::Int, bit_depth, scale: None });
        }
        if w.eq_ignore_ascii_case("SIGNED") {
            let bit_depth: u32 = if self.is_tok(&Tok::LParen) {
                self.bit_depth()?
            } else {
                32
            };
            return Ok(Column { name, kind: ColumnKind::Signed, bit_depth, scale: None });
        }
        if w.eq_ignore_ascii_case("DECIMAL") || w.eq_ignore_ascii_case("NUMERIC") {
            return self.decimal(name);
        }
        Err(self.refuse_at(Refused::ColumnType, at))
    }

    /// Whether what follows a type is a constraint rather than the end of the column.
    pub(crate) fn at_constraint(&self) -> (r: bool)
        requires
            self.wf(),
        ensures
            r == constraint_at(self.env(), self.i as int),
    {
        self.word_is("NOT") || self.word_is("NULL") || self.word_is("PRIMARY") || self.word_is(
            "UNIQUE",
        ) || self.word_is("DEFAULT") || self.word_is("REFERENCES") || self.word_is("CHECK")
            || self.word_is("KEY") || self.word_is("AUTO_INCREMENT") || self.word_is("COMMENT")
    }

    /// One type name, and whatever it takes in brackets.
    pub(crate) fn column_type(&mut self, name: String) -> (r: Result<Column>)
        requires
            old(self).wf(),
        ensures
            goes(
                *old(self),
                *final(self),
                seen(r),
                read_column_type(old(self).env(), old(self).i as int, name@),
            ),
            r is Ok ==> final(self).i > old(self).i,
    {
        let at = self.at();
        let w = match self.word() {
            Some(w) => str::to_owned(w),
            None => {
                return Err(self.syntax("a column type"));
            },
        };
        self.skip(1);
        let column = self.typed(w.as_str(), name, at)?;
        if self.word_is("MATERIALIZED") || self.word_is("ALIAS") {
            return Err(self.refuse(Refused::ComputedColumn));
        }
        if self.at_constraint() {
            return Err(self.refuse(Refused::Constraint));
        }
        Ok(column)
    }

    /// A column's name and type.
    fn column(&mut self) -> (r: Result<Column>)
        requires
            old(self).wf(),
        ensures
            goes(
                *old(self),
                *final(self),
                seen(r),
                read_column(old(self).env(), old(self).i as int),
            ),
            r is Ok ==> final(self).i > old(self).i,
    {
        let at = self.at();
        let name = self.bare_ident("a column name")?;
        if name.as_str().eq_ignore_ascii_case(RECORD_COLUMN) {
            return Err(self.refuse_at(Refused::IdColumn, at));
        }
        self.column_type(name)
    }

    /// The columns, with `(` consumed and `)` eaten here.
    fn column_list(&mut self) -> (r: Result<Vec<Column>>)
        requires
            old(self).wf(),
        ensures
            goes(
                *old(self),
                *final(self),
                seen_all(r),
                read_columns(old(self).env(), old(self).i as int),
            ),
    {
        let mut out: Vec<Column> = Vec::new();
        assert(views(out@) =~= Seq::<ColumnView>::empty());
        if self.eat(&Tok::RParen) {
            return Ok(out);
        }
        loop
            invariant
                self.wf(),
                self.env() == old(self).env(),
                self.t == old(self).t,
                self.depth == old(self).depth,
                self.i >= old(self).i,
                read_columns(old(self).env(), old(self).i as int) == more_columns(self.env(), self.i as int, views(out@)),
            decreases self.t@.len() - self.i,
        {
            let ghost before = views(out@);
            let column = self.column()?;
            out.push(column);
            assert(views(out@) =~= before.push(column@));
            if !self.eat(&Tok::Comma) {
                self.expect(&Tok::RParen, ", or ) after the columns")?;
                return Ok(out);
            }
        }
    }

    /// An engine name, bare or quoted, under `ENGINE =`.
    fn engine_name(&mut self) -> (r: Result<Option<String>>)
        requires
            old(self).wf(),
        ensures
            goes(
                *old(self),
                *final(self),
                match r {
                    Ok(d) => Ok(opt_text(d)),
                    Err(e) => Err(e@),
                },
                read_engine(old(self).env(), old(self).i as int),
            ),
    {
        if !self.eat_word("ENGINE") {
            return Ok(None);
        }
        self.expect(&Tok::Op("="), "= after ENGINE")?;
        let name = match self.peek() {
            Some(Tok::Str(s)) => s.clone(),
            Some(Tok::Word(s)) => s.clone(),
            Some(Tok::Quoted(s)) => s.clone(),
            _ => {
                return Err(self.syntax("an engine name, like columnar or 'bitmap+columnar'"));
            },
        };
        self.skip(1);
        Ok(Some(name))
    }

    /// `[IF NOT EXISTS] <name> [(<column>, ...)] [ENGINE = <engine>]`, after `CREATE TABLE`.
    fn table_created(&mut self) -> (r: Result<Ddl>)
        requires
            old(self).wf(),
        ensures
            goes(
                *old(self),
                *final(self),
                seen(r),
                read_create_table(old(self).env(), old(self).i as int),
            ),
    {
        let if_not_exists = self.if_exists(true)?;
        let (database, table) = self.table_ref("a table name")?;
        let columns = if self.eat(&Tok::LParen) {
            self.column_list()?
        } else {
            let none: Vec<Column> = Vec::new();
            assert(views(none@) =~= Seq::<ColumnView>::empty());
            none
        };
        let engine = self.engine_name()?;
        if self.word_is("TTL") {
            return Err(self.refuse(Refused::DeclarativeTtl));
        }
        if self.word_is("PARTITION") || self.word_is("DISTRIBUTED") || self.word_is("CLUSTER") {
            return Err(self.refuse(Refused::Distribution));
        }
        if self.word_is("SAMPLE") {
            return Err(self.refuse(Refused::Sample));
        }
        self.end_of_statement()?;
        Ok(Ddl::CreateTable { database, table, engine, columns, if_not_exists })
    }

    /// `[IF NOT EXISTS] <name>`, after `CREATE DATABASE`.
    fn database_created(&mut self) -> (r: Result<Ddl>)
        requires
            old(self).wf(),
        ensures
            goes(
                *old(self),
                *final(self),
                seen(r),
                read_create_database(old(self).env(), old(self).i as int),
            ),
    {
        let if_not_exists = self.if_exists(true)?;
        let at = self.at();
        let name = self.bare_ident("a database name")?;
        if name.as_str().eq_ignore_ascii_case(SYSTEM_DATABASE) {
            return Err(self.refuse_at(Refused::SystemTable, at));
        }
        self.end_of_statement()?;
        Ok(Ddl::CreateDatabase { name, if_not_exists })
    }

    /// Refuses a view body that is not a filter and a projection over one table.
    fn check_view_body(&self, select: &Select) -> (r: Result<()>)
        requires
            self.wf(),
        ensures
            match r {
                Ok(_) => inlines(select@),
                Err(e) => !inlines(select@) && e@ == refusal(
                    Refused::ViewBody,
                    fault_at(self.env(), self.i as int, select@),
                ),
            },
    {
        let fault = find_fault(&select.items);
        let json = match select.format {
            Format::Json => true,
            _ => false,
        };
        if select.joins.len() > 0 || select.group_by.len() > 0
            || select.grouping_sets.is_some() || select.having.is_some() || select.order_by.is_some() || select.limit.is_some() || select.offset.is_some()
            || !json || select.items.len() == 0 || fault.is_some() {
            let at = match fault {
                Some(k) => {
                    assert(select@.items[k as int] == select.items@[k as int]@);
                    select.items[k].at
                },
                None => self.at(),
            };
            return Err(self.refuse_at(Refused::ViewBody, at));
        }
        Ok(())
    }

    /// The text of a view's body.
    fn view_body(&mut self) -> (r: Result<String>)
        requires
            old(self).wf(),
        ensures
            goes(
                *old(self),
                *final(self),
                seen(r),
                read_view_body(old(self).env(), old(self).i as int, old(self).depth as int),
            ),
    {
        let from = self.at();
        self.expect_word("SELECT", "SELECT after AS")?;
        let select = self.select()?;
        self.check_view_body(&select)?;
        if !self.done() {
            return Err(self.refuse(Refused::ViewBody));
        }
        Ok(self.written_since(Ghost(old(self).i as int), from))
    }

    /// `[IF NOT EXISTS] <name> AS <select>`, with `VIEW` consumed.
    fn create_view(&mut self, or_replace: bool) -> (r: Result<Ddl>)
        requires
            old(self).wf(),
        ensures
            goes(
                *old(self),
                *final(self),
                seen(r),
                read_create_view(old(self).env(), old(self).i as int, old(self).depth as int, or_replace),
            ),
    {
        let if_not_exists = self.if_exists(true)?;
        if or_replace && if_not_exists {
            return Err(self.syntax("only one of OR REPLACE and IF NOT EXISTS"));
        }
        let (database, name) = self.table_ref("a view name")?;
        self.expect_word("AS", "AS before the view's SELECT")?;
        let body = self.view_body()?;
        Ok(Ddl::CreateView { database, name, body, or_replace, if_not_exists })
    }

    /// A `CREATE`, with the word consumed.
    pub(crate) fn create_table(&mut self) -> (r: Result<Ddl>)
        requires
            old(self).wf(),
        ensures
            goes(
                *old(self),
                *final(self),
                seen(r),
                read_create(old(self).env(), old(self).i as int, old(self).depth as int),
            ),
    {
        if self.word_is("DATABASE") || self.word_is("SCHEMA") || self.word_is("DATASET") {
            self.skip(1);
            return self.database_created();
        }
        let or_replace = if self.eat_word("OR") {
            self.expect_word("REPLACE", "REPLACE after OR")?;
            true
        } else {
            false
        };
        if self.eat_word("VIEW") {
            return self.create_view(or_replace);
        }
        if !self.word_is("TABLE") {
            if self.word_is("MATERIALIZED") {
                return Err(self.refuse(Refused::MaterializedView));
            }
            return Err(self.refuse(Refused::Write));
        }
        if or_replace {
            return Err(self.refuse(Refused::Write));
        }
        self.skip(1);
        self.table_created()
    }
}

} // verus!
