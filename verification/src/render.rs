//! A schema, written back as the statement that would create it.

use vstd::prelude::*;
use crate::ddl::{Column, ColumnKind, ColumnView};
use crate::parse::create::{bits_for, decimal_bits};
use crate::text::{dec, dec_signed, push_dec, push_signed, views};

verus! {

/// The digits a decimal of this depth holds: the fewest, up to nineteen, that are given as many
/// bits. `p` is where the search starts.
pub open spec fn digits_for(bit_depth: u32, p: nat) -> nat
    decreases 19 - p,
{
    if p >= 19 || bits_for(p as u64) >= bit_depth {
        p
    } else {
        digits_for(bit_depth, p + 1)
    }
}

/// One column's type, in the spelling that is read back as the same column.
pub open spec fn type_text(column: ColumnView) -> Seq<char> {
    match column.kind {
        ColumnKind::Keyed => "SET"@,
        ColumnKind::Mutex => "MUTEX"@,
        ColumnKind::Bool => "BOOL"@,
        ColumnKind::TimeQuantum => "TIMEQUANTUM"@,
        ColumnKind::Float32 => "FLOAT32"@,
        ColumnKind::Float64 => "FLOAT64"@,
        ColumnKind::Date => "DATE"@,
        ColumnKind::DateTime => "DATETIME"@,
        ColumnKind::Int => "UINT("@ + dec(column.bit_depth as nat) + ")"@,
        ColumnKind::Signed => "SIGNED("@ + dec(column.bit_depth as nat) + ")"@,
        ColumnKind::Decimal => "DECIMAL("@ + dec(digits_for(column.bit_depth, 1)) + ", "@
            + dec_signed(
            match column.scale {
                Some(s) => s as int,
                None => 0,
            },
        ) + ")"@,
    }
}

/// The line of one column. Every one but the last ends in a comma.
pub open spec fn column_line(column: ColumnView, last: bool) -> Seq<char> {
    "    "@ + column.name + " "@ + type_text(column) + if last {
        "\n"@
    } else {
        ",\n"@
    }
}

/// The lines of the first `n` columns.
pub open spec fn column_lines(columns: Seq<ColumnView>, n: int) -> Seq<char>
    decreases n,
{
    if n <= 0 {
        Seq::empty()
    } else {
        column_lines(columns, n - 1) + column_line(columns[n - 1], n == columns.len())
    }
}

/// A character of a bare word.
pub open spec fn word_char(c: char) -> bool {
    ('a' <= c && c <= 'z') || ('A' <= c && c <= 'Z') || ('0' <= c && c <= '9') || c == '_'
}

/// Whether a text is made of the characters of a word.
pub open spec fn is_bare(name: Seq<char>) -> bool {
    forall|k: int| 0 <= k < name.len() ==> word_char(#[trigger] name[k])
}

/// Whether a text is one word. One that begins with a digit would be read as a number.
pub open spec fn is_word(w: Seq<char>) -> bool {
    w.len() > 0 && is_bare(w) && !('0' <= w[0] && w[0] <= '9')
}

/// The engine clause. A name that is not one word is quoted, or it would not read back.
pub open spec fn engine_text(engine: Option<Seq<char>>) -> Seq<char> {
    match engine {
        None => Seq::empty(),
        Some(e) => if is_word(e) {
            " ENGINE = "@ + e
        } else {
            " ENGINE = '"@ + e + "'"@
        },
    }
}

/// The statement that would create some columns.
pub open spec fn create_text(
    table: Seq<char>,
    engine: Option<Seq<char>>,
    columns: Seq<ColumnView>,
) -> Seq<char> {
    "CREATE TABLE "@ + table + (if columns.len() > 0 {
        " (\n"@ + column_lines(columns, columns.len() as int) + ")"@
    } else {
        Seq::empty()
    }) + engine_text(engine)
}

/// How many digits a decimal of this bit depth was declared with.
pub fn precision_for(bit_depth: u32) -> (r: u64)
    ensures
        r == digits_for(bit_depth, 1),
        1 <= r <= 19,
{
    let mut p: u64 = 1;
    while p < 19 && decimal_bits(p) < bit_depth as u64
        invariant
            1 <= p <= 19,
            digits_for(bit_depth, 1) == digits_for(bit_depth, p as nat),
        decreases 19 - p,
    {
        p += 1;
    }
    p
}

/// One column's type, in the spelling that is read back as the same column.
pub fn column_type(column: &Column) -> (r: String)
    ensures
        r@ == type_text(column@),
{
    match column.kind {
        ColumnKind::Keyed => str::to_owned("SET"),
        ColumnKind::Mutex => str::to_owned("MUTEX"),
        ColumnKind::Bool => str::to_owned("BOOL"),
        ColumnKind::TimeQuantum => str::to_owned("TIMEQUANTUM"),
        ColumnKind::Float32 => str::to_owned("FLOAT32"),
        ColumnKind::Float64 => str::to_owned("FLOAT64"),
        ColumnKind::Date => str::to_owned("DATE"),
        ColumnKind::DateTime => str::to_owned("DATETIME"),
        ColumnKind::Int => {
            let mut out = str::to_owned("UINT(");
            push_dec(&mut out, column.bit_depth as u128);
            out.append(")");
            out
        },
        ColumnKind::Signed => {
            let mut out = str::to_owned("SIGNED(");
            push_dec(&mut out, column.bit_depth as u128);
            out.append(")");
            out
        },
        ColumnKind::Decimal => {
            let mut out = str::to_owned("DECIMAL(");
            push_dec(&mut out, precision_for(column.bit_depth) as u128);
            out.append(", ");
            let scale: i128 = match column.scale {
                Some(s) => s as i128,
                None => 0,
            };
            push_signed(&mut out, scale);
            out.append(")");
            out
        },
    }
}

/// Whether a text is one word.
fn word(name: &str) -> (r: bool)
    ensures
        r == is_word(name@),
{
    let n = name.unicode_len();
    if n == 0 {
        return false;
    }
    let first = name.get_char(0);
    if '0' <= first && first <= '9' {
        return false;
    }
    let mut k: usize = 0;
    while k < n
        invariant
            n == name@.len(),
            k <= n,
            forall|j: int| 0 <= j < k ==> word_char(#[trigger] name@[j]),
        decreases n - k,
    {
        let c = name.get_char(k);
        if !(('a' <= c && c <= 'z') || ('A' <= c && c <= 'Z') || ('0' <= c && c <= '9') || c == '_') {
            assert(!word_char(name@[k as int]));
            return false;
        }
        k += 1;
    }
    true
}

/// The lines of some columns, appended.
fn push_columns(out: &mut String, columns: &[Column])
    ensures
        final(out)@ == old(out)@ + column_lines(views(columns@), columns@.len() as int),
{
    let ghost was = out@;
    let mut k: usize = 0;
    assert(was + column_lines(views(columns@), 0) =~= was);
    while k < columns.len()
        invariant
            k <= columns@.len(),
            out@ == was + column_lines(views(columns@), k as int),
        decreases columns.len() - k,
    {
        let ghost before = out@;
        let column = &columns[k];
        assert(views(columns@)[k as int] == column@);
        out.append("    ");
        out.append(column.name.as_str());
        out.append(" ");
        out.append(column_type(column).as_str());
        let last = k + 1 == columns.len();
        if last {
            out.append("\n");
        } else {
            out.append(",\n");
        }
        assert(out@ =~= before + column_line(column@, last));
        k += 1;
        assert(out@ =~= was + column_lines(views(columns@), k as int));
    }
}

/// The `CREATE TABLE` that would create these columns, which is read back as the same columns.
pub fn create_table(table: &str, engine: Option<&str>, columns: &[Column]) -> (r: String)
    ensures
        r@ == create_text(
            table@,
            match engine {
                Some(e) => Some(e@),
                None => None,
            },
            views(columns@),
        ),
{
    let mut out = str::to_owned("CREATE TABLE ");
    out.append(table);
    if columns.len() > 0 {
        out.append(" (\n");
        push_columns(&mut out, columns);
        out.append(")");
    }
    if let Some(e) = engine {
        if word(e) {
            out.append(" ENGINE = ");
            out.append(e);
        } else {
            out.append(" ENGINE = '");
            out.append(e);
            out.append("'");
        }
    }
    assert(out@ =~= create_text(
        table@,
        match engine {
            Some(e) => Some(e@),
            None => None,
        },
        views(columns@),
    ));
    out
}

} // verus!
