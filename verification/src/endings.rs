//! Printed answers end in no line break.

use vstd::prelude::*;
use crate::civil::padded;
use crate::explain::{answer_text, applied_text, carry, cell_text, clause_lines, column_lines, cut_lines, cut_parts, drawn, elbow, format_text, having_text, of_text, operand_text, order_text, plan_text, selected_text, shape_head, shape_lines, shape_text, tree, units_text};
use crate::pql::LiteralView;
use crate::print::{decimal_text, literal_text};
use crate::scalar::ScalarView;
use crate::shape::{no_cut, AnswerView, CellView, ColumnsView, Cut, Format, GroupOrder, HavingView, JoinSide, Of, OperandView, OrderBy, SelectedView, ShapeView, ThresholdView, UnitsView};
use crate::text::{char_at, dec, dec_signed, joined};

verus! {

/// Whether a text ends in no line break.
pub open spec fn runs_on(s: Seq<char>) -> bool {
    s.len() == 0 || s.last() != '\n'
}

/// Whether a text ends in something that is no line break.
pub open spec fn closed_by(s: Seq<char>) -> bool {
    s.len() > 0 && s.last() != '\n'
}

proof fn lemma_then(a: Seq<char>, b: Seq<char>)
    ensures
        closed_by(b) ==> closed_by(a + b),
        runs_on(a) && runs_on(b) ==> runs_on(a + b),
        closed_by(a) && runs_on(b) ==> closed_by(a + b),
{
    if b.len() > 0 {
        assert((a + b).last() == b.last());
    } else {
        assert(a + b =~= a);
    }
}

proof fn lemma_dec_closed(n: nat)
    ensures
        closed_by(dec(n)),
{
    assert(crate::text::digit(n % 10) != '\n');
    if n < 10 {
        assert(n % 10 == n);
    }
}

proof fn lemma_signed_closed(n: int)
    ensures
        closed_by(dec_signed(n)),
{
    if n < 0 {
        lemma_dec_closed((-n) as nat);
        lemma_then(seq!['-'], dec((-n) as nat));
    } else {
        lemma_dec_closed(n as nat);
    }
}

proof fn lemma_plan(plan: usize)
    ensures
        closed_by(plan_text(plan)),
{
    lemma_dec_closed(plan as nat);
    lemma_then("#"@, dec(plan as nat));
}

/// Some texts that the printer ends a line with.
proof fn lemma_words()
    ensures
        closed_by(")"@),
        closed_by("'"@),
        closed_by("]"@),
        closed_by("key"@),
        closed_by("right key"@),
        closed_by("null"@),
        closed_by(" else 0"@),
        closed_by(" else null"@),
        closed_by(" units=date"@),
        closed_by(" units=datetime"@),
        closed_by(" (unresolved)"@),
        closed_by("true"@),
        closed_by("false"@),
        closed_by("value"@),
        closed_by("now()"@),
        closed_by(" end"@),
        closed_by(" desc"@),
        closed_by(" asc"@),
        closed_by("with ties"@),
        closed_by("*"@),
        closed_by(" = "@),
{
    reveal_strlit(")");
    reveal_strlit("'");
    reveal_strlit("]");
    reveal_strlit("key");
    reveal_strlit("right key");
    reveal_strlit("null");
    reveal_strlit(" else 0");
    reveal_strlit(" else null");
    reveal_strlit(" units=date");
    reveal_strlit(" units=datetime");
    reveal_strlit(" (unresolved)");
    reveal_strlit("true");
    reveal_strlit("false");
    reveal_strlit("value");
    reveal_strlit("now()");
    reveal_strlit(" end");
    reveal_strlit(" desc");
    reveal_strlit(" asc");
    reveal_strlit("with ties");
    reveal_strlit("*");
    reveal_strlit(" = ");
}

proof fn lemma_of(of: Of, sides: Seq<JoinSide>)
    ensures
        closed_by(of_text(of, sides)),
{
    lemma_words();
    assert forall|a: Seq<char>, b: Seq<char>| closed_by(b) implies closed_by(#[trigger] (a + b)) by {
        lemma_then(a, b);
    }
    assert forall|plan: usize| closed_by(#[trigger] plan_text(plan)) by {
        lemma_plan(plan);
    }
    match of {
        Of::KeyAt { axis } => lemma_dec_closed(axis as nat),
        Of::Const { value } => {
            if let Some(v) = value {
                lemma_signed_closed(v as int);
            }
        },
        _ => {},
    }
}

proof fn lemma_units(units: UnitsView)
    ensures
        runs_on(units_text(units)),
{
    lemma_words();
    match units {
        UnitsView::Digits(n) => {
            lemma_dec_closed(n as nat);
            lemma_then(" scale="@, dec(n as nat));
        },
        UnitsView::Written { table, field } => {
            lemma_then(" units="@ + table + "."@ + field, " (unresolved)"@);
        },
        _ => {},
    }
}

proof fn lemma_decimal(units: nat, scale: u8)
    ensures
        closed_by(decimal_text(units, scale)),
{
    let text = padded(units, (scale + 1) as nat);
    let whole = text.len() - scale;
    lemma_dec_closed(units);
    if dec(units).len() < scale + 1 {
        let zeros = Seq::new((scale + 1 - dec(units).len()) as nat, |i: int| '0');
        lemma_then(zeros, dec(units));
    }
    if scale > 0 {
        let digits = text.subrange(whole, text.len() as int);
        assert(digits.last() == text.last());
        lemma_then(text.subrange(0, whole) + "."@, digits);
    }
}

proof fn lemma_literal(v: LiteralView)
    ensures
        closed_by(literal_text(v)),
{
    lemma_words();
    match v {
        LiteralView::Int(n) => lemma_dec_closed(n as nat),
        LiteralView::Sint(n) => lemma_signed_closed(n as int),
        LiteralView::Dec { units, scale } => lemma_decimal(units as nat, scale),
        LiteralView::Sdec { units, scale } => {
            if units < 0 {
                lemma_decimal((-units) as nat, scale);
                lemma_then("-"@, decimal_text((-units) as nat, scale));
            } else {
                lemma_decimal(units as nat, scale);
            }
        },
        LiteralView::Str(s) => lemma_then("'"@ + s, "'"@),
        LiteralView::Bool(_) => {},
    }
}

proof fn lemma_printed(expr: ScalarView)
    ensures
        closed_by(expr.printed()),
{
    lemma_words();
    assert forall|a: Seq<char>, b: Seq<char>| closed_by(b) implies closed_by(#[trigger] (a + b)) by {
        lemma_then(a, b);
    }
    if let ScalarView::Literal(v) = expr {
        lemma_literal(v);
    }
}

proof fn lemma_applied(apply: Option<ScalarView>)
    ensures
        runs_on(applied_text(apply)),
{
    if let Some(expr) = apply {
        lemma_printed(expr);
        lemma_then(" apply="@, expr.printed());
    }
}

proof fn lemma_cell(cell: CellView, sides: Seq<JoinSide>)
    ensures
        closed_by(cell_text(cell, sides)),
{
    let of = of_text(cell.of, sides);
    let named = cell.column + " = "@ + of;
    lemma_of(cell.of, sides);
    lemma_units(cell.units);
    lemma_applied(cell.apply);
    lemma_then(cell.column + " = "@, of);
    lemma_then(named, units_text(cell.units));
    lemma_then(named + units_text(cell.units), applied_text(cell.apply));
}

/// One column of a projection ends as its name does where nothing stands behind the name.
proof fn lemma_selected(selected: SelectedView)
    ensures
        runs_on(selected_text(selected)) <==> !(is_bare(selected) && !runs_on(selected.column)),
{
    let units = units_text(selected.units);
    let apply = applied_text(selected.apply);
    lemma_units(selected.units);
    lemma_applied(selected.apply);
    lemma_then(selected.column, units);
    lemma_then(selected.column + units, apply);
    reveal_strlit(" units=date");
    reveal_strlit(" units=datetime");
    reveal_strlit(" (unresolved)");
    if selected.apply is Some {
        lemma_printed(selected.apply->0);
        lemma_then(" apply="@, selected.apply->0.printed());
        assert(closed_by(apply));
    } else if selected.units != UnitsView::Digits(0) {
        match selected.units {
            UnitsView::Digits(n) => {
                lemma_dec_closed(n as nat);
                lemma_then(" scale="@, dec(n as nat));
            },
            UnitsView::Written { table, field } => {
                lemma_then(" units="@ + table + "."@ + field, " (unresolved)"@);
            },
            _ => {},
        }
        assert(closed_by(units));
        assert(selected.column + units + apply =~= selected.column + units);
    } else {
        assert(selected_text(selected) =~= selected.column);
    }
}

proof fn lemma_operand(operand: OperandView, sides: Seq<JoinSide>)
    ensures
        closed_by(operand_text(operand, sides)),
{
    lemma_words();
    match operand {
        OperandView::Of { of, .. } => lemma_of(of, sides),
        OperandView::Value(ThresholdView::Units(n)) => lemma_signed_closed(n as int),
        OperandView::Value(ThresholdView::Written { table, field, value }) => lemma_then(
            literal_text(value) + " as "@ + table + "."@ + field,
            " (unresolved)"@,
        ),
    }
}

proof fn lemma_having(having: HavingView, sides: Seq<JoinSide>)
    ensures
        closed_by(having_text(having, sides)),
    decreases having,
{
    lemma_words();
    match having {
        HavingView::And(a, b) => {
            lemma_having(*b, sides);
            lemma_then(having_text(*a, sides) + " and "@, having_text(*b, sides));
        },
        HavingView::Or(a, b) => lemma_then(
            "("@ + having_text(*a, sides) + " or "@ + having_text(*b, sides),
            ")"@,
        ),
        HavingView::Not(a) => lemma_then("not ("@ + having_text(*a, sides), ")"@),
        HavingView::Cmp { left, op, right } => {
            lemma_operand(right, sides);
            lemma_then(
                operand_text(left, sides) + " "@ + op + " "@,
                operand_text(right, sides),
            );
        },
    }
}

proof fn lemma_order(order: GroupOrder, sides: Seq<JoinSide>)
    ensures
        closed_by(order_text(order, sides)),
{
    lemma_words();
    let by = match order.by {
        OrderBy::Key => "key"@,
        OrderBy::Value { of } => of_text(of, sides),
    };
    lemma_then(by, " desc"@);
    lemma_then(by, " asc"@);
}

/// Whether every one of some lines ends in no line break.
pub open spec fn all_run_on(lines: Seq<Seq<char>>) -> bool {
    forall|k: int| 0 <= k < lines.len() ==> runs_on(#[trigger] lines[k])
}

proof fn lemma_joined(parts: Seq<Seq<char>>, between: Seq<char>)
    requires
        all_run_on(parts),
        runs_on(between),
    ensures
        runs_on(joined(parts, between)),
    decreases parts.len(),
{
    if parts.len() > 1 {
        let init = parts.drop_last();
        assert forall|k: int| 0 <= k < init.len() implies runs_on(#[trigger] init[k]) by {
            assert(init[k] == parts[k]);
        }
        lemma_joined(init, between);
        lemma_then(joined(init, between), between);
        lemma_then(joined(init, between) + between, parts.last());
    }
}

proof fn lemma_cut(cut: Cut)
    ensures
        all_run_on(cut_lines(cut)),
{
    lemma_words();
    reveal_strlit(" ");
    reveal_strlit("cut: ");
    assert forall|n: usize| runs_on("limit "@ + #[trigger] dec(n as nat)) && runs_on("offset "@ + dec(n as nat)) by {
        lemma_dec_closed(n as nat);
        lemma_then("limit "@, dec(n as nat));
        lemma_then("offset "@, dec(n as nat));
    }
    lemma_joined(cut_parts(cut), " "@);
    lemma_then("cut: "@, joined(cut_parts(cut), " "@));
}

proof fn lemma_clauses(
    sides: Seq<JoinSide>,
    cells: Seq<CellView>,
    having: Option<HavingView>,
    order: Option<GroupOrder>,
    cut: Cut,
)
    ensures
        all_run_on(clause_lines(sides, cells, having, order, cut)),
{
    assert forall|k: int| 0 <= k < cells.len() implies runs_on(cell_text(#[trigger] cells[k], sides)) by {
        lemma_cell(cells[k], sides);
    }
    if let Some(h) = having {
        lemma_having(h, sides);
        lemma_then("having: "@, having_text(h, sides));
    }
    if let Some(o) = order {
        lemma_order(o, sides);
        lemma_then("order: "@, order_text(o, sides));
    }
    lemma_cut(cut);
}

/// A tree ends as its last line does.
proof fn lemma_tree(lines: Seq<Seq<char>>, prefix: Seq<char>)
    requires
        lines.len() > 0,
    ensures
        tree(lines, prefix).len() > 0,
        runs_on(tree(lines, prefix)) <==> runs_on(lines.last()),
{
    let n = lines.len() as int;
    let line = lines[n - 1];
    let mark = elbow(true);
    reveal_strlit("└── ");
    let before = drawn(lines, prefix, n - 1) + "\n"@ + prefix;
    lemma_then(before, mark);
    lemma_then(before + mark, line);
    assert(tree(lines, prefix) == before + mark + line);
    if line.len() > 0 {
        assert((before + mark + line).last() == line.last());
    }
}

/// Whether nothing is printed behind the name of a column of a projection.
pub open spec fn is_bare(selected: SelectedView) -> bool {
    selected.units == UnitsView::Digits(0) && selected.apply is None
}

/// The name a printed shape ends with, if it ends with one: the column of the records, the last
/// column of a projection, or the column a projection of none is ordered by, where nothing is
/// printed behind it.
pub open spec fn last_name(shape: ShapeView) -> Option<Seq<char>>
    decreases shape,
{
    match shape {
        ShapeView::Records { column, limit: None, descending: false } => Some(column),
        ShapeView::Table { columns: ColumnsView::Named(c), order, cut, .. } => if c.len() > 0 {
            if is_bare(c.last()) {
                Some(c.last().column)
            } else {
                None
            }
        } else {
            match order {
                Some(o) => if !o.desc && cut is None {
                    Some(o.column)
                } else {
                    None
                },
                None => None,
            }
        },
        ShapeView::Union { branches } => if branches.len() > 0 {
            last_name(branches[branches.len() - 1])
        } else {
            None
        },
        _ => None,
    }
}

/// Whether the name a printed shape ends with, if it ends with one, runs on.
pub open spec fn name_runs_on(shape: ShapeView) -> bool {
    last_name(shape) matches Some(name) ==> runs_on(name)
}

/// A shape's own line ends as the name in it does, where nothing stands behind the name.
proof fn lemma_head(shape: ShapeView, prefix: Seq<char>)
    requires
        shape_lines(shape, prefix).len() == 0,
    ensures
        shape_head(shape).len() > 0,
        runs_on(shape_head(shape)) <==> name_runs_on(shape),
{
    lemma_words();
    reveal_strlit("Row");
    reveal_strlit("Table");
    reveal_strlit("Union");
    reveal_strlit("Records column=");
    reveal_strlit("Table order=");
    reveal_strlit(") per_key");
    reveal_strlit(" order=desc");
    assert forall|a: Seq<char>, b: Seq<char>|
        (closed_by(b) ==> closed_by(#[trigger] (a + b))) && (b.len() == 0 ==> a + b == a) && (b.len()
            > 0 ==> (a + b).last() == b.last()) by {
        lemma_then(a, b);
        if b.len() == 0 {
            assert(a + b =~= a);
        }
    }
    assert forall|n: usize| closed_by(#[trigger] dec(n as nat)) by {
        lemma_dec_closed(n as nat);
    }
    match shape {
        ShapeView::Tuples { axes, .. } => lemma_dec_closed(axes as nat),
        _ => {},
    }
}

proof fn lemma_columns(columns: ColumnsView)
    requires
        column_lines(columns).len() > 0,
    ensures
        runs_on(column_lines(columns).last()) <==> !(columns matches ColumnsView::Named(c) && is_bare(
            c.last(),
        ) && !runs_on(c.last().column)),
{
    lemma_words();
    if let ColumnsView::Named(c) = columns {
        lemma_selected(c.last());
    }
}

/// The last line under a shape's own ends as its last name does.
proof fn lemma_lines(shape: ShapeView, prefix: Seq<char>)
    requires
        shape_lines(shape, prefix).len() > 0,
    ensures
        runs_on(shape_lines(shape, prefix).last()) <==> name_runs_on(shape),
    decreases shape, 0int,
{
    let none = Seq::<JoinSide>::empty();
    match shape {
        ShapeView::Row { cells, having } => lemma_clauses(none, cells, having, None, no_cut()),
        ShapeView::Records { .. } => {},
        ShapeView::Table { columns, .. } => lemma_columns(columns),
        ShapeView::Union { branches } => {
            let k = branches.len() - 1;
            a_shape_ends_as_its_last_name(branches[k], prefix + carry(true));
            assert(shape_lines(shape, prefix).last() == shape_text(
                branches[k],
                prefix + carry(true),
            ));
        },
        ShapeView::Pairs { cells, having, order, cut, .. } => lemma_clauses(
            none,
            cells,
            having,
            order,
            cut,
        ),
        ShapeView::Tuples { cells, having, order, cut, .. } => lemma_clauses(
            none,
            cells,
            having,
            order,
            cut,
        ),
        ShapeView::Join { sides, cells, having, order, cut, .. } => lemma_clauses(
            sides,
            cells,
            having,
            order,
            cut,
        ),
        ShapeView::Groups { cells, having, order, cut, .. } => lemma_clauses(
            none,
            cells,
            having,
            order,
            cut,
        ),
    }
}

/// A printed shape is not empty, and ends in a line break only where it ends with a name that does.
pub proof fn a_shape_ends_as_its_last_name(shape: ShapeView, prefix: Seq<char>)
    ensures
        shape_text(shape, prefix).len() > 0,
        shape_text(shape, prefix).last() != '\n' <==> name_runs_on(shape),
    decreases shape, 1int,
{
    let lines = shape_lines(shape, prefix);
    if lines.len() == 0 {
        lemma_head(shape, prefix);
        assert(shape_text(shape, prefix) =~= shape_head(shape));
    } else {
        lemma_lines(shape, prefix);
        lemma_tree(lines, prefix);
        assert(shape_text(shape, prefix).last() == tree(lines, prefix).last());
    }
}

proof fn lemma_char_at(s: Seq<char>, c: char, k: int)
    requires
        0 <= k,
    ensures
        char_at(s, c, k) matches Some(i) ==> k <= i < s.len() && s[i] == c,
    decreases s.len() - k,
{
    if k < s.len() && s[k] != c {
        lemma_char_at(s, c, k + 1);
    }
}

/// A printed answer is its shape where the format is the default one, and otherwise its shape with
/// the format at the end of the first line. Either way it ends in no line break, but where the
/// shape's own text does, which is where that ends with a name that does.
pub proof fn an_answer_ends_in_no_line_break(answer: AnswerView)
    ensures
        answer_text(answer).len() > 0,
        answer_text(answer).last() != '\n' <==> shape_text(answer.shape, Seq::empty()).last()
            != '\n',
        answer_text(answer).last() != '\n' <==> name_runs_on(answer.shape),
        answer.format == Format::Json ==> answer_text(answer) == shape_text(
            answer.shape,
            Seq::empty(),
        ),
{
    let text = shape_text(answer.shape, Seq::empty());
    a_shape_ends_as_its_last_name(answer.shape, Seq::empty());
    lemma_char_at(text, '\n', 0);
    let more = " format="@ + format_text(answer.format);
    assert(closed_by(more)) by {
        reveal_strlit("json");
        reveal_strlit("tsv");
        reveal_strlit("tsv_with_names");
        reveal_strlit("csv");
        reveal_strlit("csv_with_names");
        lemma_then(" format="@, format_text(answer.format));
    }
    match char_at(text, '\n', 0) {
        Some(k) => {
            let rest = text.subrange(k, text.len() as int);
            assert(rest.last() == text.last());
            assert((text.subrange(0, k) + more + rest).last() == rest.last());
        },
        None => {
            lemma_then(text, more);
            lemma_no_char(text, '\n', 0);
            assert(text.last() != '\n');
        },
    }
}

proof fn lemma_no_char(s: Seq<char>, c: char, k: int)
    requires
        0 <= k,
        char_at(s, c, k) is None,
    ensures
        forall|i: int| k <= i < s.len() ==> s[i] != c,
    decreases s.len() - k,
{
    if k < s.len() {
        lemma_no_char(s, c, k + 1);
    }
}

} // verus!
