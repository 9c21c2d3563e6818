//! A statement, written out instead of run.

use vstd::prelude::*;
use crate::ast::{ExplainMode, SelectView};
use crate::civil::{format_datetime, moment_at};
use crate::ddl::{Alter, AlterView, Column, ColumnView, Ddl, DdlView};
use crate::insert::{Insert, InsertView, Source, SourceView};
use crate::lower::calls::{Probe, ProbeView};
use crate::lower::query::{lower_one, lowered_one};
use crate::pql::{Literal, LiteralView};
use crate::print::{literal, literal_text};
use crate::scalar::{Scalar, ScalarView};
use crate::shape::{no_cut, Absent, Answer, AnswerView, Cell, CellView, Columns, ColumnsView, Cut, Format, GroupOrder, Having, HavingView, JoinSide, Keying, Of, Operand, OperandView, OrderBy, Pairing, Selected, SelectedView, Shape, ShapeView, Threshold, ThresholdView, Units, UnitsView};
use crate::show::{Show, ShowView, Shown, ShownView, SystemView};
use crate::text::{char_at, dec, dec_signed, find_char, join, joined, opt_text, push_dec, push_signed, qualified, qualify, trimmed, views, wrapped};

verus! {

/// The name of a format.
pub open spec fn format_text(format: Format) -> Seq<char> {
    match format {
        Format::Json => "json"@,
        Format::Tsv => "tsv"@,
        Format::TsvWithNames => "tsv_with_names"@,
        Format::Csv => "csv"@,
        Format::CsvWithNames => "csv_with_names"@,
    }
}

/// A plan by its number.
pub open spec fn plan_text(plan: usize) -> Seq<char> {
    "#"@ + dec(plan as nat)
}

/// Some plans, in brackets.
pub open spec fn plans_text(keys: Seq<usize>) -> Seq<char> {
    "["@ + joined(Seq::new(keys.len(), |k: int| plan_text(keys[k])), ", "@) + "]"@
}

/// The plan a side of a join is keyed by.
pub open spec fn side_plan(side: JoinSide) -> usize {
    match side.keyed {
        Keying::By { plan, .. } => plan,
    }
}

/// One side of a join. One that need not match is marked.
pub open spec fn side_text(side: JoinSide) -> Seq<char> {
    plan_text(side_plan(side)) + if side.required {
        Seq::empty()
    } else {
        "?"@
    }
}

/// The sides of a join.
pub open spec fn sides_text(sides: Seq<JoinSide>) -> Seq<char> {
    joined(Seq::new(sides.len(), |k: int| side_text(sides[k])), ", "@)
}

/// The plans of the sides but one, among the first `n`.
pub open spec fn others_text(sides: Seq<JoinSide>, but: usize, n: int) -> Seq<char>
    decreases n,
{
    if n <= 0 {
        Seq::empty()
    } else if n - 1 == but {
        others_text(sides, but, n - 1)
    } else {
        others_text(sides, but, n - 1) + ", "@ + plan_text(side_plan(sides[n - 1]))
    }
}

/// Where a cell's number comes from.
pub open spec fn of_text(of: Of, sides: Seq<JoinSide>) -> Seq<char> {
    match of {
        Of::Value { plan } => plan_text(plan),
        Of::Groups { plan } => "groups("@ + plan_text(plan) + ")"@,
        Of::Ratio { plan, over } => plan_text(plan) + " / "@ + plan_text(over),
        Of::Now { unix_seconds } => "now '"@ + moment_at(unix_seconds as int).text() + "'"@,
        Of::Key => "key"@,
        Of::RightKey => "right key"@,
        Of::KeyAt { axis } => "key "@ + dec(axis as nat),
        Of::Const { value } => match value {
            Some(v) => dec_signed(v as int),
            None => "null"@,
        },
        Of::Probe { probe } => "probe "@ + plan_text(probe),
        Of::Group { plan, absent } => "group "@ + plan_text(plan) + (match absent {
            Absent::Zero => " else 0"@,
            Absent::Null => " else null"@,
        }),
        Of::Paired { plan, side, how } => (match how {
            Pairing::Product => "product("@,
            Pairing::Least => "least("@,
            Pairing::Greatest => "greatest("@,
        }) + plan_text(plan) + others_text(sides, side, sides.len() as int) + ")"@,
        Of::Keys { plan } => "keys("@ + plan_text(plan) + ")"@,
        Of::SharedKeys => "shared("@ + sides_text(sides) + ")"@,
        Of::PairedRatio { top, bottom, side } => "ratio("@ + plan_text(top) + " / "@ + plan_text(
            bottom,
        ) + others_text(sides, side, sides.len() as int) + ")"@,
    }
}

/// What a number is measured in, when it is not plain.
pub open spec fn units_text(units: UnitsView) -> Seq<char> {
    match units {
        UnitsView::Digits(n) => if n == 0 {
            Seq::empty()
        } else {
            " scale="@ + dec(n as nat)
        },
        UnitsView::Date => " units=date"@,
        UnitsView::Seconds => " units=datetime"@,
        UnitsView::Written { table, field } => " units="@ + table + "."@ + field + " (unresolved)"@,
    }
}

/// What is done to a number on the way out.
pub open spec fn applied_text(apply: Option<ScalarView>) -> Seq<char> {
    match apply {
        Some(expr) => " apply="@ + expr.printed(),
        None => Seq::empty(),
    }
}

/// One column of an answer: its name, its number, and what is done to it on the way out.
pub open spec fn cell_text(cell: CellView, sides: Seq<JoinSide>) -> Seq<char> {
    cell.column + " = "@ + of_text(cell.of, sides) + units_text(cell.units) + applied_text(
        cell.apply,
    )
}

/// One column of a projection.
pub open spec fn selected_text(selected: SelectedView) -> Seq<char> {
    selected.column + units_text(selected.units) + applied_text(selected.apply)
}

/// One side of a comparison.
pub open spec fn operand_text(operand: OperandView, sides: Seq<JoinSide>) -> Seq<char> {
    match operand {
        OperandView::Of { of, .. } => of_text(of, sides),
        OperandView::Value(ThresholdView::Units(n)) => dec_signed(n as int),
        OperandView::Value(ThresholdView::Written { table, field, value }) => literal_text(value)
            + " as "@ + table + "."@ + field + " (unresolved)"@,
    }
}

/// A `HAVING`, on one line.
pub open spec fn having_text(having: HavingView, sides: Seq<JoinSide>) -> Seq<char>
    decreases having,
{
    match having {
        HavingView::And(a, b) => having_text(*a, sides) + " and "@ + having_text(*b, sides),
        HavingView::Or(a, b) => "("@ + having_text(*a, sides) + " or "@ + having_text(*b, sides)
            + ")"@,
        HavingView::Not(a) => "not ("@ + having_text(*a, sides) + ")"@,
        HavingView::Cmp { left, op, right } => operand_text(left, sides) + " "@ + op + " "@
            + operand_text(right, sides),
    }
}

/// An order of groups.
pub open spec fn order_text(order: GroupOrder, sides: Seq<JoinSide>) -> Seq<char> {
    (match order.by {
        OrderBy::Key => "key"@,
        OrderBy::Value { of } => of_text(of, sides),
    }) + if order.desc {
        " desc"@
    } else {
        " asc"@
    }
}

/// The parts of a cut that are there.
pub open spec fn cut_parts(cut: Cut) -> Seq<Seq<char>> {
    (match cut.limit {
        Some(n) => seq!["limit "@ + dec(n as nat)],
        None => Seq::empty(),
    }) + (match cut.offset {
        Some(n) => seq!["offset "@ + dec(n as nat)],
        None => Seq::empty(),
    }) + if cut.ties {
        seq!["with ties"@]
    } else {
        Seq::empty()
    }
}

/// The cut, when there is one.
pub open spec fn cut_lines(cut: Cut) -> Seq<Seq<char>> {
    if cut == no_cut() {
        Seq::empty()
    } else {
        seq!["cut: "@ + joined(cut_parts(cut), " "@)]
    }
}

/// The columns of a shape that has rows, and the clauses applied to them after the merge.
pub open spec fn clause_lines(
    sides: Seq<JoinSide>,
    cells: Seq<CellView>,
    having: Option<HavingView>,
    order: Option<GroupOrder>,
    cut: Cut,
) -> Seq<Seq<char>> {
    Seq::new(cells.len(), |k: int| cell_text(cells[k], sides)) + (match having {
        Some(h) => seq!["having: "@ + having_text(h, sides)],
        None => Seq::empty(),
    }) + (match order {
        Some(o) => seq!["order: "@ + order_text(o, sides)],
        None => Seq::empty(),
    }) + cut_lines(cut)
}

/// A number under a label, when there is one.
pub open spec fn opt_number(label: Seq<char>, n: Option<usize>) -> Seq<char> {
    match n {
        Some(n) => label + dec(n as nat),
        None => Seq::empty(),
    }
}

/// A shape's own line: what kind of answer it is, and the plans that drive its rows.
pub open spec fn shape_head(shape: ShapeView) -> Seq<char> {
    match shape {
        ShapeView::Row { .. } => "Row"@,
        ShapeView::Records { column, limit, descending } => "Records column="@ + column
            + opt_number(" limit="@, limit) + if descending {
            " order=desc"@
        } else {
            Seq::empty()
        },
        ShapeView::Table { order, cut, .. } => match order {
            None => "Table"@,
            Some(o) => "Table order="@ + o.column + (if o.desc {
                " desc"@
            } else {
                Seq::empty()
            }) + opt_number(" limit="@, cut),
        },
        ShapeView::Union { .. } => "Union"@,
        ShapeView::Pairs { keys, .. } => "Pairs keys="@ + plans_text(keys),
        ShapeView::Tuples { axes, keys, .. } => "Tuples axes="@ + dec(axes as nat) + " keys="@
            + plans_text(keys),
        ShapeView::Join { sides, per_key, .. } => "Join keys=("@ + sides_text(sides) + if per_key {
            ") per_key"@
        } else {
            ")"@
        },
        ShapeView::Groups { keys, .. } => "Groups keys="@ + plans_text(keys),
    }
}

/// What a line is drawn with: an elbow for the last one, and a tee for the others.
pub open spec fn elbow(last: bool) -> Seq<char> {
    if last {
        "└── "@
    } else {
        "├── "@
    }
}

/// What is carried under a line: nothing under the last one, and a bar under the others.
pub open spec fn carry(last: bool) -> Seq<char> {
    if last {
        "    "@
    } else {
        "│   "@
    }
}

/// The first `n` lines drawn under a head.
pub open spec fn drawn(lines: Seq<Seq<char>>, prefix: Seq<char>, n: int) -> Seq<char>
    decreases n,
{
    if n <= 0 {
        Seq::empty()
    } else {
        drawn(lines, prefix, n - 1) + "\n"@ + prefix + elbow(n == lines.len()) + lines[n - 1]
    }
}

/// Lines drawn under a head.
pub open spec fn tree(lines: Seq<Seq<char>>, prefix: Seq<char>) -> Seq<char> {
    drawn(lines, prefix, lines.len() as int)
}

/// The columns of a projection, a line each.
pub open spec fn column_lines(columns: ColumnsView) -> Seq<Seq<char>> {
    match columns {
        ColumnsView::Named(c) => Seq::new(c.len(), |k: int| selected_text(c[k])),
        ColumnsView::All { .. } => seq!["*"@],
    }
}

/// The lines under a shape's head.
pub open spec fn shape_lines(shape: ShapeView, prefix: Seq<char>) -> Seq<Seq<char>>
    decreases shape, 0int,
{
    match shape {
        ShapeView::Row { cells, having } => clause_lines(
            Seq::empty(),
            cells,
            having,
            None,
            no_cut(),
        ),
        ShapeView::Records { .. } => Seq::empty(),
        ShapeView::Table { columns, .. } => column_lines(columns),
        ShapeView::Union { branches } => Seq::new(
            branches.len(),
            |k: int|
                if 0 <= k < branches.len() {
                    shape_text(branches[k], prefix + carry(k + 1 == branches.len()))
                } else {
                    arbitrary()
                },
        ),
        ShapeView::Pairs { cells, having, order, cut, .. } => clause_lines(
            Seq::empty(),
            cells,
            having,
            order,
            cut,
        ),
        ShapeView::Tuples { cells, having, order, cut, .. } => clause_lines(
            Seq::empty(),
            cells,
            having,
            order,
            cut,
        ),
        ShapeView::Join { sides, cells, having, order, cut, .. } => clause_lines(
            sides,
            cells,
            having,
            order,
            cut,
        ),
        ShapeView::Groups { cells, having, order, cut, .. } => clause_lines(
            Seq::empty(),
            cells,
            having,
            order,
            cut,
        ),
    }
}

/// A shape as a tree of lines.
pub open spec fn shape_text(shape: ShapeView, prefix: Seq<char>) -> Seq<char>
    decreases shape, 1int,
{
    shape_head(shape) + tree(shape_lines(shape, prefix), prefix)
}

/// The first line of a text, with something after it.
pub open spec fn after_first_line(text: Seq<char>, more: Seq<char>) -> Seq<char> {
    match char_at(text, '\n', 0) {
        Some(k) => text.subrange(0, k) + more + text.subrange(k, text.len() as int),
        None => text + more,
    }
}

/// The answer a statement produces: its shape, and how it is written out.
pub open spec fn answer_text(answer: AnswerView) -> Seq<char> {
    let text = shape_text(answer.shape, Seq::empty());
    if answer.format == Format::Json {
        text
    } else {
        after_first_line(text, " format="@ + format_text(answer.format))
    }
}

/// One declared column: what it stores, how deep, and for a decimal to how many digits.
pub open spec fn column_text(column: ColumnView) -> Seq<char> {
    column.name + " "@ + column.kind.spelled() + " depth="@ + dec(column.bit_depth as nat)
        + match column.scale {
        Some(s) => " scale="@ + dec_signed(s as int),
        None => Seq::empty(),
    }
}

/// One change to a table.
pub open spec fn change_text(change: AlterView) -> Seq<char> {
    match change {
        AlterView::Add(column) => "add "@ + column_text(column),
        AlterView::Drop(name) => "drop "@ + name,
        AlterView::DropDaysBefore { column, before } => "drop days before '"@ + before + "' on "@
            + column,
    }
}

/// A word, when it holds.
pub open spec fn flag(holds: bool, word: Seq<char>) -> Seq<char> {
    if holds {
        word
    } else {
        Seq::empty()
    }
}

/// A text under a label, when there is one.
pub open spec fn opt_label(label: Seq<char>, s: Option<Seq<char>>) -> Seq<char> {
    match s {
        Some(s) => label + s,
        None => Seq::empty(),
    }
}

/// A schema change, as one line, and a line per column or change.
pub open spec fn ddl_text(ddl: DdlView) -> Seq<char> {
    match ddl {
        DdlView::CreateDatabase { name, if_not_exists } => "CreateDatabase "@ + name + flag(
            if_not_exists,
            " if_not_exists"@,
        ),
        DdlView::DropDatabase { name, if_exists, cascade } => "DropDatabase "@ + name + flag(
            if_exists,
            " if_exists"@,
        ) + flag(cascade, " cascade"@),
        DdlView::CreateTable { database, table, engine, columns, if_not_exists } => {
            "CreateTable "@ + qualified(database, table) + flag(if_not_exists, " if_not_exists"@)
                + opt_label(" engine="@, engine) + tree(
                Seq::new(columns.len(), |k: int| column_text(columns[k])),
                Seq::empty(),
            )
        },
        DdlView::AlterTable { database, table, changes } => "AlterTable "@ + qualified(
            database,
            table,
        ) + tree(Seq::new(changes.len(), |k: int| change_text(changes[k])), Seq::empty()),
        DdlView::DropTable { database, table, if_exists } => "DropTable "@ + qualified(
            database,
            table,
        ) + flag(if_exists, " if_exists"@),
        DdlView::TruncateTable { database, table, if_exists } => "TruncateTable "@ + qualified(
            database,
            table,
        ) + flag(if_exists, " if_exists"@),
        DdlView::CreateView { database, name, body, or_replace, if_not_exists } => "CreateView "@
            + qualified(database, name) + flag(or_replace, " or_replace"@) + flag(
            if_not_exists,
            " if_not_exists"@,
        ) + tree(seq![body], Seq::empty()),
        DdlView::DropView { database, name, if_exists } => "DropView "@ + qualified(database, name)
            + flag(if_exists, " if_exists"@),
    }
}

/// A row of values.
pub open spec fn row_text(row: Seq<LiteralView>) -> Seq<char> {
    joined(Seq::new(row.len(), |k: int| literal_text(row[k])), ", "@)
}

/// A query an insert reads from: the columns it shows, and the table it reads.
pub open spec fn source_text(select: SelectView) -> Seq<char> {
    match lowered_one(select) {
        Ok(s) => "select "@ + joined(s.answer.shape.columns(), ", "@) + " from "@
            + select.from.qualified(),
        Err(e) => "error: "@ + e.code_text(),
    }
}

/// A write, as its columns and its rows.
pub open spec fn insert_text(insert: InsertView) -> Seq<char> {
    "Insert "@ + qualified(insert.database, insert.table) + " ("@ + joined(insert.columns, ", "@)
        + ")"@ + (match insert.id_at {
        Some(i) => " id_at="@ + dec(i as nat),
        None => " id=allocated"@,
    }) + tree(
        match insert.source {
            SourceView::Values(rows) => Seq::new(rows.len(), |k: int| row_text(rows[k])),
            SourceView::Select(select) => seq![source_text(*select)],
        },
        Seq::empty(),
    )
}

/// The name of a view of the catalog.
pub open spec fn system_text(view: SystemView) -> Seq<char> {
    match view {
        SystemView::Tables => "tables"@,
        SystemView::Columns => "columns"@,
        SystemView::Databases => "databases"@,
        SystemView::Parts => "parts"@,
    }
}

/// What is asked of the catalog.
pub open spec fn shown_text(what: ShownView) -> Seq<char> {
    match what {
        ShownView::Columns { database, table } => "Columns "@ + qualified(database, table),
        ShownView::Tables { database } => "Tables"@ + opt_label(" "@, database),
        ShownView::Views { database } => "Views"@ + opt_label(" "@, database),
        ShownView::Databases => "Databases"@,
        ShownView::Create { database, table, view } => "Create "@ + qualified(database, table)
            + flag(view, " view"@),
        ShownView::Grants { role } => "Grants"@ + opt_label(" "@, role),
        ShownView::Roles => "Roles"@,
        ShownView::System { view, database, table, columns } => "System "@ + system_text(view)
            + opt_label(" database="@, database) + opt_label(" table="@, table) + match columns {
            Some(c) => " ("@ + joined(c, ", "@) + ")"@,
            None => Seq::empty(),
        },
        ShownView::Numbers { n } => "Numbers "@ + dec(n as nat),
        ShownView::Processlist => "Processlist"@,
    }
}

/// A question about the catalog.
pub open spec fn show_text(show: ShowView) -> Seq<char> {
    shown_text(show.what) + if show.format == Format::Json {
        Seq::empty()
    } else {
        " format="@ + format_text(show.format)
    }
}

/// The name of a format.
fn format_name(format: Format) -> (r: &'static str)
    ensures
        r@ == format_text(format),
{
    match format {
        Format::Json => "json",
        Format::Tsv => "tsv",
        Format::TsvWithNames => "tsv_with_names",
        Format::Csv => "csv",
        Format::CsvWithNames => "csv_with_names",
    }
}

/// Appends a plan by its number.
fn push_plan(out: &mut String, plan: usize)
    ensures
        final(out)@ == old(out)@ + plan_text(plan),
{
    out.append("#");
    push_dec(out, plan as u128);
    assert(out@ =~= old(out)@ + plan_text(plan));
}

/// A plan by its number.
fn plan(n: usize) -> (r: String)
    ensures
        r@ == plan_text(n),
{
    let mut out = String::new();
    push_plan(&mut out, n);
    assert(out@ =~= plan_text(n));
    out
}

/// Some plans, in brackets.
fn plans(keys: &Vec<usize>) -> (r: String)
    ensures
        r@ == plans_text(keys@),
{
    let mut parts: Vec<String> = Vec::new();
    let mut k: usize = 0;
    while k < keys.len()
        invariant
            k <= keys@.len(),
            parts@.len() == k,
            forall|j: int| 0 <= j < k ==> (#[trigger] parts@[j])@ == plan_text(keys@[j]),
        decreases keys.len() - k,
    {
        parts.push(plan(keys[k]));
        k += 1;
    }
    assert(views(parts@) =~= Seq::new(keys@.len(), |k: int| plan_text(keys@[k])));
    wrapped("[", join(&parts, ", ").as_str(), "]")
}

impl Keying {
    /// The plan this is keyed by.
    pub fn plan(&self) -> (r: usize)
        ensures
            match *self {
                Keying::By { plan, .. } => r == plan,
            },
    {
        match self {
            Keying::By { plan, .. } => *plan,
        }
    }
}

/// A join's sides, as the plans they are.
fn plans_of(sides: &[JoinSide]) -> (r: String)
    ensures
        r@ == sides_text(sides@),
{
    let mut parts: Vec<String> = Vec::new();
    let mut k: usize = 0;
    while k < sides.len()
        invariant
            k <= sides@.len(),
            parts@.len() == k,
            forall|j: int| 0 <= j < k ==> (#[trigger] parts@[j])@ == side_text(sides@[j]),
        decreases sides.len() - k,
    {
        let mut one = plan(sides[k].keyed.plan());
        if !sides[k].required {
            one.append("?");
        }
        assert(one@ =~= side_text(sides@[k as int]));
        parts.push(one);
        k += 1;
    }
    assert(views(parts@) =~= Seq::new(sides@.len(), |k: int| side_text(sides@[k])));
    join(&parts, ", ")
}

/// Appends the plans of the sides but one.
fn push_others(out: &mut String, sides: &[JoinSide], but: usize)
    ensures
        final(out)@ == old(out)@ + others_text(sides@, but, sides@.len() as int),
{
    let ghost was = out@;
    let mut k: usize = 0;
    assert(was + others_text(sides@, but, 0) =~= was);
    while k < sides.len()
        invariant
            k <= sides@.len(),
            out@ == was + others_text(sides@, but, k as int),
        decreases sides.len() - k,
    {
        if k != but {
            let ghost before = out@;
            out.append(", ");
            push_plan(out, sides[k].keyed.plan());
            assert(out@ =~= before + ", "@ + plan_text(side_plan(sides@[k as int])));
        }
        k += 1;
        assert(out@ =~= was + others_text(sides@, but, k as int));
    }
}

/// Where a cell's number comes from, with plans named by the index the shape holds.
fn of(o: Of, sides: &[JoinSide]) -> (r: String)
    ensures
        r@ == of_text(o, sides@),
{
    let mut out = String::new();
    assert(out@ =~= Seq::<char>::empty());
    match o {
        Of::Value { plan } => push_plan(&mut out, plan),
        Of::Groups { plan } => {
            out.append("groups(");
            push_plan(&mut out, plan);
            out.append(")");
        },
        Of::Ratio { plan, over } => {
            push_plan(&mut out, plan);
            out.append(" / ");
            push_plan(&mut out, over);
        },
        Of::Now { unix_seconds } => {
            out.append("now '");
            out.append(format_datetime(unix_seconds).as_str());
            out.append("'");
        },
        Of::Key => out.append("key"),
        Of::RightKey => out.append("right key"),
        Of::KeyAt { axis } => {
            out.append("key ");
            push_dec(&mut out, axis as u128);
        },
        Of::Const { value } => match value {
            Some(v) => push_signed(&mut out, v as i128),
            None => out.append("null"),
        },
        Of::Probe { probe } => {
            out.append("probe ");
            push_plan(&mut out, probe);
        },
        Of::Group { plan, absent } => {
            out.append("group ");
            push_plan(&mut out, plan);
            match absent {
                Absent::Zero => out.append(" else 0"),
                Absent::Null => out.append(" else null"),
            }
        },
        Of::Paired { plan, side, how } => {
            match how {
                Pairing::Product => out.append("product("),
                Pairing::Least => out.append("least("),
                Pairing::Greatest => out.append("greatest("),
            }
            push_plan(&mut out, plan);
            push_others(&mut out, sides, side);
            out.append(")");
        },
        Of::Keys { plan } => {
            out.append("keys(");
            push_plan(&mut out, plan);
            out.append(")");
        },
        Of::SharedKeys => {
            out.append("shared(");
            out.append(plans_of(sides).as_str());
            out.append(")");
        },
        Of::PairedRatio { top, bottom, side } => {
            out.append("ratio(");
            push_plan(&mut out, top);
            out.append(" / ");
            push_plan(&mut out, bottom);
            push_others(&mut out, sides, side);
            out.append(")");
        },
    }
    assert(out@ =~= of_text(o, sides@));
    out
}

/// What a number is measured in, printed only when it is not plain.
fn units(u: &Units) -> (r: String)
    ensures
        r@ == units_text(u@),
{
    let mut out = String::new();
    assert(out@ =~= Seq::<char>::empty());
    match u {
        Units::Digits(n) => {
            if *n != 0 {
                out.append(" scale=");
                push_dec(&mut out, *n as u128);
            }
        },
        Units::Date => out.append(" units=date"),
        Units::Seconds => out.append(" units=datetime"),
        Units::Written { table, field } => {
            out.append(" units=");
            out.append(table.as_str());
            out.append(".");
            out.append(field.as_str());
            out.append(" (unresolved)");
        },
    }
    assert(out@ =~= units_text(u@));
    out
}

/// Appends what is done to a number on the way out.
fn push_applied(out: &mut String, apply: &Option<Scalar>)
    ensures
        final(out)@ == old(out)@ + applied_text(
            match *apply {
                Some(x) => Some(x@),
                None => None,
            },
        ),
{
    if let Some(expr) = apply {
        out.append(" apply=");
        out.append(expr.print().as_str());
    }
    assert(out@ =~= old(out)@ + applied_text(
        match *apply {
            Some(x) => Some(x@),
            None => None,
        },
    ));
}

/// One column of an answer.
fn cell(c: &Cell, sides: &[JoinSide]) -> (r: String)
    ensures
        r@ == cell_text(c@, sides@),
{
    let mut out = c.column.clone();
    out.append(" = ");
    out.append(of(c.of, sides).as_str());
    out.append(units(&c.units).as_str());
    push_applied(&mut out, &c.apply);
    out
}

/// One column of a projection.
fn selected(c: &Selected) -> (r: String)
    ensures
        r@ == selected_text(c@),
{
    let mut out = c.column.clone();
    out.append(units(&c.units).as_str());
    push_applied(&mut out, &c.apply);
    out
}

/// One side of a comparison.
fn operand_of(operand: &Operand, sides: &[JoinSide]) -> (r: String)
    ensures
        r@ == operand_text(operand@, sides@),
{
    match operand {
        Operand::Of { of: o, .. } => of(*o, sides),
        Operand::Value(Threshold::Units(n)) => {
            let mut out = String::new();
            push_signed(&mut out, *n);
            assert(out@ =~= dec_signed(*n as int));
            out
        },
        Operand::Value(Threshold::Written { table, field, value }) => {
            let mut out = literal(value);
            out.append(" as ");
            out.append(table.as_str());
            out.append(".");
            out.append(field.as_str());
            out.append(" (unresolved)");
            out
        },
    }
}

/// A `HAVING`, on one line.
fn having_of(having: &Having, sides: &[JoinSide]) -> (r: String)
    ensures
        r@ == having_text(having@, sides@),
    decreases having,
{
    match having {
        Having::And(a, b) => {
            let mut out = having_of(&**a, sides);
            out.append(" and ");
            out.append(having_of(&**b, sides).as_str());
            out
        },
        Having::Or(a, b) => {
            let mut out = str::to_owned("(");
            out.append(having_of(&**a, sides).as_str());
            out.append(" or ");
            out.append(having_of(&**b, sides).as_str());
            out.append(")");
            out
        },
        Having::Not(a) => wrapped("not (", having_of(&**a, sides).as_str(), ")"),
        Having::Cmp { left, op, right } => {
            let mut out = operand_of(left, sides);
            out.append(" ");
            out.append(*op);
            out.append(" ");
            out.append(operand_of(right, sides).as_str());
            out
        },
    }
}

/// An order of groups.
fn order_of(order: &GroupOrder, sides: &[JoinSide]) -> (r: String)
    ensures
        r@ == order_text(*order, sides@),
{
    let mut out = match order.by {
        OrderBy::Key => str::to_owned("key"),
        OrderBy::Value { of: o } => of(o, sides),
    };
    if order.desc {
        out.append(" desc");
    } else {
        out.append(" asc");
    }
    out
}

/// The cut, when there is one.
fn cut_of(cut: &Cut) -> (r: Option<String>)
    ensures
        cut_lines(*cut) == (match r {
            Some(s) => seq![s@],
            None => Seq::<Seq<char>>::empty(),
        }),
{
    if cut.limit.is_none() && cut.offset.is_none() && !cut.ties {
        return None;
    }
    let mut parts: Vec<String> = Vec::new();
    if let Some(n) = cut.limit {
        let mut one = str::to_owned("limit ");
        push_dec(&mut one, n as u128);
        parts.push(one);
    }
    if let Some(n) = cut.offset {
        let mut one = str::to_owned("offset ");
        push_dec(&mut one, n as u128);
        parts.push(one);
    }
    if cut.ties {
        parts.push(str::to_owned("with ties"));
    }
    assert(views(parts@) =~= cut_parts(*cut));
    let mut out = str::to_owned("cut: ");
    out.append(join(&parts, " ").as_str());
    assert(cut_lines(*cut) =~= seq![out@]);
    Some(out)
}

/// The columns of a shape that has rows, and the clauses applied to them after the merge.
fn clauses(
    sides: &[JoinSide],
    cells: &Vec<Cell>,
    having: &Option<Having>,
    order: &Option<GroupOrder>,
    cut: &Cut,
) -> (r: Vec<String>)
    ensures
        views(r@) == clause_lines(
            sides@,
            views(cells@),
            match *having {
                Some(h) => Some(h@),
                None => None,
            },
            *order,
            *cut,
        ),
{
    let mut out: Vec<String> = Vec::new();
    let mut k: usize = 0;
    while k < cells.len()
        invariant
            k <= cells@.len(),
            out@.len() == k,
            forall|j: int| 0 <= j < k ==> (#[trigger] out@[j])@ == cell_text(cells@[j]@, sides@),
        decreases cells.len() - k,
    {
        out.push(cell(&cells[k], sides));
        k += 1;
    }
    let ghost first = Seq::new(cells@.len(), |k: int| cell_text(views(cells@)[k], sides@));
    assert(views(out@) =~= first);
    if let Some(h) = having {
        let mut one = str::to_owned("having: ");
        one.append(having_of(h, sides).as_str());
        out.push(one);
    }
    if let Some(o) = order {
        let mut one = str::to_owned("order: ");
        one.append(order_of(o, sides).as_str());
        out.push(one);
    }
    if let Some(text) = cut_of(cut) {
        out.push(text);
    }
    assert(views(out@) =~= clause_lines(
        sides@,
        views(cells@),
        match *having {
            Some(h) => Some(h@),
            None => None,
        },
        *order,
        *cut,
    ));
    out
}

/// Appends a number under a label, when there is one.
fn push_opt(out: &mut String, label: &str, n: Option<usize>)
    ensures
        final(out)@ == old(out)@ + opt_number(label@, n),
{
    if let Some(n) = n {
        out.append(label);
        push_dec(out, n as u128);
    }
    assert(out@ =~= old(out)@ + opt_number(label@, n));
}

/// A shape's own line.
fn head(shape: &Shape) -> (r: String)
    ensures
        r@ == shape_head(shape@),
{
    match shape {
        Shape::Row { .. } => str::to_owned("Row"),
        Shape::Records { column, limit, descending } => {
            let mut out = str::to_owned("Records column=");
            out.append(column.as_str());
            push_opt(&mut out, " limit=", *limit);
            if *descending {
                out.append(" order=desc");
            }
            assert(out@ =~= shape_head(shape@));
            out
        },
        Shape::Table { order, cut, .. } => match order {
            None => str::to_owned("Table"),
            Some(o) => {
                let mut out = str::to_owned("Table order=");
                out.append(o.column.as_str());
                if o.desc {
                    out.append(" desc");
                }
                push_opt(&mut out, " limit=", *cut);
                assert(out@ =~= shape_head(shape@));
                out
            },
        },
        Shape::Union { .. } => str::to_owned("Union"),
        Shape::Pairs { keys, .. } => {
            let mut out = str::to_owned("Pairs keys=");
            out.append(plans(keys).as_str());
            out
        },
        Shape::Tuples { axes, keys, .. } => {
            let mut out = str::to_owned("Tuples axes=");
            push_dec(&mut out, *axes as u128);
            out.append(" keys=");
            out.append(plans(keys).as_str());
            out
        },
        Shape::Join { sides, per_key, .. } => {
            let mut out = str::to_owned("Join keys=(");
            out.append(plans_of(sides.as_slice()).as_str());
            if *per_key {
                out.append(") per_key");
            } else {
                out.append(")");
            }
            out
        },
        Shape::Groups { keys, .. } => {
            let mut out = str::to_owned("Groups keys=");
            out.append(plans(keys).as_str());
            out
        },
    }
}

/// Appends lines drawn under a head already written.
fn write_lines(out: &mut String, lines: &Vec<String>, prefix: &str)
    ensures
        final(out)@ == old(out)@ + tree(views(lines@), prefix@),
{
    let ghost was = out@;
    let ghost all = views(lines@);
    let mut k: usize = 0;
    assert(was + drawn(all, prefix@, 0) =~= was);
    while k < lines.len()
        invariant
            k <= lines@.len(),
            all == views(lines@),
            out@ == was + drawn(all, prefix@, k as int),
        decreases lines.len() - k,
    {
        let ghost before = out@;
        out.append("\n");
        out.append(prefix);
        if k + 1 == lines.len() {
            out.append("└── ");
        } else {
            out.append("├── ");
        }
        out.append(lines[k].as_str());
        k += 1;
        assert(out@ =~= before + "\n"@ + prefix@ + elbow(k == all.len()) + all[k - 1]);
        assert(out@ =~= was + drawn(all, prefix@, k as int));
    }
}

/// The columns of a projection, a line each.
fn selected_lines(columns: &Columns) -> (r: Vec<String>)
    ensures
        views(r@) == column_lines(columns@),
{
    let mut out: Vec<String> = Vec::new();
    match columns {
        Columns::Named(c) => {
            let mut k: usize = 0;
            while k < c.len()
                invariant
                    k <= c@.len(),
                    out@.len() == k,
                    forall|j: int| 0 <= j < k ==> (#[trigger] out@[j])@ == selected_text(c@[j]@),
                decreases c.len() - k,
            {
                out.push(selected(&c[k]));
                k += 1;
            }
        },
        Columns::All { .. } => out.push(str::to_owned("*")),
    }
    assert(views(out@) =~= column_lines(columns@));
    out
}

/// The lines under a shape's head.
fn kids(shape: &Shape, prefix: &str) -> (r: Vec<String>)
    ensures
        views(r@) == shape_lines(shape@, prefix@),
    decreases shape, 0int,
{
    let none: Vec<JoinSide> = Vec::new();
    assert(none@ =~= Seq::<JoinSide>::empty());
    match shape {
        Shape::Row { cells, having } => clauses(
            none.as_slice(),
            cells,
            having,
            &None,
            &Cut::default(),
        ),
        Shape::Records { .. } => {
            let out: Vec<String> = Vec::new();
            assert(views(out@) =~= Seq::<Seq<char>>::empty());
            out
        },
        Shape::Table { columns, .. } => selected_lines(columns),
        Shape::Union { branches } => {
            let mut out: Vec<String> = Vec::new();
            let mut k: usize = 0;
            while k < branches.len()
                invariant
                    shape matches Shape::Union { branches: b } && b == *branches,
                    k <= branches@.len(),
                    out@.len() == k,
                    forall|j: int|
                        0 <= j < k ==> (#[trigger] out@[j])@ == shape_text(
                            branches@[j]@,
                            prefix@ + carry(j + 1 == branches@.len()),
                        ),
                decreases branches.len() - k,
            {
                let mut inner = str::to_owned(prefix);
                if k + 1 == branches.len() {
                    inner.append("    ");
                } else {
                    inner.append("│   ");
                }
                out.push(write_shape(&branches[k], inner.as_str()));
                k += 1;
            }
            assert(shape@->Union_branches =~= views(branches@));
            assert(views(out@) =~= shape_lines(shape@, prefix@));
            out
        },
        Shape::Pairs { cells, having, order, cut, .. } => clauses(
            none.as_slice(),
            cells,
            having,
            order,
            cut,
        ),
        Shape::Tuples { cells, having, order, cut, .. } => clauses(
            none.as_slice(),
            cells,
            having,
            order,
            cut,
        ),
        Shape::Join { sides, cells, having, order, cut, .. } => clauses(
            sides.as_slice(),
            cells,
            having,
            order,
            cut,
        ),
        Shape::Groups { cells, having, order, cut, .. } => clauses(
            none.as_slice(),
            cells,
            having,
            order,
            cut,
        ),
    }
}

/// A shape as a tree of lines, under a prefix.
fn write_shape(shape: &Shape, prefix: &str) -> (r: String)
    ensures
        r@ == shape_text(shape@, prefix@),
    decreases shape, 1int,
{
    let mut out = head(shape);
    write_lines(&mut out, &kids(shape, prefix), prefix);
    out
}

/// The shape alone, as a tree of lines. No trailing newline.
pub fn shape(s: &Shape) -> (r: String)
    ensures
        r@ == shape_text(s@, Seq::empty()),
{
    proof {
        reveal_strlit("");
    }
    assert(""@ =~= Seq::<char>::empty());
    write_shape(s, "")
}

/// The answer a statement produces: its shape, and how it is written out.
pub fn answer(a: &Answer) -> (r: String)
    ensures
        r@ == answer_text(a@),
{
    let text = shape(&a.shape);
    let json = match a.format {
        Format::Json => true,
        _ => false,
    };
    if json {
        return text;
    }
    let n = text.as_str().unicode_len();
    let end = match find_char(text.as_str(), '\n', 0) {
        Some(k) => k,
        None => n,
    };
    let mut out = str::to_owned(text.as_str().substring_char(0, end));
    out.append(" format=");
    out.append(format_name(a.format));
    out.append(text.as_str().substring_char(end, n));
    assert(out@ =~= answer_text(a@));
    out
}

/// One declared column.
fn column(c: &Column) -> (r: String)
    ensures
        r@ == column_text(c@),
{
    let mut out = c.name.clone();
    out.append(" ");
    out.append(c.kind.as_str());
    out.append(" depth=");
    push_dec(&mut out, c.bit_depth as u128);
    if let Some(s) = c.scale {
        out.append(" scale=");
        push_signed(&mut out, s as i128);
    }
    assert(out@ =~= column_text(c@));
    out
}

/// One change to a table.
fn change(c: &Alter) -> (r: String)
    ensures
        r@ == change_text(c@),
{
    match c {
        Alter::Add(c) => {
            let mut out = str::to_owned("add ");
            out.append(column(c).as_str());
            out
        },
        Alter::Drop(name) => {
            let mut out = str::to_owned("drop ");
            out.append(name.as_str());
            out
        },
        Alter::DropDaysBefore { column, before } => {
            let mut out = str::to_owned("drop days before '");
            out.append(before.as_str());
            out.append("' on ");
            out.append(column.as_str());
            out
        },
    }
}

/// Appends a word, when it holds.
fn push_flag(out: &mut String, holds: bool, word: &str)
    ensures
        final(out)@ == old(out)@ + flag(holds, word@),
{
    if holds {
        out.append(word);
    }
    assert(out@ =~= old(out)@ + flag(holds, word@));
}

/// Appends a text under a label, when there is one.
fn push_label(out: &mut String, label: &str, s: &Option<String>)
    ensures
        final(out)@ == old(out)@ + opt_label(label@, opt_text(*s)),
{
    if let Some(s) = s {
        out.append(label);
        out.append(s.as_str());
    }
    assert(out@ =~= old(out)@ + opt_label(label@, opt_text(*s)));
}

/// The columns of a table, a line each.
fn columns_of(columns: &Vec<Column>) -> (r: Vec<String>)
    ensures
        views(r@) == Seq::new(columns@.len(), |k: int| column_text(views(columns@)[k])),
{
    let mut out: Vec<String> = Vec::new();
    let mut k: usize = 0;
    while k < columns.len()
        invariant
            k <= columns@.len(),
            out@.len() == k,
            forall|j: int| 0 <= j < k ==> (#[trigger] out@[j])@ == column_text(columns@[j]@),
        decreases columns.len() - k,
    {
        out.push(column(&columns[k]));
        k += 1;
    }
    assert(views(out@) =~= Seq::new(columns@.len(), |k: int| column_text(views(columns@)[k])));
    out
}

/// The changes to a table, a line each.
fn changes_of(changes: &Vec<Alter>) -> (r: Vec<String>)
    ensures
        views(r@) == Seq::new(changes@.len(), |k: int| change_text(views(changes@)[k])),
{
    let mut out: Vec<String> = Vec::new();
    let mut k: usize = 0;
    while k < changes.len()
        invariant
            k <= changes@.len(),
            out@.len() == k,
            forall|j: int| 0 <= j < k ==> (#[trigger] out@[j])@ == change_text(changes@[j]@),
        decreases changes.len() - k,
    {
        out.push(change(&changes[k]));
        k += 1;
    }
    assert(views(out@) =~= Seq::new(changes@.len(), |k: int| change_text(views(changes@)[k])));
    out
}

/// Appends lines drawn under a head, at the margin.
fn write_kids(out: &mut String, lines: &Vec<String>)
    ensures
        final(out)@ == old(out)@ + tree(views(lines@), Seq::empty()),
{
    proof {
        reveal_strlit("");
    }
    assert(""@ =~= Seq::<char>::empty());
    write_lines(out, lines, "");
}

/// A schema change, as one line, and a line per column or change.
pub fn ddl(d: &Ddl) -> (r: String)
    ensures
        r@ == ddl_text(d@),
{
    match d {
        Ddl::CreateDatabase { name, if_not_exists } => {
            let mut out = str::to_owned("CreateDatabase ");
            out.append(name.as_str());
            push_flag(&mut out, *if_not_exists, " if_not_exists");
            out
        },
        Ddl::DropDatabase { name, if_exists, cascade } => {
            let mut out = str::to_owned("DropDatabase ");
            out.append(name.as_str());
            push_flag(&mut out, *if_exists, " if_exists");
            push_flag(&mut out, *cascade, " cascade");
            out
        },
        Ddl::CreateTable { database, table, engine, columns, if_not_exists } => {
            let mut out = str::to_owned("CreateTable ");
            out.append(qualify(database, table.as_str()).as_str());
            push_flag(&mut out, *if_not_exists, " if_not_exists");
            push_label(&mut out, " engine=", engine);
            write_kids(&mut out, &columns_of(columns));
            out
        },
        Ddl::AlterTable { database, table, changes } => {
            let mut out = str::to_owned("AlterTable ");
            out.append(qualify(database, table.as_str()).as_str());
            write_kids(&mut out, &changes_of(changes));
            out
        },
        Ddl::DropTable { database, table, if_exists } => {
            let mut out = str::to_owned("DropTable ");
            out.append(qualify(database, table.as_str()).as_str());
            push_flag(&mut out, *if_exists, " if_exists");
            out
        },
        Ddl::TruncateTable { database, table, if_exists } => {
            let mut out = str::to_owned("TruncateTable ");
            out.append(qualify(database, table.as_str()).as_str());
            push_flag(&mut out, *if_exists, " if_exists");
            out
        },
        Ddl::CreateView { database, name, body, or_replace, if_not_exists } => {
            let mut out = str::to_owned("CreateView ");
            out.append(qualify(database, name.as_str()).as_str());
            push_flag(&mut out, *or_replace, " or_replace");
            push_flag(&mut out, *if_not_exists, " if_not_exists");
            let mut lines: Vec<String> = Vec::new();
            lines.push(body.clone());
            assert(views(lines@) =~= seq![body@]);
            write_kids(&mut out, &lines);
            out
        },
        Ddl::DropView { database, name, if_exists } => {
            let mut out = str::to_owned("DropView ");
            out.append(qualify(database, name.as_str()).as_str());
            push_flag(&mut out, *if_exists, " if_exists");
            out
        },
    }
}

/// A row of values.
fn row(values: &Vec<Literal>) -> (r: String)
    ensures
        r@ == row_text(views(values@)),
{
    let mut parts: Vec<String> = Vec::new();
    let mut k: usize = 0;
    while k < values.len()
        invariant
            k <= values@.len(),
            parts@.len() == k,
            forall|j: int| 0 <= j < k ==> (#[trigger] parts@[j])@ == literal_text(values@[j]@),
        decreases values.len() - k,
    {
        parts.push(literal(&values[k]));
        k += 1;
    }
    assert(views(parts@) =~= Seq::new(values@.len(), |k: int| literal_text(views(values@)[k])));
    join(&parts, ", ")
}

/// The lines under an insert.
fn source_lines(source: &Source) -> (r: Vec<String>)
    requires
        source@ matches SourceView::Select(s) ==> s.wf(),
    ensures
        views(r@) == (match source@ {
            SourceView::Values(rows) => Seq::new(rows.len(), |k: int| row_text(rows[k])),
            SourceView::Select(select) => seq![source_text(*select)],
        }),
{
    let mut out: Vec<String> = Vec::new();
    match source {
        Source::Values(rows) => {
            let mut k: usize = 0;
            while k < rows.len()
                invariant
                    k <= rows@.len(),
                    out@.len() == k,
                    forall|j: int| 0 <= j < k ==> (#[trigger] out@[j])@ == row_text(views(rows@[j]@)),
                decreases rows.len() - k,
            {
                out.push(row(&rows[k]));
                k += 1;
            }
            let ghost seen = source@->Values_0;
            assert(views(out@) =~= Seq::new(seen.len(), |k: int| row_text(seen[k])));
        },
        Source::Select(select) => {
            let text = match lower_one(&**select) {
                Ok(s) => {
                    let mut one = str::to_owned("select ");
                    one.append(join(&s.answer.shape.columns(), ", ").as_str());
                    one.append(" from ");
                    one.append(select.from.qualified().as_str());
                    one
                },
                Err(e) => {
                    let mut one = str::to_owned("error: ");
                    one.append(e.code());
                    one
                },
            };
            out.push(text);
            assert(views(out@) =~= seq![source_text(select@)]);
        },
    }
    out
}

/// A write, as its columns and its rows.
pub fn insert(i: &Insert) -> (r: String)
    requires
        i@.source matches SourceView::Select(s) ==> s.wf(),
    ensures
        r@ == insert_text(i@),
{
    let mut out = str::to_owned("Insert ");
    out.append(qualify(&i.database, i.table.as_str()).as_str());
    out.append(" (");
    out.append(join(&i.columns, ", ").as_str());
    out.append(")");
    match i.id_at {
        Some(i) => {
            out.append(" id_at=");
            push_dec(&mut out, i as u128);
        },
        None => out.append(" id=allocated"),
    }
    write_kids(&mut out, &source_lines(&i.source));
    assert(out@ =~= insert_text(i@));
    out
}

/// The name of a view of the catalog.
fn system_name(view: SystemView) -> (r: &'static str)
    ensures
        r@ == system_text(view),
{
    match view {
        SystemView::Tables => "tables",
        SystemView::Columns => "columns",
        SystemView::Databases => "databases",
        SystemView::Parts => "parts",
    }
}

/// What is asked of the catalog.
fn shown(what: &Shown) -> (r: String)
    ensures
        r@ == shown_text(what@),
{
    match what {
        Shown::Columns { database, table } => {
            let mut out = str::to_owned("Columns ");
            out.append(qualify(database, table.as_str()).as_str());
            out
        },
        Shown::Tables { database } => {
            let mut out = str::to_owned("Tables");
            push_label(&mut out, " ", database);
            out
        },
        Shown::Views { database } => {
            let mut out = str::to_owned("Views");
            push_label(&mut out, " ", database);
            out
        },
        Shown::Databases => str::to_owned("Databases"),
        Shown::Create { database, table, view } => {
            let mut out = str::to_owned("Create ");
            out.append(qualify(database, table.as_str()).as_str());
            push_flag(&mut out, *view, " view");
            out
        },
        Shown::Grants { role } => {
            let mut out = str::to_owned("Grants");
            push_label(&mut out, " ", role);
            out
        },
        Shown::Roles => str::to_owned("Roles"),
        Shown::System { view, database, table, columns } => {
            let mut out = str::to_owned("System ");
            out.append(system_name(*view));
            push_label(&mut out, " database=", database);
            push_label(&mut out, " table=", table);
            if let Some(c) = columns {
                out.append(" (");
                out.append(join(c, ", ").as_str());
                out.append(")");
            }
            assert(out@ =~= shown_text(what@));
            out
        },
        Shown::Numbers { n } => {
            let mut out = str::to_owned("Numbers ");
            push_dec(&mut out, *n as u128);
            out
        },
        Shown::Processlist => str::to_owned("Processlist"),
    }
}

/// A question about the catalog.
pub fn show(s: &Show) -> (r: String)
    ensures
        r@ == show_text(s@),
{
    let mut out = shown(&s.what);
    let json = match s.format {
        Format::Json => true,
        _ => false,
    };
    if !json {
        out.append(" format=");
        out.append(format_name(s.format));
    }
    assert(out@ =~= show_text(s@));
    out
}

/// One search, with the records it walks already planned and written out.
#[derive(Clone, Copy)]
pub struct Probed<'a> {
    /// What is being searched for.
    pub probe: &'a Probe,
    /// The plan of the records the search runs over, as text.
    pub rows: &'a str,
}

/// What a [`Probed`] holds.
#[verifier::ext_equal]
pub struct ProbedView {
    pub probe: ProbeView,
    pub rows: Seq<char>,
}

impl<'a> View for Probed<'a> {
    type V = ProbedView;

    open spec fn view(&self) -> ProbedView {
        ProbedView { probe: self.probe@, rows: self.rows@ }
    }
}

/// What an `EXPLAIN` has to say, once the half that needs a schema has been resolved. A plan is a
/// statement put against a schema, and none is held here, so plans come as text.
pub enum Explained<'a> {
    /// A query: the plans its calls resolve to, its searches, and the answer they build.
    Query {
        /// One per call, in the order the shape names them.
        plans: &'a Vec<String>,
        /// One per search, whose answers sit after the calls'.
        probes: &'a Vec<Probed<'a>>,
        /// The answer.
        answer: &'a Answer,
    },
    /// A schema change.
    Ddl(&'a Ddl),
    /// A write, as the columns and literals it would turn into facts.
    Insert(&'a Insert),
    /// A question about the catalog.
    Show(&'a Show),
}

/// What an [`Explained`] holds.
pub enum ExplainedView {
    Query { plans: Seq<Seq<char>>, probes: Seq<ProbedView>, answer: AnswerView },
    Ddl(DdlView),
    Insert(InsertView),
    Show(ShowView),
}

impl<'a> View for Explained<'a> {
    type V = ExplainedView;

    open spec fn view(&self) -> ExplainedView {
        match *self {
            Explained::Query { plans, probes, answer } => ExplainedView::Query {
                plans: views(plans@),
                probes: views(probes@),
                answer: answer@,
            },
            Explained::Ddl(d) => ExplainedView::Ddl(d@),
            Explained::Insert(i) => ExplainedView::Insert(i@),
            Explained::Show(s) => ExplainedView::Show(s@),
        }
    }
}

/// A text after its first line, and all records where there is no more.
pub open spec fn under_first_line(text: Seq<char>) -> Seq<char> {
    match char_at(text, '\n', 0) {
        Some(k) => text.subrange(k + 1, text.len() as int),
        None => "└── all"@,
    }
}

/// The first `n` plans, each under its number.
pub open spec fn plan_sections(plans: Seq<Seq<char>>, n: int) -> Seq<Seq<char>>
    decreases n,
{
    if n <= 0 {
        Seq::empty()
    } else {
        plan_sections(plans, n - 1).push("plan #"@ + dec((n - 1) as nat)).push(plans[n - 1])
    }
}

/// What a search looks for.
pub open spec fn probe_text(probe: ProbeView) -> Seq<char> {
    "probe "@ + probe.table + "."@ + probe.field + " per_mille="@ + dec(probe.per_mille as nat)
}

/// The first `n` searches, each over the records it walks.
pub open spec fn probe_sections(probes: Seq<ProbedView>, n: int) -> Seq<Seq<char>>
    decreases n,
{
    if n <= 0 {
        Seq::empty()
    } else {
        probe_sections(probes, n - 1).push(probe_text(probes[n - 1].probe)).push(
            under_first_line(probes[n - 1].rows),
        )
    }
}

/// What an explanation is made of, before blank lines are left out.
pub open spec fn sections(mode: ExplainMode, what: ExplainedView) -> Seq<Seq<char>> {
    match what {
        ExplainedView::Query { plans, probes, answer } => (if mode is Shape {
            Seq::empty()
        } else {
            plan_sections(plans, plans.len() as int) + probe_sections(probes, probes.len() as int)
        }) + (if mode is Plan {
            Seq::empty()
        } else {
            seq!["shape"@, answer_text(answer)]
        }),
        ExplainedView::Ddl(d) => seq!["ddl"@, ddl_text(d)],
        ExplainedView::Insert(i) => seq!["insert"@, insert_text(i)],
        ExplainedView::Show(s) => seq!["show"@, show_text(s)],
    }
}

/// A line without the carriage return at its end.
pub open spec fn without_return(line: Seq<char>) -> Seq<char> {
    if line.len() > 0 && line.last() == '\r' {
        line.drop_last()
    } else {
        line
    }
}

/// Two texts, one under the other. Nothing is under or over nothing.
pub open spec fn glued(a: Seq<char>, b: Seq<char>) -> Seq<char> {
    if a.len() == 0 {
        b
    } else if b.len() == 0 {
        a
    } else {
        a + "\n"@ + b
    }
}

/// A line, unless it is blank.
pub open spec fn unless_blank(line: Seq<char>) -> Seq<char> {
    if trimmed(line).len() == 0 {
        Seq::empty()
    } else {
        line
    }
}

/// A text without its blank lines.
pub open spec fn kept_lines(text: Seq<char>) -> Seq<char>
    decreases text.len(),
    when 0 <= text.len()
    via kept_lines_decreases
{
    match char_at(text, '\n', 0) {
        None => unless_blank(text),
        Some(k) => glued(
            unless_blank(without_return(text.subrange(0, k))),
            kept_lines(text.subrange(k + 1, text.len() as int)),
        ),
    }
}

#[via_fn]
proof fn kept_lines_decreases(text: Seq<char>) {
    lemma_char_at(text, '\n', 0);
}

/// A character that is found is there, and nowhere before.
pub proof fn lemma_char_at(s: Seq<char>, c: char, k: int)
    requires
        0 <= k,
    ensures
        match char_at(s, c, k) {
            Some(i) => k <= i < s.len() && s[i] == c && forall|j: int| k <= j < i ==> s[j] != c,
            None => forall|j: int| k <= j < s.len() ==> s[j] != c,
        },
    decreases s.len() - k,
{
    if k < s.len() && s[k] != c {
        lemma_char_at(s, c, k + 1);
    }
}

/// The explanation of a statement.
pub open spec fn explained_text(mode: ExplainMode, what: ExplainedView) -> Seq<char> {
    kept_lines(joined(sections(mode, what), "\n"@))
}

/// No line of a text is blank, and no line break ends it.
pub open spec fn solid(text: Seq<char>) -> bool
    decreases text.len(),
    when 0 <= text.len()
    via solid_decreases
{
    match char_at(text, '\n', 0) {
        None => trimmed(text).len() > 0,
        Some(k) => trimmed(text.subrange(0, k)).len() > 0 && solid(
            text.subrange(k + 1, text.len() as int),
        ),
    }
}

#[via_fn]
proof fn solid_decreases(text: Seq<char>) {
    lemma_char_at(text, '\n', 0);
}

proof fn lemma_found(s: Seq<char>, c: char, k: int, i: int)
    requires
        0 <= k <= i < s.len(),
        s[i] == c,
        forall|j: int| k <= j < i ==> s[j] != c,
    ensures
        char_at(s, c, k) == Some(i),
    decreases i - k,
{
    if k < i {
        lemma_found(s, c, k + 1, i);
    }
}

proof fn lemma_not_found(s: Seq<char>, c: char, k: int)
    requires
        0 <= k,
        forall|j: int| k <= j < s.len() ==> s[j] != c,
    ensures
        char_at(s, c, k) is None,
    decreases s.len() - k,
{
    if k < s.len() {
        lemma_not_found(s, c, k + 1);
    }
}

/// A line over solid text is solid.
proof fn lemma_glued_solid(line: Seq<char>, rest: Seq<char>)
    requires
        forall|j: int| 0 <= j < line.len() ==> line[j] != '\n',
        line.len() == 0 || trimmed(line).len() > 0,
        rest.len() == 0 || solid(rest),
    ensures
        glued(line, rest).len() == 0 || solid(glued(line, rest)),
{
    reveal_strlit("\n");
    let g = glued(line, rest);
    if line.len() > 0 {
        if rest.len() == 0 {
            lemma_not_found(line, '\n', 0);
        } else {
            assert(g[line.len() as int] == '\n');
            lemma_found(g, '\n', 0, line.len() as int);
            assert(g.subrange(0, line.len() as int) =~= line);
            assert(g.subrange(line.len() as int + 1, g.len() as int) =~= rest);
        }
    }
}

proof fn lemma_kept_solid(text: Seq<char>)
    ensures
        kept_lines(text).len() == 0 || solid(kept_lines(text)),
    decreases text.len(),
{
    lemma_char_at(text, '\n', 0);
    match char_at(text, '\n', 0) {
        None => {
            let line = unless_blank(text);
            if line.len() > 0 {
                lemma_not_found(line, '\n', 0);
            }
        },
        Some(k) => {
            let rest = text.subrange(k + 1, text.len() as int);
            lemma_kept_solid(rest);
            let line = unless_blank(without_return(text.subrange(0, k)));
            assert forall|j: int| 0 <= j < line.len() implies line[j] != '\n' by {
                assert(line[j] == text[j]);
            }
            lemma_glued_solid(line, kept_lines(rest));
        },
    }
}

/// No line of an explanation is blank, and no line break ends it.
pub proof fn an_explanation_has_no_blank_line(mode: ExplainMode, what: ExplainedView)
    ensures
        explained_text(mode, what).len() == 0 || solid(explained_text(mode, what)),
{
    lemma_kept_solid(joined(sections(mode, what), "\n"@));
}

proof fn lemma_glued_again(a: Seq<char>, b: Seq<char>, c: Seq<char>)
    ensures
        glued(glued(a, b), c) == glued(a, glued(b, c)),
{
    assert(glued(glued(a, b), c) =~= glued(a, glued(b, c)));
}

/// A text without its blank lines.
fn keep_lines(text: &str) -> (r: String)
    ensures
        r@ == kept_lines(text@),
{
    let n = text.unicode_len();
    let mut out = String::new();
    let mut start: usize = 0;
    assert(text@.subrange(0, n as int) =~= text@);
    assert(glued(out@, kept_lines(text@)) == kept_lines(text@));
    while start <= n
        invariant
            n == text@.len(),
            start <= n,
            glued(out@, kept_lines(text@.subrange(start as int, n as int))) == kept_lines(text@),
        decreases n - start,
    {
        let rest = text.substring_char(start, n);
        let ghost left = text@.subrange(start as int, n as int);
        match find_char(rest, '\n', 0) {
            None => {
                let line = if rest.trim().unicode_len() == 0 {
                    ""
                } else {
                    rest
                };
                proof {
                    reveal_strlit("");
                    assert(""@ =~= Seq::<char>::empty());
                }
                glue(&mut out, line);
                return out;
            },
            Some(k) => {
                let whole = rest.substring_char(0, k);
                let line = if k > 0 && whole.get_char(k - 1) == '\r' {
                    whole.substring_char(0, k - 1)
                } else {
                    whole
                };
                assert(line@ =~= without_return(left.subrange(0, k as int)));
                let shown = if line.trim().unicode_len() == 0 {
                    ""
                } else {
                    line
                };
                proof {
                    reveal_strlit("");
                    assert(""@ =~= Seq::<char>::empty());
                    let later = left.subrange(k + 1, left.len() as int);
                    assert(later =~= text@.subrange(start + k + 1, n as int));
                    lemma_glued_again(out@, shown@, kept_lines(later));
                }
                glue(&mut out, shown);
                start = start + k + 1;
            },
        }
    }
    out
}

/// Puts a line under a text.
fn glue(out: &mut String, line: &str)
    ensures
        final(out)@ == glued(old(out)@, line@),
{
    if line.unicode_len() == 0 {
        assert(line@ =~= Seq::<char>::empty());
        assert(glued(out@, line@) =~= out@);
        return;
    }
    if out.as_str().unicode_len() > 0 {
        out.append("\n");
    }
    out.append(line);
    assert(out@ =~= glued(old(out)@, line@));
}

/// The plans of a query, each under its number, appended.
fn push_plans(out: &mut Vec<String>, plans: &Vec<String>)
    ensures
        views(final(out)@) == views(old(out)@) + plan_sections(
            views(plans@),
            plans@.len() as int,
        ),
{
    let ghost was = views(out@);
    let mut k: usize = 0;
    assert(was + plan_sections(views(plans@), 0) =~= was);
    while k < plans.len()
        invariant
            k <= plans@.len(),
            views(out@) == was + plan_sections(views(plans@), k as int),
        decreases plans.len() - k,
    {
        let ghost before = views(out@);
        let mut title = str::to_owned("plan #");
        push_dec(&mut title, k as u128);
        out.push(title);
        out.push(plans[k].clone());
        assert(views(out@) =~= before.push(title@).push(views(plans@)[k as int]));
        k += 1;
        assert(views(out@) =~= was + plan_sections(views(plans@), k as int));
    }
}

/// The searches of a query, each over the records it walks, appended.
fn push_probes(out: &mut Vec<String>, probes: &Vec<Probed<'_>>)
    ensures
        views(final(out)@) == views(old(out)@) + probe_sections(
            views(probes@),
            probes@.len() as int,
        ),
{
    let ghost was = views(out@);
    let mut k: usize = 0;
    assert(was + probe_sections(views(probes@), 0) =~= was);
    while k < probes.len()
        invariant
            k <= probes@.len(),
            views(out@) == was + probe_sections(views(probes@), k as int),
        decreases probes.len() - k,
    {
        let ghost before = views(out@);
        let one = probes[k];
        let mut title = str::to_owned("probe ");
        title.append(one.probe.table.as_str());
        title.append(".");
        title.append(one.probe.field.as_str());
        title.append(" per_mille=");
        push_dec(&mut title, one.probe.per_mille as u128);
        assert(title@ =~= probe_text(one@.probe));
        out.push(title);
        let n = one.rows.unicode_len();
        let rows = match find_char(one.rows, '\n', 0) {
            Some(j) => one.rows.substring_char(j + 1, n),
            None => "└── all",
        };
        let body = str::to_owned(rows);
        out.push(body);
        assert(views(probes@)[k as int] == one@);
        assert(views(out@) =~= before.push(title@).push(body@));
        k += 1;
        assert(views(out@) =~= was + probe_sections(views(probes@), k as int));
    }
}

/// A title and what is under it, appended.
fn push_section(out: &mut Vec<String>, title: &str, body: String)
    ensures
        views(final(out)@) == views(old(out)@) + seq![title@, body@],
{
    let ghost was = views(out@);
    out.push(str::to_owned(title));
    out.push(body);
    assert(views(out@) =~= was + seq![title@, body@]);
}

/// A statement, written out instead of run. No trailing newline, and no blank line anywhere.
pub fn explained(mode: ExplainMode, what: &Explained<'_>) -> (r: String)
    requires
        what@ matches ExplainedView::Insert(i) ==> (i.source matches SourceView::Select(s) ==> s.wf()),
    ensures
        r@ == explained_text(mode, what@),
{
    let mut out: Vec<String> = Vec::new();
    assert(views(out@) =~= Seq::<Seq<char>>::empty());
    match what {
        Explained::Query { plans, probes, answer: a } => {
            let shape_only = match mode {
                ExplainMode::Shape => true,
                _ => false,
            };
            let plan_only = match mode {
                ExplainMode::Plan => true,
                _ => false,
            };
            if !shape_only {
                push_plans(&mut out, *plans);
                push_probes(&mut out, *probes);
            }
            if !plan_only {
                push_section(&mut out, "shape", answer(*a));
            }
        },
        Explained::Ddl(d) => push_section(&mut out, "ddl", ddl(*d)),
        Explained::Insert(i) => push_section(&mut out, "insert", insert(*i)),
        Explained::Show(s) => push_section(&mut out, "show", show(*s)),
    }
    assert(views(out@) =~= sections(mode, what@));
    keep_lines(join(&out, "\n").as_str())
}

} // verus!
