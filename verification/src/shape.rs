//! What an answer looks like: which numbers go in which cells, and what is done to the merged list.

use vstd::prelude::*;
use crate::pql::{Literal, LiteralView};
use crate::scalar::{Scalar, ScalarView};
use crate::text::{copy_all, copy_plain, copy_some, same, same_word, views};

verus! {

/// How an answer is written.
#[derive(Clone, Copy, PartialEq, Eq, Debug, Structural)]
pub enum Format {
    Json,
    Tsv,
    TsvWithNames,
    Csv,
    CsvWithNames,
}

impl Default for Format {
    fn default() -> (r: Format)
        ensures
            r == Format::Json,
    {
        Format::Json
    }
}

impl Format {
    /// The format a name spells, in any case.
    pub open spec fn spelled(name: Seq<char>) -> Option<Format> {
        if same_word(name, "JSON"@) || same_word(name, "JSONCompact"@) {
            Some(Format::Json)
        } else if same_word(name, "TSV"@) || same_word(name, "TabSeparated"@) {
            Some(Format::Tsv)
        } else if same_word(name, "TSVWithNames"@) || same_word(name, "TabSeparatedWithNames"@) {
            Some(Format::TsvWithNames)
        } else if same_word(name, "CSV"@) {
            Some(Format::Csv)
        } else if same_word(name, "CSVWithNames"@) {
            Some(Format::CsvWithNames)
        } else {
            None
        }
    }

    /// The format a name spells, in any case.
    pub fn of(name: &str) -> (r: Option<Format>)
        ensures
            r == Format::spelled(name@),
    {
        if name.eq_ignore_ascii_case("JSON") || name.eq_ignore_ascii_case("JSONCompact") {
            Some(Format::Json)
        } else if name.eq_ignore_ascii_case("TSV") || name.eq_ignore_ascii_case("TabSeparated") {
            Some(Format::Tsv)
        } else if name.eq_ignore_ascii_case("TSVWithNames") || name.eq_ignore_ascii_case(
            "TabSeparatedWithNames",
        ) {
            Some(Format::TsvWithNames)
        } else if name.eq_ignore_ascii_case("CSV") {
            Some(Format::Csv)
        } else if name.eq_ignore_ascii_case("CSVWithNames") {
            Some(Format::CsvWithNames)
        } else {
            None
        }
    }
}

/// A window function, by the name its column carries.
#[derive(PartialEq, Eq, Debug)]
pub struct WinFunc {
    pub named: &'static str,
}

/// What a [`WinFunc`] holds.
#[verifier::ext_equal]
pub struct WinFuncView {
    pub named: Seq<char>,
}

impl View for WinFunc {
    type V = WinFuncView;

    open spec fn view(&self) -> WinFuncView {
        WinFuncView {
            named: self.named@,
        }
    }
}

impl Clone for WinFunc {
    fn clone(&self) -> (r: WinFunc)
        ensures
            r@ == self@,
    {
        WinFunc {
            named: self.named,
        }
    }
}

impl WinFunc {

    /// Whether two are the same.
    pub fn same(&self, other: &WinFunc) -> (r: bool)
        ensures
            r == (self@ == other@),
    {
        same(&self.named, &other.named)
    }
}

impl WinFunc {
    /// The name its column carries.
    pub fn name(&self) -> (r: &'static str)
        ensures
            r@ == self@.named,
    {
        self.named
    }
}

/// What a cell holds for a group its plan said nothing about.
#[derive(Clone, Copy, PartialEq, Eq, Debug, Structural)]
pub enum Absent {
    Zero,
    Null,
}

/// How a per-key number of one side combines with the other sides' counts.
#[derive(Clone, Copy, PartialEq, Eq, Debug, Structural)]
pub enum Pairing {
    Product,
    Least,
    Greatest,
}

/// Where a cell's number comes from. Plans and probes are named by position.
#[derive(Clone, Copy, PartialEq, Eq, Debug, Structural)]
pub enum Of {
    /// A plan's single number.
    Value { plan: usize },
    /// How many groups a plan answered with.
    Groups { plan: usize },
    /// One plan's number over another's.
    Ratio { plan: usize, over: usize },
    /// The instant the statement was translated at.
    Now { unix_seconds: i64 },
    /// The group's key.
    Key,
    /// The second column's key, of a pair.
    RightKey,
    /// One key of a combination.
    KeyAt { axis: u8 },
    /// A constant no plan was run for.
    Const { value: Option<i64> },
    /// A search's answer.
    Probe { probe: usize },
    /// A plan's number for the group.
    Group { plan: usize, absent: Absent },
    /// A side's per-key number, combined with the other sides.
    Paired { plan: usize, side: usize, how: Pairing },
    /// A plan's keys, as a list.
    Keys { plan: usize },
    /// How many keys every side holds.
    SharedKeys,
    /// A ratio of two per-key numbers of one side.
    PairedRatio { top: usize, bottom: usize, side: usize },
}

impl Of {
    /// The plans a number is read from.
    pub open spec fn read_from(self) -> Seq<usize> {
        match self {
            Of::Value { plan } => seq![plan],
            Of::Groups { plan } => seq![plan],
            Of::Ratio { plan, over } => seq![plan, over],
            Of::Group { plan, .. } => seq![plan],
            Of::Paired { plan, .. } => seq![plan],
            Of::Keys { plan } => seq![plan],
            Of::PairedRatio { top, bottom, .. } => seq![top, bottom],
            _ => Seq::empty(),
        }
    }

    /// The plans a number is read from.
    pub fn plans(self) -> (r: Vec<usize>)
        ensures
            r@ == self.read_from(),
    {
        let mut out: Vec<usize> = Vec::new();
        match self {
            Of::Value { plan } => out.push(plan),
            Of::Groups { plan } => out.push(plan),
            Of::Ratio { plan, over } => {
                out.push(plan);
                out.push(over);
            },
            Of::Group { plan, .. } => out.push(plan),
            Of::Paired { plan, .. } => out.push(plan),
            Of::Keys { plan } => out.push(plan),
            Of::PairedRatio { top, bottom, .. } => {
                out.push(top);
                out.push(bottom);
            },
            _ => {},
        }
        assert(out@ =~= self.read_from());
        out
    }
}

/// What a number is measured in.
#[derive(PartialEq, Eq, Debug)]
pub enum Units {
    /// So many digits after the point. Zero is a plain number.
    Digits(u8),
    /// Days.
    Date,
    /// Seconds.
    Seconds,
    /// A field's own units, not yet looked up.
    Written { table: String, field: String },
}

/// What a [`Units`] holds.
#[verifier::ext_equal]
pub enum UnitsView {
    Digits(u8),
    Date,
    Seconds,
    Written { table: Seq<char>, field: Seq<char> },
}

impl View for Units {
    type V = UnitsView;

    open spec fn view(&self) -> UnitsView {
        match *self {
            Units::Digits(a) => UnitsView::Digits(a),
            Units::Date => UnitsView::Date,
            Units::Seconds => UnitsView::Seconds,
            Units::Written { table, field } => UnitsView::Written { table: table@, field: field@ },
        }
    }
}

impl Clone for Units {
    fn clone(&self) -> (r: Units)
        ensures
            r@ == self@,
    {
        match self {
            Units::Digits(a) => Units::Digits(*a),
            Units::Date => Units::Date,
            Units::Seconds => Units::Seconds,
            Units::Written { table, field } => Units::Written {
                table: table.clone(),
                field: field.clone(),
            },
        }
    }
}

/// One column of an answer that has rows of numbers.
#[derive(PartialEq, Eq, Debug)]
pub struct Cell {
    /// Its name.
    pub column: String,
    /// Its number.
    pub of: Of,
    /// What that is measured in.
    pub units: Units,
    /// What is done to it on the way out.
    pub apply: Option<Scalar>,
}

/// What a [`Cell`] holds.
#[verifier::ext_equal]
pub struct CellView {
    pub column: Seq<char>,
    pub of: Of,
    pub units: UnitsView,
    pub apply: Option<ScalarView>,
}

impl View for Cell {
    type V = CellView;

    open spec fn view(&self) -> CellView {
        CellView {
            column: self.column@,
            of: self.of,
            units: self.units@,
            apply: match self.apply { Some(v) => Some(v@), None => None },
        }
    }
}

impl Clone for Cell {
    fn clone(&self) -> (r: Cell)
        ensures
            r@ == self@,
    {
        Cell {
            column: self.column.clone(),
            of: self.of,
            units: self.units.clone(),
            apply: copy_some(&self.apply),
        }
    }
}

/// One column of a projection.
#[derive(PartialEq, Eq, Debug)]
pub struct Selected {
    /// Its name.
    pub column: String,
    /// What its values are measured in.
    pub units: Units,
    /// What is done to them on the way out.
    pub apply: Option<Scalar>,
}

/// What a [`Selected`] holds.
#[verifier::ext_equal]
pub struct SelectedView {
    pub column: Seq<char>,
    pub units: UnitsView,
    pub apply: Option<ScalarView>,
}

impl View for Selected {
    type V = SelectedView;

    open spec fn view(&self) -> SelectedView {
        SelectedView {
            column: self.column@,
            units: self.units@,
            apply: match self.apply { Some(v) => Some(v@), None => None },
        }
    }
}

impl Clone for Selected {
    fn clone(&self) -> (r: Selected)
        ensures
            r@ == self@,
    {
        Selected {
            column: self.column.clone(),
            units: self.units.clone(),
            apply: copy_some(&self.apply),
        }
    }
}

/// The columns of a projection.
#[derive(PartialEq, Eq, Debug)]
pub enum Columns {
    /// The ones the select list names.
    Named(Vec<Selected>),
    /// Every column the table has.
    All { table: String, limit: Option<usize> },
}

/// What a [`Columns`] holds.
#[verifier::ext_equal]
pub enum ColumnsView {
    Named(Seq<SelectedView>),
    All { table: Seq<char>, limit: Option<usize> },
}

impl View for Columns {
    type V = ColumnsView;

    open spec fn view(&self) -> ColumnsView {
        match *self {
            Columns::Named(a) => ColumnsView::Named(views(a@)),
            Columns::All { table, limit } => ColumnsView::All { table: table@, limit },
        }
    }
}

impl Clone for Columns {
    fn clone(&self) -> (r: Columns)
        ensures
            r@ == self@,
    {
        match self {
            Columns::Named(a) => Columns::Named(copy_all(a)),
            Columns::All { table, limit } => Columns::All {
                table: table.clone(),
                limit: *limit,
            },
        }
    }
}

/// The order of a projection.
#[derive(PartialEq, Eq, Debug)]
pub struct TableOrder {
    pub column: String,
    pub desc: bool,
}

/// What a [`TableOrder`] holds.
#[verifier::ext_equal]
pub struct TableOrderView {
    pub column: Seq<char>,
    pub desc: bool,
}

impl View for TableOrder {
    type V = TableOrderView;

    open spec fn view(&self) -> TableOrderView {
        TableOrderView {
            column: self.column@,
            desc: self.desc,
        }
    }
}

impl Clone for TableOrder {
    fn clone(&self) -> (r: TableOrder)
        ensures
            r@ == self@,
    {
        TableOrder {
            column: self.column.clone(),
            desc: self.desc,
        }
    }
}

/// A `HAVING`, resolved to the numbers an answer holds.
#[derive(PartialEq, Eq, Debug)]
pub enum Having {
    And(Box<Having>, Box<Having>),
    Or(Box<Having>, Box<Having>),
    Not(Box<Having>),
    Cmp { left: Operand, op: &'static str, right: Operand },
}

/// What a [`Having`] holds.
#[verifier::ext_equal]
pub enum HavingView {
    And(Box<HavingView>, Box<HavingView>),
    Or(Box<HavingView>, Box<HavingView>),
    Not(Box<HavingView>),
    Cmp { left: OperandView, op: Seq<char>, right: OperandView },
}

impl View for Having {
    type V = HavingView;

    open spec fn view(&self) -> HavingView
        decreases self,
    {
        match *self {
            Having::And(a, b) => HavingView::And(Box::new((*a)@), Box::new((*b)@)),
            Having::Or(a, b) => HavingView::Or(Box::new((*a)@), Box::new((*b)@)),
            Having::Not(a) => HavingView::Not(Box::new((*a)@)),
            Having::Cmp { left, op, right } => HavingView::Cmp { left: left@, op: op@, right: right@ },
        }
    }
}

impl Clone for Having {
    fn clone(&self) -> (r: Having)
        ensures
            r@ == self@,
        decreases self,
    {
        match self {
            Having::And(a, b) => Having::And(Box::new((**a).clone()), Box::new((**b).clone())),
            Having::Or(a, b) => Having::Or(Box::new((**a).clone()), Box::new((**b).clone())),
            Having::Not(a) => Having::Not(Box::new((**a).clone())),
            Having::Cmp { left, op, right } => Having::Cmp {
                left: left.clone(),
                op: *op,
                right: right.clone(),
            },
        }
    }
}

/// One side of a comparison.
#[derive(PartialEq, Eq, Debug)]
pub enum Operand {
    /// A number of the answer.
    Of { of: Of, units: Units },
    /// A constant.
    Value(Threshold),
}

/// What a [`Operand`] holds.
#[verifier::ext_equal]
pub enum OperandView {
    Of { of: Of, units: UnitsView },
    Value(ThresholdView),
}

impl View for Operand {
    type V = OperandView;

    open spec fn view(&self) -> OperandView {
        match *self {
            Operand::Of { of, units } => OperandView::Of { of, units: units@ },
            Operand::Value(a) => OperandView::Value(a@),
        }
    }
}

impl Clone for Operand {
    fn clone(&self) -> (r: Operand)
        ensures
            r@ == self@,
    {
        match self {
            Operand::Of { of, units } => Operand::Of {
                of: *of,
                units: units.clone(),
            },
            Operand::Value(a) => Operand::Value(a.clone()),
        }
    }
}

/// A constant a number is compared against.
#[derive(PartialEq, Eq, Debug)]
pub enum Threshold {
    /// A plain number.
    Units(i128),
    /// A value in a field's own units.
    Written { table: String, field: String, value: Literal },
}

/// What a [`Threshold`] holds.
#[verifier::ext_equal]
pub enum ThresholdView {
    Units(i128),
    Written { table: Seq<char>, field: Seq<char>, value: LiteralView },
}

impl View for Threshold {
    type V = ThresholdView;

    open spec fn view(&self) -> ThresholdView {
        match *self {
            Threshold::Units(a) => ThresholdView::Units(a),
            Threshold::Written { table, field, value } => ThresholdView::Written { table: table@, field: field@, value: value@ },
        }
    }
}

impl Clone for Threshold {
    fn clone(&self) -> (r: Threshold)
        ensures
            r@ == self@,
    {
        match self {
            Threshold::Units(a) => Threshold::Units(*a),
            Threshold::Written { table, field, value } => Threshold::Written {
                table: table.clone(),
                field: field.clone(),
                value: value.clone(),
            },
        }
    }
}

/// What groups are ordered by.
#[derive(Clone, Copy, PartialEq, Eq, Debug, Structural)]
pub enum OrderBy {
    Key,
    Value { of: Of },
}

/// An ordering of groups.
#[derive(Clone, Copy, PartialEq, Eq, Debug, Structural)]
pub struct GroupOrder {
    pub by: OrderBy,
    pub desc: bool,
}

/// The part of an ordered list that is kept.
#[derive(Clone, Copy, PartialEq, Eq, Debug, Structural)]
pub struct Cut {
    pub limit: Option<usize>,
    pub offset: Option<usize>,
    pub ties: bool,
}

impl Default for Cut {
    fn default() -> (r: Cut)
        ensures
            r == no_cut(),
    {
        Cut { limit: None, offset: None, ties: false }
    }
}

/// The whole list.
pub open spec fn no_cut() -> Cut {
    Cut { limit: None, offset: None, ties: false }
}

impl Cut {
    /// Whether this is the first so many and nothing else.
    pub open spec fn plain(self) -> bool {
        self.limit is Some && self.offset is None && !self.ties
    }

    /// Whether this is the first so many and nothing else.
    pub fn is_plain_limit(&self) -> (r: bool)
        ensures
            r == self.plain(),
    {
        self.limit.is_some() && self.offset.is_none() && !self.ties
    }
}

/// How a side of a join is keyed.
#[derive(Clone, Copy, PartialEq, Eq, Debug, Structural)]
pub enum Keying {
    By { plan: usize, axis: u8 },
}

/// One side of a join.
#[derive(Clone, Copy, PartialEq, Eq, Debug, Structural)]
pub struct JoinSide {
    pub keyed: Keying,
    /// Whether a key this side does not hold is dropped.
    pub required: bool,
}

/// The shape of an answer.
#[allow(inconsistent_fields)]
#[derive(PartialEq, Eq, Debug)]
pub enum Shape {
    /// One row of numbers.
    Row { cells: Vec<Cell>, having: Option<Having> },
    /// A list of record ids.
    Records { column: String, limit: Option<usize>, descending: bool },
    /// A projection.
    Table { columns: Columns, order: Option<TableOrder>, cut: Option<usize> },
    /// Several answers, stacked.
    Union { branches: Vec<Shape> },
    /// One row per pair of keys.
    Pairs { keys: Vec<usize>, cells: Vec<Cell>, having: Option<Having>, order: Option<GroupOrder>, cut: Cut },
    /// One row per combination of keys.
    Tuples { axes: u8, keys: Vec<usize>, cells: Vec<Cell>, having: Option<Having>, order: Option<GroupOrder>, cut: Cut },
    /// Arithmetic over what each side of a join answers.
    Join { axes: u8, sides: Vec<JoinSide>, cells: Vec<Cell>, per_key: bool, having: Option<Having>, order: Option<GroupOrder>, cut: Cut },
    /// One row per group.
    Groups { keys: Vec<usize>, cells: Vec<Cell>, having: Option<Having>, order: Option<GroupOrder>, cut: Cut },
}

/// What a [`Shape`] holds.
#[allow(inconsistent_fields)]
#[verifier::ext_equal]
pub enum ShapeView {
    Row { cells: Seq<CellView>, having: Option<HavingView> },
    Records { column: Seq<char>, limit: Option<usize>, descending: bool },
    Table { columns: ColumnsView, order: Option<TableOrderView>, cut: Option<usize> },
    Union { branches: Seq<ShapeView> },
    Pairs { keys: Seq<usize>, cells: Seq<CellView>, having: Option<HavingView>, order: Option<GroupOrder>, cut: Cut },
    Tuples { axes: u8, keys: Seq<usize>, cells: Seq<CellView>, having: Option<HavingView>, order: Option<GroupOrder>, cut: Cut },
    Join { axes: u8, sides: Seq<JoinSide>, cells: Seq<CellView>, per_key: bool, having: Option<HavingView>, order: Option<GroupOrder>, cut: Cut },
    Groups { keys: Seq<usize>, cells: Seq<CellView>, having: Option<HavingView>, order: Option<GroupOrder>, cut: Cut },
}

impl Shape {
    /// What this holds.
    pub open spec fn model(&self) -> ShapeView
        decreases self,
    {
        match *self {
            Shape::Row { cells, having } => ShapeView::Row { cells: views(cells@), having: match having { Some(v) => Some(v@), None => None } },
            Shape::Records { column, limit, descending } => ShapeView::Records { column: column@, limit, descending },
            Shape::Table { columns, order, cut } => ShapeView::Table { columns: columns@, order: match order { Some(v) => Some(v@), None => None }, cut },
            Shape::Union { branches } => ShapeView::Union { branches: Seq::new(branches@.len(), |i: int| if 0 <= i < branches@.len() { branches@[i].model() } else { arbitrary() }) },
            Shape::Pairs { keys, cells, having, order, cut } => ShapeView::Pairs { keys: keys@, cells: views(cells@), having: match having { Some(v) => Some(v@), None => None }, order, cut },
            Shape::Tuples { axes, keys, cells, having, order, cut } => ShapeView::Tuples { axes, keys: keys@, cells: views(cells@), having: match having { Some(v) => Some(v@), None => None }, order, cut },
            Shape::Join { axes, sides, cells, per_key, having, order, cut } => ShapeView::Join { axes, sides: sides@, cells: views(cells@), per_key, having: match having { Some(v) => Some(v@), None => None }, order, cut },
            Shape::Groups { keys, cells, having, order, cut } => ShapeView::Groups { keys: keys@, cells: views(cells@), having: match having { Some(v) => Some(v@), None => None }, order, cut },
        }
    }
}

impl View for Shape {
    type V = ShapeView;

    open spec fn view(&self) -> ShapeView {
        self.model()
    }
}

impl Clone for Shape {
    fn clone(&self) -> (r: Shape)
        ensures
            r@ == self@,
    {
        self.copied()
    }
}

impl Shape {
    /// A copy.
    pub fn copied(&self) -> (r: Shape)
        ensures
            r@ == self@,
        decreases self,
    {
        match self {
            Shape::Row { cells, having } => Shape::Row {
                cells: copy_all(cells),
                having: copy_some(having),
            },
            Shape::Records { column, limit, descending } => Shape::Records {
                column: column.clone(),
                limit: *limit,
                descending: *descending,
            },
            Shape::Table { columns, order, cut } => Shape::Table {
                columns: columns.clone(),
                order: copy_some(order),
                cut: *cut,
            },
            Shape::Union { branches } => {
                let mut out: Vec<Shape> = Vec::new();
                let mut k: usize = 0;
                while k < branches.len()
                    invariant
                        k <= branches@.len(),
                        out@.len() == k,
                        self matches Shape::Union { branches: all } && all == *branches,
                        forall|j: int| 0 <= j < k ==> (#[trigger] out@[j])@ == branches@[j]@,
                    decreases branches.len() - k,
                {
                    out.push(branches[k].copied());
                    k += 1;
                }
                let r = Shape::Union { branches: out };
                assert(r@->Union_branches =~= self@->Union_branches);
                r
            },
            Shape::Pairs { keys, cells, having, order, cut } => Shape::Pairs {
                keys: copy_plain(keys),
                cells: copy_all(cells),
                having: copy_some(having),
                order: *order,
                cut: *cut,
            },
            Shape::Tuples { axes, keys, cells, having, order, cut } => Shape::Tuples {
                axes: *axes,
                keys: copy_plain(keys),
                cells: copy_all(cells),
                having: copy_some(having),
                order: *order,
                cut: *cut,
            },
            Shape::Join { axes, sides, cells, per_key, having, order, cut } => Shape::Join {
                axes: *axes,
                sides: copy_plain(sides),
                cells: copy_all(cells),
                per_key: *per_key,
                having: copy_some(having),
                order: *order,
                cut: *cut,
            },
            Shape::Groups { keys, cells, having, order, cut } => Shape::Groups {
                keys: copy_plain(keys),
                cells: copy_all(cells),
                having: copy_some(having),
                order: *order,
                cut: *cut,
            },
        }
    }
}

/// A shape, how it is written, and how many calls stand behind it.
#[derive(PartialEq, Eq, Debug)]
pub struct Answer {
    pub shape: Shape,
    pub format: Format,
    pub calls: usize,
}

/// What a [`Answer`] holds.
#[verifier::ext_equal]
pub struct AnswerView {
    pub shape: ShapeView,
    pub format: Format,
    pub calls: usize,
}

impl View for Answer {
    type V = AnswerView;

    open spec fn view(&self) -> AnswerView {
        AnswerView {
            shape: self.shape@,
            format: self.format,
            calls: self.calls,
        }
    }
}

impl Clone for Answer {
    fn clone(&self) -> (r: Answer)
        ensures
            r@ == self@,
    {
        Answer {
            shape: self.shape.clone(),
            format: self.format,
            calls: self.calls,
        }
    }
}

/// A position moved up, as far as a position can be.
pub open spec fn moved_up(at: usize, n: usize) -> usize {
    if at + n > usize::MAX {
        usize::MAX
    } else {
        (at + n) as usize
    }
}

/// A position moved up.
fn move_up(at: usize, n: usize) -> (r: usize)
    ensures
        r == moved_up(at, n),
{
    if at > usize::MAX - n {
        usize::MAX
    } else {
        at + n
    }
}

impl Of {
    /// The same number, with the plans and the probes it names moved up.
    pub open spec fn moved(self, calls: usize, probes: usize) -> Of {
        match self {
            Of::Value { plan } => Of::Value { plan: moved_up(plan, calls) },
            Of::Groups { plan } => Of::Groups { plan: moved_up(plan, calls) },
            Of::Ratio { plan, over } => Of::Ratio {
                plan: moved_up(plan, calls),
                over: moved_up(over, calls),
            },
            Of::Group { plan, absent } => Of::Group { plan: moved_up(plan, calls), absent },
            Of::Paired { plan, side, how } => Of::Paired {
                plan: moved_up(plan, calls),
                side,
                how,
            },
            Of::Keys { plan } => Of::Keys { plan: moved_up(plan, calls) },
            Of::PairedRatio { top, bottom, side } => Of::PairedRatio {
                top: moved_up(top, calls),
                bottom: moved_up(bottom, calls),
                side,
            },
            Of::Probe { probe } => Of::Probe { probe: moved_up(probe, probes) },
            other => other,
        }
    }

    /// The same number, with the plans and the probes it names moved up.
    fn move_by(self, calls: usize, probes: usize) -> (r: Of)
        ensures
            r == self.moved(calls, probes),
    {
        match self {
            Of::Value { plan } => Of::Value { plan: move_up(plan, calls) },
            Of::Groups { plan } => Of::Groups { plan: move_up(plan, calls) },
            Of::Ratio { plan, over } => Of::Ratio {
                plan: move_up(plan, calls),
                over: move_up(over, calls),
            },
            Of::Group { plan, absent } => Of::Group { plan: move_up(plan, calls), absent },
            Of::Paired { plan, side, how } => Of::Paired {
                plan: move_up(plan, calls),
                side,
                how,
            },
            Of::Keys { plan } => Of::Keys { plan: move_up(plan, calls) },
            Of::PairedRatio { top, bottom, side } => Of::PairedRatio {
                top: move_up(top, calls),
                bottom: move_up(bottom, calls),
                side,
            },
            Of::Probe { probe } => Of::Probe { probe: move_up(probe, probes) },
            other => other,
        }
    }
}

/// Positions moved up.
pub open spec fn keys_moved(keys: Seq<usize>, calls: usize) -> Seq<usize> {
    Seq::new(keys.len(), |k: int| moved_up(keys[k], calls))
}

/// Cells with what they name moved up.
pub open spec fn cells_moved(cells: Seq<CellView>, calls: usize, probes: usize) -> Seq<CellView> {
    Seq::new(cells.len(), |k: int| CellView { of: cells[k].of.moved(calls, probes), ..cells[k] })
}

/// Sides with what they name moved up.
pub open spec fn sides_moved(sides: Seq<JoinSide>, calls: usize) -> Seq<JoinSide> {
    Seq::new(
        sides.len(),
        |k: int|
            match sides[k].keyed {
                Keying::By { plan, axis } => JoinSide {
                    keyed: Keying::By { plan: moved_up(plan, calls), axis },
                    required: sides[k].required,
                },
            },
    )
}

impl OperandView {
    /// The same operand, with what it names moved up.
    pub open spec fn moved(self, calls: usize, probes: usize) -> OperandView {
        match self {
            OperandView::Of { of, units } => OperandView::Of {
                of: of.moved(calls, probes),
                units,
            },
            other => other,
        }
    }
}

impl HavingView {
    /// The same condition, with what it names moved up.
    pub open spec fn moved(self, calls: usize, probes: usize) -> HavingView
        decreases self,
    {
        match self {
            HavingView::And(a, b) => HavingView::And(
                Box::new(a.moved(calls, probes)),
                Box::new(b.moved(calls, probes)),
            ),
            HavingView::Or(a, b) => HavingView::Or(
                Box::new(a.moved(calls, probes)),
                Box::new(b.moved(calls, probes)),
            ),
            HavingView::Not(a) => HavingView::Not(Box::new(a.moved(calls, probes))),
            HavingView::Cmp { left, op, right } => HavingView::Cmp {
                left: left.moved(calls, probes),
                op,
                right: right.moved(calls, probes),
            },
        }
    }
}

/// A condition that may be absent, with what it names moved up.
pub open spec fn having_moved(h: Option<HavingView>, calls: usize, probes: usize) -> Option<
    HavingView,
> {
    match h {
        Some(h) => Some(h.moved(calls, probes)),
        None => None,
    }
}

/// An order that may be absent, with what it names moved up.
pub open spec fn order_moved(o: Option<GroupOrder>, calls: usize, probes: usize) -> Option<
    GroupOrder,
> {
    match o {
        Some(GroupOrder { by: OrderBy::Value { of }, desc }) => Some(
            GroupOrder { by: OrderBy::Value { of: of.moved(calls, probes) }, desc },
        ),
        other => other,
    }
}

impl ShapeView {
    /// The same shape over a longer list: every plan it names moved up by so many calls, and
    /// every search by so many probes.
    pub open spec fn moved(self, calls: usize, probes: usize) -> ShapeView
        decreases self,
    {
        match self {
            ShapeView::Row { cells, having } => ShapeView::Row {
                cells: cells_moved(cells, calls, probes),
                having: having_moved(having, calls, probes),
            },
            ShapeView::Records { .. } => self,
            ShapeView::Table { .. } => self,
            ShapeView::Union { branches } => ShapeView::Union {
                branches: Seq::new(
                    branches.len(),
                    |k: int|
                        if 0 <= k < branches.len() {
                            branches[k].moved(calls, probes)
                        } else {
                            arbitrary()
                        },
                ),
            },
            ShapeView::Pairs { keys, cells, having, order, cut } => ShapeView::Pairs {
                keys: keys_moved(keys, calls),
                cells: cells_moved(cells, calls, probes),
                having: having_moved(having, calls, probes),
                order: order_moved(order, calls, probes),
                cut,
            },
            ShapeView::Tuples { axes, keys, cells, having, order, cut } => ShapeView::Tuples {
                axes,
                keys: keys_moved(keys, calls),
                cells: cells_moved(cells, calls, probes),
                having: having_moved(having, calls, probes),
                order: order_moved(order, calls, probes),
                cut,
            },
            ShapeView::Join { axes, sides, cells, per_key, having, order, cut } => ShapeView::Join {
                axes,
                sides: sides_moved(sides, calls),
                cells: cells_moved(cells, calls, probes),
                per_key,
                having: having_moved(having, calls, probes),
                order: order_moved(order, calls, probes),
                cut,
            },
            ShapeView::Groups { keys, cells, having, order, cut } => ShapeView::Groups {
                keys: keys_moved(keys, calls),
                cells: cells_moved(cells, calls, probes),
                having: having_moved(having, calls, probes),
                order: order_moved(order, calls, probes),
                cut,
            },
        }
    }

    /// The names of the answer's columns. A union's are those of its first branch, and a table's
    /// own columns are one star until somebody looks them up.
    pub open spec fn columns(self) -> Seq<Seq<char>>
        decreases self,
    {
        match self {
            ShapeView::Row { cells, .. } => cell_names(cells),
            ShapeView::Records { column, .. } => seq![column],
            ShapeView::Table { columns, .. } => columns.named(),
            ShapeView::Union { branches } => if branches.len() > 0 {
                branches[0].columns()
            } else {
                Seq::empty()
            },
            ShapeView::Pairs { cells, .. } => cell_names(cells),
            ShapeView::Tuples { cells, .. } => cell_names(cells),
            ShapeView::Join { cells, .. } => cell_names(cells),
            ShapeView::Groups { cells, .. } => cell_names(cells),
        }
    }
}

/// The names some cells go under.
pub open spec fn cell_names(cells: Seq<CellView>) -> Seq<Seq<char>> {
    Seq::new(cells.len(), |k: int| cells[k].column)
}

/// Positions moved up.
fn move_keys(keys: Vec<usize>, calls: usize) -> (r: Vec<usize>)
    ensures
        r@ == keys_moved(keys@, calls),
{
    let mut out: Vec<usize> = Vec::new();
    let mut k: usize = 0;
    while k < keys.len()
        invariant
            k <= keys@.len(),
            out@.len() == k,
            forall|j: int| 0 <= j < k ==> #[trigger] out@[j] == moved_up(keys@[j], calls),
        decreases keys.len() - k,
    {
        out.push(move_up(keys[k], calls));
        k += 1;
    }
    assert(out@ =~= keys_moved(keys@, calls));
    out
}

/// Sides with what they name moved up.
fn move_sides(sides: Vec<JoinSide>, calls: usize) -> (r: Vec<JoinSide>)
    ensures
        r@ == sides_moved(sides@, calls),
{
    let mut out: Vec<JoinSide> = Vec::new();
    let mut k: usize = 0;
    while k < sides.len()
        invariant
            k <= sides@.len(),
            out@.len() == k,
            forall|j: int| 0 <= j < k ==> #[trigger] out@[j] == sides_moved(sides@, calls)[j],
        decreases sides.len() - k,
    {
        let side = sides[k];
        let moved = match side.keyed {
            Keying::By { plan, axis } => JoinSide {
                keyed: Keying::By { plan: move_up(plan, calls), axis },
                required: side.required,
            },
        };
        out.push(moved);
        k += 1;
    }
    assert(out@ =~= sides_moved(sides@, calls));
    out
}

/// Cells with what they name moved up.
fn move_cells(cells: Vec<Cell>, calls: usize, probes: usize) -> (r: Vec<Cell>)
    ensures
        views(r@) == cells_moved(views(cells@), calls, probes),
{
    let ghost all = views(cells@);
    let mut rest = cells;
    let mut out: Vec<Cell> = Vec::new();
    while rest.len() > 0
        invariant
            out@.len() + rest@.len() == all.len(),
            forall|j: int| 0 <= j < rest@.len() ==> (#[trigger] rest@[j])@ == all[out@.len() + j],
            forall|j: int|
                0 <= j < out@.len() ==> (#[trigger] out@[j])@ == (CellView {
                    of: all[j].of.moved(calls, probes),
                    ..all[j]
                }),
        decreases rest.len(),
    {
        let ghost before = rest@;
        let c = rest.remove(0);
        assert(c@ == all[out@.len() as int]);
        assert forall|j: int| 0 <= j < rest@.len() implies (#[trigger] rest@[j])@ == all[out@.len() + 1
            + j] by {
            assert(rest@[j] == before[j + 1]);
        }
        let of = c.of.move_by(calls, probes);
        out.push(Cell { column: c.column, of, units: c.units, apply: c.apply });
    }
    assert(views(out@) =~= cells_moved(all, calls, probes));
    out
}

impl Operand {
    fn move_by(self, calls: usize, probes: usize) -> (r: Operand)
        ensures
            r@ == self@.moved(calls, probes),
    {
        match self {
            Operand::Of { of, units } => Operand::Of { of: of.move_by(calls, probes), units },
            other => other,
        }
    }
}

impl Having {
    fn move_by(self, calls: usize, probes: usize) -> (r: Having)
        ensures
            r@ == self@.moved(calls, probes),
        decreases self,
    {
        match self {
            Having::And(a, b) => Having::And(
                Box::new((*a).move_by(calls, probes)),
                Box::new((*b).move_by(calls, probes)),
            ),
            Having::Or(a, b) => Having::Or(
                Box::new((*a).move_by(calls, probes)),
                Box::new((*b).move_by(calls, probes)),
            ),
            Having::Not(a) => Having::Not(Box::new((*a).move_by(calls, probes))),
            Having::Cmp { left, op, right } => Having::Cmp {
                left: left.move_by(calls, probes),
                op,
                right: right.move_by(calls, probes),
            },
        }
    }
}

/// A condition that may be absent, as its view.
pub open spec fn having_seen(h: Option<Having>) -> Option<HavingView> {
    match h {
        Some(h) => Some(h@),
        None => None,
    }
}

/// A condition that may be absent, with what it names moved up.
fn move_having(h: Option<Having>, calls: usize, probes: usize) -> (r: Option<Having>)
    ensures
        having_seen(r) == having_moved(having_seen(h), calls, probes),
{
    match h {
        Some(h) => Some(h.move_by(calls, probes)),
        None => None,
    }
}

/// An order that may be absent, with what it names moved up.
fn move_order(o: Option<GroupOrder>, calls: usize, probes: usize) -> (r: Option<GroupOrder>)
    ensures
        r == order_moved(o, calls, probes),
{
    match o {
        Some(GroupOrder { by: OrderBy::Value { of }, desc }) => Some(
            GroupOrder { by: OrderBy::Value { of: of.move_by(calls, probes) }, desc },
        ),
        other => other,
    }
}

impl Shape {
    /// The same shape over a longer list.
    fn move_by(self, calls: usize, probes: usize) -> (r: Shape)
        ensures
            r@ == self@.moved(calls, probes),
        decreases self,
    {
        match self {
            Shape::Row { cells, having } => Shape::Row {
                cells: move_cells(cells, calls, probes),
                having: move_having(having, calls, probes),
            },
            Shape::Records { column, limit, descending } => Shape::Records {
                column,
                limit,
                descending,
            },
            Shape::Table { columns, order, cut } => Shape::Table { columns, order, cut },
            Shape::Union { branches } => {
                let ghost all = branches@;
                let mut rest = branches;
                let mut out: Vec<Shape> = Vec::new();
                while rest.len() > 0
                    invariant
                        self is Union,
                        all == self->Union_branches@,
                        out@.len() + rest@.len() == all.len(),
                        forall|j: int|
                            0 <= j < rest@.len() ==> (#[trigger] rest@[j]) == all[out@.len() + j],
                        forall|j: int|
                            0 <= j < out@.len() ==> (#[trigger] out@[j])@ == all[j]@.moved(
                                calls,
                                probes,
                            ),
                    decreases rest.len(),
                {
                    let ghost before = rest@;
                    let b = rest.remove(0);
                    assert(b == all[out@.len() as int]);
                    assert forall|j: int| 0 <= j < rest@.len() implies (#[trigger] rest@[j])
                        == all[out@.len() + 1 + j] by {
                        assert(rest@[j] == before[j + 1]);
                    }
                    assert(decreases_to!(self => self->Union_branches));
                    assert(decreases_to!(self->Union_branches => b));
                    out.push(b.move_by(calls, probes));
                }
                let r = Shape::Union { branches: out };
                assert(r@->Union_branches =~= self@.moved(calls, probes)->Union_branches);
                r
            },
            Shape::Pairs { keys, cells, having, order, cut } => Shape::Pairs {
                keys: move_keys(keys, calls),
                cells: move_cells(cells, calls, probes),
                having: move_having(having, calls, probes),
                order: move_order(order, calls, probes),
                cut,
            },
            Shape::Tuples { axes, keys, cells, having, order, cut } => Shape::Tuples {
                axes,
                keys: move_keys(keys, calls),
                cells: move_cells(cells, calls, probes),
                having: move_having(having, calls, probes),
                order: move_order(order, calls, probes),
                cut,
            },
            Shape::Join { axes, sides, cells, per_key, having, order, cut } => Shape::Join {
                axes,
                sides: move_sides(sides, calls),
                cells: move_cells(cells, calls, probes),
                per_key,
                having: move_having(having, calls, probes),
                order: move_order(order, calls, probes),
                cut,
            },
            Shape::Groups { keys, cells, having, order, cut } => Shape::Groups {
                keys: move_keys(keys, calls),
                cells: move_cells(cells, calls, probes),
                having: move_having(having, calls, probes),
                order: move_order(order, calls, probes),
                cut,
            },
        }
    }

    /// The same shape, with every plan it names moved up.
    pub fn rebase(self, n: usize) -> (r: Shape)
        ensures
            r@ == self@.moved(n, 0),
    {
        self.move_by(n, 0)
    }

    /// The same shape, with every search it names moved up.
    pub fn rebase_probes(self, n: usize) -> (r: Shape)
        ensures
            r@ == self@.moved(0, n),
    {
        self.move_by(0, n)
    }

    /// The names of the answer's columns.
    pub fn columns(&self) -> (r: Vec<String>)
        ensures
            views(r@) == self@.columns(),
        decreases self,
    {
        match self {
            Shape::Row { cells, .. } => names_of(cells),
            Shape::Records { column, .. } => {
                let mut out: Vec<String> = Vec::new();
                out.push(column.clone());
                assert(views(out@) =~= self@.columns());
                out
            },
            Shape::Table { columns, .. } => columns.named(),
            Shape::Union { branches } => {
                if branches.len() > 0 {
                    assert(self@->Union_branches[0] == branches@[0]@);
                    branches[0].columns()
                } else {
                    let out: Vec<String> = Vec::new();
                    assert(views(out@) =~= self@.columns());
                    out
                }
            },
            Shape::Pairs { cells, .. } => names_of(cells),
            Shape::Tuples { cells, .. } => names_of(cells),
            Shape::Join { cells, .. } => names_of(cells),
            Shape::Groups { cells, .. } => names_of(cells),
        }
    }
}

impl ColumnsView {
    /// The names of a projection's columns.
    pub open spec fn named(self) -> Seq<Seq<char>> {
        match self {
            ColumnsView::Named(c) => Seq::new(c.len(), |k: int| c[k].column),
            ColumnsView::All { .. } => seq!["*"@],
        }
    }
}

impl Columns {
    /// The names of a projection's columns.
    pub fn named(&self) -> (r: Vec<String>)
        ensures
            views(r@) == self@.named(),
    {
        let mut out: Vec<String> = Vec::new();
        match self {
            Columns::Named(c) => {
                let mut k: usize = 0;
                while k < c.len()
                    invariant
                        k <= c@.len(),
                        out@.len() == k,
                        forall|j: int| 0 <= j < k ==> (#[trigger] out@[j])@ == c@[j]@.column,
                    decreases c.len() - k,
                {
                    out.push(c[k].column.clone());
                    k += 1;
                }
            },
            Columns::All { .. } => out.push(str::to_owned("*")),
        }
        assert(views(out@) =~= self@.named());
        out
    }
}

/// The names some cells go under.
fn names_of(cells: &Vec<Cell>) -> (r: Vec<String>)
    ensures
        views(r@) == cell_names(views(cells@)),
{
    let mut out: Vec<String> = Vec::new();
    let mut k: usize = 0;
    while k < cells.len()
        invariant
            k <= cells@.len(),
            out@.len() == k,
            forall|j: int| 0 <= j < k ==> (#[trigger] out@[j])@ == cells@[j]@.column,
        decreases cells.len() - k,
    {
        out.push(cells[k].column.clone());
        k += 1;
    }
    assert(views(out@) =~= cell_names(views(cells@)));
    out
}

} // verus!
