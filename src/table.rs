//! Installer database tables as plain data: column schemas, cell values and
//! rows, each with a mathematical view that contracts speak of.
use vstd::prelude::*;
use crate::guid::Guid;

verus! {

/// The data format that a string column's values must follow.
#[derive(Clone, Copy, Debug, PartialEq, Eq, Structural)]
pub enum Category {
    Text,
    Identifier,
    Formatted,
    Condition,
    Guid,
    DefaultDir,
    Cabinet,
    Property,
    Filename,
    Version,
    Language,
}

/// The storage type of a column; a string column carries its maximum
/// length in characters, 0 for unlimited.
#[derive(Clone, Copy, Debug, PartialEq, Eq, Structural)]
pub enum ColumnType {
    Int16,
    Int32,
    Str(usize),
    Binary,
}

/// The attributes of a column whose storage type is not chosen yet.
#[derive(Debug)]
pub struct ColumnBuilder {
    pub name: String,
    pub nullable: bool,
    pub primary_key: bool,
    pub range: Option<(i32, i32)>,
    pub foreign_key: Option<(String, i32)>,
    pub category: Option<Category>,
}

/// A column of an installer database table.
#[derive(Debug)]
pub struct Column {
    pub name: String,
    pub coltype: ColumnType,
    pub nullable: bool,
    pub primary_key: bool,
    pub range: Option<(i32, i32)>,
    pub foreign_key: Option<(String, i32)>,
    pub category: Option<Category>,
}

/// What a column is, mathematically.
pub struct ColumnView {
    pub name: Seq<char>,
    pub coltype: ColumnType,
    pub nullable: bool,
    pub primary_key: bool,
    pub range: Option<(i32, i32)>,
    pub foreign_key: Option<(Seq<char>, i32)>,
    pub category: Option<Category>,
}

impl ColumnView {
    /// A non-null, non-key column named `name` of type `coltype`.
    pub open spec fn of(name: Seq<char>, coltype: ColumnType) -> ColumnView {
        ColumnView {
            name,
            coltype,
            nullable: false,
            primary_key: false,
            range: None,
            foreign_key: None,
            category: None,
        }
    }

    pub open spec fn nullable(self) -> ColumnView {
        ColumnView { nullable: true, ..self }
    }

    pub open spec fn primary_key(self) -> ColumnView {
        ColumnView { primary_key: true, ..self }
    }

    pub open spec fn range(self, min: i32, max: i32) -> ColumnView {
        ColumnView { range: Some((min, max)), ..self }
    }

    pub open spec fn foreign_key(self, table: Seq<char>, column: i32) -> ColumnView {
        ColumnView { foreign_key: Some((table, column)), ..self }
    }

    pub open spec fn category(self, category: Category) -> ColumnView {
        ColumnView { category: Some(category), ..self }
    }
}

impl View for Column {
    type V = ColumnView;

    open spec fn view(&self) -> ColumnView {
        ColumnView {
            name: self.name@,
            coltype: self.coltype,
            nullable: self.nullable,
            primary_key: self.primary_key,
            range: self.range,
            foreign_key: match self.foreign_key {
                Some((t, c)) => Some((t@, c)),
                None => None,
            },
            category: self.category,
        }
    }
}

impl DeepView for Column {
    type V = ColumnView;

    open spec fn deep_view(&self) -> ColumnView {
        self@
    }
}

/// The column that `b` describes, with storage type `coltype`.
pub open spec fn built(b: ColumnBuilder, coltype: ColumnType) -> ColumnView {
    ColumnView {
        name: b.name@,
        coltype,
        nullable: b.nullable,
        primary_key: b.primary_key,
        range: b.range,
        foreign_key: match b.foreign_key {
            Some((t, c)) => Some((t@, c)),
            None => None,
        },
        category: b.category,
    }
}

impl Column {
    /// Starts describing a column named `name`.
    pub fn build(name: &str) -> (r: ColumnBuilder)
        ensures
            forall|t: ColumnType| built(r, t) == ColumnView::of(name@, t),
    {
        ColumnBuilder {
            name: String::from_str(name),
            nullable: false,
            primary_key: false,
            range: None,
            foreign_key: None,
            category: None,
        }
    }
}

impl ColumnBuilder {
    /// Allows null values in the column.
    pub fn nullable(self) -> (r: ColumnBuilder)
        ensures
            forall|t: ColumnType| built(r, t) == built(self, t).nullable(),
    {
        ColumnBuilder { nullable: true, ..self }
    }

    /// Makes the column part of the table's primary key.
    pub fn primary_key(self) -> (r: ColumnBuilder)
        ensures
            forall|t: ColumnType| built(r, t) == built(self, t).primary_key(),
    {
        ColumnBuilder { primary_key: true, ..self }
    }

    /// Restricts the column's integer values to `min..=max`.
    pub fn range(self, min: i32, max: i32) -> (r: ColumnBuilder)
        ensures
            forall|t: ColumnType| built(r, t) == built(self, t).range(min, max),
    {
        ColumnBuilder { range: Some((min, max)), ..self }
    }

    /// Makes the column refer to key column `column` of table `table`.
    pub fn foreign_key(self, table: &str, column: i32) -> (r: ColumnBuilder)
        ensures
            forall|t: ColumnType| built(r, t) == built(self, t).foreign_key(table@, column),
    {
        ColumnBuilder { foreign_key: Some((String::from_str(table), column)), ..self }
    }

    /// Sets the data format of the column's string values.
    pub fn category(self, category: Category) -> (r: ColumnBuilder)
        ensures
            forall|t: ColumnType| built(r, t) == built(self, t).category(category),
    {
        ColumnBuilder { category: Some(category), ..self }
    }

    fn with_type(self, coltype: ColumnType) -> (r: Column)
        ensures
            r@ == built(self, coltype),
    {
        Column {
            name: self.name,
            coltype,
            nullable: self.nullable,
            primary_key: self.primary_key,
            range: self.range,
            foreign_key: self.foreign_key,
            category: self.category,
        }
    }

    /// A column of 16-bit integers.
    pub fn int16(self) -> (r: Column)
        ensures
            r@ == built(self, ColumnType::Int16),
    {
        self.with_type(ColumnType::Int16)
    }

    /// A column of 32-bit integers.
    pub fn int32(self) -> (r: Column)
        ensures
            r@ == built(self, ColumnType::Int32),
    {
        self.with_type(ColumnType::Int32)
    }

    /// A column of strings of at most `max_len` characters (0: unlimited).
    pub fn string(self, max_len: usize) -> (r: Column)
        ensures
            r@ == built(self, ColumnType::Str(max_len)),
    {
        self.with_type(ColumnType::Str(max_len))
    }

    /// A column of identifier strings.
    pub fn id_string(self, max_len: usize) -> (r: Column)
        ensures
            r@ == built(self, ColumnType::Str(max_len)).category(Category::Identifier),
    {
        self.category(Category::Identifier).string(max_len)
    }

    /// A column of text strings.
    pub fn text_string(self, max_len: usize) -> (r: Column)
        ensures
            r@ == built(self, ColumnType::Str(max_len)).category(Category::Text),
    {
        self.category(Category::Text).string(max_len)
    }

    /// A column that refers to a binary stream.
    pub fn binary(self) -> (r: Column)
        ensures
            r@ == built(self, ColumnType::Binary),
    {
        self.with_type(ColumnType::Binary)
    }
}

/// A cell of a table row.
#[derive(Debug)]
pub enum Value {
    Null,
    Int(i32),
    Str(String),
    Guid(Guid),
    /// Marks a binary column's value, whose bytes live in a stream of the
    /// same package.
    Binary,
}

/// What a cell holds, mathematically.
pub enum Cell {
    Null,
    Int(int),
    Str(Seq<char>),
    Guid(Seq<u8>),
    Binary,
}

impl View for Value {
    type V = Cell;

    open spec fn view(&self) -> Cell {
        match self {
            Value::Null => Cell::Null,
            Value::Int(i) => Cell::Int(*i as int),
            Value::Str(s) => Cell::Str(s@),
            Value::Guid(g) => Cell::Guid(g.bytes@),
            Value::Binary => Cell::Binary,
        }
    }
}

impl DeepView for Value {
    type V = Cell;

    open spec fn deep_view(&self) -> Cell {
        self@
    }
}

/// A string cell holding a copy of `s`.
pub fn str_value(s: &str) -> (r: Value)
    ensures
        r@ == Cell::Str(s@),
{
    Value::Str(String::from_str(s))
}

/// Appends `row` to `rows`.
pub fn push_row(rows: &mut Vec<Vec<Value>>, row: Vec<Value>)
    ensures
        final(rows).deep_view() == old(rows).deep_view().push(row.deep_view()),
{
    let ghost before = rows.deep_view();
    let ghost r = row.deep_view();
    rows.push(row);
    assert(rows.deep_view() =~= before.push(r));
}

/// A named table: its columns and its rows.
#[derive(Debug)]
pub struct Table {
    pub name: String,
    pub columns: Vec<Column>,
    pub rows: Vec<Vec<Value>>,
}

} // verus!
