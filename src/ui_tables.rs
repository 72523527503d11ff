//! The tables that drive the installer's user interface: the order of the
//! standard actions, and a six-dialog wizard (welcome, uninstall, cancel,
//! progress, exit, fatal error) whose dialogs are states and whose control
//! events are the transitions between them.  Their content is fixed.
use vstd::prelude::*;
use crate::table::{push_row, str_value, Category, Cell, Column, ColumnType, ColumnView, Table, Value};

verus! {

/// The columns of the InstallExecuteSequence and InstallUISequence tables.
pub open spec fn sequence_columns() -> Seq<ColumnView> {
    seq![
        ColumnView::of("Action"@, ColumnType::Str(72)).primary_key().category(Category::Identifier),
        ColumnView::of("Condition"@, ColumnType::Str(255)).nullable().category(Category::Condition),
        ColumnView::of("Sequence"@, ColumnType::Int16).nullable().range(-4i32, 0x7fff),
    ]
}

fn sequence_table_columns() -> (r: Vec<Column>)
    ensures
        r.deep_view() == sequence_columns(),
{
    let columns = vec![
        Column::build("Action").primary_key().id_string(72),
        Column::build("Condition").nullable().category(Category::Condition).string(255),
        Column::build("Sequence").nullable().range(-4i32, 0x7fff).int16(),
    ];
    assert(columns.deep_view() =~= sequence_columns());
    columns
}

/// A sequence-table row: `action` runs at `sequence` when `condition` holds
/// (always, when it is null).
pub open spec fn action(name: Seq<char>, condition: Cell, sequence: int) -> Seq<Cell> {
    seq![Cell::Str(name), condition, Cell::Int(sequence)]
}

fn action_row(name: &str, condition: Value, sequence: i32) -> (r: Vec<Value>)
    ensures
        r.deep_view() == action(name@, condition@, sequence as int),
{
    let r = vec![str_value(name), condition, Value::Int(sequence)];
    assert(r.deep_view() =~= action(name@, condition@, sequence as int));
    r
}

/// The sequence number of a sequence-table row.
pub open spec fn sequence_of(row: Seq<Cell>) -> int {
    match row[2] {
        Cell::Int(n) => n,
        _ => 0,
    }
}

/// Whether the rows' sequence numbers strictly increase in row order.
pub open spec fn strictly_ordered(rows: Seq<Seq<Cell>>) -> bool {
    forall|a: int, b: int| 0 <= a < b < rows.len() ==> sequence_of(#[trigger] rows[a]) < sequence_of(#[trigger] rows[b])
}

proof fn lemma_adjacent_ordered(rows: Seq<Seq<Cell>>)
    requires
        forall|a: int| 0 <= a < rows.len() - 1 ==> sequence_of(#[trigger] rows[a]) < sequence_of(rows[a + 1]),
    ensures
        strictly_ordered(rows),
    decreases rows.len(),
{
    if rows.len() > 0 {
        let d = rows.drop_last();
        assert forall|a: int| 0 <= a < d.len() - 1 implies sequence_of(#[trigger] d[a]) < sequence_of(d[a + 1]) by {
            assert(d[a] == rows[a] && d[a + 1] == rows[a + 1]);
        }
        lemma_adjacent_ordered(d);
        assert forall|a: int, b: int| 0 <= a < b < rows.len() implies sequence_of(#[trigger] rows[a])
            < sequence_of(#[trigger] rows[b]) by {
            if b < rows.len() - 1 {
                assert(d[a] == rows[a] && d[b] == rows[b]);
            } else if a < b - 1 {
                assert(d[a] == rows[a] && d[b - 1] == rows[b - 1]);
                assert(sequence_of(d[a]) < sequence_of(d[b - 1]));
            }
        }
    }
}

/// Row `k` of the InstallExecuteSequence table.
pub open spec fn execute_action(k: int) -> Seq<Cell> {
    if k == 0 {
        action("ValidateProductID"@, Cell::Null, 700)
    } else if k == 1 {
        action("CostInitialize"@, Cell::Null, 800)
    } else if k == 2 {
        action("FileCost"@, Cell::Null, 900)
    } else if k == 3 {
        action("CostFinalize"@, Cell::Null, 1000)
    } else if k == 4 {
        action("SetODBCFolders"@, Cell::Null, 1100)
    } else if k == 5 {
        action("InstallValidate"@, Cell::Null, 1400)
    } else if k == 6 {
        action("InstallInitialize"@, Cell::Null, 1500)
    } else if k == 7 {
        action("AllocateRegistrySpace"@, Cell::Str("NOT Installed"@), 1550)
    } else if k == 8 {
        action("ProcessComponents"@, Cell::Null, 1600)
    } else if k == 9 {
        action("UnpublishComponents"@, Cell::Null, 1700)
    } else if k == 10 {
        action("UnpublishFeatures"@, Cell::Null, 1800)
    } else if k == 11 {
        action("UnregisterComPlus"@, Cell::Null, 2100)
    } else if k == 12 {
        action("RemoveFiles"@, Cell::Null, 3500)
    } else if k == 13 {
        action("RemoveFolders"@, Cell::Null, 3600)
    } else if k == 14 {
        action("CreateFolders"@, Cell::Null, 3700)
    } else if k == 15 {
        action("MoveFiles"@, Cell::Null, 3800)
    } else if k == 16 {
        action("InstallFiles"@, Cell::Null, 4000)
    } else if k == 17 {
        action("RegisterComPlus"@, Cell::Null, 5700)
    } else if k == 18 {
        action("RegisterUser"@, Cell::Null, 6000)
    } else if k == 19 {
        action("RegisterProduct"@, Cell::Null, 6100)
    } else if k == 20 {
        action("PublishComponents"@, Cell::Null, 6200)
    } else if k == 21 {
        action("PublishFeatures"@, Cell::Null, 6300)
    } else if k == 22 {
        action("PublishProduct"@, Cell::Null, 6400)
    } else {
        action("InstallFinalize"@, Cell::Null, 6600)
    }
}

/// The rows of the InstallExecuteSequence table.
pub open spec fn execute_sequence_rows() -> Seq<Seq<Cell>> {
    Seq::new(24, |k: int| execute_action(k))
}

/// Creates the InstallExecuteSequence table: validate, cost, install the
/// files, register, finalize.
pub fn create_install_execute_sequence_table() -> (r: Table)
    ensures
        r.name@ == "InstallExecuteSequence"@,
        r.columns.deep_view() == sequence_columns(),
        r.rows.deep_view() == execute_sequence_rows(),
{
    let mut rows: Vec<Vec<Value>> = Vec::new();
    push_row(&mut rows, action_row("ValidateProductID", Value::Null, 700));
    assert(rows.deep_view() =~= Seq::new(1, |i: int| execute_action(i)));
    push_row(&mut rows, action_row("CostInitialize", Value::Null, 800));
    assert(rows.deep_view() =~= Seq::new(2, |i: int| execute_action(i)));
    push_row(&mut rows, action_row("FileCost", Value::Null, 900));
    assert(rows.deep_view() =~= Seq::new(3, |i: int| execute_action(i)));
    push_row(&mut rows, action_row("CostFinalize", Value::Null, 1000));
    assert(rows.deep_view() =~= Seq::new(4, |i: int| execute_action(i)));
    push_row(&mut rows, action_row("SetODBCFolders", Value::Null, 1100));
    assert(rows.deep_view() =~= Seq::new(5, |i: int| execute_action(i)));
    push_row(&mut rows, action_row("InstallValidate", Value::Null, 1400));
    assert(rows.deep_view() =~= Seq::new(6, |i: int| execute_action(i)));
    push_row(&mut rows, action_row("InstallInitialize", Value::Null, 1500));
    assert(rows.deep_view() =~= Seq::new(7, |i: int| execute_action(i)));
    push_row(&mut rows, action_row("AllocateRegistrySpace", str_value("NOT Installed"), 1550));
    assert(rows.deep_view() =~= Seq::new(8, |i: int| execute_action(i)));
    push_row(&mut rows, action_row("ProcessComponents", Value::Null, 1600));
    assert(rows.deep_view() =~= Seq::new(9, |i: int| execute_action(i)));
    push_row(&mut rows, action_row("UnpublishComponents", Value::Null, 1700));
    assert(rows.deep_view() =~= Seq::new(10, |i: int| execute_action(i)));
    push_row(&mut rows, action_row("UnpublishFeatures", Value::Null, 1800));
    assert(rows.deep_view() =~= Seq::new(11, |i: int| execute_action(i)));
    push_row(&mut rows, action_row("UnregisterComPlus", Value::Null, 2100));
    assert(rows.deep_view() =~= Seq::new(12, |i: int| execute_action(i)));
    push_row(&mut rows, action_row("RemoveFiles", Value::Null, 3500));
    assert(rows.deep_view() =~= Seq::new(13, |i: int| execute_action(i)));
    push_row(&mut rows, action_row("RemoveFolders", Value::Null, 3600));
    assert(rows.deep_view() =~= Seq::new(14, |i: int| execute_action(i)));
    push_row(&mut rows, action_row("CreateFolders", Value::Null, 3700));
    assert(rows.deep_view() =~= Seq::new(15, |i: int| execute_action(i)));
    push_row(&mut rows, action_row("MoveFiles", Value::Null, 3800));
    assert(rows.deep_view() =~= Seq::new(16, |i: int| execute_action(i)));
    push_row(&mut rows, action_row("InstallFiles", Value::Null, 4000));
    assert(rows.deep_view() =~= Seq::new(17, |i: int| execute_action(i)));
    push_row(&mut rows, action_row("RegisterComPlus", Value::Null, 5700));
    assert(rows.deep_view() =~= Seq::new(18, |i: int| execute_action(i)));
    push_row(&mut rows, action_row("RegisterUser", Value::Null, 6000));
    assert(rows.deep_view() =~= Seq::new(19, |i: int| execute_action(i)));
    push_row(&mut rows, action_row("RegisterProduct", Value::Null, 6100));
    assert(rows.deep_view() =~= Seq::new(20, |i: int| execute_action(i)));
    push_row(&mut rows, action_row("PublishComponents", Value::Null, 6200));
    assert(rows.deep_view() =~= Seq::new(21, |i: int| execute_action(i)));
    push_row(&mut rows, action_row("PublishFeatures", Value::Null, 6300));
    assert(rows.deep_view() =~= Seq::new(22, |i: int| execute_action(i)));
    push_row(&mut rows, action_row("PublishProduct", Value::Null, 6400));
    assert(rows.deep_view() =~= Seq::new(23, |i: int| execute_action(i)));
    push_row(&mut rows, action_row("InstallFinalize", Value::Null, 6600));
    assert(rows.deep_view() =~= Seq::new(24, |i: int| execute_action(i)));
    Table { name: String::from_str("InstallExecuteSequence"), columns: sequence_table_columns(), rows }
}

/// The actions of InstallExecuteSequence run in row order: sequence numbers strictly
/// increase down the table.
pub proof fn lemma_execute_sequence_rows_ordered()
    ensures
        strictly_ordered(execute_sequence_rows()),
{
    let rows = execute_sequence_rows();
    assert forall|a: int| 0 <= a < rows.len() - 1 implies sequence_of(#[trigger] rows[a]) < sequence_of(rows[a + 1]) by {
        if a == 0 {
            assert(sequence_of(rows[0]) == 700 && sequence_of(rows[1]) == 800);
        } else if a == 1 {
            assert(sequence_of(rows[1]) == 800 && sequence_of(rows[2]) == 900);
        } else if a == 2 {
            assert(sequence_of(rows[2]) == 900 && sequence_of(rows[3]) == 1000);
        } else if a == 3 {
            assert(sequence_of(rows[3]) == 1000 && sequence_of(rows[4]) == 1100);
        } else if a == 4 {
            assert(sequence_of(rows[4]) == 1100 && sequence_of(rows[5]) == 1400);
        } else if a == 5 {
            assert(sequence_of(rows[5]) == 1400 && sequence_of(rows[6]) == 1500);
        } else if a == 6 {
            assert(sequence_of(rows[6]) == 1500 && sequence_of(rows[7]) == 1550);
        } else if a == 7 {
            assert(sequence_of(rows[7]) == 1550 && sequence_of(rows[8]) == 1600);
        } else if a == 8 {
            assert(sequence_of(rows[8]) == 1600 && sequence_of(rows[9]) == 1700);
        } else if a == 9 {
            assert(sequence_of(rows[9]) == 1700 && sequence_of(rows[10]) == 1800);
        } else if a == 10 {
            assert(sequence_of(rows[10]) == 1800 && sequence_of(rows[11]) == 2100);
        } else if a == 11 {
            assert(sequence_of(rows[11]) == 2100 && sequence_of(rows[12]) == 3500);
        } else if a == 12 {
            assert(sequence_of(rows[12]) == 3500 && sequence_of(rows[13]) == 3600);
        } else if a == 13 {
            assert(sequence_of(rows[13]) == 3600 && sequence_of(rows[14]) == 3700);
        } else if a == 14 {
            assert(sequence_of(rows[14]) == 3700 && sequence_of(rows[15]) == 3800);
        } else if a == 15 {
            assert(sequence_of(rows[15]) == 3800 && sequence_of(rows[16]) == 4000);
        } else if a == 16 {
            assert(sequence_of(rows[16]) == 4000 && sequence_of(rows[17]) == 5700);
        } else if a == 17 {
            assert(sequence_of(rows[17]) == 5700 && sequence_of(rows[18]) == 6000);
        } else if a == 18 {
            assert(sequence_of(rows[18]) == 6000 && sequence_of(rows[19]) == 6100);
        } else if a == 19 {
            assert(sequence_of(rows[19]) == 6100 && sequence_of(rows[20]) == 6200);
        } else if a == 20 {
            assert(sequence_of(rows[20]) == 6200 && sequence_of(rows[21]) == 6300);
        } else if a == 21 {
            assert(sequence_of(rows[21]) == 6300 && sequence_of(rows[22]) == 6400);
        } else if a == 22 {
            assert(sequence_of(rows[22]) == 6400 && sequence_of(rows[23]) == 6600);
        }
    }
    lemma_adjacent_ordered(rows);
}

/// Row `k` of the InstallUISequence table.
pub open spec fn ui_action(k: int) -> Seq<Cell> {
    if k == 0 {
        action("FatalErrorDialog"@, Cell::Null, -3)
    } else if k == 1 {
        action("ExitDialog"@, Cell::Null, -1)
    } else if k == 2 {
        action("CostInitialize"@, Cell::Null, 800)
    } else if k == 3 {
        action("FileCost"@, Cell::Null, 900)
    } else if k == 4 {
        action("CostFinalize"@, Cell::Null, 1000)
    } else if k == 5 {
        action("WelcomeDialog"@, Cell::Str("NOT Installed"@), 1230)
    } else if k == 6 {
        action("RemoveDialog"@, Cell::Str("Installed"@), 1240)
    } else if k == 7 {
        action("ProgressDialog"@, Cell::Null, 1280)
    } else {
        action("ExecuteAction"@, Cell::Null, 1300)
    }
}

/// The rows of the InstallUISequence table.
pub open spec fn ui_sequence_rows() -> Seq<Seq<Cell>> {
    Seq::new(9, |k: int| ui_action(k))
}

/// Creates the InstallUISequence table: the terminal dialogs, costing, the
/// welcome or uninstall dialog, then progress while the actions execute.
pub fn create_install_ui_sequence_table() -> (r: Table)
    ensures
        r.name@ == "InstallUISequence"@,
        r.columns.deep_view() == sequence_columns(),
        r.rows.deep_view() == ui_sequence_rows(),
{
    let mut rows: Vec<Vec<Value>> = Vec::new();
    push_row(&mut rows, action_row("FatalErrorDialog", Value::Null, -3));
    assert(rows.deep_view() =~= Seq::new(1, |i: int| ui_action(i)));
    push_row(&mut rows, action_row("ExitDialog", Value::Null, -1));
    assert(rows.deep_view() =~= Seq::new(2, |i: int| ui_action(i)));
    push_row(&mut rows, action_row("CostInitialize", Value::Null, 800));
    assert(rows.deep_view() =~= Seq::new(3, |i: int| ui_action(i)));
    push_row(&mut rows, action_row("FileCost", Value::Null, 900));
    assert(rows.deep_view() =~= Seq::new(4, |i: int| ui_action(i)));
    push_row(&mut rows, action_row("CostFinalize", Value::Null, 1000));
    assert(rows.deep_view() =~= Seq::new(5, |i: int| ui_action(i)));
    push_row(&mut rows, action_row("WelcomeDialog", str_value("NOT Installed"), 1230));
    assert(rows.deep_view() =~= Seq::new(6, |i: int| ui_action(i)));
    push_row(&mut rows, action_row("RemoveDialog", str_value("Installed"), 1240));
    assert(rows.deep_view() =~= Seq::new(7, |i: int| ui_action(i)));
    push_row(&mut rows, action_row("ProgressDialog", Value::Null, 1280));
    assert(rows.deep_view() =~= Seq::new(8, |i: int| ui_action(i)));
    push_row(&mut rows, action_row("ExecuteAction", Value::Null, 1300));
    assert(rows.deep_view() =~= Seq::new(9, |i: int| ui_action(i)));
    Table { name: String::from_str("InstallUISequence"), columns: sequence_table_columns(), rows }
}

/// The actions of InstallUISequence run in row order: sequence numbers strictly
/// increase down the table.
pub proof fn lemma_ui_sequence_rows_ordered()
    ensures
        strictly_ordered(ui_sequence_rows()),
{
    let rows = ui_sequence_rows();
    assert forall|a: int| 0 <= a < rows.len() - 1 implies sequence_of(#[trigger] rows[a]) < sequence_of(rows[a + 1]) by {
        if a == 0 {
            assert(sequence_of(rows[0]) == -3 && sequence_of(rows[1]) == -1);
        } else if a == 1 {
            assert(sequence_of(rows[1]) == -1 && sequence_of(rows[2]) == 800);
        } else if a == 2 {
            assert(sequence_of(rows[2]) == 800 && sequence_of(rows[3]) == 900);
        } else if a == 3 {
            assert(sequence_of(rows[3]) == 900 && sequence_of(rows[4]) == 1000);
        } else if a == 4 {
            assert(sequence_of(rows[4]) == 1000 && sequence_of(rows[5]) == 1230);
        } else if a == 5 {
            assert(sequence_of(rows[5]) == 1230 && sequence_of(rows[6]) == 1240);
        } else if a == 6 {
            assert(sequence_of(rows[6]) == 1240 && sequence_of(rows[7]) == 1280);
        } else if a == 7 {
            assert(sequence_of(rows[7]) == 1280 && sequence_of(rows[8]) == 1300);
        }
    }
    lemma_adjacent_ordered(rows);
}

/// The columns of the Dialog table.
pub open spec fn dialog_columns() -> Seq<ColumnView> {
    seq![
        ColumnView::of("Dialog"@, ColumnType::Str(72)).primary_key().category(Category::Identifier),
        ColumnView::of("HCentering"@, ColumnType::Int16).range(0, 100),
        ColumnView::of("VCentering"@, ColumnType::Int16).range(0, 100),
        ColumnView::of("Width"@, ColumnType::Int16).range(0, 0x7fff),
        ColumnView::of("Height"@, ColumnType::Int16).range(0, 0x7fff),
        ColumnView::of("Attributes"@, ColumnType::Int32).nullable().range(-4i32, 0x7fffffff),
        ColumnView::of("Title"@, ColumnType::Str(128)).nullable().category(Category::Formatted),
        ColumnView::of("Control_First"@, ColumnType::Str(50)).category(Category::Identifier),
        ColumnView::of("Control_Default"@, ColumnType::Str(50)).nullable().category(Category::Identifier),
        ColumnView::of("Control_Cancel"@, ColumnType::Str(50)).nullable().category(Category::Identifier),
    ]
}

/// A Dialog row: its name, placement and size, attributes, title, and the
/// controls that get focus first, act as default, and cancel.
pub open spec fn dialog(
    name: Seq<char>,
    h: int,
    v: int,
    width: int,
    height: int,
    attributes: int,
    title: Seq<char>,
    first: Seq<char>,
    default: Seq<char>,
    cancel: Seq<char>,
) -> Seq<Cell> {
    seq![
        Cell::Str(name),
        Cell::Int(h),
        Cell::Int(v),
        Cell::Int(width),
        Cell::Int(height),
        Cell::Int(attributes),
        Cell::Str(title),
        Cell::Str(first),
        Cell::Str(default),
        Cell::Str(cancel),
    ]
}

fn dialog_row(
    name: &str,
    h: i32,
    v: i32,
    width: i32,
    height: i32,
    attributes: i32,
    title: &str,
    first: &str,
    default: &str,
    cancel: &str,
) -> (r: Vec<Value>)
    ensures
        r.deep_view() == dialog(
            name@,
            h as int,
            v as int,
            width as int,
            height as int,
            attributes as int,
            title@,
            first@,
            default@,
            cancel@,
        ),
{
    let r = vec![
        str_value(name),
        Value::Int(h),
        Value::Int(v),
        Value::Int(width),
        Value::Int(height),
        Value::Int(attributes),
        str_value(title),
        str_value(first),
        str_value(default),
        str_value(cancel),
    ];
    assert(r.deep_view() =~= dialog(
        name@,
        h as int,
        v as int,
        width as int,
        height as int,
        attributes as int,
        title@,
        first@,
        default@,
        cancel@,
    ));
    r
}

/// Row `k` of the Dialog table.
pub open spec fn dialog_entry(k: int) -> Seq<Cell> {
    if k == 0 {
        dialog("WelcomeDialog"@, 50, 50, 370, 270, 3, "[ProductName] Setup"@, "WelcomeInstall"@, "WelcomeInstall"@, "WelcomeInstall"@)
    } else if k == 1 {
        dialog("RemoveDialog"@, 50, 50, 370, 270, 3, "[ProductName] Setup"@, "RemoveRemove"@, "RemoveRemove"@, "RemoveRemove"@)
    } else if k == 2 {
        dialog("CancelDialog"@, 50, 10, 260, 85, 3, "[ProductName] Setup"@, "CancelNo"@, "CancelNo"@, "CancelNo"@)
    } else if k == 3 {
        dialog("ProgressDialog"@, 50, 50, 370, 270, 1, "[ProductName] Setup"@, "ProgressCancel"@, "ProgressCancel"@, "ProgressCancel"@)
    } else if k == 4 {
        dialog("ExitDialog"@, 50, 50, 370, 270, 3, "[ProductName] Setup"@, "ExitFinish"@, "ExitFinish"@, "ExitFinish"@)
    } else {
        dialog("FatalErrorDialog"@, 50, 50, 370, 270, 3, "[ProductName] Setup"@, "FatalFinish"@, "FatalFinish"@, "FatalFinish"@)
    }
}

/// The rows of the Dialog table.
pub open spec fn dialog_rows() -> Seq<Seq<Cell>> {
    Seq::new(6, |k: int| dialog_entry(k))
}

/// Creates the Dialog table: the wizard's six dialogs.
pub fn create_dialog_table() -> (r: Table)
    ensures
        r.name@ == "Dialog"@,
        r.columns.deep_view() == dialog_columns(),
        r.rows.deep_view() == dialog_rows(),
{
    let columns = vec![
        Column::build("Dialog").primary_key().id_string(72),
        Column::build("HCentering").range(0, 100).int16(),
        Column::build("VCentering").range(0, 100).int16(),
        Column::build("Width").range(0, 0x7fff).int16(),
        Column::build("Height").range(0, 0x7fff).int16(),
        Column::build("Attributes").nullable().range(-4, 0x7fffffff).int32(),
        Column::build("Title").nullable().category(Category::Formatted).string(128),
        Column::build("Control_First").category(Category::Identifier).string(50),
        Column::build("Control_Default").nullable().category(Category::Identifier).string(50),
        Column::build("Control_Cancel").nullable().category(Category::Identifier).string(50),
    ];
    assert(columns.deep_view() =~= dialog_columns());
    let mut rows: Vec<Vec<Value>> = Vec::new();
    push_row(&mut rows, dialog_row("WelcomeDialog", 50, 50, 370, 270, 3, "[ProductName] Setup", "WelcomeInstall", "WelcomeInstall", "WelcomeInstall"));
    assert(rows.deep_view() =~= Seq::new(1, |i: int| dialog_entry(i)));
    push_row(&mut rows, dialog_row("RemoveDialog", 50, 50, 370, 270, 3, "[ProductName] Setup", "RemoveRemove", "RemoveRemove", "RemoveRemove"));
    assert(rows.deep_view() =~= Seq::new(2, |i: int| dialog_entry(i)));
    push_row(&mut rows, dialog_row("CancelDialog", 50, 10, 260, 85, 3, "[ProductName] Setup", "CancelNo", "CancelNo", "CancelNo"));
    assert(rows.deep_view() =~= Seq::new(3, |i: int| dialog_entry(i)));
    push_row(&mut rows, dialog_row("ProgressDialog", 50, 50, 370, 270, 1, "[ProductName] Setup", "ProgressCancel", "ProgressCancel", "ProgressCancel"));
    assert(rows.deep_view() =~= Seq::new(4, |i: int| dialog_entry(i)));
    push_row(&mut rows, dialog_row("ExitDialog", 50, 50, 370, 270, 3, "[ProductName] Setup", "ExitFinish", "ExitFinish", "ExitFinish"));
    assert(rows.deep_view() =~= Seq::new(5, |i: int| dialog_entry(i)));
    push_row(&mut rows, dialog_row("FatalErrorDialog", 50, 50, 370, 270, 3, "[ProductName] Setup", "FatalFinish", "FatalFinish", "FatalFinish"));
    assert(rows.deep_view() =~= Seq::new(6, |i: int| dialog_entry(i)));
    Table { name: String::from_str("Dialog"), columns, rows }
}

/// The columns of the Control table.
pub open spec fn control_columns() -> Seq<ColumnView> {
    seq![
        ColumnView::of("Dialog_"@, ColumnType::Str(72)).category(Category::Identifier),
        ColumnView::of("Control"@, ColumnType::Str(50)).primary_key().category(Category::Identifier),
        ColumnView::of("Type"@, ColumnType::Str(20)).category(Category::Identifier),
        ColumnView::of("X"@, ColumnType::Int16).range(0, 0x7fff),
        ColumnView::of("Y"@, ColumnType::Int16).range(0, 0x7fff),
        ColumnView::of("Width"@, ColumnType::Int16).range(0, 0x7fff),
        ColumnView::of("Height"@, ColumnType::Int16).range(0, 0x7fff),
        ColumnView::of("Attributes"@, ColumnType::Int32).nullable().range(-4i32, 0x7fffffff),
        ColumnView::of("Property"@, ColumnType::Str(50)).nullable().category(Category::Identifier),
        ColumnView::of("Text"@, ColumnType::Str(0)).nullable().category(Category::Formatted),
        ColumnView::of("Control_Next"@, ColumnType::Str(50)).nullable().category(Category::Identifier),
        ColumnView::of("Help"@, ColumnType::Str(50)).nullable().category(Category::Text),
    ]
}

/// A Control row: the dialog it sits on, its name and type, placement and
/// size, attributes, text, and the control that follows it in tab order.
/// No control here binds a property or carries help text.
pub open spec fn control(
    dialog: Seq<char>,
    name: Seq<char>,
    kind: Seq<char>,
    x: int,
    y: int,
    width: int,
    height: int,
    attributes: int,
    text: Cell,
    next: Cell,
) -> Seq<Cell> {
    seq![
        Cell::Str(dialog),
        Cell::Str(name),
        Cell::Str(kind),
        Cell::Int(x),
        Cell::Int(y),
        Cell::Int(width),
        Cell::Int(height),
        Cell::Int(attributes),
        Cell::Null,
        text,
        next,
        Cell::Null,
    ]
}

fn control_row(
    dialog: &str,
    name: &str,
    kind: &str,
    x: i32,
    y: i32,
    width: i32,
    height: i32,
    attributes: i32,
    text: Value,
    next: Value,
) -> (r: Vec<Value>)
    ensures
        r.deep_view() == control(
            dialog@,
            name@,
            kind@,
            x as int,
            y as int,
            width as int,
            height as int,
            attributes as int,
            text@,
            next@,
        ),
{
    let r = vec![
        str_value(dialog),
        str_value(name),
        str_value(kind),
        Value::Int(x),
        Value::Int(y),
        Value::Int(width),
        Value::Int(height),
        Value::Int(attributes),
        Value::Null,
        text,
        next,
        Value::Null,
    ];
    assert(r.deep_view() =~= control(
        dialog@,
        name@,
        kind@,
        x as int,
        y as int,
        width as int,
        height as int,
        attributes as int,
        text@,
        next@,
    ));
    r
}

/// Row `k` of the Control table.
pub open spec fn control_entry(k: int) -> Seq<Cell> {
    if k == 0 {
        control("WelcomeDialog"@, "WelcomeDescription"@, "Text"@, 135, 70, 220, 50, 196611, Cell::Str("{\\DefaultFont}This will install [ProductName] on your computer. Click Install to continue or Cancel to exit the installer."@), Cell::Null)
    } else if k == 1 {
        control("WelcomeDialog"@, "WelcomeTitle"@, "Text"@, 135, 20, 220, 60, 196611, Cell::Str("{\\TitleFont}Welcome to the [ProductName] setup wizard"@), Cell::Null)
    } else if k == 2 {
        control("WelcomeDialog"@, "WelcomeCancel"@, "PushButton"@, 304, 243, 56, 17, 3, Cell::Str("Cancel"@), Cell::Null)
    } else if k == 3 {
        control("WelcomeDialog"@, "WelcomeBack"@, "PushButton"@, 180, 243, 56, 17, 1, Cell::Str("Back"@), Cell::Str("WelcomeInstall"@))
    } else if k == 4 {
        control("WelcomeDialog"@, "WelcomeBottomLine"@, "Line"@, 0, 234, 374, 0, 1, Cell::Null, Cell::Null)
    } else if k == 5 {
        control("WelcomeDialog"@, "WelcomeInstall"@, "PushButton"@, 236, 243, 56, 17, 3, Cell::Str("Install"@), Cell::Str("WelcomeCancel"@))
    } else if k == 6 {
        control("RemoveDialog"@, "RemoveDescription"@, "Text"@, 135, 70, 220, 50, 196611, Cell::Str("This will remove [ProductName] from your computer. Click Remove to continue or Cancel to exit the uninstaller."@), Cell::Null)
    } else if k == 7 {
        control("RemoveDialog"@, "RemoveTitle"@, "Text"@, 135, 20, 220, 60, 196611, Cell::Str("{\\TitleFont}Uninstall [ProductName]"@), Cell::Null)
    } else if k == 8 {
        control("RemoveDialog"@, "RemoveCancel"@, "PushButton"@, 304, 243, 56, 17, 3, Cell::Str("Cancel"@), Cell::Null)
    } else if k == 9 {
        control("RemoveDialog"@, "RemoveBack"@, "PushButton"@, 180, 243, 56, 17, 1, Cell::Str("Back"@), Cell::Str("RemoveRemove"@))
    } else if k == 10 {
        control("RemoveDialog"@, "RemoveBottomLine"@, "Line"@, 0, 234, 374, 0, 1, Cell::Null, Cell::Null)
    } else if k == 11 {
        control("RemoveDialog"@, "RemoveRemove"@, "PushButton"@, 236, 243, 56, 17, 3, Cell::Str("Remove"@), Cell::Str("RemoveCancel"@))
    } else if k == 12 {
        control("CancelDialog"@, "CancelNo"@, "PushButton"@, 132, 57, 56, 17, 3, Cell::Str("Continue"@), Cell::Str("CancelYes"@))
    } else if k == 13 {
        control("CancelDialog"@, "CancelText"@, "Text"@, 48, 15, 194, 30, 3, Cell::Str("Do you want to abort [ProductName] [Text_action]?"@), Cell::Null)
    } else if k == 14 {
        control("CancelDialog"@, "CancelYes"@, "PushButton"@, 72, 57, 56, 17, 3, Cell::Str("Abort"@), Cell::Str("CancelNo"@))
    } else if k == 15 {
        control("ProgressDialog"@, "ProgressTitle"@, "Text"@, 20, 15, 200, 15, 196611, Cell::Str("{\\BoldFont}[Text_Doing] [ProductName]"@), Cell::Null)
    } else if k == 16 {
        control("ProgressDialog"@, "ProgressCancel"@, "PushButton"@, 304, 243, 56, 17, 3, Cell::Str("Cancel"@), Cell::Null)
    } else if k == 17 {
        control("ProgressDialog"@, "ProgressText"@, "Text"@, 35, 65, 300, 25, 3, Cell::Str("Please wait while [ProductName] is [Text_done]. This may take several minutes."@), Cell::Null)
    } else if k == 18 {
        control("ProgressDialog"@, "ProgressActionText"@, "Text"@, 70, 105, 265, 15, 3, Cell::Null, Cell::Null)
    } else if k == 19 {
        control("ProgressDialog"@, "ProgressBack"@, "PushButton"@, 180, 243, 56, 17, 1, Cell::Str("Back"@), Cell::Str("ProgressNext"@))
    } else if k == 20 {
        control("ProgressDialog"@, "ProgressBottomLine"@, "Line"@, 0, 234, 374, 0, 1, Cell::Null, Cell::Str("ProgressNext"@))
    } else if k == 21 {
        control("ProgressDialog"@, "ProgressNext"@, "PushButton"@, 236, 243, 56, 17, 1, Cell::Str("Next"@), Cell::Str("ProgressCancel"@))
    } else if k == 22 {
        control("ProgressDialog"@, "ProgressBannerLine"@, "Line"@, 0, 44, 374, 0, 1, Cell::Null, Cell::Null)
    } else if k == 23 {
        control("ProgressDialog"@, "ProgressProgressBar"@, "ProgressBar"@, 35, 125, 300, 10, 65537, Cell::Str("Progress done"@), Cell::Null)
    } else if k == 24 {
        control("ProgressDialog"@, "ProgressStatusLabel"@, "Text"@, 35, 105, 35, 10, 3, Cell::Str("Status:"@), Cell::Null)
    } else if k == 25 {
        control("ExitDialog"@, "ExitDescription"@, "Text"@, 135, 70, 220, 20, 196611, Cell::Str("Click the Finish button to exit the [Text_agent]."@), Cell::Null)
    } else if k == 26 {
        control("ExitDialog"@, "ExitTitle"@, "Text"@, 135, 20, 220, 60, 196611, Cell::Str("{\\TitleFont}[ProductName] [Text_action] complete"@), Cell::Null)
    } else if k == 27 {
        control("ExitDialog"@, "ExitCancel"@, "PushButton"@, 304, 243, 56, 17, 1, Cell::Str("Cancel"@), Cell::Null)
    } else if k == 28 {
        control("ExitDialog"@, "ExitBack"@, "PushButton"@, 180, 243, 56, 17, 1, Cell::Str("Back"@), Cell::Str("ExitFinish"@))
    } else if k == 29 {
        control("ExitDialog"@, "ExitBottomLine"@, "Line"@, 0, 234, 374, 0, 1, Cell::Null, Cell::Null)
    } else if k == 30 {
        control("ExitDialog"@, "ExitFinish"@, "PushButton"@, 236, 243, 56, 17, 3, Cell::Str("Finish"@), Cell::Str("ExitCancel"@))
    } else if k == 31 {
        control("FatalErrorDialog"@, "FatalTitle"@, "Text"@, 135, 20, 220, 60, 196611, Cell::Str("{\\TitleFont}[ProductName] [Text_agent] ended prematurely"@), Cell::Null)
    } else if k == 32 {
        control("FatalErrorDialog"@, "FatalCancel"@, "PushButton"@, 304, 243, 56, 17, 1, Cell::Str("Cancel"@), Cell::Null)
    } else if k == 33 {
        control("FatalErrorDialog"@, "FatalBack"@, "PushButton"@, 180, 243, 56, 17, 1, Cell::Str("Back"@), Cell::Str("FatalFinish"@))
    } else if k == 34 {
        control("FatalErrorDialog"@, "FatalBottomLine"@, "Line"@, 0, 234, 374, 0, 1, Cell::Null, Cell::Null)
    } else if k == 35 {
        control("FatalErrorDialog"@, "FatalFinish"@, "PushButton"@, 236, 243, 56, 17, 3, Cell::Str("Finish"@), Cell::Str("FatalCancel"@))
    } else if k == 36 {
        control("FatalErrorDialog"@, "FatalDescription1"@, "Text"@, 135, 70, 220, 40, 196611, Cell::Str("[ProductName] [Text_action] ended because of an error. The program has not been installed. This installer can be run again at a later time."@), Cell::Null)
    } else {
        control("FatalErrorDialog"@, "FatalDescription2"@, "Text"@, 135, 115, 220, 20, 196611, Cell::Str("Click the Finish button to exit the [Text_agent]."@), Cell::Null)
    }
}

/// The rows of the Control table.
pub open spec fn control_rows() -> Seq<Seq<Cell>> {
    Seq::new(38, |k: int| control_entry(k))
}

/// Creates the Control table: the texts, buttons, lines and progress bar of
/// every dialog.
pub fn create_control_table() -> (r: Table)
    ensures
        r.name@ == "Control"@,
        r.columns.deep_view() == control_columns(),
        r.rows.deep_view() == control_rows(),
{
    let columns = vec![
        Column::build("Dialog_").id_string(72),
        Column::build("Control").primary_key().category(Category::Identifier).string(50),
        Column::build("Type").category(Category::Identifier).string(20),
        Column::build("X").range(0, 0x7fff).int16(),
        Column::build("Y").range(0, 0x7fff).int16(),
        Column::build("Width").range(0, 0x7fff).int16(),
        Column::build("Height").range(0, 0x7fff).int16(),
        Column::build("Attributes").nullable().range(-4, 0x7fffffff).int32(),
        Column::build("Property").nullable().category(Category::Identifier).string(50),
        Column::build("Text").nullable().category(Category::Formatted).string(0),
        Column::build("Control_Next").nullable().category(Category::Identifier).string(50),
        Column::build("Help").nullable().category(Category::Text).string(50),
    ];
    assert(columns.deep_view() =~= control_columns());
    let mut rows: Vec<Vec<Value>> = Vec::new();
    push_row(&mut rows, control_row("WelcomeDialog", "WelcomeDescription", "Text", 135, 70, 220, 50, 196611, str_value("{\\DefaultFont}This will install [ProductName] on your computer. Click Install to continue or Cancel to exit the installer."), Value::Null));
    assert(rows.deep_view() =~= Seq::new(1, |i: int| control_entry(i)));
    push_row(&mut rows, control_row("WelcomeDialog", "WelcomeTitle", "Text", 135, 20, 220, 60, 196611, str_value("{\\TitleFont}Welcome to the [ProductName] setup wizard"), Value::Null));
    assert(rows.deep_view() =~= Seq::new(2, |i: int| control_entry(i)));
    push_row(&mut rows, control_row("WelcomeDialog", "WelcomeCancel", "PushButton", 304, 243, 56, 17, 3, str_value("Cancel"), Value::Null));
    assert(rows.deep_view() =~= Seq::new(3, |i: int| control_entry(i)));
    push_row(&mut rows, control_row("WelcomeDialog", "WelcomeBack", "PushButton", 180, 243, 56, 17, 1, str_value("Back"), str_value("WelcomeInstall")));
    assert(rows.deep_view() =~= Seq::new(4, |i: int| control_entry(i)));
    push_row(&mut rows, control_row("WelcomeDialog", "WelcomeBottomLine", "Line", 0, 234, 374, 0, 1, Value::Null, Value::Null));
    assert(rows.deep_view() =~= Seq::new(5, |i: int| control_entry(i)));
    push_row(&mut rows, control_row("WelcomeDialog", "WelcomeInstall", "PushButton", 236, 243, 56, 17, 3, str_value("Install"), str_value("WelcomeCancel")));
    assert(rows.deep_view() =~= Seq::new(6, |i: int| control_entry(i)));
    push_row(&mut rows, control_row("RemoveDialog", "RemoveDescription", "Text", 135, 70, 220, 50, 196611, str_value("This will remove [ProductName] from your computer. Click Remove to continue or Cancel to exit the uninstaller."), Value::Null));
    assert(rows.deep_view() =~= Seq::new(7, |i: int| control_entry(i)));
    push_row(&mut rows, control_row("RemoveDialog", "RemoveTitle", "Text", 135, 20, 220, 60, 196611, str_value("{\\TitleFont}Uninstall [ProductName]"), Value::Null));
    assert(rows.deep_view() =~= Seq::new(8, |i: int| control_entry(i)));
    push_row(&mut rows, control_row("RemoveDialog", "RemoveCancel", "PushButton", 304, 243, 56, 17, 3, str_value("Cancel"), Value::Null));
    assert(rows.deep_view() =~= Seq::new(9, |i: int| control_entry(i)));
    push_row(&mut rows, control_row("RemoveDialog", "RemoveBack", "PushButton", 180, 243, 56, 17, 1, str_value("Back"), str_value("RemoveRemove")));
    assert(rows.deep_view() =~= Seq::new(10, |i: int| control_entry(i)));
    push_row(&mut rows, control_row("RemoveDialog", "RemoveBottomLine", "Line", 0, 234, 374, 0, 1, Value::Null, Value::Null));
    assert(rows.deep_view() =~= Seq::new(11, |i: int| control_entry(i)));
    push_row(&mut rows, control_row("RemoveDialog", "RemoveRemove", "PushButton", 236, 243, 56, 17, 3, str_value("Remove"), str_value("RemoveCancel")));
    assert(rows.deep_view() =~= Seq::new(12, |i: int| control_entry(i)));
    push_row(&mut rows, control_row("CancelDialog", "CancelNo", "PushButton", 132, 57, 56, 17, 3, str_value("Continue"), str_value("CancelYes")));
    assert(rows.deep_view() =~= Seq::new(13, |i: int| control_entry(i)));
    push_row(&mut rows, control_row("CancelDialog", "CancelText", "Text", 48, 15, 194, 30, 3, str_value("Do you want to abort [ProductName] [Text_action]?"), Value::Null));
    assert(rows.deep_view() =~= Seq::new(14, |i: int| control_entry(i)));
    push_row(&mut rows, control_row("CancelDialog", "CancelYes", "PushButton", 72, 57, 56, 17, 3, str_value("Abort"), str_value("CancelNo")));
    assert(rows.deep_view() =~= Seq::new(15, |i: int| control_entry(i)));
    push_row(&mut rows, control_row("ProgressDialog", "ProgressTitle", "Text", 20, 15, 200, 15, 196611, str_value("{\\BoldFont}[Text_Doing] [ProductName]"), Value::Null));
    assert(rows.deep_view() =~= Seq::new(16, |i: int| control_entry(i)));
    push_row(&mut rows, control_row("ProgressDialog", "ProgressCancel", "PushButton", 304, 243, 56, 17, 3, str_value("Cancel"), Value::Null));
    assert(rows.deep_view() =~= Seq::new(17, |i: int| control_entry(i)));
    push_row(&mut rows, control_row("ProgressDialog", "ProgressText", "Text", 35, 65, 300, 25, 3, str_value("Please wait while [ProductName] is [Text_done]. This may take several minutes."), Value::Null));
    assert(rows.deep_view() =~= Seq::new(18, |i: int| control_entry(i)));
    push_row(&mut rows, control_row("ProgressDialog", "ProgressActionText", "Text", 70, 105, 265, 15, 3, Value::Null, Value::Null));
    assert(rows.deep_view() =~= Seq::new(19, |i: int| control_entry(i)));
    push_row(&mut rows, control_row("ProgressDialog", "ProgressBack", "PushButton", 180, 243, 56, 17, 1, str_value("Back"), str_value("ProgressNext")));
    assert(rows.deep_view() =~= Seq::new(20, |i: int| control_entry(i)));
    push_row(&mut rows, control_row("ProgressDialog", "ProgressBottomLine", "Line", 0, 234, 374, 0, 1, Value::Null, str_value("ProgressNext")));
    assert(rows.deep_view() =~= Seq::new(21, |i: int| control_entry(i)));
    push_row(&mut rows, control_row("ProgressDialog", "ProgressNext", "PushButton", 236, 243, 56, 17, 1, str_value("Next"), str_value("ProgressCancel")));
    assert(rows.deep_view() =~= Seq::new(22, |i: int| control_entry(i)));
    push_row(&mut rows, control_row("ProgressDialog", "ProgressBannerLine", "Line", 0, 44, 374, 0, 1, Value::Null, Value::Null));
    assert(rows.deep_view() =~= Seq::new(23, |i: int| control_entry(i)));
    push_row(&mut rows, control_row("ProgressDialog", "ProgressProgressBar", "ProgressBar", 35, 125, 300, 10, 65537, str_value("Progress done"), Value::Null));
    assert(rows.deep_view() =~= Seq::new(24, |i: int| control_entry(i)));
    push_row(&mut rows, control_row("ProgressDialog", "ProgressStatusLabel", "Text", 35, 105, 35, 10, 3, str_value("Status:"), Value::Null));
    assert(rows.deep_view() =~= Seq::new(25, |i: int| control_entry(i)));
    push_row(&mut rows, control_row("ExitDialog", "ExitDescription", "Text", 135, 70, 220, 20, 196611, str_value("Click the Finish button to exit the [Text_agent]."), Value::Null));
    assert(rows.deep_view() =~= Seq::new(26, |i: int| control_entry(i)));
    push_row(&mut rows, control_row("ExitDialog", "ExitTitle", "Text", 135, 20, 220, 60, 196611, str_value("{\\TitleFont}[ProductName] [Text_action] complete"), Value::Null));
    assert(rows.deep_view() =~= Seq::new(27, |i: int| control_entry(i)));
    push_row(&mut rows, control_row("ExitDialog", "ExitCancel", "PushButton", 304, 243, 56, 17, 1, str_value("Cancel"), Value::Null));
    assert(rows.deep_view() =~= Seq::new(28, |i: int| control_entry(i)));
    push_row(&mut rows, control_row("ExitDialog", "ExitBack", "PushButton", 180, 243, 56, 17, 1, str_value("Back"), str_value("ExitFinish")));
    assert(rows.deep_view() =~= Seq::new(29, |i: int| control_entry(i)));
    push_row(&mut rows, control_row("ExitDialog", "ExitBottomLine", "Line", 0, 234, 374, 0, 1, Value::Null, Value::Null));
    assert(rows.deep_view() =~= Seq::new(30, |i: int| control_entry(i)));
    push_row(&mut rows, control_row("ExitDialog", "ExitFinish", "PushButton", 236, 243, 56, 17, 3, str_value("Finish"), str_value("ExitCancel")));
    assert(rows.deep_view() =~= Seq::new(31, |i: int| control_entry(i)));
    push_row(&mut rows, control_row("FatalErrorDialog", "FatalTitle", "Text", 135, 20, 220, 60, 196611, str_value("{\\TitleFont}[ProductName] [Text_agent] ended prematurely"), Value::Null));
    assert(rows.deep_view() =~= Seq::new(32, |i: int| control_entry(i)));
    push_row(&mut rows, control_row("FatalErrorDialog", "FatalCancel", "PushButton", 304, 243, 56, 17, 1, str_value("Cancel"), Value::Null));
    assert(rows.deep_view() =~= Seq::new(33, |i: int| control_entry(i)));
    push_row(&mut rows, control_row("FatalErrorDialog", "FatalBack", "PushButton", 180, 243, 56, 17, 1, str_value("Back"), str_value("FatalFinish")));
    assert(rows.deep_view() =~= Seq::new(34, |i: int| control_entry(i)));
    push_row(&mut rows, control_row("FatalErrorDialog", "FatalBottomLine", "Line", 0, 234, 374, 0, 1, Value::Null, Value::Null));
    assert(rows.deep_view() =~= Seq::new(35, |i: int| control_entry(i)));
    push_row(&mut rows, control_row("FatalErrorDialog", "FatalFinish", "PushButton", 236, 243, 56, 17, 3, str_value("Finish"), str_value("FatalCancel")));
    assert(rows.deep_view() =~= Seq::new(36, |i: int| control_entry(i)));
    push_row(&mut rows, control_row("FatalErrorDialog", "FatalDescription1", "Text", 135, 70, 220, 40, 196611, str_value("[ProductName] [Text_action] ended because of an error. The program has not been installed. This installer can be run again at a later time."), Value::Null));
    assert(rows.deep_view() =~= Seq::new(37, |i: int| control_entry(i)));
    push_row(&mut rows, control_row("FatalErrorDialog", "FatalDescription2", "Text", 135, 115, 220, 20, 196611, str_value("Click the Finish button to exit the [Text_agent]."), Value::Null));
    assert(rows.deep_view() =~= Seq::new(38, |i: int| control_entry(i)));
    Table { name: String::from_str("Control"), columns, rows }
}

/// The columns of the ControlEvent table.
pub open spec fn control_event_columns() -> Seq<ColumnView> {
    seq![
        ColumnView::of("Dialog_"@, ColumnType::Str(72)).category(Category::Identifier),
        ColumnView::of("Control_"@, ColumnType::Str(50)).category(Category::Identifier),
        ColumnView::of("Event"@, ColumnType::Str(50)).category(Category::Formatted),
        ColumnView::of("Argument"@, ColumnType::Str(255)).category(Category::Formatted),
        ColumnView::of("Condition"@, ColumnType::Str(255)).nullable().category(Category::Condition),
        ColumnView::of("Ordering"@, ColumnType::Int16).primary_key().nullable().range(0, 0x7fffffff),
    ]
}

/// A ControlEvent row: when `control` of `dialog` is activated, `event`
/// fires with `argument`, always (condition `1`), in the given order.
pub open spec fn control_event(dialog: Seq<char>, control: Seq<char>, event: Seq<char>, argument: Seq<char>, ordering: int) -> Seq<Cell> {
    seq![
        Cell::Str(dialog),
        Cell::Str(control),
        Cell::Str(event),
        Cell::Str(argument),
        Cell::Str("1"@),
        Cell::Int(ordering),
    ]
}

fn control_event_row(dialog: &str, control: &str, event: &str, argument: &str, ordering: i32) -> (r: Vec<Value>)
    ensures
        r.deep_view() == control_event(dialog@, control@, event@, argument@, ordering as int),
{
    let r = vec![
        str_value(dialog),
        str_value(control),
        str_value(event),
        str_value(argument),
        str_value("1"),
        Value::Int(ordering),
    ];
    assert(r.deep_view() =~= control_event(dialog@, control@, event@, argument@, ordering as int));
    r
}

/// Row `k` of the ControlEvent table.
pub open spec fn control_event_entry(k: int) -> Seq<Cell> {
    if k == 0 {
        control_event("WelcomeDialog"@, "WelcomeCancel"@, "SpawnDialog"@, "CancelDialog"@, 0)
    } else if k == 1 {
        control_event("WelcomeDialog"@, "WelcomeInstall"@, "[Mode]"@, "Install"@, 1)
    } else if k == 2 {
        control_event("WelcomeDialog"@, "WelcomeInstall"@, "[Text_action]"@, "installation"@, 2)
    } else if k == 3 {
        control_event("WelcomeDialog"@, "WelcomeInstall"@, "[Text_agent]"@, "installer"@, 3)
    } else if k == 4 {
        control_event("WelcomeDialog"@, "WelcomeInstall"@, "[Text_Doing]"@, "Installing"@, 4)
    } else if k == 5 {
        control_event("WelcomeDialog"@, "WelcomeInstall"@, "[Text_done]"@, "installed"@, 5)
    } else if k == 6 {
        control_event("WelcomeDialog"@, "WelcomeInstall"@, "EndDialog"@, "Return"@, 6)
    } else if k == 7 {
        control_event("RemoveDialog"@, "RemoveCancel"@, "[Text_action]"@, "removal"@, 7)
    } else if k == 8 {
        control_event("RemoveDialog"@, "RemoveCancel"@, "SpawnDialog"@, "CancelDialog"@, 8)
    } else if k == 9 {
        control_event("RemoveDialog"@, "RemoveRemove"@, "[Mode]"@, "Remove"@, 9)
    } else if k == 10 {
        control_event("RemoveDialog"@, "RemoveRemove"@, "[Text_action]"@, "removal"@, 10)
    } else if k == 11 {
        control_event("RemoveDialog"@, "RemoveRemove"@, "[Text_agent]"@, "uninstaller"@, 11)
    } else if k == 12 {
        control_event("RemoveDialog"@, "RemoveRemove"@, "[Text_Doing]"@, "Removing"@, 12)
    } else if k == 13 {
        control_event("RemoveDialog"@, "RemoveRemove"@, "[Text_done]"@, "uninstalled"@, 13)
    } else if k == 14 {
        control_event("RemoveDialog"@, "RemoveRemove"@, "EndDialog"@, "Return"@, 14)
    } else if k == 15 {
        control_event("CancelDialog"@, "CancelNo"@, "EndDialog"@, "Return"@, 15)
    } else if k == 16 {
        control_event("CancelDialog"@, "CancelYes"@, "EndDialog"@, "Exit"@, 16)
    } else if k == 17 {
        control_event("ProgressDialog"@, "ProgressCancel"@, "SpawnDialog"@, "CancelDialog"@, 17)
    } else if k == 18 {
        control_event("ExitDialog"@, "ExitFinish"@, "EndDialog"@, "Return"@, 18)
    } else {
        control_event("FatalErrorDialog"@, "FatalFinish"@, "EndDialog"@, "Exit"@, 19)
    }
}

/// The rows of the ControlEvent table.
pub open spec fn control_event_rows() -> Seq<Seq<Cell>> {
    Seq::new(20, |k: int| control_event_entry(k))
}

/// Creates the ControlEvent table: the wizard's transitions.  Buttons set
/// the texts of the chosen mode, spawn the cancel dialog, or end a dialog
/// with `Return` (go on) or `Exit` (abort).
pub fn create_control_event_table() -> (r: Table)
    ensures
        r.name@ == "ControlEvent"@,
        r.columns.deep_view() == control_event_columns(),
        r.rows.deep_view() == control_event_rows(),
{
    let columns = vec![
        Column::build("Dialog_").id_string(72),
        Column::build("Control_").category(Category::Identifier).string(50),
        Column::build("Event").category(Category::Formatted).string(50),
        Column::build("Argument").category(Category::Formatted).string(255),
        Column::build("Condition").nullable().category(Category::Condition).string(255),
        Column::build("Ordering").primary_key().nullable().range(0, 0x7fffffff).int16(),
    ];
    assert(columns.deep_view() =~= control_event_columns());
    let mut rows: Vec<Vec<Value>> = Vec::new();
    push_row(&mut rows, control_event_row("WelcomeDialog", "WelcomeCancel", "SpawnDialog", "CancelDialog", 0));
    assert(rows.deep_view() =~= Seq::new(1, |i: int| control_event_entry(i)));
    push_row(&mut rows, control_event_row("WelcomeDialog", "WelcomeInstall", "[Mode]", "Install", 1));
    assert(rows.deep_view() =~= Seq::new(2, |i: int| control_event_entry(i)));
    push_row(&mut rows, control_event_row("WelcomeDialog", "WelcomeInstall", "[Text_action]", "installation", 2));
    assert(rows.deep_view() =~= Seq::new(3, |i: int| control_event_entry(i)));
    push_row(&mut rows, control_event_row("WelcomeDialog", "WelcomeInstall", "[Text_agent]", "installer", 3));
    assert(rows.deep_view() =~= Seq::new(4, |i: int| control_event_entry(i)));
    push_row(&mut rows, control_event_row("WelcomeDialog", "WelcomeInstall", "[Text_Doing]", "Installing", 4));
    assert(rows.deep_view() =~= Seq::new(5, |i: int| control_event_entry(i)));
    push_row(&mut rows, control_event_row("WelcomeDialog", "WelcomeInstall", "[Text_done]", "installed", 5));
    assert(rows.deep_view() =~= Seq::new(6, |i: int| control_event_entry(i)));
    push_row(&mut rows, control_event_row("WelcomeDialog", "WelcomeInstall", "EndDialog", "Return", 6));
    assert(rows.deep_view() =~= Seq::new(7, |i: int| control_event_entry(i)));
    push_row(&mut rows, control_event_row("RemoveDialog", "RemoveCancel", "[Text_action]", "removal", 7));
    assert(rows.deep_view() =~= Seq::new(8, |i: int| control_event_entry(i)));
    push_row(&mut rows, control_event_row("RemoveDialog", "RemoveCancel", "SpawnDialog", "CancelDialog", 8));
    assert(rows.deep_view() =~= Seq::new(9, |i: int| control_event_entry(i)));
    push_row(&mut rows, control_event_row("RemoveDialog", "RemoveRemove", "[Mode]", "Remove", 9));
    assert(rows.deep_view() =~= Seq::new(10, |i: int| control_event_entry(i)));
    push_row(&mut rows, control_event_row("RemoveDialog", "RemoveRemove", "[Text_action]", "removal", 10));
    assert(rows.deep_view() =~= Seq::new(11, |i: int| control_event_entry(i)));
    push_row(&mut rows, control_event_row("RemoveDialog", "RemoveRemove", "[Text_agent]", "uninstaller", 11));
    assert(rows.deep_view() =~= Seq::new(12, |i: int| control_event_entry(i)));
    push_row(&mut rows, control_event_row("RemoveDialog", "RemoveRemove", "[Text_Doing]", "Removing", 12));
    assert(rows.deep_view() =~= Seq::new(13, |i: int| control_event_entry(i)));
    push_row(&mut rows, control_event_row("RemoveDialog", "RemoveRemove", "[Text_done]", "uninstalled", 13));
    assert(rows.deep_view() =~= Seq::new(14, |i: int| control_event_entry(i)));
    push_row(&mut rows, control_event_row("RemoveDialog", "RemoveRemove", "EndDialog", "Return", 14));
    assert(rows.deep_view() =~= Seq::new(15, |i: int| control_event_entry(i)));
    push_row(&mut rows, control_event_row("CancelDialog", "CancelNo", "EndDialog", "Return", 15));
    assert(rows.deep_view() =~= Seq::new(16, |i: int| control_event_entry(i)));
    push_row(&mut rows, control_event_row("CancelDialog", "CancelYes", "EndDialog", "Exit", 16));
    assert(rows.deep_view() =~= Seq::new(17, |i: int| control_event_entry(i)));
    push_row(&mut rows, control_event_row("ProgressDialog", "ProgressCancel", "SpawnDialog", "CancelDialog", 17));
    assert(rows.deep_view() =~= Seq::new(18, |i: int| control_event_entry(i)));
    push_row(&mut rows, control_event_row("ExitDialog", "ExitFinish", "EndDialog", "Return", 18));
    assert(rows.deep_view() =~= Seq::new(19, |i: int| control_event_entry(i)));
    push_row(&mut rows, control_event_row("FatalErrorDialog", "FatalFinish", "EndDialog", "Exit", 19));
    assert(rows.deep_view() =~= Seq::new(20, |i: int| control_event_entry(i)));
    Table { name: String::from_str("ControlEvent"), columns, rows }
}

/// The columns of the EventMapping table.
pub open spec fn event_mapping_columns() -> Seq<ColumnView> {
    seq![
        ColumnView::of("Dialog_"@, ColumnType::Str(72)).category(Category::Identifier),
        ColumnView::of("Control_"@, ColumnType::Str(50)).primary_key().category(Category::Identifier),
        ColumnView::of("Event"@, ColumnType::Str(50)).category(Category::Identifier),
        ColumnView::of("Attribute"@, ColumnType::Str(50)).category(Category::Identifier),
    ]
}

/// An EventMapping row: `control` of `dialog` shows `event` through its
/// `attribute`.
pub open spec fn event_mapping(dialog: Seq<char>, control: Seq<char>, event: Seq<char>, attribute: Seq<char>) -> Seq<Cell> {
    seq![Cell::Str(dialog), Cell::Str(control), Cell::Str(event), Cell::Str(attribute)]
}

fn event_mapping_row(dialog: &str, control: &str, event: &str, attribute: &str) -> (r: Vec<Value>)
    ensures
        r.deep_view() == event_mapping(dialog@, control@, event@, attribute@),
{
    let r = vec![str_value(dialog), str_value(control), str_value(event), str_value(attribute)];
    assert(r.deep_view() =~= event_mapping(dialog@, control@, event@, attribute@));
    r
}

/// Row `k` of the EventMapping table.
pub open spec fn event_mapping_entry(k: int) -> Seq<Cell> {
    if k == 0 {
        event_mapping("ProgressDialog"@, "ProgressActionText"@, "ActionText"@, "Text"@)
    } else {
        event_mapping("ProgressDialog"@, "ProgressProgressBar"@, "SetProgress"@, "Progress"@)
    }
}

/// The rows of the EventMapping table.
pub open spec fn event_mapping_rows() -> Seq<Seq<Cell>> {
    Seq::new(2, |k: int| event_mapping_entry(k))
}

/// Creates the EventMapping table: the progress dialog shows the current
/// action's text and the overall progress.
pub fn create_event_mapping_table() -> (r: Table)
    ensures
        r.name@ == "EventMapping"@,
        r.columns.deep_view() == event_mapping_columns(),
        r.rows.deep_view() == event_mapping_rows(),
{
    let columns = vec![
        Column::build("Dialog_").id_string(72),
        Column::build("Control_").primary_key().category(Category::Identifier).string(50),
        Column::build("Event").category(Category::Identifier).string(50),
        Column::build("Attribute").category(Category::Identifier).string(50),
    ];
    assert(columns.deep_view() =~= event_mapping_columns());
    let mut rows: Vec<Vec<Value>> = Vec::new();
    push_row(&mut rows, event_mapping_row("ProgressDialog", "ProgressActionText", "ActionText", "Text"));
    assert(rows.deep_view() =~= Seq::new(1, |i: int| event_mapping_entry(i)));
    push_row(&mut rows, event_mapping_row("ProgressDialog", "ProgressProgressBar", "SetProgress", "Progress"));
    assert(rows.deep_view() =~= Seq::new(2, |i: int| event_mapping_entry(i)));
    Table { name: String::from_str("EventMapping"), columns, rows }
}

/// The columns of the TextStyle table.
pub open spec fn text_style_columns() -> Seq<ColumnView> {
    seq![
        ColumnView::of("TextStyle"@, ColumnType::Str(72)).primary_key().category(Category::Identifier),
        ColumnView::of("FaceName"@, ColumnType::Str(32)).category(Category::Text),
        ColumnView::of("Size"@, ColumnType::Int16).range(0, 0x7fff),
        ColumnView::of("Color"@, ColumnType::Int32).nullable().range(0, 0xffffff),
        ColumnView::of("StyleBits"@, ColumnType::Int16).nullable().range(0, 15),
    ]
}

/// A TextStyle row: a named font face, size, colour and style bits.
pub open spec fn text_style(name: Seq<char>, face: Seq<char>, size: int, color: int, bits: int) -> Seq<Cell> {
    seq![Cell::Str(name), Cell::Str(face), Cell::Int(size), Cell::Int(color), Cell::Int(bits)]
}

fn text_style_row(name: &str, face: &str, size: i32, color: i32, bits: i32) -> (r: Vec<Value>)
    ensures
        r.deep_view() == text_style(name@, face@, size as int, color as int, bits as int),
{
    let r = vec![str_value(name), str_value(face), Value::Int(size), Value::Int(color), Value::Int(bits)];
    assert(r.deep_view() =~= text_style(name@, face@, size as int, color as int, bits as int));
    r
}

/// Row `k` of the TextStyle table.
pub open spec fn text_style_entry(k: int) -> Seq<Cell> {
    if k == 0 {
        text_style("DefaultFont"@, "Tahoma"@, 10, 0, 0)
    } else if k == 1 {
        text_style("BoldFont"@, "Tahoma"@, 10, 0, 1)
    } else {
        text_style("TitleFont"@, "Verdana"@, 14, 0, 1)
    }
}

/// The rows of the TextStyle table.
pub open spec fn text_style_rows() -> Seq<Seq<Cell>> {
    Seq::new(3, |k: int| text_style_entry(k))
}

/// Creates the TextStyle table: the default, bold and title fonts.
pub fn create_text_style_table() -> (r: Table)
    ensures
        r.name@ == "TextStyle"@,
        r.columns.deep_view() == text_style_columns(),
        r.rows.deep_view() == text_style_rows(),
{
    let columns = vec![
        Column::build("TextStyle").primary_key().id_string(72),
        Column::build("FaceName").category(Category::Text).string(32),
        Column::build("Size").range(0, 0x7fff).int16(),
        Column::build("Color").nullable().range(0, 0xffffff).int32(),
        Column::build("StyleBits").nullable().range(0, 15).int16(),
    ];
    assert(columns.deep_view() =~= text_style_columns());
    let mut rows: Vec<Vec<Value>> = Vec::new();
    push_row(&mut rows, text_style_row("DefaultFont", "Tahoma", 10, 0, 0));
    assert(rows.deep_view() =~= Seq::new(1, |i: int| text_style_entry(i)));
    push_row(&mut rows, text_style_row("BoldFont", "Tahoma", 10, 0, 1));
    assert(rows.deep_view() =~= Seq::new(2, |i: int| text_style_entry(i)));
    push_row(&mut rows, text_style_row("TitleFont", "Verdana", 14, 0, 1));
    assert(rows.deep_view() =~= Seq::new(3, |i: int| text_style_entry(i)));
    Table { name: String::from_str("TextStyle"), columns, rows }
}

/// Whether dialog `dialog` has a control named `control`.
pub open spec fn has_control(dialog: Cell, control: Cell) -> bool {
    exists|j: int| 0 <= j < control_rows().len() && (#[trigger] control_rows()[j])[0] == dialog && control_rows()[j][1] == control
}

/// Whether `name` is the name of a dialog.
pub open spec fn is_dialog(name: Cell) -> bool {
    exists|j: int| 0 <= j < dialog_rows().len() && (#[trigger] dialog_rows()[j])[0] == name
}

/// Whether the user-interface sequence shows dialog `name` by itself.
pub open spec fn scheduled(name: Cell) -> bool {
    exists|j: int| 0 <= j < ui_sequence_rows().len() && (#[trigger] ui_sequence_rows()[j])[0] == name
}

/// Whether some control event opens dialog `name`.
pub open spec fn spawned(name: Cell) -> bool {
    exists|j: int|
        0 <= j < control_event_rows().len() && (#[trigger] control_event_rows()[j])[2] == Cell::Str("SpawnDialog"@)
            && control_event_rows()[j][3] == name
}


/// Every dialog's first, default and cancel controls are controls of that
/// dialog, and every dialog is shown by the user-interface sequence or
/// opened by a control event.
#[verifier::rlimit(40)]
pub proof fn lemma_dialogs_linked()
    ensures
        forall|i: int|
            0 <= i < dialog_rows().len() ==> {
                let d = #[trigger] dialog_rows()[i];
                &&& has_control(d[0], d[7])
                &&& has_control(d[0], d[8])
                &&& has_control(d[0], d[9])
                &&& (scheduled(d[0]) || spawned(d[0]))
            },
{
    assert forall|i: int| 0 <= i < dialog_rows().len() implies {
        let d = #[trigger] dialog_rows()[i];
        &&& has_control(d[0], d[7])
        &&& has_control(d[0], d[8])
        &&& has_control(d[0], d[9])
        &&& (scheduled(d[0]) || spawned(d[0]))
    } by {
        if i == 0 {
            assert(control_rows()[5][0] == dialog_rows()[0][0] && control_rows()[5][1] == dialog_rows()[0][7]);
            assert(control_rows()[5][0] == dialog_rows()[0][0] && control_rows()[5][1] == dialog_rows()[0][8]);
            assert(control_rows()[5][0] == dialog_rows()[0][0] && control_rows()[5][1] == dialog_rows()[0][9]);
            assert(ui_sequence_rows()[5][0] == dialog_rows()[0][0]);
        } else if i == 1 {
            assert(control_rows()[11][0] == dialog_rows()[1][0] && control_rows()[11][1] == dialog_rows()[1][7]);
            assert(control_rows()[11][0] == dialog_rows()[1][0] && control_rows()[11][1] == dialog_rows()[1][8]);
            assert(control_rows()[11][0] == dialog_rows()[1][0] && control_rows()[11][1] == dialog_rows()[1][9]);
            assert(ui_sequence_rows()[6][0] == dialog_rows()[1][0]);
        } else if i == 2 {
            assert(control_rows()[12][0] == dialog_rows()[2][0] && control_rows()[12][1] == dialog_rows()[2][7]);
            assert(control_rows()[12][0] == dialog_rows()[2][0] && control_rows()[12][1] == dialog_rows()[2][8]);
            assert(control_rows()[12][0] == dialog_rows()[2][0] && control_rows()[12][1] == dialog_rows()[2][9]);
            assert(control_event_rows()[0][2] == Cell::Str("SpawnDialog"@) && control_event_rows()[0][3] == dialog_rows()[2][0]);
        } else if i == 3 {
            assert(control_rows()[16][0] == dialog_rows()[3][0] && control_rows()[16][1] == dialog_rows()[3][7]);
            assert(control_rows()[16][0] == dialog_rows()[3][0] && control_rows()[16][1] == dialog_rows()[3][8]);
            assert(control_rows()[16][0] == dialog_rows()[3][0] && control_rows()[16][1] == dialog_rows()[3][9]);
            assert(ui_sequence_rows()[7][0] == dialog_rows()[3][0]);
        } else if i == 4 {
            assert(control_rows()[30][0] == dialog_rows()[4][0] && control_rows()[30][1] == dialog_rows()[4][7]);
            assert(control_rows()[30][0] == dialog_rows()[4][0] && control_rows()[30][1] == dialog_rows()[4][8]);
            assert(control_rows()[30][0] == dialog_rows()[4][0] && control_rows()[30][1] == dialog_rows()[4][9]);
            assert(ui_sequence_rows()[1][0] == dialog_rows()[4][0]);
        } else if i == 5 {
            assert(control_rows()[35][0] == dialog_rows()[5][0] && control_rows()[35][1] == dialog_rows()[5][7]);
            assert(control_rows()[35][0] == dialog_rows()[5][0] && control_rows()[35][1] == dialog_rows()[5][8]);
            assert(control_rows()[35][0] == dialog_rows()[5][0] && control_rows()[35][1] == dialog_rows()[5][9]);
            assert(ui_sequence_rows()[0][0] == dialog_rows()[5][0]);
        }
    }
}

/// Every control sits on a dialog and passes focus only to a control of
/// the same dialog.
#[verifier::rlimit(40)]
pub proof fn lemma_controls_linked()
    ensures
        forall|i: int|
            0 <= i < control_rows().len() ==> {
                let c = #[trigger] control_rows()[i];
                &&& is_dialog(c[0])
                &&& (c[10] == Cell::Null || has_control(c[0], c[10]))
            },
{
    assert forall|i: int| 0 <= i < control_rows().len() implies {
        let c = #[trigger] control_rows()[i];
        &&& is_dialog(c[0])
        &&& (c[10] == Cell::Null || has_control(c[0], c[10]))
    } by {
        if i == 0 {
            assert(dialog_rows()[0][0] == control_rows()[0][0]);
        } else if i == 1 {
            assert(dialog_rows()[0][0] == control_rows()[1][0]);
        } else if i == 2 {
            assert(dialog_rows()[0][0] == control_rows()[2][0]);
        } else if i == 3 {
            assert(dialog_rows()[0][0] == control_rows()[3][0]);
            assert(control_rows()[5][0] == control_rows()[3][0] && control_rows()[5][1] == control_rows()[3][10]);
        } else if i == 4 {
            assert(dialog_rows()[0][0] == control_rows()[4][0]);
        } else if i == 5 {
            assert(dialog_rows()[0][0] == control_rows()[5][0]);
            assert(control_rows()[2][0] == control_rows()[5][0] && control_rows()[2][1] == control_rows()[5][10]);
        } else if i == 6 {
            assert(dialog_rows()[1][0] == control_rows()[6][0]);
        } else if i == 7 {
            assert(dialog_rows()[1][0] == control_rows()[7][0]);
        } else if i == 8 {
            assert(dialog_rows()[1][0] == control_rows()[8][0]);
        } else if i == 9 {
            assert(dialog_rows()[1][0] == control_rows()[9][0]);
            assert(control_rows()[11][0] == control_rows()[9][0] && control_rows()[11][1] == control_rows()[9][10]);
        } else if i == 10 {
            assert(dialog_rows()[1][0] == control_rows()[10][0]);
        } else if i == 11 {
            assert(dialog_rows()[1][0] == control_rows()[11][0]);
            assert(control_rows()[8][0] == control_rows()[11][0] && control_rows()[8][1] == control_rows()[11][10]);
        } else if i == 12 {
            assert(dialog_rows()[2][0] == control_rows()[12][0]);
            assert(control_rows()[14][0] == control_rows()[12][0] && control_rows()[14][1] == control_rows()[12][10]);
        } else if i == 13 {
            assert(dialog_rows()[2][0] == control_rows()[13][0]);
        } else if i == 14 {
            assert(dialog_rows()[2][0] == control_rows()[14][0]);
            assert(control_rows()[12][0] == control_rows()[14][0] && control_rows()[12][1] == control_rows()[14][10]);
        } else if i == 15 {
            assert(dialog_rows()[3][0] == control_rows()[15][0]);
        } else if i == 16 {
            assert(dialog_rows()[3][0] == control_rows()[16][0]);
        } else if i == 17 {
            assert(dialog_rows()[3][0] == control_rows()[17][0]);
        } else if i == 18 {
            assert(dialog_rows()[3][0] == control_rows()[18][0]);
        } else if i == 19 {
            assert(dialog_rows()[3][0] == control_rows()[19][0]);
            assert(control_rows()[21][0] == control_rows()[19][0] && control_rows()[21][1] == control_rows()[19][10]);
        } else if i == 20 {
            assert(dialog_rows()[3][0] == control_rows()[20][0]);
            assert(control_rows()[21][0] == control_rows()[20][0] && control_rows()[21][1] == control_rows()[20][10]);
        } else if i == 21 {
            assert(dialog_rows()[3][0] == control_rows()[21][0]);
            assert(control_rows()[16][0] == control_rows()[21][0] && control_rows()[16][1] == control_rows()[21][10]);
        } else if i == 22 {
            assert(dialog_rows()[3][0] == control_rows()[22][0]);
        } else if i == 23 {
            assert(dialog_rows()[3][0] == control_rows()[23][0]);
        } else if i == 24 {
            assert(dialog_rows()[3][0] == control_rows()[24][0]);
        } else if i == 25 {
            assert(dialog_rows()[4][0] == control_rows()[25][0]);
        } else if i == 26 {
            assert(dialog_rows()[4][0] == control_rows()[26][0]);
        } else if i == 27 {
            assert(dialog_rows()[4][0] == control_rows()[27][0]);
        } else if i == 28 {
            assert(dialog_rows()[4][0] == control_rows()[28][0]);
            assert(control_rows()[30][0] == control_rows()[28][0] && control_rows()[30][1] == control_rows()[28][10]);
        } else if i == 29 {
            assert(dialog_rows()[4][0] == control_rows()[29][0]);
        } else if i == 30 {
            assert(dialog_rows()[4][0] == control_rows()[30][0]);
            assert(control_rows()[27][0] == control_rows()[30][0] && control_rows()[27][1] == control_rows()[30][10]);
        } else if i == 31 {
            assert(dialog_rows()[5][0] == control_rows()[31][0]);
        } else if i == 32 {
            assert(dialog_rows()[5][0] == control_rows()[32][0]);
        } else if i == 33 {
            assert(dialog_rows()[5][0] == control_rows()[33][0]);
            assert(control_rows()[35][0] == control_rows()[33][0] && control_rows()[35][1] == control_rows()[33][10]);
        } else if i == 34 {
            assert(dialog_rows()[5][0] == control_rows()[34][0]);
        } else if i == 35 {
            assert(dialog_rows()[5][0] == control_rows()[35][0]);
            assert(control_rows()[32][0] == control_rows()[35][0] && control_rows()[32][1] == control_rows()[35][10]);
        } else if i == 36 {
            assert(dialog_rows()[5][0] == control_rows()[36][0]);
        } else if i == 37 {
            assert(dialog_rows()[5][0] == control_rows()[37][0]);
        }
    }
}

/// Every control event belongs to a control of its dialog, opens only
/// dialogs that exist, and ends a dialog only with `Return` or `Exit`.
#[verifier::rlimit(40)]
pub proof fn lemma_events_linked()
    ensures
        forall|i: int|
            0 <= i < control_event_rows().len() ==> {
                let e = #[trigger] control_event_rows()[i];
                &&& has_control(e[0], e[1])
                &&& (e[2] == Cell::Str("SpawnDialog"@) ==> is_dialog(e[3]))
                &&& (e[2] == Cell::Str("EndDialog"@) ==> e[3] == Cell::Str("Return"@) || e[3] == Cell::Str("Exit"@))
            },
{
    reveal_strlit("EndDialog");
    reveal_strlit("SpawnDialog");
    reveal_strlit("[Mode]");
    reveal_strlit("[Text_Doing]");
    reveal_strlit("[Text_action]");
    reveal_strlit("[Text_agent]");
    reveal_strlit("[Text_done]");
    assert forall|i: int| 0 <= i < control_event_rows().len() implies {
        let e = #[trigger] control_event_rows()[i];
        &&& has_control(e[0], e[1])
        &&& (e[2] == Cell::Str("SpawnDialog"@) ==> is_dialog(e[3]))
        &&& (e[2] == Cell::Str("EndDialog"@) ==> e[3] == Cell::Str("Return"@) || e[3] == Cell::Str("Exit"@))
    } by {
        if i == 0 {
            assert(control_rows()[2][0] == control_event_rows()[0][0] && control_rows()[2][1] == control_event_rows()[0][1]);
            assert(dialog_rows()[2][0] == control_event_rows()[0][3]);
            assert("SpawnDialog"@.len() != "EndDialog"@.len());
            assert(control_event_rows()[0][2] != Cell::Str("EndDialog"@));
        } else if i == 1 {
            assert(control_rows()[5][0] == control_event_rows()[1][0] && control_rows()[5][1] == control_event_rows()[1][1]);
            assert("[Mode]"@.len() != "SpawnDialog"@.len());
            assert(control_event_rows()[1][2] != Cell::Str("SpawnDialog"@));
            assert("[Mode]"@.len() != "EndDialog"@.len());
            assert(control_event_rows()[1][2] != Cell::Str("EndDialog"@));
        } else if i == 2 {
            assert(control_rows()[5][0] == control_event_rows()[2][0] && control_rows()[5][1] == control_event_rows()[2][1]);
            assert("[Text_action]"@.len() != "SpawnDialog"@.len());
            assert(control_event_rows()[2][2] != Cell::Str("SpawnDialog"@));
            assert("[Text_action]"@.len() != "EndDialog"@.len());
            assert(control_event_rows()[2][2] != Cell::Str("EndDialog"@));
        } else if i == 3 {
            assert(control_rows()[5][0] == control_event_rows()[3][0] && control_rows()[5][1] == control_event_rows()[3][1]);
            assert("[Text_agent]"@.len() != "SpawnDialog"@.len());
            assert(control_event_rows()[3][2] != Cell::Str("SpawnDialog"@));
            assert("[Text_agent]"@.len() != "EndDialog"@.len());
            assert(control_event_rows()[3][2] != Cell::Str("EndDialog"@));
        } else if i == 4 {
            assert(control_rows()[5][0] == control_event_rows()[4][0] && control_rows()[5][1] == control_event_rows()[4][1]);
            assert("[Text_Doing]"@.len() != "SpawnDialog"@.len());
            assert(control_event_rows()[4][2] != Cell::Str("SpawnDialog"@));
            assert("[Text_Doing]"@.len() != "EndDialog"@.len());
            assert(control_event_rows()[4][2] != Cell::Str("EndDialog"@));
        } else if i == 5 {
            assert(control_rows()[5][0] == control_event_rows()[5][0] && control_rows()[5][1] == control_event_rows()[5][1]);
            assert("[Text_done]"@[0] != "SpawnDialog"@[0]);
            assert(control_event_rows()[5][2] != Cell::Str("SpawnDialog"@));
            assert("[Text_done]"@.len() != "EndDialog"@.len());
            assert(control_event_rows()[5][2] != Cell::Str("EndDialog"@));
        } else if i == 6 {
            assert(control_rows()[5][0] == control_event_rows()[6][0] && control_rows()[5][1] == control_event_rows()[6][1]);
            assert("EndDialog"@.len() != "SpawnDialog"@.len());
            assert(control_event_rows()[6][2] != Cell::Str("SpawnDialog"@));
        } else if i == 7 {
            assert(control_rows()[8][0] == control_event_rows()[7][0] && control_rows()[8][1] == control_event_rows()[7][1]);
            assert("[Text_action]"@.len() != "SpawnDialog"@.len());
            assert(control_event_rows()[7][2] != Cell::Str("SpawnDialog"@));
            assert("[Text_action]"@.len() != "EndDialog"@.len());
            assert(control_event_rows()[7][2] != Cell::Str("EndDialog"@));
        } else if i == 8 {
            assert(control_rows()[8][0] == control_event_rows()[8][0] && control_rows()[8][1] == control_event_rows()[8][1]);
            assert(dialog_rows()[2][0] == control_event_rows()[8][3]);
            assert("SpawnDialog"@.len() != "EndDialog"@.len());
            assert(control_event_rows()[8][2] != Cell::Str("EndDialog"@));
        } else if i == 9 {
            assert(control_rows()[11][0] == control_event_rows()[9][0] && control_rows()[11][1] == control_event_rows()[9][1]);
            assert("[Mode]"@.len() != "SpawnDialog"@.len());
            assert(control_event_rows()[9][2] != Cell::Str("SpawnDialog"@));
            assert("[Mode]"@.len() != "EndDialog"@.len());
            assert(control_event_rows()[9][2] != Cell::Str("EndDialog"@));
        } else if i == 10 {
            assert(control_rows()[11][0] == control_event_rows()[10][0] && control_rows()[11][1] == control_event_rows()[10][1]);
            assert("[Text_action]"@.len() != "SpawnDialog"@.len());
            assert(control_event_rows()[10][2] != Cell::Str("SpawnDialog"@));
            assert("[Text_action]"@.len() != "EndDialog"@.len());
            assert(control_event_rows()[10][2] != Cell::Str("EndDialog"@));
        } else if i == 11 {
            assert(control_rows()[11][0] == control_event_rows()[11][0] && control_rows()[11][1] == control_event_rows()[11][1]);
            assert("[Text_agent]"@.len() != "SpawnDialog"@.len());
            assert(control_event_rows()[11][2] != Cell::Str("SpawnDialog"@));
            assert("[Text_agent]"@.len() != "EndDialog"@.len());
            assert(control_event_rows()[11][2] != Cell::Str("EndDialog"@));
        } else if i == 12 {
            assert(control_rows()[11][0] == control_event_rows()[12][0] && control_rows()[11][1] == control_event_rows()[12][1]);
            assert("[Text_Doing]"@.len() != "SpawnDialog"@.len());
            assert(control_event_rows()[12][2] != Cell::Str("SpawnDialog"@));
            assert("[Text_Doing]"@.len() != "EndDialog"@.len());
            assert(control_event_rows()[12][2] != Cell::Str("EndDialog"@));
        } else if i == 13 {
            assert(control_rows()[11][0] == control_event_rows()[13][0] && control_rows()[11][1] == control_event_rows()[13][1]);
            assert("[Text_done]"@[0] != "SpawnDialog"@[0]);
            assert(control_event_rows()[13][2] != Cell::Str("SpawnDialog"@));
            assert("[Text_done]"@.len() != "EndDialog"@.len());
            assert(control_event_rows()[13][2] != Cell::Str("EndDialog"@));
        } else if i == 14 {
            assert(control_rows()[11][0] == control_event_rows()[14][0] && control_rows()[11][1] == control_event_rows()[14][1]);
            assert("EndDialog"@.len() != "SpawnDialog"@.len());
            assert(control_event_rows()[14][2] != Cell::Str("SpawnDialog"@));
        } else if i == 15 {
            assert(control_rows()[12][0] == control_event_rows()[15][0] && control_rows()[12][1] == control_event_rows()[15][1]);
            assert("EndDialog"@.len() != "SpawnDialog"@.len());
            assert(control_event_rows()[15][2] != Cell::Str("SpawnDialog"@));
        } else if i == 16 {
            assert(control_rows()[14][0] == control_event_rows()[16][0] && control_rows()[14][1] == control_event_rows()[16][1]);
            assert("EndDialog"@.len() != "SpawnDialog"@.len());
            assert(control_event_rows()[16][2] != Cell::Str("SpawnDialog"@));
        } else if i == 17 {
            assert(control_rows()[16][0] == control_event_rows()[17][0] && control_rows()[16][1] == control_event_rows()[17][1]);
            assert(dialog_rows()[2][0] == control_event_rows()[17][3]);
            assert("SpawnDialog"@.len() != "EndDialog"@.len());
            assert(control_event_rows()[17][2] != Cell::Str("EndDialog"@));
        } else if i == 18 {
            assert(control_rows()[30][0] == control_event_rows()[18][0] && control_rows()[30][1] == control_event_rows()[18][1]);
            assert("EndDialog"@.len() != "SpawnDialog"@.len());
            assert(control_event_rows()[18][2] != Cell::Str("SpawnDialog"@));
        } else if i == 19 {
            assert(control_rows()[35][0] == control_event_rows()[19][0] && control_rows()[35][1] == control_event_rows()[19][1]);
            assert("EndDialog"@.len() != "SpawnDialog"@.len());
            assert(control_event_rows()[19][2] != Cell::Str("SpawnDialog"@));
        }
    }
}

/// Every event mapping belongs to a control of its dialog.
#[verifier::rlimit(40)]
pub proof fn lemma_mappings_linked()
    ensures
        forall|i: int|
            0 <= i < event_mapping_rows().len() ==> has_control(
                (#[trigger] event_mapping_rows()[i])[0],
                event_mapping_rows()[i][1],
            ),
{
    assert forall|i: int| 0 <= i < event_mapping_rows().len() implies has_control(
        (#[trigger] event_mapping_rows()[i])[0],
        event_mapping_rows()[i][1],
    ) by {
        if i == 0 {
            assert(control_rows()[18][0] == event_mapping_rows()[0][0] && control_rows()[18][1] == event_mapping_rows()[0][1]);
        } else if i == 1 {
            assert(control_rows()[23][0] == event_mapping_rows()[1][0] && control_rows()[23][1] == event_mapping_rows()[1][1]);
        }
    }
}

} // verus!
