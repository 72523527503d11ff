//! The tables that describe what is installed and where: Directory,
//! Feature, Component, FeatureComponents, Media, File and Property.
use vstd::prelude::*;
use crate::cabinets::{filenames_distinct, Cabinet};
use crate::directories::{node_same, DirectoryNode};
use crate::guid::{generate_component_guid, spec_component_guid, Guid};
use crate::resources::{entries_same, entry_same, ResourceEntry};
use crate::table::{push_row, str_value, Category, Cell, Column, ColumnType, ColumnView, Table, Value};
use crate::text::{decimal, decimal_string};

verus! {

/// The name of the package's sole Feature.
pub open spec fn main_feature() -> Seq<char> {
    "MainFeature"@
}

/// The columns of the Directory table.
pub open spec fn directory_columns() -> Seq<ColumnView> {
    seq![
        ColumnView::of("Directory"@, ColumnType::Str(72)).primary_key().category(Category::Identifier),
        ColumnView::of("Directory_Parent"@, ColumnType::Str(72)).nullable().foreign_key("Directory"@, 1).category(Category::Identifier),
        ColumnView::of("DefaultDir"@, ColumnType::Str(255)).category(Category::DefaultDir),
    ]
}

/// The Directory row of a directory node.
pub open spec fn directory_row(d: DirectoryNode) -> Seq<Cell> {
    seq![Cell::Str(d.key@), Cell::Str(d.parent_key@), Cell::Str(d.name@)]
}

/// The Directory rows: the target root, the program-files folder, then one
/// row per directory node.
pub open spec fn directory_rows(dirs: Seq<DirectoryNode>) -> Seq<Seq<Cell>> {
    seq![
        seq![Cell::Str("TARGETDIR"@), Cell::Null, Cell::Str("SourceDir"@)],
        seq![Cell::Str("ProgramFilesFolder"@), Cell::Str("TARGETDIR"@), Cell::Str("."@)],
    ] + Seq::new(dirs.len(), |i: int| directory_row(dirs[i]))
}

/// Creates the Directory table: `TARGETDIR` (no parent), its child
/// `ProgramFilesFolder`, and the install directory tree below that.
pub fn create_directory_table(directories: &Vec<DirectoryNode>) -> (r: Table)
    ensures
        r.name@ == "Directory"@,
        r.columns.deep_view() == directory_columns(),
        r.rows.deep_view() == directory_rows(directories@),
{
    let columns = vec![
        Column::build("Directory").primary_key().id_string(72),
        Column::build("Directory_Parent").nullable().foreign_key("Directory", 1).id_string(72),
        Column::build("DefaultDir").category(Category::DefaultDir).string(255),
    ];
    assert(columns.deep_view() =~= directory_columns());
    let mut rows: Vec<Vec<Value>> = Vec::new();
    let row0 = vec![str_value("TARGETDIR"), Value::Null, str_value("SourceDir")];
    assert(row0.deep_view() =~= directory_rows(Seq::empty())[0]);
    push_row(&mut rows, row0);
    let row1 = vec![str_value("ProgramFilesFolder"), str_value("TARGETDIR"), str_value(".")];
    assert(row1.deep_view() =~= directory_rows(Seq::empty())[1]);
    push_row(&mut rows, row1);
    assert(rows.deep_view() =~= directory_rows(directories@.subrange(0, 0)));
    let mut i: usize = 0;
    while i < directories.len()
        invariant
            i <= directories@.len(),
            rows.deep_view() == directory_rows(directories@.subrange(0, i as int)),
        decreases directories@.len() - i,
    {
        let d = &directories[i];
        let row = vec![
            Value::Str(d.key.clone()),
            Value::Str(d.parent_key.clone()),
            Value::Str(d.name.clone()),
        ];
        assert(row.deep_view() =~= directory_row(directories@[i as int]));
        push_row(&mut rows, row);
        assert(rows.deep_view() =~= directory_rows(directories@.subrange(0, i + 1)));
        i = i + 1;
    }
    assert(directories@.subrange(0, directories@.len() as int) =~= directories@);
    Table { name: String::from_str("Directory"), columns, rows }
}

/// The columns of the Feature table.
pub open spec fn feature_columns() -> Seq<ColumnView> {
    seq![
        ColumnView::of("Feature"@, ColumnType::Str(38)).primary_key().category(Category::Identifier),
        ColumnView::of("Feature_Parent"@, ColumnType::Str(38)).nullable().foreign_key("Feature"@, 1).category(Category::Identifier),
        ColumnView::of("Title"@, ColumnType::Str(64)).nullable().category(Category::Text),
        ColumnView::of("Description"@, ColumnType::Str(255)).nullable().category(Category::Text),
        ColumnView::of("Display"@, ColumnType::Int16).nullable().range(0, 0x7fff),
        ColumnView::of("Level"@, ColumnType::Int16).range(0, 0x7fff),
        ColumnView::of("Directory_"@, ColumnType::Str(72)).nullable().foreign_key("Directory"@, 1).category(Category::Identifier),
        ColumnView::of("Attributes"@, ColumnType::Int16),
    ]
}

/// The one Feature row: always installed, titled with the bundle name.
pub open spec fn feature_rows(bundle_name: Seq<char>) -> Seq<Seq<Cell>> {
    seq![
        seq![
            Cell::Str(main_feature()),
            Cell::Null,
            Cell::Str(bundle_name),
            Cell::Null,
            Cell::Int(1),
            Cell::Int(1),
            Cell::Str("INSTALLDIR"@),
            Cell::Int(24),
        ],
    ]
}

/// Creates the Feature table: a single feature that installs everything.
pub fn create_feature_table(bundle_name: &str) -> (r: Table)
    ensures
        r.name@ == "Feature"@,
        r.columns.deep_view() == feature_columns(),
        r.rows.deep_view() == feature_rows(bundle_name@),
{
    let columns = vec![
        Column::build("Feature").primary_key().id_string(38),
        Column::build("Feature_Parent").nullable().foreign_key("Feature", 1).id_string(38),
        Column::build("Title").nullable().text_string(64),
        Column::build("Description").nullable().text_string(255),
        Column::build("Display").nullable().range(0, 0x7fff).int16(),
        Column::build("Level").range(0, 0x7fff).int16(),
        Column::build("Directory_").nullable().foreign_key("Directory", 1).id_string(72),
        Column::build("Attributes").int16(),
    ];
    assert(columns.deep_view() =~= feature_columns());
    let mut rows: Vec<Vec<Value>> = Vec::new();
    let row = vec![
        str_value("MainFeature"),
        Value::Null,
        str_value(bundle_name),
        Value::Null,
        Value::Int(1),
        Value::Int(1),
        str_value("INSTALLDIR"),
        Value::Int(24),
    ];
    assert(row.deep_view() =~= feature_rows(bundle_name@)[0]);
    push_row(&mut rows, row);
    assert(rows.deep_view() =~= feature_rows(bundle_name@));
    Table { name: String::from_str("Feature"), columns, rows }
}

/// The columns of the Component table.
pub open spec fn component_columns() -> Seq<ColumnView> {
    seq![
        ColumnView::of("Component"@, ColumnType::Str(72)).primary_key().category(Category::Identifier),
        ColumnView::of("ComponentId"@, ColumnType::Str(38)).nullable().category(Category::Guid),
        ColumnView::of("Directory_"@, ColumnType::Str(72)).nullable().foreign_key("Directory"@, 1).category(Category::Identifier),
        ColumnView::of("Attributes"@, ColumnType::Int16),
        ColumnView::of("Condition"@, ColumnType::Str(255)).nullable().category(Category::Condition),
        ColumnView::of("KeyPath"@, ColumnType::Str(72)).nullable().category(Category::Identifier),
    ]
}

/// The Component row of a directory that holds files: keyed like the
/// directory, identified by its file list, with its first file as key path.
pub open spec fn component_row(package_guid: Seq<u8>, d: DirectoryNode) -> Seq<Cell> {
    seq![
        Cell::Str(d.key@),
        Cell::Guid(spec_component_guid(package_guid, d.files.deep_view())),
        Cell::Str(d.key@),
        Cell::Int(0),
        Cell::Null,
        Cell::Str(d.files@[0]@),
    ]
}

/// One Component row per directory that holds files, in tree order.
pub open spec fn component_rows(package_guid: Seq<u8>, dirs: Seq<DirectoryNode>) -> Seq<Seq<Cell>>
    decreases dirs.len(),
{
    if dirs.len() == 0 {
        Seq::empty()
    } else if dirs.last().files@.len() > 0 {
        component_rows(package_guid, dirs.drop_last()).push(component_row(package_guid, dirs.last()))
    } else {
        component_rows(package_guid, dirs.drop_last())
    }
}

/// Creates the Component table: one component per directory that holds
/// files directly.
pub fn create_component_table(package_guid: &Guid, directories: &Vec<DirectoryNode>) -> (r: Table)
    ensures
        r.name@ == "Component"@,
        r.columns.deep_view() == component_columns(),
        r.rows.deep_view() == component_rows(package_guid.bytes@, directories@),
{
    let columns = vec![
        Column::build("Component").primary_key().id_string(72),
        Column::build("ComponentId").nullable().category(Category::Guid).string(38),
        Column::build("Directory_").nullable().foreign_key("Directory", 1).id_string(72),
        Column::build("Attributes").int16(),
        Column::build("Condition").nullable().category(Category::Condition).string(255),
        Column::build("KeyPath").nullable().id_string(72),
    ];
    assert(columns.deep_view() =~= component_columns());
    let mut rows: Vec<Vec<Value>> = Vec::new();
    let mut i: usize = 0;
    while i < directories.len()
        invariant
            i <= directories@.len(),
            rows.deep_view() == component_rows(package_guid.bytes@, directories@.subrange(0, i as int)),
        decreases directories@.len() - i,
    {
        let d = &directories[i];
        let ghost pre = directories@.subrange(0, i + 1);
        assert(pre.drop_last() =~= directories@.subrange(0, i as int));
        if d.files.len() > 0 {
            let guid = generate_component_guid(package_guid, &d.files);
            let row = vec![
                Value::Str(d.key.clone()),
                Value::Guid(guid),
                Value::Str(d.key.clone()),
                Value::Int(0),
                Value::Null,
                Value::Str(d.files[0].clone()),
            ];
            assert(row.deep_view() =~= component_row(package_guid.bytes@, directories@[i as int]));
            push_row(&mut rows, row);
        }
        i = i + 1;
    }
    assert(directories@.subrange(0, directories@.len() as int) =~= directories@);
    Table { name: String::from_str("Component"), columns, rows }
}

/// The columns of the FeatureComponents table.
pub open spec fn feature_components_columns() -> Seq<ColumnView> {
    seq![
        ColumnView::of("Feature_"@, ColumnType::Str(38)).primary_key().foreign_key("Feature"@, 1).category(Category::Identifier),
        ColumnView::of("Component_"@, ColumnType::Str(72)).primary_key().foreign_key("Component"@, 1).category(Category::Identifier),
    ]
}

/// The sole feature paired with every component, in tree order.
pub open spec fn feature_components_rows(dirs: Seq<DirectoryNode>) -> Seq<Seq<Cell>>
    decreases dirs.len(),
{
    if dirs.len() == 0 {
        Seq::empty()
    } else if dirs.last().files@.len() > 0 {
        feature_components_rows(dirs.drop_last()).push(seq![Cell::Str(main_feature()), Cell::Str(dirs.last().key@)])
    } else {
        feature_components_rows(dirs.drop_last())
    }
}

/// Creates the FeatureComponents table: every component belongs to the
/// sole feature.
pub fn create_feature_components_table(directories: &Vec<DirectoryNode>) -> (r: Table)
    ensures
        r.name@ == "FeatureComponents"@,
        r.columns.deep_view() == feature_components_columns(),
        r.rows.deep_view() == feature_components_rows(directories@),
{
    let columns = vec![
        Column::build("Feature_").primary_key().foreign_key("Feature", 1).id_string(38),
        Column::build("Component_").primary_key().foreign_key("Component", 1).id_string(72),
    ];
    assert(columns.deep_view() =~= feature_components_columns());
    let mut rows: Vec<Vec<Value>> = Vec::new();
    let mut i: usize = 0;
    while i < directories.len()
        invariant
            i <= directories@.len(),
            rows.deep_view() == feature_components_rows(directories@.subrange(0, i as int)),
        decreases directories@.len() - i,
    {
        let d = &directories[i];
        let ghost pre = directories@.subrange(0, i + 1);
        assert(pre.drop_last() =~= directories@.subrange(0, i as int));
        if d.files.len() > 0 {
            let row = vec![str_value("MainFeature"), Value::Str(d.key.clone())];
            assert(row.deep_view() =~= seq![Cell::Str(main_feature()), Cell::Str(directories@[i as int].key@)]);
            push_row(&mut rows, row);
        }
        i = i + 1;
    }
    assert(directories@.subrange(0, directories@.len() as int) =~= directories@);
    Table { name: String::from_str("FeatureComponents"), columns, rows }
}

/// Two entries to be installed under the same filename, which the File
/// table, keyed by filename, cannot tell apart.
#[derive(Debug)]
pub struct DuplicateFile {
    pub filename: String,
    pub first_source: String,
    pub second_source: String,
}

/// Why a table could not be made: a row would not fit the table.
#[derive(Debug)]
pub enum TableError {
    /// More files, or more cabinets, than a 16-bit sequence number counts.
    TooManyFiles,
    /// Two entries share a filename, the File table's key.
    DuplicateFile(DuplicateFile),
    /// A file is larger than the File table's size column holds.
    FileTooLarge,
}

/// Whether no name occurs twice in `names`.
pub open spec fn names_distinct(names: Seq<Seq<char>>) -> bool {
    forall|a: int, b: int| 0 <= a < b < names.len() ==> names[a] != names[b]
}

/// `b` is the first position that repeats an earlier name, and `a` the
/// first position holding that name.
pub open spec fn first_repeat(names: Seq<Seq<char>>, a: int, b: int) -> bool {
    &&& 0 <= a < b < names.len()
    &&& names[a] == names[b]
    &&& forall|k: int| 0 <= k < a ==> names[k] != names[b]
    &&& names_distinct(names.subrange(0, b))
}

/// The filenames of the entries, in order.
pub open spec fn filenames_of(es: Seq<ResourceEntry>) -> Seq<Seq<char>> {
    Seq::new(es.len(), |i: int| es[i].filename@)
}

/// The source paths of the entries, in order.
pub open spec fn sources_of(es: Seq<ResourceEntry>) -> Seq<Seq<char>> {
    Seq::new(es.len(), |i: int| es[i].source_path@)
}

/// `b` is the first entry that repeats an earlier entry's filename, and `a`
/// the first entry with that filename.
pub open spec fn first_clash(es: Seq<ResourceEntry>, a: int, b: int) -> bool {
    first_repeat(filenames_of(es), a, b)
}

/// `d` reports entries `a` and `b` of `es`: their filename and both sources.
pub open spec fn reports(d: DuplicateFile, es: Seq<ResourceEntry>, a: int, b: int) -> bool {
    &&& d.filename@ == es[b].filename@
    &&& d.first_source@ == es[a].source_path@
    &&& d.second_source@ == es[b].source_path@
}

pub proof fn lemma_filenames_distinct(es: Seq<ResourceEntry>)
    ensures
        filenames_distinct(es) <==> names_distinct(filenames_of(es)),
{
    let names = filenames_of(es);
    if filenames_distinct(es) {
        assert forall|a: int, b: int| 0 <= a < b < names.len() implies names[a] != names[b] by {
            assert(es[a].filename@ != es[b].filename@);
        }
    }
    if names_distinct(names) {
        assert forall|a: int, b: int| 0 <= a < b < es.len() implies (#[trigger] es[a]).filename@
            != (#[trigger] es[b]).filename@ by {
            assert(names[a] != names[b]);
        }
    }
}

/// The first repeated name of `names`, as (first position holding it,
/// position repeating it), if any name repeats.
pub fn first_duplicate(names: &Vec<String>) -> (r: Option<(usize, usize)>)
    ensures
        r is None <==> names_distinct(names.deep_view()),
        r matches Some((a, b)) ==> first_repeat(names.deep_view(), a as int, b as int),
{
    let ghost ns = names.deep_view();
    let mut b: usize = 0;
    while b < names.len()
        invariant
            b <= ns.len(),
            ns == names.deep_view(),
            names_distinct(ns.subrange(0, b as int)),
        decreases ns.len() - b,
    {
        let mut a: usize = 0;
        while a < b
            invariant
                a <= b < ns.len(),
                ns == names.deep_view(),
                names_distinct(ns.subrange(0, b as int)),
                forall|k: int| 0 <= k < a ==> ns[k] != ns[b as int],
            decreases b - a,
        {
            if names[a] == names[b] {
                assert(first_repeat(ns, a as int, b as int));
                return Some((a, b));
            }
            a = a + 1;
        }
        let ghost next = ns.subrange(0, b + 1);
        assert forall|x: int, y: int| 0 <= x < y < next.len() implies next[x] != next[y] by {
            if y < b {
                assert(ns.subrange(0, b as int)[x] == next[x] && ns.subrange(0, b as int)[y] == next[y]);
            }
        }
        b = b + 1;
    }
    assert(ns.subrange(0, ns.len() as int) =~= ns);
    None
}

/// Checks that no two entries share a filename, the File table's key;
/// otherwise reports the first such pair with both source paths.
pub fn check_unique_filenames(resources: &Vec<ResourceEntry>) -> (r: Result<(), DuplicateFile>)
    ensures
        r is Ok <==> filenames_distinct(resources@),
        r matches Err(d) ==> exists|a: int, b: int| first_clash(resources@, a, b) && reports(d, resources@, a, b),
{
    let ghost es = resources@;
    let mut names: Vec<String> = Vec::new();
    let mut i: usize = 0;
    while i < resources.len()
        invariant
            i <= es.len(),
            es == resources@,
            names.deep_view() == filenames_of(es).subrange(0, i as int),
        decreases es.len() - i,
    {
        let ghost before = names.deep_view();
        let name = resources[i].filename.clone();
        names.push(name);
        assert(names.deep_view() =~= before.push(es[i as int].filename@));
        assert(names.deep_view() =~= filenames_of(es).subrange(0, i + 1));
        i = i + 1;
    }
    assert(names.deep_view() =~= filenames_of(es));
    proof {
        lemma_filenames_distinct(es);
    }
    match first_duplicate(&names) {
        Some((a, b)) => {
            let d = DuplicateFile {
                filename: resources[b].filename.clone(),
                first_source: resources[a].source_path.clone(),
                second_source: resources[b].source_path.clone(),
            };
            assert(first_clash(es, a as int, b as int) && reports(d, es, a as int, b as int));
            Err(d)
        },
        None => Ok(()),
    }
}

/// The largest File sequence number and Media disk id.
pub const MAX_SEQUENCE: u64 = 0x7fff;

/// The largest file size the File table holds.
pub const MAX_FILE_SIZE: u64 = 0x7fff_ffff;

/// The number of entries in all the cabinets.
pub open spec fn total_entries(cabs: Seq<Cabinet>) -> nat
    decreases cabs.len(),
{
    if cabs.len() == 0 {
        0
    } else {
        total_entries(cabs.drop_last()) + cabs.last().resources@.len()
    }
}

/// The entries of all the cabinets, in cabinet order.
pub open spec fn all_entries(cabs: Seq<Cabinet>) -> Seq<ResourceEntry>
    decreases cabs.len(),
{
    if cabs.len() == 0 {
        Seq::empty()
    } else {
        all_entries(cabs.drop_last()) + cabs.last().resources@
    }
}

/// The columns of the Media table.
pub open spec fn media_columns() -> Seq<ColumnView> {
    seq![
        ColumnView::of("DiskId"@, ColumnType::Int16).primary_key().range(1, 0x7fff),
        ColumnView::of("LastSequence"@, ColumnType::Int16).range(0, 0x7fff),
        ColumnView::of("DiskPrompt"@, ColumnType::Str(64)).nullable().category(Category::Text),
        ColumnView::of("Cabinet"@, ColumnType::Str(255)).nullable().category(Category::Cabinet),
        ColumnView::of("VolumeLabel"@, ColumnType::Str(32)).nullable().category(Category::Text),
        ColumnView::of("Source"@, ColumnType::Str(32)).nullable().category(Category::Property),
    ]
}

/// The Media row of the cabinet at position `i`: its disk id, the sequence
/// number of its last file, and its stream, marked `#` as embedded in the
/// package.
pub open spec fn media_row(cabs: Seq<Cabinet>, i: int) -> Seq<Cell> {
    seq![
        Cell::Int(i + 1),
        Cell::Int(total_entries(cabs.subrange(0, i + 1)) as int),
        Cell::Null,
        Cell::Str("#"@ + cabs[i].name@),
        Cell::Null,
        Cell::Null,
    ]
}

/// One Media row per cabinet, in order.
pub open spec fn media_rows(cabs: Seq<Cabinet>) -> Seq<Seq<Cell>> {
    Seq::new(cabs.len(), |i: int| media_row(cabs, i))
}

/// Creates the Media table: one row per cabinet.
pub fn create_media_table(cabinets: &Vec<Cabinet>) -> (r: Result<Table, TableError>)
    ensures
        r is Err <==> cabinets@.len() > MAX_SEQUENCE || total_entries(cabinets@) > MAX_SEQUENCE,
        r is Err ==> r matches Err(TableError::TooManyFiles),
        r matches Ok(t) ==> t.name@ == "Media"@ && t.columns.deep_view() == media_columns()
            && t.rows.deep_view() == media_rows(cabinets@),
{
    let columns = vec![
        Column::build("DiskId").primary_key().range(1, 0x7fff).int16(),
        Column::build("LastSequence").range(0, 0x7fff).int16(),
        Column::build("DiskPrompt").nullable().text_string(64),
        Column::build("Cabinet").nullable().category(Category::Cabinet).string(255),
        Column::build("VolumeLabel").nullable().text_string(32),
        Column::build("Source").nullable().category(Category::Property).string(32),
    ];
    assert(columns.deep_view() =~= media_columns());
    if cabinets.len() as u64 > MAX_SEQUENCE {
        return Err(TableError::TooManyFiles);
    }
    let mut rows: Vec<Vec<Value>> = Vec::new();
    let mut last_seq: u64 = 0;
    let mut i: usize = 0;
    assert(cabinets@.subrange(0, 0) =~= Seq::<Cabinet>::empty());
    while i < cabinets.len()
        invariant
            i <= cabinets@.len() <= MAX_SEQUENCE,
            last_seq == total_entries(cabinets@.subrange(0, i as int)),
            last_seq <= MAX_SEQUENCE,
            rows.deep_view() == media_rows(cabinets@.subrange(0, i as int)),
            forall|j: int| 0 <= j < i ==> #[trigger] media_rows(cabinets@.subrange(0, i as int))[j] == media_row(cabinets@, j),
        decreases cabinets@.len() - i,
    {
        let ghost pre = cabinets@.subrange(0, i + 1);
        assert(pre.drop_last() =~= cabinets@.subrange(0, i as int));
        let n = cabinets[i].resources.len() as u64;
        if n > MAX_SEQUENCE - last_seq {
            proof {
                lemma_total_entries_monotone(cabinets@, i + 1);
            }
            return Err(TableError::TooManyFiles);
        }
        last_seq = last_seq + n;
        let name = String::from_str("#").concat(cabinets[i].name.as_str());
        let row = vec![
            Value::Int(i as i32 + 1),
            Value::Int(last_seq as i32),
            Value::Null,
            Value::Str(name),
            Value::Null,
            Value::Null,
        ];
        assert(row.deep_view() =~= media_row(cabinets@, i as int)) by {
            assert(cabinets@.subrange(0, i + 1) =~= pre);
        }
        push_row(&mut rows, row);
        assert forall|j: int| 0 <= j <= i implies #[trigger] media_rows(pre)[j] == media_row(cabinets@, j) by {
            assert(pre.subrange(0, j + 1) =~= cabinets@.subrange(0, j + 1));
            assert(pre[j] == cabinets@[j]);
        }
        assert(rows.deep_view() =~= media_rows(pre));
        i = i + 1;
    }
    assert(cabinets@.subrange(0, cabinets@.len() as int) =~= cabinets@);
    Ok(Table { name: String::from_str("Media"), columns, rows })
}

proof fn lemma_total_entries_monotone(cabs: Seq<Cabinet>, k: int)
    requires
        0 <= k <= cabs.len(),
    ensures
        total_entries(cabs.subrange(0, k)) <= total_entries(cabs),
    decreases cabs.len(),
{
    if k < cabs.len() {
        assert(cabs.drop_last() == cabs.subrange(0, cabs.len() - 1));
        assert(cabs.drop_last().subrange(0, k) =~= cabs.subrange(0, k));
        lemma_total_entries_monotone(cabs.drop_last(), k);
    } else {
        assert(cabs.subrange(0, k) =~= cabs);
    }
}

/// The cabinets' entries, listed together, number `total_entries`.
pub proof fn lemma_all_entries_len(cabs: Seq<Cabinet>)
    ensures
        all_entries(cabs).len() == total_entries(cabs),
    decreases cabs.len(),
{
    if cabs.len() > 0 {
        lemma_all_entries_len(cabs.drop_last());
    }
}

/// The columns of the File table.
pub open spec fn file_columns() -> Seq<ColumnView> {
    seq![
        ColumnView::of("File"@, ColumnType::Str(72)).primary_key().category(Category::Identifier),
        ColumnView::of("Component_"@, ColumnType::Str(72)).foreign_key("Component"@, 1).category(Category::Identifier),
        ColumnView::of("FileName"@, ColumnType::Str(255)).category(Category::Filename),
        ColumnView::of("FileSize"@, ColumnType::Int32).range(0, 0x7fffffff),
        ColumnView::of("Version"@, ColumnType::Str(72)).nullable().category(Category::Version),
        ColumnView::of("Language"@, ColumnType::Str(20)).nullable().category(Category::Language),
        ColumnView::of("Attributes"@, ColumnType::Int16).nullable().range(0, 0x7fff),
        ColumnView::of("Sequence"@, ColumnType::Int16).range(1, 0x7fff),
    ]
}

/// The File attribute marking a file as vital to the installation.
pub open spec fn file_attr_vital() -> int {
    0x200
}

/// The File row of entry `e` with sequence number `seq`.
pub open spec fn file_row(e: ResourceEntry, seq: int) -> Seq<Cell> {
    seq![
        Cell::Str(e.filename@),
        Cell::Str(e.component_key@),
        Cell::Str(e.filename@),
        Cell::Int(e.size as int),
        Cell::Null,
        Cell::Null,
        Cell::Int(file_attr_vital()),
        Cell::Int(seq),
    ]
}

/// One File row per entry, in cabinet order, numbered from 1.
pub open spec fn file_rows(cabs: Seq<Cabinet>) -> Seq<Seq<Cell>> {
    Seq::new(all_entries(cabs).len(), |k: int| file_row(all_entries(cabs)[k], k + 1))
}

/// Whether some entry of the cabinets is too large for the File table.
pub open spec fn has_oversized_file(cabs: Seq<Cabinet>) -> bool {
    exists|k: int| 0 <= k < all_entries(cabs).len() && (#[trigger] all_entries(cabs)[k]).size > MAX_FILE_SIZE
}

/// Creates the File table: one row per entry, its sequence number counting
/// from 1 through the cabinets in order, so that each cabinet's files are
/// those after the previous cabinet's last sequence number.
pub fn create_file_table(cabinets: &Vec<Cabinet>) -> (r: Result<Table, TableError>)
    ensures
        r matches Err(TableError::TooManyFiles) <==> total_entries(cabinets@) > MAX_SEQUENCE,
        r matches Err(TableError::DuplicateFile(_)) <==> total_entries(cabinets@) <= MAX_SEQUENCE
            && !filenames_distinct(all_entries(cabinets@)),
        r matches Err(TableError::DuplicateFile(d)) ==> exists|a: int, b: int|
            first_clash(all_entries(cabinets@), a, b) && reports(d, all_entries(cabinets@), a, b),
        r matches Err(TableError::FileTooLarge) <==> total_entries(cabinets@) <= MAX_SEQUENCE
            && filenames_distinct(all_entries(cabinets@)) && has_oversized_file(cabinets@),
        r is Ok <==> total_entries(cabinets@) <= MAX_SEQUENCE && filenames_distinct(all_entries(cabinets@))
            && !has_oversized_file(cabinets@),
        r matches Ok(t) ==> t.name@ == "File"@ && t.columns.deep_view() == file_columns()
            && t.rows.deep_view() == file_rows(cabinets@),
{
    let columns = vec![
        Column::build("File").primary_key().id_string(72),
        Column::build("Component_").foreign_key("Component", 1).id_string(72),
        Column::build("FileName").category(Category::Filename).string(255),
        Column::build("FileSize").range(0, 0x7fffffff).int32(),
        Column::build("Version").nullable().category(Category::Version).string(72),
        Column::build("Language").nullable().category(Category::Language).string(20),
        Column::build("Attributes").nullable().range(0, 0x7fff).int16(),
        Column::build("Sequence").range(1, 0x7fff).int16(),
    ];
    assert(columns.deep_view() =~= file_columns());
    let ghost cabs = cabinets@;
    proof {
        lemma_all_entries_len(cabs);
    }
    let mut rows: Vec<Vec<Value>> = Vec::new();
    let mut names: Vec<String> = Vec::new();
    let mut sources: Vec<String> = Vec::new();
    let mut sequence: u64 = 0;
    let mut oversized = false;
    let mut i: usize = 0;
    assert(cabs.subrange(0, 0) =~= Seq::<Cabinet>::empty());
    while i < cabinets.len()
        invariant
            cabs == cabinets@,
            i <= cabs.len(),
            sequence == total_entries(cabs.subrange(0, i as int)),
            sequence <= MAX_SEQUENCE,
            sequence == all_entries(cabs.subrange(0, i as int)).len(),
            oversized == has_oversized_file(cabs.subrange(0, i as int)),
            !oversized ==> rows.deep_view() == file_rows(cabs.subrange(0, i as int)),
            names.deep_view() == filenames_of(all_entries(cabs.subrange(0, i as int))),
            sources.deep_view() == sources_of(all_entries(cabs.subrange(0, i as int))),
        decreases cabs.len() - i,
    {
        let ghost done = cabs.subrange(0, i as int);
        let ghost pre = cabs.subrange(0, i + 1);
        assert(pre.drop_last() =~= done);
        assert(pre.last() == cabs[i as int]);
        let entries = &cabinets[i].resources;
        if entries.len() as u64 > MAX_SEQUENCE - sequence {
            proof {
                lemma_total_entries_monotone(cabs, i + 1);
            }
            return Err(TableError::TooManyFiles);
        }
        assert(names.deep_view() =~= filenames_of(all_entries(pre)).subrange(0, sequence as int));
        assert(sources.deep_view() =~= sources_of(all_entries(pre)).subrange(0, sequence as int));
        let mut j: usize = 0;
        while j < entries.len()
            invariant
                cabs == cabinets@,
                i < cabs.len(),
                entries == cabs[i as int].resources,
                j <= entries@.len(),
                all_entries(done).len() + entries@.len() <= MAX_SEQUENCE,
                done == cabs.subrange(0, i as int),
                all_entries(pre) == all_entries(done) + entries@,
                sequence == all_entries(done).len() + j,
                oversized == (has_oversized_file(done) || exists|m: int| 0 <= m < j && (#[trigger] entries@[m]).size > MAX_FILE_SIZE),
                !oversized ==> rows.deep_view() == Seq::new(sequence as nat, |k: int| file_row(all_entries(pre)[k], k + 1)),
                names.deep_view() == filenames_of(all_entries(pre)).subrange(0, sequence as int),
                sources.deep_view() == sources_of(all_entries(pre)).subrange(0, sequence as int),
            decreases entries@.len() - j,
        {
            let e = &entries[j];
            proof {
                assert(all_entries(pre)[sequence as int] == entries@[j as int]);
            }
            let ghost names_before = names.deep_view();
            let ghost sources_before = sources.deep_view();
            names.push(e.filename.clone());
            sources.push(e.source_path.clone());
            assert(names.deep_view() =~= names_before.push(e.filename@));
            assert(sources.deep_view() =~= sources_before.push(e.source_path@));
            assert(names.deep_view() =~= filenames_of(all_entries(pre)).subrange(0, sequence + 1));
            assert(sources.deep_view() =~= sources_of(all_entries(pre)).subrange(0, sequence + 1));
            sequence = sequence + 1;
            if e.size > MAX_FILE_SIZE {
                oversized = true;
            } else {
                let row = vec![
                    Value::Str(e.filename.clone()),
                    Value::Str(e.component_key.clone()),
                    Value::Str(e.filename.clone()),
                    Value::Int(e.size as i32),
                    Value::Null,
                    Value::Null,
                    Value::Int(0x200),
                    Value::Int(sequence as i32),
                ];
                proof {
                    assert(all_entries(pre)[sequence - 1] == entries@[j as int]);
                    assert(row.deep_view() =~= file_row(all_entries(pre)[sequence - 1], sequence as int));
                }
                push_row(&mut rows, row);
                assert(!oversized ==> rows.deep_view() =~= Seq::new(
                    sequence as nat,
                    |k: int| file_row(all_entries(pre)[k], k + 1),
                ));
            }
            j = j + 1;
        }
        proof {
            let base = all_entries(done).len() as int;
            if has_oversized_file(done) {
                let k = choose|k: int| 0 <= k < all_entries(done).len() && (#[trigger] all_entries(done)[k]).size > MAX_FILE_SIZE;
                assert(all_entries(pre)[k] == all_entries(done)[k]);
                assert(has_oversized_file(pre));
            } else if oversized {
                let m = choose|m: int| 0 <= m < j && (#[trigger] entries@[m]).size > MAX_FILE_SIZE;
                assert(all_entries(pre)[base + m] == entries@[m]);
                assert(has_oversized_file(pre));
            }
            assert(oversized ==> has_oversized_file(pre));
            assert(has_oversized_file(pre) ==> oversized) by {
                if has_oversized_file(pre) {
                    let k = choose|k: int| 0 <= k < all_entries(pre).len() && (#[trigger] all_entries(pre)[k]).size > MAX_FILE_SIZE;
                    if k < all_entries(done).len() {
                        assert(all_entries(pre)[k] == all_entries(done)[k]);
                        assert(has_oversized_file(done));
                    } else {
                        let m = k - base;
                        assert(all_entries(pre)[k] == entries@[m]);
                        assert(0 <= m < j && entries@[m].size > MAX_FILE_SIZE);
                    }
                }
            }
            if !oversized {
                assert(rows.deep_view() =~= file_rows(pre));
            }
            assert(names.deep_view() =~= filenames_of(all_entries(pre)));
            assert(sources.deep_view() =~= sources_of(all_entries(pre)));
        }
        i = i + 1;
    }
    assert(cabs.subrange(0, cabs.len() as int) =~= cabs);
    proof {
        lemma_filenames_distinct(all_entries(cabs));
    }
    match first_duplicate(&names) {
        Some((a, b)) => {
            let d = DuplicateFile {
                filename: names[b].clone(),
                first_source: sources[a].clone(),
                second_source: sources[b].clone(),
            };
            assert(first_clash(all_entries(cabs), a as int, b as int));
            assert(names.deep_view()[b as int] == filenames_of(all_entries(cabs))[b as int]);
            assert(sources.deep_view()[a as int] == sources_of(all_entries(cabs))[a as int]);
            assert(sources.deep_view()[b as int] == sources_of(all_entries(cabs))[b as int]);
            assert(reports(d, all_entries(cabs), a as int, b as int));
            return Err(TableError::DuplicateFile(d));
        },
        None => {},
    }
    if oversized {
        return Err(TableError::FileTooLarge);
    }
    Ok(Table { name: String::from_str("File"), columns, rows })
}

proof fn lemma_all_entries_prefix(cabs: Seq<Cabinet>, k: int)
    requires
        0 <= k <= cabs.len(),
    ensures
        all_entries(cabs.subrange(0, k)).len() <= all_entries(cabs).len(),
        all_entries(cabs.subrange(0, k)) == all_entries(cabs).subrange(0, all_entries(cabs.subrange(0, k)).len() as int),
    decreases cabs.len(),
{
    if k == cabs.len() {
        assert(cabs.subrange(0, k) =~= cabs);
        assert(all_entries(cabs).subrange(0, all_entries(cabs).len() as int) =~= all_entries(cabs));
    } else {
        let d = cabs.drop_last();
        assert(d.subrange(0, k) =~= cabs.subrange(0, k));
        lemma_all_entries_prefix(d, k);
        assert(all_entries(cabs) == all_entries(d) + cabs.last().resources@);
        assert(all_entries(cabs.subrange(0, k)) =~= all_entries(cabs).subrange(0, all_entries(cabs.subrange(0, k)).len() as int));
    }
}

/// File sequence numbers count 1, 2, 3, ... through the cabinets in order,
/// and the Media row of cabinet `i` records as its last sequence number the
/// number of entries in cabinets `0..=i`: the files numbered after cabinet
/// `i - 1`'s last sequence number, up to cabinet `i`'s, are exactly cabinet
/// `i`'s entries.
#[verifier::rlimit(40)]
pub proof fn lemma_sequence_numbering(cabs: Seq<Cabinet>)
    ensures
        file_rows(cabs).len() == total_entries(cabs),
        forall|k: int| 0 <= k < file_rows(cabs).len() ==> (#[trigger] file_rows(cabs)[k])[7] == Cell::Int(k + 1),
        forall|i: int|
            0 <= i < cabs.len() ==> (#[trigger] media_rows(cabs)[i])[1] == Cell::Int(
                total_entries(cabs.subrange(0, i + 1)) as int,
            ),
        forall|i: int|
            0 <= i < cabs.len() ==> all_entries(cabs).subrange(
                total_entries(cabs.subrange(0, i)) as int,
                total_entries(cabs.subrange(0, i + 1)) as int,
            ) == (#[trigger] cabs[i]).resources@,
{
    lemma_all_entries_len(cabs);
    assert forall|i: int| 0 <= i < cabs.len() implies all_entries(cabs).subrange(
        total_entries(cabs.subrange(0, i)) as int,
        total_entries(cabs.subrange(0, i + 1)) as int,
    ) == (#[trigger] cabs[i]).resources@ by {
        let a = cabs.subrange(0, i);
        let b = cabs.subrange(0, i + 1);
        lemma_all_entries_prefix(cabs, i);
        lemma_all_entries_prefix(cabs, i + 1);
        lemma_all_entries_len(a);
        lemma_all_entries_len(b);
        assert(b.drop_last() =~= a);
        assert(all_entries(b) == all_entries(a) + cabs[i].resources@);
        let la = all_entries(a).len() as int;
        let lb = all_entries(b).len() as int;
        assert(lb == la + cabs[i].resources@.len());
        assert forall|t: int| 0 <= t < cabs[i].resources@.len() implies all_entries(cabs)[la + t]
            == cabs[i].resources@[t] by {
            assert(all_entries(cabs).subrange(0, lb)[la + t] == all_entries(b)[la + t]);
        }
        assert(all_entries(cabs).subrange(all_entries(a).len() as int, all_entries(b).len() as int)
            =~= cabs[i].resources@);
    }
}

/// The language identifier (LCID) of a language tag.
pub uninterp spec fn language_code_of(tag: Seq<char>) -> u16;

/// Relies on `msi::Language::from_tag` and `Language::code`: the numeric
/// identifier of a language tag, 1033 for `en-US` as the crate documents.
#[verifier::external_body]
fn language_code(tag: &str) -> (r: u16)
    ensures
        r == language_code_of(tag@),
        tag@ == "en-US"@ ==> r == 1033,
{
    msi::Language::from_tag(tag).code()
}

/// The columns of the Property table.
pub open spec fn property_columns() -> Seq<ColumnView> {
    seq![
        ColumnView::of("Property"@, ColumnType::Str(72)).primary_key().category(Category::Identifier),
        ColumnView::of("Value"@, ColumnType::Str(0)).category(Category::Text),
    ]
}

/// A Property row setting `name` to the text `value`.
pub open spec fn property(name: Seq<char>, value: Seq<char>) -> Seq<Cell> {
    seq![Cell::Str(name), Cell::Str(value)]
}

/// The Property rows: product identity, then the texts the wizard shows.
pub open spec fn property_rows(
    package_guid: Seq<u8>,
    authors: Seq<char>,
    bundle_name: Seq<char>,
    version: Seq<char>,
) -> Seq<Seq<Cell>> {
    seq![
        property("Manufacturer"@, authors),
        seq![Cell::Str("ProductCode"@), Cell::Guid(package_guid)],
        property("ProductLanguage"@, decimal(1033)),
        property("ProductName"@, bundle_name),
        property("ProductVersion"@, version),
        property("DefaultUIFont"@, "DefaultFont"@),
        property("Mode"@, "Install"@),
        property("Text_action"@, "installation"@),
        property("Text_agent"@, "installer"@),
        property("Text_Doing"@, "installing"@),
        property("Text_done"@, "installed"@),
    ]
}

/// Creates the Property table: the manufacturer (the comma-joined authors),
/// product code, language, name and version, and the wizard's texts.
pub fn create_property_table(package_guid: &Guid, authors: &str, bundle_name: &str, version: &str) -> (r: Table)
    ensures
        r.name@ == "Property"@,
        r.columns.deep_view() == property_columns(),
        r.rows.deep_view() == property_rows(package_guid.bytes@, authors@, bundle_name@, version@),
{
    let columns = vec![
        Column::build("Property").primary_key().id_string(72),
        Column::build("Value").text_string(0),
    ];
    assert(columns.deep_view() =~= property_columns());
    let language = decimal_string(language_code("en-US") as u64);
    let rows: Vec<Vec<Value>> = vec![
        vec![str_value("Manufacturer"), str_value(authors)],
        vec![str_value("ProductCode"), Value::Guid(*package_guid)],
        vec![str_value("ProductLanguage"), Value::Str(language)],
        vec![str_value("ProductName"), str_value(bundle_name)],
        vec![str_value("ProductVersion"), str_value(version)],
        vec![str_value("DefaultUIFont"), str_value("DefaultFont")],
        vec![str_value("Mode"), str_value("Install")],
        vec![str_value("Text_action"), str_value("installation")],
        vec![str_value("Text_agent"), str_value("installer")],
        vec![str_value("Text_Doing"), str_value("installing")],
        vec![str_value("Text_done"), str_value("installed")],
    ];
    assert(rows.deep_view() =~= property_rows(package_guid.bytes@, authors@, bundle_name@, version@)) by {
        assert(rows.deep_view()[0] =~= property("Manufacturer"@, authors@));
        assert(rows.deep_view()[1] =~= seq![Cell::Str("ProductCode"@), Cell::Guid(package_guid.bytes@)]);
        assert(rows.deep_view()[2] =~= property("ProductLanguage"@, decimal(1033)));
        assert(rows.deep_view()[3] =~= property("ProductName"@, bundle_name@));
        assert(rows.deep_view()[4] =~= property("ProductVersion"@, version@));
        assert(rows.deep_view()[5] =~= property("DefaultUIFont"@, "DefaultFont"@));
        assert(rows.deep_view()[6] =~= property("Mode"@, "Install"@));
        assert(rows.deep_view()[7] =~= property("Text_action"@, "installation"@));
        assert(rows.deep_view()[8] =~= property("Text_agent"@, "installer"@));
        assert(rows.deep_view()[9] =~= property("Text_Doing"@, "installing"@));
        assert(rows.deep_view()[10] =~= property("Text_done"@, "installed"@));
    }
    Table { name: String::from_str("Property"), columns, rows }
}

/// `a` and `b` hold the same nodes, position by position.
pub open spec fn nodes_same(a: Seq<DirectoryNode>, b: Seq<DirectoryNode>) -> bool {
    &&& a.len() == b.len()
    &&& forall|i: int| 0 <= i < a.len() ==> node_same(#[trigger] a[i], b[i])
}

/// `a` and `b` hold the same cabinets, position by position.
pub open spec fn cabinets_same(a: Seq<Cabinet>, b: Seq<Cabinet>) -> bool {
    &&& a.len() == b.len()
    &&& forall|i: int| 0 <= i < a.len() ==> (#[trigger] a[i]).name@ == b[i].name@ && entries_same(a[i].resources@, b[i].resources@)
}

proof fn lemma_nodes_same_drop_last(a: Seq<DirectoryNode>, b: Seq<DirectoryNode>)
    requires
        nodes_same(a, b),
        a.len() > 0,
    ensures
        nodes_same(a.drop_last(), b.drop_last()),
        node_same(a.last(), b.last()),
{
    assert(node_same(a[a.len() - 1], b[b.len() - 1]));
    assert forall|i: int| 0 <= i < a.drop_last().len() implies node_same(#[trigger] a.drop_last()[i], b.drop_last()[i]) by {
        assert(node_same(a[i], b[i]));
    }
}

/// The tables drawn from the directory tree hold the same rows for trees
/// that hold the same nodes.
pub proof fn lemma_tree_rows_determined(package_guid: Seq<u8>, a: Seq<DirectoryNode>, b: Seq<DirectoryNode>)
    requires
        nodes_same(a, b),
    ensures
        directory_rows(a) == directory_rows(b),
        component_rows(package_guid, a) == component_rows(package_guid, b),
        feature_components_rows(a) == feature_components_rows(b),
    decreases a.len(),
{
    assert forall|i: int| 0 <= i < a.len() implies directory_row(#[trigger] a[i]) == directory_row(b[i]) by {
        assert(node_same(a[i], b[i]));
    }
    assert(Seq::new(a.len(), |i: int| directory_row(a[i])) =~= Seq::new(b.len(), |i: int| directory_row(b[i])));
    if a.len() > 0 {
        lemma_nodes_same_drop_last(a, b);
        lemma_tree_rows_determined(package_guid, a.drop_last(), b.drop_last());
        let x = a.last();
        let y = b.last();
        assert(x.files@.len() == x.files.deep_view().len());
        assert(y.files@.len() == y.files.deep_view().len());
        if x.files@.len() > 0 {
            assert(x.files@[0]@ == x.files.deep_view()[0]);
            assert(y.files@[0]@ == y.files.deep_view()[0]);
            assert(component_row(package_guid, x) == component_row(package_guid, y));
        }
    }
}

proof fn lemma_same_cabinet_totals(a: Seq<Cabinet>, b: Seq<Cabinet>)
    requires
        cabinets_same(a, b),
    ensures
        total_entries(a) == total_entries(b),
        entries_same(all_entries(a), all_entries(b)),
    decreases a.len(),
{
    if a.len() > 0 {
        let da = a.drop_last();
        let db = b.drop_last();
        assert(cabinets_same(da, db)) by {
            assert forall|i: int| 0 <= i < da.len() implies (#[trigger] da[i]).name@ == db[i].name@
                && entries_same(da[i].resources@, db[i].resources@) by {
                assert(a[i] == da[i] && b[i] == db[i]);
            }
        }
        lemma_same_cabinet_totals(da, db);
        let ra = a.last().resources@;
        let rb = b.last().resources@;
        assert(entries_same(ra, rb));
        let xa = all_entries(da);
        let xb = all_entries(db);
        assert forall|k: int| 0 <= k < (xa + ra).len() implies entry_same(#[trigger] (xa + ra)[k], (xb + rb)[k]) by {
            if k < xa.len() {
                assert(entry_same(xa[k], xb[k]));
            } else {
                assert(entry_same(ra[k - xa.len()], rb[k - xa.len()]));
            }
        }
    }
}

/// The Media and File tables hold the same rows for cabinets that hold the
/// same entries under the same names.
pub proof fn lemma_cabinet_rows_determined(a: Seq<Cabinet>, b: Seq<Cabinet>)
    requires
        cabinets_same(a, b),
    ensures
        media_rows(a) == media_rows(b),
        file_rows(a) == file_rows(b),
{
    lemma_same_cabinet_totals(a, b);
    assert forall|i: int| 0 <= i < a.len() implies media_row(a, i) == media_row(b, i) by {
        let sa = a.subrange(0, i + 1);
        let sb = b.subrange(0, i + 1);
        assert(cabinets_same(sa, sb)) by {
            assert forall|k: int| 0 <= k < sa.len() implies (#[trigger] sa[k]).name@ == sb[k].name@
                && entries_same(sa[k].resources@, sb[k].resources@) by {
                assert(sa[k] == a[k] && sb[k] == b[k]);
            }
        }
        lemma_same_cabinet_totals(sa, sb);
    }
    assert(media_rows(a) =~= media_rows(b));
    let xa = all_entries(a);
    let xb = all_entries(b);
    assert forall|k: int| 0 <= k < xa.len() implies file_row(xa[k], k + 1) == file_row(xb[k], k + 1) by {
        assert(entry_same(xa[k], xb[k]));
    }
    assert(file_rows(a) =~= file_rows(b));
}

} // verus!
