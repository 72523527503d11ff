//! Plans a whole package from the bundle's settings and its files' sizes:
//! the product code, the directory tree, the cabinets and their folders,
//! and every database table.  Writing the plan into a package file is the
//! caller's part.
use vstd::prelude::*;
use crate::cabinets::{
    cabinet_folders, cabinet_name, divide_resources_into_cabinets, filenames_distinct, folder_lengths,
    lemma_partition_determined, lemma_partition_lossless, partition, Cabinet,
};
use crate::core_tables::{
    all_entries, component_columns, component_rows, directory_columns, directory_rows, feature_columns,
    feature_components_columns, feature_components_rows, feature_rows, file_columns, file_rows, media_columns,
    media_rows, property_columns, property_rows, create_component_table, create_directory_table, create_feature_components_table,
    create_feature_table, create_file_table, create_media_table, create_property_table, has_oversized_file,
    total_entries, TableError, MAX_FILE_SIZE, MAX_SEQUENCE, cabinets_same, nodes_same, check_unique_filenames,
    names_distinct, DuplicateFile,
    lemma_all_entries_len, lemma_cabinet_rows_determined, lemma_tree_rows_determined,
};
use crate::directories::{collect_directory_info, entries_keyed, lemma_tree_determined, tree_built, DirectoryNode};
use crate::guid::{generate_package_guid, spec_package_guid, Guid};
use crate::resources::{
    collect_resource_info, entries_same, entry_same, is_binary_entry, is_resource_entry, resource_dest, ResourceEntry,
};
use crate::table::{push_row, str_value, Cell, Column, ColumnType, ColumnView, Category, Table, Value};
use crate::ui_tables::{
    control_columns, control_event_columns, control_event_rows, control_rows, dialog_columns, dialog_rows,
    event_mapping_columns, event_mapping_rows, execute_sequence_rows, sequence_columns, text_style_columns,
    text_style_rows, ui_sequence_rows, create_control_event_table, create_control_table, create_dialog_table, create_event_mapping_table,
    create_install_execute_sequence_table, create_install_ui_sequence_table, create_text_style_table,
};

verus! {

/// Why a package could not be planned.
#[derive(Debug)]
pub enum BuildError {
    DuplicateFile(DuplicateFile),
    Table(TableError),
}

/// What a package is built from: the bundle's settings, and the path and
/// size of the binary and of every resource file.
#[derive(Debug)]
pub struct BundleInfo {
    pub bundle_name: String,
    pub bundle_identifier: String,
    pub version: String,
    /// The authors, joined with `, `.
    pub authors: String,
    pub binary_path: String,
    pub binary_name: String,
    pub binary_size: u64,
    /// Each resource file's path and size in bytes.
    pub resource_files: Vec<(String, u64)>,
}

/// Everything a package holds, ready to be written.
pub struct PackagePlan {
    pub product_code: Guid,
    pub directories: Vec<DirectoryNode>,
    pub cabinets: Vec<Cabinet>,
    /// For each cabinet, the number of entries in each compression folder.
    pub folders: Vec<Vec<usize>>,
    /// Property, Directory, Feature, Component, FeatureComponents, Media,
    /// File, InstallExecuteSequence, InstallUISequence, Dialog, Control,
    /// ControlEvent, EventMapping, TextStyle and Icon, in that order.
    pub tables: Vec<Table>,
    /// The name of the icon, whose bytes go in the stream `Icon.<name>`.
    pub icon_name: String,
    /// The entries, binary first, before their component keys were set.
    pub entries: Ghost<Seq<ResourceEntry>>,
    /// The entries with their component keys, in input order.
    pub keyed: Ghost<Seq<ResourceEntry>>,
}

/// `es` lists the binary and the resource files of `info` as entries.
pub open spec fn collected(info: BundleInfo, es: Seq<ResourceEntry>) -> bool {
    &&& es.len() == info.resource_files@.len() + 1
    &&& is_binary_entry(es[0], info.binary_path@, info.binary_name@, info.binary_size)
    &&& forall|i: int|
        0 <= i < info.resource_files@.len() ==> is_resource_entry(
            #[trigger] es[i + 1],
            info.resource_files@[i].0@,
            info.resource_files@[i].1,
        )
}

/// The filenames under which the binary and the resource files of `info`
/// are installed.
pub open spec fn input_filenames(info: BundleInfo) -> Seq<Seq<char>> {
    seq![info.binary_name@] + Seq::new(
        info.resource_files@.len(),
        |i: int| resource_dest(info.resource_files@[i].0@).last(),
    )
}

/// Whether the binary or a resource file of `info` is too large for the
/// File table.
pub open spec fn input_oversized(info: BundleInfo) -> bool {
    info.binary_size > MAX_FILE_SIZE || exists|i: int|
        0 <= i < info.resource_files@.len() && (#[trigger] info.resource_files@[i]).1 > MAX_FILE_SIZE
}

/// The columns of the Icon table.
pub open spec fn icon_columns() -> Seq<ColumnView> {
    seq![
        ColumnView::of("Name"@, ColumnType::Str(72)).primary_key().category(Category::Identifier),
        ColumnView::of("Data"@, ColumnType::Binary),
    ]
}

/// The name of the application icon.
pub open spec fn icon_name(binary_name: Seq<char>) -> Seq<char> {
    binary_name + ".ico"@
}

/// Whether `path` names an ICO file: it ends in `.ico` after a non-empty
/// file stem.
pub open spec fn is_ico_path(path: Seq<char>) -> bool {
    let n = path.len() as int;
    &&& n >= 5
    &&& path[n - 5] != '/'
    &&& path[n - 4] == '.'
    &&& path[n - 3] == 'i'
    &&& path[n - 2] == 'c'
    &&& path[n - 1] == 'o'
}

/// The position of the first ICO file among the candidate icon files, if
/// any; its bytes become the application icon.
pub fn first_ico_icon(paths: &Vec<String>) -> (r: Option<usize>)
    ensures
        r is None <==> forall|i: int| 0 <= i < paths@.len() ==> !is_ico_path(#[trigger] paths@[i]@),
        r matches Some(i) ==> i < paths@.len() && is_ico_path(paths@[i as int]@) && forall|j: int|
            0 <= j < i ==> !is_ico_path(#[trigger] paths@[j]@),
{
    let mut i: usize = 0;
    while i < paths.len()
        invariant
            i <= paths@.len(),
            forall|j: int| 0 <= j < i ==> !is_ico_path(#[trigger] paths@[j]@),
        decreases paths@.len() - i,
    {
        let p = paths[i].as_str();
        let n = p.unicode_len();
        if n >= 5 && p.get_char(n - 5) != '/' && p.get_char(n - 4) == '.' && p.get_char(n - 3) == 'i'
            && p.get_char(n - 2) == 'c' && p.get_char(n - 1) == 'o' {
            return Some(i);
        }
        i = i + 1;
    }
    None
}

/// Creates the Icon table: one binary row for the application icon.
pub fn create_icon_table(icon: &str) -> (r: Table)
    ensures
        r.name@ == "Icon"@,
        r.columns.deep_view() == icon_columns(),
        r.rows.deep_view() == seq![seq![Cell::Str(icon@), Cell::Binary]],
{
    let columns = vec![Column::build("Name").primary_key().id_string(72), Column::build("Data").binary()];
    assert(columns.deep_view() =~= icon_columns());
    let mut rows: Vec<Vec<Value>> = Vec::new();
    let row = vec![str_value(icon), Value::Binary];
    assert(row.deep_view() =~= seq![Cell::Str(icon@), Cell::Binary]);
    push_row(&mut rows, row);
    assert(rows.deep_view() =~= seq![seq![Cell::Str(icon@), Cell::Binary]]);
    Table { name: String::from_str("Icon"), columns, rows }
}

/// `t` is the table `name` with columns `columns` and rows `rows`.
pub open spec fn table_is(t: Table, name: Seq<char>, columns: Seq<ColumnView>, rows: Seq<Seq<Cell>>) -> bool {
    t.name@ == name && t.columns.deep_view() == columns && t.rows.deep_view() == rows
}

/// `p` is the package planned from `info`.
pub open spec fn plan_matches(info: BundleInfo, p: PackagePlan) -> bool {
    let code = p.product_code.bytes@;
    let dirs = p.directories@;
    let cabs = p.cabinets@;
    &&& code == spec_package_guid(info.bundle_identifier@)
    &&& collected(info, p.entries@)
    &&& tree_built(p.entries@, dirs, info.bundle_name@)
    &&& entries_keyed(p.entries@, p.keyed@, dirs)
    &&& cabs.len() == partition(p.keyed@).len()
    &&& forall|i: int|
        0 <= i < cabs.len() ==> (#[trigger] cabs[i]).resources@ == partition(p.keyed@)[i] && cabs[i].name@
            == cabinet_name(i as nat)
    &&& p.folders@.len() == cabs.len()
    &&& forall|i: int|
        0 <= i < cabs.len() ==> (#[trigger] p.folders@[i])@.len() == folder_lengths(cabs[i].resources@).len()
            && forall|j: int|
            0 <= j < p.folders@[i]@.len() ==> p.folders@[i]@[j] as nat == folder_lengths(cabs[i].resources@)[j]
    &&& p.icon_name@ == icon_name(info.binary_name@)
    &&& p.tables@.len() == 15
    &&& table_is(p.tables@[0], "Property"@, property_columns(), property_rows(code, info.authors@, info.bundle_name@, info.version@))
    &&& table_is(p.tables@[1], "Directory"@, directory_columns(), directory_rows(dirs))
    &&& table_is(p.tables@[2], "Feature"@, feature_columns(), feature_rows(info.bundle_name@))
    &&& table_is(p.tables@[3], "Component"@, component_columns(), component_rows(code, dirs))
    &&& table_is(p.tables@[4], "FeatureComponents"@, feature_components_columns(), feature_components_rows(dirs))
    &&& table_is(p.tables@[5], "Media"@, media_columns(), media_rows(cabs))
    &&& table_is(p.tables@[6], "File"@, file_columns(), file_rows(cabs))
    &&& table_is(p.tables@[7], "InstallExecuteSequence"@, sequence_columns(), execute_sequence_rows())
    &&& table_is(p.tables@[8], "InstallUISequence"@, sequence_columns(), ui_sequence_rows())
    &&& table_is(p.tables@[9], "Dialog"@, dialog_columns(), dialog_rows())
    &&& table_is(p.tables@[10], "Control"@, control_columns(), control_rows())
    &&& table_is(p.tables@[11], "ControlEvent"@, control_event_columns(), control_event_rows())
    &&& table_is(p.tables@[12], "EventMapping"@, event_mapping_columns(), event_mapping_rows())
    &&& table_is(p.tables@[13], "TextStyle"@, text_style_columns(), text_style_rows())
    &&& table_is(p.tables@[14], "Icon"@, icon_columns(), seq![seq![Cell::Str(p.icon_name@), Cell::Binary]])
}

proof fn lemma_collected_names(info: BundleInfo, es: Seq<ResourceEntry>)
    requires
        collected(info, es),
    ensures
        filenames_distinct(es) <==> names_distinct(input_filenames(info)),
        (exists|m: int| 0 <= m < es.len() && (#[trigger] es[m]).size > MAX_FILE_SIZE) <==> input_oversized(info),
{
    let names = input_filenames(info);
    assert forall|k: int| 0 <= k < es.len() implies (#[trigger] es[k]).filename@ == names[k] by {
        if k > 0 {
            assert(is_resource_entry(es[(k - 1) + 1], info.resource_files@[k - 1].0@, info.resource_files@[k - 1].1));
        }
    }
    if filenames_distinct(es) {
        assert forall|a: int, b: int| 0 <= a < b < names.len() implies names[a] != names[b] by {
            assert(es[a].filename@ != es[b].filename@);
        }
    }
    if names_distinct(names) {
        assert forall|a: int, b: int| 0 <= a < b < es.len() implies (#[trigger] es[a]).filename@
            != (#[trigger] es[b]).filename@ by {
            assert(names[a] != names[b]);
        }
    }
    if exists|m: int| 0 <= m < es.len() && (#[trigger] es[m]).size > MAX_FILE_SIZE {
        let m = choose|m: int| 0 <= m < es.len() && (#[trigger] es[m]).size > MAX_FILE_SIZE;
        if m > 0 {
            assert(is_resource_entry(es[(m - 1) + 1], info.resource_files@[m - 1].0@, info.resource_files@[m - 1].1));
            assert(info.resource_files@[m - 1].1 > MAX_FILE_SIZE);
        }
    }
    if input_oversized(info) {
        if info.binary_size <= MAX_FILE_SIZE {
            let i = choose|i: int| 0 <= i < info.resource_files@.len() && (#[trigger] info.resource_files@[i]).1 > MAX_FILE_SIZE;
            assert(is_resource_entry(es[i + 1], info.resource_files@[i].0@, info.resource_files@[i].1));
            assert(es[i + 1].size > MAX_FILE_SIZE);
        } else {
            assert(es[0].size > MAX_FILE_SIZE);
        }
    }
}

proof fn lemma_distinct_permutation(all: Seq<ResourceEntry>, keyed: Seq<ResourceEntry>)
    requires
        all.to_multiset() == keyed.to_multiset(),
        filenames_distinct(keyed),
    ensures
        filenames_distinct(all),
{
    broadcast use vstd::seq_lib::group_to_multiset_ensures;
    assert(keyed.no_duplicates()) by {
        assert forall|x: int, y: int| 0 <= x < keyed.len() && 0 <= y < keyed.len() && x != y implies keyed[x] != keyed[y] by {
            if x < y {
                assert(keyed[x].filename@ != keyed[y].filename@);
            } else {
                assert(keyed[y].filename@ != keyed[x].filename@);
            }
        }
    }
    keyed.lemma_multiset_has_no_duplicates();
    all.lemma_multiset_has_no_duplicates_conv();
    assert forall|a: int, b: int| 0 <= a < b < all.len() implies (#[trigger] all[a]).filename@
        != (#[trigger] all[b]).filename@ by {
        assert(all.contains(all[a]) && all.contains(all[b]));
        assert(keyed.to_multiset().count(all[a]) > 0 && keyed.to_multiset().count(all[b]) > 0);
        let x = choose|x: int| 0 <= x < keyed.len() && keyed[x] == all[a];
        let y = choose|y: int| 0 <= y < keyed.len() && keyed[y] == all[b];
        assert(all[a] != all[b]);
        if x < y {
            assert(keyed[x].filename@ != keyed[y].filename@);
        } else {
            assert(keyed[y].filename@ != keyed[x].filename@);
        }
    }
}

proof fn lemma_all_entries_flatten(cabs: Seq<Cabinet>)
    ensures
        all_entries(cabs) == Seq::new(cabs.len(), |i: int| cabs[i].resources@).flatten(),
    decreases cabs.len(),
{
    let parts = Seq::new(cabs.len(), |i: int| cabs[i].resources@);
    parts.lemma_flatten_and_flatten_alt_are_equivalent();
    if cabs.len() > 0 {
        let d = cabs.drop_last();
        lemma_all_entries_flatten(d);
        let dparts = Seq::new(d.len(), |i: int| d[i].resources@);
        assert(parts.drop_last() =~= dparts);
        dparts.lemma_flatten_and_flatten_alt_are_equivalent();
    }
}

proof fn lemma_nonempty_parts(cabs: Seq<Cabinet>)
    requires
        forall|i: int| 0 <= i < cabs.len() ==> (#[trigger] cabs[i]).resources@.len() >= 1,
    ensures
        cabs.len() <= total_entries(cabs),
    decreases cabs.len(),
{
    if cabs.len() > 0 {
        let d = cabs.drop_last();
        assert forall|i: int| 0 <= i < d.len() implies (#[trigger] d[i]).resources@.len() >= 1 by {
            assert(d[i] == cabs[i]);
        }
        lemma_nonempty_parts(d);
    }
}

proof fn lemma_cabinet_totals(keyed: Seq<ResourceEntry>, cabs: Seq<Cabinet>)
    requires
        cabs.len() == partition(keyed).len(),
        forall|i: int| 0 <= i < cabs.len() ==> (#[trigger] cabs[i]).resources@ == partition(keyed)[i],
    ensures
        total_entries(cabs) == keyed.len(),
        cabs.len() <= keyed.len(),
        has_oversized_file(cabs) <==> exists|m: int| 0 <= m < keyed.len() && (#[trigger] keyed[m]).size > MAX_FILE_SIZE,
        filenames_distinct(keyed) ==> filenames_distinct(all_entries(cabs)),
{
    broadcast use vstd::seq_lib::group_to_multiset_ensures;
    lemma_partition_lossless(keyed);
    lemma_all_entries_flatten(cabs);
    let parts = Seq::new(cabs.len(), |i: int| cabs[i].resources@);
    assert(parts =~= partition(keyed));
    let all = all_entries(cabs);
    assert(all.to_multiset() == keyed.to_multiset());
    if filenames_distinct(keyed) {
        lemma_distinct_permutation(all, keyed);
    }
    assert(all.len() == keyed.len()) by {
        assert(all.len() == all.to_multiset().len());
        assert(keyed.len() == keyed.to_multiset().len());
    }
    assert(all_entries(cabs).len() == total_entries(cabs)) by {
        lemma_all_entries_len(cabs);
    }
    assert forall|i: int| 0 <= i < cabs.len() implies (#[trigger] cabs[i]).resources@.len() >= 1 by {
        assert(partition(keyed)[i].len() >= 1);
    }
    lemma_nonempty_parts(cabs);
    if has_oversized_file(cabs) {
        let k = choose|k: int| 0 <= k < all.len() && (#[trigger] all[k]).size > MAX_FILE_SIZE;
        assert(all.contains(all[k]));
        assert(keyed.to_multiset().count(all[k]) > 0);
        assert(keyed.contains(all[k]));
        let m = choose|m: int| 0 <= m < keyed.len() && keyed[m] == all[k];
        assert(keyed[m].size > MAX_FILE_SIZE);
    }
    if exists|m: int| 0 <= m < keyed.len() && (#[trigger] keyed[m]).size > MAX_FILE_SIZE {
        let m = choose|m: int| 0 <= m < keyed.len() && (#[trigger] keyed[m]).size > MAX_FILE_SIZE;
        assert(keyed.contains(keyed[m]));
        assert(all.to_multiset().count(keyed[m]) > 0);
        assert(all.contains(keyed[m]));
        let k = choose|k: int| 0 <= k < all.len() && all[k] == keyed[m];
        assert(all[k].size > MAX_FILE_SIZE);
    }
}

/// Plans the package for `info`: derives the product code, lists the
/// binary and resources as entries, rejects two entries with one filename,
/// builds the directory tree, divides the entries into cabinets and folders,
/// and fills every table.
pub fn plan_package(info: &BundleInfo) -> (r: Result<PackagePlan, BuildError>)
    ensures
        r matches Err(BuildError::DuplicateFile(_)) <==> !names_distinct(input_filenames(*info)),
        r matches Err(BuildError::Table(TableError::TooManyFiles)) <==> names_distinct(input_filenames(*info))
            && info.resource_files@.len() + 1 > MAX_SEQUENCE,
        r matches Err(BuildError::Table(TableError::FileTooLarge)) <==> names_distinct(input_filenames(*info))
            && info.resource_files@.len() + 1 <= MAX_SEQUENCE && input_oversized(*info),
        r is Ok <==> names_distinct(input_filenames(*info)) && info.resource_files@.len() + 1 <= MAX_SEQUENCE
            && !input_oversized(*info),
        r matches Ok(p) ==> plan_matches(*info, p),
{
    let product_code = generate_package_guid(info.bundle_identifier.as_str());
    let property = create_property_table(
        &product_code,
        info.authors.as_str(),
        info.bundle_name.as_str(),
        info.version.as_str(),
    );
    let mut resources = collect_resource_info(
        info.binary_path.as_str(),
        info.binary_name.as_str(),
        info.binary_size,
        &info.resource_files,
    );
    let ghost entries = resources@;
    proof {
        lemma_collected_names(*info, entries);
    }
    match check_unique_filenames(&resources) {
        Err(d) => {
            return Err(BuildError::DuplicateFile(d));
        },
        Ok(()) => {},
    }
    let directories = collect_directory_info(info.bundle_name.as_str(), &mut resources);
    let ghost keyed = resources@;
    proof {
        assert forall|m: int| 0 <= m < keyed.len() implies keyed[m].size == entries[m].size
            && keyed[m].filename@ == entries[m].filename@ by {
            assert(crate::directories::entry_keyed(directories@, entries[m], keyed[m]));
        }
        assert forall|a: int, b: int| 0 <= a < b < keyed.len() implies (#[trigger] keyed[a]).filename@
            != (#[trigger] keyed[b]).filename@ by {
            assert(entries[a].filename@ != entries[b].filename@);
        }
        if exists|m: int| 0 <= m < keyed.len() && (#[trigger] keyed[m]).size > MAX_FILE_SIZE {
            let m = choose|m: int| 0 <= m < keyed.len() && (#[trigger] keyed[m]).size > MAX_FILE_SIZE;
            assert(entries[m].size > MAX_FILE_SIZE);
        }
        if exists|m: int| 0 <= m < entries.len() && (#[trigger] entries[m]).size > MAX_FILE_SIZE {
            let m = choose|m: int| 0 <= m < entries.len() && (#[trigger] entries[m]).size > MAX_FILE_SIZE;
            assert(keyed[m].size > MAX_FILE_SIZE);
        }
    }
    let cabinets = divide_resources_into_cabinets(resources);
    proof {
        lemma_cabinet_totals(keyed, cabinets@);
    }
    let mut folders: Vec<Vec<usize>> = Vec::new();
    let mut i: usize = 0;
    while i < cabinets.len()
        invariant
            i <= cabinets@.len(),
            folders@.len() == i,
            forall|k: int|
                0 <= k < i ==> (#[trigger] folders@[k])@.len() == folder_lengths(cabinets@[k].resources@).len()
                    && forall|j: int|
                    0 <= j < folders@[k]@.len() ==> folders@[k]@[j] as nat == folder_lengths(
                        cabinets@[k].resources@,
                    )[j],
        decreases cabinets@.len() - i,
    {
        let f = cabinet_folders(&cabinets[i].resources);
        folders.push(f);
        i = i + 1;
    }
    let directory = create_directory_table(&directories);
    let feature = create_feature_table(info.bundle_name.as_str());
    let component = create_component_table(&product_code, &directories);
    let feature_components = create_feature_components_table(&directories);
    let media = match create_media_table(&cabinets) {
        Ok(t) => t,
        Err(e) => {
            return Err(BuildError::Table(e));
        },
    };
    let file = match create_file_table(&cabinets) {
        Ok(t) => t,
        Err(e) => {
            return Err(BuildError::Table(e));
        },
    };
    let icon = String::from_str(info.binary_name.as_str()).concat(".ico");
    let icon_table = create_icon_table(icon.as_str());
    let tables = vec![
        property,
        directory,
        feature,
        component,
        feature_components,
        media,
        file,
        create_install_execute_sequence_table(),
        create_install_ui_sequence_table(),
        create_dialog_table(),
        create_control_table(),
        create_control_event_table(),
        create_event_mapping_table(),
        create_text_style_table(),
        icon_table,
    ];
    let plan = PackagePlan {
        product_code,
        directories,
        cabinets,
        folders,
        tables,
        icon_name: icon,
        entries: Ghost(entries),
        keyed: Ghost(keyed),
    };
    assert(plan_matches(*info, plan));
    Ok(plan)
}

/// `a` and `b` describe the same bundle: the same settings, and the same
/// files with the same sizes in the same order.
pub open spec fn info_same(a: BundleInfo, b: BundleInfo) -> bool {
    &&& a.bundle_name@ == b.bundle_name@
    &&& a.bundle_identifier@ == b.bundle_identifier@
    &&& a.version@ == b.version@
    &&& a.authors@ == b.authors@
    &&& a.binary_path@ == b.binary_path@
    &&& a.binary_name@ == b.binary_name@
    &&& a.binary_size == b.binary_size
    &&& a.resource_files@.len() == b.resource_files@.len()
    &&& forall|i: int|
        0 <= i < a.resource_files@.len() ==> (#[trigger] a.resource_files@[i]).0@ == b.resource_files@[i].0@
            && a.resource_files@[i].1 == b.resource_files@[i].1
}

proof fn lemma_collected_same(a: BundleInfo, b: BundleInfo, es1: Seq<ResourceEntry>, es2: Seq<ResourceEntry>)
    requires
        info_same(a, b),
        collected(a, es1),
        collected(b, es2),
    ensures
        entries_same(es1, es2),
{
    assert forall|i: int| 0 <= i < es1.len() implies entry_same(#[trigger] es1[i], es2[i]) by {
        if i > 0 {
            let k = i - 1;
            assert(is_resource_entry(es1[k + 1], a.resource_files@[k].0@, a.resource_files@[k].1));
            assert(is_resource_entry(es2[k + 1], b.resource_files@[k].0@, b.resource_files@[k].1));
            assert(a.resource_files@[k].0@ == b.resource_files@[k].0@);
        }
    }
}

/// Rebuilding is reproducible: plans for the same bundle have the same
/// product code and, in every table, the same columns and the same rows,
/// component identifiers included.  Only the build time, which the caller
/// writes into the package summary, differs from one build to the next.
pub proof fn lemma_rebuild_identical(a: BundleInfo, b: BundleInfo, p: PackagePlan, q: PackagePlan)
    requires
        info_same(a, b),
        plan_matches(a, p),
        plan_matches(b, q),
    ensures
        p.product_code.bytes@ == q.product_code.bytes@,
        p.tables@.len() == q.tables@.len(),
        forall|t: int|
            0 <= t < p.tables@.len() ==> (#[trigger] p.tables@[t]).name@ == q.tables@[t].name@
                && p.tables@[t].columns.deep_view() == q.tables@[t].columns.deep_view()
                && p.tables@[t].rows.deep_view() == q.tables@[t].rows.deep_view(),
{
    lemma_collected_same(a, b, p.entries@, q.entries@);
    lemma_tree_determined(p.entries@, q.entries@, p.directories@, q.directories@, p.keyed@, q.keyed@, a.bundle_name@);
    lemma_partition_determined(p.keyed@, q.keyed@);
    let code = p.product_code.bytes@;
    assert(nodes_same(p.directories@, q.directories@));
    lemma_tree_rows_determined(code, p.directories@, q.directories@);
    assert(cabinets_same(p.cabinets@, q.cabinets@)) by {
        assert forall|i: int| 0 <= i < p.cabinets@.len() implies (#[trigger] p.cabinets@[i]).name@ == q.cabinets@[i].name@
            && entries_same(p.cabinets@[i].resources@, q.cabinets@[i].resources@) by {
            assert(p.cabinets@[i].resources@ == partition(p.keyed@)[i]);
            assert(q.cabinets@[i].resources@ == partition(q.keyed@)[i]);
        }
    }
    lemma_cabinet_rows_determined(p.cabinets@, q.cabinets@);
}

/// Bundles that are the same succeed or fail alike: they have the same
/// filenames, the same number of files and the same oversized files, which
/// is all that decides whether `plan_package` returns `Ok`.
pub proof fn lemma_rebuild_succeeds_alike(a: BundleInfo, b: BundleInfo)
    requires
        info_same(a, b),
    ensures
        input_filenames(a) == input_filenames(b),
        a.resource_files@.len() == b.resource_files@.len(),
        input_oversized(a) == input_oversized(b),
{
    assert(input_filenames(a) =~= input_filenames(b)) by {
        assert forall|i: int| 0 <= i < a.resource_files@.len() implies resource_dest(a.resource_files@[i].0@)
            == resource_dest(b.resource_files@[i].0@) by {
            assert(a.resource_files@[i].0@ == b.resource_files@[i].0@);
        }
    }
    if input_oversized(a) && a.binary_size <= MAX_FILE_SIZE {
        let i = choose|i: int| 0 <= i < a.resource_files@.len() && (#[trigger] a.resource_files@[i]).1 > MAX_FILE_SIZE;
        assert(b.resource_files@[i].1 > MAX_FILE_SIZE);
    }
    if input_oversized(b) && b.binary_size <= MAX_FILE_SIZE {
        let i = choose|i: int| 0 <= i < b.resource_files@.len() && (#[trigger] b.resource_files@[i]).1 > MAX_FILE_SIZE;
        assert(a.resource_files@[i].1 == b.resource_files@[i].1);
    }
}

} // verus!
