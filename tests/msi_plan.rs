use cargo_bundle::cabinets::{
    Cabinet, cabinet_folders, divide_resources_into_cabinets, CABINET_MAX_FILES, CABINET_MAX_SIZE,
};
use cargo_bundle::core_tables::{check_unique_filenames, create_file_table, create_media_table, TableError};
use cargo_bundle::directories::collect_directory_info;
use cargo_bundle::guid::{generate_component_guid, generate_package_guid, uuid_namespace};
use cargo_bundle::package::{first_ico_icon, plan_package, BuildError, BundleInfo, PackagePlan};
use cargo_bundle::resources::{collect_resource_info, ResourceEntry};
use cargo_bundle::table::{Table, Value};

fn entry(dest: &str, size: u64) -> ResourceEntry {
    let dest_path: Vec<String> = dest.split('/').map(|s| s.to_string()).collect();
    ResourceEntry {
        source_path: format!("src/{dest}"),
        filename: dest_path.last().unwrap().clone(),
        dest_path,
        size,
        component_key: String::new(),
    }
}

fn info(resources: Vec<(String, u64)>) -> BundleInfo {
    BundleInfo {
        bundle_name: "Example App".to_string(),
        bundle_identifier: "com.example.app".to_string(),
        version: "1.2.3".to_string(),
        authors: "Ferris, Crab".to_string(),
        binary_path: "target/release/example.exe".to_string(),
        binary_name: "example.exe".to_string(),
        binary_size: 1000,
        resource_files: resources,
    }
}

fn table<'a>(plan: &'a PackagePlan, name: &str) -> &'a Table {
    plan.tables.iter().find(|t| t.name == name).unwrap()
}

fn int_cell(v: &Value) -> i32 {
    match v {
        Value::Int(n) => *n,
        other => panic!("not an integer: {other:?}"),
    }
}

fn text(v: &Value) -> &str {
    match v {
        Value::Str(s) => s.as_str(),
        other => panic!("not a string: {other:?}"),
    }
}

fn guid(v: &Value) -> [u8; 16] {
    match v {
        Value::Guid(g) => g.bytes,
        other => panic!("not a guid: {other:?}"),
    }
}

#[test]
fn tree_groups_files_by_directory() {
    let mut es = vec![entry("a/b/f1", 1), entry("a/b/f2", 2), entry("a/c/f3", 3)];
    let dirs = collect_directory_info("App", &mut es);
    assert_eq!(dirs.len(), 4);
    assert_eq!(dirs[0].key, "INSTALLDIR");
    assert_eq!(dirs[0].parent_key, "ProgramFilesFolder");
    assert_eq!(dirs[0].name, "App");
    let non_root: Vec<Vec<String>> = dirs[1..].iter().map(|d| d.path.clone()).collect();
    assert_eq!(non_root, vec![vec!["a".to_string()], vec!["a".to_string(), "b".to_string()], vec!["a".to_string(), "c".to_string()]]);
    assert_eq!(dirs[1].key, "RDIR0000");
    assert_eq!(dirs[2].key, "RDIR0001");
    assert_eq!(dirs[3].key, "RDIR0002");
    assert_eq!(dirs[2].parent_key, "RDIR0000");
    assert_eq!(dirs[3].parent_key, "RDIR0000");
    assert_eq!(dirs[1].parent_key, "INSTALLDIR");
    assert_eq!(es[0].component_key, es[1].component_key);
    assert_ne!(es[0].component_key, es[2].component_key);
    assert_eq!(es[0].component_key, "RDIR0001");
    assert_eq!(es[2].component_key, "RDIR0002");
    assert_eq!(dirs[2].files, vec!["f1".to_string(), "f2".to_string()]);
    assert!(dirs[1].files.is_empty());
}

#[test]
fn collected_entries_binary_first() {
    let es = collect_resource_info(
        "target/app.exe",
        "app.exe",
        10,
        &vec![("../assets/logo.png".to_string(), 5), ("/etc/app.conf".to_string(), 7)],
    );
    assert_eq!(es.len(), 3);
    assert_eq!(es[0].dest_path, vec!["app.exe".to_string()]);
    assert_eq!(es[0].filename, "app.exe");
    assert_eq!(es[1].dest_path, vec!["Resources", "_up_", "assets", "logo.png"]);
    assert_eq!(es[1].filename, "logo.png");
    assert_eq!(es[1].size, 5);
    assert_eq!(es[2].dest_path, vec!["Resources", "_root_", "etc", "app.conf"]);
    assert_eq!(es[2].source_path, "/etc/app.conf");
}

#[test]
fn same_filename_never_shares_a_cabinet() {
    let es = vec![entry("a/x", 1), entry("b/x", 1), entry("c/y", 1), entry("d/x", 1)];
    let cabs = divide_resources_into_cabinets(es);
    assert_eq!(cabs.len(), 3);
    let names: Vec<Vec<String>> = cabs.iter().map(|c| c.resources.iter().map(|r| r.source_path.clone()).collect()).collect();
    assert_eq!(names[0], vec!["src/a/x", "src/c/y"]);
    assert_eq!(names[1], vec!["src/b/x"]);
    assert_eq!(names[2], vec!["src/d/x"]);
    assert_eq!(cabs[0].name, "rsrc0000.cab");
    assert_eq!(cabs[2].name, "rsrc0002.cab");
}

#[test]
fn oversized_file_gets_a_cabinet_alone() {
    let es = vec![entry("small1", 10), entry("huge", CABINET_MAX_SIZE + 1), entry("small2", CABINET_MAX_SIZE - 10)];
    let cabs = divide_resources_into_cabinets(es);
    assert_eq!(cabs.len(), 2);
    assert_eq!(cabs[0].resources.len(), 2);
    assert_eq!(cabs[0].resources[1].filename, "small2");
    assert_eq!(cabs[1].resources.len(), 1);
    assert_eq!(cabs[1].resources[0].filename, "huge");
    for c in &cabs {
        let total: u64 = c.resources.iter().map(|r| r.size).sum();
        assert!(total <= CABINET_MAX_SIZE || c.resources.len() == 1);
    }
}

#[test]
fn file_count_limit_splits_in_order() {
    let es: Vec<ResourceEntry> = (0..2500).map(|i| entry(&format!("f{i}"), 1)).collect();
    let cabs = divide_resources_into_cabinets(es);
    let counts: Vec<usize> = cabs.iter().map(|c| c.resources.len()).collect();
    assert_eq!(counts, vec![CABINET_MAX_FILES, CABINET_MAX_FILES, 500]);
    let all: Vec<String> = cabs.iter().flat_map(|c| c.resources.iter().map(|r| r.filename.clone())).collect();
    let expected: Vec<String> = (0..2500).map(|i| format!("f{i}")).collect();
    assert_eq!(all, expected);
}

#[test]
fn empty_input_has_no_cabinets() {
    assert!(divide_resources_into_cabinets(Vec::new()).is_empty());
}

#[test]
fn folders_stay_within_the_limit() {
    let es = vec![entry("a", 0x8000), entry("b", 1), entry("c", 1)];
    assert_eq!(cabinet_folders(&es), vec![1, 2]);
    let es = vec![entry("a", 0x4000), entry("b", 0x3fff), entry("c", 1), entry("d", 5)];
    assert_eq!(cabinet_folders(&es), vec![3, 1]);
    let es = vec![entry("a", u64::MAX), entry("b", u64::MAX)];
    assert_eq!(cabinet_folders(&es), vec![1, 1]);
    let es = vec![entry("a", 0x7fff), entry("b", 0x7fff)];
    assert_eq!(cabinet_folders(&es), vec![1, 1]);
    let es = vec![entry("a", 0x4000), entry("b", 0x4000), entry("c", 1), entry("d", 0)];
    assert_eq!(cabinet_folders(&es), vec![2, 2]);
    let es = vec![entry("a", 0x9000), entry("b", 1)];
    assert_eq!(cabinet_folders(&es), vec![1, 1]);
    assert!(cabinet_folders(&Vec::new()).is_empty());
}

#[test]
fn guids_are_content_seeded() {
    let a = generate_package_guid("com.example.app");
    let b = generate_package_guid("com.example.app");
    let c = generate_package_guid("com.example.other");
    assert_eq!(a.bytes, b.bytes);
    assert_ne!(a.bytes, c.bytes);
    assert_eq!(a.bytes, [149, 76, 105, 254, 132, 64, 89, 112, 164, 24, 105, 144, 143, 201, 169, 130]);
    assert_ne!(a.bytes, uuid_namespace().bytes);
    let files = vec!["a.txt".to_string(), "b.txt".to_string()];
    let comp = generate_component_guid(&a, &files);
    assert_eq!(comp.bytes, [206, 209, 152, 20, 16, 216, 94, 16, 185, 171, 220, 39, 93, 211, 180, 96]);
    let reordered = generate_component_guid(&a, &vec!["b.txt".to_string(), "a.txt".to_string()]);
    assert_eq!(comp.bytes, reordered.bytes);
    let other = generate_component_guid(&a, &vec!["a.txt".to_string()]);
    assert_ne!(comp.bytes, other.bytes);
}

#[test]
fn single_binary_package() {
    let plan = plan_package(&info(Vec::new())).ok().unwrap();
    assert_eq!(plan.cabinets.len(), 1);
    let file = table(&plan, "File");
    assert_eq!(file.rows.len(), 1);
    assert_eq!(text(&file.rows[0][0]), "example.exe");
    assert_eq!(text(&file.rows[0][1]), "INSTALLDIR");
    assert_eq!(int_cell(&file.rows[0][3]), 1000);
    assert_eq!(int_cell(&file.rows[0][6]), 0x200);
    assert_eq!(int_cell(&file.rows[0][7]), 1);
    let media = table(&plan, "Media");
    assert_eq!(media.rows.len(), 1);
    assert_eq!(int_cell(&media.rows[0][0]), 1);
    assert_eq!(int_cell(&media.rows[0][1]), 1);
    assert_eq!(text(&media.rows[0][3]), "#rsrc0000.cab");
    let component = table(&plan, "Component");
    assert_eq!(component.rows.len(), 1);
    assert_eq!(text(&component.rows[0][0]), "INSTALLDIR");
    assert_eq!(text(&component.rows[0][5]), "example.exe");
    assert_eq!(plan.icon_name, "example.exe.ico");
    assert_eq!(plan.tables.len(), 15);
}

#[test]
fn thousand_file_limit_gives_two_cabinets() {
    let resources: Vec<(String, u64)> = (0..1199).map(|i| (format!("data/file{i}.dat"), 3)).collect();
    let plan = plan_package(&info(resources)).ok().unwrap();
    let counts: Vec<usize> = plan.cabinets.iter().map(|c| c.resources.len()).collect();
    assert_eq!(counts, vec![1000, 200]);
    let media = table(&plan, "Media");
    let last: Vec<i32> = media.rows.iter().map(|r| int_cell(&r[1])).collect();
    assert_eq!(last, vec![1000, 1200]);
    let file = table(&plan, "File");
    let seqs: Vec<i32> = file.rows.iter().map(|r| int_cell(&r[7])).collect();
    let expected: Vec<i32> = (1..=1200).collect();
    assert_eq!(seqs, expected);
}

#[test]
fn rebuild_reproduces_identifiers() {
    let resources = vec![("data/a.txt".to_string(), 4), ("data/b.txt".to_string(), 5)];
    let first = plan_package(&info(resources.clone())).ok().unwrap();
    let second = plan_package(&info(resources)).ok().unwrap();
    assert_eq!(first.product_code.bytes, second.product_code.bytes);
    let c1 = table(&first, "Component");
    let c2 = table(&second, "Component");
    assert_eq!(c1.rows.len(), 2);
    for (r1, r2) in c1.rows.iter().zip(c2.rows.iter()) {
        assert_eq!(guid(&r1[1]), guid(&r2[1]));
        assert_eq!(text(&r1[0]), text(&r2[0]));
    }
    assert_eq!(format!("{:?}", first.tables), format!("{:?}", second.tables));
    let changed = plan_package(&info(vec![("data/a.txt".to_string(), 4)])).ok().unwrap();
    let c3 = table(&changed, "Component");
    assert_ne!(guid(&c1.rows[1][1]), guid(&c3.rows[1][1]));
    assert_eq!(guid(&c1.rows[0][1]), guid(&c3.rows[0][1]));
}

#[test]
fn duplicate_filenames_are_reported() {
    let resources = vec![("one/x.txt".to_string(), 1), ("two/x.txt".to_string(), 1)];
    match plan_package(&info(resources)) {
        Err(BuildError::DuplicateFile(d)) => {
            assert_eq!(d.filename, "x.txt");
            assert_eq!(d.first_source, "one/x.txt");
            assert_eq!(d.second_source, "two/x.txt");
        }
        _ => panic!("expected a duplicate"),
    }
    let es = vec![entry("p/q", 1), entry("r", 1)];
    assert!(check_unique_filenames(&es).is_ok());
}

#[test]
fn too_large_file_is_rejected() {
    let mut i = info(Vec::new());
    i.binary_size = 0x8000_0000;
    assert!(matches!(plan_package(&i), Err(BuildError::Table(TableError::FileTooLarge))));
}

#[test]
fn property_table_contents() {
    let plan = plan_package(&info(Vec::new())).ok().unwrap();
    let property = table(&plan, "Property");
    assert_eq!(property.rows.len(), 11);
    assert_eq!(text(&property.rows[0][1]), "Ferris, Crab");
    assert_eq!(guid(&property.rows[1][1]), plan.product_code.bytes);
    assert_eq!(text(&property.rows[2][0]), "ProductLanguage");
    assert_eq!(text(&property.rows[2][1]), "1033");
    assert_eq!(text(&property.rows[3][1]), "Example App");
    assert_eq!(text(&property.rows[4][1]), "1.2.3");
}

#[test]
fn directory_and_feature_tables() {
    let plan = plan_package(&info(vec![("images/logo.png".to_string(), 9)])).ok().unwrap();
    let directory = table(&plan, "Directory");
    let keys: Vec<&str> = directory.rows.iter().map(|r| text(&r[0])).collect();
    assert_eq!(keys, vec!["TARGETDIR", "ProgramFilesFolder", "INSTALLDIR", "RDIR0000", "RDIR0001"]);
    assert!(matches!(directory.rows[0][1], Value::Null));
    assert_eq!(text(&directory.rows[4][1]), "RDIR0000");
    assert_eq!(text(&directory.rows[4][2]), "images");
    let fc = table(&plan, "FeatureComponents");
    let comps: Vec<&str> = fc.rows.iter().map(|r| text(&r[1])).collect();
    assert_eq!(comps, vec!["INSTALLDIR", "RDIR0001"]);
    let feature = table(&plan, "Feature");
    assert_eq!(text(&feature.rows[0][0]), "MainFeature");
    assert_eq!(text(&feature.rows[0][2]), "Example App");
}

#[test]
fn wizard_tables_are_complete() {
    let plan = plan_package(&info(Vec::new())).ok().unwrap();
    assert_eq!(table(&plan, "InstallExecuteSequence").rows.len(), 24);
    assert_eq!(table(&plan, "InstallUISequence").rows.len(), 9);
    let dialogs = table(&plan, "Dialog");
    let controls = table(&plan, "Control");
    let events = table(&plan, "ControlEvent");
    assert_eq!(dialogs.rows.len(), 6);
    assert_eq!(controls.rows.len(), 38);
    assert_eq!(events.rows.len(), 20);
    assert_eq!(table(&plan, "EventMapping").rows.len(), 2);
    assert_eq!(table(&plan, "TextStyle").rows.len(), 3);
    for e in &events.rows {
        assert!(controls.rows.iter().any(|c| text(&c[0]) == text(&e[0]) && text(&c[1]) == text(&e[1])));
    }
    let seq: Vec<i32> = table(&plan, "InstallExecuteSequence").rows.iter().map(|r| int_cell(&r[2])).collect();
    assert!(seq.windows(2).all(|w| w[0] < w[1]));
    let icon = table(&plan, "Icon");
    assert!(matches!(icon.rows[0][1], Value::Binary));
}

#[test]
fn sequence_numbers_must_fit() {
    let resources: Vec<ResourceEntry> = (0..0x8000).map(|i| entry(&format!("f{i}"), 1)).collect();
    let cabs = vec![Cabinet { name: "rsrc0000.cab".to_string(), resources }];
    assert!(matches!(create_file_table(&cabs), Err(TableError::TooManyFiles)));
    assert!(matches!(create_media_table(&cabs), Err(TableError::TooManyFiles)));
    let small = vec![Cabinet { name: "rsrc0000.cab".to_string(), resources: vec![entry("big", 0x8000_0000)] }];
    assert!(matches!(create_file_table(&small), Err(TableError::FileTooLarge)));
    let ok = create_media_table(&small).ok().unwrap();
    assert_eq!(int_cell(&ok.rows[0][1]), 1);
}

#[test]
fn file_table_rejects_shared_filenames() {
    let cabs = vec![
        Cabinet { name: "rsrc0000.cab".to_string(), resources: vec![entry("a/x.txt", 1), entry("b/y.txt", 1)] },
        Cabinet { name: "rsrc0001.cab".to_string(), resources: vec![entry("c/x.txt", 1)] },
    ];
    match create_file_table(&cabs) {
        Err(TableError::DuplicateFile(d)) => {
            assert_eq!(d.filename, "x.txt");
            assert_eq!(d.first_source, "src/a/x.txt");
            assert_eq!(d.second_source, "src/c/x.txt");
        }
        other => panic!("expected a duplicate, got {other:?}"),
    }
    let es = vec![entry("p/q", 1), entry("r/q", 1), entry("s", 1)];
    match check_unique_filenames(&es) {
        Err(d) => {
            assert_eq!(d.first_source, "src/p/q");
            assert_eq!(d.second_source, "src/r/q");
        }
        Ok(()) => panic!("expected a duplicate"),
    }
}

#[test]
fn first_ico_file_is_the_icon() {
    let paths: Vec<String> = ["icons/a.png", "icons/.ico", "icons/b.ico", "c.ico"].iter().map(|s| s.to_string()).collect();
    assert_eq!(first_ico_icon(&paths), Some(2));
    let none: Vec<String> = vec!["a.icns".to_string(), "ico".to_string()];
    assert_eq!(first_ico_icon(&none), None);
}

#[test]
fn fitting_entries_share_one_cabinet() {
    let es: Vec<ResourceEntry> = (0..CABINET_MAX_FILES).map(|i| entry(&format!("g{i}"), 7)).collect();
    let cabs = divide_resources_into_cabinets(es);
    assert_eq!(cabs.len(), 1);
    assert_eq!(cabs[0].resources.len(), CABINET_MAX_FILES);
    assert_eq!(cabs[0].resources[999].filename, "g999");
}
