use sol2sway::errors::{Error, UnsupportedConstruct};
use sol2sway::project::{compute_line_ranges, Project};
use sol2sway::solidity::{Import, ImportPath, SourceUnit, SourceUnitPart};

fn empty_unit() -> SourceUnit {
    SourceUnit { parts: vec![] }
}

#[test]
fn line_ranges_with_trailing_break() {
    let spans = compute_line_ranges("a\nbb\n");
    assert_eq!(spans, vec![(0, 1), (2, 4)]);
}

#[test]
fn line_ranges_with_partial_final_line() {
    let spans = compute_line_ranges("a\nbb");
    assert_eq!(spans, vec![(0, 1), (2, 4)]);
}

#[test]
fn line_ranges_empty_text() {
    let spans = compute_line_ranges("");
    assert_eq!(spans, vec![]);
}

#[test]
fn line_ranges_single_line_no_break() {
    let spans = compute_line_ranges("abc");
    assert_eq!(spans, vec![(0, 3)]);
}

#[test]
fn register_same_path_twice_keeps_one_entry() {
    let mut project = Project::new();
    project.register_source_unit("/tmp/a.sol".to_string(), "a\n", empty_unit());
    project.register_source_unit("/tmp/a.sol".to_string(), "a\nbb\n", empty_unit());
    assert_eq!(project.source_unit_count(), 1);
    assert!(project.contains_source_unit("/tmp/a.sol"));
    let spans = project.line_ranges_for("/tmp/a.sol").unwrap();
    assert_eq!(spans, &vec![(0, 1), (2, 4)]);
}

#[test]
fn register_two_paths_keeps_both() {
    let mut project = Project::new();
    project.register_source_unit("/tmp/a.sol".to_string(), "a\n", empty_unit());
    project.register_source_unit("/tmp/b.sol".to_string(), "b\n", empty_unit());
    assert_eq!(project.source_unit_count(), 2);
    assert!(project.contains_source_unit("/tmp/a.sol"));
    assert!(project.contains_source_unit("/tmp/b.sol"));
    assert!(!project.contains_source_unit("/tmp/c.sol"));
}

#[test]
fn unregistered_path_has_no_line_ranges() {
    let project = Project::new();
    assert!(project.line_ranges_for("/tmp/a.sol").is_none());
    assert!(!project.contains_source_unit("/tmp/a.sol"));
}

#[test]
fn import_scan_reports_directory_and_filename() {
    let mut project = Project::new();
    let unit = SourceUnit {
        parts: vec![SourceUnitPart::ImportDirective(Import::Plain(ImportPath::Filename(
            "b.sol".to_string(),
        )))],
    };
    project.register_source_unit("/tmp/x/a.sol".to_string(), "import\n", unit);
    let refs = project.import_references().unwrap();
    assert_eq!(refs.len(), 1);
    assert_eq!(refs[0].directory, "/tmp/x");
    assert_eq!(refs[0].filename, "b.sol");
}

#[test]
fn import_scan_rejects_experimental_specifier() {
    let mut project = Project::new();
    let unit = SourceUnit {
        parts: vec![SourceUnitPart::ImportDirective(Import::GlobalSymbol(ImportPath::Path(
            "pkg".to_string(),
        )))],
    };
    project.register_source_unit("/tmp/a.sol".to_string(), "import\n", unit);
    let err = project.import_references().unwrap_err();
    assert_eq!(
        err,
        Error::UnsupportedConstruct(UnsupportedConstruct::ImportPathSpecifier)
    );
}
