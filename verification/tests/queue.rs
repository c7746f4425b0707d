use sol2sway::project::Project;
use sol2sway::solidity::{Import, ImportPath, SourceUnit, SourceUnitPart};

fn unit_importing(filenames: &[&str]) -> SourceUnit {
    SourceUnit {
        parts: filenames
            .iter()
            .map(|f| {
                SourceUnitPart::ImportDirective(Import::Plain(ImportPath::Filename(
                    f.to_string(),
                )))
            })
            .collect(),
    }
}

#[test]
fn chain_of_imports_orders_dependencies_first() {
    // a imports b, b imports c: the queue must order c before b before a.
    let mut project = Project::new();
    project.register_source_unit("/p/a.sol".to_string(), "\n", unit_importing(&["b.sol"]));
    project.register_source_unit("/p/b.sol".to_string(), "\n", unit_importing(&["c.sol"]));
    project.register_source_unit("/p/c.sol".to_string(), "\n", unit_importing(&[]));
    let refs = project.import_references().unwrap();
    assert_eq!(refs.len(), 2);
    assert_eq!(refs[0].filename, "b.sol");
    assert_eq!(refs[1].filename, "c.sol");
    let resolved = vec!["/p/b.sol".to_string(), "/p/c.sol".to_string()];
    let queue = project.create_conversion_queue(&resolved);
    assert_eq!(
        queue,
        vec![
            "/p/c.sol".to_string(),
            "/p/b.sol".to_string(),
            "/p/a.sol".to_string()
        ]
    );
}

#[test]
fn unknown_import_is_appended_at_the_back() {
    let mut project = Project::new();
    project.register_source_unit("/p/a.sol".to_string(), "\n", unit_importing(&["d.sol"]));
    let resolved = vec!["/p/d.sol".to_string()];
    let queue = project.create_conversion_queue(&resolved);
    assert_eq!(queue, vec!["/p/a.sol".to_string(), "/p/d.sol".to_string()]);
}

#[test]
fn queued_import_is_promoted_to_the_front() {
    let mut project = Project::new();
    project.register_source_unit("/p/a.sol".to_string(), "\n", unit_importing(&["b.sol"]));
    project.register_source_unit("/p/b.sol".to_string(), "\n", unit_importing(&[]));
    let resolved = vec!["/p/b.sol".to_string()];
    let queue = project.create_conversion_queue(&resolved);
    assert_eq!(queue, vec!["/p/b.sol".to_string(), "/p/a.sol".to_string()]);
}

#[test]
fn empty_project_yields_empty_queue() {
    let project = Project::new();
    let queue = project.create_conversion_queue(&vec![]);
    assert!(queue.is_empty());
}
