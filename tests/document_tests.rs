use mesh_editor::{next_version_number, Cli, LoadPlan};

#[test]
fn load_plan_for_each_request() {
    let plain = Cli::new(".".to_string(), None);
    assert_eq!(plain.load_plan(true), LoadPlan::FromFolder { create_folder: false });
    assert_eq!(plain.load_plan(false), LoadPlan::FromFolder { create_folder: true });
    let versioned = Cli::new("models".to_string(), Some(3));
    assert_eq!(versioned.load_plan(true), LoadPlan::FromVersion(3));
    assert_eq!(versioned.load_plan(false), LoadPlan::DirectoryNotFound);
    assert_eq!(versioned.mesh_folder, "models");
}

#[test]
fn next_version_fills_the_lowest_gap() {
    assert_eq!(next_version_number(&[]), 1);
    assert_eq!(next_version_number(&[1, 2, 3]), 4);
    assert_eq!(next_version_number(&[3, 1, 4]), 2);
    assert_eq!(next_version_number(&[-5, 0, 2, 2]), 1);
    assert_eq!(next_version_number(&[2, 1, 1]), 3);
}
