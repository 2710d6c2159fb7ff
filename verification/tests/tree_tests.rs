use bgutil_rs::text::{join_dotted, replace_stars, split_on};
use bgutil_rs::tree::{create_plan, delete_plan, DirectoryRow, TreeError};

fn components_of(row: &DirectoryRow) -> Vec<String> {
    row.components.clone()
}

#[test]
fn split_on_dots() {
    assert_eq!(split_on("a.b.c", '.'), vec!["a", "b", "c"]);
    assert_eq!(split_on("top", '.'), vec!["top"]);
    assert_eq!(split_on("", '.'), vec![""]);
    assert_eq!(split_on("a..b", '.'), vec!["a", "", "b"]);
    assert_eq!(split_on("a:b", ':'), vec!["a", "b"]);
}

#[test]
fn join_prefixes() {
    let parts = vec!["a".to_string(), "b".to_string(), "c".to_string()];
    assert_eq!(join_dotted(&parts, 0), "");
    assert_eq!(join_dotted(&parts, 1), "a");
    assert_eq!(join_dotted(&parts, 2), "a.b");
    assert_eq!(join_dotted(&parts, 3), "a.b.c");
}

#[test]
fn replace_stars_with_percent() {
    assert_eq!(replace_stars("a*b*"), "a%b%");
    assert_eq!(replace_stars("plain"), "plain");
    assert_eq!(replace_stars("*"), "%");
}

#[test]
fn create_plan_builds_full_directory_chain() {
    let plan = create_plan("a.b.c").unwrap();
    assert_eq!(plan.directories.len(), 3);

    assert_eq!(plan.directories[0].name, "a");
    assert_eq!(plan.directories[0].parent, ".");
    assert_eq!(components_of(&plan.directories[0]), vec!["a", "__END__"]);

    assert_eq!(plan.directories[1].name, "a.b");
    assert_eq!(plan.directories[1].parent, "a.");
    assert_eq!(components_of(&plan.directories[1]), vec!["a", "b", "__END__"]);

    assert_eq!(plan.directories[2].name, "a.b.c");
    assert_eq!(plan.directories[2].parent, "a.b.");
    assert_eq!(components_of(&plan.directories[2]), vec!["a", "b", "c", "__END__"]);

    assert_eq!(plan.metric_row.name, "a.b.c");
    assert_eq!(plan.metric_row.parent, "a.b.");
    assert_eq!(components_of(&plan.metric_row), vec!["a", "b", "c", "__END__"]);

    assert_eq!(plan.metadata_name, "a.b.c");
}

#[test]
fn create_plan_single_segment() {
    let plan = create_plan("top").unwrap();
    assert_eq!(plan.directories.len(), 1);
    assert_eq!(plan.directories[0].name, "top");
    assert_eq!(plan.directories[0].parent, ".");
    assert_eq!(components_of(&plan.directories[0]), vec!["top", "__END__"]);
    assert_eq!(plan.metric_row.name, "top");
}

#[test]
fn create_plan_seeds_default_config() {
    let plan = create_plan("x.y").unwrap();
    let pairs: Vec<(String, String)> = plan.config.clone();
    assert_eq!(
        pairs,
        vec![
            ("aggregator".to_string(), "average".to_string()),
            ("carbon_xfilesfactor".to_string(), "0.500000".to_string()),
            ("retention".to_string(), "11520*60s:720*3600s:730*86400s".to_string()),
        ]
    );
}

#[test]
fn create_plan_assigns_fresh_hyphenated_ids() {
    let a = create_plan("x").unwrap();
    let b = create_plan("x").unwrap();
    assert_eq!(a.metadata_id.len(), 36);
    assert_eq!(b.metadata_id.len(), 36);
    assert_eq!(a.metadata_id.chars().filter(|c| *c == '-').count(), 4);
    // Random ids: two creations of the same name must not collide.
    assert_ne!(a.metadata_id, b.metadata_id);
}

#[test]
fn delete_plan_targets_each_record_once() {
    let plan = delete_plan("a.b.c");
    assert_eq!(plan.metadata_name, "a.b.c");
    assert_eq!(plan.metric_name, "a.b.c");
    assert_eq!(plan.directory_name, "a.b.c");
}

#[test]
fn create_then_delete_leaves_only_ancestors() {
    // The deletion plan removes exactly the created metadata record, leaf row
    // and leaf directory row; the ancestor directory rows of the creation
    // plan are not among its targets.
    let created = create_plan("a.b.c").unwrap();
    let deleted = delete_plan("a.b.c");
    assert_eq!(created.metadata_name, deleted.metadata_name);
    assert_eq!(created.metric_row.name, deleted.metric_name);
    assert_eq!(created.directories[2].name, deleted.directory_name);
    for ancestor in &created.directories[..2] {
        assert_ne!(ancestor.name, deleted.directory_name);
    }
}

#[test]
fn create_plan_rejects_paths_deeper_than_the_schema() {
    let deepest = vec!["s"; 15].join(".");
    let plan = create_plan(&deepest).unwrap();
    assert_eq!(plan.directories.len(), 15);
    assert_eq!(plan.directories[14].components.len(), 16);

    let too_deep = vec!["s"; 16].join(".");
    assert!(matches!(create_plan(&too_deep), Err(TreeError::PathTooDeep)));
}
