use fs_debounce::project::{Project, ProjectDetails, ProjectNode, ProjectPath};
use fs_debounce::schema::{error_kind_tag, event_kind_tag, parse_error_kind, parse_event_kind};
use fs_debounce::event::{
    AccessKind, AccessMode, CreateKind, DataChange, ErrorKind, EventKind, MetadataKind,
    ModifyKind, RemoveKind, RenameMode,
};

fn node(path: Option<&str>, children: Vec<(&str, ProjectNode)>) -> ProjectNode {
    ProjectNode {
        class_name: None,
        path: path.map(|p| ProjectPath::Required(p.to_string())),
        tree: children.into_iter().map(|(name, child)| (name.to_string(), child)).collect(),
        tags: Vec::new(),
        keep_unknowns: None,
    }
}

fn project(root: ProjectNode) -> Project {
    Project {
        name: "game".to_string(),
        node: root,
        host: None,
        port: None,
        game_id: None,
        place_ids: Vec::new(),
        ignore_globs: Vec::new(),
        syncback: None,
        legacy_scripts: None,
        path: "/work/default.project.json".to_string(),
        workspace_dir: "/work".to_string(),
    }
}

#[test]
fn place_has_a_data_model_at_its_root() {
    let mut game = project(node(None, Vec::new()));
    assert!(!game.is_place());
    game.node.class_name = Some("Folder".to_string());
    assert!(!game.is_place());
    game.node.class_name = Some("DataModel".to_string());
    assert!(game.is_place());
}

#[test]
fn wally_is_found_anywhere_in_the_tree() {
    assert!(!project(node(Some("src"), Vec::new())).is_wally());
    assert!(project(node(Some("Packages"), Vec::new())).is_wally());
    let deep = node(
        None,
        vec![
            ("ReplicatedStorage", node(Some("src/shared"), vec![("Lib", node(None, Vec::new()))])),
            ("ServerScriptService", node(None, vec![("Packages", node(Some("Packages"), Vec::new()))])),
        ],
    );
    assert!(project(deep).is_wally());
    let not_quite = node(None, vec![("Packages", node(Some("ServerPackages"), Vec::new()))]);
    assert!(!project(not_quite).is_wally());
    let optional = ProjectNode {
        class_name: None,
        path: Some(ProjectPath::Optional { optional: "Packages".to_string() }),
        tree: Vec::new(),
        tags: Vec::new(),
        keep_unknowns: None,
    };
    assert!(project(optional).is_wally());
}

#[test]
fn typescript_is_found_by_its_modules_or_its_ignored_files() {
    let plain = project(node(Some("src"), Vec::new()));
    assert!(!plain.is_ts(false));
    assert!(plain.is_ts(true));
    let modules = node(None, vec![("rbxts", node(Some("node_modules/@rbxts"), Vec::new()))]);
    assert!(project(modules).is_ts(false));
    assert!(project(node(Some("@rbxts"), Vec::new())).is_ts(false));
    assert!(!project(node(Some("node_modules/not@rbxts"), Vec::new())).is_ts(false));
    assert!(!project(node(Some("@rbxts/services"), Vec::new())).is_ts(false));
}

#[test]
fn nodes_are_found_by_the_names_on_the_way() {
    let tree = node(
        Some("root"),
        vec![
            ("A", node(Some("a"), vec![("B", node(Some("b"), Vec::new()))])),
            ("C", node(Some("c"), Vec::new())),
        ],
    );
    assert!(tree.is_well_formed());
    let game = project(tree);
    let path = |names: &[&str]| names.iter().map(|n| n.to_string()).collect::<Vec<_>>();
    let found = |names: &[&str]| {
        game.find_node_by_path(&path(names)).and_then(|n| n.path.as_ref()).map(|p| p.path().to_string())
    };
    assert_eq!(found(&[]), Some("root".to_string()));
    assert_eq!(found(&["A"]), Some("a".to_string()));
    assert_eq!(found(&["A", "B"]), Some("b".to_string()));
    assert_eq!(found(&["C"]), Some("c".to_string()));
    assert!(game.find_node_by_path(&path(&["B"])).is_none());
    assert!(game.find_node_by_path(&path(&["A", "B", "C"])).is_none());
    assert!(game.node.child("C").is_some());
    assert!(game.node.child("c").is_none());
}

#[test]
fn report_of_a_project_uses_its_name() {
    let mut game = project(node(None, Vec::new()));
    game.name = String::new();
    let report = game.validate(true, true, None);
    assert_eq!(report.issues, vec!["Project name is empty".to_string()]);
    assert!(!report.success);
}

#[test]
fn tags_round_trip() {
    let kinds = [
        EventKind::Any,
        EventKind::Other,
        EventKind::Access(AccessKind::Any),
        EventKind::Access(AccessKind::Open(AccessMode::Write)),
        EventKind::Access(AccessKind::Close(AccessMode::Execute)),
        EventKind::Create(CreateKind::Folder),
        EventKind::Modify(ModifyKind::Any),
        EventKind::Modify(ModifyKind::Data(DataChange::Content)),
        EventKind::Modify(ModifyKind::Metadata(MetadataKind::AccessTime)),
        EventKind::Modify(ModifyKind::Name(RenameMode::To)),
        EventKind::Modify(ModifyKind::Name(RenameMode::Both)),
        EventKind::Remove(RemoveKind::Other),
    ];
    for kind in kinds {
        assert_eq!(parse_event_kind(event_kind_tag(kind)), Some(kind));
    }
    assert_eq!(event_kind_tag(EventKind::Modify(ModifyKind::Name(RenameMode::From))), "rename-from");
    assert_eq!(
        event_kind_tag(EventKind::Modify(ModifyKind::Metadata(MetadataKind::WriteTime))),
        "modify-metadata-write-time"
    );
    for kind in [ErrorKind::PathNotFound, ErrorKind::WatchNotFound, ErrorKind::MaxFilesWatch] {
        assert_eq!(parse_error_kind(error_kind_tag(kind).unwrap()), Some(kind));
    }
    assert_eq!(error_kind_tag(ErrorKind::Other), None);
}

#[test]
fn tree_needs_names_of_their_own_and_plain_paths() {
    assert!(node(Some("src"), vec![("A", node(None, Vec::new()))]).is_well_formed());
    let twice = node(None, vec![("A", node(None, Vec::new())), ("A", node(None, Vec::new()))]);
    assert!(!twice.is_well_formed());
    let deep = node(None, vec![("B", twice)]);
    assert!(!deep.is_well_formed());
    assert!(!node(Some("src/"), Vec::new()).is_well_formed());
    assert!(!node(Some("./src"), Vec::new()).is_well_formed());
    assert!(!node(None, vec![("A", node(Some("a//b"), Vec::new()))]).is_well_formed());
    assert!(node(Some("../shared/src"), Vec::new()).is_well_formed());
}

#[test]
fn details_take_the_roots_of_a_place_or_the_one_root() {
    let mut game = project(node(None, Vec::new()));
    game.game_id = Some(7);
    game.place_ids = vec![1, 2];
    let details = ProjectDetails::from_project(&game, "1.2.3".to_string(), vec![10u32, 11], 1);
    assert_eq!(details.version, "1.2.3");
    assert_eq!(details.name, "game");
    assert_eq!(details.game_id, Some(7));
    assert_eq!(details.place_ids, vec![1, 2]);
    assert_eq!(details.root_refs, vec![1]);
    game.node.class_name = Some("DataModel".to_string());
    let details = ProjectDetails::from_project(&game, "1.2.3".to_string(), vec![10u32, 11], 1);
    assert_eq!(details.root_refs, vec![10, 11]);
}
