use xbase::generator::ProjectGenerator;
use xbase::message::{Level, Message};
use xbase::project::XCodeGenProject;
use xbase::watch::{Event, EventKind};
use xbase::DaemonError;

fn names(v: &[&str]) -> Vec<String> {
    v.iter().map(|s| s.to_string()).collect()
}

#[test]
fn generator_is_identified_from_root_entries() {
    let g = ProjectGenerator::new(&names(&["Sources", "project.yml"]));
    assert!(g.is_xcodegen());
    let g = ProjectGenerator::new(&names(&["Sources", "Project.swift"]));
    assert!(g.is_tuist());
    let g = ProjectGenerator::new(&names(&["Sources", "App.xcodeproj"]));
    assert!(g.is_none());
    // project.yml wins when both config files are present
    let g = ProjectGenerator::new(&names(&["Project.swift", "project.yml"]));
    assert!(g.is_xcodegen());
}

#[test]
fn generator_config_files_are_recognized_by_file_name() {
    assert!(ProjectGenerator::is_genertor_file("/proj/project.yml"));
    assert!(ProjectGenerator::is_genertor_file("/proj/Project.swift"));
    assert!(!ProjectGenerator::is_genertor_file("/proj/Sources/project.yml.bak"));
    assert!(!ProjectGenerator::is_genertor_file("/proj/Package.swift"));
}

#[test]
fn generator_command_lines_are_fixed() {
    assert_eq!(ProjectGenerator::new(&names(&[])).command_line(), None);
    assert_eq!(
        ProjectGenerator::new(&names(&["project.yml"])).command_line(),
        Some(names(&["xcodegen", "generate", "-c"]))
    );
    assert_eq!(
        ProjectGenerator::new(&names(&["Project.swift"])).command_line(),
        Some(names(&["tuist", "generate", "--no-open"]))
    );
}

fn project() -> XCodeGenProject {
    XCodeGenProject::new(
        "/proj".to_string(),
        "App".to_string(),
        names(&["build/**"]),
    )
}

#[test]
fn new_project_counts_its_first_client_and_extends_watchignore() {
    let p = project();
    assert_eq!(p.num_clients, 1);
    assert_eq!(
        p.watchignore,
        names(&["build/**", "**/*.xcodeproj/**", "**/*.xcworkspace/**"])
    );
    assert!(p.targets.is_empty());
}

#[test]
fn merging_targets_preserves_the_watching_flag() {
    let mut p = project();
    p.merge_targets(&vec![
        ("App".to_string(), "iOS".to_string()),
        ("Widget".to_string(), "iOS".to_string()),
    ]);
    assert_eq!(p.targets.len(), 2);
    p.targets[0].watching = true;

    // a regeneration rediscovers the targets with a fresh platform
    p.merge_targets(&vec![
        ("App".to_string(), "macOS".to_string()),
        ("Helper".to_string(), "macOS".to_string()),
    ]);
    assert_eq!(p.targets.len(), 3);
    assert_eq!(p.targets[0].key, "App");
    assert_eq!(p.targets[0].platform, "macOS");
    assert!(p.targets[0].watching);
    assert!(!p.targets[2].watching);
}

#[test]
fn regeneration_is_due_on_config_updates_and_tree_changes() {
    let p = project();
    let config_edit = Event {
        path: "/proj/project.yml".to_string(),
        kind: EventKind::ContentUpdate,
        seen: false,
    };
    assert!(p.should_generate(&config_edit));

    let source_edit = Event {
        path: "/proj/Sources/Main.swift".to_string(),
        kind: EventKind::ContentUpdate,
        seen: false,
    };
    assert!(!p.should_generate(&source_edit));

    let created = Event {
        path: "/proj/Sources/New.swift".to_string(),
        kind: EventKind::Create,
        seen: false,
    };
    assert!(p.should_generate(&created));
}

#[test]
fn compile_flow_reports_failure_with_one_notification() {
    let p = project();
    let begin = p.compile_begin_messages();
    assert_eq!(begin.len(), 4);
    assert_eq!(
        begin[0],
        Message::Notify { level: Level::Info, text: "[App] Compiling".to_string() }
    );

    let (msgs, outcome) = p.compile_finish(false);
    assert_eq!(msgs.len(), 1);
    assert!(matches!(&msgs[0], Message::Notify { level: Level::Error, .. }));
    assert_eq!(
        outcome,
        Err(DaemonError::ProcessError { target: "App".to_string() })
    );

    let (msgs, outcome) = p.compile_finish(true);
    assert_eq!(msgs.len(), 2);
    assert_eq!(outcome, Ok(()));
}

#[test]
fn generate_flow_fails_quietly_and_succeeds_loudly() {
    let p = project();
    let begin = p.generate_begin_messages();
    assert_eq!(begin.len(), 4);

    let (msgs, outcome) = p.generate_finish(false);
    assert!(msgs.is_empty());
    assert_eq!(outcome, Err(DaemonError::GenerateError));

    let (msgs, outcome) = p.generate_finish(true);
    assert_eq!(msgs.len(), 2);
    assert_eq!(
        msgs[0],
        Message::Notify { level: Level::Info, text: "[App] Generated".to_string() }
    );
    assert_eq!(outcome, Ok(()));
}

#[test]
fn client_reference_counting_on_the_project() {
    let mut p = project();
    p.inc_clients();
    assert_eq!(p.num_clients, 2);
    p.dec_clients();
    p.dec_clients();
    assert_eq!(p.num_clients, 0);
}
