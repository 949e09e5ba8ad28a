use cargo_deps::app::{command_for, App, Command, Event, KeyCode};
use cargo_deps::dependency::Dependency;
use cargo_deps::metadata::{DependencyKind, Edge, Graph, LoadError, Package};

fn dep(name: &str) -> Dependency {
    Dependency {
        name: name.to_string(),
        version: "1.0.0".to_string(),
        locked_version: Some("1.0.0".to_string()),
        kind: "normal".to_string(),
        enabled_features: vec![],
        disabled_features: vec![],
        all_features: vec![],
    }
}

fn app_of(n: usize) -> App {
    App::with_dependencies((0..n).map(|i| dep(&format!("dep{}", i))).collect())
}

#[test]
fn a_new_session_selects_the_first_entry() {
    let app = app_of(3);
    assert_eq!(app.selected(), Some(0));
    assert_eq!(app.selected_dep().map(|d| d.name.as_str()), Some("dep0"));
    assert_eq!(app.dependencies().len(), 3);
}

#[test]
fn next_wraps_around() {
    let mut app = app_of(3);
    app.next();
    assert_eq!(app.selected(), Some(1));
    app.next();
    assert_eq!(app.selected(), Some(2));
    app.next();
    assert_eq!(app.selected(), Some(0));
}

#[test]
fn previous_wraps_around() {
    let mut app = app_of(3);
    app.previous();
    assert_eq!(app.selected(), Some(2));
    app.previous();
    assert_eq!(app.selected(), Some(1));
    app.previous();
    assert_eq!(app.selected(), Some(0));
}

#[test]
fn a_full_turn_returns_to_the_start() {
    for n in 1..6 {
        for start in 0..n {
            let mut app = app_of(n);
            for _ in 0..start {
                app.next();
            }
            assert_eq!(app.selected(), Some(start));
            for _ in 0..n {
                app.next();
            }
            assert_eq!(app.selected(), Some(start));
            for _ in 0..n {
                app.previous();
            }
            assert_eq!(app.selected(), Some(start));
        }
    }
}

#[test]
fn a_step_and_a_step_back_cancel() {
    for n in 1..6 {
        for start in 0..n {
            let mut app = app_of(n);
            for _ in 0..start {
                app.next();
            }
            app.next();
            app.previous();
            assert_eq!(app.selected(), Some(start));
            app.previous();
            app.next();
            assert_eq!(app.selected(), Some(start));
        }
    }
}

#[test]
fn an_empty_list_has_no_selection() {
    let mut app = app_of(0);
    assert_eq!(app.selected(), None);
    assert!(app.selected_dep().is_none());
    app.next();
    assert_eq!(app.selected(), None);
    app.previous();
    assert_eq!(app.selected(), None);
    app.next();
    app.next();
    app.previous();
    assert_eq!(app.selected(), None);
    assert!(app.selected_dep().is_none());
}

#[test]
fn a_single_entry_stays_selected() {
    let mut app = app_of(1);
    app.next();
    assert_eq!(app.selected(), Some(0));
    app.previous();
    assert_eq!(app.selected(), Some(0));
}

#[test]
fn selected_dep_follows_the_cursor() {
    let mut app = app_of(3);
    app.next();
    app.next();
    assert_eq!(app.selected_dep(), Some(&dep("dep2")));
}

#[test]
fn keys_and_their_commands() {
    assert_eq!(command_for(Event::Press(KeyCode::Char('q'))), Command::Quit);
    assert_eq!(command_for(Event::Press(KeyCode::Esc)), Command::Quit);
    assert_eq!(command_for(Event::Press(KeyCode::Char('j'))), Command::Next);
    assert_eq!(command_for(Event::Press(KeyCode::Down)), Command::Next);
    assert_eq!(command_for(Event::Press(KeyCode::Char('k'))), Command::Previous);
    assert_eq!(command_for(Event::Press(KeyCode::Up)), Command::Previous);
    assert_eq!(command_for(Event::Press(KeyCode::Char('u'))), Command::Previous);
    assert_eq!(command_for(Event::Press(KeyCode::Char('s'))), Command::Nothing);
    assert_eq!(command_for(Event::Press(KeyCode::Char(' '))), Command::Nothing);
    assert_eq!(command_for(Event::Press(KeyCode::Char('Q'))), Command::Nothing);
    assert_eq!(command_for(Event::Press(KeyCode::Other)), Command::Nothing);
    assert_eq!(command_for(Event::Other), Command::Nothing);
}

#[test]
fn events_move_the_cursor_or_end_the_session() {
    let mut app = app_of(3);
    assert!(app.handle_event(Event::Press(KeyCode::Down)));
    assert_eq!(app.selected(), Some(1));
    assert!(app.handle_event(Event::Press(KeyCode::Char('j'))));
    assert_eq!(app.selected(), Some(2));
    assert!(app.handle_event(Event::Press(KeyCode::Up)));
    assert_eq!(app.selected(), Some(1));
    assert!(app.handle_event(Event::Press(KeyCode::Char('u'))));
    assert_eq!(app.selected(), Some(0));
    assert!(app.handle_event(Event::Press(KeyCode::Char('k'))));
    assert_eq!(app.selected(), Some(2));
    assert!(app.handle_event(Event::Press(KeyCode::Char('x'))));
    assert!(app.handle_event(Event::Other));
    assert_eq!(app.selected(), Some(2));
    assert!(!app.handle_event(Event::Press(KeyCode::Char('q'))));
    assert!(!app.handle_event(Event::Press(KeyCode::Esc)));
    assert_eq!(app.selected(), Some(2));
}

#[test]
fn a_session_starts_from_a_graph() {
    let g = Graph {
        root_dependencies: Some(vec![
            Edge {
                name: "serde".to_string(),
                req: "^1".to_string(),
                kind: DependencyKind::Normal,
                target: None,
                features: vec![],
            },
            Edge {
                name: "libc".to_string(),
                req: "^0.2".to_string(),
                kind: DependencyKind::Build,
                target: None,
                features: vec![],
            },
        ]),
        packages: vec![
            Package { name: "serde".to_string(), version: "1.0.195".to_string(), features: vec![] },
            Package { name: "libc".to_string(), version: "0.2.150".to_string(), features: vec![] },
        ],
    };
    let app = App::new(&g).unwrap();
    assert_eq!(app.selected(), Some(0));
    assert_eq!(app.selected_dep().map(|d| d.name.as_str()), Some("libc"));
    assert_eq!(app.dependencies().len(), 2);
}

#[test]
fn a_session_without_a_root_package_does_not_start() {
    let g = Graph { root_dependencies: None, packages: vec![] };
    match App::new(&g) {
        Err(e) => assert_eq!(e, LoadError::MissingRootPackage),
        Ok(_) => panic!("a session started without a root package"),
    }
}

#[test]
fn a_session_on_a_root_without_dependencies_selects_nothing() {
    let g = Graph { root_dependencies: Some(vec![]), packages: vec![] };
    let mut app = App::new(&g).unwrap();
    assert_eq!(app.selected(), None);
    app.next();
    app.previous();
    assert_eq!(app.selected(), None);
}
