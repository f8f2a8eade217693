use swaytab::config::TabConfig;
use swaytab::error::{ProtocolFault, TabError};
use swaytab::focus::{failure_reports, focus_command, next_action, Action, CommandOutcome};
use swaytab::tree::{tree_to_vec_of_names, Node};
use swaytab::wire::{candidate_lines, parse_selection};

#[test]
fn focus_command_names_the_element() {
    assert_eq!(focus_command(3), "[con_id=3] focus");
    assert_eq!(focus_command(-12), "[con_id=-12] focus");
    assert_eq!(focus_command(94532735639728), "[con_id=94532735639728] focus");
}

#[test]
fn failed_parts_are_reported_in_order() {
    let outcomes = vec![
        CommandOutcome { success: true, error: None },
        CommandOutcome { success: false, error: Some("\"no such con\"".to_string()) },
        CommandOutcome { success: false, error: None },
        CommandOutcome { success: true, error: Some("ignored".to_string()) },
        CommandOutcome { success: false, error: Some("second".to_string()) },
    ];
    assert_eq!(failure_reports(&outcomes), vec!["Error: \"no such con\"", "Error: second"]);
    assert!(failure_reports(&Vec::new()).is_empty());
}

#[test]
fn selection_leads_to_focus() {
    match next_action(&Ok((3, " 'Bar'\n".to_string()))) {
        Action::Focus(command) => assert_eq!(command, "[con_id=3] focus"),
        _ => panic!("no focus"),
    }
}

#[test]
fn errors_lead_to_a_report_or_an_end() {
    match next_action(&Err(TabError::EmptyFilterResult)) {
        Action::Report(text) => assert_eq!(text, "filter command did not return any item"),
        _ => panic!("no report"),
    }
    match next_action(&Err(TabError::FilterCommandFailed("gone".to_string()))) {
        Action::Report(text) => assert_eq!(text, "Filter Command Failed gone"),
        _ => panic!("no report"),
    }
    match next_action(&Err(TabError::ProtocolViolation(ProtocolFault::InvalidId))) {
        Action::Abort(text) => assert_eq!(text, "Failed to parse fzf stdout id string to i64"),
        _ => panic!("no end"),
    }
    match next_action(&Err(TabError::ProtocolViolation(ProtocolFault::MissingSeparator))) {
        Action::Abort(text) => assert_eq!(text, "Failed to split fzf stdout at ','"),
        _ => panic!("no end"),
    }
}

#[test]
fn only_violations_are_fatal() {
    assert!(TabError::ProtocolViolation(ProtocolFault::InvalidId).fatal());
    assert!(TabError::ProtocolViolation(ProtocolFault::MissingSeparator).fatal());
    assert!(!TabError::EmptyFilterResult.fatal());
    assert!(!TabError::FilterCommandFailed(String::new()).fatal());
}

#[test]
fn from_tree_to_focus() {
    let leaf = |id: i64, name: Option<&str>| Node {
        id,
        name: name.map(|n| n.to_string()),
        nodes: Vec::new(),
        floating_nodes: Vec::new(),
    };
    let b = Node { id: 2, name: None, nodes: vec![leaf(3, Some("Bar"))], floating_nodes: Vec::new() };
    let root = Node {
        id: 10,
        name: None,
        nodes: vec![leaf(1, Some("Foo")), b],
        floating_nodes: Vec::new(),
    };
    let flat = tree_to_vec_of_names(root);
    assert_eq!(
        flat,
        vec![
            (1, "Foo".to_string()),
            (3, "Bar".to_string()),
            (2, "null".to_string()),
            (10, "null".to_string()),
        ]
    );
    let at = |id: i64| flat.iter().position(|c| c.0 == id).unwrap();
    assert!(at(3) < at(2));
    assert!(at(2) < at(10));
    assert!(at(1) < at(10));
    let lines = candidate_lines(&flat);
    assert_eq!(lines, vec!["1, 'Foo'\n", "3, 'Bar'\n", "2, 'null'\n", "10, 'null'\n"]);
    let result = parse_selection("3, 'Bar'\n");
    match next_action(&result) {
        Action::Focus(command) => assert_eq!(command, "[con_id=3] focus"),
        _ => panic!("no focus"),
    }
    assert_eq!(result.unwrap(), (3, " 'Bar'\n".to_string()));
}

#[test]
fn merge_prefers_what_the_other_holds() {
    let mut stored = TabConfig {
        filter_command: Some("fzf".to_string()),
        filter_command_args: Some(vec!["+i".to_string()]),
    };
    stored.merge(TabConfig { filter_command: Some("bemenu".to_string()), filter_command_args: None });
    assert_eq!(stored.filter_command, Some("bemenu".to_string()));
    assert_eq!(stored.filter_command_args, Some(vec!["+i".to_string()]));
    stored.merge(TabConfig {
        filter_command: None,
        filter_command_args: Some(vec!["--multi".to_string(), "-x".to_string()]),
    });
    assert_eq!(stored.filter_command, Some("bemenu".to_string()));
    assert_eq!(stored.filter_command_args, Some(vec!["--multi".to_string(), "-x".to_string()]));
    stored.merge(TabConfig { filter_command: None, filter_command_args: None });
    assert_eq!(stored.filter_command, Some("bemenu".to_string()));
    assert_eq!(stored.filter_command_args, Some(vec!["--multi".to_string(), "-x".to_string()]));
}

#[test]
fn default_config_runs_fzf() {
    let config = TabConfig::default();
    assert_eq!(config.filter_command, Some("fzf".to_string()));
    assert_eq!(config.filter_command_args, None);
}
