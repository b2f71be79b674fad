use ampersona::actions::{parse_action, ActionId, BuiltinAction};

#[test]
fn parse_builtin() {
    let id: ActionId = "read_file".parse().unwrap();
    assert!(id.is_builtin());
    assert_eq!(String::from_utf8(id.text()).unwrap(), "read_file");
}

#[test]
fn parse_custom() {
    let id: ActionId = "custom:zeroclaw/sandbox_escape".parse().unwrap();
    assert!(id.is_custom());
    assert_eq!(
        String::from_utf8(id.text()).unwrap(),
        "custom:zeroclaw/sandbox_escape"
    );
}

#[test]
fn parse_invalid_custom() {
    assert!("custom:noslash".parse::<ActionId>().is_err());
    assert!("custom:/empty".parse::<ActionId>().is_err());
    assert!("custom:empty/".parse::<ActionId>().is_err());
}

#[test]
fn suggest_typo() {
    assert_eq!(BuiltinAction::suggest("delet_data"), None);
    assert_eq!(BuiltinAction::suggest("read_fil"), Some("read_file"));
    assert_eq!(BuiltinAction::suggest("git_pussh"), Some("git_push"));
}

#[test]
fn unknown_action_is_error() {
    assert!(parse_action("launch_rockets").is_err());
}

#[test]
fn edit_distance_exact_value() {
    let a: Vec<u8> = b"kitten".to_vec();
    assert_eq!(ampersona::actions::edit_distance_bytes(&a, b"sitting"), 3);
    assert_eq!(ampersona::actions::edit_distance_bytes(&a, b"kitten"), 0);
}

#[test]
fn validate_action_flags_unknown_vendor() {
    let good: ActionId = "custom:acme/deploy_canary".parse().unwrap();
    assert!(ampersona::actions::validate_action(&good));
    let bad = ActionId::Custom {
        vendor: b"_unknown".to_vec(),
        action: b"whatever".to_vec(),
    };
    assert!(!ampersona::actions::validate_action(&bad));
    assert!(ampersona::actions::is_builtin("deploy"));
    assert!(!ampersona::actions::is_builtin("deplooy"));
}
