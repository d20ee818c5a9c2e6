use devenv_cloud::zitadel::{
    grants_have_beta_user, route_action, ActionError, ActionRoute, Grant,
};

#[test]
fn test_action_error_creation() {
    let error = ActionError::from("Test error");
    assert_eq!(format!("{}", error.message()), "Action error: Test error");
}

#[test]
fn test_action_error_from_string() {
    let error = ActionError::from("Another error".to_string());
    assert!(format!("{}", error.message()).contains("Another error"));
}

#[test]
fn test_route_action_by_function_first() {
    assert_eq!(route_action("function/preuserinfo", ""), ActionRoute::PreUserInfo);
    assert_eq!(route_action("function/other", ""), ActionRoute::UnhandledFunction);
    // a non-empty function wins over any method
    assert_eq!(
        route_action(
            "function/other",
            "/zitadel.user.v2.UserService/RetrieveIdentityProviderIntent"
        ),
        ActionRoute::UnhandledFunction
    );
}

#[test]
fn test_route_action_by_method() {
    assert_eq!(
        route_action("", "/zitadel.user.v2.UserService/RetrieveIdentityProviderIntent"),
        ActionRoute::RetrieveIdpIntent
    );
    assert_eq!(route_action("", "/other"), ActionRoute::UnhandledMethod);
}

#[test]
fn test_grants_have_beta_user() {
    let grants = vec![
        Grant { project_id: "p1".to_string(), roles: vec!["viewer".to_string()] },
        Grant {
            project_id: "p2".to_string(),
            roles: vec!["admin".to_string(), "beta_user".to_string()],
        },
    ];
    assert!(grants_have_beta_user(&grants));

    let without = vec![Grant { project_id: "p1".to_string(), roles: vec!["viewer".to_string()] }];
    assert!(!grants_have_beta_user(&without));
    assert!(!grants_have_beta_user(&Vec::new()));
}
