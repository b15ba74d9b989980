use elevate_pam::config::{sanitize_service_name, ControlFlag};
use elevate_pam::error::PamError;
use elevate_pam::constants::{PAM_AUTH_ERR, PAM_SUCCESS};
use elevate_pam::types::Action;

#[test]
fn control_actions_sufficient() {
    let a = ControlFlag::Sufficient.actions();
    assert_eq!(a[PAM_SUCCESS as usize], Action::Done);
    assert_eq!(a[PAM_AUTH_ERR as usize], Action::Ignore);
}

#[test]
fn sanitize_service_name_refuses_paths_when_asked() {
    match sanitize_service_name("a/Su", true) {
        Err(PamError::InvalidArgument(m)) => assert_eq!(m, "service name contains a path separator"),
        other => panic!("unexpected {other:?}"),
    }
    assert_eq!(sanitize_service_name("a/Su", false).unwrap(), "su");
    assert_eq!(sanitize_service_name("Login", true).unwrap(), "login");
    let once = sanitize_service_name("/etc/pam.d/SSHD", false).unwrap();
    assert_eq!(sanitize_service_name(&once, true).unwrap(), once);
    assert!(sanitize_service_name("x/", false).is_err());
    assert!(sanitize_service_name("a..b", false).is_err());
}
