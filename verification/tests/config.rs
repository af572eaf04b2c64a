use drogue_endpoint::config::{tls_enabled, EndpointSourceKind};

#[test]
fn unset_source_is_environment() {
    assert_eq!(EndpointSourceKind::select(None), Ok(EndpointSourceKind::Env));
}

#[test]
fn known_sources_are_selected() {
    assert_eq!(
        EndpointSourceKind::select(Some("openshift".to_string())),
        Ok(EndpointSourceKind::Openshift)
    );
    assert_eq!(
        EndpointSourceKind::select(Some("kubernetes".to_string())),
        Ok(EndpointSourceKind::Kubernetes)
    );
}

#[test]
fn unknown_source_is_an_error_that_quotes_it() {
    assert_eq!(
        EndpointSourceKind::select(Some("docker".to_string())),
        Err("Unsupported endpoint source: 'docker'".to_string())
    );
    assert_eq!(
        EndpointSourceKind::select(Some("OpenShift".to_string())),
        Err("Unsupported endpoint source: 'OpenShift'".to_string())
    );
    assert_eq!(
        EndpointSourceKind::select(Some(String::new())),
        Err("Unsupported endpoint source: ''".to_string())
    );
}

#[test]
fn tls_is_on_unless_disabled_with_true() {
    assert!(tls_enabled(None));
    assert!(!tls_enabled(Some("true".to_string())));
    assert!(tls_enabled(Some("false".to_string())));
    assert!(tls_enabled(Some("TRUE".to_string())));
    assert!(tls_enabled(Some("".to_string())));
}
