use visor::emitter::{SqlServerConfig, parse_insert_columns, build_param_values_from_query,
    build_row_params, is_connection_error, transient_of_lowered, emit_preflight, EmitSession,
    default_ateis_query, default_logitron_query, connection_test_precheck};
use visor::defaults::get_ateis_default_mappings;

fn sample_template() -> &'static str {
    "INSERT INTO ITHRI.YINTDECL (\n    YSSCC_0, \n    YDATE_0, \n    [YHEURE_0],\n    ITMREF_0\n) VALUES (@P1, @P2, @P3, @P4)"
}

#[test]
fn template_columns_come_out_in_order() {
    let cols = parse_insert_columns(sample_template());
    assert_eq!(cols, vec!["YSSCC_0", "YDATE_0", "YHEURE_0", "ITMREF_0"]);
}

#[test]
fn template_matching_ignores_case() {
    let cols = parse_insert_columns("insert into t (a, b) values (@P1, @P2)");
    assert_eq!(cols, vec!["a", "b"]);
}

#[test]
fn malformed_template_yields_no_columns() {
    assert_eq!(parse_insert_columns("UPDATE t SET a = @P1").len(), 0);
    assert_eq!(parse_insert_columns("INSERT INTO t VALUES (@P1)").len(), 0);
    assert_eq!(parse_insert_columns("").len(), 0);
}

#[test]
fn params_bind_in_template_order_with_empty_for_missing() {
    let mapped: Vec<(String, String)> = vec![
        ("YDATE_0".to_string(), "15/03/2024".to_string()),
        ("YSSCC_0".to_string(), "012345".to_string()),
        ("ITMREF_0".to_string(), "ITM001".to_string()),
    ];
    let params = build_param_values_from_query(sample_template(), &mapped);
    assert_eq!(params, vec!["012345", "15/03/2024", "", "ITM001"]);
}

#[test]
fn params_fall_back_to_mapping_order() {
    let mapped: Vec<(String, String)> = vec![
        ("YSSCC_0".to_string(), "X".to_string()),
    ];
    let mappings = get_ateis_default_mappings();
    let params = build_row_params("no insert here", &mappings, &mapped);
    assert_eq!(params.len(), 17);
    assert_eq!(params[0], "X");
    assert_eq!(params[1], "");
}

#[test]
fn transient_classification_catches_connection_texts() {
    assert!(is_connection_error(
        "Cannot open database \"ERP\" requested by the login. code: 4060"
    ));
    assert!(is_connection_error("Login Failed for user 'sa'. code: 18456"));
    assert!(is_connection_error("A NETWORK-related error occurred"));
    assert!(is_connection_error("TCP Provider: timeout expired"));
    assert!(is_connection_error("No connection could be made because the target machine actively refused it"));
    assert!(is_connection_error("Échec de l'ouverture de session"));
}

#[test]
fn permanent_errors_are_not_transient() {
    assert!(!is_connection_error("Violation of PRIMARY KEY constraint 'PK_YINTDECL'"));
    assert!(!is_connection_error("String or binary data would be truncated"));
    assert!(!is_connection_error(""));
}

#[test]
fn lowered_classifier_wants_lowercase_text() {
    assert!(transient_of_lowered("tcp provider: broken"));
    assert!(!transient_of_lowered("TCP PROVIDER: broken"));
}

#[test]
fn preflight_reports_each_missing_piece() {
    let template = Some("INSERT ...".to_string());
    assert_eq!(
        emit_preflight(&None, &template).unwrap_err(),
        "SQL Server non configuré"
    );
    let base = SqlServerConfig {
        id: 1,
        server: Some("srv".to_string()),
        database: Some("db".to_string()),
        username: Some("user".to_string()),
        password: Some("pw".to_string()),
        enabled: true,
    };
    let mut disabled = base.clone();
    disabled.enabled = false;
    assert_eq!(
        emit_preflight(&Some(disabled), &template).unwrap_err(),
        "SQL Server désactivé (activez la connexion dans Paramètres)"
    );
    let mut no_server = base.clone();
    no_server.server = Some("   ".to_string());
    assert_eq!(
        emit_preflight(&Some(no_server), &template).unwrap_err(),
        "SQL Server: serveur manquant"
    );
    let mut no_user = base.clone();
    no_user.username = None;
    assert_eq!(
        emit_preflight(&Some(no_user), &template).unwrap_err(),
        "SQL Server: utilisateur manquant"
    );
    let mut no_pw = base.clone();
    no_pw.password = Some("".to_string());
    assert_eq!(
        emit_preflight(&Some(no_pw), &template).unwrap_err(),
        "SQL Server: mot de passe manquant"
    );
    assert_eq!(
        emit_preflight(&Some(base.clone()), &None).unwrap_err(),
        "Template SQL manquant"
    );
    assert_eq!(emit_preflight(&Some(base), &template).unwrap(), "INSERT ...");
}

#[test]
fn built_in_templates_parse_to_eighteen_columns() {
    let a = parse_insert_columns(&default_ateis_query());
    assert_eq!(a.len(), 18);
    assert_eq!(a[0], "YSSCC_0");
    assert_eq!(a[16], "CREDATTIM_0");
    assert_eq!(a[17], "UPDDATTIM_0");
    let l = parse_insert_columns(&default_logitron_query());
    assert_eq!(l.len(), 18);
    assert_eq!(l[3], "CREDATTIM_0");
}

#[test]
fn connection_test_precheck_wants_a_server() {
    let mut cfg = SqlServerConfig {
        id: 1,
        server: None,
        database: None,
        username: None,
        password: None,
        enabled: true,
    };
    let t = connection_test_precheck(&cfg).unwrap();
    assert!(!t.success);
    assert_eq!(t.error.unwrap(), "Serveur SQL Server manquant");
    cfg.server = Some("srv".to_string());
    assert!(connection_test_precheck(&cfg).is_none());
}

#[test]
fn emission_of_three_rows_counts_three_executes() {
    let mut s = EmitSession::new(3);
    s.record_success();
    s.record_success();
    s.record_success();
    assert_eq!(s.executed, 3);
    assert!(s.outcome().is_ok());
}

#[test]
fn emission_stops_at_first_failure() {
    let mut s = EmitSession::new(3);
    s.record_success();
    s.record_failure("Violation of PRIMARY KEY constraint".to_string());
    assert_eq!(s.executed, 2);
    assert_eq!(s.outcome().unwrap_err(), "Violation of PRIMARY KEY constraint");
}
