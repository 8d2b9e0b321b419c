use visor::processor::{should_process, split_stem_ext, stamped_name, quarantine_name,
    map_file_rows, prepare_file, plan_disposition, line_state_of, production_message, EmitOutcome,
    FileAction};
use visor::emitter::default_ateis_query;
use visor::processor::{success_log_msg, failure_log_msg, transient_warn_msg, permanent_sql_msg};
use visor::dashboard::is_pending_file;
use visor::defaults::get_ateis_default_mappings;
use visor::mapping::MappingRow;
use visor::timedate::{DateVal, TimeVal, StampVal};

fn noon() -> StampVal {
    StampVal {
        date: DateVal { year: 2024, month: 3, day: 15 },
        time: TimeVal { hour: 12, minute: 0, second: 0 },
    }
}

#[test]
fn predicate_wants_prefix_and_extension() {
    assert!(should_process("LINE1_scan.TMP", "line1"));
    assert!(should_process("data_line1.csv", "LINE1"));
    assert!(should_process("x_LINE1_y.txt", "line1"));
    assert!(!should_process("LINE1_scan.dat", "line1"));
    assert!(!should_process("LINE2_scan.TMP", "line1"));
}

#[test]
fn stem_and_extension_split_at_last_dot() {
    assert_eq!(split_stem_ext("file.TMP"), ("file".to_string(), ".TMP".to_string()));
    assert_eq!(split_stem_ext("a.b.c"), ("a.b".to_string(), ".c".to_string()));
    assert_eq!(split_stem_ext("noext"), ("noext".to_string(), "".to_string()));
    assert_eq!(split_stem_ext(".hidden"), (".hidden".to_string(), "".to_string()));
}

#[test]
fn stamped_name_carries_the_timestamp() {
    assert_eq!(stamped_name("scan.TMP", &noon()), "scan_20240315_120000.TMP");
    assert_eq!(stamped_name("noext", &noon()), "noext_20240315_120000");
}

#[test]
fn quarantine_name_carries_the_line_id() {
    assert_eq!(quarantine_name(3, "scan.TMP"), "visor_processing_3_scan.TMP");
}

#[test]
fn empty_file_is_an_error() {
    let mappings = get_ateis_default_mappings();
    let out = map_file_rows("", &mappings, &None, "ATEIS", &noon());
    assert_eq!(out.error.unwrap(), "Fichier vide ou format invalide");
    assert_eq!(out.mapped.len(), 0);
}

#[test]
fn missing_mappings_are_an_error() {
    let mappings: Vec<MappingRow> = Vec::new();
    let out = map_file_rows("a;b\n", &mappings, &None, "ateis", &noon());
    assert_eq!(out.error.unwrap(), "Aucun mapping configuré pour le modèle ATEIS");
}

#[test]
fn good_file_maps_every_row() {
    let mappings = get_ateis_default_mappings();
    let out = map_file_rows("a;b\nc;d\n", &mappings, &None, "ATEIS", &noon());
    assert!(out.error.is_none());
    assert_eq!(out.mapped.len(), 2);
    assert_eq!(out.mapped[0].len(), 17);
}

#[test]
fn prepared_file_binds_template_order() {
    let bytes =
        b"012345;20240315120000;;;DEP01;ITM001;;LOT1;20240316;10,5;;;1;;;;;;MFG001\n".to_vec();
    let mappings = get_ateis_default_mappings();
    let query = default_ateis_query();
    let prep = prepare_file(&bytes, &mappings, &None, "ATEIS", &query, &noon());
    assert!(prep.error.is_none());
    assert_eq!(prep.mapped.len(), 1);
    assert_eq!(prep.row_params.len(), 1);
    let params = &prep.row_params[0];
    assert_eq!(params.len(), 18);
    assert_eq!(params[0], "012345");
    assert_eq!(params[1], "15/03/2024");
    assert_eq!(params[2], "120000");
    assert_eq!(params[3], "ITM001");
    assert_eq!(params[5], "10.5");
    assert_eq!(params[17], "");
}

#[test]
fn pending_predicate_counts_only_tmp_files() {
    assert!(is_pending_file("LINE1_a.tmp", "line1"));
    assert!(!is_pending_file("LINE1_a.csv", "line1"));
    assert!(!is_pending_file("LINE2_a.TMP", "line1"));
}

#[test]
fn success_archives_under_the_stamped_name() {
    let plan = plan_disposition(
        &EmitOutcome::Success,
        false,
        &Some("/archive".to_string()),
        &Some("/reject".to_string()),
        "scan.TMP",
        &noon(),
    );
    match plan.action {
        FileAction::ArchiveAs(name) => assert_eq!(name, "scan_20240315_120000.TMP"),
        _ => panic!("expected an archive action"),
    }
    assert!(plan.success);
    assert!(plan.record_production);
    assert!(!plan.warning_only);
}

#[test]
fn success_without_archive_folder_deletes() {
    let plan = plan_disposition(&EmitOutcome::Success, false, &None, &None, "scan.TMP", &noon());
    assert!(matches!(plan.action, FileAction::Delete));
    assert!(plan.success);
}

#[test]
fn transient_failure_restores_and_records_nothing() {
    let plan = plan_disposition(
        &EmitOutcome::SqlTransient("code: 4060".to_string()),
        false,
        &Some("/archive".to_string()),
        &Some("/reject".to_string()),
        "scan.TMP",
        &noon(),
    );
    assert!(matches!(plan.action, FileAction::RestoreToSource));
    assert!(!plan.record_production);
    assert!(!plan.success);
    assert!(plan.warning_only);
}

#[test]
fn permanent_failure_rejects_under_the_stamped_name() {
    let plan = plan_disposition(
        &EmitOutcome::SqlPermanent("Violation of PRIMARY KEY constraint".to_string()),
        false,
        &Some("/archive".to_string()),
        &Some("/reject".to_string()),
        "scan.TMP",
        &noon(),
    );
    match plan.action {
        FileAction::RejectAs(name) => assert_eq!(name, "scan_20240315_120000.TMP"),
        _ => panic!("expected a reject action"),
    }
    assert!(plan.record_production);
    assert!(!plan.success);
}

#[test]
fn failed_restore_falls_through_to_reject() {
    let plan = plan_disposition(
        &EmitOutcome::SqlTransient("timeout".to_string()),
        true,
        &None,
        &Some("/reject".to_string()),
        "scan.TMP",
        &noon(),
    );
    assert!(matches!(plan.action, FileAction::RejectAs(_)));
    assert!(plan.record_production);
}

#[test]
fn invalid_file_without_reject_folder_deletes() {
    let plan = plan_disposition(
        &EmitOutcome::Invalid("Fichier vide ou format invalide".to_string()),
        false,
        &Some("/archive".to_string()),
        &None,
        "scan.TMP",
        &noon(),
    );
    assert!(matches!(plan.action, FileAction::Delete));
    assert!(!plan.success);
}

#[test]
fn audit_messages_match_the_wire_format() {
    assert_eq!(
        success_log_msg("scan.TMP", 3),
        "Fichier scan.TMP traité avec succès - 3 enregistrements"
    );
    assert_eq!(
        failure_log_msg("scan.TMP", "boom"),
        "Échec traitement scan.TMP: boom"
    );
    assert_eq!(
        transient_warn_msg("timeout"),
        "Erreur connexion SQL (fichier reporté) : timeout"
    );
    assert_eq!(
        permanent_sql_msg("scan.TMP", "boom"),
        "Erreur SQL Server pour scan.TMP: boom"
    );
}

#[test]
fn line_states_after_disposition() {
    assert_eq!(line_state_of(true), "MARCHE");
    assert_eq!(line_state_of(false), "ERREUR");
}

#[test]
fn production_message_shape() {
    let sample: Vec<(String, String)> = vec![
        ("A".to_string(), "x".to_string()),
        ("B".to_string(), "y".to_string()),
    ];
    assert_eq!(
        production_message(2, &Some(sample), &None),
        "{\"error\":null,\"rows\":2,\"sample\":{\"A\":\"x\",\"B\":\"y\"}}"
    );
}

#[test]
fn production_message_escapes_and_nulls() {
    assert_eq!(
        production_message(0, &None, &Some("bad \"quote\"\n".to_string())),
        "{\"error\":\"bad \\\"quote\\\"\\n\",\"rows\":0,\"sample\":null}"
    );
    let empty: Vec<(String, String)> = Vec::new();
    assert_eq!(
        production_message(1, &Some(empty), &None),
        "{\"error\":null,\"rows\":1,\"sample\":{}}"
    );
}
