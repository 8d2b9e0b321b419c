use visor::decode::decode_bytes;
use visor::records::parse_records;
use visor::defaults::{get_ateis_default_mappings, get_logitron_default_mappings,
    default_mappings_for};
use visor::mapping::{LineConfig, MappingRow, get_parameter_value, get_file_value,
    map_record_with_mappings_and_params, lookup_value};
use visor::timedate::{DateVal, TimeVal, StampVal};

fn noon() -> StampVal {
    StampVal {
        date: DateVal { year: 2024, month: 3, day: 15 },
        time: TimeVal { hour: 12, minute: 0, second: 0 },
    }
}

fn line_cfg() -> LineConfig {
    LineConfig {
        name: "Ligne 1".to_string(),
        site: Some("SITE1".to_string()),
        unite: None,
        flag_dec: None,
        code_ligne: Some("L1".to_string()),
        log_path: None,
        file_format: Some("ATEIS".to_string()),
        rejected_path: None,
    }
}

#[test]
fn decode_plain_ascii() {
    assert_eq!(decode_bytes(&b"hello;world".to_vec()), "hello;world");
}

#[test]
fn decode_valid_utf8_passes_through() {
    assert_eq!(decode_bytes(&"Référence".as_bytes().to_vec()), "Référence");
}

#[test]
fn decode_windows_1252_fallback() {
    let bytes: Vec<u8> = vec![0x52, 0xE9, 0x66, 0xE9, 0x72, 0x65, 0x6E, 0x63, 0x65];
    assert_eq!(decode_bytes(&bytes), "Référence");
}

#[test]
fn decode_utf16_little_endian_via_bom() {
    let bytes: Vec<u8> = vec![0xFF, 0xFE, 0x61, 0x00, 0x62, 0x00];
    assert_eq!(decode_bytes(&bytes), "ab");
}

#[test]
fn records_split_on_semicolons_and_newlines() {
    let rows = parse_records("a;b;c\r\nd;e\n");
    assert_eq!(rows, vec![vec!["a", "b", "c"], vec!["d", "e"]]);
}

#[test]
fn records_skip_blank_lines() {
    let rows = parse_records("a;b\n\nc\r\n\r\n");
    assert_eq!(rows, vec![vec!["a", "b"], vec!["c"]]);
}

#[test]
fn records_of_empty_text() {
    assert_eq!(parse_records("").len(), 0);
}

#[test]
fn records_keep_empty_fields() {
    let rows = parse_records(";;\n");
    assert_eq!(rows, vec![vec!["", "", ""]]);
}

#[test]
fn parameter_names_resolve_from_line() {
    let lc = Some(line_cfg());
    assert_eq!(get_parameter_value("site", &lc), "SITE1");
    assert_eq!(get_parameter_value("FCY_0", &lc), "SITE1");
    assert_eq!(get_parameter_value("unite", &lc), "unité");
    assert_eq!(get_parameter_value("flag_dec", &lc), "1");
    assert_eq!(get_parameter_value("code_ligne", &lc), "L1");
    assert_eq!(get_parameter_value("user", &lc), "VISOR");
    assert_eq!(get_parameter_value("anything", &lc), "");
    assert_eq!(get_parameter_value("site", &None), "");
}

#[test]
fn file_columns_read_single_and_pair() {
    let rec: Vec<String> = vec!["a".into(), "b".into(), "c".into()];
    assert_eq!(get_file_value(&rec, "1"), "b");
    assert_eq!(get_file_value(&rec, " 2 "), "c");
    assert_eq!(get_file_value(&rec, "1-2"), "b;c");
    assert_eq!(get_file_value(&rec, "9"), "");
    assert_eq!(get_file_value(&rec, "0-9"), "a;");
    assert_eq!(get_file_value(&rec, "x"), "");
}

#[test]
fn ateis_happy_path_row_maps_field_by_field() {
    let content = "012345;20240315120000;;;DEP01;ITM001;;LOT1;20240316;10,5;;;1;;;;;;MFG001\n";
    let rows = parse_records(content);
    assert_eq!(rows.len(), 1);
    let mappings = get_ateis_default_mappings();
    let mapped = map_record_with_mappings_and_params(&rows[0], &mappings, &Some(line_cfg()),
        &noon());
    let get = |k: &str| lookup_value(&mapped, k).unwrap();
    assert_eq!(get("YSSCC_0"), "012345");
    assert_eq!(get("YDATE_0"), "15/03/2024");
    assert_eq!(get("YHEURE_0"), "120000");
    assert_eq!(get("ITMREF_0"), "ITM001");
    assert_eq!(get("LOT_0"), "LOT1");
    assert_eq!(get("QTY_0"), "10.5");
    assert_eq!(get("YDATDL_0"), "16/03/2024");
    assert_eq!(get("YNLIGN_0"), "1");
    assert_eq!(get("MFGNUM_0"), "MFG001");
    assert_eq!(get("YCODEPOT_0"), "DEP01");
    assert_eq!(get("YPALETTE_0"), "");
    assert_eq!(get("YINTERCAL_0"), "");
    assert_eq!(get("FCY_0"), "SITE1");
    assert_eq!(get("UOM_0"), "unité");
    assert_eq!(get("YFLGDEC_0"), "1");
    assert_eq!(get("CREUSR_0"), "L1");
    assert_eq!(get("CREDATTIM_0"), "15/03/2024 12:00:00");
}

#[test]
fn logitron_combined_date_time_column() {
    // A LOGITRON row whose CREDATTIM_0 joins columns one and two.
    let content = "S1;15/03/2024;12:30:45;ITM;LOT;2,5;;20240316;1;;;;;MFG;DEP;PAL+INT\n";
    let rows = parse_records(content);
    let mappings = get_logitron_default_mappings();
    let mapped = map_record_with_mappings_and_params(&rows[0], &mappings, &Some(line_cfg()),
        &noon());
    let get = |k: &str| lookup_value(&mapped, k).unwrap();
    assert_eq!(get("CREDATTIM_0"), "15/03/2024 12:30:45");
    assert_eq!(get("YDATE_0"), "15/03/2024");
    assert_eq!(get("YHEURE_0"), "123045");
    assert_eq!(get("YPALETTE_0"), "PAL");
    assert_eq!(get("YINTERCAL_0"), "INT");
}

#[test]
fn missing_columns_map_to_empty_strings() {
    let rows = parse_records("only;two\n");
    let mappings = get_ateis_default_mappings();
    let mapped = map_record_with_mappings_and_params(&rows[0], &mappings, &Some(line_cfg()),
        &noon());
    assert_eq!(lookup_value(&mapped, "ITMREF_0").unwrap(), "");
    assert_eq!(lookup_value(&mapped, "MFGNUM_0").unwrap(), "");
}

#[test]
fn default_mapping_sets_have_seventeen_entries() {
    assert_eq!(get_ateis_default_mappings().len(), 17);
    assert_eq!(get_logitron_default_mappings().len(), 17);
    assert_eq!(default_mappings_for("logitron").len(), 17);
}

#[test]
fn default_mappings_pick_by_format_name() {
    let a: Vec<MappingRow> = default_mappings_for("AteIs");
    assert_eq!(a[3].sql_field, "ITMREF_0");
    let l: Vec<MappingRow> = default_mappings_for("LOGITRON");
    assert_eq!(l[3].sql_field, "CREDATTIM_0");
    let unknown: Vec<MappingRow> = default_mappings_for("other");
    assert_eq!(unknown[3].sql_field, "ITMREF_0");
}

#[test]
fn decode_keeps_a_utf8_byte_order_mark() {
    let mut bytes: Vec<u8> = vec![0xEF, 0xBB, 0xBF];
    bytes.extend_from_slice(b"ok");
    assert_eq!(decode_bytes(&bytes), "\u{feff}ok");
}

#[test]
fn file_column_index_overflow_reads_empty() {
    let rec: Vec<String> = vec!["a".into()];
    assert_eq!(get_file_value(&rec, "99999999999999999999999999"), "");
    assert_eq!(get_file_value(&rec, "+0"), "a");
    assert_eq!(get_file_value(&rec, "-1"), ";");
}

#[test]
fn later_mapping_entry_wins_lookup() {
    let mapped: Vec<(String, String)> = vec![
        ("A".to_string(), "first".to_string()),
        ("A".to_string(), "second".to_string()),
    ];
    assert_eq!(lookup_value(&mapped, "A").unwrap(), "second");
    assert!(lookup_value(&mapped, "B").is_none());
}
