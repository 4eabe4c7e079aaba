use llama_desktop::nvidia_smi::test_parse_process_list;

#[test]
fn parse_process_list_finds_pid() {
    let found = test_parse_process_list("1234, 100\n5678, 200\n", 5678);
    assert_eq!(found, Some(5678));
}

#[test]
fn parse_process_list_handles_missing() {
    let found = test_parse_process_list("1234, 100\n", 5678);
    assert!(found.is_none());
}

#[test]
fn parse_process_list_needs_two_columns() {
    let found = test_parse_process_list("5678\n", 5678);
    assert!(found.is_none());
}
