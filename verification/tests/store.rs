use stealth_gas::store::{
    choose_file, data_directory, finalized_tickets_file, may_write, unsigned_tickets_file, FileChoice,
    StoreError,
};

#[test]
fn files_are_named_after_their_chain() {
    assert_eq!(unsigned_tickets_file(17000), "unsigned_tickets_17000.json");
    assert_eq!(finalized_tickets_file(17000), "finalized_tickets_17000.json");
    assert_eq!(unsigned_tickets_file(0), "unsigned_tickets_0.json");
    assert_eq!(finalized_tickets_file(u64::MAX), "finalized_tickets_18446744073709551615.json");
    assert_eq!(data_directory(), ".stealthereum");
}

#[test]
fn an_empty_name_means_the_default_file() {
    assert_eq!(choose_file(None), FileChoice::Default);
    assert_eq!(choose_file(Some(String::new())), FileChoice::Default);
    assert_eq!(choose_file(Some("out.json".to_string())), FileChoice::Given("out.json".to_string()));
    assert_eq!(choose_file(Some(" ".to_string())), FileChoice::Given(" ".to_string()));
}

#[test]
fn an_existing_file_is_never_written_over() {
    assert_eq!(may_write(true), Err(StoreError::OutputExists));
    assert_eq!(may_write(false), Ok(()));
}
