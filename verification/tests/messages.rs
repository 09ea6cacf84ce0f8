use nextbom::commands::{created_message, csv_import_message, nextbom_file_name, resolved_message};

#[test]
fn csv_import_answers() {
    assert_eq!(csv_import_message(0), Err("CSV file contains no data".to_string()));
    assert_eq!(csv_import_message(12), Ok("Imported 12 lines from CSV".to_string()));
}

#[test]
fn working_file_names_and_answers() {
    assert_eq!(nextbom_file_name("MainBoard"), "MainBoard.nextbom");
    assert_eq!(created_message(3), "Successfully created NextBOM file with 3 entries");
    assert_eq!(resolved_message(0), "Resolved 0 entries");
}
