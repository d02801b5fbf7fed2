use scheduler::storage::{record_id, record_name, RecordName};

#[test]
fn records_are_named_by_identifier() {
    assert_eq!(record_name(0), "0.json");
    assert_eq!(record_name(987654321), "987654321.json");
    assert_eq!(record_name(u64::MAX), "18446744073709551615.json");
}

#[test]
fn names_are_read_back() {
    for id in [0, 1, 9, 10, 12345, u64::MAX - 1, u64::MAX] {
        assert_eq!(record_id(&record_name(id)), RecordName::Record(id));
    }
    assert_eq!(record_id("007.json"), RecordName::Record(7));
    assert_eq!(record_id("+7.json"), RecordName::Record(7));
}

#[test]
fn other_files_are_no_records() {
    assert_eq!(record_id(""), RecordName::Other);
    assert_eq!(record_id("12"), RecordName::Other);
    assert_eq!(record_id("12.txt"), RecordName::Other);
    assert_eq!(record_id("12.json.bak"), RecordName::Other);
    assert_eq!(record_id(".json"), RecordName::Other);
    assert_eq!(record_id("12.JSON"), RecordName::Other);
    assert_eq!(record_id("12."), RecordName::Other);
}

#[test]
fn stems_that_are_no_identifiers_are_malformed() {
    assert_eq!(record_id("abc.json"), RecordName::Malformed);
    assert_eq!(record_id("12a.json"), RecordName::Malformed);
    assert_eq!(record_id("-1.json"), RecordName::Malformed);
    assert_eq!(record_id("+.json"), RecordName::Malformed);
    assert_eq!(record_id("1.2.json"), RecordName::Malformed);
    assert_eq!(record_id("18446744073709551616.json"), RecordName::Malformed);
    assert_eq!(record_id("99999999999999999999999.json"), RecordName::Malformed);
    assert_eq!(record_id(" 1.json"), RecordName::Malformed);
}

#[test]
fn names_agree_with_the_standard_library() {
    for stem in ["0", "42", "0042", "+42", "4 2", "", "x", "18446744073709551615", "18446744073709551616"] {
        let name = format!("{}.json", stem);
        let expected = match stem.parse::<u64>() {
            Ok(id) => RecordName::Record(id),
            Err(_) => {
                if stem.is_empty() {
                    RecordName::Other
                } else {
                    RecordName::Malformed
                }
            }
        };
        assert_eq!(record_id(&name), expected);
    }
}
