use confsolve::file_conflict::{dropbox, wuala, find, ConflictType};
use confsolve::parser::Parser;

#[test]
fn multi_byte_characters_count_as_one_unit() {
    let mut parser = Parser::new("äöü rest");
    assert_eq!(parser.take_char().unwrap(), 'ä');
    assert_eq!(parser.unconsumed(), "öü rest");
    assert_eq!(parser.take_while(|c| c != ' '), "öü");
    assert_eq!(parser.unconsumed(), " rest");
}

#[test]
fn wuala_names_with_multi_byte_characters() {
    assert_eq!(
        wuala::parse("püré (conflicting version 2 from hôst).txt"),
        Some(("püré.txt".to_string(), "Version 2 from hôst".to_string()))
    );
}

#[test]
fn dropbox_names_with_multi_byte_characters() {
    assert_eq!(
        dropbox::parse("püré (hôst's conflicted copy 2011-04-30).txt"),
        Some(("püré.txt".to_string(), "Version 2011-04-30 from hôst".to_string()))
    );
}

#[test]
fn grouping_with_multi_byte_directories() {
    let files: Vec<String> = vec![
        "vermählung/püré (conflicting version 1 from ü)".to_string(),
    ];
    let confs = find(ConflictType::Wuala, &files);
    assert_eq!(confs.len(), 1);
    assert_eq!(confs[0].original_path, "vermählung/püré");
    assert_eq!(confs[0].conflicting_files[0].details, "Version 1 from ü");
}
