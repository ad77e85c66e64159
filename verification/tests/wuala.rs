use confsolve::file_conflict::wuala::{parse, parse_internal};
use confsolve::file_conflict::types::{Details, OrigFileName};
use confsolve::parser::ParseError;

fn test_str(file_name: &str, result: Result<(OrigFileName, Details), ParseError>) {
    println!("test: {}", file_name);
    assert_eq!(parse_internal(file_name), result);
}

#[test]
fn wuala_tests() {
    test_str(
        "original (conflicting version 1 from machine)",
        Ok(("original".to_string(), "Version 1 from machine".to_string())),
    );

    test_str(
        "x_original (conflicting version 5 from blub).txt",
        Ok(("x_original.txt".to_string(), "Version 5 from blub".to_string())),
    );

    test_str(
        "x_original (conflicting version 5 from ).txt",
        Ok(("x_original.txt".to_string(), "Version 5 from ".to_string())),
    );

    test_str(
        "x_original (conflicting version 5 from).txt",
        Ok(("x_original.txt".to_string(), "Version 5 from ".to_string())),
    );

    test_str(
        "x_original (conflicting version 5).txt",
        Ok(("x_original.txt".to_string(), "Version 5 from ".to_string())),
    );

    test_str("z_original", Err("Couldn't skip str '(conflicting version '!".to_string()));
}

fn test_str_opt(file_name: &str, orig_name: &str, details: &str) {
    println!("test: {}", file_name);
    match parse(file_name) {
        Some((name, det)) => {
            assert_eq!(orig_name.to_string(), name);
            assert_eq!(details.to_string(), det);
        }
        None => assert!(false, "parse failed"),
    }
}

#[test]
fn wuala_conflict_tests() {
    test_str_opt(
        "original (conflicting version 1 from machine)",
        "original",
        "Version 1 from machine",
    );
    test_str_opt(
        "x_original (conflicting version 5 from blub).txt",
        "x_original.txt",
        "Version 5 from blub",
    );
    test_str_opt(
        "x_original (conflicting version 5 from ).txt",
        "x_original.txt",
        "Version 5 from ",
    );
    test_str_opt(
        "x_original (conflicting version 5 from).txt",
        "x_original.txt",
        "Version 5 from ",
    );
    test_str_opt(
        "x_original (conflicting version 5).txt",
        "x_original.txt",
        "Version 5 from ",
    );
}

#[test]
fn wuala_large_version_numbers() {
    test_str(
        "a (conflicting version 18446744073709551615 from h).txt",
        Ok(("a.txt".to_string(), "Version 18446744073709551615 from h".to_string())),
    );
    test_str(
        "a (conflicting version 99999999999999999999 from h).txt",
        Err("Couldn't take uint!".to_string()),
    );
}

#[test]
fn wuala_base_without_a_trailing_space_is_kept_whole() {
    test_str(
        "foo(conflicting version 2 from blub)",
        Ok(("foo".to_string(), "Version 2 from blub".to_string())),
    );

    // only one trailing space is dropped
    test_str(
        "a  (conflicting version 2 from blub).txt",
        Ok(("a .txt".to_string(), "Version 2 from blub".to_string())),
    );
}
