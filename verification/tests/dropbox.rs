use confsolve::file_conflict::dropbox::{parse, parse_internal};
use confsolve::file_conflict::types::{Details, OrigFileName};
use confsolve::parser::ParseError;

fn test_str(file_name: &str, result: Result<(OrigFileName, Details), ParseError>) {
    println!("test: {}", file_name);
    assert_eq!(parse_internal(file_name), result);
}

#[test]
fn dropbox_tests() {
    test_str(
        "a_original (blub's conflicted copy 2011-04-30)",
        Ok(("a_original".to_string(), "Version 2011-04-30 from blub".to_string())),
    );

    test_str(
        "a_original (blub's conflicted copy 2011-04-30).txt",
        Ok(("a_original.txt".to_string(), "Version 2011-04-30 from blub".to_string())),
    );

    test_str(
        "original (machine's conflicted copy 2011-04-29)",
        Ok(("original".to_string(), "Version 2011-04-29 from machine".to_string())),
    );

    test_str(
        "z_original (laptop's conflicted copy 2011-04-28).qay",
        Ok(("z_original.qay".to_string(), "Version 2011-04-28 from laptop".to_string())),
    );

    test_str(
        "z_original (blub's conflicted copy 2011-04-30)",
        Ok(("z_original".to_string(), "Version 2011-04-30 from blub".to_string())),
    );

    test_str(
        "z_original (laptop's conflicted copy 2011-04-28)",
        Ok(("z_original".to_string(), "Version 2011-04-28 from laptop".to_string())),
    );

    test_str(
        "z_original (machine's conflicted copy 2011-04-29)",
        Ok(("z_original".to_string(), "Version 2011-04-29 from machine".to_string())),
    );

    test_str("z_original", Err("Couldn't skip str '('!".to_string()));
}

#[test]
fn dropbox_parse_drops_failures() {
    assert_eq!(parse("z_original"), None);
    assert_eq!(
        parse("a (h's conflicted copy 2020-01-01).md"),
        Some(("a.md".to_string(), "Version 2020-01-01 from h".to_string()))
    );
}

#[test]
fn dropbox_base_without_a_trailing_space_is_kept_whole() {
    test_str(
        "foo(blub's conflicted copy 2011-04-30)",
        Ok(("foo".to_string(), "Version 2011-04-30 from blub".to_string())),
    );

    // only one trailing space is dropped
    test_str(
        "a  (blub's conflicted copy 2011-04-30)",
        Ok(("a ".to_string(), "Version 2011-04-30 from blub".to_string())),
    );
}
