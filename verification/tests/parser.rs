use confsolve::parser::{Parser, ParseError};
use confsolve::stream::Stream;

#[test]
fn parser_tests() {
    match parser_tests_impl() {
        Ok(()) => {}
        Err(err) => println!("Parser test error: {}", err),
    }
}

fn parser_tests_impl() -> Result<(), ParseError> {
    let mut parser = Parser::new("ssss 21 qqq aswe ");
    assert_eq!(parser.unconsumed(), "ssss 21 qqq aswe ");

    parser.skip_whitespace();
    assert_eq!(parser.unconsumed(), "ssss 21 qqq aswe ");

    parser.skip("ss")?;
    assert_eq!(parser.unconsumed(), "ss 21 qqq aswe ");

    parser.skip("ss")?;
    assert_eq!(parser.unconsumed(), " 21 qqq aswe ");

    parser.skip_whitespace();
    assert_eq!(parser.unconsumed(), "21 qqq aswe ");

    assert_eq!(parser.take_uint()?, 21);
    assert_eq!(parser.unconsumed(), " qqq aswe ");

    parser.skip_whitespace();
    assert_eq!(parser.take_while(|c| c == 'q'), "qqq".to_string());
    assert_eq!(parser.unconsumed(), " aswe ");

    parser.skip_while(|c| c.is_whitespace());
    assert_eq!(parser.unconsumed(), "aswe ");

    assert_eq!(parser.take_char()?, 'a');
    assert_eq!(parser.unconsumed(), "swe ");

    assert_eq!(parser.eof(), false);
    assert_eq!(parser.take_till_eof(), "swe ".to_string());
    assert_eq!(parser.eof(), true);

    Ok(())
}

#[test]
fn stream_tests() {
    let mut strm = Stream::new("qqq www ttt");
    assert_eq!(strm.unconsumed(), "qqq www ttt".to_string());

    strm.next_char_or_fail();
    assert_eq!(strm.unconsumed(), "qq www ttt".to_string());

    strm.next_char_or_fail();
    strm.next_char_or_fail();
    strm.next_char_or_fail();
    assert_eq!(strm.unconsumed(), "www ttt".to_string());

    strm.push_pos();
    strm.next_char_or_fail();
    strm.pop_pos();
    assert_eq!(strm.unconsumed(), "ww ttt".to_string());

    strm.push_pos();
    strm.next_char_or_fail();
    strm.pop_and_reset_pos();
    assert_eq!(strm.unconsumed(), "ww ttt".to_string());

    assert_eq!(strm.next_char_or_fail(), 'w');
    assert_eq!(strm.next_char_or_fail(), 'w');

    assert_eq!(strm.next_char_or_fail(), ' ');

    strm.push_pos();
    strm.next_char_or_fail();
    strm.next_char_or_fail();
    assert_eq!(strm.unconsumed(), "t".to_string());

    assert_eq!(strm.eof(), false);
    strm.next_char_or_fail();
    assert_eq!(strm.eof(), true);
    assert_eq!(strm.unconsumed(), "".to_string());

    strm.pop_and_reset_pos();
    assert_eq!(strm.eof(), false);
    assert_eq!(strm.unconsumed(), "ttt".to_string());
}

#[test]
fn skip_failure_restores_cursor() {
    let mut parser = Parser::new("abcdef");
    let r = parser.skip("abd");
    assert!(r.is_err());
    assert_eq!(r.unwrap_err(), "Couldn't skip str 'abd'!");
    assert_eq!(parser.unconsumed(), "abcdef");
}

#[test]
fn skip_fails_on_short_input() {
    let mut parser = Parser::new("ab");
    assert!(parser.skip("abc").is_err());
    assert_eq!(parser.unconsumed(), "ab");
}

#[test]
fn skip_empty_str_fails() {
    let mut parser = Parser::new("abc");
    assert_eq!(parser.skip("").unwrap_err(), "Couldn't skip empty str!");
    assert_eq!(parser.unconsumed(), "abc");
}

#[test]
fn take_uint_failure_restores_cursor() {
    let mut parser = Parser::new("99999999999999999999999x");
    let r = parser.take_uint();
    assert_eq!(r.unwrap_err(), "Couldn't take uint!");
    assert_eq!(parser.unconsumed(), "99999999999999999999999x");

    let mut parser = Parser::new("xyz");
    assert_eq!(parser.take_uint().unwrap_err(), "Couldn't take uint!");
    assert_eq!(parser.unconsumed(), "xyz");
}

#[test]
fn take_char_fails_at_eof() {
    let mut parser = Parser::new("");
    assert_eq!(parser.take_char().unwrap_err(), "Couldn't take char!");
}

#[test]
fn skip_whitespace_takes_the_whole_white_space_set() {
    let mut parser = Parser::new("\u{000B}\u{000C}\u{0085}\u{00A0}\u{2000}\u{3000} x");
    parser.skip_whitespace();
    assert_eq!(parser.unconsumed(), "x");
}

#[test]
fn take_uint_reads_maximal_run() {
    let mut parser = Parser::new("0042abc");
    assert_eq!(parser.take_uint().unwrap(), 42);
    assert_eq!(parser.unconsumed(), "abc");
}
