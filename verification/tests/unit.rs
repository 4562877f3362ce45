use regex_quote_fixer::CharPredicate;
use regex_quote_fixer::CharSet;
use regex_quote_fixer::RegexQuoteFixer;

#[test]
fn tests_test_from_chars() {
    let rqf = RegexQuoteFixer::from_chars(vec!['?', '(', ')']);
    assert_eq!(true, rqf.lambda.contains('?'));
    assert_eq!(true, rqf.lambda.contains('('));
    assert_eq!(true, rqf.lambda.contains(')'));
    assert_eq!(false, rqf.lambda.contains('!'));
}

#[test]
fn tests_test_from_string() {
    let rqf = RegexQuoteFixer::from_string("?()".into());
    assert_eq!(true, rqf.lambda.contains('?'));
    assert_eq!(true, rqf.lambda.contains('('));
    assert_eq!(true, rqf.lambda.contains(')'));
    assert_eq!(false, rqf.lambda.contains('!'));
}

#[test]
fn tests_test_from_lambda() {
    let rqf = RegexQuoteFixer::from_lambda(CharSet { chars: vec!['_'] });
    assert_eq!(true, rqf.lambda.contains('_'));
    assert_eq!(false, rqf.lambda.contains('!'));
}

#[test]
fn tests_test_fix_regex() {
    let rqf = RegexQuoteFixer::from_lambda(CharSet { chars: vec!['?'] });
    assert_eq!("", rqf.fix(""));
    assert_eq!("a", rqf.fix("a"));
    assert_eq!("ab", rqf.fix("ab"));
    assert_eq!("\\", rqf.fix("\\"));
    assert_eq!("\\\\", rqf.fix("\\\\"));
    assert_eq!("\\\\\\", rqf.fix("\\\\\\"));
    assert_eq!("\\\\\\\\", rqf.fix("\\\\\\\\"));
    assert_eq!("\\b", rqf.fix("\\b"));
    assert_eq!("a\\", rqf.fix("a\\"));
    assert_eq!("a\\b", rqf.fix("a\\b"));

    assert_eq!("\\?", rqf.fix("?"));
    assert_eq!("?", rqf.fix("\\?"));
    assert_eq!("\\??", rqf.fix("?\\?"));
    assert_eq!("?\\?", rqf.fix("\\??"));

    assert_eq!("\\?\\?\\", rqf.fix("??\\"));
    assert_eq!("??\\", rqf.fix("\\?\\?\\"));
}
