use jata::codec::check_float_text;
use jata::codec::int_to_text;
use jata::codec::parse_bool;
use jata::codec::parse_int;
use jata::file::JataFile;
use jata::group::PropertyGroup;
use jata::lines::join_newlines;
use jata::lines::split_newlines;
use jata::property::TypedProperty;

fn s(text: &str) -> String {
    text.to_string()
}

#[test]
fn int_parsing_grammar() {
    assert_eq!(parse_int("0"), Some(0));
    assert_eq!(parse_int("42"), Some(42));
    assert_eq!(parse_int("-42"), Some(-42));
    assert_eq!(parse_int("007"), Some(7));
    assert_eq!(parse_int("-0"), Some(0));
    assert_eq!(parse_int("9223372036854775807"), Some(i64::MAX));
    assert_eq!(parse_int("-9223372036854775808"), Some(i64::MIN));
    assert_eq!(parse_int("9223372036854775808"), None);
    assert_eq!(parse_int("-9223372036854775809"), None);
    assert_eq!(parse_int("99999999999999999999999"), None);
    assert_eq!(parse_int(""), None);
    assert_eq!(parse_int("-"), None);
    assert_eq!(parse_int("1.5"), None);
    assert_eq!(parse_int(" 1"), None);
    assert_eq!(parse_int("1 "), None);
    assert_eq!(parse_int("+1"), None);
    assert_eq!(parse_int("12a"), None);
}

#[test]
fn int_encoding() {
    assert_eq!(int_to_text(0), "0");
    assert_eq!(int_to_text(9), "9");
    assert_eq!(int_to_text(10), "10");
    assert_eq!(int_to_text(-1), "-1");
    assert_eq!(int_to_text(123456), "123456");
    assert_eq!(int_to_text(i64::MIN), "-9223372036854775808");
    assert_eq!(int_to_text(i64::MAX), "9223372036854775807");
}

#[test]
fn bool_parsing() {
    assert_eq!(parse_bool("1"), Some(true));
    assert_eq!(parse_bool("0"), Some(false));
    assert_eq!(parse_bool(""), None);
    assert_eq!(parse_bool("2"), None);
    assert_eq!(parse_bool("10"), None);
    assert_eq!(parse_bool("true"), None);
}

#[test]
fn float_grammar() {
    assert!(check_float_text("0"));
    assert!(check_float_text("3.25"));
    assert!(check_float_text("-3.25"));
    assert!(check_float_text("-7"));
    assert!(check_float_text("007.100"));
    assert!(!check_float_text(""));
    assert!(!check_float_text("-"));
    assert!(!check_float_text("."));
    assert!(!check_float_text("1."));
    assert!(!check_float_text(".5"));
    assert!(!check_float_text("1e5"));
    assert!(!check_float_text("1.2.3"));
    assert!(!check_float_text("--1"));
    assert!(!check_float_text("1 "));
}

#[test]
fn split_and_join() {
    assert_eq!(split_newlines(""), Vec::<String>::new());
    assert_eq!(split_newlines("a"), vec![s("a")]);
    assert_eq!(split_newlines("a\n"), vec![s("a")]);
    assert_eq!(split_newlines("\n"), vec![s("")]);
    assert_eq!(split_newlines("a\nb"), vec![s("a"), s("b")]);
    assert_eq!(split_newlines("a\n\nb"), vec![s("a"), s(""), s("b")]);
    assert_eq!(join_newlines(&vec![]), "");
    assert_eq!(join_newlines(&vec![s("a")]), "a");
    assert_eq!(join_newlines(&vec![s("a"), s(""), s("b")]), "a\n\nb");
}

#[test]
fn jata_file_defaults() {
    let f: JataFile<i64> = JataFile::new();
    assert_eq!(f.path(), "");
    assert_eq!(*f.value(), 0);
    let g: JataFile<bool> = JataFile::default();
    assert_eq!(*g.value(), false);
    let h: JataFile<i64> = JataFile::at_path(s("/data/count"));
    assert_eq!(h.path(), "/data/count");
}

#[test]
fn jata_file_check_value() {
    let f: JataFile<i64> = JataFile::at_path(s("/data/count"));
    assert_eq!(f.check_value(Some(s("41"))), Some(41));
    let f: JataFile<i64> = JataFile::at_path(s("/data/count"));
    assert_eq!(f.check_value(Some(s("nope"))), None);
    let f: JataFile<i64> = JataFile::at_path(s("/data/count"));
    assert_eq!(f.check_value(None), None);
}

#[test]
fn jata_file_reset_value() {
    let mut f: JataFile<i64> = JataFile::at_path(s("/data/count"));
    assert_eq!(f.reset_value(Some(s("7"))), Some(()));
    assert_eq!(*f.value(), 7);
    // a failed decode leaves the cache exactly as it was
    assert_eq!(f.reset_value(Some(s("seven"))), None);
    assert_eq!(*f.value(), 7);
    // so does a failed read
    assert_eq!(f.reset_value(None), None);
    assert_eq!(*f.value(), 7);
}

#[test]
fn jata_file_set_value_updates_cache_before_write() {
    let mut f: JataFile<bool> = JataFile::at_path(s("/no/such/dir/flag"));
    let rep = f.set_value(true);
    assert_eq!(rep, "1");
    // the cache already holds the new value, whatever then happens to the
    // write of `rep`: memory and disk may diverge after a failed write
    assert_eq!(*f.value(), true);
}

#[test]
fn property_group_keeps_order() {
    let mut g = PropertyGroup::new(s("/data"));
    assert_eq!(g.len(), 0);
    let (a, _) = TypedProperty::new_int(s("a"), s("/data/a"), 1);
    let (b, _) = TypedProperty::new_bool(s("a"), s("/data/b"), true);
    g.add(a);
    g.add(b);
    assert_eq!(g.len(), 2);
    assert_eq!(g.location, "/data");
    assert_eq!(g.properties[0].name, "a");
    assert_eq!(g.properties[0].location, "/data/a");
    assert_eq!(g.properties[1].location, "/data/b");
}
