use jata::property::PropertyError;
use jata::property::PropertyValue;
use jata::property::TypeTag;
use jata::property::TypedProperty;

fn s(text: &str) -> String {
    text.to_string()
}

#[test]
fn int_list_scenario() {
    let (p, content) = TypedProperty::new_int_list(s("nums"), s("/data/nums"), vec![1, -2, 300]);
    assert_eq!(content, "1\n-2\n300");
    assert_eq!(p.tag, TypeTag::IntList);
    assert_eq!(p.get_int_list(Some(content.clone())), Ok(vec![1, -2, 300]));
    assert_eq!(
        p.get_str(Some(content)),
        Err(PropertyError::TypeMismatch { expected: TypeTag::Str, at: s("/data/nums") })
    );
}

#[test]
fn bool_scenario() {
    let (p, content) = TypedProperty::new_bool(s("flag"), s("/data/flag"), true);
    assert_eq!(content, "1");
    assert_eq!(p.get_bool(Some(content)), Ok(true));
    // the file is overwritten out-of-band with a byte that is neither 0 nor 1
    assert_eq!(
        p.get_bool(Some(s("2"))),
        Err(PropertyError::Parse { token: s("2"), at: s("/data/flag") })
    );
}

#[test]
fn round_trip_scalars() {
    let (p, c) = TypedProperty::new_str(s("n"), s("/p"), s("hello there"));
    assert_eq!(c, "hello there");
    assert_eq!(p.get_str(Some(c)), Ok(s("hello there")));

    let (p, c) = TypedProperty::new_int(s("n"), s("/p"), -9001);
    assert_eq!(c, "-9001");
    assert_eq!(p.get_int(Some(c)), Ok(-9001));

    let (p, c) = TypedProperty::new_int(s("n"), s("/p"), i64::MIN);
    assert_eq!(c, "-9223372036854775808");
    assert_eq!(p.get_int(Some(c)), Ok(i64::MIN));

    let (p, c) = TypedProperty::new_int(s("n"), s("/p"), i64::MAX);
    assert_eq!(c, "9223372036854775807");
    assert_eq!(p.get_int(Some(c)), Ok(i64::MAX));

    let (p, c) = TypedProperty::new_float(s("n"), s("/p"), s("-3.25"));
    assert_eq!(c, "-3.25");
    assert_eq!(p.get_float(Some(c)), Ok(s("-3.25")));

    let (p, c) = TypedProperty::new_bool(s("n"), s("/p"), false);
    assert_eq!(c, "0");
    assert_eq!(p.get_bool(Some(c)), Ok(false));
}

#[test]
fn round_trip_lists() {
    let (p, c) = TypedProperty::new_str_list(s("n"), s("/p"), vec![s("a"), s(""), s("bc")]);
    assert_eq!(c, "a\n\nbc");
    assert_eq!(p.get_str_list(Some(c)), Ok(vec![s("a"), s(""), s("bc")]));

    let (p, c) = TypedProperty::new_float_list(s("n"), s("/p"), vec![s("1.5"), s("-0.25")]);
    assert_eq!(c, "1.5\n-0.25");
    assert_eq!(p.get_float_list(Some(c)), Ok(vec![s("1.5"), s("-0.25")]));

    let (p, c) = TypedProperty::new_bool_list(s("n"), s("/p"), vec![true, false, true]);
    assert_eq!(c, "1\n0\n1");
    assert_eq!(p.get_bool_list(Some(c)), Ok(vec![true, false, true]));
}

#[test]
fn round_trip_empty_lists() {
    let (p, c) = TypedProperty::new_str_list(s("n"), s("/p"), vec![]);
    assert_eq!(c, "");
    assert_eq!(p.get_str_list(Some(c)), Ok(vec![]));

    let (p, c) = TypedProperty::new_int_list(s("n"), s("/p"), vec![]);
    assert_eq!(c, "");
    assert_eq!(p.get_int_list(Some(c)), Ok(vec![]));

    let (p, c) = TypedProperty::new_bool_list(s("n"), s("/p"), vec![]);
    assert_eq!(c, "");
    assert_eq!(p.get_bool_list(Some(c)), Ok(vec![]));
}

#[test]
fn construct_general_value() {
    let (p, c) = TypedProperty::construct(
        s("n"),
        s("/p"),
        &PropertyValue::IntList(vec![7, 8]),
    );
    assert_eq!(p.tag, TypeTag::IntList);
    assert_eq!(p.name, "n");
    assert_eq!(p.location, "/p");
    assert_eq!(c, "7\n8");
}

#[test]
fn type_mismatch_all_getters() {
    let (p, c) = TypedProperty::new_int(s("n"), s("/p"), 5);
    let mismatch = |expected: TypeTag| {
        Err::<String, _>(PropertyError::TypeMismatch { expected, at: s("/p") })
    };
    assert_eq!(p.get_str(Some(c.clone())), mismatch(TypeTag::Str));
    assert_eq!(p.get_float(Some(c.clone())), mismatch(TypeTag::Float));
    assert_eq!(
        p.get_bool(Some(c.clone())),
        Err(PropertyError::TypeMismatch { expected: TypeTag::Bool, at: s("/p") })
    );
    assert_eq!(
        p.get_str_list(Some(c.clone())),
        Err(PropertyError::TypeMismatch { expected: TypeTag::StrList, at: s("/p") })
    );
    assert_eq!(
        p.get_int_list(Some(c.clone())),
        Err(PropertyError::TypeMismatch { expected: TypeTag::IntList, at: s("/p") })
    );
    assert_eq!(
        p.get_float_list(Some(c.clone())),
        Err(PropertyError::TypeMismatch { expected: TypeTag::FloatList, at: s("/p") })
    );
    assert_eq!(
        p.get_bool_list(Some(c.clone())),
        Err(PropertyError::TypeMismatch { expected: TypeTag::BoolList, at: s("/p") })
    );
    // the right getter still succeeds, so the mismatch is about the tag alone
    assert_eq!(p.get_int(Some(c)), Ok(5));
}

#[test]
fn mismatch_beats_parse() {
    // content that would not parse as an integer: still a mismatch error,
    // never a parse error, because the tag is checked first
    let (p, _) = TypedProperty::new_str(s("n"), s("/p"), s("not a number"));
    assert_eq!(
        p.get_int(Some(s("not a number"))),
        Err(PropertyError::TypeMismatch { expected: TypeTag::Int, at: s("/p") })
    );
}

#[test]
fn io_error_when_read_failed() {
    let (p, _) = TypedProperty::new_int(s("n"), s("/p"), 5);
    assert_eq!(p.get_int(None), Err(PropertyError::Io));
    assert_eq!(p.get_str(None), Err(PropertyError::Io));
    assert_eq!(p.get_int_list(None), Err(PropertyError::Io));
}

#[test]
fn corrupted_element_aborts_whole_list() {
    let (p, _) = TypedProperty::new_int_list(s("n"), s("/p"), vec![1, 2, 3]);
    // the file is corrupted by hand: one bad token among valid ones
    assert_eq!(
        p.get_int_list(Some(s("1\nx\n3"))),
        Err(PropertyError::Parse { token: s("x"), at: s("/p") })
    );
    // out-of-range element: syntactically digits, but no i64 holds it
    assert_eq!(
        p.get_int_list(Some(s("1\n9223372036854775808"))),
        Err(PropertyError::Parse { token: s("9223372036854775808"), at: s("/p") })
    );

    let (p, _) = TypedProperty::new_bool_list(s("n"), s("/p"), vec![true]);
    assert_eq!(
        p.get_bool_list(Some(s("1\n0\n2"))),
        Err(PropertyError::Parse { token: s("2"), at: s("/p") })
    );

    let (p, _) = TypedProperty::new_float_list(s("n"), s("/p"), vec![s("1.0")]);
    assert_eq!(
        p.get_float_list(Some(s("1.0\n2:0"))),
        Err(PropertyError::Parse { token: s("2:0"), at: s("/p") })
    );
}

#[test]
fn list_delimiter_edge_cases() {
    let (sp, _) = TypedProperty::new_str_list(s("n"), s("/p"), vec![]);
    let (ip, _) = TypedProperty::new_int_list(s("n"), s("/p"), vec![]);

    // empty text decodes to the empty list
    assert_eq!(sp.get_str_list(Some(s(""))), Ok(vec![]));
    assert_eq!(ip.get_int_list(Some(s(""))), Ok(vec![]));

    // a single trailing newline does not open an empty trailing element
    assert_eq!(sp.get_str_list(Some(s("a\nb\n"))), Ok(vec![s("a"), s("b")]));
    assert_eq!(ip.get_int_list(Some(s("4\n5\n"))), Ok(vec![4, 5]));

    // consecutive newlines hold an empty element: a string list keeps it,
    // a numeric list refuses to parse it
    assert_eq!(sp.get_str_list(Some(s("a\n\nb"))), Ok(vec![s("a"), s(""), s("b")]));
    assert_eq!(
        ip.get_int_list(Some(s("4\n\n5"))),
        Err(PropertyError::Parse { token: s(""), at: s("/p") })
    );

    // a lone newline is one empty element, not none and not two
    assert_eq!(sp.get_str_list(Some(s("\n"))), Ok(vec![s("")]));
}
