use seahorse::flag::{parse_int, parse_uint};
use seahorse::text::check_float_text;
use seahorse::utils::normalized_args;
use seahorse::{Context, Flag, FlagError, FlagType, FlagValue};

fn strs(v: &[&str]) -> Vec<String> {
    v.iter().map(|s| s.to_string()).collect()
}

#[test]
fn context_test() {
    let args = vec![
        "cli".to_string(),
        "command".to_string(),
        "args".to_string(),
        "--bool".to_string(),
        "--string".to_string(),
        "test".to_string(),
        "--int".to_string(),
        "100".to_string(),
        "--uint".to_string(),
        "1234567654321".to_string(),
        "--float_alias".to_string(),
        "1.23".to_string(),
        "--float".to_string(),
        "1.44".to_string(),
        "-ga".to_string(),
        "atest".to_string(),
        "--invalid_float".to_string(),
        "invalid".to_string(),
    ];
    let flags = vec![
        Flag::new("bool", FlagType::Bool),
        Flag::new("string", FlagType::String),
        Flag::new("int", FlagType::Int),
        Flag::new("uint", FlagType::Uint),
        Flag::new("float", FlagType::Float)
            .multiple()
            .alias("float_alias"),
        Flag::new("gbool", FlagType::Bool).alias("g"),
        Flag::new("alias", FlagType::String).alias("a"),
        Flag::new("invalid_float", FlagType::Float),
        Flag::new("not_specified", FlagType::String),
    ];
    let context = Context::new(normalized_args(args), Some(flags), "".to_string());

    assert_eq!(context.bool_flag("bool"), true);
    assert_eq!(context.string_flag("string"), Ok("test".to_string()));
    assert_eq!(context.int_flag("int"), Ok(100));
    assert_eq!(context.uint_flag("uint"), Ok(1234567654321));
    assert_eq!(
        context
            .float_flag_text("float")
            .map(|t| t.parse::<f64>().unwrap()),
        Ok(1.23)
    );
    assert_eq!(context.bool_flag("gbool"), true);
    assert_eq!(context.string_flag("alias"), Ok("atest".to_string()));

    // string value arg, string flag, used as int
    assert_eq!(context.int_flag("string"), Err(FlagError::TypeError));
    // string value arg, string flag, used as uint
    assert_eq!(context.uint_flag("string"), Err(FlagError::TypeError));
    // string value arg, float flag, used as float
    assert_eq!(
        context.float_flag_text("invalid_float"),
        Err(FlagError::ValueTypeError)
    );
    // use a flag whose name is not defined as flag
    assert_eq!(
        context.string_flag("not_registered"),
        Err(FlagError::Undefined)
    );
    // use a flag but it's value not passed
    assert_eq!(
        context.string_flag("not_specified"),
        Err(FlagError::NotFound)
    );
    assert_eq!(context.args, strs(&["cli", "command", "args"]));
    assert_eq!(
        context.float_flag_text_vec("float"),
        vec![Ok("1.23".to_string()), Ok("1.44".to_string())]
    );
}

#[test]
fn equals_form_matches_spaced_form() {
    let flags = || {
        Some(vec![
            Flag::new("name", FlagType::String),
            Flag::new("n", FlagType::Int).alias("k"),
        ])
    };
    let spaced = Context::new(
        normalized_args(strs(&["--name", "a=b", "-k", "7"])),
        flags(),
        String::new(),
    );
    let joined = Context::new(
        normalized_args(strs(&["--name=a=b", "-k=7"])),
        flags(),
        String::new(),
    );
    assert_eq!(spaced.string_flag("name"), Ok("a=b".to_string()));
    assert_eq!(joined.string_flag("name"), Ok("a=b".to_string()));
    assert_eq!(spaced.int_flag("n"), Ok(7));
    assert_eq!(joined.int_flag("n"), Ok(7));
}

#[test]
fn bool_flag_present_or_absent() {
    let flags = || Some(vec![Flag::new("verbose", FlagType::Bool).alias("v")]);
    let long = Context::new(strs(&["x", "--verbose"]), flags(), String::new());
    let short = Context::new(strs(&["-v", "x"]), flags(), String::new());
    let long_alias = Context::new(strs(&["--v"]), flags(), String::new());
    let absent = Context::new(strs(&["x"]), flags(), String::new());
    assert!(long.bool_flag("verbose"));
    assert!(short.bool_flag("verbose"));
    assert!(long_alias.bool_flag("verbose"));
    assert!(!absent.bool_flag("verbose"));
    assert_eq!(absent.bool_flag_vec("verbose"), vec![Err(FlagError::NotFound)]);
    assert_eq!(long.args, strs(&["x"]));
}

#[test]
fn multiple_flag_keeps_order() {
    let flags = Some(vec![Flag::new("tag", FlagType::String).multiple()]);
    let c = Context::new(
        strs(&["--tag", "b", "pos", "--tag", "a", "--tag", "c"]),
        flags,
        String::new(),
    );
    assert_eq!(
        c.string_flag_vec("tag"),
        vec![Ok("b".to_string()), Ok("a".to_string()), Ok("c".to_string())]
    );
    assert_eq!(c.string_flag("tag"), Ok("b".to_string()));
    assert_eq!(c.args, strs(&["pos"]));
}

#[test]
fn multiple_int_and_uint_values() {
    let flags = Some(vec![
        Flag::new("i", FlagType::Int).multiple(),
        Flag::new("u", FlagType::Uint).multiple(),
        Flag::new("b", FlagType::Bool).multiple(),
    ]);
    let c = Context::new(
        strs(&["--i", "-3", "--u", "4", "--i", "x", "--b", "--u", "5", "--b"]),
        flags,
        String::new(),
    );
    assert_eq!(c.int_flag_vec("i"), vec![Ok(-3), Err(FlagError::ValueTypeError)]);
    assert_eq!(c.uint_flag_vec("u"), vec![Ok(4), Ok(5)]);
    assert_eq!(c.bool_flag_vec("b"), vec![Ok(true), Ok(true)]);
    assert_eq!(c.int_flag_vec("u"), vec![Err(FlagError::TypeError), Err(FlagError::TypeError)]);
    assert_eq!(c.uint_flag_vec("zz"), vec![]);
}

#[test]
fn flag_errors() {
    let flags = Some(vec![
        Flag::new("s", FlagType::String),
        Flag::new("i", FlagType::Int),
        Flag::new("u", FlagType::Uint),
        Flag::new("f", FlagType::Float),
        Flag::new("last", FlagType::String),
    ]);
    let c = Context::new(
        strs(&["--s", "word", "--i", "12a", "--u", "-1", "--f", "1.2.3", "--last"]),
        flags,
        String::new(),
    );
    assert_eq!(c.int_flag("s"), Err(FlagError::TypeError));
    assert_eq!(c.string_flag("i"), Err(FlagError::ValueTypeError));
    assert_eq!(c.int_flag("i"), Err(FlagError::ValueTypeError));
    assert_eq!(c.uint_flag("u"), Err(FlagError::ValueTypeError));
    assert_eq!(c.float_flag_text("f"), Err(FlagError::ValueTypeError));
    assert_eq!(c.string_flag("last"), Err(FlagError::NotFound));
    assert_eq!(c.string_flag("nope"), Err(FlagError::Undefined));
    assert!(!c.bool_flag("s"));
    let none = Context::new(strs(&["a"]), None, String::new());
    assert_eq!(none.string_flag("s"), Err(FlagError::Undefined));
    assert_eq!(none.string_flag_vec("s"), vec![]);
    assert_eq!(none.args, strs(&["a"]));
}

#[test]
fn value_token_is_taken_even_when_it_looks_like_a_flag() {
    let flags = Some(vec![
        Flag::new("string", FlagType::String),
        Flag::new("int", FlagType::Int),
    ]);
    let c = Context::new(strs(&["--string", "--int", "5"]), flags, String::new());
    assert_eq!(c.string_flag("string"), Ok("--int".to_string()));
    assert_eq!(c.int_flag("int"), Err(FlagError::NotFound));
    assert_eq!(c.args, strs(&["5"]));
}

#[test]
fn integer_reading_limits() {
    assert_eq!(parse_int("-9223372036854775808"), Some(isize::MIN));
    assert_eq!(parse_int("9223372036854775807"), Some(isize::MAX));
    assert_eq!(parse_int("9223372036854775808"), None);
    assert_eq!(parse_int("+17"), Some(17));
    assert_eq!(parse_int("-"), None);
    assert_eq!(parse_int(""), None);
    assert_eq!(parse_int("1 "), None);
    assert_eq!(parse_uint("18446744073709551615"), Some(usize::MAX));
    assert_eq!(parse_uint("18446744073709551616"), None);
    assert_eq!(parse_uint("+0"), Some(0));
    assert_eq!(parse_uint("-0"), None);
}

#[test]
fn float_text_forms() {
    for ok in ["1", "1.", ".5", "-1.5e10", "2E-3", "+inf", "Infinity", "NaN", "0.1e+2"] {
        assert!(check_float_text(ok), "{}", ok);
        assert!(ok.parse::<f64>().is_ok(), "{}", ok);
    }
    for bad in ["", ".", "e5", "1e", "1.2.3", "infin", "1e+", "--1", " 1", "0x1"] {
        assert!(!check_float_text(bad), "{}", bad);
        assert!(bad.parse::<f64>().is_err(), "{}", bad);
    }
}

#[test]
fn normalization() {
    assert_eq!(
        normalized_args(strs(&["app", "-ga", "--x=1=2", "-f=3", "-42", "plain=1", "-g"])),
        strs(&["app", "-g", "-a", "--x", "1=2", "-f", "3", "-42", "plain=1", "-g"])
    );
}

#[test]
fn flag_value_coercion() {
    let f = Flag::new("n", FlagType::Int);
    assert_eq!(f.value(Some("-12".to_string())), Ok(FlagValue::Int(-12)));
    assert_eq!(f.value(None), Err(FlagError::NotFound));
    let b = Flag::new("b", FlagType::Bool);
    assert_eq!(b.value(None), Ok(FlagValue::Bool(true)));
    let idx = Flag::new("n", FlagType::Int).alias("k").option_index(&strs(&["x", "--k", "-n", "--n"]));
    assert_eq!(idx, Some(1));
}

#[test]
fn error_messages() {
    assert_eq!(FlagError::NotFound.message(), "flag not found".to_string());
    assert_eq!(FlagError::Undefined.message(), "flag undefined".to_string());
    assert_eq!(FlagError::TypeError.message(), "flag type mismatch".to_string());
    assert_eq!(
        FlagError::ValueTypeError.message(),
        "flag value type mismatch".to_string()
    );
    assert_eq!(
        seahorse::ActionError::Failed("boom".to_string()).message(),
        "boom".to_string()
    );
    assert_eq!(
        seahorse::ActionError::NotFound.message(),
        "no action was found for the arguments".to_string()
    );
}
