use seahorse::{ActionError, App, Command, Context, Flag, FlagType, Target};

type Action = fn(&Context);
type ActionWithResult = fn(&Context) -> Result<(), String>;
type Cli = App<Action, ActionWithResult>;
type Cmd = Command<Action, ActionWithResult>;

fn strs(v: &[&str]) -> Vec<String> {
    v.iter().map(|s| s.to_string()).collect()
}

fn check_flags(c: &Context, string_value: &str) {
    assert_eq!(true, c.bool_flag("bool"));
    match c.string_flag("string") {
        Ok(flag) => assert_eq!(string_value.to_string(), flag),
        _ => assert!(false, "string test false..."),
    }
    match c.int_flag("int") {
        Ok(flag) => assert_eq!(100, flag),
        _ => assert!(false, "int test false..."),
    }
    match c.float_flag_text("float") {
        Ok(flag) => assert_eq!(1.23, flag.parse::<f64>().unwrap()),
        _ => assert!(false, "float test false..."),
    }
}

#[test]
fn app_new_only_test() {
    let app: Cli = App::new("cli");
    app.run(vec!["cli".to_string()]);

    assert_eq!(app.name, "cli".to_string());
    assert_eq!(app.usage, None);
    assert_eq!(app.author, None);
    assert_eq!(app.description, None);
    assert_eq!(app.version, None);
}

#[test]
fn multiple_app_test() {
    let a: Action = |c: &Context| check_flags(c, "string");
    let c: Cmd = Command::new("hello")
        .alias("h")
        .description("hello command")
        .usage("test hello(h) args")
        .action(a)
        .flag(Flag::new("bool", FlagType::Bool))
        .flag(Flag::new("string", FlagType::String))
        .flag(Flag::new("int", FlagType::Int))
        .flag(Flag::new("float", FlagType::Float));

    let app: Cli = App::new("test")
        .author("Author <author@example.com>")
        .description("This is a great tool.")
        .usage("test [command] [arg]")
        .version("0.0.1")
        .command(c);

    app.run(strs(&[
        "test", "hello", "args", "--bool", "--string", "string", "--int", "100", "--float", "1.23",
    ]));

    app.run(strs(&[
        "test", "h", "args", "--bool", "--string", "string", "--int", "100", "--float", "1.23",
    ]));

    assert_eq!(app.name, "test".to_string());
    assert_eq!(app.usage, Some("test [command] [arg]".to_string()));
    assert_eq!(app.author, Some("Author <author@example.com>".to_string()));
    assert_eq!(app.description, Some("This is a great tool.".to_string()));
    assert_eq!(app.version, Some("0.0.1".to_string()));
}

#[test]
fn single_app_test() {
    let action: Action = |c: &Context| check_flags(c, "string");

    let app: Cli = App::new("test")
        .author("Author <author@example.com>")
        .description("This is a great tool.")
        .usage("test [arg]")
        .version("0.0.1")
        .action(action)
        .flag(Flag::new("bool", FlagType::Bool))
        .flag(Flag::new("string", FlagType::String))
        .flag(Flag::new("int", FlagType::Int))
        .flag(Flag::new("float", FlagType::Float));

    app.run(strs(&[
        "test", "args", "--bool", "--string", "string", "--int", "100", "--float", "1.23",
    ]));

    assert_eq!(app.name, "test".to_string());
    assert_eq!(app.usage, Some("test [arg]".to_string()));
    assert_eq!(app.author, Some("Author <author@example.com>".to_string()));
    assert_eq!(app.description, Some("This is a great tool.".to_string()));
    assert_eq!(app.version, Some("0.0.1".to_string()));
}

#[test]
fn flag_only_app_test() {
    let action: Action = |c: &Context| check_flags(c, "string");

    let app: Cli = App::new("test")
        .author("Author <author@example.com>")
        .description("This is a great tool.")
        .usage("test")
        .version("0.0.1")
        .action(action)
        .flag(Flag::new("bool", FlagType::Bool))
        .flag(Flag::new("string", FlagType::String))
        .flag(Flag::new("int", FlagType::Int))
        .flag(Flag::new("float", FlagType::Float));

    app.run(strs(&[
        "test", "--bool", "--string", "string", "--int", "100", "--float", "1.23",
    ]));

    assert_eq!(app.name, "test".to_string());
    assert_eq!(app.usage, Some("test".to_string()));
    assert_eq!(app.author, Some("Author <author@example.com>".to_string()));
    assert_eq!(app.description, Some("This is a great tool.".to_string()));
    assert_eq!(app.version, Some("0.0.1".to_string()));
}

#[test]
fn single_app_equal_notation_test() {
    let action: Action = |c: &Context| check_flags(c, "str=ing");

    let app: Cli = App::new("test")
        .author("Author <author@example.com>")
        .description("This is a great tool.")
        .usage("test [arg]")
        .version("0.0.1")
        .action(action)
        .flag(Flag::new("bool", FlagType::Bool))
        .flag(Flag::new("string", FlagType::String))
        .flag(Flag::new("int", FlagType::Int))
        .flag(Flag::new("float", FlagType::Float).alias("f"));

    app.run(strs(&[
        "test",
        "args",
        "--bool",
        "--string=str=ing",
        "--int=100",
        "-f=1.23",
    ]));

    assert_eq!(app.name, "test".to_string());
    assert_eq!(app.usage, Some("test [arg]".to_string()));
    assert_eq!(app.author, Some("Author <author@example.com>".to_string()));
    assert_eq!(app.description, Some("This is a great tool.".to_string()));
    assert_eq!(app.version, Some("0.0.1".to_string()));
}

#[test]
fn app_with_ok_result_test() {
    let a: ActionWithResult = |_: &Context| {
        return Ok(());
    };
    let app: Cli = App::new("test").action_with_result(a);
    app.run(vec!["test".to_string()]);
}

#[test]
fn app_with_ok_result_value_test() {
    let a: ActionWithResult = |_: &Context| {
        return Ok(());
    };
    let app: Cli = App::new("test").action_with_result(a);
    let result = app.run_with_result(vec!["test".to_string()]);
    assert!(!result.is_err());
}

#[test]
fn app_with_error_result_value_test() {
    let a: ActionWithResult = |_: &Context| {
        return Err("test error".to_string());
    };
    let app: Cli = App::new("test").action_with_result(a);
    let result = app.run_with_result(vec!["test".to_string()]);
    assert!(result.is_err());
}

#[test]
fn command_with_ok_result_test() {
    let a: ActionWithResult = |_: &Context| {
        return Ok(());
    };
    let command: Cmd = Command::new("hello").action_with_result(a);
    let app: Cli = App::new("test").command(command);
    app.run(vec!["test".to_string(), "hello".to_string()]);
}

#[test]
fn command_with_ok_result_value_test() {
    let a: ActionWithResult = |_: &Context| {
        return Ok(());
    };
    let command: Cmd = Command::new("hello").action_with_result(a);
    let app: Cli = App::new("test").command(command);
    let result = app.run_with_result(vec!["test".to_string(), "hello".to_string()]);
    assert!(!result.is_err());
}

#[test]
fn command_with_error_result_value_test() {
    let a: ActionWithResult = |_: &Context| {
        return Err("test error".to_string());
    };
    let command: Cmd = Command::new("hello").action_with_result(a);
    let app: Cli = App::new("test").command(command);
    let result = app.run_with_result(vec!["test".to_string(), "hello".to_string()]);
    assert!(result.is_err());
}

#[test]
fn error_message_is_kept() {
    let a: ActionWithResult = |_: &Context| Err("boom".to_string());
    let app: Cli = App::new("test").action_with_result(a);
    let result = app.run_with_result(strs(&["test", "x"]));
    assert_eq!(result, Err(ActionError::Failed("boom".to_string())));
}

#[test]
fn end_to_end_command_flags() {
    let a: ActionWithResult = |c: &Context| {
        if c.args != vec!["args".to_string()] {
            return Err("args".to_string());
        }
        if !c.bool_flag("bool") {
            return Err("bool".to_string());
        }
        if c.string_flag("string") != Ok("x".to_string()) {
            return Err("string".to_string());
        }
        if c.int_flag("int") != Ok(42) {
            return Err("int".to_string());
        }
        match c.float_flag_text("float") {
            Ok(t) if t.parse::<f64>() == Ok(3.5) => Ok(()),
            _ => Err("float".to_string()),
        }
    };
    let hello: Cmd = Command::new("hello")
        .action_with_result(a)
        .flag(Flag::new("bool", FlagType::Bool))
        .flag(Flag::new("string", FlagType::String))
        .flag(Flag::new("int", FlagType::Int))
        .flag(Flag::new("float", FlagType::Float));
    let app: Cli = App::new("app").command(hello);
    let result = app.run_with_result(strs(&[
        "app", "hello", "args", "--bool", "--string", "x", "--int", "42", "--float", "3.5",
    ]));
    assert_eq!(result, Ok(()));
}

#[test]
fn empty_app_shows_help_and_succeeds() {
    let app: Cli = App::new("app");
    assert_eq!(app.run_with_result(strs(&["app"])), Ok(()));
}

#[test]
fn empty_app_with_unknown_token_is_not_found() {
    let app: Cli = App::new("app");
    assert_eq!(
        app.run_with_result(strs(&["app", "nothing"])),
        Err(ActionError::NotFound)
    );
}

#[test]
fn help_flag_skips_action() {
    let a: ActionWithResult = |_: &Context| Err("ran".to_string());
    let app: Cli = App::new("app").action_with_result(a);
    assert_eq!(app.run_with_result(strs(&["app", "--help"])), Ok(()));
    assert_eq!(app.run_with_result(strs(&["app", "-h"])), Ok(()));
    assert!(app.run_with_result(strs(&["app"])).is_err());
}

#[test]
fn alias_routes_like_name() {
    let a: ActionWithResult = |_: &Context| Ok(());
    let other: Cmd = Command::new("other").action_with_result(a);
    let hello: Cmd = Command::new("hello").alias("h").action_with_result(a);
    let app: Cli = App::new("app").command(other).command(hello);
    let by_name = app.route(strs(&["app", "hello", "x", "--f"]));
    let by_alias = app.route(strs(&["app", "h", "x", "--f"]));
    assert_eq!(by_name.path, vec![1]);
    assert_eq!(by_alias.path, vec![1]);
    match (by_name.target, by_alias.target) {
        (Target::Invoke(a), Target::Invoke(b)) => {
            assert_eq!(a, strs(&["x", "--f"]));
            assert_eq!(a, b);
        }
        _ => panic!("expected both to invoke"),
    }
}

#[test]
fn nested_command_route() {
    let a: ActionWithResult = |_: &Context| Ok(());
    let inner: Cmd = Command::new("inner").action_with_result(a);
    let outer: Cmd = Command::new("outer").command(inner);
    let app: Cli = App::new("app").command(outer);
    let r = app.route(strs(&["app", "outer", "inner", "v"]));
    assert_eq!(r.path, vec![0, 0]);
    assert!(matches!(r.target, Target::Invoke(ref t) if *t == strs(&["v"])));
    let dead = app.route(strs(&["app", "outer", "nope"]));
    assert_eq!(dead.path, vec![0]);
    assert!(matches!(dead.target, Target::Missing));
    let bare = app.route(strs(&["app", "outer"]));
    assert!(matches!(bare.target, Target::Help));
}

#[test]
fn help_text_layout() {
    let hello: Cmd = Command::new("hello").alias("h").description("say hello");
    let app: Cli = App::new("cli")
        .author("me")
        .version("1.0")
        .flag(Flag::new("count", FlagType::Int).alias("c").description("how many"))
        .flag(Flag::new("verbose", FlagType::Bool))
        .command(hello);
    let expected = "Name:\n\tcli\n\n\
Author:\n\tme\n\n\
Flags:\n\
\t-c, --count <int> : how many\n\
\t--verbose\n\
\t-h, --help        : Show help\n\
\nCommands:\n\
\th, hello : say hello\n\
\nVersion:\n\t1.0\n";
    assert_eq!(app.help_text(), expected.to_string());
}
