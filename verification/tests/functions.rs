use just::function::{
    arch, clean, dotenv_get, env_var, env_var_or_default, extension, file_name, file_stem,
    invocation_directory, join, justfile, justfile_directory, lowercase, os, os_family,
    parent_directory, replace, trim, uppercase, without_extension, EnvVarAnswer, Function,
    FunctionContext,
};

fn context() -> FunctionContext {
    FunctionContext {
        dotenv: Vec::new(),
        invocation_directory: "/work/project".to_owned(),
        justfile: "/work/project/justfile".to_owned(),
    }
}

fn dotenv_context() -> FunctionContext {
    FunctionContext {
        dotenv: vec![("KEY".to_owned(), "ROOT".to_owned())],
        invocation_directory: "/work/project".to_owned(),
        justfile: "/work/project/justfile".to_owned(),
    }
}

#[test]
fn table_lookup_finds_every_builtin() {
    let names = [
        ("arch", 0),
        ("clean", 1),
        ("env_var", 1),
        ("env_var_or_default", 2),
        ("extension", 1),
        ("file_name", 1),
        ("file_stem", 1),
        ("invocation_directory", 0),
        ("join", 2),
        ("just_executable", 0),
        ("justfile", 0),
        ("justfile_directory", 0),
        ("lowercase", 1),
        ("os", 0),
        ("os_family", 0),
        ("parent_directory", 1),
        ("replace", 3),
        ("trim", 1),
        ("uppercase", 1),
        ("without_extension", 1),
    ];
    for (name, argc) in names {
        let function = Function::lookup(name).unwrap();
        assert_eq!(function.argc(), argc, "wrong arity for {}", name);
    }
}

#[test]
fn table_lookup_rejects_unknown_names() {
    assert!(Function::lookup("nope").is_none());
    assert!(Function::lookup("").is_none());
    assert!(Function::lookup("Arch").is_none());
}

#[test]
fn host_descriptors_are_non_empty() {
    let context = context();
    assert!(!arch(&context).unwrap().is_empty());
    assert!(!os(&context).unwrap().is_empty());
    let family = os_family(&context).unwrap();
    assert!(family == "unix" || family == "wasm" || family == "windows");
}

#[test]
fn clean_normalizes_lexically() {
    let context = context();
    assert_eq!(clean(&context, "./foo").unwrap(), "foo");
    assert_eq!(clean(&context, "/foo/../bar").unwrap(), "/bar");
    assert_eq!(clean(&context, "foo/.//bar/").unwrap(), "foo/bar");
    assert_eq!(clean(&context, "").unwrap(), ".");
}

#[test]
fn dotenv_wins_over_environment_answer() {
    let context = dotenv_context();
    assert_eq!(
        env_var(&context, "KEY", EnvVarAnswer::Present("OTHER".to_owned())).unwrap(),
        "ROOT"
    );
    assert_eq!(
        env_var_or_default(
            &context,
            "KEY",
            "fallback",
            EnvVarAnswer::Present("OTHER".to_owned())
        )
        .unwrap(),
        "ROOT"
    );
}

#[test]
fn env_var_reports_missing_variable() {
    let context = context();
    assert_eq!(
        env_var(&context, "UNSET", EnvVarAnswer::NotPresent).unwrap_err(),
        "environment variable `UNSET` not present"
    );
    assert_eq!(
        env_var(&context, "UNSET", EnvVarAnswer::Present("yes".to_owned())).unwrap(),
        "yes"
    );
}

#[test]
fn env_var_or_default_falls_back() {
    let context = context();
    assert_eq!(
        env_var_or_default(&context, "UNSET", "fallback", EnvVarAnswer::NotPresent).unwrap(),
        "fallback"
    );
}

#[test]
fn env_var_reports_non_unicode() {
    let context = context();
    assert_eq!(
        env_var(&context, "BAD", EnvVarAnswer::NotUnicode("\"\\xFF\"".to_owned())).unwrap_err(),
        "environment variable `BAD` not unicode: \"\\xFF\""
    );
}

#[test]
fn dotenv_lookup_finds_first_match() {
    let entries = vec![
        ("A".to_owned(), "1".to_owned()),
        ("B".to_owned(), "2".to_owned()),
    ];
    assert_eq!(dotenv_get(&entries, "B").unwrap(), "2");
    assert!(dotenv_get(&entries, "C").is_none());
}

#[test]
fn extension_of_path() {
    let context = context();
    assert_eq!(extension(&context, "foo.tar.gz").unwrap(), "gz");
    assert_eq!(
        extension(&context, "foo").unwrap_err(),
        "Could not extract extension from `foo`"
    );
}

#[test]
fn file_name_of_path() {
    let context = context();
    assert_eq!(file_name(&context, "tmp/foo.txt").unwrap(), "foo.txt");
    assert_eq!(
        file_name(&context, "/").unwrap_err(),
        "Could not extract file name from `/`"
    );
}

#[test]
fn file_stem_of_path() {
    let context = context();
    assert_eq!(file_stem(&context, "foo.tar.gz").unwrap(), "foo.tar");
    assert_eq!(
        file_stem(&context, "/").unwrap_err(),
        "Could not extract file stem from `/`"
    );
}

#[test]
fn parent_directory_of_path() {
    let context = context();
    assert_eq!(parent_directory(&context, "/foo/bar").unwrap(), "/foo");
    assert_eq!(
        parent_directory(&context, "/").unwrap_err(),
        "Could not extract parent directory from `/`"
    );
}

#[test]
fn join_paths() {
    let context = context();
    assert_eq!(join(&context, "/etc", "passwd").unwrap(), "/etc/passwd");
    assert_eq!(join(&context, "base", "/abs").unwrap(), "/abs");
}

#[test]
fn without_extension_of_path() {
    let context = context();
    assert_eq!(without_extension(&context, "/a/b.txt").unwrap(), "/a/b");
    assert_eq!(
        without_extension(&context, "/").unwrap_err(),
        "Could not extract parent from `/`"
    );
}

#[test]
fn case_mapping() {
    let context = context();
    assert_eq!(lowercase(&context, "AbC").unwrap(), "abc");
    assert_eq!(uppercase(&context, "AbC").unwrap(), "ABC");
}

#[test]
fn trim_strips_both_ends_only() {
    let context = context();
    assert_eq!(trim(&context, "  hi there\t ").unwrap(), "hi there");
    assert_eq!(trim(&context, "\u{a0}x\u{2028}").unwrap(), "x");
    assert_eq!(trim(&context, "   ").unwrap(), "");
}

#[test]
fn replace_substrings() {
    let context = context();
    assert_eq!(replace(&context, "abcabc", "b", "x").unwrap(), "axcaxc");
    assert_eq!(replace(&context, "aaa", "aa", "b").unwrap(), "ba");
    assert_eq!(replace(&context, "abc", "", "x").unwrap(), "xaxbxcx");
    assert_eq!(replace(&context, "abc", "z", "x").unwrap(), "abc");
}

#[test]
fn context_paths() {
    let context = context();
    assert_eq!(invocation_directory(&context).unwrap(), "/work/project");
    assert_eq!(justfile(&context).unwrap(), "/work/project/justfile");
    assert_eq!(justfile_directory(&context).unwrap(), "/work/project");
}
