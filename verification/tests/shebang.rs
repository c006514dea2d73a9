use just::shebang::Shebang;

fn check(text: &str, expected_split: Option<(&str, Option<&str>)>) {
    let shebang = Shebang::new(text);
    assert_eq!(
        shebang.map(|shebang| (shebang.interpreter, shebang.argument)),
        expected_split.map(|(interpreter, argument)| (
            interpreter.to_owned(),
            argument.map(str::to_owned)
        ))
    );
}

#[test]
fn split_shebang() {
    check("#!    ", None);
    check("#!", None);
    check("#!/bin/bash", Some(("/bin/bash", None)));
    check("#!/bin/bash    ", Some(("/bin/bash", None)));
    check(
        "#!/usr/bin/env python",
        Some(("/usr/bin/env", Some("python"))),
    );
    check(
        "#!/usr/bin/env python   ",
        Some(("/usr/bin/env", Some("python"))),
    );
    check(
        "#!/usr/bin/env python -x",
        Some(("/usr/bin/env", Some("python -x"))),
    );
    check(
        "#!/usr/bin/env python   -x",
        Some(("/usr/bin/env", Some("python   -x"))),
    );
    check(
        "#!/usr/bin/env python \t-x\t",
        Some(("/usr/bin/env", Some("python \t-x"))),
    );
    check("#/usr/bin/env python \t-x\t", None);
    check("#!  /bin/bash", Some(("/bin/bash", None)));
    check("#!\t\t/bin/bash    ", Some(("/bin/bash", None)));
    check(
        "#!  \t\t/usr/bin/env python",
        Some(("/usr/bin/env", Some("python"))),
    );
    check(
        "#!  /usr/bin/env python   ",
        Some(("/usr/bin/env", Some("python"))),
    );
    check(
        "#!  /usr/bin/env python -x",
        Some(("/usr/bin/env", Some("python -x"))),
    );
    check(
        "#!  /usr/bin/env python   -x",
        Some(("/usr/bin/env", Some("python   -x"))),
    );
    check(
        "#!  /usr/bin/env python \t-x\t",
        Some(("/usr/bin/env", Some("python \t-x"))),
    );
    check("#  /usr/bin/env python \t-x\t", None);
}

#[test]
fn interpreter_filename_with_forward_slash() {
    assert_eq!(
        Shebang::new("#!/foo/bar/baz").unwrap().interpreter_filename(),
        "baz"
    );
}

#[test]
fn interpreter_filename_with_backslash() {
    assert_eq!(
        Shebang::new("#!\\foo\\bar\\baz")
            .unwrap()
            .interpreter_filename(),
        "baz"
    );
}

#[test]
fn powershell_script_filename() {
    assert_eq!(
        Shebang::new("#!powershell").unwrap().script_filename("foo"),
        "foo.ps1"
    );
}

#[test]
fn powershell_exe_script_filename() {
    assert_eq!(
        Shebang::new("#!powershell.exe")
            .unwrap()
            .script_filename("foo"),
        "foo.ps1"
    );
}

#[test]
fn cmd_script_filename() {
    assert_eq!(
        Shebang::new("#!cmd").unwrap().script_filename("foo"),
        "foo.bat"
    );
}

#[test]
fn cmd_exe_script_filename() {
    assert_eq!(
        Shebang::new("#!cmd.exe").unwrap().script_filename("foo"),
        "foo.bat"
    );
}

#[test]
fn plain_script_filename() {
    assert_eq!(Shebang::new("#!bar").unwrap().script_filename("foo"), "foo");
}

#[test]
fn dont_include_shebang_line_cmd() {
    assert!(!Shebang::new("#!cmd").unwrap().include_shebang_line());
}

#[test]
fn dont_include_shebang_line_cmd_exe() {
    assert!(!Shebang::new("#!cmd.exe /C").unwrap().include_shebang_line());
}

#[test]
fn include_shebang_line_other() {
    assert!(Shebang::new("#!foo -c").unwrap().include_shebang_line());
}

#[test]
fn shebang_multiline_takes_first_line() {
    check("#!/bin/sh\necho hi", Some(("/bin/sh", None)));
    check("#!/bin/sh\r\necho hi", Some(("/bin/sh", None)));
}

#[test]
fn interpreter_filename_trailing_slash_is_empty() {
    assert_eq!(
        Shebang::new("#!/foo/bar/").unwrap().interpreter_filename(),
        ""
    );
}
