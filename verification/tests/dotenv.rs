use just::dotenv::parse_dotenv;
use just::function::{env_var, EnvVarAnswer, FunctionContext};

fn pairs(list: &[(&str, &str)]) -> Vec<(String, String)> {
    list.iter()
        .map(|(k, v)| ((*k).to_owned(), (*v).to_owned()))
        .collect()
}

#[test]
fn dotenv() {
    // the nearest .env wins: its mapping beats the inherited environment
    let context = FunctionContext {
        dotenv: parse_dotenv("KEY=SUB"),
        invocation_directory: "/work/sub".to_owned(),
        justfile: "/work/sub/justfile".to_owned(),
    };
    assert_eq!(
        env_var(&context, "KEY", EnvVarAnswer::Present("ROOT".to_owned())).unwrap(),
        "SUB"
    );
    assert_eq!(
        env_var(&context, "KEY", EnvVarAnswer::NotPresent).unwrap(),
        "SUB"
    );
}

#[test]
fn dotenv_parses_key_value_lines() {
    assert_eq!(
        parse_dotenv("A=1\nB=two\nC=a=b"),
        pairs(&[("A", "1"), ("B", "two"), ("C", "a=b")])
    );
}

#[test]
fn dotenv_skips_lines_without_a_key() {
    assert_eq!(
        parse_dotenv("\nA=1\n\nnot an entry\n=missing key\nB=2\n"),
        pairs(&[("A", "1"), ("B", "2")])
    );
    assert_eq!(parse_dotenv(""), pairs(&[]));
}

#[test]
fn dotenv_drops_carriage_returns() {
    assert_eq!(
        parse_dotenv("A=1\r\nB=2\r"),
        pairs(&[("A", "1"), ("B", "2")])
    );
}
