use just::escape::{cook, escape};

#[test]
fn escapes_decode() {
    assert_eq!(cook("a\\nb\\tc").unwrap(), "a\nb\tc");
    assert_eq!(cook("say \\\"hi\\\"").unwrap(), "say \"hi\"");
    assert_eq!(cook("back\\\\slash\\r").unwrap(), "back\\slash\r");
    assert_eq!(cook("plain").unwrap(), "plain");
    assert_eq!(cook("").unwrap(), "");
}

#[test]
fn invalid_escape_is_reported() {
    assert_eq!(
        cook("bad \\q here").unwrap_err(),
        "`\\q` is not a valid escape sequence"
    );
    assert_eq!(
        cook("trailing \\").unwrap_err(),
        "`\\` is not a valid escape sequence"
    );
}

#[test]
fn escaping_round_trips() {
    for text in ["", "plain", "a\nb\tc", "quote \" and \\ back", "\r\n"] {
        assert_eq!(cook(&escape(text)).unwrap(), text);
    }
    assert_eq!(escape("a\nb"), "a\\nb");
}
