//! What a child inherits.

use agentharbor::environment::{child_environment, inherits};
use agentharbor::Variable;

fn variable(name: &str, value: &str) -> Variable {
    Variable { name: name.to_owned(), value: value.to_owned() }
}

#[test]
fn the_allowlist_is_this() {
    for name in [
        "PATH", "HOME", "USERPROFILE", "LANG", "LANGUAGE", "LC_ALL", "LC_CTYPE", "LC_",
        "HTTP_PROXY", "HTTPS_PROXY", "ALL_PROXY", "NO_PROXY", "TERM", "COLORTERM", "COLUMNS",
        "LINES", "Path", "http_proxy", "lc_time",
    ] {
        assert!(inherits(name), "{name}");
    }
    for name in [
        "", "PAT", "PATHS", "XPATH", "LC", "L", "HOME2", "AWS_SECRET_ACCESS_KEY", "GITHUB_TOKEN",
        "SSH_AUTH_SOCK", "TERM_PROGRAM", "P\u{e4}th", "HTTP-PROXY", "NO\u{7f}PROXY",
    ] {
        assert!(!inherits(name), "{name}");
    }
}

#[test]
fn overrides_come_behind_what_is_inherited() {
    let host = vec![variable("TOKEN", "t"), variable("PATH", "/bin"), variable("TERM", "xterm")];
    let overrides = vec![variable("PATH", "/opt"), variable("MODE", "test")];
    assert_eq!(
        child_environment(&host, &overrides),
        vec![
            variable("PATH", "/bin"),
            variable("TERM", "xterm"),
            variable("PATH", "/opt"),
            variable("MODE", "test"),
        ]
    );
    assert_eq!(child_environment(&vec![], &vec![]), vec![]);
    assert_eq!(child_environment(&host, &vec![]).len(), 2);
}
