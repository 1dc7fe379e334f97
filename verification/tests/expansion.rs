//! Paths with `~` and variables in them.

use gongd::args::Args;
use gongd::environment::Environment;
use gongd::error::IoErrorKind;
use gongd::fs_path::FsPath;
use gongd::paths::{
    env_var_value, expand_env_vars, expand_home, expand_path, home_dir_string, is_env_var_continue,
    is_env_var_start,
};

fn env(vars: &[(&str, &str)]) -> Environment {
    Environment {
        vars: vars.iter().map(|(name, value)| (name.to_string(), value.to_string())).collect(),
    }
}

fn expanded(raw: &str, env: &Environment) -> FsPath {
    expand_path(&FsPath::from_text(raw), env).unwrap()
}

#[test]
fn expand_path_expands_home_and_env_vars() {
    let home = FsPath::from_text("/tmp/gongd-paths-home");
    let workspace = FsPath::from_text("/tmp/gongd-paths-workspace");
    let env = env(&[("HOME", "/tmp/gongd-paths-home"), ("WORKSPACE", "/tmp/gongd-paths-workspace")]);

    assert_eq!(expanded("~/repo", &env), home.join(&FsPath::from_text("repo")));
    assert_eq!(expanded("$WORKSPACE/repo", &env), workspace.join(&FsPath::from_text("repo")));
    assert_eq!(expanded("${WORKSPACE}/repo", &env), workspace.join(&FsPath::from_text("repo")));
}

#[test]
fn expand_path_errors_for_unset_env_vars() {
    let err = expand_path(&FsPath::from_text("$GONGD_TEST_UNSET/repo"), &env(&[])).unwrap_err();
    assert_eq!(err.kind, IoErrorKind::NotFound);
}

#[test]
fn config_path_expands_home_prefix() {
    let home = FsPath::from_text("/tmp/gongd-args-home");
    let env = env(&[("HOME", "/tmp/gongd-args-home")]);
    let args = Args {
        socket: FsPath::from_text("/tmp/gongd.sock"),
        control_socket: FsPath::from_text("/tmp/gongd.ctl.sock"),
        config: Some(FsPath::from_text("~/.gong/custom.json")),
        debounce_ms: 150,
        folders: Vec::new(),
    };

    assert_eq!(
        args.config_path(&env).unwrap(),
        home.join(&FsPath::from_text(".gong")).join(&FsPath::from_text("custom.json"))
    );
}

#[test]
fn default_config_lies_in_home() {
    let env = env(&[("HOME", "/home/u")]);
    let args = Args {
        socket: FsPath::from_text("/tmp/gongd.sock"),
        control_socket: FsPath::from_text("/tmp/gongd.ctl.sock"),
        config: None,
        debounce_ms: 150,
        folders: Vec::new(),
    };
    assert_eq!(args.config_path(&env).unwrap().text().as_deref(), Some("/home/u/.gong/config.json"));
    assert_eq!(args.debounce_window(), 150_000_000);
    assert!(args.check_sockets().is_ok());
    let copy = args.clone();
    assert_eq!((copy.socket, copy.control_socket), (args.socket, args.control_socket));
    assert_eq!((copy.config, copy.folders), (args.config, args.folders));
    assert_eq!(copy.debounce_ms, 150);
}

#[test]
fn equal_sockets_are_refused() {
    let args = Args {
        socket: FsPath::from_text("/tmp/a.sock"),
        control_socket: FsPath::from_text("/tmp/./a.sock"),
        config: None,
        debounce_ms: 0,
        folders: Vec::new(),
    };
    let err = args.check_sockets().unwrap_err();
    assert_eq!(err.kind, IoErrorKind::InvalidInput);
    assert_eq!(err.message, "event socket and control socket must be different paths");
}

#[test]
fn home_is_replaced_at_the_start_only() {
    let env = env(&[("HOME", "/home/u")]);
    assert_eq!(expand_home("~", &env).unwrap(), "/home/u");
    assert_eq!(expand_home("~/a", &env).unwrap(), "/home/u/a");
    assert_eq!(expand_home("~user/a", &env).unwrap(), "~user/a");
    assert_eq!(expand_home("/a/~", &env).unwrap(), "/a/~");
    assert_eq!(expand_home("~//etc", &env).unwrap(), "/etc");
    assert_eq!(expand_home("~/", &env).unwrap(), "/home/u/");
}

#[test]
fn unset_home_is_an_error() {
    let none = env(&[]);
    let err = home_dir_string(&none).unwrap_err();
    assert_eq!(err.kind, IoErrorKind::NotFound);
    assert_eq!(err.message, "HOME is not set");
    assert!(expand_home("~/a", &none).is_err());
    assert_eq!(expand_home("a", &none).unwrap(), "a");
}

#[test]
fn both_spellings_of_a_variable_agree() {
    let env = env(&[("A_1", "x"), ("A", "y")]);
    assert_eq!(expand_env_vars("$A_1-z", &env).unwrap(), "x-z");
    assert_eq!(expand_env_vars("${A_1}-z", &env).unwrap(), "x-z");
    assert_eq!(expand_env_vars("${A}_1", &env).unwrap(), "y_1");
    assert_eq!(expand_env_vars("$A$A_1", &env).unwrap(), "yx");
}

#[test]
fn plain_text_stays() {
    let none = env(&[]);
    assert_eq!(expand_env_vars("/a/b c", &none).unwrap(), "/a/b c");
    assert_eq!(expand_env_vars("", &none).unwrap(), "");
    assert_eq!(expanded("~user/x", &none).text().as_deref(), Some("~user/x"));
    assert_eq!(expanded("~~", &none).text().as_deref(), Some("~~"));
}

#[test]
fn dollars_that_name_nothing_stay() {
    let none = env(&[]);
    assert_eq!(expand_env_vars("a$", &none).unwrap(), "a$");
    assert_eq!(expand_env_vars("$1", &none).unwrap(), "$1");
    assert_eq!(expand_env_vars("$/x", &none).unwrap(), "$/x");
    assert_eq!(expand_env_vars("${}", &none).unwrap(), "${}");
    assert_eq!(expand_env_vars("${A", &none).unwrap(), "${A");
    assert_eq!(expand_env_vars("$$", &none).unwrap(), "$$");
}

#[test]
fn unset_variables_are_named() {
    let err = env_var_value("NOPE", &env(&[])).unwrap_err();
    assert_eq!(err.kind, IoErrorKind::NotFound);
    assert_eq!(err.message, "environment variable NOPE is not set");
    let err = expand_env_vars("/a/${NOPE}/b", &env(&[])).unwrap_err();
    assert_eq!(err.message, "environment variable NOPE is not set");
}

#[test]
fn first_value_of_a_variable_counts() {
    let env = env(&[("A", "1"), ("A", "2")]);
    assert_eq!(env.var("A").as_deref(), Some("1"));
    assert_eq!(env.var("B"), None);
}

#[test]
fn names_are_letters_digits_and_underscores() {
    assert!(is_env_var_start('_') && is_env_var_start('a') && is_env_var_start('Z'));
    assert!(!is_env_var_start('1') && !is_env_var_start('-') && !is_env_var_start('\u{e9}'));
    assert!(is_env_var_continue('9') && !is_env_var_continue('.'));
}

#[test]
fn paths_that_are_no_text_are_not_expanded() {
    let raw = FsPath::from_bytes(vec![b'~', b'/', 0xff]);
    let out = expand_path(&raw, &env(&[("HOME", "/home/u")])).unwrap();
    assert!(out.same_bytes(&raw));
}
