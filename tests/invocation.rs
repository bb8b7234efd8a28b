use error_chains::invocation::{extract_arguments, get_rustc_invocation, split_args};

#[test]
fn split_args_joins_quotes_and_fixes_flags() {
    let command = "rustc --crate-name crate1 --edition=2021 src/main.rs --error-format=json \
                   --json=diagnostic-rendered-ansi --crate-type bin --cfg \"feature=\\\"x\\\"\" \
                   -C \"link-arg=a b\"";
    let args = split_args("test/crate1/Cargo.toml", command);
    let expected = vec![
        "rustc",
        "--crate-name",
        "crate1",
        "--edition=2021",
        "test/crate1/src/main.rs",
        "--error-format=short",
        "--crate-type",
        "bin",
        "--cfg",
        "feature=\"x\"",
        "-C",
        "link-arg=a b",
    ];
    assert_eq!(args, expected);
}

#[test]
fn split_args_keeps_empty_pieces() {
    assert_eq!(split_args("Cargo.toml", "a  b"), vec!["a", "", "b"]);
    assert_eq!(split_args("Cargo.tomlCargo.toml", "main.rs"), vec!["main.rs"]);
    assert_eq!(split_args("x/", "\""), vec![""]);
}

#[test]
fn split_args_drops_unclosed_quote() {
    assert_eq!(split_args("Cargo.toml", "a \"b c"), vec!["a"]);
}

#[test]
fn rustc_invocation_is_found() {
    let out = "   Compiling crate1 v0.1.0\n     Running `/usr/bin/rustc --crate-name build_script_build build.rs --crate-type bin main.rs`\n     Running `rustc --crate-name my_bin --edition=2021 src/main.rs --crate-type bin -C x && echo done`\n";
    let found = get_rustc_invocation(out, "my-bin", None);
    assert_eq!(
        found.as_deref(),
        Some("rustc --crate-name my_bin --edition=2021 src/main.rs --crate-type bin -C x ")
    );
    assert_eq!(get_rustc_invocation(out, "other", None), None);
    assert_eq!(
        get_rustc_invocation(out, "other", Some("my-bin".to_string())).as_deref(),
        Some("rustc --crate-name my_bin --edition=2021 src/main.rs --crate-type bin -C x ")
    );
}

#[test]
fn arguments_are_extracted() {
    let args: Vec<String> = vec!["prog".into(), "in/Cargo.toml".into(), "out.dot".into()];
    assert_eq!(
        extract_arguments(&args),
        Some(("in/Cargo.toml".to_string(), "out.dot".to_string(), true))
    );
    let args: Vec<String> =
        vec!["prog".into(), "in".into(), "out".into(), "--call".into()];
    assert_eq!(extract_arguments(&args), Some(("in".to_string(), "out".to_string(), false)));
    let args: Vec<String> = vec!["prog".into(), "in".into(), "out".into(), "--calls".into()];
    assert_eq!(extract_arguments(&args), Some(("in".to_string(), "out".to_string(), true)));
    let args: Vec<String> = vec!["prog".into(), "in".into()];
    assert_eq!(extract_arguments(&args), None);
}
