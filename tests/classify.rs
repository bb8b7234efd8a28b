use error_chains::ir::TypeDesc;
use error_chains::types::classify_type;

fn ty(printed: &str, args: Vec<TypeDesc>) -> TypeDesc {
    TypeDesc { printed: printed.to_string(), args, opaque_future: false, coroutine_args: None }
}

#[test]
fn result_type_gives_its_error() {
    let t = ty("std::result::Result<(), MyError>", vec![ty("()", vec![]), ty("MyError", vec![])]);
    assert_eq!(classify_type(&t), ("MyError".to_string(), true));
}

#[test]
fn alias_of_result_is_recognised() {
    // type Res<T> = Result<T, ()>; the front end prints the expanded type
    let t = ty("std::result::Result<(), ()>", vec![ty("()", vec![]), ty("()", vec![])]);
    assert_eq!(classify_type(&t), ("()".to_string(), true));
}

#[test]
fn option_is_not_an_error() {
    let t = ty("std::option::Option<()>", vec![ty("()", vec![])]);
    assert_eq!(classify_type(&t), ("std::option::Option<()>".to_string(), false));
}

#[test]
fn number_is_not_an_error() {
    assert_eq!(classify_type(&ty("u32", vec![])), ("u32".to_string(), false));
}

#[test]
fn look_alike_without_closing_bracket_is_not_an_error() {
    let t = ty("std::result::Result<", vec![]);
    assert_eq!(classify_type(&t), ("std::result::Result<".to_string(), false));
}

#[test]
fn nested_result_is_found() {
    let inner = ty(
        "std::result::Result<u8, std::io::Error>",
        vec![ty("u8", vec![]), ty("std::io::Error", vec![])],
    );
    let t = ty("std::vec::Vec<std::result::Result<u8, std::io::Error>>", vec![inner]);
    assert_eq!(classify_type(&t), ("std::io::Error".to_string(), true));
}

#[test]
fn result_with_generic_error() {
    let err = ty(
        "std::boxed::Box<dyn std::error::Error>",
        vec![ty("dyn std::error::Error", vec![])],
    );
    let t = ty(
        "std::result::Result<std::vec::Vec<u8>, std::boxed::Box<dyn std::error::Error>>",
        vec![ty("std::vec::Vec<u8>", vec![ty("u8", vec![])]), err],
    );
    assert_eq!(
        classify_type(&t),
        ("std::boxed::Box<dyn std::error::Error>".to_string(), true)
    );
}

#[test]
fn future_is_unwrapped() {
    let output = ty(
        "std::result::Result<(), MyError>",
        vec![ty("()", vec![]), ty("MyError", vec![])],
    );
    let t = TypeDesc {
        printed: "impl std::future::Future<Output = std::result::Result<(), MyError>>".to_string(),
        args: vec![],
        opaque_future: true,
        coroutine_args: Some(vec![ty("i32", vec![]), output]),
    };
    assert_eq!(classify_type(&t), ("MyError".to_string(), true));
}

#[test]
fn future_without_result_is_not_an_error() {
    let t = TypeDesc {
        printed: "impl std::future::Future<Output = u8>".to_string(),
        args: vec![],
        opaque_future: true,
        coroutine_args: Some(vec![ty("u8", vec![])]),
    };
    assert_eq!(classify_type(&t), ("impl std::future::Future<Output = u8>".to_string(), false));
}

#[test]
fn future_with_nested_result_is_unwrapped() {
    // async fn returning Option<Result<(), E>>
    let result = ty("std::result::Result<(), E>", vec![ty("()", vec![]), ty("E", vec![])]);
    let output = ty("std::option::Option<std::result::Result<(), E>>", vec![result]);
    let t = TypeDesc {
        printed: "impl std::future::Future<Output = std::option::Option<std::result::Result<(), E>>>"
            .to_string(),
        args: vec![],
        opaque_future: true,
        coroutine_args: Some(vec![ty("i32", vec![]), output]),
    };
    assert_eq!(classify_type(&t), ("E".to_string(), true));
}
