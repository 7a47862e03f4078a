use cblog::cbtml::{compile, try_compile};
use cblog::cbtml::parser::is_void_element;

#[test]
fn compiles_nested_elements_with_expressions() {
    let out = compile("div.card#main\n  p Hello {{ name }}\n", "t.cbtml").unwrap();
    assert_eq!(out, "<div class=\"card\" id=\"main\"><p>Hello {{ name }}</p></div>");
}

#[test]
fn void_elements_self_close() {
    assert!(is_void_element("br"));
    assert!(is_void_element("img"));
    assert!(!is_void_element("div"));
    let out = compile("br\n", "t.cbtml").unwrap();
    assert_eq!(out, "<br />");
}

#[test]
fn checked_compile_spots_unsliceable_comments() {
    assert!(try_compile("{#}\n", "t.cbtml").is_none());
    let src = "div.card#main\n  p Hello {{ name }}\n";
    assert_eq!(try_compile(src, "t.cbtml").unwrap().unwrap(), compile(src, "t.cbtml").unwrap());
    assert!(try_compile("{# open\nnever closed\n", "t.cbtml").unwrap().is_err());
}
