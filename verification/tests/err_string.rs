use pydantic_core::errors::err_string;
use pyo3::exceptions::{PyKeyError, PyValueError};
use pyo3::types::{PyAnyMethods, PyDict, PyStringMethods, PyTypeMethods};
use pyo3::{PyErr, Python};

/// Reads the class name and the text of a raised exception from the
/// interpreter, and has the library describe them.
fn described(py: Python, err: PyErr) -> String {
    let value = err.value(py);
    let class_name = value.get_type().qualname().ok().map(|name| name.to_string());
    let text = match class_name {
        Some(_) => value.str().ok().map(|text| text.to_string_lossy().into_owned()),
        None => None,
    };
    err_string(class_name, text)
}

fn some(s: &str) -> Option<String> {
    Some(s.to_string())
}

#[test]
fn err_string_without_class_name() {
    assert_eq!(err_string(None, some("text")), "Unknown Error");
    assert_eq!(err_string(None, None), "Unknown Error");
}

#[test]
fn err_string_with_class_name_and_text() {
    assert_eq!(err_string(some("ValueError"), some("bad value")), "ValueError: bad value");
    assert_eq!(err_string(some("Outer.Inner"), some(": ")), "Outer.Inner: : ");
}

#[test]
fn err_string_with_empty_text_is_the_class_name() {
    assert_eq!(err_string(some("ValueError"), some("")), "ValueError");
    assert_eq!(err_string(some(""), some("")), "");
}

#[test]
fn err_string_where_text_could_not_be_had() {
    assert_eq!(err_string(some("ValueError"), None), "ValueError: <exception str() failed>");
}

#[test]
fn err_string_of_a_raised_exception_names_class_and_text() {
    pyo3::prepare_freethreaded_python();
    let s = Python::with_gil(|py| described(py, PyValueError::new_err("boom")));
    assert_eq!(s, "ValueError: boom");
}

#[test]
fn err_string_of_a_raised_exception_without_text() {
    pyo3::prepare_freethreaded_python();
    let s = Python::with_gil(|py| described(py, PyValueError::new_err(())));
    assert_eq!(s, "ValueError");
    let s = Python::with_gil(|py| described(py, PyKeyError::new_err("k")));
    assert_eq!(s, "KeyError: 'k'");
}

#[test]
fn err_string_of_a_raised_exception_whose_text_fails() {
    pyo3::prepare_freethreaded_python();
    let s = Python::with_gil(|py| {
        let globals = PyDict::new(py);
        py.run(
            c"class Outer:\n    class Broken(Exception):\n        def __str__(self):\n            raise RuntimeError('no text')\nvalue = Outer.Broken()\n",
            Some(&globals),
            None,
        )
        .unwrap();
        let value = globals.get_item("value").unwrap();
        described(py, PyErr::from_value(value))
    });
    assert_eq!(s, "Outer.Broken: <exception str() failed>");
}
