use jlrs_sched::convert::{exception_to_error, Exception, IntoJlrsResult, IntoResult, CANNOT_DISPLAY_VALUE};
use jlrs_sched::error::JlrsError;
use jlrs_sched::output::Frame;

#[test]
fn output_keeps_the_result_rooted() {
    let mut f = Frame::new();
    f.root(11);
    let out = f.output();
    let scope = out.into_scope(&mut f);
    f.root(22);
    f.root(33);
    assert_eq!(f.len(), 4);
    assert_eq!(scope.finish(&mut f, 44), 44);
    assert_eq!(f.len(), 2);
}

#[test]
fn exceptions_become_errors() {
    let ok: Result<u8, Exception> = Ok(3);
    assert_eq!(exception_to_error(ok), Ok(3));
    let thrown: Result<u8, Exception> = Err(Exception { description: Some("boom".to_string()) });
    assert_eq!(thrown.into_jlrs_result(), Err(JlrsError::Exception("boom".to_string())));
    let hidden: Result<u8, Exception> = Err(Exception { description: None });
    assert_eq!(
        exception_to_error(hidden),
        Err(JlrsError::Exception(CANNOT_DISPLAY_VALUE.to_string()))
    );
}

#[test]
fn into_result_passes_results_through() {
    let unit: Result<(), String> = ().into_result();
    assert_eq!(unit, Ok(()));
    let failed: Result<(), String> = Err("x".to_string()).into_result();
    assert_eq!(failed, Err("x".to_string()));
}
