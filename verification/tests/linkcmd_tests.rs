use staticlib_linker::error::ToolError;
use staticlib_linker::linkcmd::build_linker_args;
use staticlib_linker::linkcmd::link_result;
use staticlib_linker::linkcmd::linker_exit_code;

#[test]
fn argument_vector_layout() {
    let objects = vec!["/tmp/0_add.o".to_string(), "/tmp/1_sub.o".to_string()];
    let args = build_linker_args(&objects, None, "libmath.so", "/tmp/script.lds");
    assert_eq!(
        args,
        vec![
            "/tmp/0_add.o".to_string(),
            "/tmp/1_sub.o".to_string(),
            "-o".to_string(),
            "libmath.so".to_string(),
            "-Bstatic".to_string(),
            "-shared".to_string(),
            "-fPIC".to_string(),
            "-flto".to_string(),
            "-no-undefined".to_string(),
            "-nostdlib".to_string(),
            "-T".to_string(),
            "/tmp/script.lds".to_string(),
        ]
    );
}

#[test]
fn runtime_archive_follows_objects() {
    let objects = vec!["a.o".to_string()];
    let runtime = "libcrt.a".to_string();
    let args = build_linker_args(&objects, Some(&runtime), "out.so", "s.lds");
    assert_eq!(args[0], "a.o");
    assert_eq!(args[1], "libcrt.a");
    assert_eq!(args[2], "-o");
    assert_eq!(args[3], "out.so");
}

#[test]
fn no_objects_still_forms_a_command() {
    let args = build_linker_args(&Vec::new(), None, "out.so", "s.lds");
    assert_eq!(args[0], "-o");
    assert_eq!(args.len(), 10);
}

#[test]
fn exit_code_is_propagated_verbatim() {
    assert_eq!(linker_exit_code(Some(0)), 0);
    assert_eq!(linker_exit_code(Some(1)), 1);
    assert_eq!(linker_exit_code(Some(77)), 77);
}

#[test]
fn absent_exit_code_falls_back_to_success() {
    assert_eq!(linker_exit_code(None), 0);
}

#[test]
fn link_outcome_classification() {
    assert_eq!(link_result(Some(0)), Ok(()));
    assert_eq!(link_result(None), Ok(()));
    assert_eq!(link_result(Some(2)), Err(ToolError::LinkFailure(2)));
}
