use staticlib_linker::archive::default_blacklist;
use staticlib_linker::archive::extract_members;
use staticlib_linker::error::ToolError;
use staticlib_linker::linkcmd::build_linker_args;
use staticlib_linker::linkcmd::linker_exit_code;
use staticlib_linker::naming::object_file_names;
use staticlib_linker::script::generate_lds_prelude;
use staticlib_linker::script::generate_lds_section;
use staticlib_linker::script::generate_lds_version;
use staticlib_linker::soname::choose_soname;
use staticlib_linker::soname::short_soname;

fn member_record(name: &str, contents: &[u8]) -> Vec<u8> {
    let mut record = Vec::new();
    let mut name_field = name.as_bytes().to_vec();
    while name_field.len() < 16 {
        name_field.push(b' ');
    }
    record.extend_from_slice(&name_field);
    record.extend_from_slice(&[b' '; 32]);
    let mut size_field = contents.len().to_string().into_bytes();
    while size_field.len() < 10 {
        size_field.push(b' ');
    }
    record.extend_from_slice(&size_field);
    record.push(0x60);
    record.push(0x0a);
    record.extend_from_slice(contents);
    if contents.len() % 2 == 1 {
        record.push(0x0a);
    }
    record
}

#[test]
fn libmath_scenario() {
    // archive `libmath.a` holding `add.o` and `sub.o`
    let mut archive = b"!<arch>\n".to_vec();
    archive.extend_from_slice(&member_record("add.o", b"add object code"));
    archive.extend_from_slice(&member_record("sub.o", b"sub object code"));

    // two extracted objects, distinct scratch names
    let members = extract_members(&archive, &default_blacklist()).unwrap();
    assert_eq!(members.len(), 2);
    let names = object_file_names(&members);
    assert_eq!(names[0], b"0_add.o".to_vec());
    assert_eq!(names[1], b"1_sub.o".to_vec());

    // soname derived from the archive's file name; the short form tags the map
    let soname = choose_soname(None, "libmath.a");
    assert_eq!(soname, "libmath.so");
    let tag = short_soname(&soname);
    assert_eq!(tag, "math");

    // the version block of the generated script
    let version = generate_lds_version(&tag, vec!["math_add".to_string(), "math_sub".to_string()]);
    assert_eq!(
        version,
        "VERSION {\n  math {\n    global:\n      math_add;\n      math_sub;\n    local:\n      *;\n  };\n}\n"
    );
    let script = vec![generate_lds_prelude(), version, generate_lds_section()].join("\n");
    assert!(script.contains("VERSION {\n  math {"));

    // the linker argument list
    let object_paths = vec!["/scratch/0_add.o".to_string(), "/scratch/1_sub.o".to_string()];
    let args = build_linker_args(&object_paths, None, "libmath.so", "/scratch/script.lds");
    assert!(args.contains(&"/scratch/0_add.o".to_string()));
    assert!(args.contains(&"/scratch/1_sub.o".to_string()));
    assert!(args.contains(&"-shared".to_string()));
    assert!(args.contains(&"-fPIC".to_string()));
    assert!(args.contains(&"-nostdlib".to_string()));
    let o_at = args.iter().position(|a| a == "-o").unwrap();
    assert_eq!(args[o_at + 1], "libmath.so");
    let t_at = args.iter().position(|a| a == "-T").unwrap();
    assert_eq!(args[t_at + 1], "/scratch/script.lds");

    // the linker's exit code becomes the tool's exit code
    assert_eq!(linker_exit_code(Some(0)), 0);
    assert_eq!(linker_exit_code(Some(1)), 1);
}

#[test]
fn malformed_archive_fails_before_any_link_step() {
    let bytes = b"not an archive at all".to_vec();
    let outcome = extract_members(&bytes, &default_blacklist());
    assert_eq!(outcome, Err(ToolError::ArchiveFormatError));
}
