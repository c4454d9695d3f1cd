use staticlib_linker::archive::default_blacklist;
use staticlib_linker::archive::extract_members;
use staticlib_linker::archive::parse_archive;
use staticlib_linker::error::ToolError;
use staticlib_linker::naming::object_file_names;

const MAGIC: &[u8] = b"!<arch>\n";

fn member_record(name: &str, contents: &[u8]) -> Vec<u8> {
    let mut record = Vec::new();
    let mut name_field = name.as_bytes().to_vec();
    while name_field.len() < 16 {
        name_field.push(b' ');
    }
    record.extend_from_slice(&name_field);
    record.extend_from_slice(&[b' '; 32]);
    let mut size_field = contents.len().to_string().into_bytes();
    while size_field.len() < 10 {
        size_field.push(b' ');
    }
    record.extend_from_slice(&size_field);
    record.push(0x60);
    record.push(0x0a);
    record.extend_from_slice(contents);
    if contents.len() % 2 == 1 {
        record.push(0x0a);
    }
    record
}

fn archive_of(members: &[(&str, &[u8])]) -> Vec<u8> {
    let mut bytes = MAGIC.to_vec();
    for (name, contents) in members {
        bytes.extend_from_slice(&member_record(name, contents));
    }
    bytes
}

#[test]
fn parse_recovers_members_in_order() {
    let bytes = archive_of(&[("add.o", b"first member"), ("sub.o", b"second")]);
    let members = parse_archive(&bytes).unwrap();
    assert_eq!(members.len(), 2);
    assert_eq!(members[0].name, b"add.o".to_vec());
    assert_eq!(members[0].data, b"first member".to_vec());
    assert_eq!(members[1].name, b"sub.o".to_vec());
    assert_eq!(members[1].data, b"second".to_vec());
}

#[test]
fn parse_round_trips_every_byte() {
    let contents: Vec<u8> = (0u8..=255).collect();
    let bytes = archive_of(&[("blob.bin", &contents)]);
    let members = parse_archive(&bytes).unwrap();
    assert_eq!(members.len(), 1);
    assert_eq!(members[0].data, contents);
}

#[test]
fn parse_handles_odd_sized_member_padding() {
    let bytes = archive_of(&[("odd.o", b"abc"), ("next.o", b"defg")]);
    let members = parse_archive(&bytes).unwrap();
    assert_eq!(members.len(), 2);
    assert_eq!(members[0].data, b"abc".to_vec());
    assert_eq!(members[1].name, b"next.o".to_vec());
}

#[test]
fn parse_empty_archive() {
    let members = parse_archive(MAGIC).unwrap();
    assert_eq!(members.len(), 0);
}

#[test]
fn parse_rejects_bad_magic() {
    let mut bytes = archive_of(&[("add.o", b"x")]);
    bytes[0] = b'?';
    assert_eq!(parse_archive(&bytes), Err(ToolError::ArchiveFormatError));
}

#[test]
fn parse_rejects_short_input() {
    assert_eq!(parse_archive(b"!<ar"), Err(ToolError::ArchiveFormatError));
}

#[test]
fn parse_rejects_truncated_header() {
    let mut bytes = MAGIC.to_vec();
    bytes.extend_from_slice(b"add.o");
    assert_eq!(parse_archive(&bytes), Err(ToolError::ArchiveFormatError));
}

#[test]
fn parse_rejects_truncated_contents() {
    let mut bytes = archive_of(&[("add.o", b"full contents")]);
    bytes.truncate(bytes.len() - 4);
    assert_eq!(parse_archive(&bytes), Err(ToolError::ArchiveFormatError));
}

#[test]
fn parse_rejects_bad_terminator() {
    let mut bytes = archive_of(&[("add.o", b"xy")]);
    bytes[8 + 58] = b'!';
    assert_eq!(parse_archive(&bytes), Err(ToolError::ArchiveFormatError));
}

#[test]
fn parse_rejects_malformed_size_field() {
    let mut bytes = archive_of(&[("add.o", b"xy")]);
    bytes[8 + 48] = b' ';
    assert_eq!(parse_archive(&bytes), Err(ToolError::ArchiveFormatError));
    let mut bytes = archive_of(&[("add.o", b"xyzw12345678")]);
    bytes[8 + 49] = b'x';
    assert_eq!(parse_archive(&bytes), Err(ToolError::ArchiveFormatError));
}

#[test]
fn parse_rejects_empty_identifier() {
    let bytes = archive_of(&[("", b"xy")]);
    assert_eq!(parse_archive(&bytes), Err(ToolError::InvalidIdentifierError));
}

#[test]
fn parse_rejects_unprintable_identifier() {
    let mut bytes = archive_of(&[("add.o", b"xy")]);
    bytes[8] = 0x01;
    assert_eq!(parse_archive(&bytes), Err(ToolError::InvalidIdentifierError));
}

#[test]
fn extraction_skips_blacklisted_members() {
    let bytes = archive_of(&[("/", b"symbol table"), ("add.o", b"a"), ("//", b"names"), ("sub.o", b"s")]);
    let members = extract_members(&bytes, &default_blacklist()).unwrap();
    assert_eq!(members.len(), 2);
    assert_eq!(members[0].name, b"add.o".to_vec());
    assert_eq!(members[1].name, b"sub.o".to_vec());
    for m in &members {
        assert_ne!(m.name, b"/".to_vec());
        assert_ne!(m.name, b"//".to_vec());
    }
}

#[test]
fn extraction_with_empty_blacklist_keeps_all() {
    let bytes = archive_of(&[("add.o", b"a"), ("sub.o", b"s")]);
    let members = extract_members(&bytes, &Vec::new()).unwrap();
    assert_eq!(members.len(), 2);
}

#[test]
fn extraction_reports_parse_errors() {
    let mut bytes = archive_of(&[("add.o", b"x")]);
    bytes[1] = b'x';
    assert_eq!(
        extract_members(&bytes, &default_blacklist()),
        Err(ToolError::ArchiveFormatError)
    );
}

#[test]
fn default_blacklist_names_metadata_members() {
    let blacklist = default_blacklist();
    assert_eq!(blacklist.len(), 2);
    assert_eq!(blacklist[0], b"/".to_vec());
    assert_eq!(blacklist[1], b"//".to_vec());
}

#[test]
fn object_file_names_are_distinct_even_for_equal_members() {
    let bytes = archive_of(&[("same.o", b"a"), ("same.o", b"b"), ("same.o", b"c")]);
    let members = parse_archive(&bytes).unwrap();
    let names = object_file_names(&members);
    assert_eq!(names.len(), 3);
    assert_eq!(names[0], b"0_same.o".to_vec());
    assert_eq!(names[1], b"1_same.o".to_vec());
    assert_eq!(names[2], b"2_same.o".to_vec());
    assert_ne!(names[0], names[1]);
    assert_ne!(names[1], names[2]);
    assert_ne!(names[0], names[2]);
}

#[test]
fn identifier_with_interior_space_is_kept() {
    let bytes = archive_of(&[("a b.o", b"xy")]);
    let members = parse_archive(&bytes).unwrap();
    assert_eq!(members[0].name, b"a b.o".to_vec());
}
