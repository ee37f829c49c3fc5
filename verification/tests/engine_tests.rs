use ripunzip::engine::{plan_archive, plan_member, total_uncompressed};
use ripunzip::paths::{is_directory_name, sanitize_member_name};
use ripunzip::{MemberInfo, MemberPlan, UnzipError};

fn member(name: &str, size: u64, is_directory: bool) -> MemberInfo {
    MemberInfo {
        name: name.as_bytes().to_vec(),
        uncompressed_size: size,
        compressed_size: size,
        header_offset: 0,
        is_directory,
    }
}

fn comps(plan: &MemberPlan) -> Vec<String> {
    let components = match plan {
        MemberPlan::MakeDirectory { components } => components,
        MemberPlan::ExtractFile { components } => components,
    };
    components
        .iter()
        .map(|c| String::from_utf8(c.clone()).unwrap())
        .collect()
}

#[test]
fn sanitize_plain_name() {
    let got = sanitize_member_name(b"hello.txt").unwrap();
    assert_eq!(got, vec![b"hello.txt".to_vec()]);
}

#[test]
fn sanitize_nested_name() {
    let got = sanitize_member_name(b"a/b/c.bin").unwrap();
    assert_eq!(got, vec![b"a".to_vec(), b"b".to_vec(), b"c.bin".to_vec()]);
}

#[test]
fn sanitize_rejects_escape() {
    assert_eq!(sanitize_member_name(b"../evil.txt"), Err(UnzipError::PathUnsafe));
    assert_eq!(sanitize_member_name(b"a/../../evil.txt"), Err(UnzipError::PathUnsafe));
}

#[test]
fn sanitize_rejects_forbidden_bytes() {
    assert_eq!(sanitize_member_name(b"a\x00b"), Err(UnzipError::PathUnsafe));
    assert_eq!(sanitize_member_name(b"a\\b"), Err(UnzipError::PathUnsafe));
}

#[test]
fn sanitize_rejects_absolute() {
    assert_eq!(sanitize_member_name(b"/etc/passwd"), Err(UnzipError::PathUnsafe));
}

#[test]
fn sanitize_resolves_inside_root() {
    assert_eq!(sanitize_member_name(b"a/../b").unwrap(), vec![b"b".to_vec()]);
    assert_eq!(
        sanitize_member_name(b"a/./b").unwrap(),
        vec![b"a".to_vec(), b"b".to_vec()]
    );
    assert_eq!(
        sanitize_member_name(b"a//b").unwrap(),
        vec![b"a".to_vec(), b"b".to_vec()]
    );
    assert_eq!(sanitize_member_name(b"").unwrap(), Vec::<Vec<u8>>::new());
}

#[test]
fn directory_names_end_with_separator() {
    assert!(is_directory_name(b"a/b/"));
    assert!(!is_directory_name(b"a/b"));
    assert!(!is_directory_name(b""));
}

#[test]
fn plan_member_classifies_directory() {
    let plan = plan_member(&member("a/b/", 0, false)).unwrap();
    assert!(matches!(plan, MemberPlan::MakeDirectory { .. }));
    assert_eq!(comps(&plan), vec!["a".to_string(), "b".to_string()]);
}

#[test]
fn plan_member_classifies_file() {
    let plan = plan_member(&member("a/b/c.bin", 1024, false)).unwrap();
    assert!(matches!(plan, MemberPlan::ExtractFile { .. }));
    assert_eq!(
        comps(&plan),
        vec!["a".to_string(), "b".to_string(), "c.bin".to_string()]
    );
}

#[test]
fn plan_member_rejects_escape() {
    assert!(matches!(
        plan_member(&member("../evil.txt", 3, false)),
        Err(UnzipError::PathUnsafe)
    ));
}

#[test]
fn plan_member_rejects_file_with_no_name() {
    assert!(matches!(
        plan_member(&member("", 3, false)),
        Err(UnzipError::PathUnsafe)
    ));
    // The same name as a directory is just the output root.
    assert!(plan_member(&member("", 0, true)).is_ok());
}

#[test]
fn single_stored_file_scenario() {
    let m = member("hello.txt", 3, false);
    let plan = plan_member(&m).unwrap();
    assert!(matches!(plan, MemberPlan::ExtractFile { .. }));
    assert_eq!(comps(&plan), vec!["hello.txt".to_string()]);
    assert_eq!(total_uncompressed(&vec![m]), Some(3));
}

#[test]
fn total_of_empty_archive_is_zero() {
    assert_eq!(total_uncompressed(&Vec::new()), Some(0));
}

#[test]
fn total_of_hundred_members() {
    let members: Vec<MemberInfo> = (0..100)
        .map(|i| member(&format!("m{}", i), 65536, false))
        .collect();
    assert_eq!(total_uncompressed(&members), Some(6_553_600));
}

#[test]
fn total_overflow_is_reported() {
    let members = vec![member("a", u64::MAX, false), member("b", 1, false)];
    assert_eq!(total_uncompressed(&members), None);
}

#[test]
fn plan_archive_first_error_wins() {
    let members = vec![
        member("ok.txt", 1, false),
        member("../bad.txt", 1, false),
        member("also/ok.txt", 1, false),
    ];
    assert!(matches!(plan_archive(&members), Err(UnzipError::PathUnsafe)));

    let safe = vec![member("ok.txt", 1, false), member("also/ok.txt", 1, false)];
    let plans = plan_archive(&safe).unwrap();
    assert_eq!(plans.len(), 2);
}
