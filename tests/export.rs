use hwlocality::export::{c_path_from, make_hwloc_path, PathError, XMLFileExportError};

#[test]
fn plain_path_becomes_c_string() {
    assert_eq!(make_hwloc_path(b"/tmp/topo.xml"), Ok(b"/tmp/topo.xml\0".to_vec()));
}

#[test]
fn nul_in_path_is_refused() {
    assert_eq!(make_hwloc_path(b"/tmp/a\0b"), Err(PathError::ContainsNul));
}

#[test]
fn non_unicode_path_is_refused() {
    assert_eq!(make_hwloc_path(&[0x2f, 0xff, 0xfe]), Err(PathError::NotUnicode));
    assert_eq!(make_hwloc_path(&[0xff, 0x00]), Err(PathError::NotUnicode));
}

#[test]
fn checked_path_conversion() {
    assert_eq!(c_path_from(b"ab", true), Ok(b"ab\0".to_vec()));
    assert_eq!(c_path_from(b"ab", false), Err(PathError::NotUnicode));
    assert_eq!(c_path_from(b"a\0", true), Err(PathError::ContainsNul));
}

#[test]
fn path_error_converts_to_export_error() {
    assert_eq!(
        XMLFileExportError::from(PathError::NotUnicode),
        XMLFileExportError::PathError(PathError::NotUnicode)
    );
}
