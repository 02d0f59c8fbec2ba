use evacuation::output::{bim_basename_rust, bim_create_file_name_rust, PathError, OUTPUT_DETAIL_FILE_RUST, OUTPUT_SUFFIX};

#[test]
fn test_bim_basename_linux_and_macos() {
    let out_file = bim_basename_rust("../res/two_levels.json").expect("Invalid path");
    let expected_path = "../result/two_levels";

    assert_eq!(expected_path, out_file);
}

#[test]
fn basename_of_plain_name() {
    assert_eq!(bim_basename_rust("building.json"), Ok("../result/building".to_string()));
}

#[test]
fn basename_needs_a_file_name() {
    assert_eq!(bim_basename_rust(".."), Err(PathError::NoFileName));
    assert_eq!(bim_basename_rust(""), Err(PathError::NoFileName));
}

#[test]
fn file_name_is_concatenated() {
    assert_eq!(
        bim_create_file_name_rust("../result/two_levels", OUTPUT_DETAIL_FILE_RUST, OUTPUT_SUFFIX),
        "../result/two_levels_detailed_rust.csv"
    );
    assert_eq!(bim_create_file_name_rust("", "", ""), "");
}
