use std::str::FromStr;

use pdfmcr::image_path::{Error, ImagePath};
use pdfmcr::model::{Annotation, Artifact, ArtifactKind};
use pdfmcr::upload::{image_file_name, SetAnnotationsData};

#[test]
fn file_name_of_empty_upload() {
    // the well-known SHA3-512 digest of the empty input
    let name = image_file_name(&[], 0);
    assert_eq!(
        name,
        "a69f73cca23a9ac5c8b567dc185a756e97c982164fe25859e0d1dcc1475c80a6\
         15b2123af1f5f94c11e3e9402c3ac558f500199d95b6d3e301758586281dcd26-0.jpeg"
    );
}

#[test]
fn file_name_carries_digest_and_size() {
    // the well-known SHA3-512 digest of the three bytes "abc"
    let name = image_file_name(b"abc", 3);
    assert_eq!(
        name,
        "b751850b1a57168a5693cd924b6b096e08f621827444f70d884f5d0240d2712e\
         10e116e9192af3c91a7ec57647e3934057340b4cf408d5a56592f8274eec53f0-3.jpeg"
    );
}

#[test]
fn generated_file_names_are_valid_image_paths() {
    let name = image_file_name(b"example", 7);
    let path = ImagePath::try_from_str(&name).unwrap();
    assert_eq!(path.as_str(), name);
}

#[test]
fn set_annotations_data_unpacks() {
    let data = SetAnnotationsData {
        annotations: vec![Annotation { left: 1, bottom: 2, elements: vec![] }],
        artifacts: vec![Artifact {
            kind: ArtifactKind::Layout,
            annotation: Annotation { left: 3, bottom: 4, elements: vec![] },
        }],
    };
    let (annotations, artifacts) = data.into_inner();
    assert_eq!(annotations.len(), 1);
    assert_eq!(annotations[0].left, 1);
    assert_eq!(artifacts.len(), 1);
    assert_eq!(artifacts[0].annotation.bottom, 4);
}

#[test]
fn image_path_accepts_plain_relative_paths() {
    let p = ImagePath::try_from_str("scans/page-1.jpeg").unwrap();
    assert_eq!(p.as_str(), "scans/page-1.jpeg");
    // single dots and dotted names are fine; only the exact `..` is not
    assert!(ImagePath::try_from_str("a/.hidden/b.").is_ok());
    assert!(ImagePath::try_from_str("a/..b/c").is_ok());
    assert!(ImagePath::try_from_str("...").is_ok());
}

#[test]
fn image_path_rejects_bad_strings() {
    assert_eq!(ImagePath::try_from_str(""), Err(Error::Empty));
    assert_eq!(ImagePath::try_from_str("a:b"), Err(Error::ContainsColon));
    assert_eq!(ImagePath::try_from_str("a\\b"), Err(Error::ContainsBackslash));
    assert_eq!(ImagePath::try_from_str("/a"), Err(Error::ContainsEmptyComponent));
    assert_eq!(ImagePath::try_from_str("a/"), Err(Error::ContainsEmptyComponent));
    assert_eq!(ImagePath::try_from_str("a//b"), Err(Error::ContainsEmptyComponent));
    assert_eq!(ImagePath::try_from_str(".."), Err(Error::ContainsDotDotComponent));
    assert_eq!(ImagePath::try_from_str("a/../b"), Err(Error::ContainsDotDotComponent));
    assert_eq!(ImagePath::try_from_str("a/.."), Err(Error::ContainsDotDotComponent));
}

#[test]
fn image_path_from_str_matches_validation() {
    assert!(ImagePath::from_str("a/b").is_ok());
    assert_eq!(ImagePath::from_str(":"), Err(Error::ContainsColon));
}

#[test]
fn relative_os_path_keeps_everything_but_slashes() {
    let p = ImagePath::try_from_str("a/b/c.jpeg").unwrap();
    let rel = p.to_relative_os_path();
    assert_eq!(rel.len(), "a/b/c.jpeg".len());
    assert_eq!(rel.replace(std::path::MAIN_SEPARATOR, "/"), "a/b/c.jpeg");
}

#[test]
fn os_path_joins_below_the_base() {
    let p = ImagePath::try_from_str("x/y.jpeg").unwrap();
    let base = std::path::PathBuf::from("base");
    let joined = p.to_os_path(&base);
    let expected: std::path::PathBuf = ["base", "x", "y.jpeg"].iter().collect();
    assert_eq!(joined, expected);
}
