use abbs_update_checksum_core::update_spec_inner;
use abbs_update_checksum_core::RefreshError;

#[test]
fn test_update_spec() {
    let map1 = vec![("CHKSUMS".to_string(), vec!["sha256::xyz".to_string()])];

    let mut spec = r#"VER=5.115.0
SRCS="tbl::https://download.kde.org/stable/frameworks/${VER%.*}/kiconthemes-$VER.tar.xz"
CHKSUMS="sha256::abc \
         SKIP"
CHKUPDATE="anitya::id=8762""#
        .to_string();

    update_spec_inner(map1, &mut spec).unwrap();

    assert_eq!(
        spec,
        r#"VER=5.115.0
SRCS="tbl::https://download.kde.org/stable/frameworks/${VER%.*}/kiconthemes-$VER.tar.xz"
CHKSUMS="sha256::xyz"
CHKUPDATE="anitya::id=8762""#
            .to_string()
    );

    let map1 = vec![("CHKSUMS".to_string(), vec!["sha256::xyz".to_string()])];

    let mut spec = r#"VER=5.115.0
SRCS="tbl::https://download.kde.org/stable/frameworks/${VER%.*}/kiconthemes-$VER.tar.xz"
CHKSUMS="sha256::abc"
CHKUPDATE="anitya::id=8762""#
        .to_string();

    update_spec_inner(map1, &mut spec).unwrap();

    assert_eq!(
        spec,
        r#"VER=5.115.0
SRCS="tbl::https://download.kde.org/stable/frameworks/${VER%.*}/kiconthemes-$VER.tar.xz"
CHKSUMS="sha256::xyz"
CHKUPDATE="anitya::id=8762""#
            .to_string()
    );

    let map2 = vec![(
        "CHKSUMS".to_string(),
        vec![
            "SKIP".to_string(),
            "sha256::95ecac13c3f8c69e3e80fa73864102f13730b5fd87e7438c23b96766ef458e41".to_string(),
            "sha256::b04eec580794279f6178644f6d7af090bd9bcbd3fb3b6873f3c714e21fa514fb".to_string(),
        ],
    )];

    let mut spec = r#"VER=3.113
SRCS="git::commit=tags/v$VER::https://github.com/lxgw/kose-font \
      file::rename=XiaolaiMonoSC-Regular.ttf::https://github.com/lxgw/kose-font/releases/download/v$VER/XiaolaiMonoSC-Regular.ttf \
      file::rename=XiaolaiSC-Regular.ttf::https://github.com/lxgw/kose-font/releases/download/v$VER/XiaolaiSC-Regular.ttf"
CHKSUMS="SKIP \
         sha256::95ecac13c3f8csha256::b04eec580794279f6178644f6d7af090bd9bcbd3fb3b6873f3c714e21fa514fb73864102f13730b5fd87e7438c23b96766ef458e41 \
         sha256::x"
CHKUPDATE="anitya::id=374941""#.to_string();

    update_spec_inner(map2, &mut spec).unwrap();

    assert_eq!(
        spec,
r#"VER=3.113
SRCS="git::commit=tags/v$VER::https://github.com/lxgw/kose-font \
      file::rename=XiaolaiMonoSC-Regular.ttf::https://github.com/lxgw/kose-font/releases/download/v$VER/XiaolaiMonoSC-Regular.ttf \
      file::rename=XiaolaiSC-Regular.ttf::https://github.com/lxgw/kose-font/releases/download/v$VER/XiaolaiSC-Regular.ttf"
CHKSUMS="SKIP \
         sha256::95ecac13c3f8c69e3e80fa73864102f13730b5fd87e7438c23b96766ef458e41 \
         sha256::b04eec580794279f6178644f6d7af090bd9bcbd3fb3b6873f3c714e21fa514fb"
CHKUPDATE="anitya::id=374941""#.to_string()
    );
}

#[test]
fn patch_collapses_two_tokens_to_one() {
    // A two-token continued value collapses to a single-token value; all
    // other text stays byte-identical.
    let mut text = "A=1\nCHKSUMS=\"sha256::abc \\\n         SKIP\"\nB=2".to_string();
    update_spec_inner(
        vec![("CHKSUMS".to_string(), vec!["sha256::xyz".to_string()])],
        &mut text,
    )
    .unwrap();
    assert_eq!(text, "A=1\nCHKSUMS=\"sha256::xyz\"\nB=2");
}

#[test]
fn patch_expands_one_token_to_three() {
    // A single-token value expands to a three-line continued block; the
    // adjacent overlapping hex substrings stay uncorrupted.
    let aa = "sha256::aa95ecac13c3f8c69e3e80fa73864102f13730b5fd87e7438c23b96766ef458e41";
    let bb = "sha256::bb04eec580794279f6178644f6d7af090bd9bcbd3fb3b6873f3c714e21fa514fb";
    let mut text = "CHKSUMS=\"sha256::x\"\nX=9".to_string();
    update_spec_inner(
        vec![(
            "CHKSUMS".to_string(),
            vec!["SKIP".to_string(), aa.to_string(), bb.to_string()],
        )],
        &mut text,
    )
    .unwrap();
    let expected = format!(
        "CHKSUMS=\"SKIP \\\n         {} \\\n         {}\"\nX=9",
        aa, bb
    );
    assert_eq!(text, expected);
}

#[test]
fn patch_aligns_under_longer_field_names() {
    // The continuation indent aligns under the opening quote of the longer
    // architecture-suffixed field name.
    let mut text = "CHKSUMS__arm64=\"sha256::a\"".to_string();
    update_spec_inner(
        vec![(
            "CHKSUMS__arm64".to_string(),
            vec!["SKIP".to_string(), "SKIP".to_string()],
        )],
        &mut text,
    )
    .unwrap();
    // padding = len("CHKSUMS__arm64=\"") = 16 spaces
    assert_eq!(text, "CHKSUMS__arm64=\"SKIP \\\n                SKIP\"");
}

#[test]
fn patch_missing_field_is_an_error() {
    let original = "A=1\nB=2".to_string();
    let mut text = original.clone();
    let r = update_spec_inner(
        vec![("CHKSUMS".to_string(), vec!["SKIP".to_string()])],
        &mut text,
    );
    assert_eq!(r.unwrap_err(), RefreshError::Patch);
    assert_eq!(text, original);
}

#[test]
fn patch_unterminated_value_is_an_error() {
    let original = "CHKSUMS=\"sha256::abc".to_string();
    let mut text = original.clone();
    let r = update_spec_inner(
        vec![("CHKSUMS".to_string(), vec!["SKIP".to_string()])],
        &mut text,
    );
    assert_eq!(r.unwrap_err(), RefreshError::Patch);
    assert_eq!(text, original);
}
