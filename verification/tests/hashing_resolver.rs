use abbs_update_checksum_core::checksum_string;
use abbs_update_checksum_core::get_tree;
use abbs_update_checksum_core::pypi_metadata_url;
use abbs_update_checksum_core::select_sdist;
use abbs_update_checksum_core::PypiArtifact;
use abbs_update_checksum_core::RefreshError;
use abbs_update_checksum_core::Sha256Hasher;

#[test]
fn sha256_of_known_input() {
    let mut h = Sha256Hasher::new();
    h.update(b"abc");
    let token = checksum_string(&h.finalize());
    assert_eq!(
        token,
        "sha256::ba7816bf8f01cfea414140de5dae2223b00361a396177a9cb410ff61f20015ad"
    );
}

#[test]
fn sha256_of_empty_input() {
    let h = Sha256Hasher::new();
    let token = checksum_string(&h.finalize());
    assert_eq!(
        token,
        "sha256::e3b0c44298fc1c149afbf4c8996fb92427ae41e4649b934ca495991b7852b855"
    );
}

#[test]
fn sha256_chunking_does_not_matter() {
    let mut one = Sha256Hasher::new();
    one.update(b"hello ");
    one.update(b"world");
    let mut other = Sha256Hasher::new();
    other.update(b"hello world");
    assert_eq!(
        checksum_string(&one.finalize()),
        checksum_string(&other.finalize())
    );
}

#[test]
fn checksum_string_formats_hex_exactly() {
    let digest = vec![0x00u8, 0x01, 0x9f, 0xab, 0xff];
    assert_eq!(checksum_string(&digest), "sha256::00019fabff");
}

#[test]
fn select_sdist_picks_first_source_distribution() {
    let artifacts = vec![
        PypiArtifact {
            packagetype: "bdist_wheel".to_string(),
            url: "https://files.example/x.whl".to_string(),
        },
        PypiArtifact {
            packagetype: "sdist".to_string(),
            url: "https://files.example/x-1.2.3.tar.gz".to_string(),
        },
        PypiArtifact {
            packagetype: "sdist".to_string(),
            url: "https://files.example/other.tar.gz".to_string(),
        },
    ];
    assert_eq!(
        select_sdist(&artifacts).unwrap(),
        "https://files.example/x-1.2.3.tar.gz"
    );
}

#[test]
fn select_sdist_without_source_distribution_fails() {
    let artifacts = vec![PypiArtifact {
        packagetype: "bdist_wheel".to_string(),
        url: "https://files.example/x.whl".to_string(),
    }];
    assert_eq!(
        select_sdist(&artifacts).unwrap_err(),
        RefreshError::Resolution
    );
}

#[test]
fn pypi_metadata_url_is_canonical() {
    // A registry-lookup entry `pypi::version=1.2.3::mypkg` asks this URL
    // for its release metadata.
    assert_eq!(
        pypi_metadata_url(&"mypkg".to_string(), &"1.2.3".to_string()),
        "https://pypi.org/pypi/mypkg/1.2.3/json"
    );
}

#[test]
fn get_tree_picks_nearest_directory_with_groups() {
    assert_eq!(get_tree(&vec![false, true, true]), Some(1));
    assert_eq!(get_tree(&vec![true]), Some(0));
    assert_eq!(get_tree(&vec![false, false]), None);
    assert_eq!(get_tree(&vec![]), None);
}
