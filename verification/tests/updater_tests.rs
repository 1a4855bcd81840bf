use bloksel::updater::{check_size, update_decision, verify_download, UpdateError, VersionManifest};

fn manifest(version: &str, required: bool) -> VersionManifest {
    VersionManifest {
        version: version.to_string(),
        exe_url: "https://example.invalid/game.exe".to_string(),
        exe_size: 3,
        exe_sha256: "ba7816bf8f01cfea414140de5dae2223b00361a396177a9cb410ff61f20015ad".to_string(),
        required,
    }
}

#[test]
fn download_matching_the_digest_passes() {
    let chunks = vec![b"a".to_vec(), b"bc".to_vec()];
    assert_eq!(
        verify_download(&chunks, "ba7816bf8f01cfea414140de5dae2223b00361a396177a9cb410ff61f20015ad"),
        Ok(())
    );
}

#[test]
fn download_with_another_digest_fails() {
    let chunks = vec![b"abd".to_vec()];
    assert_eq!(
        verify_download(&chunks, "ba7816bf8f01cfea414140de5dae2223b00361a396177a9cb410ff61f20015ad"),
        Err(UpdateError::HashMismatch)
    );
    assert_eq!(
        verify_download(&vec![], "e3b0c44298fc1c149afbf4c8996fb92427ae41e4649b934ca495991b7852b855"),
        Ok(())
    );
}

#[test]
fn update_decisions() {
    assert_eq!(update_decision(Some("1.0.0".to_string()), &manifest("1.0.0", true)), Ok(false));
    assert_eq!(update_decision(Some("1.0.0".to_string()), &manifest("1.1.0", false)), Ok(true));
    assert_eq!(
        update_decision(Some("1.0.0".to_string()), &manifest("1.1.0", true)),
        Err(UpdateError::UpdateRequired)
    );
    assert_eq!(update_decision(None, &manifest("0.0.0", true)), Ok(false));
}

#[test]
fn size_checks() {
    assert_eq!(check_size(Some(3), 3), Ok(()));
    assert_eq!(check_size(None, 3), Ok(()));
    assert_eq!(check_size(Some(4), 3), Err(UpdateError::SizeMismatch { expected: 3, actual: 4 }));
}
