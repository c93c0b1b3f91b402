use k8s_consul_mutator_rs::checksum::{
    get_checksummer, Checksummer, Md5Checksummer, SelectedChecksummer, Sha256Checksummer,
};

#[test]
fn md5_checksum_of_empty_input() {
    let c = Md5Checksummer {};
    assert_eq!(
        c.checksum(Vec::new()),
        "md5-d41d8cd98f00b204e9800998ecf8427e"
    );
}

#[test]
fn md5_checksum_of_hello() {
    let c = Md5Checksummer {};
    assert_eq!(
        c.checksum(b"hello".to_vec()),
        "md5-5d41402abc4b2a76b9719d911017c592"
    );
}

#[test]
fn sha256_checksum_of_empty_input() {
    let c = Sha256Checksummer {};
    assert_eq!(
        c.checksum(Vec::new()),
        "sha256-e3b0c44298fc1c149afbf4c8996fb92427ae41e4649b934ca495991b7852b855"
    );
}

#[test]
fn sha256_checksum_of_hello() {
    let c = Sha256Checksummer {};
    assert_eq!(
        c.checksum(b"hello".to_vec()),
        "sha256-2cf24dba5fb0a30e26e83b2ac5b9e29e1b161e5c1fa7425e73043362938b9824"
    );
}

#[test]
fn checksummer_is_picked_by_name() {
    let md5 = get_checksummer("md5");
    assert!(matches!(md5, SelectedChecksummer::Md5(_)));
    assert_eq!(
        md5.checksum(b"hello".to_vec()),
        "md5-5d41402abc4b2a76b9719d911017c592"
    );
    let sha = get_checksummer("sha256");
    assert!(matches!(sha, SelectedChecksummer::Sha256(_)));
    assert_eq!(
        sha.checksum(Vec::new()),
        "sha256-e3b0c44298fc1c149afbf4c8996fb92427ae41e4649b934ca495991b7852b855"
    );
}
