use thoenix::refs::{
    build_ref_advertisement, service_header_bytes, service_name, zero_oid_bytes, GitService,
    RefRecord,
};

#[test]
fn test_service_name_bytes() {
    assert_eq!(service_name(&GitService::ReceivePack), b"git-receive-pack".to_vec());
}

#[test]
fn test_service_header_bytes() {
    assert_eq!(
        service_header_bytes(&GitService::ReceivePack),
        b"# service=git-receive-pack\n".to_vec()
    );
}

#[test]
fn test_zero_oid_is_forty_zeros() {
    let oid = zero_oid_bytes();
    assert_eq!(oid.len(), 40);
    assert!(oid.iter().all(|&b| b == b'0'));
}

#[test]
fn test_empty_ref_advertisement() {
    let refs: Vec<RefRecord> = Vec::new();
    let caps = b"report-status";
    let out = build_ref_advertisement(&refs, caps, &GitService::ReceivePack);

    // Service header frame: 27-byte payload, total 31 = 0x1f.
    let mut expected = Vec::new();
    expected.extend_from_slice(b"001f# service=git-receive-pack\n");
    expected.extend_from_slice(b"0000");
    // One data frame: 40 zeros, NUL, capabilities; total 4+40+1+13 = 58 = 0x3a.
    expected.extend_from_slice(b"003a");
    expected.extend_from_slice(&[b'0'; 40]);
    expected.push(0);
    expected.extend_from_slice(caps);
    expected.extend_from_slice(b"0000");

    assert_eq!(out, expected);
}

#[test]
fn test_capabilities_attached_to_first_ref_only() {
    let refs = vec![
        RefRecord { oid: b"aa".to_vec(), name: b"refs/heads/main".to_vec() },
        RefRecord { oid: b"bb".to_vec(), name: b"refs/tags/v1".to_vec() },
    ];
    let caps = b"atomic";
    let out = build_ref_advertisement(&refs, caps, &GitService::ReceivePack);

    let mut expected = Vec::new();
    expected.extend_from_slice(b"001f# service=git-receive-pack\n");
    expected.extend_from_slice(b"0000");
    // First ref: "aa refs/heads/main" (18) + NUL + "atomic" (6) + 4 = 29 = 0x1d.
    expected.extend_from_slice(b"001daa refs/heads/main");
    expected.push(0);
    expected.extend_from_slice(b"atomic");
    // Second ref: "bb refs/tags/v1" (15) + 4 = 19 = 0x13.
    expected.extend_from_slice(b"0013bb refs/tags/v1");
    expected.extend_from_slice(b"0000");

    assert_eq!(out, expected);
}

#[test]
fn test_ref_order_preserved() {
    let refs = vec![
        RefRecord { oid: b"2".to_vec(), name: b"zz".to_vec() },
        RefRecord { oid: b"1".to_vec(), name: b"aa".to_vec() },
    ];
    let out = build_ref_advertisement(&refs, b"", &GitService::ReceivePack);
    let zz = out.windows(4).position(|w| w == b"2 zz").unwrap();
    let aa = out.windows(4).position(|w| w == b"1 aa").unwrap();
    assert!(zz < aa);
}
