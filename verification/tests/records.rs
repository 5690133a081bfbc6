use riddle::sip::{
    Guid, CRYPT_INTEGER_BLOB, MSSIP_ADDINFO_BLOB, MSSIP_ADDINFO_FLAT, MSSIP_ADDINFO_NONE,
    MSSIP_FLAGS_USE_CATALOG, MS_ADDINFO_BLOB, MS_ADDINFO_FLAT, SIP_ADD_NEWPROVIDER,
    SIP_CAP_SET_CUR_VER, SIP_CAP_SET_V2, SIP_CAP_SET_V3, SIP_DISPATCH_INFO, SIP_INDIRECT_DATA,
    SIP_SUBJECTINFO, SPC_DIGEST_SIGN_FLAG, SPC_INC_PE_PAGE_HASHES_FLAG,
};

#[test]
fn records_default_to_zero() {
    let blob = MS_ADDINFO_BLOB::default();
    assert_eq!(blob.cbStruct, 0);
    assert_eq!(blob.cbMemObject, 0);
    assert_eq!(blob.pbMemObject, 0);
    let flat = MS_ADDINFO_FLAT::default();
    assert_eq!(flat.pIndirectData, 0);
    let add = SIP_ADD_NEWPROVIDER::default();
    assert_eq!(add.pwszDLLFileName, 0);
    assert_eq!(add.pwszGetCapFuncName, 0);
    let caps2 = SIP_CAP_SET_V2::default();
    assert_eq!(caps2.dwVersion, 0);
    let caps3 = SIP_CAP_SET_V3::default();
    assert_eq!(caps3.Anonymous.dwFlags, 0);
    let dispatch = SIP_DISPATCH_INFO::default();
    assert_eq!(dispatch.hSIP, 0);
    assert_eq!(dispatch.pfVerify, 0);
    let indirect = SIP_INDIRECT_DATA::default();
    assert_eq!(indirect.Digest.cbData, 0);
    let subject = SIP_SUBJECTINFO::default();
    assert_eq!(subject.hFile, 0);
    assert_eq!(subject.dwUnionChoice, MSSIP_ADDINFO_NONE);
    let guid = Guid::default();
    assert_eq!(guid.data1, 0);
}

#[test]
fn records_compare_by_fields() {
    let mut a = MS_ADDINFO_BLOB::default();
    let b = MS_ADDINFO_BLOB::default();
    assert_eq!(a, b);
    a.cbMemObject = 7;
    assert_ne!(a, b);

    let mut x = SIP_CAP_SET_V2::default();
    x.dwVersion = 2;
    let mut y = SIP_CAP_SET_V2::default();
    y.dwVersion = 2;
    assert_eq!(x, y);

    let p = CRYPT_INTEGER_BLOB { cbData: 4, pbData: 4096 };
    let q = p;
    assert_eq!(p, q);
}

#[test]
fn record_constants() {
    assert_eq!(MSSIP_ADDINFO_FLAT, 1);
    assert_eq!(MSSIP_ADDINFO_BLOB, 3);
    assert_eq!(MSSIP_FLAGS_USE_CATALOG, 131072);
    assert_eq!(SIP_CAP_SET_CUR_VER, 3);
    assert_eq!(SPC_DIGEST_SIGN_FLAG, 1024);
    assert_eq!(SPC_INC_PE_PAGE_HASHES_FLAG, 256);
}
