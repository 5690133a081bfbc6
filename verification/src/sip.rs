//! Models of the subject-interface-package record layouts the generator's
//! enum and struct emission is exercised against. Every field is held as a
//! plain value: memory and function addresses as `usize`, wide-string
//! addresses as `usize`, OS handles as `isize`, and the four-bit-group
//! identifier as its packed integer fields. Overlaid alternatives of the
//! original layouts are held as their shared raw word. Each record's
//! `default` is the all-zero value.

#![allow(non_camel_case_types)]
#![allow(non_snake_case)]

use vstd::prelude::*;

verus! {

/// A 128-bit identifier, with the trailing eight bytes packed into one word.
#[derive(Clone, Copy, Debug, PartialEq, Eq, Structural)]
pub struct Guid {
    pub data1: u32,
    pub data2: u16,
    pub data3: u16,
    pub data4: u64,
}

impl Default for Guid {
    fn default() -> (r: Guid)
        ensures
            r.data1 == 0 && r.data2 == 0 && r.data3 == 0 && r.data4 == 0,
    {
        Guid { data1: 0, data2: 0, data3: 0, data4: 0 }
    }
}

/// A counted byte region: its length and the address of its first byte.
#[derive(Clone, Copy, Debug, PartialEq, Eq, Structural)]
pub struct CRYPT_INTEGER_BLOB {
    pub cbData: u32,
    pub pbData: usize,
}

impl Default for CRYPT_INTEGER_BLOB {
    fn default() -> (r: CRYPT_INTEGER_BLOB)
        ensures
            r.cbData == 0 && r.pbData == 0,
    {
        CRYPT_INTEGER_BLOB { cbData: 0, pbData: 0 }
    }
}

/// An algorithm identifier: the address of its object-identifier string and
/// its parameter blob.
#[derive(Clone, Copy, Debug, PartialEq, Eq, Structural)]
pub struct CRYPT_ALGORITHM_IDENTIFIER {
    pub pszObjId: usize,
    pub Parameters: CRYPT_INTEGER_BLOB,
}

impl Default for CRYPT_ALGORITHM_IDENTIFIER {
    fn default() -> (r: CRYPT_ALGORITHM_IDENTIFIER)
        ensures
            r.pszObjId == 0 && r.Parameters.cbData == 0 && r.Parameters.pbData == 0,
    {
        CRYPT_ALGORITHM_IDENTIFIER { pszObjId: 0, Parameters: CRYPT_INTEGER_BLOB { cbData: 0, pbData: 0 } }
    }
}

/// An attribute type and value pair.
#[derive(Clone, Copy, Debug, PartialEq, Eq, Structural)]
pub struct CRYPT_ATTRIBUTE_TYPE_VALUE {
    pub pszObjId: usize,
    pub Value: CRYPT_INTEGER_BLOB,
}

impl Default for CRYPT_ATTRIBUTE_TYPE_VALUE {
    fn default() -> (r: CRYPT_ATTRIBUTE_TYPE_VALUE)
        ensures
            r.pszObjId == 0 && r.Value.cbData == 0 && r.Value.pbData == 0,
    {
        CRYPT_ATTRIBUTE_TYPE_VALUE { pszObjId: 0, Value: CRYPT_INTEGER_BLOB { cbData: 0, pbData: 0 } }
    }
}

/// Additional information held as an in-memory object and signed message.
#[derive(Clone, Copy, Debug, PartialEq, Eq, Structural)]
pub struct MS_ADDINFO_BLOB {
    pub cbStruct: u32,
    pub cbMemObject: u32,
    pub pbMemObject: usize,
    pub cbMemSignedMsg: u32,
    pub pbMemSignedMsg: usize,
}

impl Default for MS_ADDINFO_BLOB {
    fn default() -> (r: MS_ADDINFO_BLOB)
        ensures
            r.cbStruct == 0 && r.cbMemObject == 0 && r.pbMemObject == 0 && r.cbMemSignedMsg == 0
                && r.pbMemSignedMsg == 0,
    {
        MS_ADDINFO_BLOB {
            cbStruct: 0,
            cbMemObject: 0,
            pbMemObject: 0,
            cbMemSignedMsg: 0,
            pbMemSignedMsg: 0,
        }
    }
}

/// Additional information held as a flat indirect-data reference.
#[derive(Clone, Copy, Debug, PartialEq, Eq, Structural)]
pub struct MS_ADDINFO_FLAT {
    pub cbStruct: u32,
    pub pIndirectData: usize,
}

impl Default for MS_ADDINFO_FLAT {
    fn default() -> (r: MS_ADDINFO_FLAT)
        ensures
            r.cbStruct == 0 && r.pIndirectData == 0,
    {
        MS_ADDINFO_FLAT { cbStruct: 0, pIndirectData: 0 }
    }
}

/// The registration record of a new subject-interface provider: its library
/// and the names of its entry points.
#[derive(Clone, Copy, Debug, PartialEq, Eq, Structural)]
pub struct SIP_ADD_NEWPROVIDER {
    pub cbStruct: u32,
    pub pgSubject: usize,
    pub pwszDLLFileName: usize,
    pub pwszMagicNumber: usize,
    pub pwszIsFunctionName: usize,
    pub pwszGetFuncName: usize,
    pub pwszPutFuncName: usize,
    pub pwszCreateFuncName: usize,
    pub pwszVerifyFuncName: usize,
    pub pwszRemoveFuncName: usize,
    pub pwszIsFunctionNameFmt2: usize,
    pub pwszGetCapFuncName: usize,
}

impl Default for SIP_ADD_NEWPROVIDER {
    fn default() -> (r: SIP_ADD_NEWPROVIDER)
        ensures
            r.cbStruct == 0 && r.pgSubject == 0 && r.pwszDLLFileName == 0 && r.pwszMagicNumber == 0
                && r.pwszIsFunctionName == 0 && r.pwszGetFuncName == 0 && r.pwszPutFuncName == 0
                && r.pwszCreateFuncName == 0 && r.pwszVerifyFuncName == 0 && r.pwszRemoveFuncName
                == 0 && r.pwszIsFunctionNameFmt2 == 0 && r.pwszGetCapFuncName == 0,
    {
        SIP_ADD_NEWPROVIDER {
            cbStruct: 0,
            pgSubject: 0,
            pwszDLLFileName: 0,
            pwszMagicNumber: 0,
            pwszIsFunctionName: 0,
            pwszGetFuncName: 0,
            pwszPutFuncName: 0,
            pwszCreateFuncName: 0,
            pwszVerifyFuncName: 0,
            pwszRemoveFuncName: 0,
            pwszIsFunctionNameFmt2: 0,
            pwszGetCapFuncName: 0,
        }
    }
}

/// Capability set, second version.
#[derive(Clone, Copy, Debug, PartialEq, Eq, Structural)]
pub struct SIP_CAP_SET_V2 {
    pub cbSize: u32,
    pub dwVersion: u32,
    pub isMultiSign: i32,
    pub dwReserved: u32,
}

impl Default for SIP_CAP_SET_V2 {
    fn default() -> (r: SIP_CAP_SET_V2)
        ensures
            r.cbSize == 0 && r.dwVersion == 0 && r.isMultiSign == 0 && r.dwReserved == 0,
    {
        SIP_CAP_SET_V2 { cbSize: 0, dwVersion: 0, isMultiSign: 0, dwReserved: 0 }
    }
}

/// The overlaid word of the third capability set: flags or a reserved value.
#[derive(Clone, Copy, Debug, PartialEq, Eq, Structural)]
pub struct SIP_CAP_SET_V3_0 {
    pub dwFlags: u32,
}

impl Default for SIP_CAP_SET_V3_0 {
    fn default() -> (r: SIP_CAP_SET_V3_0)
        ensures
            r.dwFlags == 0,
    {
        SIP_CAP_SET_V3_0 { dwFlags: 0 }
    }
}

/// Capability set, third version.
#[derive(Clone, Copy, Debug, PartialEq, Eq, Structural)]
pub struct SIP_CAP_SET_V3 {
    pub cbSize: u32,
    pub dwVersion: u32,
    pub isMultiSign: i32,
    pub Anonymous: SIP_CAP_SET_V3_0,
}

impl Default for SIP_CAP_SET_V3 {
    fn default() -> (r: SIP_CAP_SET_V3)
        ensures
            r.cbSize == 0 && r.dwVersion == 0 && r.isMultiSign == 0 && r.Anonymous.dwFlags == 0,
    {
        SIP_CAP_SET_V3 { cbSize: 0, dwVersion: 0, isMultiSign: 0, Anonymous: SIP_CAP_SET_V3_0 { dwFlags: 0 } }
    }
}

/// A loaded provider's dispatch table: the entry-point addresses of its
/// get, put, create, verify and remove functions.
#[derive(Clone, Copy, Debug, PartialEq, Eq, Structural)]
pub struct SIP_DISPATCH_INFO {
    pub cbSize: u32,
    pub hSIP: isize,
    pub pfGet: usize,
    pub pfPut: usize,
    pub pfCreate: usize,
    pub pfVerify: usize,
    pub pfRemove: usize,
}

impl Default for SIP_DISPATCH_INFO {
    fn default() -> (r: SIP_DISPATCH_INFO)
        ensures
            r.cbSize == 0 && r.hSIP == 0 && r.pfGet == 0 && r.pfPut == 0 && r.pfCreate == 0
                && r.pfVerify == 0 && r.pfRemove == 0,
    {
        SIP_DISPATCH_INFO {
            cbSize: 0,
            hSIP: 0,
            pfGet: 0,
            pfPut: 0,
            pfCreate: 0,
            pfVerify: 0,
            pfRemove: 0,
        }
    }
}

/// The digest and its algorithm over one attribute value.
#[derive(Clone, Copy, Debug, PartialEq, Eq, Structural)]
pub struct SIP_INDIRECT_DATA {
    pub Data: CRYPT_ATTRIBUTE_TYPE_VALUE,
    pub DigestAlgorithm: CRYPT_ALGORITHM_IDENTIFIER,
    pub Digest: CRYPT_INTEGER_BLOB,
}

impl Default for SIP_INDIRECT_DATA {
    fn default() -> (r: SIP_INDIRECT_DATA)
        ensures
            r.Data.pszObjId == 0 && r.DigestAlgorithm.pszObjId == 0 && r.Digest.cbData == 0
                && r.Digest.pbData == 0,
    {
        SIP_INDIRECT_DATA {
            Data: CRYPT_ATTRIBUTE_TYPE_VALUE { pszObjId: 0, Value: CRYPT_INTEGER_BLOB { cbData: 0, pbData: 0 } },
            DigestAlgorithm: CRYPT_ALGORITHM_IDENTIFIER { pszObjId: 0, Parameters: CRYPT_INTEGER_BLOB { cbData: 0, pbData: 0 } },
            Digest: CRYPT_INTEGER_BLOB { cbData: 0, pbData: 0 },
        }
    }
}

/// The overlaid additional-information reference of a subject record: the
/// address of whichever form `dwUnionChoice` selects.
#[derive(Clone, Copy, Debug, PartialEq, Eq, Structural)]
pub struct SIP_SUBJECTINFO_0 {
    pub addr: usize,
}

impl Default for SIP_SUBJECTINFO_0 {
    fn default() -> (r: SIP_SUBJECTINFO_0)
        ensures
            r.addr == 0,
    {
        SIP_SUBJECTINFO_0 { addr: 0 }
    }
}

/// A subject record: the file or object a provider operates on, with its
/// digest algorithm, settings and additional information.
#[derive(Clone, Copy, Debug, PartialEq, Eq, Structural)]
pub struct SIP_SUBJECTINFO {
    pub cbSize: u32,
    pub pgSubjectType: usize,
    pub hFile: isize,
    pub pwsFileName: usize,
    pub pwsDisplayName: usize,
    pub dwReserved1: u32,
    pub dwIntVersion: u32,
    pub hProv: usize,
    pub DigestAlgorithm: CRYPT_ALGORITHM_IDENTIFIER,
    pub dwFlags: u32,
    pub dwEncodingType: u32,
    pub dwReserved2: u32,
    pub fdwCAPISettings: u32,
    pub fdwSecuritySettings: u32,
    pub dwIndex: u32,
    pub dwUnionChoice: u32,
    pub Anonymous: SIP_SUBJECTINFO_0,
    pub pClientData: usize,
}

impl Default for SIP_SUBJECTINFO {
    fn default() -> (r: SIP_SUBJECTINFO)
        ensures
            r.cbSize == 0 && r.pgSubjectType == 0 && r.hFile == 0 && r.pwsFileName == 0
                && r.pwsDisplayName == 0 && r.dwUnionChoice == 0 && r.Anonymous.addr == 0
                && r.pClientData == 0,
    {
        SIP_SUBJECTINFO {
            cbSize: 0,
            pgSubjectType: 0,
            hFile: 0,
            pwsFileName: 0,
            pwsDisplayName: 0,
            dwReserved1: 0,
            dwIntVersion: 0,
            hProv: 0,
            DigestAlgorithm: CRYPT_ALGORITHM_IDENTIFIER { pszObjId: 0, Parameters: CRYPT_INTEGER_BLOB { cbData: 0, pbData: 0 } },
            dwFlags: 0,
            dwEncodingType: 0,
            dwReserved2: 0,
            fdwCAPISettings: 0,
            fdwSecuritySettings: 0,
            dwIndex: 0,
            dwUnionChoice: 0,
            Anonymous: SIP_SUBJECTINFO_0 { addr: 0 },
            pClientData: 0,
        }
    }
}

/// Additional-information choices.
pub const MSSIP_ADDINFO_NONE: u32 = 0;

pub const MSSIP_ADDINFO_FLAT: u32 = 1;

pub const MSSIP_ADDINFO_CATMEMBER: u32 = 2;

pub const MSSIP_ADDINFO_BLOB: u32 = 3;

pub const MSSIP_ADDINFO_NONMSSIP: u32 = 500;

/// Provider behaviour flags.
pub const MSSIP_FLAGS_PROHIBIT_RESIZE_ON_CREATE: u32 = 65536;

pub const MSSIP_FLAGS_USE_CATALOG: u32 = 131072;

pub const MSSIP_FLAGS_MULTI_HASH: u32 = 262144;

/// Capability-set versions and flags.
pub const SIP_CAP_FLAG_SEALING: u32 = 1;

pub const SIP_CAP_SET_VERSION_2: u32 = 2;

pub const SIP_CAP_SET_VERSION_3: u32 = 3;

pub const SIP_CAP_SET_CUR_VER: u32 = 3;

pub const SIP_MAX_MAGIC_NUMBER: u32 = 4;

/// Digest-generation flags.
pub const SPC_EXC_PE_PAGE_HASHES_FLAG: u32 = 16;

pub const SPC_INC_PE_IMPORT_ADDR_TABLE_FLAG: u32 = 32;

pub const SPC_INC_PE_DEBUG_INFO_FLAG: u32 = 64;

pub const SPC_INC_PE_RESOURCES_FLAG: u32 = 128;

pub const SPC_INC_PE_PAGE_HASHES_FLAG: u32 = 256;

pub const SPC_DIGEST_GENERATE_FLAG: u32 = 512;

pub const SPC_DIGEST_SIGN_FLAG: u32 = 1024;

pub const SPC_RELAXED_PE_MARKER_CHECK: u32 = 2048;

pub const SPC_DIGEST_SIGN_EX_FLAG: u32 = 16384;

pub const SPC_MARKER_CHECK_SKIP_SIP_INDIRECT_DATA_FLAG: u32 = 1;

pub const SPC_MARKER_CHECK_CURRENTLY_SUPPORTED_FLAGS: u32 = 1;

} // verus!
