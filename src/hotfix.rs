//! Hotfix records: where a client version finds its resources.

use vstd::prelude::*;
use vstd::utf8::encode_utf8;

verus! {

/// The resource locations for one client version.
#[derive(Clone, Debug)]
pub struct HotfixDoc {
    pub version: String,
    pub ifix_url: String,
    pub ifix_version: String,
    pub mdk_res_url: String,
    pub mdk_res_version: String,
    pub asset_bundle_url: String,
    pub ex_resource_url: String,
}

/// The official release channel that a client version names by its prefix.
#[derive(Clone, Copy, Debug, PartialEq, Eq, Structural)]
pub enum Region {
    CnProd,
    CnBeta,
    OsProd,
    OsBeta,
}

/// The six-byte version prefix of each channel: `CNPROD`, `CNBETA`, `OSPROD`,
/// `OSBETA`.
pub open spec fn region_prefix(r: Region) -> Seq<u8> {
    match r {
        Region::CnProd => seq![0x43u8, 0x4Eu8, 0x50u8, 0x52u8, 0x4Fu8, 0x44u8],
        Region::CnBeta => seq![0x43u8, 0x4Eu8, 0x42u8, 0x45u8, 0x54u8, 0x41u8],
        Region::OsProd => seq![0x4Fu8, 0x53u8, 0x50u8, 0x52u8, 0x4Fu8, 0x44u8],
        Region::OsBeta => seq![0x4Fu8, 0x53u8, 0x42u8, 0x45u8, 0x54u8, 0x41u8],
    }
}

pub open spec fn starts_with(b: Seq<u8>, p: Seq<u8>) -> bool {
    p.len() <= b.len() && b.subrange(0, p.len() as int) == p
}

fn has_prefix(b: &[u8], p: [u8; 6]) -> (r: bool)
    ensures
        r == starts_with(b@, p@),
{
    if b.len() < 6 {
        return false;
    }
    let mut i: usize = 0;
    while i < 6
        invariant
            i <= 6 <= b@.len(),
            b@.subrange(0, i as int) == p@.subrange(0, i as int),
        decreases 6 - i,
    {
        if b[i] != p[i] {
            assert(b@.subrange(0, 6)[i as int] != p@[i as int]);
            return false;
        }
        i = i + 1;
        assert(b@.subrange(0, i as int) =~= p@.subrange(0, i as int));
    }
    assert(p@.subrange(0, 6) =~= p@);
    true
}

fn prefix_bytes(r: Region) -> (p: [u8; 6])
    ensures
        p@ == region_prefix(r),
{
    let p = match r {
        Region::CnProd => [0x43u8, 0x4Eu8, 0x50u8, 0x52u8, 0x4Fu8, 0x44u8],
        Region::CnBeta => [0x43u8, 0x4Eu8, 0x42u8, 0x45u8, 0x54u8, 0x41u8],
        Region::OsProd => [0x4Fu8, 0x53u8, 0x50u8, 0x52u8, 0x4Fu8, 0x44u8],
        Region::OsBeta => [0x4Fu8, 0x53u8, 0x42u8, 0x45u8, 0x54u8, 0x41u8],
    };
    assert(p@ =~= region_prefix(r));
    p
}

impl Region {
    /// The channel of a client version, by its prefix; `None` for any other.
    pub fn of_version(version: &str) -> (r: Option<Region>)
        ensures
            r matches Some(g) ==> starts_with(encode_utf8(version@), region_prefix(g)),
            r is None ==> forall|g: Region| !starts_with(encode_utf8(version@), region_prefix(g)),
    {
        let b = version.as_bytes();
        if has_prefix(b, prefix_bytes(Region::CnProd)) {
            Some(Region::CnProd)
        } else if has_prefix(b, prefix_bytes(Region::CnBeta)) {
            Some(Region::CnBeta)
        } else if has_prefix(b, prefix_bytes(Region::OsProd)) {
            Some(Region::OsProd)
        } else if has_prefix(b, prefix_bytes(Region::OsBeta)) {
            Some(Region::OsBeta)
        } else {
            None
        }
    }

    /// The official gateway host of the channel.
    pub fn host(&self) -> (h: &'static str)
        ensures
            h@ == match self {
                Region::CnProd => "prod-gf-cn-dp01.bhsr.com"@,
                Region::CnBeta => "beta-release01-cn.bhsr.com"@,
                Region::OsProd => "prod-official-asia-dp01.starrails.com"@,
                Region::OsBeta => "beta-release01-asia.starrails.com"@,
            },
    {
        match self {
            Region::CnProd => "prod-gf-cn-dp01.bhsr.com",
            Region::CnBeta => "beta-release01-cn.bhsr.com",
            Region::OsProd => "prod-official-asia-dp01.starrails.com",
            Region::OsBeta => "beta-release01-asia.starrails.com",
        }
    }
}

impl HotfixDoc {
    /// The record kept for a version when the official gateway gave nothing
    /// usable: no locations, and ifix version `0`.
    pub fn fallback(version: String) -> (r: HotfixDoc)
        ensures
            r.version == version,
            r.ifix_version@ == "0"@,
            r.ifix_url@.len() == 0,
            r.mdk_res_url@.len() == 0,
            r.mdk_res_version@.len() == 0,
            r.asset_bundle_url@.len() == 0,
            r.ex_resource_url@.len() == 0,
    {
        HotfixDoc {
            version,
            ifix_url: String::new(),
            ifix_version: "0".to_owned(),
            mdk_res_url: String::new(),
            mdk_res_version: String::new(),
            asset_bundle_url: String::new(),
            ex_resource_url: String::new(),
        }
    }

    /// Whether the record points at any resources: an asset bundle or an
    /// extra resource location.
    pub fn has_resources(&self) -> (b: bool)
        ensures
            b == (self.asset_bundle_url@.len() > 0 || self.ex_resource_url@.len() > 0),
    {
        !(self.asset_bundle_url.as_str().is_empty() && self.ex_resource_url.as_str().is_empty())
    }
}

} // verus!
