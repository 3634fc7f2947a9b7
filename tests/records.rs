use railgun_common::account::validate_registration;
use railgun_common::account::AccountDoc;
use railgun_common::account::AccountMetaDoc;
use railgun_common::account::ShieldVerifyRequest;
use railgun_common::account::STARTING_UID;
use railgun_common::hotfix::HotfixDoc;
use railgun_common::hotfix::Region;
use railgun_common::srtools::SRToolsMetaDoc;

#[test]
fn registration_lengths() {
    assert_eq!(validate_registration("abcd", "pass"), Ok(()));
    assert_eq!(validate_registration("abcdefghijkl", "password"), Ok(()));
    assert_eq!(validate_registration("abc", "pass"), Err("Username length must be between 4-12"));
    assert_eq!(
        validate_registration("abcdefghijklm", "pass"),
        Err("Username length must be between 4-12")
    );
    assert_eq!(validate_registration("abcd", "pas"), Err("Password length must be over 4"));
    assert_eq!(validate_registration("ab", "p"), Err("Username length must be between 4-12"));
    assert_eq!(validate_registration("éééééé", "pass"), Ok(()));
    assert_eq!(validate_registration("ééééééé", "pass"), Err("Username length must be between 4-12"));
}

#[test]
fn new_account_is_not_banned() {
    let a = AccountDoc::new(10001, "user".into(), "hash".into(), "tok".into());
    assert_eq!(a.uid, 10001);
    assert_eq!(a.username, "user");
    assert!(!a.is_banned);
    assert!(a.ban_reason.is_none());
}

#[test]
fn uid_counter() {
    let init = AccountMetaDoc::initial();
    assert_eq!(init.id, "meta");
    assert_eq!(init.next_uid, 10001);
    assert_eq!(AccountMetaDoc::next_uid_from(None), STARTING_UID);
    assert_eq!(AccountMetaDoc::next_uid_from(Some(&init)), 10001);
    let later = AccountMetaDoc { id: "meta".into(), next_uid: 10042 };
    assert_eq!(AccountMetaDoc::next_uid_from(Some(&later)), 10042);
}

#[test]
fn sync_and_export_cooldowns() {
    assert_eq!(SRToolsMetaDoc::next_sync_time(0), 30);
    assert_eq!(SRToolsMetaDoc::next_sync_time(119), 31);
    assert_eq!(SRToolsMetaDoc::next_export_time(600), 25);
    assert_eq!(SRToolsMetaDoc::next_sync_time(u64::MAX), ((u64::MAX / 60 + 30) % (1u64 << 32)) as u32);
    let meta = SRToolsMetaDoc { username: "u".into(), next_sync_allowed: 100, next_export_allowed: 0 };
    assert_eq!(meta.sync_cooldown_left(70), Some(30));
    assert_eq!(meta.sync_cooldown_left(99), Some(1));
    assert_eq!(meta.sync_cooldown_left(100), None);
    assert_eq!(meta.sync_cooldown_left(200), None);
}

#[test]
fn version_regions() {
    assert_eq!(Region::of_version("CNPRODWin3.1.0"), Some(Region::CnProd));
    assert_eq!(Region::of_version("CNBETAAndroid3.2.51"), Some(Region::CnBeta));
    assert_eq!(Region::of_version("OSPRODWin2.0.0"), Some(Region::OsProd));
    assert_eq!(Region::of_version("OSBETAWin3.2.52"), Some(Region::OsBeta));
    assert_eq!(Region::of_version("OSPRO"), None);
    assert_eq!(Region::of_version("osprodWin"), None);
    assert_eq!(Region::of_version(""), None);
    assert_eq!(Region::CnProd.host(), "prod-gf-cn-dp01.bhsr.com");
    assert_eq!(Region::OsBeta.host(), "beta-release01-asia.starrails.com");
}

#[test]
fn hotfix_fallback_has_no_resources() {
    let h = HotfixDoc::fallback("OSPRODWin3.0.0".to_string());
    assert_eq!(h.version, "OSPRODWin3.0.0");
    assert_eq!(h.ifix_version, "0");
    assert!(h.ifix_url.is_empty() && h.mdk_res_url.is_empty() && h.mdk_res_version.is_empty());
    assert!(!h.has_resources());
    let mut h2 = h.clone();
    h2.ex_resource_url = "https://example.invalid/ex".to_string();
    assert!(h2.has_resources());
}

fn verify_request(uid: &str) -> ShieldVerifyRequest {
    ShieldVerifyRequest { uid: uid.to_string(), token: "t+1".to_string() }
}

#[test]
fn uid_parse_follows_unsigned_decimal() {
    assert_eq!(verify_request("10001").parse_uid(), Some(10001));
    assert_eq!(verify_request("+42").parse_uid(), Some(42));
    assert_eq!(verify_request("0004294967295").parse_uid(), Some(u32::MAX));
    assert_eq!(verify_request("4294967296").parse_uid(), None);
    assert_eq!(verify_request("").parse_uid(), None);
    assert_eq!(verify_request("+").parse_uid(), None);
    assert_eq!(verify_request("-1").parse_uid(), None);
    assert_eq!(verify_request("++1").parse_uid(), None);
    assert_eq!(verify_request("12a").parse_uid(), None);
    for s in ["0", "+7", "99999", "4294967295", "x", "1 ", "+-3", "18446744073709551616"] {
        assert_eq!(verify_request(s).parse_uid(), s.parse::<u32>().ok(), "{}", s);
    }
}
