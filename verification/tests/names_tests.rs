use dropshot_api_manager::names::{
    ApiIdent, ApiSpecFileName, LockstepApiSpecFileName, SemVersion, VersionedApiSpecFileName,
    VersionedApiSpecKind,
};

fn v(s: &str) -> SemVersion {
    SemVersion::parse(s).unwrap()
}

#[test]
fn semver_parse_and_text() {
    let x = v("1.2.3-rc.1+build.5");
    assert_eq!((x.major, x.minor, x.patch), (1, 2, 3));
    assert_eq!(x.pre, "rc.1");
    assert_eq!(x.build, "build.5");
    assert_eq!(x.to_text(), "1.2.3-rc.1+build.5");
    assert_eq!(v("10.0.0").to_text(), "10.0.0");
    assert!(SemVersion::parse("1.2").is_none());
    assert!(SemVersion::parse("01.2.3").is_none());
}

#[test]
fn file_names() {
    let ident = ApiIdent::from_str("api");
    let json = VersionedApiSpecFileName::new(ident.clone(), v("1.0.0"), "abcdef".to_string());
    assert_eq!(json.basename(), "api-1.0.0-abcdef.json");
    assert_eq!(json.path_text(), "api/api-1.0.0-abcdef.json");
    assert_eq!(json.git_ref_basename(), "api-1.0.0-abcdef.json.gitref");
    let r = json.to_git_ref();
    assert_eq!(r.kind(), VersionedApiSpecKind::GitRef);
    assert!(r.is_git_ref());
    assert_eq!(r.basename(), "api-1.0.0-abcdef.json.gitref");
    assert_eq!(r.json_basename(), "api-1.0.0-abcdef.json");
    assert_eq!(r.to_json(), json);

    let lockstep = ApiSpecFileName::Lockstep(LockstepApiSpecFileName::new(ident.clone()));
    assert_eq!(lockstep.path_text(), "api.json");
    assert!(lockstep.hash().is_none());
    assert!(lockstep.as_versioned().is_none());

    let versioned = ApiSpecFileName::Versioned(json.clone());
    assert_eq!(versioned.hash(), Some("abcdef"));
    assert_eq!(versioned.to_git_ref_filename().path_text(), "api/api-1.0.0-abcdef.json.gitref");
}

#[test]
fn latest_symlink_names() {
    let ident = ApiIdent::from_str("api");
    assert_eq!(ident.versioned_api_latest_symlink(), "api-latest.json");
    assert!(ident.versioned_api_is_latest_symlink("api-latest.json"));
    assert!(!ident.versioned_api_is_latest_symlink("api-1.0.0-abc.json"));
}
