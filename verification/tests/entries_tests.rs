use dropshot_api_manager::entries::{classify_local_entry, BlessedPathKind, LocalEntryKind, UnrecognizedPath};

#[test]
fn local_entries_by_name() {
    assert_eq!(classify_local_entry("dns-server", "dns-server-latest.json"), LocalEntryKind::LatestLink);
    assert_eq!(
        classify_local_entry("dns-server", "dns-server-2.0.0-fba287a.json.gitstub"),
        LocalEntryKind::GitStub
    );
    assert_eq!(classify_local_entry("dns-server", "dns-server-1.0.0-eb2aeeb.json"), LocalEntryKind::VersionedFile);
    // Another API's latest link is just a file here.
    assert_eq!(classify_local_entry("dns-server", "other-latest.json"), LocalEntryKind::VersionedFile);
}

#[test]
fn blessed_paths_by_structure() {
    assert_eq!(BlessedPathKind::parse("wicketd.json"), Ok(BlessedPathKind::Lockstep));
    assert_eq!(
        BlessedPathKind::parse("dns-server/dns-server-2.0.0-fba287a.json.gitstub"),
        Ok(BlessedPathKind::GitStubFile {
            api_dir: "dns-server".to_string(),
            basename: "dns-server-2.0.0-fba287a.json.gitstub".to_string(),
        })
    );
    assert_eq!(
        BlessedPathKind::parse("dns-server/dns-server-1.0.0-eb2aeeb.json"),
        Ok(BlessedPathKind::VersionedFile {
            api_dir: "dns-server".to_string(),
            basename: "dns-server-1.0.0-eb2aeeb.json".to_string(),
        })
    );
    assert_eq!(BlessedPathKind::parse("a/b/c.json"), Err(UnrecognizedPath));
    assert_eq!(BlessedPathKind::parse(""), Err(UnrecognizedPath));
}

#[test]
fn skipped_blessed_paths() {
    assert!(BlessedPathKind::Lockstep.is_skipped());
    let latest = BlessedPathKind::parse("dns-server/dns-server-latest.json").unwrap();
    assert!(latest.is_skipped());
    let file = BlessedPathKind::parse("dns-server/dns-server-1.0.0-eb2aeeb.json").unwrap();
    assert!(!file.is_skipped());
    let stub = BlessedPathKind::parse("dns-server/dns-server-1.0.0-eb2aeeb.json.gitstub").unwrap();
    assert!(!stub.is_skipped());
}
