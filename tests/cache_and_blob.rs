use zone_package::timer::{BuildTimer, TimerError};
use zone_package::blob::{parse_u64, BlobError, Source};
use zone_package::cache::{file_name, ArtifactManifest, Cache, CacheError, Lookup};
use zone_package::digest::Digest;
use zone_package::input::{BuildInput, BuildInputs, MappedPath};
use zone_package::package::PrebuiltBlob;

fn inputs() -> BuildInputs {
    BuildInputs(vec![BuildInput::add_file(
        MappedPath {
            from: "/in/binary.exe".to_string(),
            to: "/very/important/file".to_string(),
        },
        21,
    )])
}

fn reason(e: CacheError) -> String {
    match e {
        CacheError::CacheMiss { reason } => reason,
        CacheError::Other { message } => panic!("Unexpected error: {}", message),
    }
}

#[test]
fn test_converts() {
    let content_length = "1966080";
    let last_modified = "Fri, 30 Apr 2021 22:37:39 GMT";

    let content_length: u64 = parse_u64(content_length).unwrap();
    assert_eq!(1966080, content_length);

    let _last_modified = Source::downloaded_mtime(Some(last_modified)).unwrap();
}

#[test]
fn cache_paths() {
    let cache = Cache::new("/out");
    assert_eq!(cache.cache_directory(), "/out/manifest-cache");
    assert_eq!(
        cache.manifest_path("/out/output.tar.gz").unwrap(),
        "/out/manifest-cache/output.tar.gz.json"
    );
    assert!(cache.manifest_path("/").is_err());
    assert_eq!(file_name("/a/b.tar"), Some("b.tar".to_string()));
    assert_eq!(file_name("/a/.."), None);
}

#[test]
fn cache_hits_when_nothing_changed() {
    let inputs = inputs();
    let digests = vec![Some(Digest::Blake3("abcd".to_string()))];
    let stored = ArtifactManifest::new(&inputs, digests.clone(), "/out/output.tar.gz");
    let cache = Cache::new("/out");
    cache.lookup_start("/out/output.tar.gz").unwrap();
    Cache::check_manifest(&inputs, "/out/output.tar.gz", &stored, true).unwrap();
    let entry = Cache::compare_entry(&stored.inputs[0], &inputs.0[0], digests[0].clone()).unwrap();
    let calculated = ArtifactManifest {
        inputs: vec![entry],
        output_path: "/out/output.tar.gz".to_string(),
    };
    Cache::finish_lookup(&calculated, &stored).unwrap();
    assert_eq!(cache.update_path("/out/output.tar.gz").unwrap().unwrap(), "/out/manifest-cache/output.tar.gz.json");
}

#[test]
fn cache_misses_on_changed_digest() {
    let inputs = inputs();
    let stored = ArtifactManifest::new(
        &inputs,
        vec![Some(Digest::Blake3("abcd".to_string()))],
        "/out/output.tar.gz",
    );
    let err = Cache::compare_entry(
        &stored.inputs[0],
        &inputs.0[0],
        Some(Digest::Blake3("ef01".to_string())),
    )
    .unwrap_err();
    let r = reason(err);
    assert!(r.starts_with("Differing build inputs"), "{}", r);
    assert!(r.contains("blake3:ef01"), "{}", r);
    assert!(r.contains("blake3:abcd"), "{}", r);
}

#[test]
fn cache_misses_without_output() {
    let inputs = inputs();
    let stored = ArtifactManifest::new(&inputs, vec![Some(Digest::Sha2("00".to_string()))], "/out/o.tar");
    let err = Cache::check_manifest(&inputs, "/out/o.tar", &stored, false).unwrap_err();
    assert_eq!(reason(err), "Output does not exist");
    let err = Cache::check_manifest(&inputs, "/out/p.tar", &stored, true).unwrap_err();
    assert_eq!(reason(err), "Output path changed from /out/o.tar -> /out/p.tar");
    let other = BuildInputs(vec![]);
    let err = Cache::check_manifest(&other, "/out/o.tar", &stored, true).unwrap_err();
    assert_eq!(reason(err), "Set of inputs has changed");
}

#[test]
fn disabled_cache_always_misses() {
    let mut cache = Cache::new("/out");
    cache.set_disable(true);
    assert_eq!(cache.update_path("/out/o.tar").unwrap(), None);
    let err = cache.lookup_start("/out/o.tar").unwrap_err();
    assert_eq!(reason(err.clone()), "Cache disabled");
    assert_eq!(err.message(), "Cache Miss: Cache disabled");
}

#[test]
fn manifests_that_differ_miss() {
    let inputs = inputs();
    let a = ArtifactManifest::new(&inputs, vec![Some(Digest::Sha2("00".to_string()))], "/o.tar");
    let b = ArtifactManifest::new(&inputs, vec![Some(Digest::Blake3("00".to_string()))], "/o.tar");
    assert_eq!(reason(Cache::finish_lookup(&a, &b).unwrap_err()), "Manifests appear different");
}

#[test]
fn s3_blob_is_reused_when_metadata_agrees() {
    let url = Source::S3("OVMF_CODE.fd".to_string()).get_url();
    assert_eq!(url, "https://oxide-omicron-build.s3.amazonaws.com/OVMF_CODE.fd");
    let date = "Fri, 30 Apr 2021 22:37:39 GMT";
    let when = Source::downloaded_mtime(Some(date)).unwrap().unwrap();
    assert_eq!(when, (1619822259, 0));
    let same = Source::s3_download_required(&url, Some("1966080"), Some(date), 1966080, when).unwrap();
    assert!(!same);
    let longer = Source::s3_download_required(&url, Some("1966081"), Some(date), 1966080, when).unwrap();
    assert!(longer);
    let newer = Source::s3_download_required(
        &url,
        Some("1966080"),
        Some("Sat, 01 May 2021 22:37:39 GMT"),
        1966080,
        when,
    )
    .unwrap();
    assert!(newer);
    assert!(matches!(
        Source::s3_download_required(&url, None, Some(date), 1, when),
        Err(BlobError::MissingContentLength { .. })
    ));
    assert_eq!(
        Source::s3_download_required(&url, Some("x"), Some(date), 1, when),
        Err(BlobError::BadContentLength)
    );
    assert_eq!(
        Source::s3_download_required(&url, Some("1"), Some("yesterday"), 1, when),
        Err(BlobError::BadDate)
    );
}

#[test]
fn buildomat_blob_is_reused_when_digest_matches() {
    let spec = PrebuiltBlob {
        repo: "propolis".to_string(),
        series: "image".to_string(),
        commit: "abc".to_string(),
        artifact: "propolis.tar.gz".to_string(),
        sha256: "00FF10".to_string(),
    };
    assert_eq!(
        Source::Buildomat(spec.clone()).get_url(),
        "https://buildomat.eng.oxide.computer/public/file/oxidecomputer/propolis/image/abc/propolis.tar.gz"
    );
    assert_eq!(Source::buildomat_download_required(&vec![0x00, 0xff, 0x10], &spec.sha256), Ok(false));
    assert_eq!(Source::buildomat_download_required(&vec![0x00, 0xff, 0x11], &spec.sha256), Ok(true));
    assert_eq!(Source::buildomat_download_required(&vec![0x00], "0"), Err(BlobError::BadHex));
    assert_eq!(Source::buildomat_download_required(&vec![0x00], "zz"), Err(BlobError::BadHex));
}

#[test]
fn decimal_numbers() {
    assert_eq!(parse_u64("+12"), Some(12));
    assert_eq!(parse_u64("18446744073709551615"), Some(u64::MAX));
    assert_eq!(parse_u64("18446744073709551616"), None);
    assert_eq!(parse_u64(""), None);
    assert_eq!(parse_u64("+"), None);
    assert_eq!(parse_u64("-1"), None);
}

#[test]
fn build_timer_records_phases() {
    let mut timer = BuildTimer::new();
    assert_eq!(timer.finish(5), Err(TimerError::NoPhaseInProgress));
    timer.start("walk".to_string(), 10);
    timer.start("lookup".to_string(), 25);
    timer.finish_with_label("Cache hit".to_string(), 40).unwrap();
    let phases = timer.completed();
    assert_eq!(phases.len(), 2);
    assert_eq!(phases[0].name(), "walk");
    assert_eq!(phases[0].duration(), 15);
    assert!(phases[0].end_label().is_none());
    assert_eq!(phases[1].name(), "lookup");
    assert_eq!(phases[1].duration(), 15);
    assert_eq!(phases[1].end_label(), Some(&"Cache hit".to_string()));
}

#[test]
fn blob_download_paths() {
    let s3 = Source::S3("OVMF_CODE.fd".to_string());
    assert_eq!(s3.download_path("/dl/svc/OVMF_CODE.fd"), Some("/dl/svc/OVMF_CODE.fd".to_string()));
    assert_eq!(zone_package::paths::parent("/dl/svc/x"), Some("/dl/svc".to_string()));
    assert_eq!(zone_package::paths::parent("x"), Some(String::new()));
    assert_eq!(zone_package::paths::parent("/"), None);
    assert_eq!(s3.download_path("/"), None);
}

#[test]
fn lookup_hits_after_comparing_every_input() {
    let inputs = BuildInputs(vec![
        BuildInput::add_file(MappedPath { from: "/a".to_string(), to: "/x/a".to_string() }, 1),
        BuildInput::add_file(MappedPath { from: "/b".to_string(), to: "/x/b".to_string() }, 2),
    ]);
    let digests = vec![
        Some(Digest::Blake3("aa".to_string())),
        Some(Digest::Blake3("bb".to_string())),
    ];
    let stored = ArtifactManifest::new(&inputs, digests.clone(), "/out/o.tar.gz");
    let mut lookup = Lookup::start(&inputs, "/out/o.tar.gz", stored.clone(), true).unwrap();
    let mut hashed = 0;
    while let Some(i) = lookup.next_input() {
        hashed += 1;
        lookup.record(&inputs.0[i], digests[i].clone()).unwrap();
    }
    assert_eq!(hashed, 2);
    assert_eq!(lookup.finish(), stored);
}

#[test]
fn lookup_stops_at_first_difference() {
    let inputs = BuildInputs(vec![
        BuildInput::add_file(MappedPath { from: "/a".to_string(), to: "/x/a".to_string() }, 1),
        BuildInput::add_file(MappedPath { from: "/b".to_string(), to: "/x/b".to_string() }, 2),
    ]);
    let stored = ArtifactManifest::new(
        &inputs,
        vec![Some(Digest::Blake3("aa".to_string())), Some(Digest::Blake3("bb".to_string()))],
        "/out/o.tar.gz",
    );
    let mut lookup = Lookup::start(&inputs, "/out/o.tar.gz", stored, true).unwrap();
    let i = lookup.next_input().unwrap();
    assert_eq!(i, 0);
    let err = lookup.record(&inputs.0[0], Some(Digest::Blake3("changed".to_string()))).unwrap_err();
    assert!(reason(err).starts_with("Differing build inputs"));
    // Nothing was recorded, so the same input would be next again.
    assert_eq!(lookup.next_input(), Some(0));
}

#[test]
fn missing_last_modified_is_an_error() {
    let url = "https://oxide-omicron-build.s3.amazonaws.com/x";
    assert!(matches!(
        Source::s3_download_required(url, Some("1"), None, 1, (0, 0)),
        Err(BlobError::MissingLastModified { .. })
    ));
}
