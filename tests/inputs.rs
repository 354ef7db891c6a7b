use zone_package::archive::{component_entry, ComponentEntry};
use zone_package::identifier::{PackageName, ServiceName};
use zone_package::input::BuildInput;
use zone_package::inputs::{zone_archive_path, PathWalk, WalkEntry};
use zone_package::package::{
    InterpolatedMappedPath, InterpolatedString, Package, PackageOutput, PackageSource, RustPackage,
};
use zone_package::target::TargetMap;

fn dest(i: &BuildInput) -> String {
    match i {
        BuildInput::AddInMemoryFile { dst_path, .. } => dst_path.clone(),
        BuildInput::AddDirectory(d) => d.0.clone(),
        BuildInput::AddFile { mapped_path, .. } => mapped_path.to.clone(),
        BuildInput::AddBlob { path, .. } => path.to.clone(),
        BuildInput::AddPackage(p) => p.0.clone(),
    }
}

fn mapped(from: &str, to: &str) -> InterpolatedMappedPath {
    InterpolatedMappedPath {
        from: InterpolatedString(from.to_string()),
        to: InterpolatedString(to.to_string()),
    }
}

fn file_entry(rel: &[&str], source: &str, len: u64) -> WalkEntry {
    WalkEntry {
        rel: rel.iter().map(|s| s.to_string()).collect(),
        is_dir: false,
        len,
        source: source.to_string(),
    }
}

fn dir_entry(rel: &[&str], source: &str) -> WalkEntry {
    WalkEntry {
        rel: rel.iter().map(|s| s.to_string()).collect(),
        is_dir: true,
        len: 0,
        source: source.to_string(),
    }
}

fn local(paths: Vec<InterpolatedMappedPath>, rust: Option<RustPackage>, output: PackageOutput) -> Package {
    Package {
        service_name: ServiceName::new_const("my-service"),
        source: PackageSource::Local {
            blobs: None,
            buildomat_blobs: None,
            rust,
            paths,
        },
        output,
        only_for_targets: None,
        setup_hint: None,
    }
}

fn service_a_walks() -> Vec<PathWalk> {
    vec![
        PathWalk {
            from_is_dir: true,
            entries: vec![
                dir_entry(&[], "/src/contents"),
                file_entry(&["contents.txt"], "/src/contents/contents.txt", 7),
            ],
        },
        PathWalk {
            from_is_dir: false,
            entries: vec![file_entry(&[], "/src/single-file.txt", 3)],
        },
    ]
}

fn service_a_paths() -> Vec<InterpolatedMappedPath> {
    vec![
        mapped("tests/service-a/contents", "/opt/oxide/my-service"),
        mapped("tests/service-a/single-file.txt", "/opt/oxide/my-service/single-file.txt"),
    ]
}

#[test]
fn zone_package_of_loose_files_lists_entries_in_order() {
    let pkg = local(service_a_paths(), None, PackageOutput::Zone { intermediate_only: false });
    let name = PackageName::new_const("my-service");
    let inputs = pkg
        .get_all_inputs(&name, &TargetMap::new(), "/out", true, None, &service_a_walks(), &vec![])
        .unwrap();
    let names: Vec<String> = inputs.0.iter().map(dest).collect();
    assert_eq!(
        names,
        vec![
            "oxide.json",
            "root/",
            "root/opt",
            "root/opt/oxide",
            "root/opt/oxide/my-service",
            "root/opt/oxide/my-service/contents.txt",
            "root/",
            "root/opt",
            "root/opt/oxide",
            "root/opt/oxide/my-service",
            "root/opt/oxide/my-service/single-file.txt",
        ]
    );
    match &inputs.0[0] {
        BuildInput::AddInMemoryFile { contents, .. } => assert_eq!(
            contents,
            "{\"v\":\"1\",\"t\":\"layer\",\"pkg\":\"my-service\",\"version\":\"0.0.0\"}"
        ),
        other => panic!("unexpected first input {:?}", other),
    }
    match &inputs.0[5] {
        BuildInput::AddFile { mapped_path, len } => {
            assert_eq!(mapped_path.from, "/src/contents/contents.txt");
            assert_eq!(*len, 7);
        }
        other => panic!("unexpected input {:?}", other),
    }
}

#[test]
fn zone_package_with_rust_binary_ends_with_bin() {
    let rust = RustPackage { binary_names: vec!["test-service".to_string()], release: false };
    let pkg = local(service_a_paths(), Some(rust), PackageOutput::Zone { intermediate_only: false });
    let name = PackageName::new_const("my-service");
    assert_eq!(pkg.rust_binary_sources(), vec!["target/debug/test-service".to_string()]);
    let inputs = pkg
        .get_all_inputs(&name, &TargetMap::new(), "/out", true, None, &service_a_walks(), &vec![42])
        .unwrap();
    let names: Vec<String> = inputs.0.iter().map(dest).collect();
    assert_eq!(
        &names[11..],
        &[
            "root/",
            "root/opt",
            "root/opt/oxide",
            "root/opt/oxide/my-service",
            "root/opt/oxide/my-service/bin",
            "root/opt/oxide/my-service/bin/test-service",
        ]
    );
}

#[test]
fn tarball_starts_with_version() {
    let rust = RustPackage { binary_names: vec!["test-service".to_string()], release: true };
    let pkg = local(vec![], Some(rust), PackageOutput::Tarball);
    let name = PackageName::new_const("my-service");
    let inputs = pkg
        .get_all_inputs(&name, &TargetMap::new(), "/out", false, None, &vec![], &vec![9])
        .unwrap();
    assert_eq!(inputs.0.len(), 2);
    match &inputs.0[0] {
        BuildInput::AddInMemoryFile { dst_path, contents } => {
            assert_eq!(dst_path, "VERSION");
            assert_eq!(contents, "0.0.0");
        }
        other => panic!("unexpected first input {:?}", other),
    }
    match &inputs.0[1] {
        BuildInput::AddFile { mapped_path, len } => {
            assert_eq!(mapped_path.from, "target/release/test-service");
            assert_eq!(mapped_path.to, "test-service");
            assert_eq!(*len, 9);
        }
        other => panic!("unexpected input {:?}", other),
    }
    let stamped = pkg.get_version_input(&name, Some(&"3.3.3".to_string()));
    assert_eq!(
        stamped,
        BuildInput::AddInMemoryFile { dst_path: "VERSION".to_string(), contents: "3.3.3".to_string() }
    );
    assert!(pkg.stamp_inputs(&name, "/out", &"3.3.3".to_string()).is_none());
}

#[test]
fn composite_lists_its_components() {
    let pkg = Package {
        service_name: ServiceName::new_const("svc-3"),
        source: PackageSource::Composite {
            packages: vec!["pkg-1.tar.gz".to_string(), "pkg-2.tar.gz".to_string()],
        },
        output: PackageOutput::Zone { intermediate_only: false },
        only_for_targets: None,
        setup_hint: None,
    };
    let name = PackageName::new_const("pkg-3");
    let inputs = pkg
        .get_all_inputs(&name, &TargetMap::new(), "/out", true, None, &vec![], &vec![])
        .unwrap();
    let names: Vec<String> = inputs.0.iter().map(dest).collect();
    assert_eq!(names, vec!["oxide.json", "/out/pkg-1.tar.gz", "/out/pkg-2.tar.gz"]);
    assert_eq!(pkg.get_output_path(&name, "/out"), "/out/pkg-3.tar.gz");
    assert_eq!(pkg.get_stamped_output_path(&name, "/out"), "/out/versioned/pkg-3.tar.gz");
    let stamp = pkg.stamp_inputs(&name, "/out", &"1.2.3".to_string()).unwrap();
    assert_eq!(stamp.0.len(), 2);
    assert_eq!(dest(&stamp.0[1]), "/out/pkg-3.tar.gz");
}

#[test]
fn prebuilt_and_manual_have_no_inputs() {
    let pkg = Package {
        service_name: ServiceName::new_const("svc"),
        source: PackageSource::Manual,
        output: PackageOutput::Tarball,
        only_for_targets: None,
        setup_hint: None,
    };
    let name = PackageName::new_const("svc");
    let err = pkg
        .get_all_inputs(&name, &TargetMap::new(), "/out", false, None, &vec![], &vec![])
        .unwrap_err();
    assert_eq!(err.message(), "Cannot walk over a zone package with source: Manual");
    let prebuilt = Package {
        source: PackageSource::Prebuilt {
            repo: "r".to_string(),
            commit: "c".to_string(),
            sha256: "s".to_string(),
        },
        ..pkg
    };
    let err = prebuilt
        .get_all_inputs(&name, &TargetMap::new(), "/out", false, None, &vec![], &vec![])
        .unwrap_err();
    assert_eq!(
        err.message(),
        "Cannot walk over a zone package with source: Prebuilt { repo: \"r\", commit: \"c\", sha256: \"s\" }"
    );
}

#[test]
fn relative_zone_destination_is_refused() {
    let pkg = local(
        vec![mapped("a", "opt/oxide/x")],
        None,
        PackageOutput::Zone { intermediate_only: false },
    );
    let name = PackageName::new_const("x");
    let walks = vec![PathWalk { from_is_dir: false, entries: vec![file_entry(&[], "a", 1)] }];
    let err = pkg
        .get_all_inputs(&name, &TargetMap::new(), "/out", true, None, &walks, &vec![])
        .unwrap_err();
    assert_eq!(err.message(), "Cannot add 'to = opt/oxide/x'; absolute path required");
    assert!(zone_archive_path("opt").is_err());
    assert_eq!(zone_archive_path("/a/b/c").unwrap(), "root/a/b/c");
}

#[test]
fn paths_are_interpolated_from_the_target() {
    let pkg = local(
        vec![mapped("out/{{image}}/x", "/opt/{{image}}/x")],
        None,
        PackageOutput::Zone { intermediate_only: false },
    );
    let mut target = TargetMap::new();
    target.insert("image".to_string(), "standard".to_string());
    let name = PackageName::new_const("x");
    let walks = vec![PathWalk { from_is_dir: false, entries: vec![file_entry(&[], "/h/x", 1)] }];
    let inputs = pkg
        .get_all_inputs(&name, &target, "/out", true, None, &walks, &vec![])
        .unwrap();
    let names: Vec<String> = inputs.0.iter().map(dest).collect();
    assert_eq!(names, vec!["oxide.json", "root/", "root/opt", "root/opt/standard", "root/opt/standard/x"]);
    let missing = pkg.get_all_inputs(&name, &TargetMap::new(), "/out", true, None, &walks, &vec![]);
    assert!(missing.is_err());
}

#[test]
fn blobs_go_under_the_service() {
    let pkg = Package {
        service_name: ServiceName::new_const("svc"),
        source: PackageSource::Local {
            blobs: Some(vec!["OVMF_CODE.fd".to_string()]),
            buildomat_blobs: None,
            rust: None,
            paths: vec![],
        },
        output: PackageOutput::Zone { intermediate_only: false },
        only_for_targets: None,
        setup_hint: None,
    };
    let zoned = pkg.get_blobs_inputs("/dl", true);
    assert_eq!(zoned.len(), 1);
    match &zoned[0] {
        BuildInput::AddBlob { path, .. } => {
            assert_eq!(path.from, "/dl/svc/OVMF_CODE.fd");
            assert_eq!(path.to, "root/opt/oxide/svc/blob/OVMF_CODE.fd");
        }
        other => panic!("unexpected input {:?}", other),
    }
    let plain = pkg.get_blobs_inputs("/dl", false);
    assert_eq!(dest(&plain[0]), "blob/OVMF_CODE.fd");
}

#[test]
fn component_entries_are_sorted_out() {
    assert_eq!(component_entry("oxide.json"), ComponentEntry::Skip);
    assert_eq!(
        component_entry("root/opt/oxide/pkg-1-file.txt"),
        ComponentEntry::Add { unpack: "opt/oxide/pkg-1-file.txt".to_string() }
    );
    assert_eq!(component_entry("root/"), ComponentEntry::Add { unpack: String::new() });
    assert_eq!(component_entry("etc/passwd"), ComponentEntry::NotZoneImage);
}

#[test]
fn zone_destination_needs_a_parent() {
    let pkg = local(vec![mapped("a", "/")], None, PackageOutput::Zone { intermediate_only: false });
    let name = PackageName::new_const("x");
    let walks = vec![PathWalk { from_is_dir: false, entries: vec![file_entry(&[], "a", 1)] }];
    let err = pkg
        .get_all_inputs(&name, &TargetMap::new(), "/out", true, None, &walks, &vec![])
        .unwrap_err();
    assert_eq!(err.message(), "Cannot add 'to = /'; it has no parent directory");
}

#[test]
fn parents_of_a_zone_path() {
    let dirs: Vec<String> = zone_package::inputs::zone_get_all_parent_inputs("/opt/oxide/foo")
        .unwrap()
        .into_iter()
        .map(|d| d.0)
        .collect();
    assert_eq!(dirs, vec!["root/", "root/opt", "root/opt/oxide", "root/opt/oxide/foo"]);
    let err = zone_package::inputs::zone_get_all_parent_inputs("opt/oxide").unwrap_err();
    assert_eq!(err.message(), "Cannot add 'to = opt/oxide'; absolute path required");
}

#[test]
fn interpolation_failure_in_a_path_is_reported() {
    let pkg = local(vec![mapped("{{missing}}", "/opt/x")], None, PackageOutput::Tarball);
    let name = PackageName::new_const("x");
    let walks = vec![PathWalk { from_is_dir: false, entries: vec![] }];
    let err = pkg
        .get_all_inputs(&name, &TargetMap::new(), "/out", false, None, &walks, &vec![])
        .unwrap_err();
    assert_eq!(
        err.message(),
        "Key 'missing' not found in target, but required in '{{missing}}'"
    );
}
