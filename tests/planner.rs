use zone_package::config::{Config, PlanError};
use zone_package::identifier::{PackageName, ServiceName};
use zone_package::package::{Package, PackageOutput, PackageSource};
use zone_package::target::TargetMap;

fn package(service: &'static str, source: PackageSource, output: PackageOutput) -> Package {
    Package {
        service_name: ServiceName::new_const(service),
        source,
        output,
        only_for_targets: None,
        setup_hint: None,
    }
}

#[test]
fn test_order() {
    let pkg_a_name = PackageName::new_const("pkg-a");
    let pkg_a = package("a", PackageSource::Manual, PackageOutput::Tarball);

    let pkg_b_name = PackageName::new_const("pkg-b");
    let pkg_b = package(
        "b",
        PackageSource::Composite {
            packages: vec![pkg_a.get_output_file(&pkg_a_name)],
        },
        PackageOutput::Tarball,
    );

    let cfg = Config {
        packages: vec![
            (pkg_a_name.clone(), pkg_a.clone()),
            (pkg_b_name.clone(), pkg_b.clone()),
        ],
    };

    let packages = cfg.packages_to_build(&TargetMap::default());
    let mut order = packages.build_order();
    // "pkg-a" comes first, because "pkg-b" depends on it.
    assert_eq!(order.next().map(|b| b.unwrap()), Some(vec![(&pkg_a_name, &pkg_a)]));
    assert_eq!(order.next().map(|b| b.unwrap()), Some(vec![(&pkg_b_name, &pkg_b)]));
}

#[test]
#[should_panic(expected = "cyclic dependency in package manifest")]
fn test_cyclic_dependency() {
    let pkg_a_name = PackageName::new_const("pkg-a");
    let pkg_b_name = PackageName::new_const("pkg-b");
    let pkg_a = package(
        "a",
        PackageSource::Composite {
            packages: vec![String::from("pkg-b.tar")],
        },
        PackageOutput::Tarball,
    );
    let pkg_b = package(
        "b",
        PackageSource::Composite {
            packages: vec![String::from("pkg-a.tar")],
        },
        PackageOutput::Tarball,
    );

    let cfg = Config {
        packages: vec![
            (pkg_a_name.clone(), pkg_a.clone()),
            (pkg_b_name.clone(), pkg_b.clone()),
        ],
    };

    let packages = cfg.packages_to_build(&TargetMap::default());
    let mut order = packages.build_order();
    if let Some(Err(e)) = order.next() {
        panic!("{}", e.message());
    }
}

#[test]
#[should_panic(expected = "Could not find a package which creates 'pkg-b.tar'")]
fn test_missing_dependency() {
    let pkg_a_name = PackageName::new_const("pkg-a");
    let pkg_a = package(
        "a",
        PackageSource::Composite {
            packages: vec![String::from("pkg-b.tar")],
        },
        PackageOutput::Tarball,
    );

    let cfg = Config {
        packages: vec![(pkg_a_name.clone(), pkg_a.clone())],
    };

    let packages = cfg.packages_to_build(&TargetMap::default());
    let mut order = packages.build_order();
    if let Some(Err(e)) = order.next() {
        panic!("{}", e.message());
    }
}

#[test]
fn composite_builds_after_its_components() {
    let zone = PackageOutput::Zone { intermediate_only: false };
    let intermediate = PackageOutput::Zone { intermediate_only: true };
    let n1 = PackageName::new_const("pkg-1");
    let n2 = PackageName::new_const("pkg-2");
    let n3 = PackageName::new_const("pkg-3");
    let leaf1 = package("svc-1", PackageSource::Manual, intermediate);
    let leaf2 = package("svc-2", PackageSource::Manual, intermediate);
    let both = package(
        "svc-3",
        PackageSource::Composite {
            packages: vec![String::from("pkg-1.tar.gz"), String::from("pkg-2.tar.gz")],
        },
        zone,
    );
    let cfg = Config {
        packages: vec![(n1.clone(), leaf1), (n2.clone(), leaf2), (n3.clone(), both)],
    };
    let packages = cfg.packages_to_build(&TargetMap::default());
    let mut order = packages.build_order();

    let mut first: Vec<PackageName> = order
        .next()
        .expect("Missing dependency batch")
        .unwrap()
        .iter()
        .map(|(name, _)| (*name).clone())
        .collect();
    first.sort();
    assert_eq!(first, vec![n1, n2]);
    let second: Vec<PackageName> = order
        .next()
        .expect("Missing dependency batch")
        .unwrap()
        .iter()
        .map(|(name, _)| (*name).clone())
        .collect();
    assert_eq!(second, vec![n3]);
    assert!(order.next().is_none());
}

#[test]
fn cycle_error_message() {
    assert_eq!(PlanError::Cycle.message(), "cyclic dependency in package manifest!");
    let e = PlanError::MissingDependency { output: String::from("x.tar") };
    assert_eq!(e.message(), "Could not find a package which creates 'x.tar'");
}

#[test]
fn target_filter_selects_packages() {
    let mut only = TargetMap::new();
    only.insert("image".to_string(), "standard".to_string());
    let mut filtered = package("f", PackageSource::Manual, PackageOutput::Tarball);
    filtered.only_for_targets = Some(only);
    let open = package("o", PackageSource::Manual, PackageOutput::Zone { intermediate_only: true });

    let mut standard = TargetMap::new();
    standard.insert("image".to_string(), "standard".to_string());
    standard.insert("switch".to_string(), "asic".to_string());
    let mut trampoline = TargetMap::new();
    trampoline.insert("image".to_string(), "trampoline".to_string());

    assert!(standard.includes_package(&filtered));
    assert!(!trampoline.includes_package(&filtered));
    assert!(!TargetMap::new().includes_package(&filtered));
    assert!(TargetMap::new().includes_package(&open));

    let cfg = Config {
        packages: vec![
            (PackageName::new_const("filtered"), filtered),
            (PackageName::new_const("open"), open),
        ],
    };
    assert_eq!(cfg.packages_to_build(&standard).packages.len(), 2);
    assert_eq!(cfg.packages_to_build(&trampoline).packages.len(), 1);
    // An intermediate zone image is built but not deployed.
    assert_eq!(cfg.packages_to_deploy(&standard).packages.len(), 1);
    assert_eq!(cfg.packages_to_deploy(&trampoline).packages.len(), 0);
}
