use ruxgo::config::BuildConfig;
use ruxgo::package::{
    dedup_packages, filter_targets, package_config_path, package_source_dir, parse_coordinate,
    relocate_path, resolve_package, Coordinate, Package, PackageError,
};
use ruxgo::target::TargetConfig;

fn target(name: &str, typ: &str) -> TargetConfig {
    TargetConfig {
        name: name.to_string(),
        src: "./src".to_string(),
        src_excluded: vec!["./src/skip.c".to_string()],
        include_dir: "./".to_string(),
        typ: typ.to_string(),
        cflags: "-O2".to_string(),
        archive: String::new(),
        ldflags: String::new(),
        deps: Vec::new(),
    }
}

fn build(compiler: &str) -> BuildConfig {
    BuildConfig { compiler: compiler.to_string(), packages: Vec::new() }
}

fn package(name: &str, branch: &str) -> Package {
    Package::new(
        name.to_string(),
        format!("owner/{}", name),
        branch.to_string(),
        build("gcc"),
        Vec::new(),
        Vec::new(),
    )
}

#[test]
fn coordinate_with_comma() {
    let c = parse_coordinate("Ybeichen/redis, redis-7.0.12").unwrap();
    assert_eq!(c.repo, "Ybeichen/redis");
    assert_eq!(c.branch, "redis-7.0.12");
    assert_eq!(c.name, "redis");
}

#[test]
fn coordinate_with_tab_separator() {
    let c = parse_coordinate("  owner/pkgA\tmain ").unwrap();
    assert_eq!(c.repo, "owner/pkgA");
    assert_eq!(c.branch, "main");
    assert_eq!(c.name, "pkgA");
}

#[test]
fn coordinate_with_wrong_field_count() {
    assert!(matches!(parse_coordinate("owner/pkg"), Err(PackageError::BadCoordinate { .. })));
    assert!(matches!(parse_coordinate("owner/pkg main extra"), Err(PackageError::BadCoordinate { .. })));
    assert!(matches!(parse_coordinate(""), Err(PackageError::BadCoordinate { .. })));
}

#[test]
fn coordinate_without_owner() {
    assert!(matches!(parse_coordinate("pkg main"), Err(PackageError::NoPackageName { .. })));
}

#[test]
fn cache_paths() {
    let dir = package_source_dir("redis");
    assert_eq!(dir, "./ruxos_bld/packages/redis/");
    assert_eq!(package_config_path(&dir, "config_linux.toml"), "./ruxos_bld/packages/redis/config_linux.toml");
}

#[test]
fn relocated_paths() {
    let dir = "./ruxos_bld/packages/redis/";
    assert_eq!(relocate_path(dir, "./src"), "./ruxos_bld/packages/redis/src");
    assert_eq!(relocate_path(dir, "./"), "./ruxos_bld/packages/redis/");
    assert_eq!(relocate_path(dir, "src\\deps\\lua"), "./ruxos_bld/packages/redis/src/deps/lua");
    assert_eq!(relocate_path(dir, ""), "./ruxos_bld/packages/redis/");
}

#[test]
fn filter_keeps_only_artifacts() {
    let dir = "./ruxos_bld/packages/p/";
    let out = filter_targets(dir, vec![target("tool", "exe"), target("libp", "static")]);
    assert_eq!(out.len(), 1);
    assert_eq!(out[0].name, "libp");
    assert_eq!(out[0].typ, "static");
    assert_eq!(out[0].src, "./ruxos_bld/packages/p/src");
    assert_eq!(out[0].include_dir, "./ruxos_bld/packages/p/");
    assert_eq!(out[0].src_excluded, vec!["./src/skip.c"]);
    assert_eq!(out[0].cflags, "-O2");
}

#[test]
fn filter_keeps_dll_and_object_in_order() {
    let out = filter_targets("d", vec![target("a", "object"), target("b", "exe"), target("c", "dll")]);
    let names: Vec<String> = out.iter().map(|t| t.name.clone()).collect();
    assert_eq!(names, vec!["a", "c"]);
    assert_eq!(out[0].src, "d/src");
}

#[test]
fn resolved_package_uses_root_compiler() {
    let coordinate = Coordinate {
        repo: "owner/pkgA".to_string(),
        branch: "dev".to_string(),
        name: "pkgA".to_string(),
    };
    let own = BuildConfig { compiler: "clang".to_string(), packages: vec!["owner/pkgB main".to_string()] };
    let p = resolve_package(
        coordinate,
        own,
        "x86_64-linux-musl-gcc",
        vec![target("main", "exe"), target("liba", "static")],
        Vec::new(),
    );
    assert_eq!(p.name, "pkgA");
    assert_eq!(p.repo, "owner/pkgA");
    assert_eq!(p.branch, "dev");
    assert_eq!(p.build_config.compiler, "x86_64-linux-musl-gcc");
    assert_eq!(p.build_config.packages, vec!["owner/pkgB main"]);
    assert_eq!(p.target_configs.len(), 1);
    assert_eq!(p.target_configs[0].name, "liba");
    assert_eq!(p.target_configs[0].src, "./ruxos_bld/packages/pkgA/src");
}

#[test]
fn dedup_keeps_first_of_each_name_sorted() {
    let out = dedup_packages(vec![
        package("pkgA", "branch-one"),
        package("zlib", "main"),
        package("pkgA", "branch-two"),
        package("libc", "main"),
    ]);
    let names: Vec<String> = out.iter().map(|p| p.name.clone()).collect();
    assert_eq!(names, vec!["libc", "pkgA", "zlib"]);
    assert_eq!(out[1].branch, "branch-one");
}

#[test]
fn dedup_of_two_same_names() {
    let out = dedup_packages(vec![package("pkgA", "one"), package("pkgA", "two")]);
    assert_eq!(out.len(), 1);
    assert_eq!(out[0].name, "pkgA");
    assert_eq!(out[0].branch, "one");
}

#[test]
fn dedup_empty() {
    assert!(dedup_packages(Vec::new()).is_empty());
}

#[test]
fn active_repositories() {
    let active = vec!["owner/a".to_string(), "owner/b".to_string()];
    assert!(ruxgo::package::is_active(&active, "owner/b"));
    assert!(!ruxgo::package::is_active(&active, "owner/c"));
    assert!(!ruxgo::package::is_active(&Vec::new(), "owner/a"));
}

#[test]
fn coordinate_name_is_final_segment() {
    let c = parse_coordinate("group/sub/pkgC main").unwrap();
    assert_eq!(c.repo, "group/sub/pkgC");
    assert_eq!(c.name, "pkgC");
}

#[test]
fn flatten_puts_packages_below_first() {
    let mut flat = vec![package("a", "m")];
    ruxgo::package::flatten_step(&mut flat, vec![package("c", "m"), package("d", "m")], package("b", "m"));
    let names: Vec<String> = flat.iter().map(|p| p.name.clone()).collect();
    assert_eq!(names, vec!["a", "c", "d", "b"]);
}
