use ruxgo::config::{find_duplicate_source, parse_config};
use ruxgo::error::ConfigError;

const MINIMAL: &str = r#"
[build]
compiler = "gcc"

[[targets]]
name = "hello"
src = "./src"
type = "exe"
"#;

#[test]
fn parse_minimal_document() {
    let (build, os, targets) = parse_config(MINIMAL, "6.1.0").unwrap();
    assert_eq!(build.compiler, "gcc");
    assert!(build.packages.is_empty());
    assert_eq!(os.name, "");
    assert!(os.features.is_empty());
    assert_eq!(os.platform.arch, "");
    assert_eq!(os.platform.qemu.bus, "");
    assert_eq!(targets.len(), 1);
    let t = &targets[0];
    assert_eq!(t.name, "hello");
    assert_eq!(t.src, "./src");
    assert_eq!(t.include_dir, "./");
    assert_eq!(t.typ, "exe");
    assert_eq!(t.cflags, "");
    assert!(t.deps.is_empty());
}

#[test]
fn parse_orders_targets_by_dependency() {
    let text = r#"
[build]
compiler = "gcc"
packages = ["Ybeichen/redis, redis-7.0.12"]

[[targets]]
name = "app"
type = "exe"
deps = ["libcore"]

[[targets]]
name = "libcore"
type = "static"
cflags = "-O2"
src_excluded = ["src/old.c"]
"#;
    let (build, _, targets) = parse_config(text, "6.1.0").unwrap();
    assert_eq!(build.packages, vec!["Ybeichen/redis, redis-7.0.12"]);
    assert_eq!(targets[0].name, "libcore");
    assert_eq!(targets[0].cflags, "-O2");
    assert_eq!(targets[0].src_excluded, vec!["src/old.c"]);
    assert_eq!(targets[1].name, "app");
}

#[test]
fn parse_os_section_prefixes_compiler() {
    let text = r#"
[build]
compiler = "gcc"

[os]
name = "ruxos"
services = ["fs", "alloc"]
ulib = "ruxmusl"

[os.platform]
name = "aarch64-qemu-virt"
smp = "4"

[os.platform.qemu]
blk = "y"

[[targets]]
name = "hello"
type = "exe"
"#;
    let (build, os, _) = parse_config(text, "6.1.0-generic").unwrap();
    assert_eq!(build.compiler, "aarch64-linux-musl-gcc");
    assert_eq!(os.name, "ruxos");
    assert_eq!(os.ulib, "ruxmusl");
    assert_eq!(os.features, vec!["fs", "alloc", "fd", "musl", "fp_simd", "fd", "tls"]);
    let p = &os.platform;
    assert_eq!(p.name, "aarch64-qemu-virt");
    assert_eq!(p.arch, "aarch64");
    assert_eq!(p.cross_compile, "aarch64-linux-musl-");
    assert_eq!(p.target, "aarch64-unknown-none-softfloat");
    assert_eq!(p.smp, "4");
    assert_eq!(p.mode, "release");
    assert_eq!(p.log, "warn");
    assert_eq!(p.v, "");
    let q = &p.qemu;
    assert_eq!(q.blk, "y");
    assert_eq!(q.net, "n");
    assert_eq!(q.bus, "mmio");
    assert_eq!(q.disk_img, "disk.img");
    assert_eq!(q.v9p_path, "./");
    assert_eq!(q.accel, "n");
    assert_eq!(q.net_dev, "user");
    assert_eq!(q.ip, "10.0.2.15");
    assert_eq!(q.gw, "10.0.2.2");
}

#[test]
fn default_platform_is_x86_64_qemu() {
    let text = r#"
[build]
compiler = "gcc"

[os]
name = "ruxos"

[[targets]]
name = "hello"
type = "exe"
"#;
    let (build, os, _) = parse_config(text, "6.1.0-generic").unwrap();
    assert_eq!(build.compiler, "x86_64-linux-musl-gcc");
    assert!(os.features.is_empty());
    assert_eq!(os.platform.name, "x86_64-qemu-q35");
    assert_eq!(os.platform.target, "x86_64-unknown-none");
    assert_eq!(os.platform.qemu.bus, "pci");
    assert_eq!(os.platform.qemu.accel, "y");
}

#[test]
fn acceleration_off_under_microsoft_kernel() {
    let text = r#"
[build]
compiler = "gcc"

[os]
name = "ruxos"

[[targets]]
name = "hello"
type = "exe"
"#;
    let (_, os, _) = parse_config(text, "5.15.90.1-Microsoft-standard-WSL2").unwrap();
    assert_eq!(os.platform.qemu.accel, "n");
}

#[test]
fn platform_without_qemu_token_has_no_emulator() {
    let text = r#"
[build]
compiler = "gcc"

[os]
name = "ruxos"
services = ["net"]

[os.platform]
name = "riscv64-board"

[[targets]]
name = "hello"
type = "exe"
"#;
    let (build, os, _) = parse_config(text, "6.1.0").unwrap();
    assert_eq!(build.compiler, "riscv64-linux-musl-gcc");
    assert_eq!(os.features, vec!["net", "fd"]);
    assert_eq!(os.platform.target, "riscv64gc-unknown-none-elf");
    assert_eq!(os.platform.qemu.blk, "");
    assert_eq!(os.platform.qemu.net_dev, "");
}

#[test]
fn empty_os_table_counts_as_absent() {
    let text = r#"
[build]
compiler = "gcc"

[os]

[[targets]]
name = "hello"
type = "exe"
"#;
    let (build, os, _) = parse_config(text, "6.1.0").unwrap();
    assert_eq!(build.compiler, "gcc");
    assert_eq!(os.platform.arch, "");
}

fn err(text: &str) -> ConfigError {
    parse_config(text, "6.1.0").unwrap_err()
}

#[test]
fn malformed_document() {
    assert!(matches!(err("[build\ncompiler ="), ConfigError::Malformed));
}

#[test]
fn missing_build_section() {
    let e = err("[[targets]]\nname = \"a\"\ntype = \"exe\"\n");
    assert!(matches!(e, ConfigError::Missing { field } if field == "build"));
}

#[test]
fn missing_compiler() {
    let e = err("[build]\n[[targets]]\nname = \"a\"\ntype = \"exe\"\n");
    assert!(matches!(e, ConfigError::Missing { field } if field == "compiler"));
}

#[test]
fn compiler_not_a_string() {
    let e = err("[build]\ncompiler = 3\n[[targets]]\nname = \"a\"\ntype = \"exe\"\n");
    assert!(matches!(e, ConfigError::NotAString { field } if field == "compiler"));
}

#[test]
fn packages_not_an_array() {
    let e = err("[build]\ncompiler = \"gcc\"\npackages = \"x\"\n[[targets]]\nname = \"a\"\ntype = \"exe\"\n");
    assert!(matches!(e, ConfigError::NotAnArray { field } if field == "packages"));
}

#[test]
fn dependency_not_a_string() {
    let e = err("[build]\ncompiler = \"gcc\"\n[[targets]]\nname = \"a\"\ntype = \"exe\"\ndeps = [1]\n");
    assert!(matches!(e, ConfigError::NotAStringElement { field } if field == "deps"));
}

#[test]
fn missing_targets() {
    let e = err("[build]\ncompiler = \"gcc\"\n");
    assert!(matches!(e, ConfigError::Missing { field } if field == "targets"));
}

#[test]
fn empty_target_list() {
    let e = err("targets = []\n[build]\ncompiler = \"gcc\"\n");
    assert!(matches!(e, ConfigError::NoTargets));
}

#[test]
fn invalid_target_type() {
    let e = err("[build]\ncompiler = \"gcc\"\n[[targets]]\nname = \"a\"\ntype = \"lib\"\n");
    assert!(matches!(e, ConfigError::InvalidTargetType { target } if target == "a"));
}

#[test]
fn duplicate_target_names() {
    let e = err("[build]\ncompiler = \"gcc\"\n[[targets]]\nname = \"a\"\ntype = \"exe\"\n[[targets]]\nname = \"a\"\ntype = \"static\"\n");
    assert!(matches!(e, ConfigError::DuplicateTargetName { name } if name == "a"));
}

#[test]
fn circular_target_dependencies() {
    let e = err("[build]\ncompiler = \"gcc\"\n[[targets]]\nname = \"a\"\ntype = \"exe\"\ndeps = [\"b\"]\n[[targets]]\nname = \"b\"\ntype = \"static\"\ndeps = [\"a\"]\n");
    assert!(matches!(e, ConfigError::CircularDependency { .. }));
}

#[test]
fn unsupported_architecture() {
    let e = err("[build]\ncompiler = \"gcc\"\n[os]\nname = \"r\"\n[os.platform]\nname = \"mips-qemu\"\n[[targets]]\nname = \"a\"\ntype = \"exe\"\n");
    assert!(matches!(e, ConfigError::UnsupportedArch { arch } if arch == "mips"));
}

#[test]
fn os_not_a_table() {
    let e = err("os = \"ruxos\"\n[build]\ncompiler = \"gcc\"\n[[targets]]\nname = \"a\"\ntype = \"exe\"\n");
    assert!(matches!(e, ConfigError::NotATable { field } if field == "os"));
}

#[test]
fn qemu_field_not_a_string() {
    let e = err("[build]\ncompiler = \"gcc\"\n[os]\nname = \"r\"\n[os.platform.qemu]\nblk = 1\n[[targets]]\nname = \"a\"\ntype = \"exe\"\n");
    assert!(matches!(e, ConfigError::NotAString { field } if field == "blk"));
}

#[test]
fn duplicate_source_names() {
    let names = vec!["a.c".to_string(), "b.c".to_string(), "a.c".to_string()];
    assert_eq!(find_duplicate_source(&names), Some("a.c".to_string()));
    let unique = vec!["a.c".to_string(), "b.cpp".to_string()];
    assert_eq!(find_duplicate_source(&unique), None);
    assert_eq!(find_duplicate_source(&Vec::new()), None);
}

#[test]
fn empty_platform_and_emulator() {
    let (_, os, _) = parse_config(MINIMAL, "6.1.0").unwrap();
    assert!(ruxgo::config::platform_is_empty(&os.platform));
    assert!(ruxgo::config::qemu_is_empty(&os.platform.qemu));
    let text = "[build]\ncompiler = \"gcc\"\n[os]\nname = \"r\"\n[[targets]]\nname = \"a\"\ntype = \"exe\"\n";
    let (_, os, _) = parse_config(text, "6.1.0").unwrap();
    assert!(!ruxgo::config::platform_is_empty(&os.platform));
    assert!(!ruxgo::config::qemu_is_empty(&os.platform.qemu));
}

#[test]
fn source_file_names() {
    assert!(ruxgo::config::is_source_file("main.c"));
    assert!(ruxgo::config::is_source_file("util.cpp"));
    assert!(!ruxgo::config::is_source_file("util.h"));
    assert!(!ruxgo::config::is_source_file("c"));
    assert!(!ruxgo::config::is_source_file("notes.cc"));
}

#[test]
fn source_check_fails_on_duplicates_and_lists_sourceless_targets() {
    let ok = vec![
        ("a".to_string(), vec!["x.c".to_string(), "y.c".to_string()]),
        ("b".to_string(), Vec::new()),
    ];
    assert_eq!(ruxgo::config::check_sources(&ok).unwrap(), vec!["b"]);
    let dup = vec![
        ("a".to_string(), vec!["x.c".to_string()]),
        ("b".to_string(), vec!["m.c".to_string(), "n.cpp".to_string(), "m.c".to_string()]),
    ];
    match ruxgo::config::check_sources(&dup) {
        Err(ConfigError::DuplicateSource { target, file }) => {
            assert_eq!(target, "b");
            assert_eq!(file, "m.c");
        }
        other => panic!("unexpected: {:?}", other),
    }
}

#[test]
fn document_errors_name_the_field() {
    let e = err("[build]\ncompiler = \"gcc\"\n[[targets]]\nname = \"a\"\ntype = \"exe\"\ncflags = 1\n");
    assert!(matches!(e, ConfigError::NotAString { field } if field == "cflags"));
    let e = err("targets = [1]\n[build]\ncompiler = \"gcc\"\n");
    assert!(matches!(e, ConfigError::NotATable { field } if field == "targets"));
    let e = err("build = 1\n");
    assert!(matches!(e, ConfigError::NotATable { field } if field == "build"));
    let e = err("[build]\ncompiler = \"gcc\"\n[os]\nname = 1\n[[targets]]\nname = \"a\"\ntype = \"exe\"\n");
    assert!(matches!(e, ConfigError::NotAString { field } if field == "name"));
}
