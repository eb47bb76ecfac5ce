//! The typed configuration model and its validation.
use vstd::prelude::*;
use crate::error::ConfigError;
use crate::target::{dependency_ordered, has_cycle, TargetConfig};
use crate::toml_doc::parse_toml;
use crate::toml_doc::toml_document;
use crate::text::{
    ends_with, has_suffix, contains_text, contains_token, first_part, first_token, has_token, lower_of, lowercase,
    occurs_in, same_text,
};
use crate::toml_doc::{get, lookup, TomlEntry, TomlValue};
use vstd::string::StringExecFns;

verus! {

/// The view of each string of a sequence.
pub open spec fn views(v: Seq<String>) -> Seq<Seq<char>> {
    v.map_values(|s: String| s@)
}

/// What a string field reads as: its value, `default` where it is absent,
/// `None` where it holds something else.
pub open spec fn cfg_string(t: Seq<TomlEntry>, field: Seq<char>, default: Seq<char>) -> Option<
    Seq<char>,
> {
    match lookup(t, field) {
        None => Some(default),
        Some(TomlValue::Str(s)) => Some(s@),
        Some(_) => None,
    }
}

/// The strings of `items`, or `None` where one of them is no string.
pub open spec fn strings_of(items: Seq<TomlValue>) -> Option<Seq<Seq<char>>>
    decreases items.len(),
{
    if items.len() == 0 {
        Some(Seq::empty())
    } else {
        match (strings_of(items.drop_last()), items.last()) {
            (Some(p), TomlValue::Str(s)) => Some(p.push(s@)),
            _ => None,
        }
    }
}

/// What an array-of-strings field reads as: its strings, empty where it is
/// absent, `None` where it is no array or holds something else.
pub open spec fn cfg_vector(t: Seq<TomlEntry>, field: Seq<char>) -> Option<Seq<Seq<char>>> {
    match lookup(t, field) {
        None => Some(Seq::empty()),
        Some(TomlValue::Array(items)) => strings_of(items@),
        Some(_) => None,
    }
}

/// What an optional sub-table reads as: its entries, no entries where it is
/// absent, `None` where it is no table.
pub open spec fn cfg_table(t: Seq<TomlEntry>, field: Seq<char>) -> Option<Seq<TomlEntry>> {
    match lookup(t, field) {
        None => Some(Seq::empty()),
        Some(TomlValue::Table(entries)) => Some(entries@),
        Some(_) => None,
    }
}

/// `e` reports field `f` as absent.
pub open spec fn missing(e: ConfigError, f: Seq<char>) -> bool {
    e matches ConfigError::Missing { field } && field@ == f
}

/// `e` reports that field `f` holds no string.
pub open spec fn not_a_string(e: ConfigError, f: Seq<char>) -> bool {
    e matches ConfigError::NotAString { field } && field@ == f
}

/// `e` reports that field `f` is no table.
pub open spec fn not_a_table(e: ConfigError, f: Seq<char>) -> bool {
    e matches ConfigError::NotATable { field } && field@ == f
}

/// `e` reports that field `f` is no array of strings.
pub open spec fn bad_array(e: ConfigError, f: Seq<char>) -> bool {
    (e matches ConfigError::NotAnArray { field } && field@ == f) || (
    e matches ConfigError::NotAStringElement { field } && field@ == f)
}

proof fn lemma_strings_of_prefix(items: Seq<TomlValue>, m: int)
    requires
        0 <= m <= items.len(),
        strings_of(items.subrange(0, m)) is None,
    ensures
        strings_of(items) is None,
    decreases items.len() - m,
{
    if m < items.len() {
        assert(items.subrange(0, m + 1).drop_last() =~= items.subrange(0, m));
        lemma_strings_of_prefix(items, m + 1);
    } else {
        assert(items.subrange(0, m) =~= items);
    }
}

/// Reads a string field of `config`, with `default` where it is absent.
pub fn parse_cfg_string(config: &Vec<TomlEntry>, field: &str, default: &str) -> (r: Result<
    String,
    ConfigError,
>)
    ensures
        r is Ok <==> cfg_string(config@, field@, default@) is Some,
        r matches Ok(s) ==> s@ == cfg_string(config@, field@, default@)->0,
        r matches Err(e) ==> e matches ConfigError::NotAString { field: f } && f@ == field@,
{
    match get(config, field) {
        None => Ok(default.to_string()),
        Some(TomlValue::Str(s)) => Ok(s.clone()),
        Some(_) => Err(ConfigError::NotAString { field: field.to_string() }),
    }
}

/// Reads an array-of-strings field of `config`, empty where it is absent.
pub fn parse_cfg_vector(config: &Vec<TomlEntry>, field: &str) -> (r: Result<
    Vec<String>,
    ConfigError,
>)
    ensures
        r is Ok <==> cfg_vector(config@, field@) is Some,
        r matches Ok(v) ==> views(v@) == cfg_vector(config@, field@)->0,
        r matches Err(e) ==> (e matches ConfigError::NotAnArray { field: f } && f@ == field@) || (
        e matches ConfigError::NotAStringElement { field: f } && f@ == field@),
{
    match get(config, field) {
        None => {
            let v: Vec<String> = Vec::new();
            assert(views(v@) =~= Seq::<Seq<char>>::empty());
            Ok(v)
        },
        Some(TomlValue::Array(items)) => {
            let mut out: Vec<String> = Vec::new();
            let mut k: usize = 0;
            assert(items@.subrange(0, 0) =~= Seq::<TomlValue>::empty());
            assert(views(out@) =~= Seq::<Seq<char>>::empty());
            while k < items.len()
                invariant
                    lookup(config@, field@) == Some(TomlValue::Array(*items)),
                    k <= items@.len(),
                    strings_of(items@.subrange(0, k as int)) == Some(views(out@)),
                decreases items.len() - k,
            {
                assert(items@.subrange(0, k + 1).drop_last() =~= items@.subrange(0, k as int));
                match &items[k] {
                    TomlValue::Str(s) => {
                        let ghost prev = out@;
                        out.push(s.clone());
                        assert(views(out@) =~= views(prev).push(s@));
                    },
                    _ => {
                        proof {
                            assert(items@.subrange(0, k + 1).last() == items@[k as int]);
                            assert(strings_of(items@.subrange(0, k + 1)) is None);
                            lemma_strings_of_prefix(items@, k as int + 1);
                        }
                        return Err(ConfigError::NotAStringElement { field: field.to_string() });
                    },
                }
                k += 1;
            }
            assert(items@.subrange(0, items@.len() as int) =~= items@);
            Ok(out)
        },
        Some(_) => Err(ConfigError::NotAnArray { field: field.to_string() }),
    }
}


/// Emulator settings of a platform that runs under QEMU.
#[derive(Debug, Default, PartialEq, Eq)]
pub struct QemuConfig {
    pub blk: String,
    pub net: String,
    pub graphic: String,
    pub bus: String,
    pub disk_img: String,
    pub v9p: String,
    pub v9p_path: String,
    pub accel: String,
    pub qemu_log: String,
    pub net_dump: String,
    pub net_dev: String,
    pub ip: String,
    pub gw: String,
    pub args: String,
    pub envs: String,
}

/// Platform settings of the operating system being built.
#[derive(Debug, Default, PartialEq, Eq)]
pub struct PlatformConfig {
    pub name: String,
    pub arch: String,
    pub cross_compile: String,
    pub target: String,
    pub smp: String,
    pub mode: String,
    pub log: String,
    pub v: String,
    pub qemu: QemuConfig,
}

/// Every field of a QEMU table that must hold a string does, where present.
pub open spec fn qemu_strings_ok(q: Seq<TomlEntry>) -> bool {
    &&& cfg_string(q, "blk"@, seq![]) is Some
    &&& cfg_string(q, "net"@, seq![]) is Some
    &&& cfg_string(q, "graphic"@, seq![]) is Some
    &&& cfg_string(q, "disk_img"@, seq![]) is Some
    &&& cfg_string(q, "v9p"@, seq![]) is Some
    &&& cfg_string(q, "v9p_path"@, seq![]) is Some
    &&& cfg_string(q, "qemu_log"@, seq![]) is Some
    &&& cfg_string(q, "net_dump"@, seq![]) is Some
    &&& cfg_string(q, "net_dev"@, seq![]) is Some
    &&& cfg_string(q, "ip"@, seq![]) is Some
    &&& cfg_string(q, "gw"@, seq![]) is Some
    &&& cfg_string(q, "args"@, seq![]) is Some
    &&& cfg_string(q, "envs"@, seq![]) is Some
}

/// `e` reports the first field of QEMU table `q` that holds no string, in
/// the order the fields are read.
pub open spec fn qemu_fields_failure(q: Seq<TomlEntry>, e: ConfigError) -> bool {
    if cfg_string(q, "blk"@, seq![]) is None {
        not_a_string(e, "blk"@)
    } else if cfg_string(q, "net"@, seq![]) is None {
        not_a_string(e, "net"@)
    } else if cfg_string(q, "graphic"@, seq![]) is None {
        not_a_string(e, "graphic"@)
    } else if cfg_string(q, "disk_img"@, seq![]) is None {
        not_a_string(e, "disk_img"@)
    } else if cfg_string(q, "v9p"@, seq![]) is None {
        not_a_string(e, "v9p"@)
    } else if cfg_string(q, "v9p_path"@, seq![]) is None {
        not_a_string(e, "v9p_path"@)
    } else if cfg_string(q, "qemu_log"@, seq![]) is None {
        not_a_string(e, "qemu_log"@)
    } else if cfg_string(q, "net_dump"@, seq![]) is None {
        not_a_string(e, "net_dump"@)
    } else if cfg_string(q, "net_dev"@, seq![]) is None {
        not_a_string(e, "net_dev"@)
    } else if cfg_string(q, "ip"@, seq![]) is None {
        not_a_string(e, "ip"@)
    } else if cfg_string(q, "gw"@, seq![]) is None {
        not_a_string(e, "gw"@)
    } else if cfg_string(q, "args"@, seq![]) is None {
        not_a_string(e, "args"@)
    } else {
        not_a_string(e, "envs"@)
    }
}

/// `e` reports why the `qemu` table of platform table `p` was refused.
pub open spec fn qemu_failure(p: Seq<TomlEntry>, e: ConfigError) -> bool {
    if cfg_table(p, "qemu"@) is None {
        not_a_table(e, "qemu"@)
    } else {
        qemu_fields_failure(cfg_table(p, "qemu"@)->0, e)
    }
}

/// Whether hardware acceleration is on: only on `x86_64`, and only where
/// the host's lowercased kernel release does not name a Microsoft
/// virtualisation layer.
pub open spec fn accel_of(arch: Seq<char>, lowered_release: Seq<char>) -> Seq<char> {
    if arch == "x86_64"@ {
        if occurs_in(lowered_release, "-microsoft"@) {
            "n"@
        } else {
            "y"@
        }
    } else {
        "n"@
    }
}

/// `c` holds the QEMU settings that table `q` gives for `arch`, on a host
/// whose kernel release is `release`.
pub open spec fn qemu_parsed(c: QemuConfig, arch: Seq<char>, q: Seq<TomlEntry>, release: Seq<char>) -> bool {
    &&& c.blk@ == cfg_string(q, "blk"@, "n"@)->0
    &&& c.net@ == cfg_string(q, "net"@, "n"@)->0
    &&& c.graphic@ == cfg_string(q, "graphic"@, "n"@)->0
    &&& c.bus@ == (if arch == "x86_64"@ { "pci"@ } else { "mmio"@ })
    &&& c.disk_img@ == cfg_string(q, "disk_img"@, "disk.img"@)->0
    &&& c.v9p@ == cfg_string(q, "v9p"@, "n"@)->0
    &&& c.v9p_path@ == cfg_string(q, "v9p_path"@, "./"@)->0
    &&& c.accel@ == accel_of(arch, lower_of(release))
    &&& c.qemu_log@ == cfg_string(q, "qemu_log"@, "n"@)->0
    &&& c.net_dump@ == cfg_string(q, "net_dump"@, "n"@)->0
    &&& c.net_dev@ == cfg_string(q, "net_dev"@, "user"@)->0
    &&& c.ip@ == cfg_string(q, "ip"@, "10.0.2.15"@)->0
    &&& c.gw@ == cfg_string(q, "gw"@, "10.0.2.2"@)->0
    &&& c.args@ == cfg_string(q, "args"@, ""@)->0
    &&& c.envs@ == cfg_string(q, "envs"@, ""@)->0
}

/// Every field of `c` is empty: the settings of a platform without QEMU.
pub open spec fn qemu_empty(c: QemuConfig) -> bool {
    &&& c.blk@.len() == 0 && c.net@.len() == 0 && c.graphic@.len() == 0
    &&& c.bus@.len() == 0 && c.disk_img@.len() == 0 && c.v9p@.len() == 0
    &&& c.v9p_path@.len() == 0 && c.accel@.len() == 0 && c.qemu_log@.len() == 0
    &&& c.net_dump@.len() == 0 && c.net_dev@.len() == 0 && c.ip@.len() == 0
    &&& c.gw@.len() == 0 && c.args@.len() == 0 && c.envs@.len() == 0
}

/// Whether acceleration is on for `arch`, given the host's lowercased
/// kernel release.
pub fn accel_for(arch: &str, lowered_release: &str) -> (r: String)
    ensures
        r@ == accel_of(arch@, lowered_release@),
{
    if same_text(arch, "x86_64") {
        if contains_text(lowered_release, "-microsoft") {
            "n".to_string()
        } else {
            "y".to_string()
        }
    } else {
        "n".to_string()
    }
}

/// QEMU settings with every field empty.
pub fn empty_qemu() -> (r: QemuConfig)
    ensures
        qemu_empty(r),
{
    QemuConfig {
        blk: String::new(),
        net: String::new(),
        graphic: String::new(),
        bus: String::new(),
        disk_img: String::new(),
        v9p: String::new(),
        v9p_path: String::new(),
        accel: String::new(),
        qemu_log: String::new(),
        net_dump: String::new(),
        net_dev: String::new(),
        ip: String::new(),
        gw: String::new(),
        args: String::new(),
        envs: String::new(),
    }
}

/// Reads the `qemu` table of a platform table for architecture `arch`, on a
/// host whose kernel release is `host_release`. Fields that are absent take
/// their defaults.
pub fn parse_qemu(arch: &str, config: &Vec<TomlEntry>, host_release: &str) -> (r: Result<
    QemuConfig,
    ConfigError,
>)
    ensures
        r is Ok <==> (cfg_table(config@, "qemu"@) is Some && qemu_strings_ok(
            cfg_table(config@, "qemu"@)->0,
        )),
        r matches Ok(c) ==> qemu_parsed(c, arch@, cfg_table(config@, "qemu"@)->0, host_release@),
        r matches Err(e) ==> qemu_failure(config@, e),
{
    let empty: Vec<TomlEntry> = Vec::new();
    let q: &Vec<TomlEntry> = match get(config, "qemu") {
        None => &empty,
        Some(TomlValue::Table(t)) => t,
        Some(_) => {
            return Err(ConfigError::NotATable { field: "qemu".to_string() });
        },
    };
    assert(q@ == cfg_table(config@, "qemu"@)->0);
    let blk = parse_cfg_string(q, "blk", "n")?;
    let net = parse_cfg_string(q, "net", "n")?;
    let graphic = parse_cfg_string(q, "graphic", "n")?;
    let bus = if same_text(arch, "x86_64") {
        "pci".to_string()
    } else {
        "mmio".to_string()
    };
    let disk_img = parse_cfg_string(q, "disk_img", "disk.img")?;
    let v9p = parse_cfg_string(q, "v9p", "n")?;
    let v9p_path = parse_cfg_string(q, "v9p_path", "./")?;
    let lowered = lowercase(host_release);
    let accel = accel_for(arch, lowered.as_str());
    let qemu_log = parse_cfg_string(q, "qemu_log", "n")?;
    let net_dump = parse_cfg_string(q, "net_dump", "n")?;
    let net_dev = parse_cfg_string(q, "net_dev", "user")?;
    let ip = parse_cfg_string(q, "ip", "10.0.2.15")?;
    let gw = parse_cfg_string(q, "gw", "10.0.2.2")?;
    let args = parse_cfg_string(q, "args", "")?;
    let envs = parse_cfg_string(q, "envs", "")?;
    Ok(
        QemuConfig {
            blk,
            net,
            graphic,
            bus,
            disk_img,
            v9p,
            v9p_path,
            accel,
            qemu_log,
            net_dump,
            net_dev,
            ip,
            gw,
            args,
            envs,
        },
    )
}


/// The toolchain triple of a supported architecture.
pub open spec fn target_triple(arch: Seq<char>) -> Option<Seq<char>> {
    if arch == "x86_64"@ {
        Some("x86_64-unknown-none"@)
    } else if arch == "riscv64"@ {
        Some("riscv64gc-unknown-none-elf"@)
    } else if arch == "aarch64"@ {
        Some("aarch64-unknown-none-softfloat"@)
    } else {
        None
    }
}

/// The platform name that an OS table gives, with its default.
pub open spec fn platform_name(p: Seq<TomlEntry>) -> Option<Seq<char>> {
    cfg_string(p, "name"@, "x86_64-qemu-q35"@)
}

/// The `platform` table of OS table `os` is well-formed.
pub open spec fn platform_ok(os: Seq<TomlEntry>) -> bool {
    let pt = cfg_table(os, "platform"@);
    &&& pt is Some
    &&& platform_name(pt->0) is Some
    &&& target_triple(first_token(platform_name(pt->0)->0, '-')) is Some
    &&& cfg_string(pt->0, "smp"@, seq![]) is Some
    &&& cfg_string(pt->0, "mode"@, seq![]) is Some
    &&& cfg_string(pt->0, "log"@, seq![]) is Some
    &&& cfg_string(pt->0, "v"@, seq![]) is Some
    &&& has_token(platform_name(pt->0)->0, "qemu"@) ==> cfg_table(pt->0, "qemu"@) is Some
        && qemu_strings_ok(cfg_table(pt->0, "qemu"@)->0)
}

/// `c` holds the platform settings that OS table `os` gives, on a host whose
/// kernel release is `release`.
pub open spec fn platform_parsed(c: PlatformConfig, os: Seq<TomlEntry>, release: Seq<char>) -> bool {
    let p = cfg_table(os, "platform"@)->0;
    &&& c.name@ == platform_name(p)->0
    &&& c.arch@ == first_token(c.name@, '-')
    &&& c.cross_compile@ == c.arch@ + "-linux-musl-"@
    &&& c.target@ == target_triple(c.arch@)->0
    &&& c.smp@ == cfg_string(p, "smp"@, "1"@)->0
    &&& c.mode@ == cfg_string(p, "mode"@, "release"@)->0
    &&& c.log@ == cfg_string(p, "log"@, "warn"@)->0
    &&& c.v@ == cfg_string(p, "v"@, ""@)->0
    &&& if has_token(c.name@, "qemu"@) {
        qemu_parsed(c.qemu, c.arch@, cfg_table(p, "qemu"@)->0, release)
    } else {
        qemu_empty(c.qemu)
    }
}

/// `e` reports why the `platform` table of OS table `os` was refused: the
/// first check that failed, in the order they are made.
pub open spec fn platform_failure(os: Seq<TomlEntry>, e: ConfigError) -> bool {
    let pt = cfg_table(os, "platform"@);
    if pt is None {
        not_a_table(e, "platform"@)
    } else if platform_name(pt->0) is None {
        not_a_string(e, "name"@)
    } else if target_triple(first_token(platform_name(pt->0)->0, '-')) is None {
        e matches ConfigError::UnsupportedArch { arch } && arch@ == first_token(
            platform_name(pt->0)->0,
            '-',
        )
    } else if cfg_string(pt->0, "smp"@, seq![]) is None {
        not_a_string(e, "smp"@)
    } else if cfg_string(pt->0, "mode"@, seq![]) is None {
        not_a_string(e, "mode"@)
    } else if cfg_string(pt->0, "log"@, seq![]) is None {
        not_a_string(e, "log"@)
    } else if cfg_string(pt->0, "v"@, seq![]) is None {
        not_a_string(e, "v"@)
    } else {
        qemu_failure(pt->0, e)
    }
}

/// The toolchain triple of `arch`, where it is supported.
pub fn target_for(arch: &str) -> (r: Option<String>)
    ensures
        r is Some <==> target_triple(arch@) is Some,
        r matches Some(t) ==> t@ == target_triple(arch@)->0,
{
    if same_text(arch, "x86_64") {
        Some("x86_64-unknown-none".to_string())
    } else if same_text(arch, "riscv64") {
        Some("riscv64gc-unknown-none-elf".to_string())
    } else if same_text(arch, "aarch64") {
        Some("aarch64-unknown-none-softfloat".to_string())
    } else {
        None
    }
}

/// Reads the `platform` table of OS table `config`, on a host whose kernel
/// release is `host_release`. The architecture is the platform name's part
/// before its first `-`; QEMU settings are read only where one of the
/// name's `-`-separated tokens is `qemu`.
pub fn parse_platform(config: &Vec<TomlEntry>, host_release: &str) -> (r: Result<
    PlatformConfig,
    ConfigError,
>)
    ensures
        r is Ok <==> platform_ok(config@),
        r matches Ok(c) ==> platform_parsed(c, config@, host_release@),
        r matches Err(e) ==> platform_failure(config@, e),
{
    let empty: Vec<TomlEntry> = Vec::new();
    let p: &Vec<TomlEntry> = match get(config, "platform") {
        None => &empty,
        Some(TomlValue::Table(t)) => t,
        Some(_) => {
            return Err(ConfigError::NotATable { field: "platform".to_string() });
        },
    };
    assert(p@ == cfg_table(config@, "platform"@)->0);
    let name = parse_cfg_string(p, "name", "x86_64-qemu-q35")?;
    let arch = first_part(name.as_str(), '-');
    let cross_compile = arch.clone().concat("-linux-musl-");
    let target = match target_for(arch.as_str()) {
        Some(t) => t,
        None => {
            return Err(ConfigError::UnsupportedArch { arch });
        },
    };
    let smp = parse_cfg_string(p, "smp", "1")?;
    let mode = parse_cfg_string(p, "mode", "release")?;
    let log = parse_cfg_string(p, "log", "warn")?;
    let v = parse_cfg_string(p, "v", "")?;
    let qemu = if contains_token(name.as_str(), "qemu") {
        parse_qemu(arch.as_str(), p, host_release)?
    } else {
        empty_qemu()
    };
    Ok(PlatformConfig { name, arch, cross_compile, target, smp, mode, log, v, qemu })
}

/// Build settings: the compiler, and the packages declared as
/// `"<repo> <branch>"` coordinates.
#[derive(Debug, Clone)]
pub struct BuildConfig {
    pub compiler: String,
    pub packages: Vec<String>,
}

/// Settings of the operating system being built.
#[derive(Debug, Default, PartialEq, Eq)]
pub struct OSConfig {
    pub name: String,
    pub features: Vec<String>,
    pub ulib: String,
    pub platform: PlatformConfig,
}

/// A target kind that the configuration accepts.
pub open spec fn valid_kind(k: Seq<char>) -> bool {
    k == "exe"@ || k == "dll"@ || k == "static"@ || k == "object"@
}

/// Every field of target table `t` has the shape it must have.
pub open spec fn target_ok(t: Seq<TomlEntry>) -> bool {
    &&& cfg_string(t, "name"@, seq![]) is Some
    &&& cfg_string(t, "src"@, seq![]) is Some
    &&& cfg_vector(t, "src_excluded"@) is Some
    &&& cfg_string(t, "include_dir"@, seq![]) is Some
    &&& cfg_string(t, "type"@, seq![]) is Some
    &&& cfg_string(t, "cflags"@, seq![]) is Some
    &&& cfg_string(t, "archive"@, seq![]) is Some
    &&& cfg_string(t, "ldflags"@, seq![]) is Some
    &&& cfg_vector(t, "deps"@) is Some
    &&& valid_kind(cfg_string(t, "type"@, ""@)->0)
}

/// `c` holds what target table `t` gives, defaults included.
pub open spec fn target_parsed(c: TargetConfig, t: Seq<TomlEntry>) -> bool {
    &&& c.name@ == cfg_string(t, "name"@, ""@)->0
    &&& c.src@ == cfg_string(t, "src"@, ""@)->0
    &&& views(c.src_excluded@) == cfg_vector(t, "src_excluded"@)->0
    &&& c.include_dir@ == cfg_string(t, "include_dir"@, "./"@)->0
    &&& c.typ@ == cfg_string(t, "type"@, ""@)->0
    &&& c.cflags@ == cfg_string(t, "cflags"@, ""@)->0
    &&& c.archive@ == cfg_string(t, "archive"@, ""@)->0
    &&& c.ldflags@ == cfg_string(t, "ldflags"@, ""@)->0
    &&& views(c.deps@) == cfg_vector(t, "deps"@)->0
}

/// `e` reports why target table `t` was refused: the first field that has
/// the wrong shape, in the order they are read, or else its kind.
pub open spec fn target_failure(t: Seq<TomlEntry>, e: ConfigError) -> bool {
    if cfg_string(t, "name"@, seq![]) is None {
        not_a_string(e, "name"@)
    } else if cfg_string(t, "src"@, seq![]) is None {
        not_a_string(e, "src"@)
    } else if cfg_vector(t, "src_excluded"@) is None {
        bad_array(e, "src_excluded"@)
    } else if cfg_string(t, "include_dir"@, seq![]) is None {
        not_a_string(e, "include_dir"@)
    } else if cfg_string(t, "type"@, seq![]) is None {
        not_a_string(e, "type"@)
    } else if cfg_string(t, "cflags"@, seq![]) is None {
        not_a_string(e, "cflags"@)
    } else if cfg_string(t, "archive"@, seq![]) is None {
        not_a_string(e, "archive"@)
    } else if cfg_string(t, "ldflags"@, seq![]) is None {
        not_a_string(e, "ldflags"@)
    } else if cfg_vector(t, "deps"@) is None {
        bad_array(e, "deps"@)
    } else {
        e matches ConfigError::InvalidTargetType { target } && target@ == cfg_string(
            t,
            "name"@,
            ""@,
        )->0
    }
}

/// Reads one target table.
pub fn parse_target(t: &Vec<TomlEntry>) -> (r: Result<TargetConfig, ConfigError>)
    ensures
        r is Ok <==> target_ok(t@),
        r matches Ok(c) ==> target_parsed(c, t@),
        r matches Err(e) ==> target_failure(t@, e),
{
    let name = parse_cfg_string(t, "name", "")?;
    let src = parse_cfg_string(t, "src", "")?;
    let src_excluded = parse_cfg_vector(t, "src_excluded")?;
    let include_dir = parse_cfg_string(t, "include_dir", "./")?;
    let typ = parse_cfg_string(t, "type", "")?;
    let cflags = parse_cfg_string(t, "cflags", "")?;
    let archive = parse_cfg_string(t, "archive", "")?;
    let ldflags = parse_cfg_string(t, "ldflags", "")?;
    let deps = parse_cfg_vector(t, "deps")?;
    if !same_text(typ.as_str(), "exe") && !same_text(typ.as_str(), "dll") && !same_text(
        typ.as_str(),
        "static",
    ) && !same_text(typ.as_str(), "object") {
        return Err(ConfigError::InvalidTargetType { target: name });
    }
    Ok(
        TargetConfig {
            name,
            src,
            src_excluded,
            include_dir,
            typ,
            cflags,
            archive,
            ldflags,
            deps,
        },
    )
}

/// The entries of a table value; no entries for any other value.
pub open spec fn table_entries(v: TomlValue) -> Seq<TomlEntry> {
    match v {
        TomlValue::Table(t) => t@,
        _ => Seq::empty(),
    }
}

/// The name that target value `v` reads as.
pub open spec fn item_name(v: TomlValue) -> Seq<char> {
    cfg_string(table_entries(v), "name"@, ""@)->0
}

/// Target value `v` is a well-formed table.
pub open spec fn item_ok(v: TomlValue) -> bool {
    v is Table && target_ok(table_entries(v))
}

/// `e` reports why target value `v` was refused.
pub open spec fn item_failure(v: TomlValue, e: ConfigError) -> bool {
    if v is Table {
        target_failure(table_entries(v), e)
    } else {
        not_a_table(e, "targets"@)
    }
}

/// `e` reports why target list `items` was refused: the first target that
/// is refused; else that there is none; else a name that two targets share.
pub open spec fn targets_failure(items: Seq<TomlValue>, e: ConfigError) -> bool {
    if exists|k: int| 0 <= k < items.len() && !item_ok(#[trigger] items[k]) {
        exists|k: int|
            0 <= k < items.len() && !item_ok(#[trigger] items[k]) && (forall|j: int|
                0 <= j < k ==> item_ok(#[trigger] items[j])) && item_failure(items[k], e)
    } else if items.len() == 0 {
        e is NoTargets
    } else {
        e matches ConfigError::DuplicateTargetName { name } && exists|i: int, j: int|
            0 <= i < j < items.len() && item_name(#[trigger] items[i]) == name@ && item_name(
                #[trigger] items[j],
            ) == name@
    }
}

/// The target list of a document is well-formed: at least one target,
/// each a well-formed table, no two with the same name.
pub open spec fn targets_ok(items: Seq<TomlValue>) -> bool {
    &&& items.len() > 0
    &&& forall|k: int|
        0 <= k < items.len() ==> #[trigger] items[k] is Table && target_ok(table_entries(items[k]))
    &&& forall|i: int, j: int|
        0 <= i < j < items.len() ==> #[trigger] item_name(items[i]) != #[trigger] item_name(items[j])
}

/// `ts` holds, in order, the targets that `items` give.
pub open spec fn parsed_from(ts: Seq<TargetConfig>, items: Seq<TomlValue>) -> bool {
    &&& ts.len() == items.len()
    &&& forall|k: int| 0 <= k < ts.len() ==> #[trigger] target_parsed(ts[k], table_entries(items[k]))
}

/// Two positions of `ts` whose targets share a name, if any.
fn duplicate_name(ts: &Vec<TargetConfig>) -> (r: Option<(usize, usize)>)
    ensures
        r matches Some((i, j)) ==> i < j < ts@.len() && ts@[i as int].name@ == ts@[j as int].name@,
        r is None ==> forall|a: int, b: int|
            0 <= a < b < ts@.len() ==> #[trigger] ts@[a].name@ != #[trigger] ts@[b].name@,
{
    let mut i: usize = 0;
    while i < ts.len()
        invariant
            i <= ts@.len(),
            forall|a: int, b: int|
                0 <= a < b < ts@.len() && a < i ==> #[trigger] ts@[a].name@ != #[trigger] ts@[b].name@,
        decreases ts.len() - i,
    {
        let mut j: usize = i + 1;
        while j < ts.len()
            invariant
                i < ts@.len(),
                i < j <= ts@.len(),
                forall|a: int, b: int|
                    0 <= a < b < ts@.len() && a < i ==> #[trigger] ts@[a].name@ != #[trigger] ts@[b].name@,
                forall|b: int| i < b < j ==> ts@[i as int].name@ != #[trigger] ts@[b].name@,
            decreases ts.len() - j,
        {
            if same_text(ts[i].name.as_str(), ts[j].name.as_str()) {
                return Some((i, j));
            }
            j += 1;
        }
        i += 1;
    }
    None
}

/// Reads a list of target tables, in order, and checks that their names
/// are distinct.
pub fn parse_targets(items: &Vec<TomlValue>) -> (r: Result<Vec<TargetConfig>, ConfigError>)
    ensures
        r is Ok <==> targets_ok(items@),
        r matches Ok(ts) ==> parsed_from(ts@, items@),
        r matches Err(e) ==> targets_failure(items@, e),
{
    let mut out: Vec<TargetConfig> = Vec::new();
    let mut k: usize = 0;
    while k < items.len()
        invariant
            k <= items@.len(),
            out@.len() == k,
            forall|j: int| 0 <= j < k ==> #[trigger] items@[j] is Table && target_ok(table_entries(items@[j])),
            forall|j: int| 0 <= j < k ==> #[trigger] target_parsed(out@[j], table_entries(items@[j])),
        decreases items.len() - k,
    {
        match &items[k] {
            TomlValue::Table(t) => {
                let c = match parse_target(t) {
                    Ok(c) => c,
                    Err(e) => {
                        assert(!item_ok(items@[k as int]) && item_failure(items@[k as int], e));
                        assert(forall|j: int| 0 <= j < k ==> item_ok(#[trigger] items@[j]));
                        return Err(e);
                    },
                };
                out.push(c);
            },
            _ => {
                assert(!item_ok(items@[k as int]));
                assert(forall|j: int| 0 <= j < k ==> item_ok(#[trigger] items@[j]));
                return Err(ConfigError::NotATable { field: "targets".to_string() });
            },
        }
        k += 1;
    }
    if out.len() == 0 {
        return Err(ConfigError::NoTargets);
    }
    match duplicate_name(&out) {
        Some((i, j)) => {
            proof {
                assert(target_parsed(out@[i as int], table_entries(items@[i as int])));
                assert(target_parsed(out@[j as int], table_entries(items@[j as int])));
                assert(item_name(items@[i as int]) == item_name(items@[j as int]));
                assert(!targets_ok(items@));
                assert(forall|k: int| 0 <= k < items@.len() ==> item_ok(#[trigger] items@[k]));
            }
            return Err(ConfigError::DuplicateTargetName { name: out[i].name.clone() });
        },
        None => {
            proof {
                assert forall|a: int, b: int| 0 <= a < b < items@.len() implies #[trigger] item_name(items@[a])
                    != #[trigger] item_name(items@[b]) by {
                    assert(target_parsed(out@[a], table_entries(items@[a])));
                    assert(target_parsed(out@[b], table_entries(items@[b])));
                }
            }
        },
    }
    Ok(out)
}


/// A service that needs file descriptors.
pub open spec fn fd_service(f: Seq<char>) -> bool {
    f == "fs"@ || f == "net"@ || f == "pipe"@ || f == "select"@ || f == "poll"@ || f == "epoll"@
}

/// The features of an OS: its services; then `fd` where a service needs
/// file descriptors; then `musl`, `fp_simd`, `fd` and `tls` where the user
/// library is `ruxmusl`.
pub open spec fn os_features(services: Seq<Seq<char>>, ulib: Seq<char>) -> Seq<Seq<char>> {
    let a = if exists|i: int| 0 <= i < services.len() && #[trigger] fd_service(services[i]) {
        services.push("fd"@)
    } else {
        services
    };
    if ulib == "ruxmusl"@ {
        a + seq!["musl"@, "fp_simd"@, "fd"@, "tls"@]
    } else {
        a
    }
}

/// OS table `os` is well-formed.
pub open spec fn os_ok(os: Seq<TomlEntry>) -> bool {
    &&& cfg_string(os, "name"@, seq![]) is Some
    &&& cfg_string(os, "ulib"@, seq![]) is Some
    &&& cfg_vector(os, "services"@) is Some
    &&& platform_ok(os)
}

/// `c` holds what OS table `os` gives, on a host whose kernel release is
/// `release`.
pub open spec fn os_parsed(c: OSConfig, os: Seq<TomlEntry>, release: Seq<char>) -> bool {
    &&& c.name@ == cfg_string(os, "name"@, ""@)->0
    &&& c.ulib@ == cfg_string(os, "ulib"@, ""@)->0
    &&& views(c.features@) == os_features(cfg_vector(os, "services"@)->0, c.ulib@)
    &&& platform_parsed(c.platform, os, release)
}

/// `c` is the settings of a project that declares no OS: every field empty.
pub open spec fn os_empty(c: OSConfig) -> bool {
    &&& c.name@.len() == 0 && c.ulib@.len() == 0 && c.features@.len() == 0
    &&& c.platform.name@.len() == 0 && c.platform.arch@.len() == 0
    &&& c.platform.cross_compile@.len() == 0 && c.platform.target@.len() == 0
    &&& c.platform.smp@.len() == 0 && c.platform.mode@.len() == 0
    &&& c.platform.log@.len() == 0 && c.platform.v@.len() == 0
    &&& qemu_empty(c.platform.qemu)
}

/// The features that `services` and `ulib` give.
pub fn os_feature_list(services: Vec<String>, ulib: &str) -> (r: Vec<String>)
    ensures
        views(r@) == os_features(views(services@), ulib@),
{
    let ghost sv = views(services@);
    let mut features = services;
    let mut needs_fd = false;
    let mut i: usize = 0;
    while i < features.len()
        invariant
            features@ == services@,
            sv == views(services@),
            i <= features@.len(),
            needs_fd == exists|j: int| 0 <= j < i && #[trigger] fd_service(sv[j]),
        decreases features.len() - i,
    {
        let f = features[i].as_str();
        if same_text(f, "fs") || same_text(f, "net") || same_text(f, "pipe") || same_text(f, "select")
            || same_text(f, "poll") || same_text(f, "epoll") {
            assert(fd_service(sv[i as int]));
            needs_fd = true;
        } else {
            assert(!fd_service(sv[i as int]));
        }
        i += 1;
    }
    let ghost a = features@;
    if needs_fd {
        features.push("fd".to_string());
        assert(views(features@) =~= sv.push("fd"@));
    }
    let ghost b = views(features@);
    if same_text(ulib, "ruxmusl") {
        features.push("musl".to_string());
        features.push("fp_simd".to_string());
        features.push("fd".to_string());
        features.push("tls".to_string());
        assert(views(features@) =~= b + seq!["musl"@, "fp_simd"@, "fd"@, "tls"@]);
    }
    features
}

/// `e` reports why OS table `os` was refused: the first check that failed,
/// in the order they are made.
pub open spec fn os_failure(os: Seq<TomlEntry>, e: ConfigError) -> bool {
    if cfg_string(os, "name"@, seq![]) is None {
        not_a_string(e, "name"@)
    } else if cfg_string(os, "ulib"@, seq![]) is None {
        not_a_string(e, "ulib"@)
    } else if cfg_vector(os, "services"@) is None {
        bad_array(e, "services"@)
    } else {
        platform_failure(os, e)
    }
}

/// Reads a non-empty OS table, on a host whose kernel release is
/// `host_release`.
pub fn parse_os(os: &Vec<TomlEntry>, host_release: &str) -> (r: Result<OSConfig, ConfigError>)
    ensures
        r is Ok <==> os_ok(os@),
        r matches Ok(c) ==> os_parsed(c, os@, host_release@),
        r matches Err(e) ==> os_failure(os@, e),
{
    let name = parse_cfg_string(os, "name", "")?;
    let ulib = parse_cfg_string(os, "ulib", "")?;
    let services = parse_cfg_vector(os, "services")?;
    let features = os_feature_list(services, ulib.as_str());
    let platform = parse_platform(os, host_release)?;
    Ok(OSConfig { name, features, ulib, platform })
}

/// The settings of a project that declares no OS.
pub fn empty_os() -> (r: OSConfig)
    ensures
        os_empty(r),
{
    OSConfig {
        name: String::new(),
        features: Vec::new(),
        ulib: String::new(),
        platform: PlatformConfig {
            name: String::new(),
            arch: String::new(),
            cross_compile: String::new(),
            target: String::new(),
            smp: String::new(),
            mode: String::new(),
            log: String::new(),
            v: String::new(),
            qemu: empty_qemu(),
        },
    }
}

/// The `build` table of a document.
pub open spec fn build_table(doc: Seq<TomlEntry>) -> Option<Seq<TomlEntry>> {
    match lookup(doc, "build"@) {
        Some(TomlValue::Table(t)) => Some(t@),
        _ => None,
    }
}

/// The compiler that a `build` table names.
pub open spec fn compiler_of(b: Seq<TomlEntry>) -> Option<Seq<char>> {
    match lookup(b, "compiler"@) {
        Some(TomlValue::Str(s)) => Some(s@),
        _ => None,
    }
}

/// The `os` section of a document: `Some(None)` where it is absent or an
/// empty table, `None` where it is no table.
pub open spec fn os_section(doc: Seq<TomlEntry>) -> Option<Option<Seq<TomlEntry>>> {
    match lookup(doc, "os"@) {
        None => Some(None),
        Some(TomlValue::Table(t)) => if t@.len() == 0 {
            Some(None)
        } else {
            Some(Some(t@))
        },
        Some(_) => None,
    }
}

/// The target list of a document.
pub open spec fn target_items(doc: Seq<TomlEntry>) -> Option<Seq<TomlValue>> {
    match lookup(doc, "targets"@) {
        Some(TomlValue::Array(a)) => Some(a@),
        _ => None,
    }
}

/// Every section and field of a configuration document has the shape it
/// must have.
pub open spec fn document_ok(doc: Seq<TomlEntry>) -> bool {
    &&& build_table(doc) is Some
    &&& compiler_of(build_table(doc)->0) is Some
    &&& cfg_vector(build_table(doc)->0, "packages"@) is Some
    &&& os_section(doc) is Some
    &&& (os_section(doc)->0 is Some ==> os_ok(os_section(doc)->0->0))
    &&& target_items(doc) is Some
    &&& targets_ok(target_items(doc)->0)
}

/// `b`, `o` and `ts` hold what document `doc` gives, on a host whose kernel
/// release is `release`, with the targets in build order.
pub open spec fn config_parsed(
    b: BuildConfig,
    o: OSConfig,
    ts: Seq<TargetConfig>,
    doc: Seq<TomlEntry>,
    release: Seq<char>,
) -> bool {
    let bt = build_table(doc)->0;
    &&& views(b.packages@) == cfg_vector(bt, "packages"@)->0
    &&& if os_section(doc)->0 is Some {
        &&& os_parsed(o, os_section(doc)->0->0, release)
        &&& b.compiler@ == o.platform.cross_compile@ + compiler_of(bt)->0
    } else {
        &&& os_empty(o)
        &&& b.compiler@ == compiler_of(bt)->0
    }
    &&& exists|p: Seq<TargetConfig>|
        parsed_from(p, target_items(doc)->0) && ts.to_multiset() == p.to_multiset()
            && dependency_ordered(ts)
}

/// `e` reports why document `doc` was refused: the first section or field
/// that has the wrong shape, in the order they are read; for a well-formed
/// document, a dependency cycle among its targets.
pub open spec fn document_failure(doc: Seq<TomlEntry>, e: ConfigError) -> bool {
    match lookup(doc, "build"@) {
        None => missing(e, "build"@),
        Some(TomlValue::Table(b)) => match lookup(b@, "compiler"@) {
            None => missing(e, "compiler"@),
            Some(TomlValue::Str(_)) => if cfg_vector(b@, "packages"@) is None {
                bad_array(e, "packages"@)
            } else if os_section(doc) is None {
                not_a_table(e, "os"@)
            } else if os_section(doc)->0 is Some && !os_ok(os_section(doc)->0->0) {
                os_failure(os_section(doc)->0->0, e)
            } else {
                match lookup(doc, "targets"@) {
                    None => missing(e, "targets"@),
                    Some(TomlValue::Array(items)) => if targets_ok(items@) {
                        e is CircularDependency
                    } else {
                        targets_failure(items@, e)
                    },
                    Some(_) => e matches ConfigError::NotAnArray { field } && field@ == "targets"@,
                }
            },
            Some(_) => not_a_string(e, "compiler"@),
        },
        Some(_) => not_a_table(e, "build"@),
    }
}

/// What parsing document `doc` on a host whose kernel release is `release`
/// gives: success exactly on a well-formed document whose targets hold no
/// dependency cycle, with the settings it gives; otherwise the error that
/// `document_failure` names.
pub open spec fn document_outcome(
    doc: Seq<TomlEntry>,
    release: Seq<char>,
    r: Result<(BuildConfig, OSConfig, Vec<TargetConfig>), ConfigError>,
) -> bool {
    &&& r is Ok ==> document_ok(doc)
    &&& document_ok(doc) ==> (r is Ok || (r matches Err(e) && e is CircularDependency))
    &&& r matches Ok((b, o, ts)) ==> config_parsed(b, o, ts@, doc, release)
    &&& (r matches Err(e) && e is CircularDependency) ==> exists|p: Seq<TargetConfig>|
        parsed_from(p, target_items(doc)->0) && has_cycle(p)
    &&& r matches Err(e) ==> document_failure(doc, e)
}

/// Reads a parsed configuration document, on a host whose kernel release is
/// `host_release`. Where an OS is declared, its cross-compile prefix is put
/// before the compiler. The targets come back in build order: each after
/// every target it depends on.
pub fn parse_document(doc: &Vec<TomlEntry>, host_release: &str) -> (r: Result<
    (BuildConfig, OSConfig, Vec<TargetConfig>),
    ConfigError,
>)
    ensures
        document_outcome(doc@, host_release@, r),
{
    let b = match get(doc, "build") {
        Some(TomlValue::Table(b)) => b,
        None => {
            return Err(ConfigError::Missing { field: "build".to_string() });
        },
        Some(_) => {
            return Err(ConfigError::NotATable { field: "build".to_string() });
        },
    };
    let compiler = match get(b, "compiler") {
        Some(TomlValue::Str(c)) => c.clone(),
        None => {
            return Err(ConfigError::Missing { field: "compiler".to_string() });
        },
        Some(_) => {
            return Err(ConfigError::NotAString { field: "compiler".to_string() });
        },
    };
    let packages = parse_cfg_vector(b, "packages")?;
    let (compiler, os_config) = match get(doc, "os") {
        Some(TomlValue::Table(os)) => {
            if os.len() == 0 {
                (compiler, empty_os())
            } else {
                let o = parse_os(os, host_release)?;
                (o.platform.cross_compile.clone().concat(compiler.as_str()), o)
            }
        },
        None => (compiler, empty_os()),
        Some(_) => {
            return Err(ConfigError::NotATable { field: "os".to_string() });
        },
    };
    let build_config = BuildConfig { compiler, packages };
    let items = match get(doc, "targets") {
        Some(TomlValue::Array(items)) => items,
        None => {
            return Err(ConfigError::Missing { field: "targets".to_string() });
        },
        Some(_) => {
            return Err(ConfigError::NotAnArray { field: "targets".to_string() });
        },
    };
    let tgt = parse_targets(items)?;
    let arranged = TargetConfig::arrange_targets(tgt)?;
    Ok((build_config, os_config, arranged))
}

/// Parses the configuration document `text` of a project, on a host whose
/// kernel release is `host_release`: `Malformed` where it is not TOML, else
/// what `parse_document` gives for it.
pub fn parse_config(text: &str, host_release: &str) -> (r: Result<
    (BuildConfig, OSConfig, Vec<TargetConfig>),
    ConfigError,
>)
    ensures
        (r matches Err(e) && e is Malformed) <==> toml_document(text@) is None,
        toml_document(text@) matches Some(doc) ==> document_outcome(doc, host_release@, r),
{
    match parse_toml(text) {
        Some(d) => parse_document(&d, host_release),
        None => Err(ConfigError::Malformed),
    }
}


/// Two of `names` are the same.
pub open spec fn has_duplicate(names: Seq<String>) -> bool {
    exists|i: int, j: int| 0 <= i < j < names.len() && #[trigger] names[i]@ == #[trigger] names[j]@
}

/// A name that occurs twice among the source file names of a target, if
/// any.
pub fn find_duplicate_source(names: &Vec<String>) -> (r: Option<String>)
    ensures
        r is Some <==> has_duplicate(names@),
        r matches Some(n) ==> exists|i: int, j: int|
            0 <= i < j < names@.len() && names@[i]@ == n@ && names@[j]@ == n@,
{
    let mut i: usize = 0;
    while i < names.len()
        invariant
            i <= names@.len(),
            forall|a: int, b: int| 0 <= a < b < names@.len() && a < i ==> #[trigger] names@[a]@ != #[trigger] names@[b]@,
        decreases names.len() - i,
    {
        let mut j: usize = i + 1;
        while j < names.len()
            invariant
                i < names@.len(),
                i < j <= names@.len(),
                forall|a: int, b: int| 0 <= a < b < names@.len() && a < i ==> #[trigger] names@[a]@ != #[trigger] names@[b]@,
                forall|b: int| i < b < j ==> names@[i as int]@ != #[trigger] names@[b]@,
            decreases names.len() - j,
        {
            if same_text(names[i].as_str(), names[j].as_str()) {
                return Some(names[i].clone());
            }
            j += 1;
        }
        i += 1;
    }
    None
}

/// The names of the targets, among `(target name, source file names)`
/// pairs, that have no source file, in order.
pub open spec fn sourceless(ps: Seq<(String, Vec<String>)>) -> Seq<Seq<char>>
    decreases ps.len(),
{
    if ps.len() == 0 {
        Seq::empty()
    } else if ps.last().1@.len() == 0 {
        sourceless(ps.drop_last()).push(ps.last().0@)
    } else {
        sourceless(ps.drop_last())
    }
}

/// Checks the source file names of each target, given as `(target name,
/// source file names)` pairs: fails on the first target in which two
/// source files share a name; else returns the names of the targets that
/// have no source file, which deserve a warning.
pub fn check_sources(sources: &Vec<(String, Vec<String>)>) -> (r: Result<Vec<String>, ConfigError>)
    ensures
        r is Err <==> exists|k: int| 0 <= k < sources@.len() && has_duplicate(#[trigger] sources@[k].1@),
        r matches Ok(w) ==> views(w@) == sourceless(sources@),
        r matches Err(e) ==> exists|k: int|
            0 <= k < sources@.len() && has_duplicate(#[trigger] sources@[k].1@) && (forall|j: int|
                0 <= j < k ==> !has_duplicate(#[trigger] sources@[j].1@)) && (
            e matches ConfigError::DuplicateSource { target, file } && target@ == sources@[k].0@
                && exists|a: int, b: int|
                0 <= a < b < sources@[k].1@.len() && sources@[k].1@[a]@ == file@
                    && sources@[k].1@[b]@ == file@),
{
    let mut w: Vec<String> = Vec::new();
    let mut k: usize = 0;
    assert(sources@.subrange(0, 0) =~= Seq::<(String, Vec<String>)>::empty());
    assert(views(w@) =~= Seq::<Seq<char>>::empty());
    while k < sources.len()
        invariant
            k <= sources@.len(),
            forall|j: int| 0 <= j < k ==> !has_duplicate(#[trigger] sources@[j].1@),
            views(w@) == sourceless(sources@.subrange(0, k as int)),
        decreases sources.len() - k,
    {
        assert(sources@.subrange(0, k + 1).drop_last() =~= sources@.subrange(0, k as int));
        assert(sources@.subrange(0, k + 1).last() == sources@[k as int]);
        match find_duplicate_source(&sources[k].1) {
            Some(file) => {
                return Err(ConfigError::DuplicateSource { target: sources[k].0.clone(), file });
            },
            None => {},
        }
        if sources[k].1.len() == 0 {
            let ghost prev = w@;
            w.push(sources[k].0.clone());
            assert(views(w@) =~= views(prev).push(sources@[k as int].0@));
        }
        k += 1;
    }
    assert(sources@.subrange(0, sources@.len() as int) =~= sources@);
    Ok(w)
}

/// Whether every QEMU setting is empty.
pub fn qemu_is_empty(q: &QemuConfig) -> (r: bool)
    ensures
        r == qemu_empty(*q),
{
    q.blk.as_str().is_empty() && q.net.as_str().is_empty() && q.graphic.as_str().is_empty()
        && q.bus.as_str().is_empty() && q.disk_img.as_str().is_empty() && q.v9p.as_str().is_empty()
        && q.v9p_path.as_str().is_empty() && q.accel.as_str().is_empty()
        && q.qemu_log.as_str().is_empty() && q.net_dump.as_str().is_empty()
        && q.net_dev.as_str().is_empty() && q.ip.as_str().is_empty() && q.gw.as_str().is_empty()
        && q.args.as_str().is_empty() && q.envs.as_str().is_empty()
}

/// Every platform setting is empty: no platform was declared.
pub open spec fn platform_empty(p: PlatformConfig) -> bool {
    &&& p.name@.len() == 0 && p.arch@.len() == 0 && p.cross_compile@.len() == 0
    &&& p.target@.len() == 0 && p.smp@.len() == 0 && p.mode@.len() == 0
    &&& p.log@.len() == 0 && p.v@.len() == 0
    &&& qemu_empty(p.qemu)
}

/// Whether every platform setting is empty.
pub fn platform_is_empty(p: &PlatformConfig) -> (r: bool)
    ensures
        r == platform_empty(*p),
{
    p.name.as_str().is_empty() && p.arch.as_str().is_empty()
        && p.cross_compile.as_str().is_empty() && p.target.as_str().is_empty()
        && p.smp.as_str().is_empty() && p.mode.as_str().is_empty() && p.log.as_str().is_empty()
        && p.v.as_str().is_empty() && qemu_is_empty(&p.qemu)
}

/// Whether a file name is that of a C or C++ source file.
pub fn is_source_file(name: &str) -> (r: bool)
    ensures
        r == (ends_with(name@, ".cpp"@) || ends_with(name@, ".c"@)),
{
    has_suffix(name, ".cpp") || has_suffix(name, ".c")
}

} // verus!
