//! The QEMU command lines that run a built image: a normal one, and one
//! that waits for a debugger.
use vstd::prelude::*;
use vstd::string::StringExecFns;
use crate::config::{views, PlatformConfig, QemuConfig};
use crate::error::ConfigError;
use crate::text::same_text;

verus! {

/// The device-name suffix of an emulator bus.
pub open spec fn vdev_suffix(bus: Seq<char>) -> Option<Seq<char>> {
    if bus == "mmio"@ {
        Some("device"@)
    } else if bus == "pci"@ {
        Some("pci"@)
    } else {
        None
    }
}

/// The machine arguments of an architecture, with the kernel image to load.
pub open spec fn machine_args(arch: Seq<char>, elf: Seq<char>, bin: Seq<char>) -> Option<Seq<Seq<char>>> {
    if arch == "x86_64"@ {
        Some(seq!["-machine"@, "q35"@, "-kernel"@, elf])
    } else if arch == "riscv64"@ {
        Some(seq!["-machine"@, "virt"@, "-bios"@, "default"@, "-kernel"@, bin])
    } else if arch == "aarch64"@ {
        Some(seq!["-cpu"@, "cortex-a72"@, "-machine"@, "virt"@, "-kernel"@, bin])
    } else {
        None
    }
}

/// The arguments of a network device kind.
pub open spec fn netdev_args(net_dev: Seq<char>) -> Option<Seq<Seq<char>>> {
    if net_dev == "user"@ {
        Some(seq!["-netdev"@, "user,id=net0,hostfwd=tcp::5555-:5555,hostfwd=udp::5555-:5555"@])
    } else if net_dev == "tap"@ {
        Some(seq!["-netdev"@, "tap,id=net0,ifname=tap0,script=no,downscript=no"@])
    } else {
        None
    }
}

/// The settings are ones the command lines can be built from.
pub open spec fn qemu_args_ok(q: QemuConfig, arch: Seq<char>) -> bool {
    &&& vdev_suffix(q.bus@) is Some
    &&& machine_args(arch, seq![], seq![]) is Some
    &&& (q.net@ == "y"@ ==> netdev_args(q.net_dev@) is Some)
}

/// The emulator, memory, CPU count, machine and kernel command line.
pub open spec fn head_args(q: QemuConfig, p: PlatformConfig, elf: Seq<char>, bin: Seq<char>) -> Seq<Seq<char>> {
    seq!["qemu-system-"@ + p.arch@, "-m"@, "128M"@, "-smp"@, p.smp@] + machine_args(p.arch@, elf, bin)->0
        + seq!["-append"@, "\";"@ + q.args@ + ";"@ + q.envs@ + "\""@]
}

/// The block device arguments.
pub open spec fn blk_args(q: QemuConfig, sfx: Seq<char>) -> Seq<Seq<char>> {
    if q.blk@ == "y"@ {
        seq![
            "-device"@,
            "virtio-blk-"@ + sfx + ",drive=disk0"@,
            "-drive"@,
            "id=disk0,if=none,format=raw,file="@ + q.disk_img@,
        ]
    } else {
        seq![]
    }
}

/// The 9P file system arguments.
pub open spec fn v9p_args(q: QemuConfig, sfx: Seq<char>) -> Seq<Seq<char>> {
    if q.v9p@ == "y"@ {
        seq![
            "-fsdev"@,
            "local,id=myid,path="@ + q.v9p_path@ + ",security_model=none"@,
            "-device"@,
            "virtio-9p-"@ + sfx + ",fsdev=myid,mount_tag=rootfs"@,
        ]
    } else {
        seq![]
    }
}

/// The network arguments.
pub open spec fn net_args(q: QemuConfig, sfx: Seq<char>) -> Seq<Seq<char>> {
    if q.net@ == "y"@ {
        seq!["-device"@, "virtio-net-"@ + sfx + ",netdev=net0"@] + netdev_args(q.net_dev@)->0 + if q.net_dump@
            == "y"@ {
            seq!["-object"@, "filter-dump,id=dump0,netdev=net0,file=netdump.pcap"@]
        } else {
            seq![]
        }
    } else {
        seq![]
    }
}

/// The display arguments.
pub open spec fn graphic_args(q: QemuConfig, sfx: Seq<char>) -> Seq<Seq<char>> {
    if q.graphic@ == "y"@ {
        seq!["-device"@, "virtio-gpu-"@ + sfx, "-vga"@, "none"@, "-serial"@, "mon:stdio"@]
    } else if q.graphic@ == "n"@ {
        seq!["-nographic"@]
    } else {
        seq![]
    }
}

/// The emulator logging arguments.
pub open spec fn log_args(q: QemuConfig) -> Seq<Seq<char>> {
    if q.qemu_log@ == "y"@ {
        seq!["-D"@, "qemu.log"@, "-d"@, "in_asm,int,mmu,pcall,cpu_reset,guest_errors"@]
    } else {
        seq![]
    }
}

/// The arguments shared by both command lines.
pub open spec fn common_args(q: QemuConfig, p: PlatformConfig, elf: Seq<char>, bin: Seq<char>) -> Seq<Seq<char>> {
    let sfx = vdev_suffix(q.bus@)->0;
    head_args(q, p, elf, bin) + blk_args(q, sfx) + v9p_args(q, sfx) + net_args(q, sfx) + graphic_args(
        q,
        sfx,
    ) + log_args(q)
}

/// The acceleration arguments: host CPU with `hvf` on macOS hosts and
/// `kvm` elsewhere, where acceleration is on.
pub open spec fn accel_args(q: QemuConfig, host_is_mac: bool) -> Seq<Seq<char>> {
    if q.accel@ == "y"@ {
        seq!["-cpu"@, "host"@, "-accel"@, if host_is_mac { "hvf"@ } else { "kvm"@ }]
    } else {
        seq![]
    }
}

fn push_arg(v: &mut Vec<String>, s: String)
    ensures
        views(final(v)@) == views(old(v)@).push(s@),
{
    let ghost before = v@;
    v.push(s);
    assert(views(v@) =~= views(before).push(s@));
}

fn push_lit(v: &mut Vec<String>, s: &str)
    ensures
        views(final(v)@) == views(old(v)@).push(s@),
{
    push_arg(v, s.to_string());
}

fn cat(a: &str, b: &str) -> (r: String)
    ensures
        r@ == a@ + b@,
{
    a.to_string().concat(b)
}

fn push_head(
    a: &mut Vec<String>,
    q: &QemuConfig,
    p: &PlatformConfig,
    elf_path: &str,
    bin_path: &str,
) -> (ok: bool)
    ensures
        ok == (machine_args(p.arch@, elf_path@, bin_path@) is Some),
        ok ==> views(final(a)@) == views(old(a)@) + head_args(*q, *p, elf_path@, bin_path@),
{
    let ghost s0 = views(a@);
    let arch = p.arch.as_str();
    push_arg(a, cat("qemu-system-", arch));
    push_lit(a, "-m");
    push_lit(a, "128M");
    push_lit(a, "-smp");
    push_arg(a, p.smp.clone());
    let ghost s1 = views(a@);
    if same_text(arch, "x86_64") {
        push_lit(a, "-machine");
        push_lit(a, "q35");
        push_lit(a, "-kernel");
        push_lit(a, elf_path);
    } else if same_text(arch, "riscv64") {
        push_lit(a, "-machine");
        push_lit(a, "virt");
        push_lit(a, "-bios");
        push_lit(a, "default");
        push_lit(a, "-kernel");
        push_lit(a, bin_path);
    } else if same_text(arch, "aarch64") {
        push_lit(a, "-cpu");
        push_lit(a, "cortex-a72");
        push_lit(a, "-machine");
        push_lit(a, "virt");
        push_lit(a, "-kernel");
        push_lit(a, bin_path);
    } else {
        return false;
    }
    let ghost s2 = views(a@);
    assert(s2 =~= s1 + machine_args(arch@, elf_path@, bin_path@)->0);
    push_lit(a, "-append");
    let appended = cat(
        cat(cat(cat("\";", q.args.as_str()).as_str(), ";").as_str(), q.envs.as_str()).as_str(),
        "\"",
    );
    push_arg(a, appended);
    assert(views(a@) =~= s0 + head_args(*q, *p, elf_path@, bin_path@));
    true
}

fn push_blk(a: &mut Vec<String>, q: &QemuConfig, sfx: &str)
    ensures
        views(final(a)@) == views(old(a)@) + blk_args(*q, sfx@),
{
    let ghost s0 = views(a@);
    if same_text(q.blk.as_str(), "y") {
        push_lit(a, "-device");
        push_arg(a, cat(cat("virtio-blk-", sfx).as_str(), ",drive=disk0"));
        push_lit(a, "-drive");
        push_arg(a, cat("id=disk0,if=none,format=raw,file=", q.disk_img.as_str()));
    }
    assert(views(a@) =~= s0 + blk_args(*q, sfx@));
}

fn push_v9p(a: &mut Vec<String>, q: &QemuConfig, sfx: &str)
    ensures
        views(final(a)@) == views(old(a)@) + v9p_args(*q, sfx@),
{
    let ghost s0 = views(a@);
    if same_text(q.v9p.as_str(), "y") {
        push_lit(a, "-fsdev");
        push_arg(a, cat(cat("local,id=myid,path=", q.v9p_path.as_str()).as_str(), ",security_model=none"));
        push_lit(a, "-device");
        push_arg(a, cat(cat("virtio-9p-", sfx).as_str(), ",fsdev=myid,mount_tag=rootfs"));
    }
    assert(views(a@) =~= s0 + v9p_args(*q, sfx@));
}

fn push_net(a: &mut Vec<String>, q: &QemuConfig, sfx: &str) -> (ok: bool)
    ensures
        ok == (q.net@ == "y"@ ==> netdev_args(q.net_dev@) is Some),
        ok ==> views(final(a)@) == views(old(a)@) + net_args(*q, sfx@),
{
    let ghost s0 = views(a@);
    if same_text(q.net.as_str(), "y") {
        push_lit(a, "-device");
        push_arg(a, cat(cat("virtio-net-", sfx).as_str(), ",netdev=net0"));
        if same_text(q.net_dev.as_str(), "user") {
            push_lit(a, "-netdev");
            push_lit(a, "user,id=net0,hostfwd=tcp::5555-:5555,hostfwd=udp::5555-:5555");
        } else if same_text(q.net_dev.as_str(), "tap") {
            push_lit(a, "-netdev");
            push_lit(a, "tap,id=net0,ifname=tap0,script=no,downscript=no");
        } else {
            return false;
        }
        let ghost s1 = views(a@);
        if same_text(q.net_dump.as_str(), "y") {
            push_lit(a, "-object");
            push_lit(a, "filter-dump,id=dump0,netdev=net0,file=netdump.pcap");
        }
        assert(views(a@) =~= s0 + net_args(*q, sfx@));
    } else {
        assert(views(a@) =~= s0 + net_args(*q, sfx@));
    }
    true
}

fn push_graphic(a: &mut Vec<String>, q: &QemuConfig, sfx: &str)
    ensures
        views(final(a)@) == views(old(a)@) + graphic_args(*q, sfx@),
{
    let ghost s0 = views(a@);
    if same_text(q.graphic.as_str(), "y") {
        push_lit(a, "-device");
        push_arg(a, cat("virtio-gpu-", sfx));
        push_lit(a, "-vga");
        push_lit(a, "none");
        push_lit(a, "-serial");
        push_lit(a, "mon:stdio");
    } else if same_text(q.graphic.as_str(), "n") {
        push_lit(a, "-nographic");
    }
    assert(views(a@) =~= s0 + graphic_args(*q, sfx@));
}

fn push_log(a: &mut Vec<String>, q: &QemuConfig)
    ensures
        views(final(a)@) == views(old(a)@) + log_args(*q),
{
    let ghost s0 = views(a@);
    if same_text(q.qemu_log.as_str(), "y") {
        push_lit(a, "-D");
        push_lit(a, "qemu.log");
        push_lit(a, "-d");
        push_lit(a, "in_asm,int,mmu,pcall,cpu_reset,guest_errors");
    }
    assert(views(a@) =~= s0 + log_args(*q));
}

fn copy_args(a: &Vec<String>) -> (r: Vec<String>)
    ensures
        views(r@) == views(a@),
{
    let mut r: Vec<String> = Vec::new();
    let mut i: usize = 0;
    while i < a.len()
        invariant
            i <= a@.len(),
            views(r@) == views(a@).subrange(0, i as int),
        decreases a.len() - i,
    {
        push_arg(&mut r, a[i].clone());
        assert(views(a@).subrange(0, i + 1) =~= views(a@).subrange(0, i as int).push(a@[i as int]@));
        i += 1;
    }
    assert(views(a@).subrange(0, a@.len() as int) =~= views(a@));
    r
}

impl QemuConfig {
    /// The QEMU command line that runs the kernel image (`elf_path` on
    /// `x86_64`, `bin_path` elsewhere), and the one that also waits for a
    /// debugger. Acceleration applies to the first only.
    pub fn config_qemu(
        &self,
        platform_config: &PlatformConfig,
        elf_path: &str,
        bin_path: &str,
        host_is_mac: bool,
    ) -> (r: Result<(Vec<String>, Vec<String>), ConfigError>)
        ensures
            r is Ok <==> qemu_args_ok(*self, platform_config.arch@),
            r matches Err(e) ==> (e is UnsupportedBus <==> vdev_suffix(self.bus@) is None),
            r matches Ok((run, debug)) ==> {
                let common = common_args(*self, *platform_config, elf_path@, bin_path@);
                &&& views(run@) == common + accel_args(*self, host_is_mac)
                &&& views(debug@) == common + seq!["-s"@, "-S"@]
            },
    {
        let sfx: &str = if same_text(self.bus.as_str(), "mmio") {
            "device"
        } else if same_text(self.bus.as_str(), "pci") {
            "pci"
        } else {
            return Err(ConfigError::UnsupportedBus { bus: self.bus.clone() });
        };
        assert(sfx@ == vdev_suffix(self.bus@)->0);
        let mut a: Vec<String> = Vec::new();
        if !push_head(&mut a, self, platform_config, elf_path, bin_path) {
            assert(machine_args(platform_config.arch@, seq![], seq![]) is None);
            return Err(ConfigError::UnsupportedArch { arch: platform_config.arch.clone() });
        }
        assert(machine_args(platform_config.arch@, seq![], seq![]) is Some);
        push_blk(&mut a, self, sfx);
        push_v9p(&mut a, self, sfx);
        if !push_net(&mut a, self, sfx) {
            return Err(ConfigError::UnsupportedNetDev { net_dev: self.net_dev.clone() });
        }
        push_graphic(&mut a, self, sfx);
        push_log(&mut a, self);
        let ghost common = views(a@);
        assert(common =~= common_args(*self, *platform_config, elf_path@, bin_path@));
        let mut debug = copy_args(&a);
        push_lit(&mut debug, "-s");
        push_lit(&mut debug, "-S");
        assert(views(debug@) =~= common + seq!["-s"@, "-S"@]);
        if same_text(self.accel.as_str(), "y") {
            push_lit(&mut a, "-cpu");
            push_lit(&mut a, "host");
            push_lit(&mut a, "-accel");
            push_lit(&mut a, if host_is_mac { "hvf" } else { "kvm" });
        }
        assert(views(a@) =~= common + accel_args(*self, host_is_mac));
        Ok((a, debug))
    }
}

} // verus!
