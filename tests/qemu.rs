use ruxgo::config::parse_config;
use ruxgo::error::ConfigError;

fn platform(extra: &str) -> ruxgo::config::OSConfig {
    let text = format!(
        "[build]\ncompiler = \"gcc\"\n[os]\nname = \"ruxos\"\n{}\n[[targets]]\nname = \"a\"\ntype = \"exe\"\n",
        extra
    );
    parse_config(&text, "6.1.0-generic").unwrap().1
}

#[test]
fn qemu_args_for_x86_64_defaults() {
    let os = platform("");
    let (run, debug) = os.platform.qemu.config_qemu(&os.platform, "app.elf", "app.bin", false).unwrap();
    let expected = vec![
        "qemu-system-x86_64", "-m", "128M", "-smp", "1", "-machine", "q35", "-kernel", "app.elf",
        "-append", "\";;\"", "-nographic",
    ];
    assert_eq!(debug[..expected.len()], expected[..]);
    assert_eq!(&debug[expected.len()..], &["-s", "-S"]);
    let mut with_accel = expected.clone();
    with_accel.extend(["-cpu", "host", "-accel", "kvm"]);
    assert_eq!(run, with_accel);
}

#[test]
fn qemu_args_for_aarch64_with_devices() {
    let os = platform(
        "[os.platform]\nname = \"aarch64-qemu-virt\"\n[os.platform.qemu]\nblk = \"y\"\nnet = \"y\"\nnet_dev = \"tap\"\nv9p = \"y\"\ngraphic = \"y\"\nqemu_log = \"y\"\nargs = \"a=1\"\nenvs = \"E=2\"\n",
    );
    let (run, debug) = os.platform.qemu.config_qemu(&os.platform, "k.elf", "k.bin", true).unwrap();
    let expected = vec![
        "qemu-system-aarch64", "-m", "128M", "-smp", "1", "-cpu", "cortex-a72", "-machine", "virt",
        "-kernel", "k.bin", "-append", "\";a=1;E=2\"",
        "-device", "virtio-blk-device,drive=disk0", "-drive", "id=disk0,if=none,format=raw,file=disk.img",
        "-fsdev", "local,id=myid,path=./,security_model=none", "-device", "virtio-9p-device,fsdev=myid,mount_tag=rootfs",
        "-device", "virtio-net-device,netdev=net0", "-netdev", "tap,id=net0,ifname=tap0,script=no,downscript=no",
        "-device", "virtio-gpu-device", "-vga", "none", "-serial", "mon:stdio",
        "-D", "qemu.log", "-d", "in_asm,int,mmu,pcall,cpu_reset,guest_errors",
    ];
    assert_eq!(run, expected);
    let mut dbg = expected.clone();
    dbg.extend(["-s", "-S"]);
    assert_eq!(debug, dbg);
}

#[test]
fn qemu_rejects_unknown_net_device() {
    let os = platform("[os.platform.qemu]\nnet = \"y\"\nnet_dev = \"bridge\"\n");
    let r = os.platform.qemu.config_qemu(&os.platform, "e", "b", false);
    assert!(matches!(r, Err(ConfigError::UnsupportedNetDev { net_dev }) if net_dev == "bridge"));
}

#[test]
fn qemu_rejects_unknown_bus() {
    let mut os = platform("");
    os.platform.qemu.bus = "isa".to_string();
    let r = os.platform.qemu.config_qemu(&os.platform, "e", "b", false);
    assert!(matches!(r, Err(ConfigError::UnsupportedBus { .. })));
}
