use dry_exec_core::isolation::macos_seatbelt::{generate_seatbelt_profile, SeatbeltConfig};
use dry_exec_core::isolation::mount::MountConfig;
use dry_exec_core::isolation::seccomp::{
    BpfInstruction, SeccompFilter, SyscallAction, AUDIT_ARCH_X86_64, SECCOMP_RET_ALLOW, SECCOMP_RET_ERRNO,
    SECCOMP_RET_KILL_PROCESS, SECCOMP_RET_TRAP,
};

#[test]
fn test_seatbelt_profile_syntax_and_denials() {
    let config = SeatbeltConfig::default();
    let profile = generate_seatbelt_profile(&config, Some("/Users/dex"));

    assert!(profile.contains("(version 1)"));
    assert!(profile.contains("(deny default)"));
    assert!(profile.contains("(allow process-exec)"));
    assert!(profile.contains("(allow file-write* (subpath \"/private/tmp/dex_ephemeral\"))"));
    assert!(profile.contains("(allow network-outbound (to ip \"localhost:*\"))"));
    assert!(profile.contains(".ssh"));
}

#[test]
fn test_macos_sbpl_generation() {
    let config = SeatbeltConfig::default();
    let profile = generate_seatbelt_profile(&config, Some("/Users/dex"));

    assert!(profile.contains("(version 1)"));
    assert!(profile.contains("(deny default)"));
    assert!(profile.contains("(allow process-exec (literal \"/bin/echo\"))"));
    assert!(profile.contains("(allow network-outbound (to ip \"localhost:*\"))"));
    assert!(profile.contains("(allow file-write* (subpath \"/private/tmp/dex_ephemeral\"))"));
}

#[test]
fn restrictive_profile_without_home_has_no_exec_or_network_rules() {
    let config = SeatbeltConfig {
        allowed_read_paths: vec!["/usr".to_string()],
        allowed_write_paths: vec![],
        allow_loopback_network: false,
        allow_process_exec: false,
    };
    let profile = generate_seatbelt_profile(&config, None);
    assert!(profile.starts_with("(version 1)\n(deny default)\n\n;; Terminal"));
    assert!(profile.contains("(allow file-read* (subpath \"/usr\"))\n"));
    assert!(!profile.contains("process-exec"));
    assert!(!profile.contains("network-outbound"));
    assert!(profile.ends_with(";; Explicit denial of credential and secret locations\n"));
    let with_home = generate_seatbelt_profile(&config, Some("/h"));
    assert!(with_home.ends_with(
        "(deny file-read* (subpath \"/h/.ssh\"))\n(deny file-read* (subpath \"/h/.aws\"))\n(deny file-read* (subpath \"/h/.gnupg\"))\n"
    ));
}

#[test]
fn default_mount_config() {
    let config = MountConfig::default();
    assert_eq!(config.tmpfs_path, "/tmp/dry_exec_ephemeral");
    assert!(config.mount_sterile_proc);
}

#[test]
fn seccomp_constants_match_the_kernel_abi() {
    assert_eq!(SECCOMP_RET_ALLOW, libc::SECCOMP_RET_ALLOW);
    assert_eq!(SECCOMP_RET_TRAP, libc::SECCOMP_RET_TRAP);
    assert_eq!(SECCOMP_RET_KILL_PROCESS, libc::SECCOMP_RET_KILL_PROCESS);
    assert_eq!(SECCOMP_RET_ERRNO, libc::SECCOMP_RET_ERRNO);
    assert_eq!(SyscallAction::Errno(1).to_seccomp_ret(), libc::SECCOMP_RET_ERRNO | 1);
    assert_eq!(SyscallAction::Allow.to_seccomp_ret(), libc::SECCOMP_RET_ALLOW);
}

/// Runs a compiled filter on a call, the way the kernel's classic BPF interpreter does for
/// the instructions the filter uses.
fn run(prog: &[BpfInstruction], nr: u32, arch: u32) -> u32 {
    let mut pc = 0usize;
    let mut acc = 0u32;
    loop {
        let ins = prog[pc];
        match ins.code {
            0x20 => {
                acc = if ins.k == 0 { nr } else { arch };
                pc += 1;
            }
            0x15 => pc += 1 + if acc == ins.k { ins.jt as usize } else { ins.jf as usize },
            0x06 => return ins.k,
            other => panic!("unexpected opcode {other}"),
        }
    }
}

#[test]
fn compiled_filter_allows_listed_syscalls_and_traps_the_rest() {
    let filter = SeccompFilter::new(SyscallAction::Trap).allow(0).allow(1).allow(1).allow(60);
    let prog = filter.compile_bpf(AUDIT_ARCH_X86_64);
    assert_eq!(prog.len(), 4 + 3 + 2);
    assert_eq!(prog[0], BpfInstruction { code: 0x20, jt: 0, jf: 0, k: 4 });
    assert_eq!(prog[4], BpfInstruction { code: 0x15, jt: 3, jf: 0, k: 0 });
    assert_eq!(prog[6], BpfInstruction { code: 0x15, jt: 1, jf: 0, k: 60 });
    assert_eq!(run(&prog, 1, AUDIT_ARCH_X86_64), SECCOMP_RET_ALLOW);
    assert_eq!(run(&prog, 60, AUDIT_ARCH_X86_64), SECCOMP_RET_ALLOW);
    assert_eq!(run(&prog, 41, AUDIT_ARCH_X86_64), SECCOMP_RET_TRAP);
    assert_eq!(run(&prog, 1, 0xc000_00b7), SECCOMP_RET_KILL_PROCESS);
}

#[test]
fn trapped_syscalls_are_compiled_before_the_allow_list() {
    let filter = SeccompFilter::new(SyscallAction::Errno(13)).trap(41).trap(41).allow(0);
    let prog = filter.compile_bpf(AUDIT_ARCH_X86_64);
    assert_eq!(prog.len(), 4 + 2 + 1 + 2);
    assert_eq!(prog[4], BpfInstruction { code: 0x15, jt: 0, jf: 1, k: 41 });
    assert_eq!(prog[5], BpfInstruction { code: 0x06, jt: 0, jf: 0, k: SECCOMP_RET_TRAP });
    assert_eq!(prog[7], BpfInstruction { code: 0x06, jt: 0, jf: 0, k: SECCOMP_RET_ERRNO | 13 });
    assert_eq!(run(&prog, 41, AUDIT_ARCH_X86_64), SECCOMP_RET_TRAP);
    assert_eq!(run(&prog, 0, AUDIT_ARCH_X86_64), SECCOMP_RET_ALLOW);
    assert_eq!(run(&prog, 2, AUDIT_ARCH_X86_64), SECCOMP_RET_ERRNO | 13);
    let default = SeccompFilter::default().allow_all(&vec![3, 4, 3]);
    assert_eq!(default.compile_bpf(AUDIT_ARCH_X86_64).len(), 4 + 2 + 2);
}

#[test]
fn a_trapped_syscall_traps_only_itself() {
    let filter = SeccompFilter::new(SyscallAction::KillProcess).trap(41).allow(0);
    let prog = filter.compile_bpf(AUDIT_ARCH_X86_64);
    assert_eq!(prog.len(), 9);
    assert_eq!(prog[4], BpfInstruction { code: 0x15, jt: 0, jf: 1, k: 41 });
    assert_eq!(prog[5], BpfInstruction { code: 0x06, jt: 0, jf: 0, k: SECCOMP_RET_TRAP });
    assert_eq!(prog[6], BpfInstruction { code: 0x15, jt: 1, jf: 0, k: 0 });
    assert_eq!(prog[7], BpfInstruction { code: 0x06, jt: 0, jf: 0, k: SECCOMP_RET_KILL_PROCESS });
    assert_eq!(prog[8], BpfInstruction { code: 0x06, jt: 0, jf: 0, k: SECCOMP_RET_ALLOW });
    assert_eq!(run(&prog, 41, AUDIT_ARCH_X86_64), SECCOMP_RET_TRAP);
    assert_eq!(run(&prog, 0, AUDIT_ARCH_X86_64), SECCOMP_RET_ALLOW);
    assert_eq!(run(&prog, 1, AUDIT_ARCH_X86_64), SECCOMP_RET_KILL_PROCESS);
}
