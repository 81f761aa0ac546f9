//! Seccomp-BPF syscall interception filter builder.
use vstd::prelude::*;

verus! {

/// `AUDIT_ARCH_X86_64`.
pub const AUDIT_ARCH_X86_64: u32 = 0xc000_003e;

/// `AUDIT_ARCH_AARCH64`.
pub const AUDIT_ARCH_AARCH64: u32 = 0xc000_00b7;

/// `SECCOMP_RET_KILL_PROCESS`.
pub const SECCOMP_RET_KILL_PROCESS: u32 = 0x8000_0000;

/// `SECCOMP_RET_TRAP`.
pub const SECCOMP_RET_TRAP: u32 = 0x0003_0000;

/// `SECCOMP_RET_ERRNO`.
pub const SECCOMP_RET_ERRNO: u32 = 0x0005_0000;

/// `SECCOMP_RET_ALLOW`.
pub const SECCOMP_RET_ALLOW: u32 = 0x7fff_0000;

/// `BPF_LD`.
pub const BPF_LD: u16 = 0x00;

/// `BPF_W`.
pub const BPF_W: u16 = 0x00;

/// `BPF_ABS`.
pub const BPF_ABS: u16 = 0x20;

/// `BPF_JMP`.
pub const BPF_JMP: u16 = 0x05;

/// `BPF_JEQ`.
pub const BPF_JEQ: u16 = 0x10;

/// `BPF_K`.
pub const BPF_K: u16 = 0x00;

/// `BPF_RET`.
pub const BPF_RET: u16 = 0x06;

/// Action triggered when a syscall matches or defaults within the BPF filter.
#[derive(Debug, Clone, Copy, PartialEq, Eq, Structural)]
pub enum SyscallAction {
    Allow,
    Trap,
    KillProcess,
    Errno(u16),
}

/// The seccomp return value of an action.
pub open spec fn seccomp_ret(a: SyscallAction) -> u32 {
    match a {
        SyscallAction::Allow => SECCOMP_RET_ALLOW,
        SyscallAction::Trap => SECCOMP_RET_TRAP,
        SyscallAction::KillProcess => SECCOMP_RET_KILL_PROCESS,
        SyscallAction::Errno(e) => SECCOMP_RET_ERRNO | ((e as u32) & 0x0000_ffff),
    }
}

impl SyscallAction {
    /// The seccomp return value of this action.
    pub fn to_seccomp_ret(self) -> (r: u32)
        ensures
            r == seccomp_ret(self),
    {
        match self {
            SyscallAction::Allow => SECCOMP_RET_ALLOW,
            SyscallAction::Trap => SECCOMP_RET_TRAP,
            SyscallAction::KillProcess => SECCOMP_RET_KILL_PROCESS,
            SyscallAction::Errno(e) => SECCOMP_RET_ERRNO | ((e as u32) & 0x0000_ffff),
        }
    }
}

/// One classic BPF instruction, laid out as `struct sock_filter`.
#[derive(Debug, Clone, Copy, PartialEq, Eq, Structural)]
pub struct BpfInstruction {
    pub code: u16,
    pub jt: u8,
    pub jf: u8,
    pub k: u32,
}

/// Seccomp-BPF filter generator enforcing deterministic syscall interception boundaries.
#[derive(Debug, Clone)]
pub struct SeccompFilter {
    default_action: SyscallAction,
    allowed_syscalls: Vec<i64>,
    trapped_syscalls: Vec<i64>,
}

/// Model of a [`SeccompFilter`].
pub struct SeccompFilterView {
    pub default_action: SyscallAction,
    pub allowed: Seq<i64>,
    pub trapped: Seq<i64>,
}

impl View for SeccompFilter {
    type V = SeccompFilterView;

    closed spec fn view(&self) -> SeccompFilterView {
        SeccompFilterView {
            default_action: self.default_action,
            allowed: self.allowed_syscalls@,
            trapped: self.trapped_syscalls@,
        }
    }
}

/// A syscall list after adding `nr`, which is appended unless already listed.
pub open spec fn with_syscall(s: Seq<i64>, nr: i64) -> Seq<i64> {
    if s.contains(nr) {
        s
    } else {
        s.push(nr)
    }
}

/// Whether `v` lists `nr`.
fn list_contains(v: &Vec<i64>, nr: i64) -> (r: bool)
    ensures
        r == v@.contains(nr),
{
    let mut i: usize = 0;
    while i < v.len()
        invariant
            i <= v@.len(),
            forall|j: int| 0 <= j < i ==> v@[j] != nr,
        decreases v@.len() - i,
    {
        if v[i] == nr {
            assert(v@[i as int] == nr);
            return true;
        }
        i = i + 1;
    }
    false
}

impl Default for SeccompFilter {
    /// A filter that traps every syscall not otherwise allowed.
    fn default() -> (r: Self)
        ensures
            r@.default_action == SyscallAction::Trap,
            r@.allowed == Seq::<i64>::empty(),
            r@.trapped == Seq::<i64>::empty(),
    {
        Self::new(SyscallAction::Trap)
    }
}

impl SeccompFilter {
    /// Construct a new filter with a designated default boundary action.
    pub fn new(default_action: SyscallAction) -> (r: Self)
        ensures
            r@.default_action == default_action,
            r@.allowed == Seq::<i64>::empty(),
            r@.trapped == Seq::<i64>::empty(),
    {
        SeccompFilter { default_action, allowed_syscalls: Vec::new(), trapped_syscalls: Vec::new() }
    }

    /// Whitelist a specific syscall number.
    pub fn allow(self, syscall_nr: i64) -> (r: Self)
        ensures
            r@.default_action == self@.default_action,
            r@.allowed == with_syscall(self@.allowed, syscall_nr),
            r@.trapped == self@.trapped,
    {
        let mut f = self;
        if !list_contains(&f.allowed_syscalls, syscall_nr) {
            f.allowed_syscalls.push(syscall_nr);
        }
        f
    }

    /// Trap a specific syscall while allowing the remainder of the runtime surface.
    pub fn trap(self, syscall_nr: i64) -> (r: Self)
        ensures
            r@.default_action == self@.default_action,
            r@.allowed == self@.allowed,
            r@.trapped == with_syscall(self@.trapped, syscall_nr),
    {
        let mut f = self;
        if !list_contains(&f.trapped_syscalls, syscall_nr) {
            f.trapped_syscalls.push(syscall_nr);
        }
        f
    }

    /// Whitelist each of the given syscall numbers, in order.
    pub fn allow_all(self, syscalls: &Vec<i64>) -> (r: Self)
        ensures
            r@.default_action == self@.default_action,
            r@.allowed == allow_each(self@.allowed, syscalls@),
            r@.trapped == self@.trapped,
    {
        let mut f = self;
        let mut i: usize = 0;
        while i < syscalls.len()
            invariant
                i <= syscalls@.len(),
                f@.default_action == self@.default_action,
                f@.trapped == self@.trapped,
                f@.allowed == allow_each(self@.allowed, syscalls@.take(i as int)),
            decreases syscalls@.len() - i,
        {
            assert(syscalls@.take(i + 1).drop_last() =~= syscalls@.take(i as int));
            f = f.allow(syscalls[i]);
            i = i + 1;
        }
        assert(syscalls@.take(syscalls@.len() as int) =~= syscalls@);
        f
    }

    /// Compile the rules into classic BPF instructions for the given audit architecture.
    pub fn compile_bpf(&self, audit_arch: u32) -> (r: Vec<BpfInstruction>)
        requires
            self@.trapped.len() * 2 + self@.allowed.len() + 6 <= usize::MAX,
        ensures
            r@ == bpf_program(self@, audit_arch),
    {
        let mut filter: Vec<BpfInstruction> = Vec::new();
        filter.push(BpfInstruction { code: BPF_LD | BPF_W | BPF_ABS, jt: 0, jf: 0, k: 4 });
        filter.push(BpfInstruction { code: BPF_JMP | BPF_JEQ | BPF_K, jt: 1, jf: 0, k: audit_arch });
        filter.push(BpfInstruction { code: BPF_RET | BPF_K, jt: 0, jf: 0, k: SECCOMP_RET_KILL_PROCESS });
        filter.push(BpfInstruction { code: BPF_LD | BPF_W | BPF_ABS, jt: 0, jf: 0, k: 0 });
        assert(filter@ =~= bpf_prologue(audit_arch));
        let ghost v = self@;
        let mut i: usize = 0;
        while i < self.trapped_syscalls.len()
            invariant
                v == self@,
                i <= v.trapped.len(),
                filter@ == bpf_prologue(audit_arch) + trap_rules(v.trapped.take(i as int)),
            decreases v.trapped.len() - i,
        {
            let nr = self.trapped_syscalls[i];
            filter.push(BpfInstruction { code: BPF_JMP | BPF_JEQ | BPF_K, jt: 0, jf: 1, k: nr as u32 });
            filter.push(BpfInstruction { code: BPF_RET | BPF_K, jt: 0, jf: 0, k: SECCOMP_RET_TRAP });
            assert(v.trapped.take(i + 1).drop_last() =~= v.trapped.take(i as int));
            assert(filter@ =~= bpf_prologue(audit_arch) + trap_rules(v.trapped.take(i + 1)));
            i = i + 1;
        }
        assert(v.trapped.take(v.trapped.len() as int) =~= v.trapped);
        let ghost head = filter@;
        let n_rules = self.allowed_syscalls.len();
        let mut i: usize = 0;
        while i < n_rules
            invariant
                v == self@,
                n_rules == v.allowed.len(),
                i <= n_rules,
                filter@ == head + allow_rules(v.allowed, i as int),
            decreases n_rules - i,
        {
            let nr = self.allowed_syscalls[i];
            let jump_offset_to_allow = (n_rules - 1 - i + 1) as u8;
            filter.push(BpfInstruction { code: BPF_JMP | BPF_JEQ | BPF_K, jt: jump_offset_to_allow, jf: 0, k: nr as u32 });
            assert(filter@ =~= head + allow_rules(v.allowed, i + 1));
            i = i + 1;
        }
        filter.push(BpfInstruction { code: BPF_RET | BPF_K, jt: 0, jf: 0, k: self.default_action.to_seccomp_ret() });
        filter.push(BpfInstruction { code: BPF_RET | BPF_K, jt: 0, jf: 0, k: SECCOMP_RET_ALLOW });
        assert(filter@ =~= bpf_program(self@, audit_arch));
        filter
    }
}

/// An allow list after adding each of `nrs` in order.
pub open spec fn allow_each(s: Seq<i64>, nrs: Seq<i64>) -> Seq<i64>
    decreases nrs.len(),
{
    if nrs.len() == 0 {
        s
    } else {
        with_syscall(allow_each(s, nrs.drop_last()), nrs.last())
    }
}

/// `BPF_LD | BPF_W | BPF_ABS` loading the 32-bit word at offset `k` of the seccomp data.
pub open spec fn bpf_load(k: u32) -> BpfInstruction {
    BpfInstruction { code: BPF_LD | BPF_W | BPF_ABS, jt: 0, jf: 0, k }
}

/// `BPF_JMP | BPF_JEQ | BPF_K` comparing the accumulator with `k`.
pub open spec fn bpf_jeq(k: u32, jt: u8, jf: u8) -> BpfInstruction {
    BpfInstruction { code: BPF_JMP | BPF_JEQ | BPF_K, jt, jf, k }
}

/// `BPF_RET | BPF_K` returning `k`.
pub open spec fn bpf_ret(k: u32) -> BpfInstruction {
    BpfInstruction { code: BPF_RET | BPF_K, jt: 0, jf: 0, k }
}

/// Architecture check: load the audit arch (offset 4), kill on mismatch, then load the
/// syscall number (offset 0).
pub open spec fn bpf_prologue(audit_arch: u32) -> Seq<BpfInstruction> {
    seq![bpf_load(4), bpf_jeq(audit_arch, 1, 0), bpf_ret(SECCOMP_RET_KILL_PROCESS), bpf_load(0)]
}

/// For each trapped syscall, a comparison that falls through to a `SECCOMP_RET_TRAP` return
/// on a match and skips over it otherwise.
pub open spec fn trap_rules(trapped: Seq<i64>) -> Seq<BpfInstruction>
    decreases trapped.len(),
{
    if trapped.len() == 0 {
        Seq::empty()
    } else {
        trap_rules(trapped.drop_last()) + seq![bpf_jeq(trapped.last() as u32, 0, 1), bpf_ret(SECCOMP_RET_TRAP)]
    }
}

/// The first `i` allow comparisons: rule `j` jumps over the remaining rules and the default
/// return to the final `SECCOMP_RET_ALLOW` when the syscall number matches.
pub open spec fn allow_rules(allowed: Seq<i64>, i: int) -> Seq<BpfInstruction> {
    Seq::new(i as nat, |j: int| bpf_jeq(allowed[j] as u32, (allowed.len() - j) as u8, 0))
}

/// The compiled filter: prologue, trap rules, allow rules, the default return and the
/// allow return.
pub open spec fn bpf_program(f: SeccompFilterView, audit_arch: u32) -> Seq<BpfInstruction> {
    bpf_prologue(audit_arch) + trap_rules(f.trapped) + allow_rules(f.allowed, f.allowed.len() as int)
        + seq![bpf_ret(seccomp_ret(f.default_action)), bpf_ret(SECCOMP_RET_ALLOW)]
}

/// The 32-bit word at offset `k` of the seccomp data of a call: the syscall number at
/// offset 0, the audit architecture at offset 4.
pub open spec fn seccomp_data_word(k: u32, nr: u32, arch: u32) -> u32 {
    if k == 0 {
        nr
    } else if k == 4 {
        arch
    } else {
        0
    }
}

/// Runs a classic BPF program, made of absolute word loads, equality jumps and constant
/// returns, from instruction `pc` with accumulator `acc`; `None` if it runs off the end or
/// meets another instruction.
pub open spec fn bpf_run(prog: Seq<BpfInstruction>, pc: int, acc: u32, nr: u32, arch: u32) -> Option<u32>
    decreases prog.len() + 256 - pc,
{
    if pc < 0 || pc >= prog.len() {
        None
    } else {
        let ins = prog[pc];
        if ins.code == BPF_LD | BPF_W | BPF_ABS {
            bpf_run(prog, pc + 1, seccomp_data_word(ins.k, nr, arch), nr, arch)
        } else if ins.code == BPF_JMP | BPF_JEQ | BPF_K {
            bpf_run(prog, pc + 1 + (if acc == ins.k { ins.jt } else { ins.jf }) as int, acc, nr, arch)
        } else if ins.code == BPF_RET | BPF_K {
            Some(ins.k)
        } else {
            None
        }
    }
}

/// Instructions `2 * j` and `2 * j + 1` of `r` are the trap rule for syscall `nr`.
pub open spec fn trap_pair_at(r: Seq<BpfInstruction>, j: int, nr: i64) -> bool {
    r[2 * j] == bpf_jeq(nr as u32, 0, 1) && r[2 * j + 1] == bpf_ret(SECCOMP_RET_TRAP)
}

proof fn lemma_trap_rules_shape(t: Seq<i64>)
    ensures
        trap_rules(t).len() == 2 * t.len(),
        forall|j: int| 0 <= j < t.len() ==> #[trigger] trap_pair_at(trap_rules(t), j, t[j]),
    decreases t.len(),
{
    if t.len() > 0 {
        let u = t.drop_last();
        lemma_trap_rules_shape(u);
        let tail = seq![bpf_jeq(t.last() as u32, 0, 1), bpf_ret(SECCOMP_RET_TRAP)];
        let r = trap_rules(t);
        assert(r == trap_rules(u) + tail);
        assert forall|j: int| 0 <= j < t.len() implies #[trigger] trap_pair_at(r, j, t[j]) by {
            if j < t.len() - 1 {
                assert(u[j] == t[j]);
                assert(trap_pair_at(trap_rules(u), j, u[j]));
                assert(r[2 * j] == trap_rules(u)[2 * j]);
                assert(r[2 * j + 1] == trap_rules(u)[2 * j + 1]);
            } else {
                assert(2 * j == trap_rules(u).len());
                assert(r[2 * j] == tail[0]);
                assert(r[2 * j + 1] == tail[1]);
            }
        }
    }
}

/// Where the instructions of a compiled program stand: the prologue, then two instructions
/// per trapped syscall, one per allowed syscall, the default return and the allow return.
proof fn lemma_program_layout(f: SeccompFilterView, audit_arch: u32)
    ensures
        ({
            let prog = bpf_program(f, audit_arch);
            let t = f.trapped.len() as int;
            let n = f.allowed.len() as int;
            &&& prog.len() == 4 + 2 * t + n + 2
            &&& prog[0] == bpf_load(4)
            &&& prog[1] == bpf_jeq(audit_arch, 1, 0)
            &&& prog[2] == bpf_ret(SECCOMP_RET_KILL_PROCESS)
            &&& prog[3] == bpf_load(0)
            &&& forall|j: int|
                #![trigger f.trapped[j]]
                0 <= j < t ==> prog[4 + 2 * j] == bpf_jeq(f.trapped[j] as u32, 0, 1)
                    && prog[4 + 2 * j + 1] == bpf_ret(SECCOMP_RET_TRAP)
            &&& forall|i: int|
                #![trigger f.allowed[i]]
                0 <= i < n ==> prog[4 + 2 * t + i] == bpf_jeq(f.allowed[i] as u32, (n - i) as u8, 0)
            &&& prog[4 + 2 * t + n] == bpf_ret(seccomp_ret(f.default_action))
            &&& prog[4 + 2 * t + n + 1] == bpf_ret(SECCOMP_RET_ALLOW)
        }),
{
    let prog = bpf_program(f, audit_arch);
    let t = f.trapped.len() as int;
    let n = f.allowed.len() as int;
    let tr = trap_rules(f.trapped);
    let al = allow_rules(f.allowed, n);
    lemma_trap_rules_shape(f.trapped);
    assert(prog == bpf_prologue(audit_arch) + tr + al + seq![bpf_ret(seccomp_ret(f.default_action)), bpf_ret(SECCOMP_RET_ALLOW)]);
    assert forall|j: int|
        #![trigger f.trapped[j]]
        0 <= j < t implies prog[4 + 2 * j] == bpf_jeq(f.trapped[j] as u32, 0, 1)
            && prog[4 + 2 * j + 1] == bpf_ret(SECCOMP_RET_TRAP) by {
        assert(trap_pair_at(tr, j, f.trapped[j]));
        assert(prog[4 + 2 * j] == tr[2 * j]);
        assert(prog[4 + 2 * j + 1] == tr[2 * j + 1]);
    }
    assert forall|i: int|
        #![trigger f.allowed[i]]
        0 <= i < n implies prog[4 + 2 * t + i] == bpf_jeq(f.allowed[i] as u32, (n - i) as u8, 0) by {
        assert(prog[4 + 2 * t + i] == al[i]);
    }
}

proof fn lemma_opcodes()
    ensures
        (BPF_LD | BPF_W | BPF_ABS) == 0x20u16,
        (BPF_JMP | BPF_JEQ | BPF_K) == 0x15u16,
        (BPF_RET | BPF_K) == 0x06u16,
{
    assert((BPF_LD | BPF_W | BPF_ABS) == 0x20u16) by (bit_vector);
    assert((BPF_JMP | BPF_JEQ | BPF_K) == 0x15u16) by (bit_vector);
    assert((BPF_RET | BPF_K) == 0x06u16) by (bit_vector);
}

/// The verdict of the allow rules and the default for syscall `nr`, from allow rule `i` on.
pub open spec fn allow_verdict(f: SeccompFilterView, i: int, nr: u32) -> u32 {
    if exists|j: int| i <= j < f.allowed.len() && f.allowed[j] as u32 == nr {
        SECCOMP_RET_ALLOW
    } else {
        seccomp_ret(f.default_action)
    }
}

proof fn lemma_allow_chain(f: SeccompFilterView, audit_arch: u32, i: int, nr: u32, arch: u32)
    requires
        f.allowed.len() <= 255,
        0 <= i <= f.allowed.len(),
    ensures
        bpf_run(bpf_program(f, audit_arch), 4 + 2 * f.trapped.len() + i, nr, nr, arch) == Some(allow_verdict(f, i, nr)),
    decreases f.allowed.len() - i,
{
    let prog = bpf_program(f, audit_arch);
    let t = f.trapped.len() as int;
    let n = f.allowed.len() as int;
    let pc = 4 + 2 * t + i;
    lemma_program_layout(f, audit_arch);
    lemma_opcodes();
    if i == n {
        assert(prog[pc].code == 6u16);
        assert(bpf_run(prog, pc, nr, nr, arch) == Some(seccomp_ret(f.default_action)));
    } else {
        assert(prog[pc] == bpf_jeq(f.allowed[i] as u32, (n - i) as u8, 0));
        assert(((n - i) as u8) as int == n - i);
        assert(prog[pc].code == 0x15u16);
        if f.allowed[i] as u32 == nr {
            assert(prog[pc + 1 + (n - i)].code == 6u16);
            assert(bpf_run(prog, pc + 1 + (n - i), nr, nr, arch) == Some(SECCOMP_RET_ALLOW));
            assert(bpf_run(prog, pc, nr, nr, arch) == Some(SECCOMP_RET_ALLOW));
        } else {
            assert(bpf_run(prog, pc, nr, nr, arch) == bpf_run(prog, pc + 1, nr, nr, arch));
            lemma_allow_chain(f, audit_arch, i + 1, nr, arch);
            if exists|j: int| i <= j < n && f.allowed[j] as u32 == nr {
                let j = choose|j: int| i <= j < n && f.allowed[j] as u32 == nr;
                assert(j != i);
            }
        }
    }
}

proof fn lemma_trap_chain(f: SeccompFilterView, audit_arch: u32, i: int, nr: u32, arch: u32)
    requires
        f.allowed.len() <= 255,
        0 <= i <= f.trapped.len(),
    ensures
        bpf_run(bpf_program(f, audit_arch), 4 + 2 * i, nr, nr, arch) == if exists|j: int|
            i <= j < f.trapped.len() && f.trapped[j] as u32 == nr {
            Some(SECCOMP_RET_TRAP)
        } else {
            Some(allow_verdict(f, 0, nr))
        },
    decreases f.trapped.len() - i,
{
    let prog = bpf_program(f, audit_arch);
    let t = f.trapped.len() as int;
    let pc = 4 + 2 * i;
    lemma_program_layout(f, audit_arch);
    lemma_opcodes();
    if i == t {
        lemma_allow_chain(f, audit_arch, 0, nr, arch);
    } else {
        assert(prog[pc] == bpf_jeq(f.trapped[i] as u32, 0, 1));
        assert(prog[pc + 1] == bpf_ret(SECCOMP_RET_TRAP));
        assert(prog[pc].code == 0x15u16);
        if f.trapped[i] as u32 == nr {
            assert(prog[pc + 1].code == 6u16);
            assert(bpf_run(prog, pc + 1, nr, nr, arch) == Some(SECCOMP_RET_TRAP));
            assert(bpf_run(prog, pc, nr, nr, arch) == Some(SECCOMP_RET_TRAP));
        } else {
            assert(bpf_run(prog, pc, nr, nr, arch) == bpf_run(prog, pc + 2, nr, nr, arch));
            lemma_trap_chain(f, audit_arch, i + 1, nr, arch);
            assert(4 + 2 * (i + 1) == pc + 2);
            if exists|j: int| i <= j < t && f.trapped[j] as u32 == nr {
                let j = choose|j: int| i <= j < t && f.trapped[j] as u32 == nr;
                assert(j != i);
            }
        }
    }
}

/// Semantics of a compiled filter with at most 255 allowed syscalls: a call from another
/// architecture kills the process; a trapped call (its number truncated to 32 bits, as the
/// filter compares it) returns `SECCOMP_RET_TRAP`; any other call that is allowed returns
/// `SECCOMP_RET_ALLOW`; every remaining call gets the default action.
pub proof fn lemma_filter_semantics(f: SeccompFilterView, audit_arch: u32, nr: u32, arch: u32)
    requires
        f.allowed.len() <= 255,
    ensures
        bpf_run(bpf_program(f, audit_arch), 0, 0, nr, arch) == if arch != audit_arch {
            Some(SECCOMP_RET_KILL_PROCESS)
        } else if exists|j: int| 0 <= j < f.trapped.len() && f.trapped[j] as u32 == nr {
            Some(SECCOMP_RET_TRAP)
        } else if exists|j: int| 0 <= j < f.allowed.len() && f.allowed[j] as u32 == nr {
            Some(SECCOMP_RET_ALLOW)
        } else {
            Some(seccomp_ret(f.default_action))
        },
{
    let prog = bpf_program(f, audit_arch);
    lemma_program_layout(f, audit_arch);
    lemma_opcodes();
    assert(prog[0].code == 0x20u16);
    assert(prog[1].code == 0x15u16);
    assert(prog[2].code == 6u16);
    assert(prog[3].code == 0x20u16);
    assert(seccomp_data_word(4, nr, arch) == arch);
    assert(seccomp_data_word(0, nr, arch) == nr);
    lemma_trap_chain(f, audit_arch, 0, nr, arch);
    assert(bpf_run(prog, 3, arch, nr, arch) == bpf_run(prog, 4, nr, nr, arch));
    if arch == audit_arch {
        assert(bpf_run(prog, 1, arch, nr, arch) == bpf_run(prog, 3, arch, nr, arch));
    } else {
        assert(bpf_run(prog, 1, arch, nr, arch) == bpf_run(prog, 2, arch, nr, arch));
    }
    assert(bpf_run(prog, 0, 0, nr, arch) == bpf_run(prog, 1, arch, nr, arch));
}

/// Allowing a syscall twice is the same as allowing it once, and an allow list built by
/// [`SeccompFilter::allow`] never lists a syscall twice.
pub proof fn lemma_allow_idempotent(s: Seq<i64>, nr: i64)
    requires
        s.no_duplicates(),
    ensures
        with_syscall(with_syscall(s, nr), nr) == with_syscall(s, nr),
        with_syscall(s, nr).no_duplicates(),
        with_syscall(s, nr).contains(nr),
{
    if !s.contains(nr) {
        assert(s.push(nr)[s.len() as int] == nr);
        assert(s.push(nr).contains(nr));
    }
}

} // verus!
