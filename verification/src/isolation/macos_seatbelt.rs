//! Sandbox Profile Language (SBPL) generation for the macOS Seatbelt boundary.
use vstd::prelude::*;
use crate::outcome::contains_text;

verus! {

/// Configuration for dynamic SBPL (Sandbox Profile Language) generation.
#[derive(Debug, Clone)]
pub struct SeatbeltConfig {
    pub allowed_read_paths: Vec<String>,
    pub allowed_write_paths: Vec<String>,
    pub allow_loopback_network: bool,
    pub allow_process_exec: bool,
}

/// The paths of a list, as character sequences.
pub open spec fn path_texts(s: Seq<String>) -> Seq<Seq<char>> {
    s.map_values(|p: String| p@)
}

/// The read paths a default configuration allows.
pub open spec fn default_read_paths() -> Seq<Seq<char>> {
    seq![
        "/usr"@,
        "/System"@,
        "/Library"@,
        "/opt/homebrew"@,
        "/dev"@,
        "/etc"@,
        "/private/etc"@,
        "/private/tmp"@,
    ]
}

/// The ephemeral scratch directory, the one write path a default configuration allows.
pub open spec fn default_write_path() -> Seq<char> {
    "/private/tmp/dex_ephemeral"@
}

impl Default for SeatbeltConfig {
    /// System read paths, the ephemeral scratch directory as the only write path, loopback
    /// networking and process execution.
    fn default() -> (r: Self)
        ensures
            path_texts(r.allowed_read_paths@) == default_read_paths(),
            path_texts(r.allowed_write_paths@) == seq![default_write_path()],
            r.allow_loopback_network,
            r.allow_process_exec,
    {
        let mut read: Vec<String> = Vec::new();
        read.push(String::from_str("/usr"));
        read.push(String::from_str("/System"));
        read.push(String::from_str("/Library"));
        read.push(String::from_str("/opt/homebrew"));
        read.push(String::from_str("/dev"));
        read.push(String::from_str("/etc"));
        read.push(String::from_str("/private/etc"));
        read.push(String::from_str("/private/tmp"));
        let mut write: Vec<String> = Vec::new();
        write.push(String::from_str("/private/tmp/dex_ephemeral"));
        assert(path_texts(read@) =~= default_read_paths());
        assert(path_texts(write@) =~= seq![default_write_path()]);
        SeatbeltConfig {
            allowed_read_paths: read,
            allowed_write_paths: write,
            allow_loopback_network: true,
            allow_process_exec: true,
        }
    }
}

/// The rule allowing reads below `p`.
pub open spec fn read_rule(p: Seq<char>) -> Seq<char> {
    "(allow file-read* (subpath \""@ + p + "\"))\n"@
}

/// The rules allowing writes, and reads, below `p`.
pub open spec fn write_rules(p: Seq<char>) -> Seq<char> {
    "(allow file-write* (subpath \""@ + p + "\"))\n"@ + read_rule(p)
}

/// The read rules of a list of paths, in order.
pub open spec fn read_rules(ps: Seq<Seq<char>>) -> Seq<char>
    decreases ps.len(),
{
    if ps.len() == 0 {
        Seq::empty()
    } else {
        read_rules(ps.drop_last()) + read_rule(ps.last())
    }
}

/// The write rules of a list of paths, in order.
pub open spec fn all_write_rules(ps: Seq<Seq<char>>) -> Seq<char>
    decreases ps.len(),
{
    if ps.len() == 0 {
        Seq::empty()
    } else {
        all_write_rules(ps.drop_last()) + write_rules(ps.last())
    }
}

/// Rules for process execution within the boundary.
pub open spec fn process_rules() -> Seq<char> {
    ";; Process execution within ephemeral boundary\n"@ + "(allow process-exec)\n"@
        + "(allow process-exec (literal \"/bin/echo\"))\n"@ + "(allow process-fork)\n"@ + "(allow sysctl-read)\n\n"@
}

/// Rules for the standard device descriptors.
pub open spec fn device_rules() -> Seq<char> {
    ";; Terminal and standard device descriptors\n"@
        + "(allow file-read-data (literal \"/dev/null\") (literal \"/dev/zero\") (literal \"/dev/urandom\") (literal \"/dev/dtracehelper\"))\n"@
        + "(allow file-write-data (literal \"/dev/null\") (literal \"/dev/zero\") (literal \"/dev/dtracehelper\"))\n"@
        + "(allow file-ioctl (literal \"/dev/dtracehelper\") (literal \"/dev/null\"))\n\n"@
}

/// Rules confining network egress to loopback.
pub open spec fn loopback_rules() -> Seq<char> {
    ";; Loopback network egress confined to transparent mock proxy\n"@
        + "(allow network-outbound (to ip \"localhost:*\"))\n"@ + "(allow network-inbound (local ip \"localhost:*\"))\n"@
        + "(allow network-bind (local ip \"localhost:*\"))\n\n"@
}

/// Rules denying reads of the credential directories below the home directory `h`.
pub open spec fn credential_rules(h: Seq<char>) -> Seq<char> {
    "(deny file-read* (subpath \""@ + h + "/.ssh\"))\n"@ + "(deny file-read* (subpath \""@ + h + "/.aws\"))\n"@
        + "(deny file-read* (subpath \""@ + h + "/.gnupg\"))\n"@
}

/// The SBPL profile of a configuration, for a process whose home directory is `home`:
/// everything is denied by default; process execution, the standard devices, the read paths,
/// the write paths and loopback networking are allowed as configured; the credential
/// directories below the home directory are denied.
pub open spec fn seatbelt_profile(
    read_paths: Seq<Seq<char>>,
    write_paths: Seq<Seq<char>>,
    allow_loopback_network: bool,
    allow_process_exec: bool,
    home: Option<Seq<char>>,
) -> Seq<char> {
    "(version 1)\n"@ + "(deny default)\n\n"@ + (if allow_process_exec { process_rules() } else { Seq::empty() })
        + device_rules() + ";; Allowed read paths\n"@ + read_rules(read_paths) + "\n"@
        + ";; Allowed write paths strictly restricted to ephemeral scratch space\n"@ + all_write_rules(write_paths) + "\n"@
        + (if allow_loopback_network { loopback_rules() } else { Seq::empty() })
        + ";; Explicit denial of credential and secret locations\n"@ + match home {
        Some(h) => credential_rules(h),
        None => Seq::empty(),
    }
}

proof fn lemma_occurs_in_middle(a: Seq<char>, t: Seq<char>, c: Seq<char>)
    ensures
        contains_text(a + t + c, t),
{
    let s = a + t + c;
    assert(s.subrange(a.len() as int, a.len() + t.len() as int) =~= t);
}

proof fn lemma_occurs_extend(s: Seq<char>, t: Seq<char>, a: Seq<char>, c: Seq<char>)
    requires
        contains_text(s, t),
    ensures
        contains_text(a + s + c, t),
{
    let i = choose|i: int| 0 <= i && i + t.len() <= s.len() && #[trigger] s.subrange(i, i + t.len()) == t;
    let u = a + s + c;
    assert(u.subrange(a.len() + i, a.len() + i + t.len()) =~= s.subrange(i, i + t.len()));
}

proof fn lemma_write_rules_contain(ps: Seq<Seq<char>>, j: int)
    requires
        0 <= j < ps.len(),
    ensures
        contains_text(all_write_rules(ps), "(allow file-write* (subpath \""@ + ps[j] + "\"))\n"@),
        contains_text(all_write_rules(ps), "(allow file-read* (subpath \""@ + ps[j] + "\"))\n"@),
    decreases ps.len(),
{
    let w = "(allow file-write* (subpath \""@ + ps[j] + "\"))\n"@;
    let rd = "(allow file-read* (subpath \""@ + ps[j] + "\"))\n"@;
    let prev = all_write_rules(ps.drop_last());
    if j == ps.len() - 1 {
        assert(all_write_rules(ps) =~= prev + w + rd);
        lemma_occurs_in_middle(prev, w, rd);
        assert(prev + rd + Seq::<char>::empty() =~= prev + rd);
        assert(all_write_rules(ps) =~= (prev + w) + rd + Seq::<char>::empty());
        lemma_occurs_in_middle(prev + w, rd, Seq::<char>::empty());
    } else {
        assert(ps.drop_last()[j] == ps[j]);
        lemma_write_rules_contain(ps.drop_last(), j);
        let tail = write_rules(ps.last());
        assert(all_write_rules(ps) =~= Seq::<char>::empty() + prev + tail);
        lemma_occurs_extend(prev, w, Seq::<char>::empty(), tail);
        lemma_occurs_extend(prev, rd, Seq::<char>::empty(), tail);
    }
}

proof fn lemma_read_rules_contain(ps: Seq<Seq<char>>, j: int)
    requires
        0 <= j < ps.len(),
    ensures
        contains_text(read_rules(ps), "(allow file-read* (subpath \""@ + ps[j] + "\"))\n"@),
    decreases ps.len(),
{
    let rd = "(allow file-read* (subpath \""@ + ps[j] + "\"))\n"@;
    let prev = read_rules(ps.drop_last());
    if j == ps.len() - 1 {
        assert(read_rules(ps) =~= prev + rd + Seq::<char>::empty());
        lemma_occurs_in_middle(prev, rd, Seq::<char>::empty());
    } else {
        assert(ps.drop_last()[j] == ps[j]);
        lemma_read_rules_contain(ps.drop_last(), j);
        assert(read_rules(ps) =~= Seq::<char>::empty() + prev + read_rule(ps.last()));
        lemma_occurs_extend(prev, rd, Seq::<char>::empty(), read_rule(ps.last()));
    }
}

/// Every configured read path is readable, and every configured write path is both writable
/// and readable, whatever else the configuration allows: the profile holds an
/// `(allow file-read* (subpath "p"))` line for each of them and an
/// `(allow file-write* (subpath "p"))` line for each write path.
#[verifier::rlimit(40)]
pub proof fn lemma_profile_grants_configured_paths(
    read_paths: Seq<Seq<char>>,
    write_paths: Seq<Seq<char>>,
    allow_loopback_network: bool,
    allow_process_exec: bool,
    home: Option<Seq<char>>,
)
    ensures
        forall|j: int|
            0 <= j < read_paths.len() ==> contains_text(
                seatbelt_profile(read_paths, write_paths, allow_loopback_network, allow_process_exec, home),
                "(allow file-read* (subpath \""@ + #[trigger] read_paths[j] + "\"))\n"@,
            ),
        forall|j: int|
            0 <= j < write_paths.len() ==> contains_text(
                seatbelt_profile(read_paths, write_paths, allow_loopback_network, allow_process_exec, home),
                "(allow file-read* (subpath \""@ + #[trigger] write_paths[j] + "\"))\n"@,
            ),
        forall|j: int|
            0 <= j < write_paths.len() ==> contains_text(
                seatbelt_profile(read_paths, write_paths, allow_loopback_network, allow_process_exec, home),
                "(allow file-write* (subpath \""@ + #[trigger] write_paths[j] + "\"))\n"@,
            ),
{
    let prof = seatbelt_profile(read_paths, write_paths, allow_loopback_network, allow_process_exec, home);
    let head = "(version 1)\n"@ + "(deny default)\n\n"@ + (if allow_process_exec { process_rules() } else { Seq::empty() })
        + device_rules() + ";; Allowed read paths\n"@;
    let mid = "\n"@ + ";; Allowed write paths strictly restricted to ephemeral scratch space\n"@;
    let tail = "\n"@ + (if allow_loopback_network { loopback_rules() } else { Seq::empty() })
        + ";; Explicit denial of credential and secret locations\n"@ + match home {
        Some(h) => credential_rules(h),
        None => Seq::empty(),
    };
    let rr = read_rules(read_paths);
    let wr = all_write_rules(write_paths);
    assert(prof =~= head + rr + (mid + wr + tail));
    assert(prof =~= (head + rr + mid) + wr + tail);
    assert forall|j: int| 0 <= j < read_paths.len() implies contains_text(
        prof,
        "(allow file-read* (subpath \""@ + #[trigger] read_paths[j] + "\"))\n"@,
    ) by {
        lemma_read_rules_contain(read_paths, j);
        lemma_occurs_extend(rr, "(allow file-read* (subpath \""@ + read_paths[j] + "\"))\n"@, head, mid + wr + tail);
    }
    assert forall|j: int| 0 <= j < write_paths.len() implies contains_text(
        prof,
        "(allow file-read* (subpath \""@ + #[trigger] write_paths[j] + "\"))\n"@,
    ) && contains_text(prof, "(allow file-write* (subpath \""@ + write_paths[j] + "\"))\n"@) by {
        lemma_write_rules_contain(write_paths, j);
        lemma_occurs_extend(wr, "(allow file-read* (subpath \""@ + write_paths[j] + "\"))\n"@, head + rr + mid, tail);
        lemma_occurs_extend(wr, "(allow file-write* (subpath \""@ + write_paths[j] + "\"))\n"@, head + rr + mid, tail);
    }
}

/// The profile after its opening lines, by part: process rules, the device, read and write
/// rules, loopback rules, then the credential section.
pub open spec fn profile_after_opening(
    read_paths: Seq<Seq<char>>,
    write_paths: Seq<Seq<char>>,
    allow_loopback_network: bool,
    allow_process_exec: bool,
    home: Option<Seq<char>>,
) -> Seq<char> {
    (if allow_process_exec { process_rules() } else { Seq::empty() }) + (device_rules() + ";; Allowed read paths\n"@
        + read_rules(read_paths) + "\n"@ + ";; Allowed write paths strictly restricted to ephemeral scratch space\n"@
        + all_write_rules(write_paths) + "\n"@) + (if allow_loopback_network { loopback_rules() } else { Seq::empty() })
        + ";; Explicit denial of credential and secret locations\n"@ + match home {
        Some(h) => credential_rules(h),
        None => Seq::empty(),
    }
}

#[verifier::rlimit(40)]
proof fn lemma_profile_split(
    read_paths: Seq<Seq<char>>,
    write_paths: Seq<Seq<char>>,
    allow_loopback_network: bool,
    allow_process_exec: bool,
    home: Option<Seq<char>>,
)
    ensures
        seatbelt_profile(read_paths, write_paths, allow_loopback_network, allow_process_exec, home)
            == "(version 1)\n"@ + "(deny default)\n\n"@
            + profile_after_opening(read_paths, write_paths, allow_loopback_network, allow_process_exec, home),
{
    assert(seatbelt_profile(read_paths, write_paths, allow_loopback_network, allow_process_exec, home)
        =~= "(version 1)\n"@ + "(deny default)\n\n"@
        + profile_after_opening(read_paths, write_paths, allow_loopback_network, allow_process_exec, home));
}

/// Every profile opens by denying everything by default; loopback networking, when allowed,
/// permits outbound connections to localhost; process execution, when allowed, is granted;
/// and with a home directory the profile denies reads of its `.ssh`, `.aws` and `.gnupg`
/// directories.
pub proof fn lemma_profile_denies_by_default(
    read_paths: Seq<Seq<char>>,
    write_paths: Seq<Seq<char>>,
    allow_loopback_network: bool,
    allow_process_exec: bool,
    home: Option<Seq<char>>,
)
    ensures
        ({
            let prof = seatbelt_profile(read_paths, write_paths, allow_loopback_network, allow_process_exec, home);
            let opening = "(version 1)\n"@ + "(deny default)\n\n"@;
            &&& prof.len() >= opening.len()
            &&& prof.take(opening.len() as int) == opening
            &&& allow_loopback_network ==> contains_text(prof, "(allow network-outbound (to ip \"localhost:*\"))\n"@)
            &&& allow_process_exec ==> contains_text(prof, "(allow process-exec)\n"@)
            &&& home matches Some(h) ==> {
                &&& contains_text(prof, "(deny file-read* (subpath \""@ + h + "/.ssh\"))\n"@)
                &&& contains_text(prof, "(deny file-read* (subpath \""@ + h + "/.aws\"))\n"@)
                &&& contains_text(prof, "(deny file-read* (subpath \""@ + h + "/.gnupg\"))\n"@)
            }
        }),
{
    let prof = seatbelt_profile(read_paths, write_paths, allow_loopback_network, allow_process_exec, home);
    let opening = "(version 1)\n"@ + "(deny default)\n\n"@;
    let rest = profile_after_opening(read_paths, write_paths, allow_loopback_network, allow_process_exec, home);
    lemma_profile_split(read_paths, write_paths, allow_loopback_network, allow_process_exec, home);
    assert(prof.take(opening.len() as int) =~= opening);
    let pr = if allow_process_exec { process_rules() } else { Seq::empty() };
    let body = device_rules() + ";; Allowed read paths\n"@ + read_rules(read_paths) + "\n"@
        + ";; Allowed write paths strictly restricted to ephemeral scratch space\n"@ + all_write_rules(write_paths) + "\n"@;
    let lb = if allow_loopback_network { loopback_rules() } else { Seq::empty() };
    let cred_head = ";; Explicit denial of credential and secret locations\n"@;
    let cred = match home { Some(h) => credential_rules(h), None => Seq::empty() };
    assert(rest == pr + body + lb + cred_head + cred);
    if allow_loopback_network {
        assert(contains_text(prof, "(allow network-outbound (to ip \"localhost:*\"))\n"@)) by {
            let line = "(allow network-outbound (to ip \"localhost:*\"))\n"@;
            let after = "(allow network-inbound (local ip \"localhost:*\"))\n"@ + "(allow network-bind (local ip \"localhost:*\"))\n\n"@;
            assert(lb =~= ";; Loopback network egress confined to transparent mock proxy\n"@ + line + after);
            lemma_occurs_in_middle(";; Loopback network egress confined to transparent mock proxy\n"@, line, after);
            lemma_occurs_extend(lb, line, opening + pr + body, cred_head + cred);
            assert(prof =~= (opening + pr + body) + lb + (cred_head + cred));
        }
    }
    if allow_process_exec {
        assert(contains_text(prof, "(allow process-exec)\n"@)) by {
            let line = "(allow process-exec)\n"@;
            let head = ";; Process execution within ephemeral boundary\n"@;
            let after = "(allow process-exec (literal \"/bin/echo\"))\n"@ + "(allow process-fork)\n"@ + "(allow sysctl-read)\n\n"@;
            assert(pr =~= head + line + after);
            lemma_occurs_in_middle(head, line, after);
            lemma_occurs_extend(pr, line, opening, body + lb + cred_head + cred);
            assert(prof =~= opening + pr + (body + lb + cred_head + cred));
        }
    }
    match home {
        Some(h) => {
            let ssh = "(deny file-read* (subpath \""@ + h + "/.ssh\"))\n"@;
            let aws = "(deny file-read* (subpath \""@ + h + "/.aws\"))\n"@;
            let gnupg = "(deny file-read* (subpath \""@ + h + "/.gnupg\"))\n"@;
            let before = opening + pr + body + lb + cred_head;
            assert(cred =~= ssh + aws + gnupg);
            assert(prof =~= before + cred + Seq::<char>::empty());
            assert(contains_text(cred, ssh)) by {
                lemma_occurs_in_middle(Seq::<char>::empty(), ssh, aws + gnupg);
                assert(cred =~= Seq::<char>::empty() + ssh + (aws + gnupg));
            }
            assert(contains_text(cred, aws)) by {
                lemma_occurs_in_middle(ssh, aws, gnupg);
            }
            assert(contains_text(cred, gnupg)) by {
                lemma_occurs_in_middle(ssh + aws, gnupg, Seq::<char>::empty());
                assert(cred =~= (ssh + aws) + gnupg + Seq::<char>::empty());
            }
            lemma_occurs_extend(cred, ssh, before, Seq::<char>::empty());
            lemma_occurs_extend(cred, aws, before, Seq::<char>::empty());
            lemma_occurs_extend(cred, gnupg, before, Seq::<char>::empty());
        },
        None => {},
    }
}

fn push_process_rules(sbpl: &mut String)
    ensures
        final(sbpl)@ == old(sbpl)@ + process_rules(),
{
    sbpl.append(";; Process execution within ephemeral boundary\n");
    sbpl.append("(allow process-exec)\n");
    sbpl.append("(allow process-exec (literal \"/bin/echo\"))\n");
    sbpl.append("(allow process-fork)\n");
    sbpl.append("(allow sysctl-read)\n\n");
    assert(sbpl@ =~= old(sbpl)@ + process_rules());
}

fn push_device_rules(sbpl: &mut String)
    ensures
        final(sbpl)@ == old(sbpl)@ + device_rules(),
{
    sbpl.append(";; Terminal and standard device descriptors\n");
    sbpl.append(
        "(allow file-read-data (literal \"/dev/null\") (literal \"/dev/zero\") (literal \"/dev/urandom\") (literal \"/dev/dtracehelper\"))\n",
    );
    sbpl.append("(allow file-write-data (literal \"/dev/null\") (literal \"/dev/zero\") (literal \"/dev/dtracehelper\"))\n");
    sbpl.append("(allow file-ioctl (literal \"/dev/dtracehelper\") (literal \"/dev/null\"))\n\n");
    assert(sbpl@ =~= old(sbpl)@ + device_rules());
}

fn push_read_rules(sbpl: &mut String, paths: &Vec<String>)
    ensures
        final(sbpl)@ == old(sbpl)@ + read_rules(path_texts(paths@)),
{
    let ghost before_read = sbpl@;
    let ghost reads = path_texts(paths@);
    let mut i: usize = 0;
    while i < paths.len()
        invariant
            reads == path_texts(paths@),
            before_read == old(sbpl)@,
            i <= reads.len(),
            sbpl@ == before_read + read_rules(reads.take(i as int)),
        decreases reads.len() - i,
    {
        assert(reads.take(i + 1).drop_last() =~= reads.take(i as int));
        sbpl.append("(allow file-read* (subpath \"");
        sbpl.append(paths[i].as_str());
        sbpl.append("\"))\n");
        assert(sbpl@ =~= before_read + read_rules(reads.take(i + 1)));
        i = i + 1;
    }
    assert(reads.take(reads.len() as int) =~= reads);
}

fn push_write_rules(sbpl: &mut String, paths: &Vec<String>)
    ensures
        final(sbpl)@ == old(sbpl)@ + all_write_rules(path_texts(paths@)),
{
    let ghost before_write = sbpl@;
    let ghost writes = path_texts(paths@);
    let mut i: usize = 0;
    while i < paths.len()
        invariant
            writes == path_texts(paths@),
            before_write == old(sbpl)@,
            i <= writes.len(),
            sbpl@ == before_write + all_write_rules(writes.take(i as int)),
        decreases writes.len() - i,
    {
        assert(writes.take(i + 1).drop_last() =~= writes.take(i as int));
        sbpl.append("(allow file-write* (subpath \"");
        sbpl.append(paths[i].as_str());
        sbpl.append("\"))\n");
        sbpl.append("(allow file-read* (subpath \"");
        sbpl.append(paths[i].as_str());
        sbpl.append("\"))\n");
        assert(sbpl@ =~= before_write + all_write_rules(writes.take(i + 1)));
        i = i + 1;
    }
    assert(writes.take(writes.len() as int) =~= writes);
}

fn push_loopback_rules(sbpl: &mut String)
    ensures
        final(sbpl)@ == old(sbpl)@ + loopback_rules(),
{
    sbpl.append(";; Loopback network egress confined to transparent mock proxy\n");
    sbpl.append("(allow network-outbound (to ip \"localhost:*\"))\n");
    sbpl.append("(allow network-inbound (local ip \"localhost:*\"))\n");
    sbpl.append("(allow network-bind (local ip \"localhost:*\"))\n\n");
    assert(sbpl@ =~= old(sbpl)@ + loopback_rules());
}

fn push_credential_rules(sbpl: &mut String, h: &str)
    ensures
        final(sbpl)@ == old(sbpl)@ + credential_rules(h@),
{
    sbpl.append("(deny file-read* (subpath \"");
    sbpl.append(h);
    sbpl.append("/.ssh\"))\n");
    sbpl.append("(deny file-read* (subpath \"");
    sbpl.append(h);
    sbpl.append("/.aws\"))\n");
    sbpl.append("(deny file-read* (subpath \"");
    sbpl.append(h);
    sbpl.append("/.gnupg\"))\n");
    assert(sbpl@ =~= old(sbpl)@ + credential_rules(h@));
}

/// Generates a strict, deterministic SBPL profile for a configuration and the home directory
/// of the sandboxed process, if it has one.
pub fn generate_seatbelt_profile(config: &SeatbeltConfig, home: Option<&str>) -> (r: String)
    ensures
        r@ == seatbelt_profile(
            path_texts(config.allowed_read_paths@),
            path_texts(config.allowed_write_paths@),
            config.allow_loopback_network,
            config.allow_process_exec,
            match home { Some(h) => Some(h@), None => None },
        ),
        forall|j: int|
            0 <= j < config.allowed_write_paths@.len() ==> contains_text(
                r@,
                "(allow file-read* (subpath \""@ + (#[trigger] config.allowed_write_paths@[j])@ + "\"))\n"@,
            ) && contains_text(r@, "(allow file-write* (subpath \""@ + config.allowed_write_paths@[j]@ + "\"))\n"@),
        forall|j: int|
            0 <= j < config.allowed_read_paths@.len() ==> contains_text(
                r@,
                "(allow file-read* (subpath \""@ + (#[trigger] config.allowed_read_paths@[j])@ + "\"))\n"@,
            ),
{
    let mut sbpl = String::new();
    sbpl.append("(version 1)\n");
    sbpl.append("(deny default)\n\n");
    if config.allow_process_exec {
        push_process_rules(&mut sbpl);
    }
    push_device_rules(&mut sbpl);
    sbpl.append(";; Allowed read paths\n");
    push_read_rules(&mut sbpl, &config.allowed_read_paths);
    sbpl.append("\n");
    sbpl.append(";; Allowed write paths strictly restricted to ephemeral scratch space\n");
    push_write_rules(&mut sbpl, &config.allowed_write_paths);
    sbpl.append("\n");
    if config.allow_loopback_network {
        push_loopback_rules(&mut sbpl);
    }
    sbpl.append(";; Explicit denial of credential and secret locations\n");
    match home {
        Some(h) => {
            push_credential_rules(&mut sbpl, h);
        },
        None => {},
    }
    assert(sbpl@ =~= seatbelt_profile(
        path_texts(config.allowed_read_paths@),
        path_texts(config.allowed_write_paths@),
        config.allow_loopback_network,
        config.allow_process_exec,
        match home { Some(h) => Some(h@), None => None },
    ));
    proof {
        let reads = path_texts(config.allowed_read_paths@);
        let writes = path_texts(config.allowed_write_paths@);
        lemma_profile_grants_configured_paths(
            reads,
            writes,
            config.allow_loopback_network,
            config.allow_process_exec,
            match home { Some(h) => Some(h@), None => None },
        );
        assert forall|j: int| 0 <= j < config.allowed_write_paths@.len() implies contains_text(
            sbpl@,
            "(allow file-read* (subpath \""@ + (#[trigger] config.allowed_write_paths@[j])@ + "\"))\n"@,
        ) && contains_text(sbpl@, "(allow file-write* (subpath \""@ + config.allowed_write_paths@[j]@ + "\"))\n"@) by {
            assert(writes[j] == config.allowed_write_paths@[j]@);
        }
        assert forall|j: int| 0 <= j < config.allowed_read_paths@.len() implies contains_text(
            sbpl@,
            "(allow file-read* (subpath \""@ + (#[trigger] config.allowed_read_paths@[j])@ + "\"))\n"@,
        ) by {
            assert(reads[j] == config.allowed_read_paths@[j]@);
        }
    }
    sbpl
}

} // verus!
