//! Hosts: this device and the machines reached over SSH, as the hosts view
//! lists them, and the checks on a host the user adds.
use crate::error::{AppError, ErrorKind};
use crate::text::{chars_of, decimal, opt_view, push_char, push_str, str_eq, string_of_range, to_decimal, trim, trim_bounds};
use vstd::prelude::*;

verus! {

/// An agent found on a host, as the UI shows it.
pub struct HostAgentDto {
    pub agent_type: String,
    pub display_name: String,
    pub skill_path: String,
    pub status: String,
    pub skill_count: usize,
}

/// A host as the UI shows it.
pub struct HostDto {
    pub id: String,
    pub name: String,
    pub host_type: String,
    pub status: String,
    pub platform: String,
    pub user: Option<String>,
    pub connection_label: String,
    pub agent_count: usize,
    pub skill_count: usize,
    pub updated_at: i64,
    pub agents: Vec<HostAgentDto>,
}

/// A skill found on a host.
pub struct HostSkillDto {
    pub name: String,
    pub relative_path: String,
    pub path: String,
}

/// How a host is reached over SSH.
pub struct SshHostConfig {
    pub ssh_target: String,
    pub host_name: Option<String>,
    pub user: Option<String>,
    pub port: Option<u16>,
}

/// A host as the store records it.
pub struct HostRecord {
    pub id: String,
    pub name: String,
    pub host_type: String,
    pub config_json: String,
    pub status: String,
    pub created_at: i64,
    pub updated_at: i64,
}

/// An agent of a host as the store records it.
pub struct HostAgentRecord {
    pub agent_type: String,
    pub skill_path: String,
    pub status: String,
    pub metadata_json: Option<String>,
}

/// What the stored metadata of a host's agent says.
pub struct HostAgentMetadata {
    pub display_name: String,
    pub skill_count: usize,
}

/// How the UI labels an SSH connection: `user@host:port`, each of `user@`
/// and `:port` only where configured, the host being the configured host
/// name or else the SSH target.
pub open spec fn spec_connection_label(config: SshHostConfig) -> Seq<char> {
    let host = match config.host_name {
        Some(h) => h@,
        None => config.ssh_target@,
    };
    match (config.user, config.port) {
        (Some(u), Some(p)) => u@ + "@"@ + host + ":"@ + decimal(p as nat),
        (Some(u), None) => u@ + "@"@ + host,
        (None, Some(p)) => host + ":"@ + decimal(p as nat),
        (None, None) => host,
    }
}

/// The label of an SSH connection (see [`spec_connection_label`]).
pub fn ssh_connection_label(config: &SshHostConfig) -> (r: String)
    ensures
        r@ == spec_connection_label(*config),
{
    let host = match &config.host_name {
        Some(h) => h.as_str(),
        None => config.ssh_target.as_str(),
    };
    let mut out = String::new();
    if let Some(u) = &config.user {
        push_str(&mut out, u.as_str());
        push_str(&mut out, "@");
    }
    push_str(&mut out, host);
    if let Some(p) = config.port {
        push_str(&mut out, ":");
        let d = to_decimal(p as u128);
        push_str(&mut out, d.as_str());
    }
    proof {
        let cfg = *config;
        let hv = match cfg.host_name {
            Some(h) => h@,
            None => cfg.ssh_target@,
        };
        assert(host@ == hv);
        match (cfg.user, cfg.port) {
            (Some(u), Some(p)) => {
                assert(out@ =~= u@ + "@"@ + hv + ":"@ + decimal(p as nat));
            },
            (Some(u), None) => {
                assert(out@ =~= u@ + "@"@ + hv);
            },
            (None, Some(p)) => {
                assert(out@ =~= hv + ":"@ + decimal(p as nat));
            },
            (None, None) => {
                assert(out@ =~= hv);
            },
        }
    }
    out
}

/// An agent of a host as the UI shows it: its display name and skill count
/// from its stored metadata where that could be read, else its type and no
/// skills.
pub fn host_agent_dto(record: &HostAgentRecord, metadata: &Option<HostAgentMetadata>) -> (r: HostAgentDto)
    ensures
        r.agent_type@ == record.agent_type@,
        r.display_name@ == match metadata {
            Some(m) => m.display_name@,
            None => record.agent_type@,
        },
        r.skill_path@ == record.skill_path@,
        r.status@ == record.status@,
        r.skill_count == match metadata {
            Some(m) => m.skill_count,
            None => 0,
        },
{
    HostAgentDto {
        agent_type: record.agent_type.clone(),
        display_name: match metadata {
            Some(m) => m.display_name.clone(),
            None => record.agent_type.clone(),
        },
        skill_path: record.skill_path.clone(),
        status: record.status.clone(),
        skill_count: match metadata {
            Some(m) => m.skill_count,
            None => 0,
        },
    }
}

/// The skill count of an agent with the given metadata.
pub open spec fn agent_skill_count(metadata: Option<HostAgentMetadata>) -> nat {
    match metadata {
        Some(m) => m.skill_count as nat,
        None => 0,
    }
}

/// The skills of all the agents.
pub open spec fn total_skills(agents: Seq<(HostAgentRecord, Option<HostAgentMetadata>)>) -> nat
    decreases agents.len(),
{
    if agents.len() == 0 {
        0
    } else {
        total_skills(agents.drop_last()) + agent_skill_count(agents.last().1)
    }
}

proof fn lemma_total_skills_monotone(agents: Seq<(HostAgentRecord, Option<HostAgentMetadata>)>, k: int)
    requires
        0 <= k <= agents.len(),
    ensures
        total_skills(agents.take(k)) <= total_skills(agents),
    decreases agents.len() - k,
{
    if k < agents.len() {
        lemma_total_skills_monotone(agents, k + 1);
        assert(agents.take(k + 1).drop_last() =~= agents.take(k));
    } else {
        assert(agents.take(k) =~= agents);
    }
}

/// An SSH host as the UI shows it, from its record, its connection settings
/// and its agents with their metadata (where it could be read): the
/// connection label, the number of agents and the total of their skills.
pub fn host_to_dto(record: &HostRecord, config: &SshHostConfig, agents: &Vec<(HostAgentRecord, Option<HostAgentMetadata>)>) -> (r: HostDto)
    requires
        total_skills(agents@) <= usize::MAX,
    ensures
        r.id@ == record.id@,
        r.name@ == record.name@,
        r.host_type@ == record.host_type@,
        r.status@ == record.status@,
        r.platform@ == "ssh"@,
        opt_view(r.user) == opt_view(config.user),
        r.connection_label@ == spec_connection_label(*config),
        r.agent_count == agents.len(),
        r.skill_count == total_skills(agents@),
        r.updated_at == record.updated_at,
        r.agents.len() == agents.len(),
        forall|i: int| 0 <= i < agents.len() ==> {
            let a = #[trigger] r.agents@[i];
            let (rec, meta) = agents@[i];
            &&& a.agent_type@ == rec.agent_type@
            &&& a.display_name@ == match meta {
                Some(m) => m.display_name@,
                None => rec.agent_type@,
            }
            &&& a.skill_path@ == rec.skill_path@
            &&& a.status@ == rec.status@
            &&& a.skill_count == agent_skill_count(meta)
        },
{
    let mut dtos: Vec<HostAgentDto> = Vec::new();
    let mut total: usize = 0;
    let mut i: usize = 0;
    while i < agents.len()
        invariant
            i <= agents.len(),
            dtos.len() == i,
            total == total_skills(agents@.take(i as int)),
            total_skills(agents@) <= usize::MAX,
            forall|k: int| 0 <= k < i ==> {
                let a = #[trigger] dtos@[k];
                let (rec, meta) = agents@[k];
                &&& a.agent_type@ == rec.agent_type@
                &&& a.display_name@ == match meta {
                    Some(m) => m.display_name@,
                    None => rec.agent_type@,
                }
                &&& a.skill_path@ == rec.skill_path@
                &&& a.status@ == rec.status@
                &&& a.skill_count == agent_skill_count(meta)
            },
        decreases agents.len() - i,
    {
        let d = host_agent_dto(&agents[i].0, &agents[i].1);
        proof {
            assert(agents@.take(i + 1).drop_last() =~= agents@.take(i as int));
            lemma_total_skills_monotone(agents@, i + 1);
        }
        total = total + d.skill_count;
        dtos.push(d);
        i += 1;
    }
    assert(agents@.take(agents.len() as int) =~= agents@);
    let user = crate::text::clone_opt(&config.user);
    HostDto {
        id: record.id.clone(),
        name: record.name.clone(),
        host_type: record.host_type.clone(),
        status: record.status.clone(),
        platform: "ssh".to_string(),
        user,
        connection_label: ssh_connection_label(config),
        agent_count: agents.len(),
        skill_count: total,
        updated_at: record.updated_at,
        agents: dtos,
    }
}

/// The settings (where they could be read) use the SSH target `t`.
pub open spec fn uses_target(config: Option<SshHostConfig>, t: Seq<char>) -> bool {
    match config {
        Some(c) => c.ssh_target@ == t,
        None => false,
    }
}

/// Why a new SSH host is refused, if it is: a blank name or target, a name
/// that an existing host has up to ASCII case, or a target that an existing
/// host (whose settings could be read) already uses.
pub open spec fn new_host_problem(name: Seq<char>, ssh_target: Seq<char>, existing: Seq<(HostRecord, Option<SshHostConfig>)>) -> Option<Seq<char>> {
    let n = trim(name);
    let t = trim(ssh_target);
    if n.len() == 0 || t.len() == 0 {
        Some("Name and SSH target are required"@)
    } else if exists|i: int| 0 <= i < existing.len() && crate::workspace::eq_ignore_ascii_case((#[trigger] existing[i]).0.name@, n) {
        Some("Host name already exists: "@ + n)
    } else if exists|i: int| 0 <= i < existing.len() && uses_target((#[trigger] existing[i]).1, t) {
        Some("SSH target already exists: "@ + t)
    } else {
        None
    }
}

/// Checks a host the user adds against the hosts already there (see
/// [`new_host_problem`]); gives its trimmed name and target.
pub fn check_new_ssh_host(name: &str, ssh_target: &str, existing: &Vec<(HostRecord, Option<SshHostConfig>)>) -> (r: Result<(String, String), AppError>)
    ensures
        match new_host_problem(name@, ssh_target@, existing@) {
            Some(m) => r matches Err(e) && e.kind == ErrorKind::InvalidInput && e.message@ == m,
            None => r matches Ok((n, t)) && n@ == trim(name@) && t@ == trim(ssh_target@),
        },
{
    let nc = chars_of(name);
    let (a, z) = trim_bounds(&nc, 0, nc.len());
    assert(nc@.subrange(0, nc.len() as int) =~= name@);
    let n = string_of_range(&nc, a, z);
    let tc = chars_of(ssh_target);
    let (p, q) = trim_bounds(&tc, 0, tc.len());
    assert(tc@.subrange(0, tc.len() as int) =~= ssh_target@);
    let t = string_of_range(&tc, p, q);
    if a == z || p == q {
        return Err(AppError::invalid_input("Name and SSH target are required"));
    }
    let mut i: usize = 0;
    while i < existing.len()
        invariant
            i <= existing.len(),
            n@ == trim(name@),
            t@ == trim(ssh_target@),
            n@.len() > 0,
            t@.len() > 0,
            forall|k: int| 0 <= k < i ==> !crate::workspace::eq_ignore_ascii_case((#[trigger] existing@[k]).0.name@, n@),
        decreases existing.len() - i,
    {
        if crate::workspace::eq_ignore_case_str(existing[i].0.name.as_str(), n.as_str()) {
            let mut msg = "Host name already exists: ".to_string();
            push_str(&mut msg, n.as_str());
            assert(msg@ =~= "Host name already exists: "@ + n@);
            return Err(AppError { kind: ErrorKind::InvalidInput, message: msg });
        }
        i += 1;
    }
    let mut j: usize = 0;
    while j < existing.len()
        invariant
            j <= existing.len(),
            n@ == trim(name@),
            t@ == trim(ssh_target@),
            n@.len() > 0,
            t@.len() > 0,
            forall|k: int| 0 <= k < existing.len() ==> !crate::workspace::eq_ignore_ascii_case((#[trigger] existing@[k]).0.name@, n@),
            forall|k: int| 0 <= k < j ==> !uses_target((#[trigger] existing@[k]).1, t@),
        decreases existing.len() - j,
    {
        let same = match &existing[j].1 {
            Some(c) => str_eq(c.ssh_target.as_str(), t.as_str()),
            None => false,
        };
        if same {
            let mut msg = "SSH target already exists: ".to_string();
            push_str(&mut msg, t.as_str());
            assert(msg@ =~= "SSH target already exists: "@ + t@);
            return Err(AppError { kind: ErrorKind::InvalidInput, message: msg });
        }
        j += 1;
    }
    Ok((n, t))
}

} // verus!
