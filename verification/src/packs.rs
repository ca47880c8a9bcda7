//! Content-pack preferences, the network gate every pack network command
//! passes first, the registry-URL rule, and the bounded network-call log.
use vstd::prelude::*;
use crate::text::{chars_of, owned, string_of, trim, trim_vec};

verus! {

/// The default registry location: a seed for a fresh preferences file,
/// which the operator can repoint.
pub const DEFAULT_REGISTRY_URL: &'static str = "https://raw.githubusercontent.com/overlooked-arcade/oa-pack-registry/main/registry.json";

/// Error every pack network command returns while network calls are off.
pub const NETWORK_DISABLED: &'static str = "NETWORK_DISABLED: pack network calls are off (Settings → Privacy → Allow network calls)";

/// How many recent network calls the log keeps.
pub const MAX_ENTRIES: usize = 100;

/// Content-pack preferences.
#[derive(Clone, Debug, PartialEq, Eq)]
pub struct PacksPrefs {
    /// Where `registry.json` is fetched from.
    pub registry_url: String,
    /// Master network toggle; on by default.
    pub allow_network: bool,
    /// Timestamp of the last successful registry fetch.
    pub last_checked: Option<String>,
}

impl Default for PacksPrefs {
    fn default() -> (r: Self)
        ensures
            r.registry_url@ == DEFAULT_REGISTRY_URL@,
            r.allow_network,
            r.last_checked is None,
    {
        PacksPrefs { registry_url: owned(DEFAULT_REGISTRY_URL), allow_network: true, last_checked: None }
    }
}

/// Network permission check run before any pack request: `Ok` when
/// network calls are allowed, else the `NETWORK_DISABLED` error.
pub fn ensure_network_allowed(prefs: &PacksPrefs) -> (r: Result<(), String>)
    ensures
        r is Ok <==> prefs.allow_network,
        r matches Err(e) ==> e@ == NETWORK_DISABLED@,
{
    if prefs.allow_network {
        Ok(())
    } else {
        Err(owned(NETWORK_DISABLED))
    }
}

/// The registry URL stored for an operator's entry: the entry trimmed, or
/// the default when that is empty.
pub open spec fn registry_url_for(url: Seq<char>) -> Seq<char> {
    if trim(url).len() == 0 {
        DEFAULT_REGISTRY_URL@
    } else {
        trim(url)
    }
}

/// The registry URL stored for an operator's entry: the entry trimmed, or
/// the default when that is empty.
pub fn registry_url_from_input(url: &str) -> (r: String)
    ensures
        r@ == registry_url_for(url@),
{
    let t = trim_vec(&chars_of(url));
    if t.len() == 0 {
        owned(DEFAULT_REGISTRY_URL)
    } else {
        string_of(&t)
    }
}

#[verifier::external_type_specification]
#[verifier::external_body]
pub struct ExPathBuf(std::path::PathBuf);

/// The directory next to the shell's executable, under which packs
/// install to `<type>/community/<pack_id>/`.
pub struct PacksRoot(pub std::path::PathBuf);

/// One installed pack, read from its `manifest.yml`.
#[derive(Clone, Debug)]
pub struct InstalledPack {
    pub id: String,
    pub pack_type: String,
    pub name: String,
    pub version: String,
    pub license: Option<String>,
    /// Absolute install path (`<exe_dir>/<type>/community/<id>`).
    pub path: String,
}

/// Result of an update check and apply.
#[derive(Clone, Debug)]
pub struct UpdateOutcome {
    /// Whether a newer version was installed.
    pub updated: bool,
    pub from_version: String,
    pub to_version: String,
}

/// Index of the first installed pack with id `id`, or `packs.len()`.
pub open spec fn pack_index(packs: Seq<InstalledPack>, id: Seq<char>) -> nat
    decreases packs.len(),
{
    if packs.len() == 0 {
        0
    } else if packs[0].id@ == id {
        0
    } else {
        1 + pack_index(packs.drop_first(), id)
    }
}

proof fn lemma_pack_index_at(packs: Seq<InstalledPack>, id: Seq<char>, i: int)
    requires
        0 <= i <= packs.len(),
        forall|j: int| 0 <= j < i ==> (#[trigger] packs[j]).id@ != id,
        i == packs.len() || packs[i].id@ == id,
    ensures
        pack_index(packs, id) == i,
    decreases i,
{
    if i > 0 {
        let t = packs.drop_first();
        assert forall|j: int| 0 <= j < i - 1 implies (#[trigger] t[j]).id@ != id by {
            assert(t[j] == packs[j + 1]);
        }
        if i < packs.len() {
            assert(t[i - 1] == packs[i]);
        }
        lemma_pack_index_at(t, id, i - 1);
    }
}

/// The first installed pack with id `id`.
pub fn find_installed(packs: &[InstalledPack], id: &str) -> (r: Option<usize>)
    ensures
        match r {
            Some(i) => i == pack_index(packs@, id@) && i < packs.len(),
            None => pack_index(packs@, id@) == packs.len(),
        },
{
    let mut i: usize = 0;
    while i < packs.len()
        invariant
            i <= packs.len(),
            forall|j: int| 0 <= j < i ==> (#[trigger] packs@[j]).id@ != id@,
        decreases packs.len() - i,
    {
        if crate::text::str_eq(packs[i].id.as_str(), id) {
            proof {
                lemma_pack_index_at(packs@, id@, i as int);
            }
            return Some(i);
        }
        i += 1;
    }
    proof {
        lemma_pack_index_at(packs@, id@, i as int);
    }
    None
}

/// One logged network call.
#[derive(Clone, Debug)]
pub struct NetLogEntry {
    /// When the call completed (RFC 3339).
    pub at: Option<String>,
    /// What triggered it: `registry`, `install:<id>`, `update:<id>`.
    pub action: String,
    /// The URL hit.
    pub url: String,
    /// `ok` or `error`.
    pub outcome: String,
    /// Error message on failure.
    pub detail: Option<String>,
}

/// The log after appending `e` to `log`: its last `MAX_ENTRIES` entries.
pub open spec fn appended_log(log: Seq<NetLogEntry>, e: NetLogEntry) -> Seq<NetLogEntry> {
    let all = log.push(e);
    if all.len() > MAX_ENTRIES {
        all.skip(all.len() - MAX_ENTRIES)
    } else {
        all
    }
}

/// Append one entry to the log, dropping the oldest entries beyond the
/// last `MAX_ENTRIES`.
pub fn push_trimmed(entries: &mut Vec<NetLogEntry>, e: NetLogEntry)
    ensures
        final(entries)@ == appended_log(old(entries)@, e),
{
    let ghost all = old(entries)@.push(e);
    entries.push(e);
    let ghost mut dropped: int = 0;
    while entries.len() > MAX_ENTRIES
        invariant
            0 <= dropped <= all.len(),
            entries@ == all.skip(dropped),
            all.len() > MAX_ENTRIES ==> dropped <= all.len() - MAX_ENTRIES,
            all.len() <= MAX_ENTRIES ==> dropped == 0,
        decreases entries.len(),
    {
        entries.remove(0);
        proof {
            dropped = dropped + 1;
        }
        assert(entries@ =~= all.skip(dropped));
    }
    assert(all.skip(0) =~= all);
}

/// Appending to the log keeps it at most `MAX_ENTRIES` long, keeps the new
/// entry last, and keeps the entries before it in order.
pub proof fn law_log_bounded(log: Seq<NetLogEntry>, e: NetLogEntry)
    requires
        log.len() <= MAX_ENTRIES,
    ensures
        appended_log(log, e).len() <= MAX_ENTRIES,
        appended_log(log, e).last() == e,
        appended_log(log, e).len() == (if log.len() == MAX_ENTRIES { log.len() } else { log.len() + 1 }),
        forall|i: int|
            0 <= i < appended_log(log, e).len() - 1 ==> #[trigger] appended_log(log, e)[i] == log[i
                + log.len() + 1 - appended_log(log, e).len()],
{
}

} // verus!
