//! The per-system registry: which systems `config/systems/` describes, and
//! the hot-fail rules a folder must pass to be admitted.
//!
//! Reading the folders is the caller's part: for each folder it hands over
//! what reading and decoding its three files gave ([`FolderRead`]). The
//! registry decides, in folder-name order, which folder fails first and
//! with which error, exactly as a load that stops at the first error.
use vstd::prelude::*;
use std::path::PathBuf;
use crate::system_descriptor::{BiosDescriptor, GamesDescriptor, LibretroDatRef, SystemDescriptor};
use crate::text::{chars_of, lex_less, lex_lt, lemma_lex_lt_irreflexive, lemma_lex_lt_transitive, str_eq};

verus! {

#[verifier::external_type_specification]
#[verifier::external_body]
pub struct ExIoError(std::io::Error);

/// One admitted system: its descriptor, the optional BIOS and game files,
/// and the folder it came from.
#[derive(Debug)]
pub struct LoadedSystem {
    pub descriptor: SystemDescriptor,
    pub bios: Option<BiosDescriptor>,
    pub games: Option<GamesDescriptor>,
    pub source_path: PathBuf,
}

/// Why a load was refused; each variant names the file to fix.
#[derive(Debug)]
pub enum RegistryError {
    /// The `config/systems/` folder itself could not be read.
    RootIo { path: PathBuf, source: std::io::Error },
    /// A per-system file could not be read.
    Io { path: PathBuf, source: std::io::Error },
    /// A per-system file did not decode.
    Parse { path: PathBuf, message: String },
    /// A per-system folder has no `system.yaml`.
    MissingSystemYaml { folder: PathBuf },
    /// The descriptor's `id` differs from its folder's name.
    IdMismatch { folder_name: String, declared_id: String, path: PathBuf },
    /// The embedded `system_info.system_id` differs from the descriptor's `id`.
    EmbeddedSystemInfoIdMismatch { descriptor_id: String, embedded_id: String, path: PathBuf },
    /// Two folders declare the same `id`.
    DuplicateId { id: String, paths: Vec<PathBuf> },
}

/// What reading and decoding one file of a system folder gave.
#[derive(Debug)]
pub enum FileRead<T> {
    /// No such file.
    Absent,
    /// The file exists but could not be read.
    Unreadable(std::io::Error),
    /// The file was read but did not decode; the decoder's message.
    Malformed(String),
    /// The decoded file.
    Parsed(T),
}

/// One folder under `config/systems/` as read from disk.
#[derive(Debug)]
pub struct FolderRead {
    pub folder_name: String,
    pub folder_path: PathBuf,
    pub system_yaml_path: PathBuf,
    pub system: FileRead<SystemDescriptor>,
    pub bios_path: PathBuf,
    pub bios: FileRead<BiosDescriptor>,
    pub games_path: PathBuf,
    pub games: FileRead<GamesDescriptor>,
}

/// The error an optional file raises: none when it is absent or decoded.
pub open spec fn optional_error<T>(r: FileRead<T>, path: PathBuf) -> Option<RegistryError> {
    match r {
        FileRead::Unreadable(e) => Some(RegistryError::Io { path, source: e }),
        FileRead::Malformed(m) => Some(RegistryError::Parse { path, message: m }),
        _ => None,
    }
}

/// The value an optional file contributes.
pub open spec fn optional_value<T>(r: FileRead<T>) -> Option<T> {
    match r {
        FileRead::Parsed(v) => Some(v),
        _ => None,
    }
}

/// The first error a folder raises, checked in this order: `system.yaml`
/// present, readable, decodable; its id equal to the folder name; the
/// embedded panel id equal to it; then `bios.yaml`, then `games.yaml`.
pub open spec fn folder_error(f: FolderRead) -> Option<RegistryError> {
    match f.system {
        FileRead::Absent => Some(RegistryError::MissingSystemYaml { folder: f.folder_path }),
        FileRead::Unreadable(e) => Some(RegistryError::Io { path: f.system_yaml_path, source: e }),
        FileRead::Malformed(m) => Some(RegistryError::Parse { path: f.system_yaml_path, message: m }),
        FileRead::Parsed(d) => {
            if d.id@ != f.folder_name@ {
                Some(
                    RegistryError::IdMismatch {
                        folder_name: f.folder_name,
                        declared_id: d.id,
                        path: f.system_yaml_path,
                    },
                )
            } else if d.system_info is Some && d.system_info->0.system_id@ != d.id@ {
                Some(
                    RegistryError::EmbeddedSystemInfoIdMismatch {
                        descriptor_id: d.id,
                        embedded_id: d.system_info->0.system_id,
                        path: f.system_yaml_path,
                    },
                )
            } else if optional_error(f.bios, f.bios_path) is Some {
                optional_error(f.bios, f.bios_path)
            } else {
                optional_error(f.games, f.games_path)
            }
        },
    }
}

/// The system a folder that raises no error contributes.
pub open spec fn loaded_of(f: FolderRead) -> LoadedSystem {
    LoadedSystem {
        descriptor: f.system->Parsed_0,
        bios: optional_value(f.bios),
        games: optional_value(f.games),
        source_path: f.folder_path,
    }
}

fn read_optional<T>(r: FileRead<T>, path: PathBuf) -> (out: Result<Option<T>, RegistryError>)
    ensures
        match optional_error(r, path) {
            Some(e) => out == Err::<Option<T>, RegistryError>(e),
            None => out == Ok::<Option<T>, RegistryError>(optional_value(r)),
        },
{
    match r {
        FileRead::Absent => Ok(None),
        FileRead::Unreadable(e) => Err(RegistryError::Io { path, source: e }),
        FileRead::Malformed(m) => Err(RegistryError::Parse { path, message: m }),
        FileRead::Parsed(v) => Ok(Some(v)),
    }
}

/// Admit one folder, or give the first error it raises.
pub fn load_one_system(f: FolderRead) -> (r: Result<LoadedSystem, RegistryError>)
    ensures
        match folder_error(f) {
            Some(e) => r == Err::<LoadedSystem, RegistryError>(e),
            None => r == Ok::<LoadedSystem, RegistryError>(loaded_of(f)),
        },
{
    let FolderRead {
        folder_name,
        folder_path,
        system_yaml_path,
        system,
        bios_path,
        bios,
        games_path,
        games,
    } = f;
    let descriptor = match system {
        FileRead::Absent => {
            return Err(RegistryError::MissingSystemYaml { folder: folder_path });
        },
        FileRead::Unreadable(e) => {
            return Err(RegistryError::Io { path: system_yaml_path, source: e });
        },
        FileRead::Malformed(m) => {
            return Err(RegistryError::Parse { path: system_yaml_path, message: m });
        },
        FileRead::Parsed(d) => d,
    };
    if !str_eq(descriptor.id.as_str(), folder_name.as_str()) {
        return Err(
            RegistryError::IdMismatch {
                folder_name,
                declared_id: descriptor.id,
                path: system_yaml_path,
            },
        );
    }
    let embedded_mismatch = match &descriptor.system_info {
        Some(panel) => !str_eq(panel.system_id.as_str(), descriptor.id.as_str()),
        None => false,
    };
    if embedded_mismatch {
        let embedded_id = match &descriptor.system_info {
            Some(panel) => panel.system_id.clone(),
            None => String::new(),
        };
        return Err(
            RegistryError::EmbeddedSystemInfoIdMismatch {
                descriptor_id: descriptor.id,
                embedded_id,
                path: system_yaml_path,
            },
        );
    }
    let bios = match read_optional(bios, bios_path) {
        Ok(b) => b,
        Err(e) => {
            return Err(e);
        },
    };
    let games = match read_optional(games, games_path) {
        Ok(g) => g,
        Err(e) => {
            return Err(e);
        },
    };
    Ok(LoadedSystem { descriptor, bios, games, source_path: folder_path })
}

/// No two systems share an id.
pub open spec fn distinct_ids(s: Seq<LoadedSystem>) -> bool {
    forall|a: int, b: int|
        0 <= a < b < s.len() ==> (#[trigger] s[a]).descriptor.id@ != (#[trigger] s[b]).descriptor.id@
}

/// Folders `i` and `j`, `i` first, share a name.
pub open spec fn shares_name(s: Seq<FolderRead>, i: int, j: int) -> bool {
    0 <= i < j < s.len() && s[i].folder_name@ == s[j].folder_name@
}

/// Some folder raises an error.
pub open spec fn some_folder_errs(s: Seq<FolderRead>) -> bool {
    exists|i: int| 0 <= i < s.len() && folder_error(#[trigger] s[i]) is Some
}

/// The paths of the folders named `name`, in order.
pub open spec fn paths_named(s: Seq<FolderRead>, name: Seq<char>) -> Seq<PathBuf>
    decreases s.len(),
{
    if s.len() == 0 {
        Seq::empty()
    } else {
        let before = paths_named(s.drop_last(), name);
        if s.last().folder_name@ == name {
            before.push(s.last().folder_path)
        } else {
            before
        }
    }
}

/// The loaded systems, keyed by id.
#[derive(Debug)]
pub struct SystemRegistry {
    by_id: Vec<LoadedSystem>,
    source_root: Option<PathBuf>,
}

impl SystemRegistry {
    /// The admitted systems.
    pub closed spec fn entries(self) -> Seq<LoadedSystem> {
        self.by_id@
    }

    /// The folder the registry was loaded from.
    pub closed spec fn root(self) -> Option<PathBuf> {
        self.source_root
    }

    #[verifier::type_invariant]
    spec fn ids_are_distinct(self) -> bool {
        distinct_ids(self.by_id@)
    }

    /// The system registered under `id`.
    pub open spec fn lookup(self, id: Seq<char>) -> Option<LoadedSystem> {
        if exists|i: int| 0 <= i < self.entries().len() && (#[trigger] self.entries()[i]).descriptor.id@ == id {
            Some(
                self.entries()[choose|i: int|
                    0 <= i < self.entries().len() && (#[trigger] self.entries()[i]).descriptor.id@ == id],
            )
        } else {
            None
        }
    }

    /// A registry with no systems and no source folder.
    pub fn empty() -> (r: Self)
        ensures
            r.entries().len() == 0,
            r.root() is None,
    {
        SystemRegistry { by_id: Vec::new(), source_root: None }
    }

    /// Admit the folders of `root`, each in order of folder name, stopping
    /// at the first folder that raises an error; then refuse two folders
    /// that declare the same id.
    ///
    /// The error returned is that of an erring folder whose name comes
    /// first; with none, two folders of one name give `DuplicateId` with
    /// the paths of every folder of that name; with neither, every
    /// folder's system is registered under its folder name.
    #[verifier::rlimit(60)]
    #[verifier::spinoff_prover]
    pub fn from_folders(root: PathBuf, folders: Vec<FolderRead>) -> (r: Result<Self, RegistryError>)
        ensures
            r is Err <==> some_folder_errs(folders@) || exists|i: int, j: int| #[trigger] shares_name(folders@, i, j),
            some_folder_errs(folders@) ==> (r matches Err(e) && exists|i: int|
                0 <= i < folders.len() && folder_error(#[trigger] folders@[i]) == Some(e) && forall|j: int|
                    0 <= j < folders.len() && folder_error(#[trigger] folders@[j]) is Some
                        ==> !lex_lt(folders@[j].folder_name@, folders@[i].folder_name@)),
            !some_folder_errs(folders@) ==> match r {
                Err(e) => e matches RegistryError::DuplicateId { id, paths } && (exists|i: int, j: int|
                    #[trigger] shares_name(folders@, i, j) && folders@[i].folder_name@ == id@) && paths@
                    == paths_named(folders@, id@),
                Ok(reg) => {
                    &&& reg.root() == Some(root)
                    &&& reg.entries().len() == folders.len()
                    &&& forall|i: int|
                        0 <= i < folders.len() ==> reg.lookup((#[trigger] folders@[i]).folder_name@) == Some(
                            loaded_of(folders@[i]),
                        )
                    &&& forall|id: Seq<char>|
                        #[trigger] reg.lookup(id) is Some ==> exists|i: int|
                            0 <= i < folders.len() && (#[trigger] folders@[i]).folder_name@ == id
                },
            },
    {
        let ghost all = folders@;
        let ghost n = all.len() as int;
        let mut rest = folders;
        let mut by_id: Vec<LoadedSystem> = Vec::new();
        let mut best_err: Option<RegistryError> = None;
        let mut best_name: Vec<char> = Vec::new();
        let ghost mut best_idx: int = 0;
        while rest.len() > 0
            invariant
                n == all.len(),
                rest@ == all.take(rest.len() as int),
                rest.len() <= all.len(),
                best_err is None ==> by_id.len() == all.len() - rest.len(),
                best_err is None ==> forall|m: int|
                    0 <= m < by_id.len() ==> #[trigger] by_id@[m] == loaded_of(all[n - 1 - m]),
                best_err is None <==> forall|k: int|
                    rest.len() <= k < all.len() ==> folder_error(#[trigger] all[k]) is None,
                best_err is Some ==> {
                    &&& rest.len() <= best_idx < all.len()
                    &&& best_name@ == all[best_idx].folder_name@
                    &&& folder_error(all[best_idx]) == best_err
                    &&& forall|k: int|
                        rest.len() <= k < all.len() && folder_error(#[trigger] all[k]) is Some
                            ==> !lex_lt(all[k].folder_name@, best_name@)
                },
            decreases rest.len(),
        {
            let ghost i: int = rest.len() - 1;
            let f = rest.pop().unwrap();
            assert(f == all[i]);
            assert(rest@ =~= all.take(i));
            let name = chars_of(f.folder_name.as_str());
            match load_one_system(f) {
                Ok(loaded) => {
                    assert(folder_error(all[i]) is None);
                    let ghost before = by_id@;
                    by_id.push(loaded);
                    proof {
                        if best_err is None {
                            assert forall|m: int| 0 <= m < by_id.len() implies #[trigger] by_id@[m] == loaded_of(
                                all[n - 1 - m],
                            ) by {
                                if m < before.len() {
                                    assert(by_id@[m] == before[m]);
                                }
                            }
                        }
                    }
                },
                Err(e) => {
                    assert(folder_error(all[i]) == Some(e));
                    let replace = match &best_err {
                        None => true,
                        Some(_) => lex_less(&name, &best_name),
                    };
                    if replace {
                        proof {
                            lemma_lex_lt_irreflexive(name@);
                            assert forall|k: int|
                                rest.len() <= k < all.len() && folder_error(#[trigger] all[k]) is Some
                                    implies !lex_lt(all[k].folder_name@, name@) by {
                                if k != i && lex_lt(all[k].folder_name@, name@) {
                                    lemma_lex_lt_transitive(all[k].folder_name@, name@, best_name@);
                                }
                            }
                            best_idx = i;
                        }
                        best_err = Some(e);
                        best_name = name;
                    }
                },
            }
        }
        match best_err {
            Some(e) => {
                proof {
                    assert(some_folder_errs(all)) by {
                        assert(folder_error(all[best_idx]) is Some);
                    }
                }
                Err(e)
            },
            None => {
                proof {
                    assert forall|k: int| 0 <= k < n implies folder_error(#[trigger] all[k]) is None by {}
                    assert(!some_folder_errs(all));
                }
                Self::admit_distinct(root, by_id, Ghost(all))
            },
        }
    }

    /// Register the systems of folders that all loaded, `by_id` holding
    /// them last folder first; refuse two of one id.
    #[verifier::rlimit(60)]
    #[verifier::spinoff_prover]
    fn admit_distinct(root: PathBuf, by_id: Vec<LoadedSystem>, Ghost(all): Ghost<Seq<FolderRead>>) -> (r: Result<
        Self,
        RegistryError,
    >)
        requires
            forall|k: int| 0 <= k < all.len() ==> folder_error(#[trigger] all[k]) is None,
            by_id.len() == all.len(),
            forall|m: int| 0 <= m < by_id.len() ==> #[trigger] by_id@[m] == loaded_of(all[all.len() - 1 - m]),
        ensures
            r is Err <==> exists|i: int, j: int| #[trigger] shares_name(all, i, j),
            match r {
                Err(e) => e matches RegistryError::DuplicateId { id, paths } && (exists|i: int, j: int|
                    #[trigger] shares_name(all, i, j) && all[i].folder_name@ == id@) && paths@ == paths_named(
                    all,
                    id@,
                ),
                Ok(reg) => {
                    &&& reg.root() == Some(root)
                    &&& reg.entries().len() == all.len()
                    &&& forall|i: int|
                        0 <= i < all.len() ==> reg.lookup((#[trigger] all[i]).folder_name@) == Some(loaded_of(all[i]))
                    &&& forall|id: Seq<char>|
                        #[trigger] reg.lookup(id) is Some ==> exists|i: int|
                            0 <= i < all.len() && (#[trigger] all[i]).folder_name@ == id
                },
            },
    {
        let ghost n = all.len() as int;
        proof {
            assert forall|m: int| 0 <= m < n implies (#[trigger] by_id@[m]).descriptor.id@ == all[n - 1 - m].folder_name@
                && by_id@[m].source_path == all[n - 1 - m].folder_path by {
                assert(folder_error(all[n - 1 - m]) is None);
            }
        }
        // Look for two systems of one id.
        let mut dup: Option<(usize, usize)> = None;
        let mut a: usize = 0;
        while a < by_id.len()
            invariant_except_break
                dup is None,
                forall|x: int, y: int|
                    0 <= x < a && x < y < by_id.len() ==> (#[trigger] by_id@[x]).descriptor.id@
                        != (#[trigger] by_id@[y]).descriptor.id@,
            invariant
                a <= by_id.len(),
            ensures
                dup matches Some(p) ==> p.0 < p.1 < by_id.len() && by_id@[p.0 as int].descriptor.id@
                    == by_id@[p.1 as int].descriptor.id@,
                dup is None ==> forall|x: int, y: int|
                    0 <= x < y < by_id.len() ==> (#[trigger] by_id@[x]).descriptor.id@
                        != (#[trigger] by_id@[y]).descriptor.id@,
            decreases by_id.len() - a,
        {
            let mut b: usize = a + 1;
            while b < by_id.len()
                invariant_except_break
                    dup is None,
                    forall|y: int| a < y < b ==> by_id@[a as int].descriptor.id@ != (#[trigger] by_id@[y]).descriptor.id@,
                invariant
                    a < b <= by_id.len(),
                ensures
                    dup matches Some(p) ==> p.0 == a && a < p.1 < by_id.len() && by_id@[p.0 as int].descriptor.id@
                        == by_id@[p.1 as int].descriptor.id@,
                    dup is None ==> forall|y: int|
                        a < y < by_id.len() ==> by_id@[a as int].descriptor.id@ != (#[trigger] by_id@[y]).descriptor.id@,
                decreases by_id.len() - b,
            {
                if str_eq(by_id[a].descriptor.id.as_str(), by_id[b].descriptor.id.as_str()) {
                    dup = Some((a, b));
                    break;
                }
                b += 1;
            }
            if dup.is_some() {
                break;
            }
            a += 1;
        }
        match dup {
            Some((x, y)) => {
                let id = by_id[x].descriptor.id.clone();
                proof {
                    assert(shares_name(all, n - 1 - y, n - 1 - x));
                    assert(all[n - 1 - y].folder_name@ == id@);
                }
                let mut rest = by_id;
                let mut paths: Vec<PathBuf> = Vec::new();
                while rest.len() > 0
                    invariant
                        n == all.len(),
                        rest.len() <= n,
                        forall|m: int| 0 <= m < rest.len() ==> #[trigger] rest@[m] == loaded_of(all[n - 1 - m]),
                        forall|m: int| 0 <= m < rest.len() ==> (#[trigger] rest@[m]).descriptor.id@ == all[n - 1
                            - m].folder_name@ && rest@[m].source_path == all[n - 1 - m].folder_path,
                        paths@ == paths_named(all.take(n - rest.len()), id@),
                    decreases rest.len(),
                {
                    let ghost k: int = n - rest.len();
                    let e = rest.pop().unwrap();
                    proof {
                        assert(e == loaded_of(all[k]));
                        assert(all.take(k + 1).drop_last() =~= all.take(k));
                        assert(all.take(k + 1).last() == all[k]);
                    }
                    if str_eq(e.descriptor.id.as_str(), id.as_str()) {
                        paths.push(e.source_path);
                    }
                }
                assert(all.take(n) =~= all);
                Err(RegistryError::DuplicateId { id, paths })
            },
            None => {
                let reg = SystemRegistry { by_id, source_root: Some(root) };
                proof {
                    assert(reg.entries() == reg.by_id@);
                    assert forall|i: int, j: int| !#[trigger] shares_name(all, i, j) by {
                        if shares_name(all, i, j) {
                            let x = n - 1 - j;
                            let y = n - 1 - i;
                            assert(reg.by_id@[x].descriptor.id@ == reg.by_id@[y].descriptor.id@);
                        }
                    }
                    assert forall|i: int|
                        0 <= i < n implies reg.lookup((#[trigger] all[i]).folder_name@) == Some(loaded_of(all[i])) by {
                        let m = n - 1 - i;
                        assert(reg.by_id@[m] == loaded_of(all[i]));
                        assert(reg.entries()[m].descriptor.id@ == all[i].folder_name@);
                        let c = choose|c: int|
                            0 <= c < reg.entries().len() && (#[trigger] reg.entries()[c]).descriptor.id@
                                == all[i].folder_name@;
                        if c != m {
                            if c < m {
                                assert(reg.by_id@[c].descriptor.id@ != reg.by_id@[m].descriptor.id@);
                            } else {
                                assert(reg.by_id@[m].descriptor.id@ != reg.by_id@[c].descriptor.id@);
                            }
                        }
                    }
                    assert forall|id: Seq<char>| #[trigger] reg.lookup(id) is Some implies exists|i: int|
                        0 <= i < n && (#[trigger] all[i]).folder_name@ == id by {
                        let c = choose|c: int|
                            0 <= c < reg.entries().len() && (#[trigger] reg.entries()[c]).descriptor.id@ == id;
                        assert(all[n - 1 - c].folder_name@ == id);
                    }
                }
                Ok(reg)
            },
        }
    }

    /// The system registered under `system_id`, if any.
    pub fn get(&self, system_id: &str) -> (r: Option<&LoadedSystem>)
        ensures
            match r {
                Some(e) => self.lookup(system_id@) == Some(*e),
                None => self.lookup(system_id@) is None,
            },
    {
        let mut i: usize = 0;
        while i < self.by_id.len()
            invariant
                i <= self.by_id.len(),
                forall|j: int| 0 <= j < i ==> (#[trigger] self.by_id@[j]).descriptor.id@ != system_id@,
            decreases self.by_id.len() - i,
        {
            if str_eq(self.by_id[i].descriptor.id.as_str(), system_id) {
                proof {
                    use_type_invariant(self);
                    let c = choose|k: int|
                        0 <= k < self.entries().len() && (#[trigger] self.entries()[k]).descriptor.id@
                            == system_id@;
                    assert(self.entries()[i as int].descriptor.id@ == system_id@);
                    if c != i as int {
                        assert(distinct_ids(self.by_id@));
                        if c < i as int {
                            assert(self.by_id@[c].descriptor.id@ != self.by_id@[i as int].descriptor.id@);
                        } else {
                            assert(self.by_id@[i as int].descriptor.id@ != self.by_id@[c].descriptor.id@);
                        }
                    }
                }
                return Some(&self.by_id[i]);
            }
            i += 1;
        }
        None
    }

    /// The registered ids, in the registry's own order.
    pub fn system_ids(&self) -> (r: Vec<String>)
        ensures
            r.len() == self.entries().len(),
            forall|i: int| 0 <= i < r.len() ==> (#[trigger] r@[i])@ == self.entries()[i].descriptor.id@,
    {
        let mut out: Vec<String> = Vec::new();
        let mut i: usize = 0;
        while i < self.by_id.len()
            invariant
                i <= self.by_id.len(),
                out.len() == i,
                forall|j: int| 0 <= j < i ==> (#[trigger] out@[j])@ == self.by_id@[j].descriptor.id@,
            decreases self.by_id.len() - i,
        {
            out.push(self.by_id[i].descriptor.id.clone());
            i += 1;
        }
        out
    }

    /// Number of registered systems.
    pub fn len(&self) -> (r: usize)
        ensures
            r == self.entries().len(),
    {
        self.by_id.len()
    }

    /// Whether no system is registered.
    pub fn is_empty(&self) -> (r: bool)
        ensures
            r == (self.entries().len() == 0),
    {
        self.by_id.len() == 0
    }

    /// The folder the registry was loaded from; none for an empty one.
    pub fn source_root(&self) -> (r: Option<&PathBuf>)
        ensures
            match r {
                Some(p) => self.root() == Some(*p),
                None => self.root() is None,
            },
    {
        match &self.source_root {
            Some(p) => Some(p),
            None => None,
        }
    }
}

impl Default for SystemRegistry {
    fn default() -> (r: Self)
        ensures
            r.entries().len() == 0,
            r.root() is None,
    {
        SystemRegistry::empty()
    }
}

/// The libretro-database `.dat` references of a system, as its
/// descriptor lists them; none for a system the registry does not hold.
pub fn libretro_dat_refs_for_system_resolved(registry: &SystemRegistry, system_id: &str) -> (r: Vec<LibretroDatRef>)
    ensures
        match registry.lookup(system_id@) {
            Some(l) => {
                &&& r.len() == l.descriptor.libretro_dat_refs.len()
                &&& forall|i: int|
                    0 <= i < r.len() ==> (#[trigger] r@[i]).subdir@ == l.descriptor.libretro_dat_refs@[i].subdir@
                        && r@[i].basename@ == l.descriptor.libretro_dat_refs@[i].basename@
            },
            None => r.len() == 0,
        },
{
    let mut out: Vec<LibretroDatRef> = Vec::new();
    match registry.get(system_id) {
        Some(loaded) => {
            let refs = &loaded.descriptor.libretro_dat_refs;
            let mut i: usize = 0;
            while i < refs.len()
                invariant
                    i <= refs.len(),
                    out.len() == i,
                    forall|j: int|
                        0 <= j < i ==> (#[trigger] out@[j]).subdir@ == refs@[j].subdir@ && out@[j].basename@
                            == refs@[j].basename@,
                decreases refs.len() - i,
            {
                out.push(LibretroDatRef { subdir: refs[i].subdir.clone(), basename: refs[i].basename.clone() });
                i += 1;
            }
        },
        None => {},
    }
    out
}

} // verus!
