use vstd::prelude::*;

verus! {

/// Credentials for a server.
#[derive(Debug, Clone)]
pub enum AuthMethod {
    Plain { user: String, password: String },
    Login { user: String, password: String },
}

/// A source that polls every mailbox of an IMAP server at a fixed interval.
#[derive(Debug, Clone)]
pub struct ImapPollSourceConfig {
    pub server: String,
    pub port: u16,
    pub interval: u64,
    pub keep: bool,
    pub auth: AuthMethod,
}

/// A source that watches one mailbox of an IMAP server with IDLE.
#[derive(Debug, Clone)]
pub struct ImapIdleSourceConfig {
    pub server: String,
    pub port: u16,
    pub path: String,
    pub renewinterval: u64,
    pub keep: bool,
    pub auth: AuthMethod,
}

#[derive(Debug, Clone)]
pub enum SourceConfig {
    Test,
    ImapPoll(ImapPollSourceConfig),
    ImapIdle(ImapIdleSourceConfig),
}

#[derive(Debug, Clone)]
pub struct SmtpDestinationConfig {
    pub server: String,
    pub port: u16,
    pub ssl: bool,
    pub auth: Option<AuthMethod>,
    pub recipient: String,
}

/// A destination that fails its first `fail_n_first` deliveries.
#[derive(Debug, Clone)]
pub struct TestDestinationConfig {
    pub fail_n_first: u16,
}

#[derive(Debug, Clone)]
pub struct ExecDestinationConfig {
    pub executable: String,
    pub arguments: Option<Vec<String>>,
    pub environment: Option<Vec<(String, String)>>,
}

#[derive(Debug, Clone)]
pub enum DestinationConfig {
    Test(TestDestinationConfig),
    Smtp(SmtpDestinationConfig),
    Exec(ExecDestinationConfig),
}

#[derive(Debug, Clone)]
pub struct MemoryRetryAgentConfig {
    pub delay: u64,
}

#[derive(Debug, Clone)]
pub struct FilesystemRetryAgentConfig {
    pub delay: u64,
    pub path: String,
}

#[derive(Debug, Clone)]
pub enum RetryAgentConfig {
    Memory(MemoryRetryAgentConfig),
    Filesystem(FilesystemRetryAgentConfig),
}

/// The whole configuration. Each named table is a list of `(name, value)`
/// pairs; `wf` asks the names of a table to be distinct.
#[derive(Debug, Clone)]
pub struct ConfigContainer {
    pub destinations: Vec<(String, DestinationConfig)>,
    pub sources: Vec<(String, SourceConfig)>,
    pub retryagent: Option<RetryAgentConfig>,
    pub mappings: Vec<(String, Vec<String>)>,
}

/// Why a configuration was rejected.
#[derive(Debug, Clone)]
pub enum ConfigError {
    /// A mapping names a source that is not configured.
    UnknownSource(String),
    /// A mapping names a destination that is not configured.
    UnknownDestination(String),
    /// A configured source has no mapping.
    UnmappedSource(String),
    /// The mapping of this source lists no destination.
    EmptyMapping(String),
    /// Two entries of one table carry this name.
    DuplicateName(String),
    /// The directory of the filesystem retry agent does not exist.
    RetryPathMissing,
}

/// The names of a table, as character sequences.
pub open spec fn names_of<T>(entries: Seq<(String, T)>) -> Seq<Seq<char>> {
    entries.map_values(|e: (String, T)| e.0@)
}

/// The views of a list of strings.
pub open spec fn views(s: Seq<String>) -> Seq<Seq<char>> {
    s.map_values(|x: String| x@)
}

/// Two entries of the table carry the name `n`.
pub open spec fn named_twice<T>(entries: Seq<(String, T)>, n: Seq<char>) -> bool {
    exists|i: int, j: int| 0 <= i < j < entries.len() && #[trigger] entries[i].0@ == n && #[trigger] entries[j].0@ == n
}

pub open spec fn has_name<T>(entries: Seq<(String, T)>, n: Seq<char>) -> bool {
    names_of(entries).contains(n)
}

impl ConfigContainer {
    /// Every table's names are distinct.
    pub open spec fn wf(&self) -> bool {
        &&& names_of(self.destinations@).no_duplicates()
        &&& names_of(self.sources@).no_duplicates()
        &&& names_of(self.mappings@).no_duplicates()
    }

    /// Every source named by a mapping is configured.
    pub open spec fn mapped_sources_known(&self) -> bool {
        forall|i: int| 0 <= i < self.mappings@.len() ==> has_name(self.sources@, #[trigger] self.mappings@[i].0@)
    }

    /// Every destination named by a mapping is configured.
    pub open spec fn mapped_destinations_known(&self) -> bool {
        forall|i: int, j: int|
            0 <= i < self.mappings@.len() && 0 <= j < self.mappings@[i].1@.len()
                ==> has_name(self.destinations@, #[trigger] self.mappings@[i].1@[j]@)
    }

    /// Every mapping lists at least one destination.
    pub open spec fn mappings_nonempty(&self) -> bool {
        forall|i: int| 0 <= i < self.mappings@.len() ==> (#[trigger] self.mappings@[i]).1@.len() > 0
    }

    /// Every configured source has a mapping.
    pub open spec fn sources_mapped(&self) -> bool {
        forall|i: int| 0 <= i < self.sources@.len() ==> has_name(self.mappings@, #[trigger] self.sources@[i].0@)
    }

    /// Whether the retry agent, if it keeps its queue on disk, has its directory.
    pub open spec fn retry_path_ok(&self, retry_path_exists: bool) -> bool {
        match self.retryagent {
            Some(RetryAgentConfig::Filesystem(_)) => retry_path_exists,
            _ => true,
        }
    }

    pub open spec fn valid(&self, retry_path_exists: bool) -> bool {
        &&& self.wf()
        &&& self.mapped_sources_known()
        &&& self.mappings_nonempty()
        &&& self.mapped_destinations_known()
        &&& self.sources_mapped()
        &&& self.retry_path_ok(retry_path_exists)
    }

    /// Checks the configuration: names are unique within each table, every
    /// mapping names configured items and at least one destination, every
    /// source is mapped, and the directory of a filesystem retry agent exists
    /// (`retry_path_exists` tells whether it does).
    pub fn validate(&self, retry_path_exists: bool) -> (r: Result<(), ConfigError>)
        ensures
            r is Ok <==> self.valid(retry_path_exists),
            r is Ok ==> self.wf(),
            r matches Err(ConfigError::DuplicateName(n)) ==> named_twice(self.destinations@, n@)
                || named_twice(self.sources@, n@) || named_twice(self.mappings@, n@),
            r matches Err(ConfigError::UnknownSource(n)) ==> (exists|i: int|
                0 <= i < self.mappings@.len() && #[trigger] self.mappings@[i].0@ == n@
                    && !has_name(self.sources@, n@)),
            r matches Err(ConfigError::UnknownDestination(n)) ==> (exists|i: int, j: int|
                0 <= i < self.mappings@.len() && 0 <= j < self.mappings@[i].1@.len()
                    && #[trigger] self.mappings@[i].1@[j]@ == n@ && !has_name(self.destinations@, n@)),
            r matches Err(ConfigError::EmptyMapping(n)) ==> (exists|i: int|
                0 <= i < self.mappings@.len() && #[trigger] self.mappings@[i].0@ == n@
                    && self.mappings@[i].1@.len() == 0 && has_name(self.sources@, n@)),
            r matches Err(ConfigError::UnmappedSource(n)) ==> {
                &&& self.wf()
                &&& self.mapped_sources_known()
                &&& self.mapped_destinations_known()
                &&& self.mappings_nonempty()
                &&& has_name(self.sources@, n@)
                &&& !has_name(self.mappings@, n@)
            },
            r matches Err(ConfigError::RetryPathMissing) ==> {
                &&& self.wf()
                &&& self.mapped_sources_known()
                &&& self.mapped_destinations_known()
                &&& self.mappings_nonempty()
                &&& self.sources_mapped()
                &&& !self.retry_path_ok(retry_path_exists)
            },
    {
        if let Some(n) = first_duplicate(&self.destinations) {
            return Err(ConfigError::DuplicateName(n));
        }
        if let Some(n) = first_duplicate(&self.sources) {
            return Err(ConfigError::DuplicateName(n));
        }
        if let Some(n) = first_duplicate(&self.mappings) {
            return Err(ConfigError::DuplicateName(n));
        }
        let mut i: usize = 0;
        while i < self.mappings.len()
            invariant
                0 <= i <= self.mappings@.len(),
                self.wf(),
                forall|k: int| 0 <= k < i ==> has_name(self.sources@, #[trigger] self.mappings@[k].0@),
                forall|k: int| 0 <= k < i ==> (#[trigger] self.mappings@[k]).1@.len() > 0,
                forall|k: int, j: int|
                    0 <= k < i && 0 <= j < self.mappings@[k].1@.len()
                        ==> has_name(self.destinations@, #[trigger] self.mappings@[k].1@[j]@),
            decreases self.mappings@.len() - i,
        {
            let srcname = &self.mappings[i].0;
            if !table_has(&self.sources, srcname) {
                return Err(ConfigError::UnknownSource(srcname.clone()));
            }
            let dsts = &self.mappings[i].1;
            let mut j: usize = 0;
            while j < dsts.len()
                invariant
                    0 <= i < self.mappings@.len(),
                    dsts == self.mappings@[i as int].1,
                    0 <= j <= dsts@.len(),
                    forall|m: int| 0 <= m < j ==> has_name(self.destinations@, #[trigger] dsts@[m]@),
                decreases dsts@.len() - j,
            {
                if !table_has(&self.destinations, &dsts[j]) {
                    return Err(ConfigError::UnknownDestination(dsts[j].clone()));
                }
                j = j + 1;
            }
            if dsts.len() == 0 {
                return Err(ConfigError::EmptyMapping(srcname.clone()));
            }
            i = i + 1;
        }
        let mut s: usize = 0;
        while s < self.sources.len()
            invariant
                0 <= s <= self.sources@.len(),
                self.wf(),
                self.mapped_sources_known(),
                self.mapped_destinations_known(),
                self.mappings_nonempty(),
                forall|k: int| 0 <= k < s ==> has_name(self.mappings@, #[trigger] self.sources@[k].0@),
            decreases self.sources@.len() - s,
        {
            let srcname = &self.sources[s].0;
            if !table_has(&self.mappings, srcname) {
                proof {
                    assert(names_of(self.sources@)[s as int] == srcname@);
                }
                return Err(ConfigError::UnmappedSource(srcname.clone()));
            }
            s = s + 1;
        }
        if let Some(RetryAgentConfig::Filesystem(_)) = &self.retryagent {
            if !retry_path_exists {
                return Err(ConfigError::RetryPathMissing);
            }
        }
        Ok(())
    }
}

/// A name that two entries of the table carry, if there is one.
pub fn first_duplicate<T>(entries: &Vec<(String, T)>) -> (r: Option<String>)
    ensures
        r is None <==> names_of(entries@).no_duplicates(),
        r matches Some(n) ==> named_twice(entries@, n@),
{
    let mut i: usize = 0;
    while i < entries.len()
        invariant
            0 <= i <= entries@.len(),
            forall|a: int, b: int| 0 <= a < b < i ==> (#[trigger] entries@[a]).0@ != (#[trigger] entries@[b]).0@,
        decreases entries@.len() - i,
    {
        let mut j: usize = 0;
        while j < i
            invariant
                0 <= j <= i < entries@.len(),
                forall|k: int| 0 <= k < j ==> (#[trigger] entries@[k]).0@ != entries@[i as int].0@,
            decreases i - j,
        {
            if entries[j].0 == entries[i].0 {
                proof {
                    assert(entries@[j as int].0@ == entries@[i as int].0@);
                    assert(names_of(entries@)[j as int] == names_of(entries@)[i as int]);
                }
                return Some(entries[i].0.clone());
            }
            j = j + 1;
        }
        i = i + 1;
    }
    proof {
        assert forall|a: int, b: int| 0 <= a < names_of(entries@).len() && 0 <= b < names_of(entries@).len() && a != b
            implies names_of(entries@)[a] != names_of(entries@)[b] by {
            if a < b {
                assert(entries@[a].0@ != entries@[b].0@);
            } else {
                assert(entries@[b].0@ != entries@[a].0@);
            }
        }
    }
    None
}

/// Whether a table holds an entry of the given name.
pub fn table_has<T>(entries: &Vec<(String, T)>, name: &String) -> (r: bool)
    ensures
        r == has_name(entries@, name@),
{
    let mut i: usize = 0;
    while i < entries.len()
        invariant
            0 <= i <= entries@.len(),
            forall|k: int| 0 <= k < i ==> #[trigger] entries@[k].0@ != name@,
        decreases entries@.len() - i,
    {
        if entries[i].0 == *name {
            proof {
                assert(names_of(entries@)[i as int] == name@);
            }
            return true;
        }
        i = i + 1;
    }
    proof {
        if names_of(entries@).contains(name@) {
            let k = choose|k: int| 0 <= k < names_of(entries@).len() && names_of(entries@)[k] == name@;
            assert(entries@[k].0@ == name@);
        }
    }
    false
}

} // verus!
