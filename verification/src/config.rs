//! Project configuration (`titanium.toml`) and its defaults.

use vstd::prelude::*;
use crate::text::chars_of;

verus! {

/// The `[server]` table.
#[derive(Debug, Clone)]
pub struct ServerConfig {
    pub host: Option<String>,
    pub port: Option<u16>,
    pub workers: Option<usize>,
}

/// The `[database]` table.
#[derive(Debug, Clone)]
pub struct DatabaseConfig {
    pub path: Option<String>,
    pub wal_mode: Option<bool>,
}

/// The `[cache]` table.
#[derive(Debug, Clone)]
pub struct CacheConfig {
    pub default_ttl: Option<i64>,
}

/// The `[queue]` table.
#[derive(Debug, Clone)]
pub struct QueueConfig {
    pub worker_threads: Option<usize>,
}

/// The whole configuration file; every table is optional.
#[derive(Debug, Clone)]
pub struct TitaniumConfig {
    pub server: Option<ServerConfig>,
    pub database: Option<DatabaseConfig>,
    pub cache: Option<CacheConfig>,
    pub queue: Option<QueueConfig>,
}

/// `base` joined with `p` as `Path::join` does on Unix-like systems, where
/// `/` is the only separator and a path is absolute when it starts with
/// one: an absolute `p` replaces `base`; otherwise a `/` is put between them
/// unless `base` is empty or already ends with one. (On Windows, where
/// `Path::join` also knows drive prefixes and `\`, the two differ; the
/// library targets Unix-like systems.)
pub open spec fn path_join(base: Seq<char>, p: Seq<char>) -> Seq<char> {
    if p.len() > 0 && p[0] == '/' {
        p
    } else if base.len() == 0 || base.last() == '/' {
        base + p
    } else {
        base + seq!['/'] + p
    }
}

/// Joins two paths (see [`path_join`]).
pub fn join_path(base: &str, p: &str) -> (r: String)
    ensures
        r@ == path_join(base@, p@),
{
    let b = chars_of(base);
    let q = chars_of(p);
    if q.len() > 0 && q[0] == '/' {
        return p.to_owned();
    }
    let mut out = base.to_owned();
    if b.len() > 0 && b[b.len() - 1] != '/' {
        out.append("/");
        proof {
            reveal_strlit("/");
        }
    }
    out.append(p);
    out
}

/// The configured value, or the default.
pub open spec fn or_default<T>(o: Option<T>, d: T) -> T {
    match o {
        Some(v) => v,
        None => d,
    }
}

/// The configured host, or `default`.
pub open spec fn config_host(c: TitaniumConfig, default: Seq<char>) -> Seq<char> {
    match c.server {
        Some(s) => match s.host {
            Some(x) => x@,
            None => default,
        },
        None => default,
    }
}

/// The configured port, or `default`.
pub open spec fn config_port(c: TitaniumConfig, default: u16) -> u16 {
    match c.server {
        Some(s) => or_default(s.port, default),
        None => default,
    }
}

/// The configured number of HTTP worker threads, or `default`.
pub open spec fn config_workers(c: TitaniumConfig, default: usize) -> usize {
    match c.server {
        Some(s) => or_default(s.workers, default),
        None => default,
    }
}

/// The configured number of job-queue worker threads, or `default`.
pub open spec fn config_queue_workers(c: TitaniumConfig, default: usize) -> usize {
    match c.queue {
        Some(q) => or_default(q.worker_threads, default),
        None => default,
    }
}

/// The database file: the configured path joined to the root, or
/// `.titanium/app.sqlite` under the root.
pub open spec fn config_db_path(c: TitaniumConfig, root: Seq<char>) -> Seq<char> {
    match c.database {
        Some(db) => match db.path {
            Some(x) => path_join(root, x@),
            None => path_join(path_join(root, ".titanium"@), "app.sqlite"@),
        },
        None => path_join(path_join(root, ".titanium"@), "app.sqlite"@),
    }
}

impl TitaniumConfig {
    /// A configuration with no tables.
    pub fn empty() -> (c: Self)
        ensures
            c.server is None && c.database is None && c.cache is None && c.queue is None,
    {
        TitaniumConfig { server: None, database: None, cache: None, queue: None }
    }

    /// The configured host, or `default`.
    pub fn host(&self, default: &str) -> (h: String)
        ensures
            h@ == (match self.server {
                Some(s) => match s.host {
                    Some(x) => x@,
                    None => default@,
                },
                None => default@,
            }),
    {
        match &self.server {
            Some(s) => match &s.host {
                Some(h) => h.clone(),
                None => default.to_owned(),
            },
            None => default.to_owned(),
        }
    }

    /// The configured port, or `default`.
    pub fn port(&self, default: u16) -> (p: u16)
        ensures
            p == (match self.server {
                Some(s) => or_default(s.port, default),
                None => default,
            }),
    {
        match &self.server {
            Some(s) => match s.port {
                Some(p) => p,
                None => default,
            },
            None => default,
        }
    }

    /// The configured number of HTTP worker threads, or `default`.
    pub fn workers(&self, default: usize) -> (w: usize)
        ensures
            w == (match self.server {
                Some(s) => or_default(s.workers, default),
                None => default,
            }),
    {
        match &self.server {
            Some(s) => match s.workers {
                Some(w) => w,
                None => default,
            },
            None => default,
        }
    }

    /// The database file: the configured path joined to the project root, or
    /// `.titanium/app.sqlite` under the root.
    pub fn db_path(&self, root_dir: &str) -> (p: String)
        ensures
            p@ == (match self.database {
                Some(db) => match db.path {
                    Some(x) => path_join(root_dir@, x@),
                    None => path_join(path_join(root_dir@, ".titanium"@), "app.sqlite"@),
                },
                None => path_join(path_join(root_dir@, ".titanium"@), "app.sqlite"@),
            }),
    {
        if let Some(db) = &self.database {
            if let Some(p) = &db.path {
                return join_path(root_dir, p.as_str());
            }
        }
        let dir = join_path(root_dir, ".titanium");
        join_path(dir.as_str(), "app.sqlite")
    }

    /// The configured number of job-queue worker threads, or `default`.
    pub fn queue_workers(&self, default: usize) -> (w: usize)
        ensures
            w == (match self.queue {
                Some(q) => or_default(q.worker_threads, default),
                None => default,
            }),
    {
        match &self.queue {
            Some(q) => match q.worker_threads {
                Some(w) => w,
                None => default,
            },
            None => default,
        }
    }
}

} // verus!

verus! {

impl Default for TitaniumConfig {
    /// A configuration with no tables.
    fn default() -> (c: Self)
        ensures
            c.server is None && c.database is None && c.cache is None && c.queue is None,
    {
        TitaniumConfig { server: None, database: None, cache: None, queue: None }
    }
}

/// The first configuration that was read, if any.
pub open spec fn first_read<T>(s: Seq<Option<T>>) -> Option<T>
    decreases s.len(),
{
    if s.len() == 0 {
        None
    } else if s[0] is Some {
        s[0]
    } else {
        first_read(s.skip(1))
    }
}

impl TitaniumConfig {
    /// The configuration files of a project, in the order they are tried.
    pub fn config_files(root_dir: &str) -> (r: Vec<String>)
        ensures
            crate::text::string_views(r@) == seq![
                path_join(root_dir@, "titanium.toml"@),
                path_join(root_dir@, "cobalt.toml"@),
                path_join(root_dir@, "carbon.toml"@),
            ],
    {
        let mut r: Vec<String> = Vec::new();
        r.push(join_path(root_dir, "titanium.toml"));
        r.push(join_path(root_dir, "cobalt.toml"));
        r.push(join_path(root_dir, "carbon.toml"));
        assert(crate::text::string_views(r@) =~= seq![
            path_join(root_dir@, "titanium.toml"@),
            path_join(root_dir@, "cobalt.toml"@),
            path_join(root_dir@, "carbon.toml"@),
        ]);
        r
    }

    /// The project's configuration: the first of the files of
    /// [`Self::config_files`] that exists and parses, else no tables.
    /// `parsed[i]` is what the `i`-th file gave (`None` where it is missing
    /// or does not parse).
    pub fn load_from_dir(parsed: Vec<Option<TitaniumConfig>>) -> (c: Self)
        ensures
            match first_read(parsed@) {
                Some(x) => c == x,
                None => c.server is None && c.database is None && c.cache is None && c.queue is None,
            },
    {
        let mut rest = parsed;
        let ghost all = rest@;
        assert(all.skip(0) =~= all);
        let ghost mut k: int = 0;
        while rest.len() > 0
            invariant
                0 <= k <= all.len(),
                all == parsed@,
                rest@ == all.skip(k),
                first_read(all) == first_read(all.skip(k)),
            decreases rest.len(),
        {
            let ghost before = rest@;
            let head = rest.remove(0);
            assert(head == before[0]);
            proof {
                assert(before[0] == all.skip(k)[0]);
                assert(rest@ =~= all.skip(k + 1));
                assert(all.skip(k).skip(1) =~= all.skip(k + 1));
            }
            match head {
                Some(c) => {
                    assert(all.skip(k).len() > 0 && all.skip(k)[0] == Some(c));
                    assert(first_read(all.skip(k)) == Some(c));
                    return c;
                },
                None => {},
            }
            proof {
                k = k + 1;
            }
        }
        TitaniumConfig::default()
    }
}

} // verus!
