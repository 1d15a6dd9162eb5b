//! The persisted state: credentials, the project registry and the pointer to
//! the task last shown.
use vstd::prelude::*;
use crate::error::Error;
use crate::text::{bytes_of, lemma_bytes_lt_total, lemma_bytes_lt_transitive, str_less, str_lt};

verus! {

/// The state kept between runs. `projects` maps a project name to the
/// remote project's number; it is kept sorted by name, each name once.
/// `next_id` is the task last shown as next and not yet closed.
#[derive(Clone, Debug, PartialEq, Eq)]
pub struct Config {
    pub token: String,
    pub projects: Vec<(String, u32)>,
    pub path: String,
    pub next_id: Option<String>,
    pub timezone: Option<String>,
    pub last_version_check: Option<String>,
}

/// Names strictly increasing in byte order (so each name at most once).
pub open spec fn names_sorted(ps: Seq<(String, u32)>) -> bool {
    forall|i: int, j: int| 0 <= i < j < ps.len() ==> str_lt(#[trigger] ps[i].0@, #[trigger] ps[j].0@)
}

/// The number registered under `name`, if any.
pub open spec fn lookup(ps: Seq<(String, u32)>, name: Seq<char>) -> Option<u32> {
    if exists|i: int| 0 <= i < ps.len() && (#[trigger] ps[i]).0@ == name {
        Some(ps[choose|i: int| 0 <= i < ps.len() && (#[trigger] ps[i]).0@ == name].1)
    } else {
        None
    }
}

/// Each name at most once.
pub open spec fn names_unique(ps: Seq<(String, u32)>) -> bool {
    forall|i: int, j: int| 0 <= i < j < ps.len() ==> (#[trigger] ps[i]).0@ != (#[trigger] ps[j]).0@
}

pub proof fn lemma_sorted_unique(ps: Seq<(String, u32)>)
    requires
        names_sorted(ps),
    ensures
        names_unique(ps),
{
    assert forall|i: int, j: int| 0 <= i < j < ps.len() implies (#[trigger] ps[i]).0@ != (
    #[trigger] ps[j]).0@ by {
        crate::text::lemma_bytes_lt_irreflexive(bytes_of(ps[i].0@));
        assert(str_lt(ps[i].0@, ps[j].0@));
    }
}

/// Where a name sits at one place at most, looking it up finds that place.
pub proof fn lemma_lookup_at(ps: Seq<(String, u32)>, i: int)
    requires
        names_unique(ps),
        0 <= i < ps.len(),
    ensures
        lookup(ps, ps[i].0@) == Some(ps[i].1),
{
    let k = choose|k: int| 0 <= k < ps.len() && (#[trigger] ps[k]).0@ == ps[i].0@;
    if k < i {
        assert(ps[k].0@ != ps[i].0@);
    } else if i < k {
        assert(ps[i].0@ != ps[k].0@);
    }
}

/// Two sorted registries that give every name the same number hold the same
/// entries in the same order: a registry is fixed by what it maps.
pub proof fn lemma_registry_determined(a: Seq<(String, u32)>, b: Seq<(String, u32)>)
    requires
        names_sorted(a),
        names_sorted(b),
        forall|n: Seq<char>| #[trigger] lookup(a, n) == lookup(b, n),
    ensures
        a.len() == b.len(),
        forall|i: int| 0 <= i < a.len() ==> (#[trigger] a[i]).0@ == b[i].0@ && a[i].1 == b[i].1,
    decreases a.len() + b.len(),
{
    lemma_sorted_unique(a);
    lemma_sorted_unique(b);
    if a.len() == 0 {
        if b.len() > 0 {
            lemma_lookup_at(b, 0);
        }
    } else if b.len() == 0 {
        lemma_lookup_at(a, 0);
    } else {
        // The first names agree: each is the least name of both.
        lemma_lookup_at(a, 0);
        lemma_lookup_at(b, 0);
        assert(lookup(b, a[0].0@) is Some);
        assert(lookup(a, b[0].0@) is Some);
        assert(exists|k: int| 0 <= k < b.len() && (#[trigger] b[k]).0@ == a[0].0@);
        assert(exists|k: int| 0 <= k < a.len() && (#[trigger] a[k]).0@ == b[0].0@);
        let ka = choose|k: int| 0 <= k < b.len() && (#[trigger] b[k]).0@ == a[0].0@;
        let kb = choose|k: int| 0 <= k < a.len() && (#[trigger] a[k]).0@ == b[0].0@;
        if ka != 0 {
            assert(str_lt(b[0].0@, b[ka].0@));
            if kb == 0 {
                crate::text::lemma_bytes_lt_irreflexive(bytes_of(a[0].0@));
            } else {
                assert(str_lt(a[0].0@, a[kb].0@));
                lemma_bytes_lt_total(bytes_of(a[0].0@), bytes_of(b[0].0@));
            }
        }
        assert(a[0].0@ == b[0].0@);
        let ta = a.drop_first();
        let tb = b.drop_first();
        assert forall|n: Seq<char>| #[trigger] lookup(ta, n) == lookup(tb, n) by {
            lemma_sorted_unique(ta);
            lemma_sorted_unique(tb);
            if exists|k: int| 0 <= k < ta.len() && (#[trigger] ta[k]).0@ == n {
                let k = choose|k: int| 0 <= k < ta.len() && (#[trigger] ta[k]).0@ == n;
                lemma_lookup_at(ta, k);
                lemma_lookup_at(a, k + 1);
                assert(a[k + 1] == ta[k]);
                let j = choose|j: int| 0 <= j < b.len() && (#[trigger] b[j]).0@ == n;
                lemma_lookup_at(b, j);
                assert(j != 0);
                assert(tb[j - 1] == b[j]);
                lemma_lookup_at(tb, j - 1);
            } else if exists|k: int| 0 <= k < tb.len() && (#[trigger] tb[k]).0@ == n {
                let k = choose|k: int| 0 <= k < tb.len() && (#[trigger] tb[k]).0@ == n;
                lemma_lookup_at(b, k + 1);
                assert(b[k + 1] == tb[k]);
                assert(lookup(a, n) is Some);
                assert(exists|j: int| 0 <= j < a.len() && (#[trigger] a[j]).0@ == n);
                let j = choose|j: int| 0 <= j < a.len() && (#[trigger] a[j]).0@ == n;
                assert(b[0].0@ != b[k + 1].0@);
                assert(j != 0);
                assert(ta[j - 1] == a[j]);
            }
        }
        lemma_registry_determined(ta, tb);
        assert forall|i: int| 0 <= i < a.len() implies (#[trigger] a[i]).0@ == b[i].0@ && a[i].1
            == b[i].1 by {
            if i > 0 {
                assert(a[i] == ta[i - 1]);
                assert(b[i] == tb[i - 1]);
            }
        }
    }
}

impl Config {
    pub open spec fn wf(self) -> bool {
        names_sorted(self.projects@)
    }

    /// A fresh state for `token` at `path`: no projects, no pointer, no time
    /// zone, no version check.
    pub open spec fn is_fresh(self, token: Seq<char>, path: Seq<char>) -> bool {
        &&& self.wf()
        &&& self.token@ == token
        &&& self.path@ == path
        &&& self.projects@.len() == 0
        &&& self.next_id is None
        &&& self.timezone is None
        &&& self.last_version_check is None
    }

    pub fn fresh(token: &str, path: String) -> (r: Config)
        ensures
            r.is_fresh(token@, path@),
    {
        Config {
            path,
            token: token.to_owned(),
            projects: Vec::new(),
            next_id: None,
            last_version_check: None,
            timezone: None,
        }
    }

    /// A fresh state for `token`, kept as `tod.cfg` in the configuration
    /// directory `dir`.
    pub fn new_in(token: &str, dir: DirLookup) -> (r: Result<Config, Error>)
        ensures
            match dir {
                DirLookup::Found(d) => r matches Ok(c) && c.is_fresh(token@, d@ + "/tod.cfg"@),
                DirLookup::Missing => r matches Err(Error::IoError(m)) && m@
                    == "Could not find config directory"@,
                DirLookup::NotUtf8 => r matches Err(Error::IoError(m)) && m@
                    == "Could not convert config directory to string"@,
            },
    {
        proof {
            reveal_strlit("tod.cfg");
            reveal_strlit("/");
            reveal_strlit("/tod.cfg");
            reveal_strlit("config");
            reveal_strlit("Could not find ");
            reveal_strlit(" directory");
            reveal_strlit("Could not find config directory");
            reveal_strlit("Could not convert ");
            reveal_strlit(" directory to string");
            reveal_strlit("Could not convert config directory to string");
            assert("Could not find "@ + "config"@ + " directory"@
                =~= "Could not find config directory"@);
            assert("Could not convert "@ + "config"@ + " directory to string"@
                =~= "Could not convert config directory to string"@);
            if dir is Found {
                let d = dir->Found_0;
                assert(d@ + "/"@ + "tod.cfg"@ =~= d@ + "/tod.cfg"@);
            }
        }
        match path_in(dir, "tod.cfg", "config") {
            Ok(path) => Ok(Config::fresh(token, path)),
            Err(e) => Err(e),
        }
    }

    /// A fresh state for `token` at the usual location: the configuration
    /// directory as the platform reports it.
    pub fn new(token: &str) -> (r: Result<Config, Error>)
        ensures
            match r {
                Ok(c) => exists|d: Seq<char>| c.is_fresh(token@, d + "/tod.cfg"@),
                Err(e) => e matches Error::IoError(m) && (m@ == "Could not find config directory"@
                    || m@ == "Could not convert config directory to string"@),
            },
    {
        Config::new_in(token, config_dir())
    }

    /// The state as read from the file at `path`. Where it records another
    /// location (the file was moved there), it takes `path` and the flag
    /// says that it must be saved again.
    pub fn relocated(self, path: &str) -> (r: (Config, bool))
        ensures
            self.path@ == path@ ==> r.0 == self && !r.1,
            self.path@ != path@ ==> r.0 == (Config { path: r.0.path, ..self }) && r.0.path@
                == path@ && r.1,
    {
        let at = path.to_owned();
        if self.path == at {
            (self, false)
        } else {
            (Config { path: at, ..self }, true)
        }
    }

    pub fn set_path(self, path: &str) -> (r: Config)
        ensures
            r == (Config { path: r.path, ..self }),
            r.path@ == path@,
    {
        Config { path: path.to_owned(), ..self }
    }

    /// Points at `next_id` as the task shown, replacing any earlier pointer.
    pub fn set_next_id(self, next_id: String) -> (r: Config)
        ensures
            r == (Config { next_id: Some(next_id), ..self }),
    {
        Config { next_id: Some(next_id), ..self }
    }

    pub fn clear_next_id(self) -> (r: Config)
        ensures
            r == (Config { next_id: None, ..self }),
    {
        Config { next_id: None, ..self }
    }

    pub fn set_timezone(self, timezone: String) -> (r: Config)
        ensures
            r == (Config { timezone: Some(timezone), ..self }),
    {
        Config { timezone: Some(timezone), ..self }
    }

    /// Registers `name` for project number `id`, replacing what the name
    /// meant before; the registry stays sorted.
    pub fn add_project(&mut self, name: String, id: u32)
        requires
            old(self).wf(),
        ensures
            final(self).wf(),
            *final(self) == (Config { projects: final(self).projects, ..*old(self) }),
            forall|n: Seq<char>|
                #[trigger] lookup(final(self).projects@, n) == if n == name@ {
                    Some(id)
                } else {
                    lookup(old(self).projects@, n)
                },
    {
        insert_entry(&mut self.projects, name, id);
    }
}

/// Registers `name` for project number `id` in the sorted registry `v`,
/// replacing what the name meant before.
pub fn insert_entry(v: &mut Vec<(String, u32)>, name: String, id: u32)
    requires
        names_sorted(old(v)@),
    ensures
        names_sorted(final(v)@),
        forall|n: Seq<char>|
            #[trigger] lookup(final(v)@, n) == if n == name@ {
                Some(id)
            } else {
                lookup(old(v)@, n)
            },
{
    let ghost ps = v@;
    let mut i: usize = 0;
    while i < v.len() && str_less(v[i].0.as_str(), name.as_str())
        invariant
            v@ == ps,
            i <= ps.len(),
            forall|k: int| 0 <= k < i ==> str_lt(#[trigger] ps[k].0@, name@),
        decreases ps.len() - i,
    {
        i = i + 1;
    }
    // Everything from `i` on sorts at or after `name`.
    let found = i < v.len() && v[i].0 == name;
    if found {
        let _ = v.remove(i);
    }
    v.insert(i, (name, id));
    proof {
        let qs = v@;
        assert forall|k: int| i < k < qs.len() implies str_lt(name@, #[trigger] qs[k].0@) by {
            let j = if found { k } else { k - 1 };
            assert(qs[k] == ps[j]);
            lemma_bytes_lt_total(bytes_of(ps[i as int].0@), bytes_of(name@));
            crate::text::lemma_bytes_of_injective(ps[i as int].0@, name@);
            if j != i {
                assert(str_lt(ps[i as int].0@, ps[j].0@));
                if ps[i as int].0@ != name@ {
                    lemma_bytes_lt_transitive(
                        bytes_of(name@),
                        bytes_of(ps[i as int].0@),
                        bytes_of(ps[j].0@),
                    );
                }
            }
        }
        assert forall|a: int, b: int| 0 <= a < b < qs.len() implies str_lt(
            #[trigger] qs[a].0@,
            #[trigger] qs[b].0@,
        ) by {
            if b < i {
                assert(qs[a] == ps[a]);
                assert(qs[b] == ps[b]);
            } else if a < i && b == i {
            } else if a < i && b > i {
                let jb = if found { b } else { b - 1 };
                assert(qs[b] == ps[jb]);
                assert(qs[a] == ps[a]);
            } else if a == i {
            } else {
                let ja = if found { a } else { a - 1 };
                let jb = if found { b } else { b - 1 };
                assert(qs[a] == ps[ja]);
                assert(qs[b] == ps[jb]);
            }
        }
        assert forall|n: Seq<char>|
            #[trigger] lookup(qs, n) == if n == name@ {
                Some(id)
            } else {
                lookup(ps, n)
            } by {
            lemma_sorted_unique(qs);
            lemma_sorted_unique(ps);
            lemma_lookup_at(qs, i as int);
            if n != name@ {
                if exists|k: int| 0 <= k < ps.len() && (#[trigger] ps[k]).0@ == n {
                    let k = choose|k: int| 0 <= k < ps.len() && (#[trigger] ps[k]).0@ == n;
                    lemma_lookup_at(ps, k);
                    let kq = if k < i { k } else if found { k } else { k + 1 };
                    assert(qs[kq] == ps[k]);
                    lemma_lookup_at(qs, kq);
                } else {
                    if exists|k: int| 0 <= k < qs.len() && (#[trigger] qs[k]).0@ == n {
                        let k = choose|k: int| 0 <= k < qs.len() && (#[trigger] qs[k]).0@ == n;
                        let kp = if k < i { k } else if found { k } else { k - 1 };
                        assert(qs[k] == ps[kp]);
                    }
                }
            }
        }
    }
}

/// The sorted registry holding the given entries, each name once.
pub fn registry_from(entries: Vec<(String, u32)>) -> (r: Vec<(String, u32)>)
    requires
        names_unique(entries@),
    ensures
        names_sorted(r@),
        forall|n: Seq<char>| #[trigger] lookup(r@, n) == lookup(entries@, n),
{
    let ghost orig = entries@;
    let mut rest = entries;
    let mut out: Vec<(String, u32)> = Vec::new();
    assert(orig.skip(0) =~= orig);
    while rest.len() > 0
        invariant
            names_unique(orig),
            rest@.len() <= orig.len(),
            rest@ == orig.skip(orig.len() - rest@.len()),
            names_sorted(out@),
            forall|n: Seq<char>|
                #[trigger] lookup(out@, n) == lookup(orig.take(orig.len() - rest@.len()), n),
        decreases rest@.len(),
    {
        let ghost k = orig.len() - rest@.len();
        let (name, id) = rest.remove(0);
        assert(rest@ =~= orig.skip(k + 1));
        assert((name, id) == orig[k]);
        let ghost pre = orig.take(k);
        let ghost post = orig.take(k + 1);
        proof {
            assert forall|n: Seq<char>| #[trigger] lookup(post, n) == if n == name@ {
                Some(id)
            } else {
                lookup(pre, n)
            } by {
                assert(names_unique(post));
                assert(names_unique(pre));
                assert(post[k] == orig[k]);
                if n == name@ {
                    lemma_lookup_at(post, k);
                } else if exists|j: int| 0 <= j < pre.len() && (#[trigger] pre[j]).0@ == n {
                    let j = choose|j: int| 0 <= j < pre.len() && (#[trigger] pre[j]).0@ == n;
                    lemma_lookup_at(pre, j);
                    assert(post[j] == pre[j]);
                    lemma_lookup_at(post, j);
                } else if exists|j: int| 0 <= j < post.len() && (#[trigger] post[j]).0@ == n {
                    let j = choose|j: int| 0 <= j < post.len() && (#[trigger] post[j]).0@ == n;
                    assert(j != k);
                    assert(pre[j] == post[j]);
                }
            }
        }
        insert_entry(&mut out, name, id);
    }
    assert(orig.take(orig.len() as int) =~= orig);
    out
}

/// What asking the platform for a directory gave.
#[derive(Debug)]
pub enum DirLookup {
    /// The platform knows no such directory.
    Missing,
    /// The directory's path is not valid UTF-8.
    NotUtf8,
    Found(String),
}

/// Relies on dirs::config_dir: the user's configuration directory, where the
/// platform has one.
#[verifier::external_body]
fn config_dir() -> (r: DirLookup) {
    match dirs::config_dir() {
        None => DirLookup::Missing,
        Some(p) => match p.to_str() {
            Some(s) => DirLookup::Found(s.to_owned()),
            None => DirLookup::NotUtf8,
        },
    }
}

/// Relies on dirs::home_dir: the user's home directory, where one is known.
#[verifier::external_body]
fn home_dir() -> (r: DirLookup) {
    match dirs::home_dir() {
        None => DirLookup::Missing,
        Some(p) => match p.to_str() {
            Some(s) => DirLookup::Found(s.to_owned()),
            None => DirLookup::NotUtf8,
        },
    }
}

/// The path of `file` in the directory `dir` found; `what` names the
/// directory in the error when there is none to use.
pub fn path_in(dir: DirLookup, file: &str, what: &str) -> (r: Result<String, Error>)
    ensures
        match dir {
            DirLookup::Found(d) => r matches Ok(p) && p@ == d@ + "/"@ + file@,
            DirLookup::Missing => r matches Err(Error::IoError(m)) && m@ == "Could not find "@
                + what@ + " directory"@,
            DirLookup::NotUtf8 => r matches Err(Error::IoError(m)) && m@ == "Could not convert "@
                + what@ + " directory to string"@,
        },
{
    match dir {
        DirLookup::Found(mut d) => {
            d.append("/");
            d.append(file);
            Ok(d)
        },
        DirLookup::Missing => {
            let mut m = String::from_str("Could not find ");
            m.append(what);
            m.append(" directory");
            Err(Error::IoError(m))
        },
        DirLookup::NotUtf8 => {
            let mut m = String::from_str("Could not convert ");
            m.append(what);
            m.append(" directory to string");
            Err(Error::IoError(m))
        },
    }
}

/// Where the state file lives: `tod.cfg` in the configuration directory.
pub fn generate_path() -> (r: Result<String, Error>)
    ensures
        match r {
            Ok(p) => exists|d: Seq<char>| p@ == d + "/"@ + "tod.cfg"@,
            Err(e) => e matches Error::IoError(m) && (m@ == "Could not find "@ + "config"@
                + " directory"@ || m@ == "Could not convert "@ + "config"@
                + " directory to string"@),
        },
{
    path_in(config_dir(), "tod.cfg", "config")
}

/// Where earlier versions kept the state file: `.tod.cfg` in the home
/// directory.
pub fn generate_legacy_path() -> (r: Result<String, Error>)
    ensures
        match r {
            Ok(p) => exists|d: Seq<char>| p@ == d + "/"@ + ".tod.cfg"@,
            Err(e) => e matches Error::IoError(m) && (m@ == "Could not find "@ + "home"@
                + " directory"@ || m@ == "Could not convert "@ + "home"@
                + " directory to string"@),
        },
{
    path_in(home_dir(), ".tod.cfg", "home")
}

} // verus!
