use vstd::prelude::*;
use vstd::string::*;

verus! {

/// A pattern that names column families: one exact name, or every name with a given prefix.
pub enum CfPattern {
    Exact(String),
    Prefix(String),
}

/// Whether column family `name` matches `pattern`.
pub open spec fn cf_matches(pattern: CfPattern, name: Seq<char>) -> bool {
    match pattern {
        CfPattern::Exact(p) => name == p@,
        CfPattern::Prefix(p) => p@.len() <= name.len() && name.subrange(0, p@.len() as int) == p@,
    }
}

/// Whether column family `name` matches one of `patterns`.
pub open spec fn matches_any(patterns: Seq<CfPattern>, name: Seq<char>) -> bool {
    exists|i: int| 0 <= i < patterns.len() && cf_matches(patterns[i], name)
}

fn has_prefix(name: &str, prefix: &str) -> (r: bool)
    ensures
        r == (prefix@.len() <= name@.len() && name@.subrange(0, prefix@.len() as int) == prefix@),
{
    let n = name.unicode_len();
    let p = prefix.unicode_len();
    if p > n {
        return false;
    }
    let mut i: usize = 0;
    while i < p
        invariant
            p == prefix@.len(),
            n == name@.len(),
            p <= n,
            i <= p,
            forall|j: int| 0 <= j < i ==> name@[j] == prefix@[j],
        decreases p - i,
    {
        if name.get_char(i) != prefix.get_char(i) {
            assert(name@.subrange(0, p as int)[i as int] != prefix@[i as int]);
            return false;
        }
        i = i + 1;
    }
    assert(name@.subrange(0, p as int) =~= prefix@);
    true
}

impl CfPattern {
    /// Whether column family `name` matches this pattern.
    pub fn cf_matches(&self, name: &String) -> (r: bool)
        ensures
            r == cf_matches(*self, name@),
    {
        match self {
            CfPattern::Exact(p) => *p == *name,
            CfPattern::Prefix(p) => has_prefix(name.as_str(), p.as_str()),
        }
    }
}

fn any_matches(patterns: &Vec<CfPattern>, name: &String) -> (r: bool)
    ensures
        r == matches_any(patterns@, name@),
{
    let mut i: usize = 0;
    while i < patterns.len()
        invariant
            i <= patterns@.len(),
            forall|j: int| 0 <= j < i ==> !cf_matches(patterns@[j], name@),
        decreases patterns@.len() - i,
    {
        if patterns[i].cf_matches(name) {
            return true;
        }
        i = i + 1;
    }
    false
}

/// Why a storage operation failed.
#[derive(Debug, PartialEq, Eq)]
pub enum RocksError {
    /// No declared column-family pattern matches the name.
    UnknownColumnFamily(String),
    /// A database is already open at the path.
    AlreadyOpen(String),
    /// The storage is shutting down.
    Shutdown,
    /// Databases are still open.
    DatabasesOpen,
}

/// What a clean shutdown of a database does, in order: flush the write-ahead log, flush the
/// memtables of the listed column families, then cancel all background work.
pub struct ShutdownPlan {
    pub flush_wal: bool,
    pub cfs_to_flush: Vec<String>,
    pub cancel_background_work: bool,
}

/// An open database: who owns it, where it lives, the column-family patterns it declares, the
/// families to flush on shutdown, and the column families open in it.
///
/// This is the engine wrapper's own bookkeeping. The engine itself, with its handle and its
/// statistics (histograms, tickers), is not part of this library: the program that opens the
/// engine reads those from it.
pub struct RocksDb {
    pub owner: String,
    pub name: String,
    pub path: String,
    pub cf_patterns: Vec<CfPattern>,
    pub flush_on_shutdown: Vec<CfPattern>,
    pub cfs: Vec<String>,
}

/// The names of a list of column families.
pub open spec fn names(cfs: Seq<String>) -> Seq<Seq<char>> {
    cfs.map_values(|c: String| c@)
}

impl RocksDb {
    /// Every open column family matches a declared pattern.
    pub open spec fn wf(&self) -> bool {
        forall|i: int| 0 <= i < self.cfs@.len() ==> matches_any(self.cf_patterns@, #[trigger] self.cfs@[i]@)
    }

    /// The names of the open column families.
    pub open spec fn cf_names(&self) -> Seq<Seq<char>> {
        names(self.cfs@)
    }

    /// A database with the declared patterns and the column families found in it; a family that
    /// no pattern matches is not opened.
    pub fn new(
        owner: String,
        name: String,
        path: String,
        cf_patterns: Vec<CfPattern>,
        flush_on_shutdown: Vec<CfPattern>,
        existing_cfs: Vec<String>,
    ) -> (r: RocksDb)
        ensures
            r.wf(),
            r.owner == owner,
            r.name == name,
            r.path == path,
            r.cf_patterns@ == cf_patterns@,
            r.flush_on_shutdown@ == flush_on_shutdown@,
            r.cf_names() == names(existing_cfs@).filter(|c: Seq<char>| matches_any(cf_patterns@, c)),
    {
        let mut cfs: Vec<String> = Vec::new();
        let mut i: usize = 0;
        while i < existing_cfs.len()
            invariant
                i <= existing_cfs@.len(),
                forall|j: int| 0 <= j < cfs@.len() ==> matches_any(cf_patterns@, #[trigger] cfs@[j]@),
                names(cfs@) == names(existing_cfs@.take(i as int)).filter(|c: Seq<char>| matches_any(cf_patterns@, c)),
            decreases existing_cfs@.len() - i,
        {
            let c = existing_cfs[i].clone();
            proof {
                let ghost f = |c: Seq<char>| matches_any(cf_patterns@, c);
                assert(names(existing_cfs@.take(i as int + 1)) =~= names(existing_cfs@.take(i as int)).push(existing_cfs@[i as int]@));
                names(existing_cfs@.take(i as int)).lemma_filter_push(existing_cfs@[i as int]@, f);
            }
            if any_matches(&cf_patterns, &c) {
                cfs.push(c);
                proof {
                    assert(names(cfs@) =~= names(cfs@.drop_last()).push(cfs@.last()@));
                }
            }
            i = i + 1;
        }
        proof {
            assert(existing_cfs@.take(existing_cfs@.len() as int) =~= existing_cfs@);
        }
        RocksDb { owner, name, path, cf_patterns, flush_on_shutdown, cfs }
    }

    /// The open column families.
    pub fn cfs(&self) -> (r: Vec<String>)
        ensures
            names(r@) == self.cf_names(),
    {
        let mut r: Vec<String> = Vec::new();
        let mut i: usize = 0;
        while i < self.cfs.len()
            invariant
                i <= self.cfs@.len(),
                r@ == self.cfs@.take(i as int),
            decreases self.cfs@.len() - i,
        {
            r.push(self.cfs[i].clone());
            i = i + 1;
            assert(r@ =~= self.cfs@.take(i as int));
        }
        assert(r@ =~= self.cfs@);
        r
    }

    /// Opens column family `name`: it must match a declared pattern. Opening one that is open
    /// already changes nothing.
    pub fn open_cf(&mut self, name: String) -> (r: Result<(), RocksError>)
        requires
            old(self).wf(),
        ensures
            final(self).wf(),
            final(self).cf_patterns == old(self).cf_patterns,
            final(self).flush_on_shutdown == old(self).flush_on_shutdown,
            r.is_ok() == matches_any(old(self).cf_patterns@, name@),
            r.is_err() ==> final(self).cf_names() == old(self).cf_names() && r matches Err(RocksError::UnknownColumnFamily(_)),
            r.is_ok() ==> if old(self).cf_names().contains(name@) {
                final(self).cf_names() == old(self).cf_names()
            } else {
                final(self).cf_names() == old(self).cf_names().push(name@)
            },
    {
        if !any_matches(&self.cf_patterns, &name) {
            return Err(RocksError::UnknownColumnFamily(name));
        }
        let mut i: usize = 0;
        while i < self.cfs.len()
            invariant
                *self == *old(self),
                old(self).wf(),
                matches_any(old(self).cf_patterns@, name@),
                i <= self.cfs@.len(),
                forall|j: int| 0 <= j < i ==> self.cfs@[j]@ != name@,
            decreases self.cfs@.len() - i,
        {
            if self.cfs[i] == name {
                proof {
                    assert(self.cf_names()[i as int] == name@);
                }
                return Ok(());
            }
            i = i + 1;
        }
        proof {
            assert forall|j: int| 0 <= j < self.cf_names().len() implies self.cf_names()[j] != name@ by {
                assert(self.cf_names()[j] == self.cfs@[j]@);
            }
        }
        let ghost before = self.cfs@;
        self.cfs.push(name);
        proof {
            assert(names(self.cfs@) =~= names(before).push(name@));
            assert forall|j: int| 0 <= j < self.cfs@.len() implies matches_any(self.cf_patterns@, #[trigger] self.cfs@[j]@) by {
                if j < before.len() {
                    assert(self.cfs@[j] == before[j]);
                }
            }
        }
        Ok(())
    }

    /// The open column families that a flush-on-shutdown pattern matches, in their order.
    pub fn cfs_to_flush_on_shutdown(&self) -> (r: Vec<String>)
        ensures
            names(r@) == self.cf_names().filter(|c: Seq<char>| matches_any(self.flush_on_shutdown@, c)),
    {
        let mut r: Vec<String> = Vec::new();
        let mut i: usize = 0;
        while i < self.cfs.len()
            invariant
                i <= self.cfs@.len(),
                names(r@) == names(self.cfs@.take(i as int)).filter(|c: Seq<char>| matches_any(self.flush_on_shutdown@, c)),
            decreases self.cfs@.len() - i,
        {
            proof {
                let ghost f = |c: Seq<char>| matches_any(self.flush_on_shutdown@, c);
                assert(names(self.cfs@.take(i as int + 1)) =~= names(self.cfs@.take(i as int)).push(self.cfs@[i as int]@));
                names(self.cfs@.take(i as int)).lemma_filter_push(self.cfs@[i as int]@, f);
            }
            if any_matches(&self.flush_on_shutdown, &self.cfs[i]) {
                let ghost before = r@;
                r.push(self.cfs[i].clone());
                proof {
                    assert(names(r@) =~= names(before).push(self.cfs@[i as int]@));
                }
            }
            i = i + 1;
        }
        proof {
            assert(self.cfs@.take(self.cfs@.len() as int) =~= self.cfs@);
        }
        r
    }

    /// The steps of a clean shutdown: the write-ahead log is always flushed, then the memtables
    /// of the flush-on-shutdown column families, then all background work is canceled.
    pub fn shutdown_plan(&self) -> (r: ShutdownPlan)
        ensures
            r.flush_wal,
            r.cancel_background_work,
            names(r.cfs_to_flush@) == self.cf_names().filter(|c: Seq<char>| matches_any(self.flush_on_shutdown@, c)),
    {
        ShutdownPlan { flush_wal: true, cfs_to_flush: self.cfs_to_flush_on_shutdown(), cancel_background_work: true }
    }
}

/// The process-wide set of open databases, at most one per path.
pub struct RocksDbManager {
    dbs: Vec<RocksDb>,
}

impl RocksDbManager {
    /// The paths of the open databases, in the order they were opened.
    pub closed spec fn paths(&self) -> Seq<Seq<char>> {
        self.dbs@.map_values(|d: RocksDb| d.path@)
    }

    /// No two open databases share a path.
    pub closed spec fn wf(&self) -> bool {
        forall|i: int, j: int| 0 <= i < j < self.dbs@.len() ==> self.dbs@[i].path@ != self.dbs@[j].path@
    }

    pub fn new() -> (r: RocksDbManager)
        ensures
            r.wf(),
            r.paths().len() == 0,
    {
        RocksDbManager { dbs: Vec::new() }
    }

    fn find(&self, path: &String) -> (r: Option<usize>)
        ensures
            match r {
                Some(i) => i < self.paths().len() && self.paths()[i as int] == path@,
                None => !self.paths().contains(path@),
            },
    {
        let mut i: usize = 0;
        while i < self.dbs.len()
            invariant
                i <= self.dbs@.len(),
                forall|j: int| 0 <= j < i ==> self.dbs@[j].path@ != path@,
            decreases self.dbs@.len() - i,
        {
            if self.dbs[i].path == *path {
                return Some(i);
            }
            i = i + 1;
        }
        proof {
            if self.paths().contains(path@) {
                let j = choose|j: int| 0 <= j < self.paths().len() && self.paths()[j] == path@;
                assert(self.dbs@[j].path@ == path@);
            }
        }
        None
    }

    /// Registers an opened database; fails with `AlreadyOpen` when one is open at its path.
    pub fn open(&mut self, db: RocksDb) -> (r: Result<(), RocksError>)
        requires
            old(self).wf(),
        ensures
            final(self).wf(),
            r.is_ok() == !old(self).paths().contains(db.path@),
            r.is_ok() ==> final(self).paths() == old(self).paths().push(db.path@),
            r.is_err() ==> final(self).paths() == old(self).paths() && r matches Err(RocksError::AlreadyOpen(_)),
    {
        if let Some(_) = self.find(&db.path) {
            return Err(RocksError::AlreadyOpen(db.path));
        }
        let ghost before = self.dbs@;
        let ghost p = db.path@;
        self.dbs.push(db);
        proof {
            assert forall|j: int| 0 <= j < before.len() implies before[j].path@ != p by {
                assert(old(self).paths()[j] == before[j].path@);
            }
            assert(self.paths() =~= old(self).paths().push(p));
        }
        Ok(())
    }

    /// Takes the database open at `path` out of the set, for it to be shut down.
    pub fn close(&mut self, path: &String) -> (r: Option<RocksDb>)
        requires
            old(self).wf(),
        ensures
            final(self).wf(),
            r.is_some() == old(self).paths().contains(path@),
            r matches Some(d) ==> d.path@ == path@ && !final(self).paths().contains(path@),
            r.is_none() ==> final(self).paths() == old(self).paths(),
    {
        match self.find(path) {
            None => None,
            Some(i) => {
                let ghost before = self.dbs@;
                let d = self.dbs.remove(i);
                proof {
                    assert forall|a: int, b: int| 0 <= a < b < self.dbs@.len() implies self.dbs@[a].path@ != self.dbs@[b].path@ by {
                        let a0 = if a < i { a } else { a + 1 };
                        let b0 = if b < i { b } else { b + 1 };
                        assert(self.dbs@[a] == before[a0]);
                        assert(self.dbs@[b] == before[b0]);
                    }
                    if self.paths().contains(path@) {
                        let x = choose|x: int| 0 <= x < self.paths().len() && self.paths()[x] == path@;
                        let x0 = if x < i { x } else { x + 1 };
                        assert(self.dbs@[x] == before[x0]);
                        if x0 < i {
                            assert(before[x0].path@ != before[i as int].path@);
                        } else {
                            assert(before[i as int].path@ != before[x0].path@);
                        }
                    }
                }
                Some(d)
            },
        }
    }

    /// Resets the manager for a fresh start; only valid when no database is open.
    pub fn reset(&mut self) -> (r: Result<(), RocksError>)
        requires
            old(self).wf(),
        ensures
            final(self).wf(),
            final(self).paths() == old(self).paths(),
            r.is_ok() == (old(self).paths().len() == 0),
            r.is_err() ==> r == Err::<(), RocksError>(RocksError::DatabasesOpen),
    {
        if self.dbs.len() == 0 {
            Ok(())
        } else {
            Err(RocksError::DatabasesOpen)
        }
    }
}

} // verus!
