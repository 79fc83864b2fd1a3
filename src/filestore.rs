//! The file cache: a mapping from canonical file path to an entry that is
//! either pending (not read since it was created) or populated with the
//! file's contents. Entries are created by `open`, populated by the first
//! `read`, and removed when a change to their file is observed.
use vstd::prelude::*;
use vstd::string::*;

verus! {

/// What the cache knows: for each path, the cached contents, or `None` while
/// the entry is pending.
pub type CacheMap = Map<Seq<char>, Option<Seq<char>>>;

/// The cache after `open(p)`: a pending entry for `p` unless one exists.
pub open spec fn opened(m: CacheMap, p: Seq<char>) -> CacheMap {
    if m.contains_key(p) {
        m
    } else {
        m.insert(p, None)
    }
}

/// Whether `read(p)` has to read the file: its entry is pending.
pub open spec fn needs_load(m: CacheMap, p: Seq<char>) -> bool {
    m.contains_key(p) && m[p] is None
}

/// What `read(p)` returns without reading the file: the cached contents, or
/// the empty string where `p` has no entry.
pub open spec fn cached_value(m: CacheMap, p: Seq<char>) -> Seq<char> {
    if m.contains_key(p) && m[p] is Some {
        m[p]->0
    } else {
        seq![]
    }
}

/// What `fill(p, loaded)` returns: the cached contents of a populated entry,
/// else `loaded`.
pub open spec fn fill_value(m: CacheMap, p: Seq<char>, loaded: Seq<char>) -> Seq<char> {
    if m.contains_key(p) && m[p] is Some {
        m[p]->0
    } else {
        loaded
    }
}

/// What `read(p)` returns when reading the file would give `loaded`.
pub open spec fn read_value(m: CacheMap, p: Seq<char>, loaded: Seq<char>) -> Seq<char> {
    if needs_load(m, p) {
        loaded
    } else {
        cached_value(m, p)
    }
}

/// The cache after `read(p)` when reading the file gave `loaded`.
pub open spec fn after_read(m: CacheMap, p: Seq<char>, loaded: Seq<char>) -> CacheMap {
    if needs_load(m, p) {
        m.insert(p, Some(loaded))
    } else {
        m
    }
}

/// Why an entry could not give its contents.
#[derive(Debug, PartialEq, Eq, Structural)]
pub enum FileEntryError {
    NeedsUpdate,
    EmptyFile,
    NoFileEntry,
}

/// One slot of the cache: the file it stands for, its contents once read,
/// and when they were read.
#[derive(Debug)]
pub struct FileEntry {
    path: String,
    contents: Option<String>,
    last_accessed: Option<u64>,
}

impl FileEntry {
    /// Contents and read time are present together.
    pub closed spec fn wf(&self) -> bool {
        self.contents is Some <==> self.last_accessed is Some
    }

    /// The cached contents, `None` while pending.
    pub closed spec fn cached(&self) -> Option<Seq<char>> {
        match self.contents {
            Some(c) => Some(c@),
            None => None,
        }
    }

    /// When the contents were read, `None` while pending.
    pub closed spec fn accessed(&self) -> Option<u64> {
        self.last_accessed
    }

    /// The file this entry stands for.
    pub closed spec fn file(&self) -> Seq<char> {
        self.path@
    }

    /// A pending entry for the file at `path`.
    pub fn new(path: &str) -> (r: FileEntry)
        ensures
            r.wf(),
            r.cached() is None,
            r.accessed() is None,
            r.file() == path@,
    {
        FileEntry { path: path.to_owned(), contents: None, last_accessed: None }
    }

    /// The cached contents, or `NeedsUpdate` while the entry has no read
    /// time. An entry with a read time and no contents, which a well-formed
    /// entry never is, gives `EmptyFile`.
    pub fn get(&self) -> (r: Result<String, FileEntryError>)
        ensures
            self.accessed() is None ==> r == Err::<String, FileEntryError>(
                FileEntryError::NeedsUpdate,
            ),
            self.accessed() is Some && self.cached() is None ==> r == Err::<
                String,
                FileEntryError,
            >(FileEntryError::EmptyFile),
            self.accessed() is Some && self.cached() is Some ==> r is Ok && r->Ok_0@
                == self.cached()->0,
    {
        match self.last_accessed {
            Some(_) => match &self.contents {
                Some(s) => Ok(s.clone()),
                None => Err(FileEntryError::EmptyFile),
            },
            None => Err(FileEntryError::NeedsUpdate),
        }
    }

    /// Whether the entry has not been read yet.
    pub fn is_pending(&self) -> (r: bool)
        ensures
            r == (self.cached() is None),
    {
        self.contents.is_none()
    }

    /// Populates a pending entry with `contents`, the file as read at time
    /// `now`. A populated entry is left as it is: only removing the entry
    /// refreshes it.
    pub fn update(&mut self, contents: String, now: u64)
        requires
            old(self).wf(),
        ensures
            final(self).wf(),
            final(self).file() == old(self).file(),
            old(self).cached() is None ==> final(self).cached() == Some(contents@)
                && final(self).accessed() == Some(now),
            old(self).cached() is Some ==> final(self).cached() == old(self).cached()
                && final(self).accessed() == old(self).accessed(),
    {
        if self.contents.is_none() {
            self.contents = Some(contents);
            self.last_accessed = Some(now);
        }
    }
}

/// The cache of file contents, keyed by canonical path.
pub struct FileCache {
    store: Vec<(String, FileEntry)>,
    notify_dir: String,
    model: Ghost<CacheMap>,
}

impl View for FileCache {
    type V = CacheMap;

    closed spec fn view(&self) -> CacheMap {
        self.model@
    }
}

impl FileCache {
    /// Paths are unique in the store, each entry is well formed and stands
    /// for its path, and the store holds exactly the paths of the model with
    /// their cached contents.
    pub closed spec fn wf(&self) -> bool {
        &&& forall|i: int, j: int|
            0 <= i < j < self.store@.len() ==> #[trigger] self.store@[i].0@
                != #[trigger] self.store@[j].0@
        &&& forall|i: int|
            0 <= i < self.store@.len() ==> {
                &&& (#[trigger] self.store@[i]).1.wf()
                &&& self.store@[i].1.file() == self.store@[i].0@
                &&& self.model@.contains_key(self.store@[i].0@)
                &&& self.model@[self.store@[i].0@] == self.store@[i].1.cached()
            }
        &&& forall|k: Seq<char>|
            #[trigger] self.model@.contains_key(k) ==> exists|i: int|
                0 <= i < self.store@.len() && #[trigger] self.store@[i].0@ == k
    }

    /// The directory whose changes invalidate entries.
    pub closed spec fn dir(&self) -> Seq<char> {
        self.notify_dir@
    }

    /// An empty cache for the files under `dir_watch`.
    pub fn new(dir_watch: &str) -> (r: FileCache)
        ensures
            r.wf(),
            r@ == CacheMap::empty(),
            r.dir() == dir_watch@,
    {
        FileCache { store: Vec::new(), notify_dir: dir_watch.to_owned(), model: Ghost(Map::empty()) }
    }

    /// The directory whose changes invalidate entries.
    pub fn watch_dir(&self) -> (r: &str)
        ensures
            r@ == self.dir(),
    {
        self.notify_dir.as_str()
    }

    /// The index of the entry for `path`, if there is one.
    fn find(&self, path: &str) -> (r: Option<usize>)
        requires
            self.wf(),
        ensures
            match r {
                Some(i) => i < self.store@.len() && self.store@[i as int].0@ == path@,
                None => !self@.contains_key(path@),
            },
    {
        let key: String = path.to_owned();
        let mut i: usize = 0;
        while i < self.store.len()
            invariant
                self.wf(),
                key@ == path@,
                i <= self.store@.len(),
                forall|j: int| 0 <= j < i ==> self.store@[j].0@ != path@,
            decreases self.store@.len() - i,
        {
            if self.store[i].0.eq(&key) {
                return Some(i);
            }
            i = i + 1;
        }
        None
    }

    /// Makes sure that `path` has an entry: a pending one is created where
    /// there is none.
    pub fn open(&mut self, path: &str)
        requires
            old(self).wf(),
        ensures
            final(self).wf(),
            final(self)@ == opened(old(self)@, path@),
            final(self).dir() == old(self).dir(),
    {
        match self.find(path) {
            Some(_) => {},
            None => {
                let fe = FileEntry::new(path);
                self.put(path.to_owned(), fe);
            },
        }
    }

    /// Adds the entry `fe` under `key`, which has none.
    fn put(&mut self, key: String, fe: FileEntry)
        requires
            old(self).wf(),
            !old(self)@.contains_key(key@),
            fe.wf(),
            fe.file() == key@,
        ensures
            final(self).wf(),
            final(self)@ == old(self)@.insert(key@, fe.cached()),
            final(self).dir() == old(self).dir(),
    {
        let ghost k0 = key@;
        let ghost c0 = fe.cached();
        let ghost old_store = self.store@;
        self.store.push((key, fe));
        self.model = Ghost(self.model@.insert(k0, c0));
        assert forall|i: int, j: int|
            0 <= i < j < self.store@.len() implies #[trigger] self.store@[i].0@
                != #[trigger] self.store@[j].0@ by {
            if j == old_store.len() {
                assert(old(self).model@.contains_key(old_store[i].0@));
            } else {
                assert(old_store[i].0@ != old_store[j].0@);
            }
        }
        assert forall|k: Seq<char>| #[trigger] self.model@.contains_key(k) implies exists|i: int|
            0 <= i < self.store@.len() && #[trigger] self.store@[i].0@ == k by {
            if k == k0 {
                assert(self.store@[old_store.len() as int].0@ == k);
            } else {
                assert(old(self).model@.contains_key(k));
                let i = choose|i: int| 0 <= i < old_store.len() && #[trigger] old_store[i].0@ == k;
                assert(self.store@[i].0@ == k);
            }
        }
    }

    /// Removes the entry at index `i` and hands it back.
    fn take(&mut self, i: usize) -> (r: (String, FileEntry))
        requires
            old(self).wf(),
            i < old(self).store@.len(),
        ensures
            final(self).wf(),
            r == old(self).store@[i as int],
            final(self)@ == old(self)@.remove(r.0@),
            final(self).dir() == old(self).dir(),
    {
        let ghost old_store = self.store@;
        let r = self.store.remove(i);
        self.model = Ghost(self.model@.remove(r.0@));
        assert forall|a: int, b: int|
            0 <= a < b < self.store@.len() implies #[trigger] self.store@[a].0@
                != #[trigger] self.store@[b].0@ by {
            let oa = if a < i { a } else { a + 1 };
            let ob = if b < i { b } else { b + 1 };
            assert(self.store@[a] == old_store[oa]);
            assert(self.store@[b] == old_store[ob]);
            assert(old_store[oa].0@ != old_store[ob].0@);
        }
        assert forall|a: int| 0 <= a < self.store@.len() implies {
            &&& (#[trigger] self.store@[a]).1.wf()
            &&& self.store@[a].1.file() == self.store@[a].0@
            &&& self.model@.contains_key(self.store@[a].0@)
            &&& self.model@[self.store@[a].0@] == self.store@[a].1.cached()
        } by {
            let oa = if a < i { a } else { a + 1 };
            assert(self.store@[a] == old_store[oa]);
            if oa < i {
                assert(old_store[oa].0@ != old_store[i as int].0@);
            } else {
                assert(old_store[i as int].0@ != old_store[oa].0@);
            }
        }
        assert forall|k: Seq<char>| #[trigger] self.model@.contains_key(k) implies exists|a: int|
            0 <= a < self.store@.len() && #[trigger] self.store@[a].0@ == k by {
            assert(old(self).model@.contains_key(k));
            let o = choose|o: int| 0 <= o < old_store.len() && #[trigger] old_store[o].0@ == k;
            assert(o != i);
            let a = if o < i { o } else { o - 1 };
            assert(self.store@[a] == old_store[o]);
        }
        r
    }

    /// The cached contents of `path`: `NoFileEntry` where it has no entry,
    /// `NeedsUpdate` where its entry is pending. Nothing is read: a caller
    /// that gets `NeedsUpdate` reads the file and hands it to `fill`.
    pub fn lookup(&self, path: &str) -> (r: Result<String, FileEntryError>)
        requires
            self.wf(),
        ensures
            !self@.contains_key(path@) ==> r == Err::<String, FileEntryError>(
                FileEntryError::NoFileEntry,
            ),
            needs_load(self@, path@) ==> r == Err::<String, FileEntryError>(
                FileEntryError::NeedsUpdate,
            ),
            self@.contains_key(path@) && self@[path@] is Some ==> r is Ok && r->Ok_0@
                == self@[path@]->0,
    {
        match self.find(path) {
            Some(i) => self.store[i].1.get(),
            None => Err(FileEntryError::NoFileEntry),
        }
    }
}

impl FileCache {
    /// The contents of `path`, which must have an entry (`open` comes
    /// first). A populated entry gives its cached contents and the file is
    /// not read; a pending entry is populated with what `load(path)` reads,
    /// stamped with `now`.
    pub fn read<F: Fn(&str) -> String>(&mut self, path: &str, now: u64, load: F) -> (r: String)
        requires
            old(self).wf(),
            old(self)@.contains_key(path@),
            load.requires((path,)),
        ensures
            final(self).wf(),
            final(self).dir() == old(self).dir(),
            needs_load(old(self)@, path@) ==> load.ensures((path,), r),
            r@ == read_value(old(self)@, path@, r@),
            final(self)@ == after_read(old(self)@, path@, r@),
    {
        match self.lookup(path) {
            Ok(s) => s,
            Err(_) => {
                let contents = load(path);
                let r = self.fill(path, contents, now);
                r
            },
        }
    }

    /// Populates the pending entry of `path` with `contents`, the file as
    /// read at time `now`, and returns what a read of `path` gives. Where the
    /// entry was populated meanwhile its contents stay and are returned;
    /// where it was removed meanwhile the cache is left as it is and
    /// `contents` is returned.
    pub fn fill(&mut self, path: &str, contents: String, now: u64) -> (r: String)
        requires
            old(self).wf(),
        ensures
            final(self).wf(),
            final(self).dir() == old(self).dir(),
            final(self)@ == after_read(old(self)@, path@, contents@),
            r@ == fill_value(old(self)@, path@, contents@),
            !(old(self)@.contains_key(path@) && old(self)@[path@] is Some) ==> r == contents,
    {
        match self.find(path) {
            Some(i) => {
                let (key, mut fe) = self.take(i);
                if fe.is_pending() {
                    fe.update(contents.clone(), now);
                    self.put(key, fe);
                    assert(self@ =~= old(self)@.insert(path@, Some(contents@)));
                    contents
                } else {
                    let r = match fe.get() {
                        Ok(c) => c,
                        Err(_) => contents,
                    };
                    self.put(key, fe);
                    assert(self@ =~= old(self)@);
                    r
                }
            },
            None => contents,
        }
    }

    /// Removes the entry for `path` and hands it back, if there is one.
    pub fn invalidate_entry(&mut self, path: &str) -> (r: Option<(String, FileEntry)>)
        requires
            old(self).wf(),
        ensures
            final(self).wf(),
            final(self).dir() == old(self).dir(),
            final(self)@ == old(self)@.remove(path@),
            r is Some <==> old(self)@.contains_key(path@),
            match r {
                Some(t) => t.0@ == path@ && t.1.cached() == old(self)@[path@],
                None => true,
            },
    {
        match self.find(path) {
            Some(i) => {
                let t = self.take(i);
                Some(t)
            },
            None => {
                assert(self@.remove(path@) =~= self@);
                None
            },
        }
    }
}

/// A change observed under the watched directory, with the paths it names.
#[derive(Debug)]
pub enum WatchEvent {
    /// A file is about to be written.
    NoticeWrite(String),
    /// A file is about to be removed or renamed.
    NoticeRemove(String),
    Create(String),
    Write(String),
    Chmod(String),
    Remove(String),
    /// A file was renamed from the first path to the second.
    Rename(String, String),
    Rescan,
    /// The watcher failed, on a path where it names one.
    Error(Option<String>),
}

/// The path whose entry an event invalidates: that of a creation, a write,
/// a removal, or the old path of a rename.
pub open spec fn invalidated_path(e: WatchEvent) -> Option<Seq<char>> {
    match e {
        WatchEvent::Create(p) => Some(p@),
        WatchEvent::Write(p) => Some(p@),
        WatchEvent::Remove(p) => Some(p@),
        WatchEvent::Rename(p, _) => Some(p@),
        _ => None,
    }
}

/// The cache after an event.
pub open spec fn after_event(m: CacheMap, e: WatchEvent) -> CacheMap {
    match invalidated_path(e) {
        Some(p) => m.remove(p),
        None => m,
    }
}

impl FileCache {
    /// Applies a change under the watched directory: the entry of the path
    /// that it invalidates is removed and its path handed back, if there was
    /// one; other events change nothing.
    pub fn apply_event(&mut self, event: &WatchEvent) -> (r: Option<String>)
        requires
            old(self).wf(),
        ensures
            final(self).wf(),
            final(self).dir() == old(self).dir(),
            final(self)@ == after_event(old(self)@, *event),
            r is Some <==> (invalidated_path(*event) is Some && old(self)@.contains_key(
                invalidated_path(*event)->0,
            )),
            r is Some ==> r->0@ == invalidated_path(*event)->0,
    {
        let path: &str = match event {
            WatchEvent::Create(p) => p.as_str(),
            WatchEvent::Write(p) => p.as_str(),
            WatchEvent::Remove(p) => p.as_str(),
            WatchEvent::Rename(p, _) => p.as_str(),
            _ => {
                return None;
            },
        };
        match self.invalidate_entry(path) {
            Some(t) => Some(t.0),
            None => None,
        }
    }
}

/// Reading a path right after opening it, where it had no entry, reads the
/// file: the result is what the read of the file gave, and it stays cached.
pub proof fn lemma_read_after_open_loads(m: CacheMap, p: Seq<char>, loaded: Seq<char>)
    requires
        !m.contains_key(p),
    ensures
        needs_load(opened(m, p), p),
        read_value(opened(m, p), p, loaded) == loaded,
        after_read(opened(m, p), p, loaded)[p] == Some(loaded),
{
}

/// A second read of a path, with no invalidation between, reads nothing from
/// disk and returns what the first read returned, leaving the cache as it
/// was; this holds whatever a read of the file would give the second time.
pub proof fn lemma_second_read_is_cached(
    m: CacheMap,
    p: Seq<char>,
    first: Seq<char>,
    second: Seq<char>,
)
    requires
        m.contains_key(p),
    ensures
        !needs_load(after_read(m, p, first), p),
        read_value(after_read(m, p, first), p, second) == read_value(m, p, first),
        after_read(after_read(m, p, first), p, second) == after_read(m, p, first),
{
}

/// After a creation, write, removal or rename of a path is observed, the
/// path has no entry, and once it is opened again the next read reads the
/// file anew.
pub proof fn lemma_event_forces_reload(m: CacheMap, e: WatchEvent, p: Seq<char>, loaded: Seq<char>)
    requires
        invalidated_path(e) == Some(p),
    ensures
        !after_event(m, e).contains_key(p),
        needs_load(opened(after_event(m, e), p), p),
        read_value(opened(after_event(m, e), p), p, loaded) == loaded,
{
}

} // verus!
