//! The asset pipeline: static files that are built by commands, and rebuilt
//! when one of the files they are built from changes.
//!
//! Times are instants counted in nanoseconds from the Unix epoch, negative
//! before it.

use vstd::prelude::*;

verus! {

/// A kind of asset and the command that builds it.
#[derive(Debug)]
pub struct AssetType {
    extention: String,
    build_command: Vec<String>,
}

/// What an asset is, in terms of plain values.
#[verifier::ext_equal]
pub struct AssetView {
    /// The path the asset is requested by.
    pub path: Seq<char>,
    /// Glob patterns of the files it is built from.
    pub watchers: Seq<Seq<char>>,
    /// The directory to build in, then the program that builds it.
    pub commands: Seq<Seq<char>>,
    /// When it was last built, if it was.
    pub last_modified: Option<i128>,
}

/// A static file that commands build from watched files.
#[derive(Debug, PartialEq, Eq)]
pub struct Asset {
    path: String,
    watchers: Vec<String>,
    commands: Vec<String>,
    last_modified: Option<i128>,
}

/// The texts of a list of strings.
pub open spec fn texts(v: Seq<String>) -> Seq<Seq<char>> {
    v.map_values(|s: String| s@)
}

impl View for Asset {
    type V = AssetView;

    closed spec fn view(&self) -> AssetView {
        AssetView {
            path: self.path@,
            watchers: texts(self.watchers@),
            commands: texts(self.commands@),
            last_modified: self.last_modified,
        }
    }
}

/// Copies a list of strings.
pub fn copy_strings(v: &Vec<String>) -> (r: Vec<String>)
    ensures
        texts(r@) == texts(v@),
{
    let mut r: Vec<String> = Vec::new();
    let mut i: usize = 0;
    while i < v.len()
        invariant
            i <= v.len(),
            r@.len() == i,
            forall|j: int| 0 <= j < i ==> #[trigger] r@[j]@ == v@[j]@,
        decreases v.len() - i,
    {
        r.push(v[i].clone());
        i = i + 1;
    }
    assert(texts(r@) =~= texts(v@));
    r
}

impl Asset {
    /// An asset that has not been built yet.
    pub fn new(path: String, watch: Vec<String>, commands: Vec<String>) -> (r: Asset)
        ensures
            r@.path == path@,
            r@.watchers == texts(watch@),
            r@.commands == texts(commands@),
            r@.last_modified is None,
    {
        Asset { commands: commands, path: path, last_modified: None, watchers: watch }
    }

    /// The path the asset is requested by.
    pub fn path(&self) -> (r: &String)
        ensures
            r@ == self@.path,
    {
        &self.path
    }

    /// The glob patterns of the files the asset is built from.
    pub fn watchers(&self) -> (r: &Vec<String>)
        ensures
            texts(r@) == self@.watchers,
    {
        &self.watchers
    }

    /// The directory to build in, then the program that builds the asset.
    pub fn commands(&self) -> (r: &Vec<String>)
        ensures
            texts(r@) == self@.commands,
    {
        &self.commands
    }

    /// When the asset was last built, if it was.
    pub fn last_modified(&self) -> (r: Option<i128>)
        ensures
            r == self@.last_modified,
    {
        self.last_modified
    }
}


/// An entry of the pipeline's manifest: the path of an asset, the commands
/// that build it and the glob patterns of the files it is built from.
#[derive(Debug, PartialEq, Eq)]
pub struct ManifestFile {
    pub path: String,
    pub commands: Vec<String>,
    pub watch: Vec<String>,
}

/// The asset that a manifest entry registers: not built yet.
pub open spec fn manifest_asset(f: ManifestFile) -> AssetView {
    AssetView {
        path: f.path@,
        watchers: texts(f.watch@),
        commands: texts(f.commands@),
        last_modified: None,
    }
}

/// The assets that a manifest registers, entry by entry, a later entry for
/// a path replacing an earlier one.
pub open spec fn registered(files: Seq<ManifestFile>) -> Map<Seq<char>, AssetView>
    decreases files.len(),
{
    if files.len() == 0 {
        Map::empty()
    } else {
        registered(files.drop_last()).insert(files.last().path@, manifest_asset(files.last()))
    }
}

/// The registered assets, each under its path.
pub struct AssetPipeline {
    registered_files: Vec<Asset>,
}

impl AssetPipeline {
    #[verifier::type_invariant]
    closed spec fn paths_distinct(self) -> bool {
        forall|i: int, j: int|
            0 <= i < j < self.registered_files@.len() ==> #[trigger] self.registered_files@[i]@.path
                != #[trigger] self.registered_files@[j]@.path
    }

    closed spec fn holds(self, p: Seq<char>) -> bool {
        exists|i: int| 0 <= i < self.registered_files@.len() && #[trigger] self.registered_files@[i]@.path == p
    }

    closed spec fn index_of(self, p: Seq<char>) -> int {
        choose|i: int| 0 <= i < self.registered_files@.len() && #[trigger] self.registered_files@[i]@.path == p
    }

    proof fn lemma_index_of(self, i: int)
        requires
            self.paths_distinct(),
            0 <= i < self.registered_files@.len(),
        ensures
            self.holds(self.registered_files@[i]@.path),
            self.index_of(self.registered_files@[i]@.path) == i,
    {
        let p = self.registered_files@[i]@.path;
        assert(self.registered_files@[i]@.path == p);
        let j = self.index_of(p);
        if j < i {
            assert(self.registered_files@[j]@.path != self.registered_files@[i]@.path);
        } else if j > i {
            assert(self.registered_files@[i]@.path != self.registered_files@[j]@.path);
        }
    }
}

impl View for AssetPipeline {
    type V = Map<Seq<char>, AssetView>;

    closed spec fn view(&self) -> Map<Seq<char>, AssetView> {
        Map::new(|p: Seq<char>| self.holds(p), |p: Seq<char>| self.registered_files@[self.index_of(p)]@)
    }
}

impl AssetPipeline {
    fn find(&self, path: &String) -> (r: Option<usize>)
        ensures
            match r {
                Some(i) => i < self.registered_files@.len() && self.registered_files@[i as int]@.path
                    == path@,
                None => !self.holds(path@),
            },
    {
        let mut i: usize = 0;
        while i < self.registered_files.len()
            invariant
                i <= self.registered_files@.len(),
                forall|j: int| 0 <= j < i ==> #[trigger] self.registered_files@[j]@.path != path@,
            decreases self.registered_files@.len() - i,
        {
            if self.registered_files[i].path == *path {
                return Some(i);
            }
            i = i + 1;
        }
        None
    }

    /// Registers `asset` under its path, in place of any asset registered
    /// there before.
    pub fn register_file(&mut self, asset: Asset) -> (r: Option<()>)
        ensures
            final(self)@ == old(self)@.insert(asset@.path, asset@),
            r is None,
    {
        proof {
            use_type_invariant(&*self);
        }
        let ghost old_self = *self;
        let ghost p = asset@.path;
        let ghost v = asset@;
        let found = self.find(&asset.path);
        let mut files: Vec<Asset> = Vec::new();
        std::mem::swap(&mut files, &mut self.registered_files);
        match found {
            Some(i) => {
                files.set(i, asset);
                self.registered_files = files;
                proof {
                    assert forall|k: Seq<char>| #![auto] self@.contains_key(k) <==> old_self@.insert(p, v).contains_key(k) by {
                        if old_self.holds(k) {
                            let j = old_self.index_of(k);
                            assert(self.registered_files@[j]@.path == k);
                        }
                        if self.holds(k) {
                            let j = self.index_of(k);
                            assert(old_self.registered_files@[j]@.path == k || j == i);
                        }
                    }
                    assert forall|k: Seq<char>| #![auto] self@.contains_key(k) implies self@[k] == old_self@.insert(p, v)[k] by {
                        let j = self.index_of(k);
                        self.lemma_index_of(j);
                        if k != p {
                            old_self.lemma_index_of(j);
                        }
                    }
                    assert(self@ =~= old_self@.insert(p, v));
                }
            },
            None => {
                files.push(asset);
                self.registered_files = files;
                proof {
                    let n = old_self.registered_files@.len() as int;
                    assert forall|k: Seq<char>| #![auto] self@.contains_key(k) <==> old_self@.insert(p, v).contains_key(k) by {
                        if old_self.holds(k) {
                            let j = old_self.index_of(k);
                            assert(self.registered_files@[j]@.path == k);
                        }
                        if k == p {
                            assert(self.registered_files@[n]@.path == k);
                        }
                        if self.holds(k) && k != p {
                            let j = self.index_of(k);
                            assert(old_self.registered_files@[j]@.path == k);
                        }
                    }
                    assert forall|k: Seq<char>| #![auto] self@.contains_key(k) implies self@[k] == old_self@.insert(p, v)[k] by {
                        let j = self.index_of(k);
                        self.lemma_index_of(j);
                        if k != p {
                            old_self.lemma_index_of(j);
                        }
                    }
                    assert(self@ =~= old_self@.insert(p, v));
                }
            },
        }
        None
    }

    /// The pipeline that a manifest describes: each entry registered in
    /// turn, as not yet built.
    pub fn new(files: Vec<ManifestFile>) -> (r: AssetPipeline)
        ensures
            r@ == registered(files@),
    {
        let ghost all = files@;
        let total = files.len();
        let mut files = files;
        let mut pipeline = AssetPipeline { registered_files: Vec::new() };
        proof {
            assert(pipeline@ =~= Map::<Seq<char>, AssetView>::empty());
            assert(all.take(0) =~= Seq::<ManifestFile>::empty());
        }
        let mut k: usize = 0;
        while files.len() > 0
            invariant
                k <= all.len(),
                all.len() == total,
                files@ == all.skip(k as int),
                pipeline@ == registered(all.take(k as int)),
            decreases files@.len(),
        {
            assert(k < all.len());
            let f = files.remove(0);
            proof {
                assert(f == all[k as int]);
                assert(all.take(k + 1).drop_last() =~= all.take(k as int));
                assert(files@ =~= all.skip(k + 1));
            }
            let ManifestFile { path, commands, watch } = f;
            let asset = Asset::new(path, watch, commands);
            pipeline.register_file(asset);
            k = k + 1;
            proof {
                assert(asset@ =~= manifest_asset(all[k - 1]));
            }
        }
        proof {
            assert(all.take(k as int) =~= all);
        }
        pipeline
    }
}


/// What a request for an asset calls for.
pub enum FileForStep {
    /// No asset is registered under the requested path.
    NotRegistered,
    /// The asset has never been built: run its commands.
    Build { commands: Vec<String> },
    /// The asset was built at `last_modified`: find the newest of the files
    /// that match its watch patterns, and rebuild it with its commands if
    /// that is later.
    CheckWatchers { watchers: Vec<String>, commands: Vec<String>, last_modified: i128 },
}

/// What a request for an asset calls for, in terms of plain values.
pub enum FileForPlan {
    NotRegistered,
    Build(Seq<Seq<char>>),
    CheckWatchers(Seq<Seq<char>>, Seq<Seq<char>>, i128),
}

impl View for FileForStep {
    type V = FileForPlan;

    open spec fn view(&self) -> FileForPlan {
        match self {
            FileForStep::NotRegistered => FileForPlan::NotRegistered,
            FileForStep::Build { commands } => FileForPlan::Build(texts(commands@)),
            FileForStep::CheckWatchers {
                watchers,
                commands,
                last_modified,
            } => FileForPlan::CheckWatchers(texts(watchers@), texts(commands@), *last_modified),
        }
    }
}

/// What a request for the asset at `p` calls for, given the registered
/// assets `m`.
pub open spec fn file_for_spec(m: Map<Seq<char>, AssetView>, p: Seq<char>) -> FileForPlan {
    if !m.contains_key(p) {
        FileForPlan::NotRegistered
    } else {
        match m[p].last_modified {
            None => FileForPlan::Build(m[p].commands),
            Some(t) => FileForPlan::CheckWatchers(m[p].watchers, m[p].commands, t),
        }
    }
}

/// The registered assets once the asset at `p`, if there is one, is
/// recorded as built at `t`.
pub open spec fn built_at(m: Map<Seq<char>, AssetView>, p: Seq<char>, t: i128) -> Map<
    Seq<char>,
    AssetView,
> {
    if m.contains_key(p) {
        m.insert(
            p,
            AssetView {
                path: m[p].path,
                watchers: m[p].watchers,
                commands: m[p].commands,
                last_modified: Some(t),
            },
        )
    } else {
        m
    }
}

/// The registered assets after the first build of the asset at `p`, done at
/// `now`: recorded only for a registered asset never built before.
pub open spec fn after_first_build(m: Map<Seq<char>, AssetView>, p: Seq<char>, now: i128) -> Map<
    Seq<char>,
    AssetView,
> {
    if m.contains_key(p) && m[p].last_modified is None {
        built_at(m, p, now)
    } else {
        m
    }
}

/// Whether the asset at `p` must be rebuilt, given the newest modification
/// time among the files it watches: it is registered, was built, and a
/// watched file is newer than that build.
pub open spec fn rebuild_due(m: Map<Seq<char>, AssetView>, p: Seq<char>, newest: Option<i128>) -> bool {
    &&& m.contains_key(p)
    &&& m[p].last_modified is Some
    &&& needs_rebuild_spec(m[p].last_modified->0, newest)
}

/// The registered assets after the watched files of the asset at `p` were
/// found to be newest at `newest`: where a rebuild is due, it is recorded at
/// that time.
pub open spec fn after_scan(m: Map<Seq<char>, AssetView>, p: Seq<char>, newest: Option<i128>) -> Map<
    Seq<char>,
    AssetView,
> {
    if rebuild_due(m, p, newest) {
        built_at(m, p, newest->0)
    } else {
        m
    }
}

/// Whether `m2` has the paths of `m1`, the same assets, and build times that
/// are never earlier: an asset built in `m1` is built in `m2`, no earlier.
pub open spec fn times_never_go_back(m1: Map<Seq<char>, AssetView>, m2: Map<Seq<char>, AssetView>) -> bool {
    &&& m2.dom() == m1.dom()
    &&& forall|q: Seq<char>|
        #![trigger m2[q]]
        m1.contains_key(q) ==> {
            &&& m2[q].path == m1[q].path
            &&& m2[q].watchers == m1[q].watchers
            &&& m2[q].commands == m1[q].commands
            &&& (m1[q].last_modified matches Some(t) ==> m2[q].last_modified matches Some(t2) && t2
                >= t)
        }
}

/// Whether an asset built at `last_modified` must be rebuilt, given the
/// newest modification time among the files it watches.
pub open spec fn needs_rebuild_spec(last_modified: i128, newest: Option<i128>) -> bool {
    match newest {
        Some(t) => t > last_modified,
        None => false,
    }
}

/// The latest of `times`, if there is any.
pub open spec fn newest_spec(times: Seq<i128>) -> Option<i128>
    decreases times.len(),
{
    if times.len() == 0 {
        None
    } else {
        match newest_spec(times.drop_last()) {
            Some(m) => if times.last() > m {
                Some(times.last())
            } else {
                Some(m)
            },
            None => Some(times.last()),
        }
    }
}

/// The latest of the times is one of them and no earlier than any of them.
pub proof fn lemma_newest_is_latest(times: Seq<i128>)
    ensures
        newest_spec(times) is None <==> times.len() == 0,
        newest_spec(times) matches Some(m) ==> times.contains(m) && forall|i: int|
            0 <= i < times.len() ==> #[trigger] times[i] <= m,
    decreases times.len(),
{
    if times.len() > 0 {
        let init = times.drop_last();
        lemma_newest_is_latest(init);
        let m = newest_spec(times)->0;
        assert forall|i: int| 0 <= i < times.len() implies #[trigger] times[i] <= m by {
            if i < times.len() - 1 {
                assert(times[i] == init[i]);
            }
        }
        if let Some(k) = newest_spec(init) {
            if m == k {
                let j = choose|j: int| 0 <= j < init.len() && init[j] == k;
                assert(times[j] == k);
            }
        }
        assert(times[times.len() - 1] == times.last());
    }
}

impl AssetPipeline {
    /// What a request for the asset at `requested_path` calls for.
    pub fn file_for(&self, requested_path: &str) -> (r: FileForStep)
        ensures
            r@ == file_for_spec(self@, requested_path@),
    {
        proof {
            use_type_invariant(self);
        }
        let key = String::from_str(requested_path);
        match self.find(&key) {
            None => FileForStep::NotRegistered,
            Some(i) => {
                proof {
                    self.lemma_index_of(i as int);
                }
                let a = &self.registered_files[i];
                match a.last_modified {
                    None => FileForStep::Build { commands: copy_strings(&a.commands) },
                    Some(t) => FileForStep::CheckWatchers {
                        watchers: copy_strings(&a.watchers),
                        commands: copy_strings(&a.commands),
                        last_modified: t,
                    },
                }
            },
        }
    }

    /// Records that the asset at `requested_path`, if one is registered
    /// there, was built at `time`.
    fn set_last_modified(&mut self, requested_path: &str, time: i128)
        ensures
            final(self)@ == built_at(old(self)@, requested_path@, time),
    {
        proof {
            use_type_invariant(&*self);
        }
        let key = String::from_str(requested_path);
        match self.find(&key) {
            None => {},
            Some(i) => {
                proof {
                    self.lemma_index_of(i as int);
                }
                let a = &self.registered_files[i];
                let built = Asset {
                    path: a.path.clone(),
                    watchers: copy_strings(&a.watchers),
                    commands: copy_strings(&a.commands),
                    last_modified: Some(time),
                };
                let ghost before = self@;
                proof {
                    assert(built@ =~= AssetView {
                        path: before[requested_path@].path,
                        watchers: before[requested_path@].watchers,
                        commands: before[requested_path@].commands,
                        last_modified: Some(time),
                    });
                }
                self.register_file(built);
            },
        }
    }

    /// Records the first build of the asset at `requested_path`, done at
    /// `now`. Nothing changes unless that asset is registered and had never
    /// been built.
    pub fn record_first_build(&mut self, requested_path: &str, now: i128)
        ensures
            final(self)@ == after_first_build(old(self)@, requested_path@, now),
    {
        match self.file_for(requested_path) {
            FileForStep::Build { .. } => {
                self.set_last_modified(requested_path, now);
            },
            _ => {},
        }
    }

    /// Takes in the newest modification time among the files that the asset
    /// at `requested_path` watches. Where that asset was built before a
    /// watched file changed, records it as built at that newest time and
    /// returns the commands that rebuild it; otherwise changes nothing and
    /// returns `None`.
    pub fn record_scan(&mut self, requested_path: &str, newest: Option<i128>) -> (r: Option<
        Vec<String>,
    >)
        ensures
            final(self)@ == after_scan(old(self)@, requested_path@, newest),
            match r {
                Some(commands) => rebuild_due(old(self)@, requested_path@, newest) && texts(
                    commands@,
                ) == old(self)@[requested_path@].commands,
                None => !rebuild_due(old(self)@, requested_path@, newest),
            },
    {
        match self.file_for(requested_path) {
            FileForStep::CheckWatchers { watchers: _, commands, last_modified } => {
                match newest {
                    Some(t) => {
                        if t > last_modified {
                            self.set_last_modified(requested_path, t);
                            Some(commands)
                        } else {
                            None
                        }
                    },
                    None => None,
                }
            },
            _ => None,
        }
    }

    /// Whether an asset built at `last_modified` must be rebuilt, given the
    /// newest modification time among the files it watches.
    pub fn needs_rebuild(last_modified: i128, newest: Option<i128>) -> (r: bool)
        ensures
            r == needs_rebuild_spec(last_modified, newest),
    {
        match newest {
            Some(t) => t > last_modified,
            None => false,
        }
    }

    /// The newest of the modification times of the watched files, if there
    /// is any file.
    pub fn last_modified_file(times: &Vec<i128>) -> (r: Option<i128>)
        ensures
            r == newest_spec(times@),
            r is None <==> times@.len() == 0,
            r matches Some(m) ==> times@.contains(m) && forall|i: int|
                0 <= i < times@.len() ==> #[trigger] times@[i] <= m,
    {
        let mut last: Option<i128> = None;
        let mut i: usize = 0;
        while i < times.len()
            invariant
                i <= times@.len(),
                last == newest_spec(times@.take(i as int)),
            decreases times@.len() - i,
        {
            proof {
                assert(times@.take(i + 1).drop_last() =~= times@.take(i as int));
            }
            let time = times[i];
            match last {
                None => {
                    last = Some(time);
                },
                Some(last_time) => {
                    if time > last_time {
                        last = Some(time);
                    }
                },
            }
            i = i + 1;
        }
        proof {
            assert(times@.take(i as int) =~= times@);
            lemma_newest_is_latest(times@);
        }
        last
    }
}

/// An asset that was registered and not built since is built on its first
/// request.
pub proof fn lemma_registered_asset_is_built_first(
    m: Map<Seq<char>, AssetView>,
    p: Seq<char>,
    watch: Seq<Seq<char>>,
    commands: Seq<Seq<char>>,
)
    ensures
        file_for_spec(
            m.insert(p, AssetView { path: p, watchers: watch, commands, last_modified: None }),
            p,
        ) == FileForPlan::Build(commands),
{
}

/// Once an asset is recorded as built at `t`, a request for it checks its
/// watched files against `t`; the other assets are left as they were.
pub proof fn lemma_built_asset_checks_watchers(
    m: Map<Seq<char>, AssetView>,
    p: Seq<char>,
    t: i128,
    q: Seq<char>,
)
    requires
        m.contains_key(p),
    ensures
        file_for_spec(built_at(m, p, t), p) == FileForPlan::CheckWatchers(
            m[p].watchers,
            m[p].commands,
            t,
        ),
        built_at(m, p, t).dom() == m.dom(),
        q != p ==> built_at(m, p, t).contains_key(q) == m.contains_key(q),
        q != p && m.contains_key(q) ==> built_at(m, p, t)[q] == m[q],
{
    assert(built_at(m, p, t).dom() =~= m.dom());
}

/// An asset built no earlier than every file it watches is not rebuilt; in
/// particular, one rebuilt at the newest time of its files is not rebuilt
/// again while those files stay as they are.
pub proof fn lemma_unchanged_files_need_no_rebuild(times: Seq<i128>, t: i128)
    requires
        forall|i: int| 0 <= i < times.len() ==> #[trigger] times[i] <= t,
    ensures
        !needs_rebuild_spec(t, newest_spec(times)),
        newest_spec(times) matches Some(n) ==> !needs_rebuild_spec(n, newest_spec(times)),
{
    lemma_newest_is_latest(times);
    if let Some(n) = newest_spec(times) {
        let j = choose|j: int| 0 <= j < times.len() && times[j] == n;
        assert(times[j] <= t);
    }
}

/// A file that changed after the asset was built makes the asset be rebuilt.
pub proof fn lemma_changed_file_needs_rebuild(times: Seq<i128>, t: i128, i: int)
    requires
        0 <= i < times.len(),
        times[i] > t,
    ensures
        needs_rebuild_spec(t, newest_spec(times)),
{
    lemma_newest_is_latest(times);
}


/// Neither recording a first build nor taking in a scan of the watched files
/// ever changes the registered paths, the assets' patterns and commands, or
/// moves a build time back.
pub proof fn lemma_build_times_never_go_back(
    m: Map<Seq<char>, AssetView>,
    p: Seq<char>,
    now: i128,
    newest: Option<i128>,
)
    ensures
        times_never_go_back(m, after_first_build(m, p, now)),
        times_never_go_back(m, after_scan(m, p, newest)),
{
    assert(after_first_build(m, p, now).dom() =~= m.dom());
    assert(after_scan(m, p, newest).dom() =~= m.dom());
}

} // verus!
