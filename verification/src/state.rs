//! The catalogue of executables that the last builds produced.
use vstd::prelude::*;

verus! {

/// One executable found in the workspace's build output.
#[derive(Debug)]
pub struct Executable {
    pub name: String,
    pub path: String,
    /// Build time of the binary, in nanoseconds relative to the Unix epoch.
    pub time: i128,
    /// Whether the binary changed since it was last recorded.
    pub need_update: bool,
    /// Fingerprint of the build time, as the server lists it.
    pub hash: u64,
}

/// The mathematical model of an [`Executable`].
pub struct ExecutableView {
    pub name: Seq<char>,
    pub path: Seq<char>,
    pub time: int,
    pub need_update: bool,
    pub hash: u64,
}

impl View for Executable {
    type V = ExecutableView;

    open spec fn view(&self) -> ExecutableView {
        ExecutableView {
            name: self.name@,
            path: self.path@,
            time: self.time as int,
            need_update: self.need_update,
            hash: self.hash,
        }
    }
}

impl Clone for Executable {
    fn clone(&self) -> (r: Self)
        ensures
            r == *self,
    {
        Executable {
            name: self.name.clone(),
            path: self.path.clone(),
            time: self.time,
            need_update: self.need_update,
            hash: self.hash,
        }
    }
}

/// The views of a sequence of executables, in order.
pub open spec fn catalog(exes: Seq<Executable>) -> Seq<ExecutableView> {
    exes.map_values(|e: Executable| e@)
}

/// Some executable of `s` is called `name`.
pub open spec fn has_name(s: Seq<ExecutableView>, name: Seq<char>) -> bool {
    exists|i: int| 0 <= i < s.len() && s[i].name == name
}

/// `k` is the first position of `s` that holds an executable called `name`.
pub open spec fn is_first_named(s: Seq<ExecutableView>, name: Seq<char>, k: int) -> bool {
    &&& 0 <= k < s.len()
    &&& s[k].name == name
    &&& forall|j: int| 0 <= j < k ==> s[j].name != name
}

/// The first position of `s` that holds an executable called `name` (meaningful when `has_name`).
pub open spec fn first_named(s: Seq<ExecutableView>, name: Seq<char>) -> int {
    choose|k: int| is_first_named(s, name, k)
}

/// The first executable of `s` called `name`, if there is one.
pub open spec fn lookup(s: Seq<ExecutableView>, name: Seq<char>) -> Option<ExecutableView> {
    if has_name(s, name) {
        Some(s[first_named(s, name)])
    } else {
        None
    }
}

/// Where the first executable called `name` sits, it is what `lookup` gives.
pub proof fn lemma_first_named(s: Seq<ExecutableView>, name: Seq<char>, k: int)
    requires
        is_first_named(s, name, k),
    ensures
        has_name(s, name),
        first_named(s, name) == k,
        lookup(s, name) == Some(s[k]),
{
    let c = first_named(s, name);
    assert(is_first_named(s, name, c));
    if c < k {
        assert(s[c].name != name);
    } else if c > k {
        assert(s[k].name != name);
    }
}

/// A name present in `s` has a first position.
pub proof fn lemma_has_name_first(s: Seq<ExecutableView>, name: Seq<char>)
    requires
        has_name(s, name),
    ensures
        is_first_named(s, name, first_named(s, name)),
    decreases s.len(),
{
    let i = choose|i: int| 0 <= i < s.len() && s[i].name == name;
    let t = s.take(i);
    if has_name(t, name) {
        lemma_has_name_first(t, name);
        let k = first_named(t, name);
        assert forall|j: int| 0 <= j <= k implies s[j] == t[j] by {}
        assert(is_first_named(s, name, k));
        lemma_first_named(s, name, k);
    } else {
        assert forall|j: int| 0 <= j < i implies s[j].name != name by {
            assert(t[j] == s[j]);
        }
        assert(is_first_named(s, name, i));
        lemma_first_named(s, name, i);
    }
}

/// Position of the first executable in `exes` called `name`, if any.
fn position_named(exes: &Vec<Executable>, name: &String) -> (r: Option<usize>)
    ensures
        match r {
            Some(k) => is_first_named(catalog(exes@), name@, k as int),
            None => !has_name(catalog(exes@), name@),
        },
{
    let ghost s = catalog(exes@);
    let mut i: usize = 0;
    while i < exes.len()
        invariant
            0 <= i <= exes.len(),
            s == catalog(exes@),
            forall|j: int| 0 <= j < i ==> s[j].name != name@,
        decreases exes.len() - i,
    {
        if exes[i].name == *name {
            return Some(i);
        }
        i = i + 1;
    }
    None
}

/// The first executable called `name`, as a copy.
pub fn get_executable(exes: &Vec<Executable>, name: &str) -> (r: Option<Executable>)
    ensures
        match r {
            Some(e) => lookup(catalog(exes@), name@) == Some(e@),
            None => lookup(catalog(exes@), name@) is None,
        },
{
    let key = name.to_owned();
    match position_named(exes, &key) {
        Some(k) => {
            proof {
                lemma_first_named(catalog(exes@), name@, k as int);
            }
            Some(exes[k].clone())
        },
        None => None,
    }
}

/// A binary that a build left in the workspace's output directory.
pub struct Artifact {
    pub name: String,
    pub path: String,
    /// Build time of the binary, in nanoseconds relative to the Unix epoch.
    pub time: i128,
    /// Fingerprint of the build time, taken when the binary was read.
    pub hash: u64,
}

/// The mathematical model of an [`Artifact`].
pub struct ArtifactView {
    pub name: Seq<char>,
    pub path: Seq<char>,
    pub time: int,
    pub hash: u64,
}

impl View for Artifact {
    type V = ArtifactView;

    open spec fn view(&self) -> ArtifactView {
        ArtifactView { name: self.name@, path: self.path@, time: self.time as int, hash: self.hash }
    }
}

/// The views of a sequence of artifacts, in order.
pub open spec fn artifacts_view(arts: Seq<Artifact>) -> Seq<ArtifactView> {
    arts.map_values(|a: Artifact| a@)
}

/// The catalogue after one build artifact is recorded: the first executable of
/// the same name takes the artifact's path, time and fingerprint, and needs an update exactly
/// when the artifact is newer than what was recorded; an unknown name is
/// appended and needs an update.
pub open spec fn recorded(s: Seq<ExecutableView>, a: ArtifactView) -> Seq<ExecutableView> {
    if has_name(s, a.name) {
        let k = first_named(s, a.name);
        s.update(
            k,
            ExecutableView {
                name: s[k].name,
                path: a.path,
                time: a.time,
                need_update: a.time > s[k].time,
                hash: a.hash,
            },
        )
    } else {
        s.push(ExecutableView { name: a.name, path: a.path, time: a.time, need_update: true, hash: a.hash })
    }
}

/// The catalogue after the artifacts are recorded one after another, in order.
pub open spec fn recorded_all(s: Seq<ExecutableView>, arts: Seq<ArtifactView>) -> Seq<ExecutableView>
    decreases arts.len(),
{
    if arts.len() == 0 {
        s
    } else {
        recorded(recorded_all(s, arts.drop_last()), arts.last())
    }
}

/// The executables known to the watcher and the server.
#[derive(Debug, Clone)]
pub struct AppState {
    pub crates: Vec<Executable>,
}

impl View for AppState {
    type V = Seq<ExecutableView>;

    open spec fn view(&self) -> Seq<ExecutableView> {
        catalog(self.crates@)
    }
}

impl Default for AppState {
    fn default() -> (r: Self)
        ensures
            r@ == Seq::<ExecutableView>::empty(),
    {
        let r = AppState { crates: Vec::new() };
        assert(r@ =~= Seq::<ExecutableView>::empty());
        r
    }
}

impl AppState {
    /// Nothing has been built yet, so the watcher builds before it waits for changes.
    pub fn needs_initial_build(&self) -> (r: bool)
        ensures
            r == (self@.len() == 0),
    {
        self.crates.len() == 0
    }

    /// Records one artifact of a finished build (see [`recorded`]).
    pub fn record_artifact(&mut self, artifact: &Artifact)
        ensures
            final(self)@ == recorded(old(self)@, artifact@),
            lookup(final(self)@, artifact.name@) matches Some(e) && e.name == artifact.name@ && e.path
                == artifact.path@ && e.time == artifact.time && e.hash == artifact.hash && e.need_update
                == match lookup(old(self)@, artifact.name@) {
                Some(p) => artifact.time > p.time,
                None => true,
            },
            forall|n: Seq<char>|
                n != artifact.name@ ==> #[trigger] lookup(final(self)@, n) == lookup(old(self)@, n),
    {
        proof {
            lemma_record_then_lookup(self@, artifact@);
            assert forall|n: Seq<char>| n != artifact.name@ implies #[trigger] lookup(
                recorded(self@, artifact@),
                n,
            ) == lookup(self@, n) by {
                lemma_record_keeps_others(self@, artifact@, n);
            }
        }
        let ghost s0 = self@;
        match position_named(&self.crates, &artifact.name) {
            Some(k) => {
                proof {
                    lemma_first_named(s0, artifact.name@, k as int);
                }
                let updated = Executable {
                    name: self.crates[k].name.clone(),
                    path: artifact.path.clone(),
                    time: artifact.time,
                    need_update: artifact.time > self.crates[k].time,
                    hash: artifact.hash,
                };
                self.crates.set(k, updated);
                assert(self@ =~= s0.update(k as int, updated@));
            },
            None => {
                let fresh = Executable {
                    name: artifact.name.clone(),
                    path: artifact.path.clone(),
                    time: artifact.time,
                    need_update: true,
                    hash: artifact.hash,
                };
                self.crates.push(fresh);
                assert(self@ =~= s0.push(fresh@));
            },
        }
    }

    /// Replaces the catalogue by the artifacts of a finished build, each needing an update.
    pub fn replace_all(&mut self, artifacts: &Vec<Artifact>)
        ensures
            final(self)@ == recorded_all(Seq::empty(), artifacts_view(artifacts@)),
            forall|n: Seq<char>|
                #[trigger] lookup(final(self)@, n) == build_entry(
                    Seq::empty(),
                    artifacts_view(artifacts@),
                    n,
                ),
    {
        self.crates.clear();
        assert(self@ =~= Seq::<ExecutableView>::empty());
        self.record_artifacts(artifacts);
    }

    /// Records the artifacts of a finished build, in the order given.
    pub fn record_artifacts(&mut self, artifacts: &Vec<Artifact>)
        ensures
            final(self)@ == recorded_all(old(self)@, artifacts_view(artifacts@)),
            forall|n: Seq<char>|
                #[trigger] lookup(final(self)@, n) == build_entry(old(self)@, artifacts_view(artifacts@), n),
    {
        let ghost s0 = self@;
        let ghost arts = artifacts_view(artifacts@);
        let mut i: usize = 0;
        while i < artifacts.len()
            invariant
                0 <= i <= artifacts.len(),
                arts == artifacts_view(artifacts@),
                self@ == recorded_all(s0, arts.take(i as int)),
            decreases artifacts.len() - i,
        {
            self.record_artifact(&artifacts[i]);
            assert(arts.take(i + 1).drop_last() =~= arts.take(i as int));
            i = i + 1;
        }
        assert(arts.take(i as int) =~= arts);
        proof {
            assert forall|n: Seq<char>| #[trigger] lookup(self@, n) == build_entry(s0, arts, n) by {
                lemma_build_lookup(s0, arts, n);
            }
        }
    }
}

/// No two executables of `s` share a name.
pub open spec fn names_unique(s: Seq<ExecutableView>) -> bool {
    forall|i: int, j: int| 0 <= i < j < s.len() ==> s[i].name != s[j].name
}

/// What the catalogue holds under the artifact's name once the artifact is recorded.
pub open spec fn entry_after(s: Seq<ExecutableView>, a: ArtifactView) -> ExecutableView {
    ExecutableView {
        name: a.name,
        path: a.path,
        time: a.time,
        need_update: match lookup(s, a.name) {
            Some(e) => a.time > e.time,
            None => true,
        },
        hash: a.hash,
    }
}

/// Reading a name back after recording an artifact under it gives the artifact's
/// path, time and fingerprint; it needs an update when it is new or newer than before.
pub proof fn lemma_record_then_lookup(s: Seq<ExecutableView>, a: ArtifactView)
    ensures
        lookup(recorded(s, a), a.name) == Some(entry_after(s, a)),
{
    let r = recorded(s, a);
    if has_name(s, a.name) {
        lemma_has_name_first(s, a.name);
        let k = first_named(s, a.name);
        assert(is_first_named(r, a.name, k));
        lemma_first_named(r, a.name, k);
    } else {
        let k = s.len() as int;
        assert forall|j: int| 0 <= j < k implies r[j].name != a.name by {
            assert(r[j] == s[j]);
        }
        assert(is_first_named(r, a.name, k));
        lemma_first_named(r, a.name, k);
    }
}

/// Recording an artifact leaves what every other name reads as unchanged.
pub proof fn lemma_record_keeps_others(s: Seq<ExecutableView>, a: ArtifactView, other: Seq<char>)
    requires
        other != a.name,
    ensures
        lookup(recorded(s, a), other) == lookup(s, other),
{
    let r = recorded(s, a);
    if has_name(s, a.name) {
        lemma_has_name_first(s, a.name);
    }
    assert(r.len() >= s.len());
    assert forall|j: int| 0 <= j < s.len() implies #[trigger] r[j].name == s[j].name || (r[j].name
        == a.name && s[j].name == a.name) by {}
    assert forall|j: int| s.len() <= j < r.len() implies #[trigger] r[j].name == a.name by {}
    if has_name(s, other) {
        lemma_has_name_first(s, other);
        let k = first_named(s, other);
        assert(r[k].name == s[k].name);
        assert forall|j: int| 0 <= j < k implies r[j].name != other by {
            assert(s[j].name != other);
        }
        assert(is_first_named(r, other, k));
        lemma_first_named(r, other, k);
    } else {
        assert forall|j: int| 0 <= j < r.len() implies r[j].name != other by {
            if j < s.len() {
                assert(s[j].name != other);
            }
        }
        assert(!has_name(r, other));
    }
}

/// Recording an artifact adds an entry exactly when its name was unknown.
pub proof fn lemma_record_len(s: Seq<ExecutableView>, a: ArtifactView)
    ensures
        recorded(s, a).len() == if has_name(s, a.name) { s.len() } else { s.len() + 1 },
{
    if has_name(s, a.name) {
        lemma_has_name_first(s, a.name);
    }
}

/// Recording keeps the names of the catalogue distinct.
pub proof fn lemma_record_keeps_names_unique(s: Seq<ExecutableView>, a: ArtifactView)
    requires
        names_unique(s),
    ensures
        names_unique(recorded(s, a)),
{
    let r = recorded(s, a);
    if has_name(s, a.name) {
        lemma_has_name_first(s, a.name);
        assert forall|i: int, j: int| 0 <= i < j < r.len() implies r[i].name != r[j].name by {
            assert(r[i].name == s[i].name);
            assert(r[j].name == s[j].name);
        }
    } else {
        assert forall|i: int, j: int| 0 <= i < j < r.len() implies r[i].name != r[j].name by {
            if j == s.len() {
                assert(r[i] == s[i]);
            }
        }
    }
}

/// Recording a whole build keeps the names of the catalogue distinct.
pub proof fn lemma_record_all_keeps_names_unique(s: Seq<ExecutableView>, arts: Seq<ArtifactView>)
    requires
        names_unique(s),
    ensures
        names_unique(recorded_all(s, arts)),
    decreases arts.len(),
{
    if arts.len() > 0 {
        lemma_record_all_keeps_names_unique(s, arts.drop_last());
        lemma_record_keeps_names_unique(recorded_all(s, arts.drop_last()), arts.last());
    }
}

/// Recording the same artifact a second time marks it up to date.
pub proof fn lemma_record_twice_up_to_date(s: Seq<ExecutableView>, a: ArtifactView)
    ensures
        lookup(recorded(recorded(s, a), a), a.name) == Some(
            ExecutableView { name: a.name, path: a.path, time: a.time, need_update: false, hash: a.hash },
        ),
{
    lemma_record_then_lookup(s, a);
    lemma_record_then_lookup(recorded(s, a), a);
}

/// The position of the last artifact of `arts` called `name`, if any.
pub open spec fn last_named(arts: Seq<ArtifactView>, name: Seq<char>) -> Option<int>
    decreases arts.len(),
{
    if arts.len() == 0 {
        None
    } else if arts.last().name == name {
        Some(arts.len() - 1)
    } else {
        last_named(arts.drop_last(), name)
    }
}

/// `last_named` finds the last artifact of that name, and nothing when there is none.
pub proof fn lemma_last_named(arts: Seq<ArtifactView>, name: Seq<char>)
    ensures
        match last_named(arts, name) {
            None => forall|k: int| 0 <= k < arts.len() ==> #[trigger] arts[k].name != name,
            Some(i) => 0 <= i < arts.len() && arts[i].name == name && forall|k: int|
                i < k < arts.len() ==> #[trigger] arts[k].name != name,
        },
    decreases arts.len(),
{
    if arts.len() > 0 && arts.last().name != name {
        let b = arts.drop_last();
        lemma_last_named(b, name);
        assert forall|k: int| 0 <= k < b.len() implies #[trigger] arts[k] == b[k] by {}
    }
}

/// What the catalogue `s` reads under `name` once the build `arts` is recorded,
/// name by name: unchanged when the build has no artifact of that name; otherwise
/// the last such artifact's path, time and fingerprint, needing an update exactly
/// when it is newer than the time that name had just before it (that of an earlier
/// artifact of the same build, else that of the catalogue), or when the name was new.
pub open spec fn build_entry(s: Seq<ExecutableView>, arts: Seq<ArtifactView>, name: Seq<char>) -> Option<
    ExecutableView,
> {
    match last_named(arts, name) {
        None => lookup(s, name),
        Some(i) => Some(
            ExecutableView {
                name: name,
                path: arts[i].path,
                time: arts[i].time,
                need_update: match last_named(arts.take(i), name) {
                    Some(j) => arts[i].time > arts[j].time,
                    None => match lookup(s, name) {
                        Some(p) => arts[i].time > p.time,
                        None => true,
                    },
                },
                hash: arts[i].hash,
            },
        ),
    }
}

/// Recording a build leaves every name as `build_entry` describes it.
pub proof fn lemma_build_lookup(s: Seq<ExecutableView>, arts: Seq<ArtifactView>, name: Seq<char>)
    ensures
        lookup(recorded_all(s, arts), name) == build_entry(s, arts, name),
    decreases arts.len(),
{
    if arts.len() > 0 {
        let b = arts.drop_last();
        let a = arts.last();
        let r0 = recorded_all(s, b);
        lemma_build_lookup(s, b, name);
        if a.name == name {
            lemma_record_then_lookup(r0, a);
            assert(last_named(arts, name) == Some(arts.len() - 1));
            assert(arts[arts.len() - 1] == a);
            assert(arts.take(arts.len() - 1) =~= b);
            match last_named(b, name) {
                Some(j) => {
                    lemma_last_named(b, name);
                    assert(b[j] == arts[j]);
                },
                None => {},
            }
        } else {
            lemma_record_keeps_others(r0, a, name);
            assert(last_named(arts, name) == last_named(b, name));
            match last_named(b, name) {
                Some(i) => {
                    lemma_last_named(b, name);
                    assert(b[i] == arts[i]);
                    assert(b.take(i) =~= arts.take(i));
                    lemma_last_named(b.take(i), name);
                    match last_named(b.take(i), name) {
                        Some(j) => {
                            assert(b[j] == arts[j]);
                        },
                        None => {},
                    }
                },
                None => {},
            }
        }
    }
}

/// An artifact that is the only one of its name in a build, and no newer than
/// the catalogue's entry of that name, leaves that entry not needing an update,
/// with the artifact's time.
pub proof fn lemma_unchanged_artifact_not_resent(s: Seq<ExecutableView>, arts: Seq<ArtifactView>, i: int)
    requires
        0 <= i < arts.len(),
        forall|k: int| 0 <= k < arts.len() && k != i ==> #[trigger] arts[k].name != arts[i].name,
        lookup(s, arts[i].name) matches Some(e) && arts[i].time <= e.time,
    ensures
        lookup(recorded_all(s, arts), arts[i].name) matches Some(e) && !e.need_update && e.time
            == arts[i].time,
{
    let name = arts[i].name;
    lemma_build_lookup(s, arts, name);
    lemma_last_named(arts, name);
    lemma_last_named(arts.take(i), name);
    assert(forall|k: int| 0 <= k < i ==> arts.take(i)[k] == arts[k]);
}

/// The artifacts of a build carry distinct names.
pub open spec fn artifact_names_unique(arts: Seq<ArtifactView>) -> bool {
    forall|i: int, j: int| 0 <= i < j < arts.len() ==> arts[i].name != arts[j].name
}

/// Each artifact of a build with distinct names ends up in the catalogue with its
/// time, path and fingerprint; recording the same build again marks it up to date.
pub proof fn lemma_record_build_twice(s: Seq<ExecutableView>, arts: Seq<ArtifactView>, i: int)
    requires
        artifact_names_unique(arts),
        0 <= i < arts.len(),
    ensures
        lookup(recorded_all(s, arts), arts[i].name) matches Some(e) && e.time == arts[i].time && e.path
            == arts[i].path && e.hash == arts[i].hash,
        lookup(recorded_all(recorded_all(s, arts), arts), arts[i].name) matches Some(e) && !e.need_update
            && e.time == arts[i].time,
{
    let name = arts[i].name;
    let once = recorded_all(s, arts);
    lemma_build_lookup(s, arts, name);
    lemma_last_named(arts, name);
    lemma_last_named(arts.take(i), name);
    assert(forall|k: int| 0 <= k < i ==> arts.take(i)[k] == arts[k]);
    assert(forall|k: int| 0 <= k < arts.len() && k != i ==> #[trigger] arts[k].name != name);
    lemma_unchanged_artifact_not_resent(once, arts, i);
}

} // verus!
