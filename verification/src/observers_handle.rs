//! Which executables each observer is sent after a build.
use vstd::prelude::*;

use crate::state::{
    catalog, entry_after, lemma_record_then_lookup, recorded, ArtifactView, get_executable, has_name, lookup, lemma_has_name_first, AppState, Executable,
    ExecutableView,
};

pub use crate::config::Observer;
use crate::config::ObserverView;

verus! {

/// What is done for one observer after a build.
pub enum Delivery {
    /// A dependency the observer names is not in the catalogue: nothing is sent to it.
    MissingDependency { observer: String, dependency: String },
    /// The observer's own executable is not in the catalogue: nothing is sent to it.
    MissingExecutable { observer: String, executable: String },
    /// The stale dependencies are uploaded to `url`, in order, then the
    /// observer's executable `main` when `send_main` holds.
    Upload { observer: String, url: String, deps: Vec<Executable>, main: Executable, send_main: bool },
}

/// The mathematical model of a [`Delivery`].
pub enum DeliveryView {
    MissingDependency { observer: Seq<char>, dependency: Seq<char> },
    MissingExecutable { observer: Seq<char>, executable: Seq<char> },
    Upload {
        observer: Seq<char>,
        url: Seq<char>,
        deps: Seq<ExecutableView>,
        main: ExecutableView,
        send_main: bool,
    },
}

impl View for Delivery {
    type V = DeliveryView;

    open spec fn view(&self) -> DeliveryView {
        match self {
            Delivery::MissingDependency { observer, dependency } => DeliveryView::MissingDependency {
                observer: observer@,
                dependency: dependency@,
            },
            Delivery::MissingExecutable { observer, executable } => DeliveryView::MissingExecutable {
                observer: observer@,
                executable: executable@,
            },
            Delivery::Upload { observer, url, deps, main, send_main } => DeliveryView::Upload {
                observer: observer@,
                url: url@,
                deps: catalog(deps@),
                main: main@,
                send_main: *send_main,
            },
        }
    }
}

/// Every name in `deps` is in the catalogue.
pub open spec fn all_present(exes: Seq<ExecutableView>, deps: Seq<Seq<char>>) -> bool {
    forall|i: int| 0 <= i < deps.len() ==> has_name(exes, #[trigger] deps[i])
}

/// `k` is the first position of `deps` whose name is not in the catalogue.
pub open spec fn is_first_missing(exes: Seq<ExecutableView>, deps: Seq<Seq<char>>, k: int) -> bool {
    &&& 0 <= k < deps.len()
    &&& !has_name(exes, deps[k])
    &&& forall|j: int| 0 <= j < k ==> has_name(exes, #[trigger] deps[j])
}

/// The first dependency name that is not in the catalogue (meaningful when not `all_present`).
pub open spec fn first_missing(exes: Seq<ExecutableView>, deps: Seq<Seq<char>>) -> Seq<char> {
    deps[choose|k: int| is_first_missing(exes, deps, k)]
}

/// The dependencies, in order, whose catalogue entry needs an update.
pub open spec fn stale_deps(exes: Seq<ExecutableView>, deps: Seq<Seq<char>>) -> Seq<ExecutableView>
    decreases deps.len(),
{
    if deps.len() == 0 {
        Seq::empty()
    } else {
        let earlier = stale_deps(exes, deps.drop_last());
        match lookup(exes, deps.last()) {
            Some(e) => if e.need_update {
                earlier.push(e)
            } else {
                earlier
            },
            None => earlier,
        }
    }
}

/// What is done for observer `o` given the catalogue `exes`.
pub open spec fn delivery_for(exes: Seq<ExecutableView>, o: ObserverView) -> DeliveryView {
    if !all_present(exes, o.deps) {
        DeliveryView::MissingDependency { observer: o.name, dependency: first_missing(exes, o.deps) }
    } else {
        match lookup(exes, o.executable) {
            None => DeliveryView::MissingExecutable { observer: o.name, executable: o.executable },
            Some(m) => {
                let d = stale_deps(exes, o.deps);
                DeliveryView::Upload {
                    observer: o.name,
                    url: o.url,
                    deps: d,
                    main: m,
                    send_main: d.len() > 0 || m.need_update,
                }
            },
        }
    }
}

/// Decides what is sent to one observer (see [`delivery_for`]).
pub fn plan_delivery(exes: &Vec<Executable>, observer: &Observer) -> (r: Delivery)
    ensures
        r@ == delivery_for(catalog(exes@), observer@),
        r@ matches DeliveryView::Upload { deps, main, send_main, .. } ==> send_main == (deps.len() > 0
            || main.need_update) && lookup(catalog(exes@), observer@.executable) == Some(main),
{
    proof {
        lemma_upload_sends_main_when_needed(catalog(exes@), observer@);
    }
    let ghost s = catalog(exes@);
    let ghost names = observer@.deps;
    let main = get_executable(exes, observer.executable.as_str());
    let mut deps: Vec<Executable> = Vec::new();
    let mut i: usize = 0;
    while i < observer.deps.len()
        invariant
            0 <= i <= observer.deps.len(),
            s == catalog(exes@),
            names == observer@.deps,
            names.len() == observer.deps.len(),
            catalog(deps@) == stale_deps(s, names.take(i as int)),
            forall|j: int| 0 <= j < i ==> has_name(s, #[trigger] names[j]),
        decreases observer.deps.len() - i,
    {
        assert(names.take(i + 1).drop_last() =~= names.take(i as int));
        assert(names.take(i + 1).last() == names[i as int]);
        let found = get_executable(exes, observer.deps[i].as_str());
        match found {
            Some(d) => {
                if d.need_update {
                    let ghost before = deps@;
                    deps.push(d);
                    assert(catalog(deps@) =~= catalog(before).push(d@));
                }
            },
            None => {
                proof {
                    assert(is_first_missing(s, names, i as int));
                    let c = choose|k: int| is_first_missing(s, names, k);
                    assert(is_first_missing(s, names, c));
                    if c < i {
                        assert(has_name(s, names[c]));
                    } else if c > i {
                        assert(has_name(s, names[i as int]));
                    }
                }
                return Delivery::MissingDependency {
                    observer: observer.name.clone(),
                    dependency: observer.deps[i].clone(),
                };
            },
        }
        proof {
            if lookup(s, names[i as int]) is Some {
                assert(has_name(s, names[i as int]));
            }
        }
        i = i + 1;
    }
    assert(names.take(i as int) =~= names);
    match main {
        Some(m) => {
            let send_main = deps.len() > 0 || m.need_update;
            Delivery::Upload {
                observer: observer.name.clone(),
                url: observer.url.clone(),
                deps,
                main: m,
                send_main,
            }
        },
        None => Delivery::MissingExecutable {
            observer: observer.name.clone(),
            executable: observer.executable.clone(),
        },
    }
}

/// Decides, observer by observer, what is sent after a build.
pub fn plan_deliveries(state: &AppState, observers: &Vec<Observer>) -> (r: Vec<Delivery>)
    ensures
        r.len() == observers.len(),
        forall|i: int| 0 <= i < observers.len() ==> #[trigger] r[i]@ == delivery_for(state@, observers[i]@),
{
    let mut r: Vec<Delivery> = Vec::new();
    let mut i: usize = 0;
    while i < observers.len()
        invariant
            0 <= i <= observers.len(),
            r.len() == i,
            forall|j: int| 0 <= j < i ==> #[trigger] r[j]@ == delivery_for(state@, observers[j]@),
        decreases observers.len() - i,
    {
        let d = plan_delivery(&state.crates, &observers[i]);
        r.push(d);
        i = i + 1;
    }
    r
}

/// What `lookup` finds is an entry of the catalogue.
proof fn lemma_lookup_is_entry(s: Seq<ExecutableView>, name: Seq<char>)
    requires
        lookup(s, name) is Some,
    ensures
        s.contains(lookup(s, name)->0),
{
    lemma_has_name_first(s, name);
    let k = crate::state::first_named(s, name);
    assert(s[k] == lookup(s, name)->0);
}

/// With no entry needing an update, no dependency is stale.
proof fn lemma_no_stale_deps(exes: Seq<ExecutableView>, deps: Seq<Seq<char>>)
    requires
        forall|i: int| 0 <= i < exes.len() ==> !(#[trigger] exes[i]).need_update,
    ensures
        stale_deps(exes, deps).len() == 0,
    decreases deps.len(),
{
    if deps.len() > 0 {
        lemma_no_stale_deps(exes, deps.drop_last());
        if lookup(exes, deps.last()) is Some {
            lemma_lookup_is_entry(exes, deps.last());
        }
    }
}

/// When every executable of the catalogue is up to date, no observer is sent anything.
pub proof fn lemma_up_to_date_sends_nothing(exes: Seq<ExecutableView>, o: ObserverView)
    requires
        forall|i: int| 0 <= i < exes.len() ==> !(#[trigger] exes[i]).need_update,
    ensures
        delivery_for(exes, o) matches DeliveryView::Upload { deps, send_main, .. } ==> deps.len() == 0
            && !send_main,
{
    lemma_no_stale_deps(exes, o.deps);
    if lookup(exes, o.executable) is Some {
        lemma_lookup_is_entry(exes, o.executable);
    }
}

/// An artifact that is new, or newer than its catalogue entry, is sent to every
/// observer whose executable it is, once all of that observer's dependencies are known.
pub proof fn lemma_rebuilt_executable_is_sent(s: Seq<ExecutableView>, a: ArtifactView, o: ObserverView)
    requires
        o.executable == a.name,
        match lookup(s, a.name) {
            Some(e) => a.time > e.time,
            None => true,
        },
        all_present(recorded(s, a), o.deps),
    ensures
        delivery_for(recorded(s, a), o) matches DeliveryView::Upload { main, send_main, .. } && send_main
            && main == entry_after(s, a),
{
    lemma_record_then_lookup(s, a);
}

/// A stale entry named among the dependencies is among the stale dependencies.
proof fn lemma_stale_dep_listed(exes: Seq<ExecutableView>, deps: Seq<Seq<char>>, name: Seq<char>)
    requires
        deps.contains(name),
        lookup(exes, name) matches Some(e) && e.need_update,
    ensures
        stale_deps(exes, deps).contains(lookup(exes, name)->0),
    decreases deps.len(),
{
    let e = lookup(exes, name)->0;
    let earlier = stale_deps(exes, deps.drop_last());
    if deps.last() == name {
        assert(stale_deps(exes, deps) == earlier.push(e));
        assert(stale_deps(exes, deps)[earlier.len() as int] == e);
    } else {
        let i = choose|i: int| 0 <= i < deps.len() && deps[i] == name;
        assert(deps.drop_last()[i] == name);
        lemma_stale_dep_listed(exes, deps.drop_last(), name);
        let j = choose|j: int| 0 <= j < earlier.len() && earlier[j] == e;
        match lookup(exes, deps.last()) {
            Some(f) => if f.need_update {
                assert(earlier.push(f)[j] == e);
            },
            None => {},
        }
    }
}

/// An artifact that is new, or newer than its catalogue entry, is uploaded as a
/// dependency to every observer that depends on it, once the observer's own
/// executable and all its dependencies are known.
pub proof fn lemma_rebuilt_dependency_is_sent(s: Seq<ExecutableView>, a: ArtifactView, o: ObserverView)
    requires
        o.deps.contains(a.name),
        match lookup(s, a.name) {
            Some(e) => a.time > e.time,
            None => true,
        },
        all_present(recorded(s, a), o.deps),
        lookup(recorded(s, a), o.executable) is Some,
    ensures
        delivery_for(recorded(s, a), o) matches DeliveryView::Upload { deps, send_main, .. } && send_main
            && deps.contains(entry_after(s, a)),
{
    lemma_record_then_lookup(s, a);
    lemma_stale_dep_listed(recorded(s, a), o.deps, a.name);
}

/// An observer's own executable is uploaded exactly when some dependency is
/// uploaded or the executable itself needs an update, and it is the catalogue's
/// entry of that name.
pub proof fn lemma_upload_sends_main_when_needed(exes: Seq<ExecutableView>, o: ObserverView)
    ensures
        delivery_for(exes, o) matches DeliveryView::Upload { deps, main, send_main, .. } ==> send_main
            == (deps.len() > 0 || main.need_update) && lookup(exes, o.executable) == Some(main),
{
}

/// The catalogue with the update mark of entry `t` set to `flag`.
pub open spec fn with_mark(exes: Seq<ExecutableView>, t: int, flag: bool) -> Seq<ExecutableView> {
    exes.update(t, ExecutableView { need_update: flag, ..exes[t] })
}

/// Changing the update mark of one entry changes no lookup of another name.
proof fn lemma_mark_keeps_other_lookups(exes: Seq<ExecutableView>, t: int, flag: bool, name: Seq<char>)
    requires
        0 <= t < exes.len(),
        name != exes[t].name,
    ensures
        lookup(with_mark(exes, t, flag), name) == lookup(exes, name),
        has_name(with_mark(exes, t, flag), name) == has_name(exes, name),
{
    let e2 = with_mark(exes, t, flag);
    assert forall|j: int| 0 <= j < exes.len() implies #[trigger] e2[j].name == exes[j].name by {}
    if has_name(exes, name) {
        lemma_has_name_first(exes, name);
        let k = crate::state::first_named(exes, name);
        assert(crate::state::is_first_named(e2, name, k));
        crate::state::lemma_first_named(e2, name, k);
    } else {
        assert(!has_name(e2, name)) by {
            if has_name(e2, name) {
                let j = choose|j: int| 0 <= j < e2.len() && e2[j].name == name;
                assert(exes[j].name == name);
            }
        }
    }
}

/// When some dependency is missing, a first missing one exists.
proof fn lemma_first_missing_exists(exes: Seq<ExecutableView>, deps: Seq<Seq<char>>)
    requires
        !all_present(exes, deps),
    ensures
        is_first_missing(exes, deps, choose|k: int| is_first_missing(exes, deps, k)),
    decreases deps.len(),
{
    let i = choose|i: int| 0 <= i < deps.len() && !has_name(exes, #[trigger] deps[i]);
    let t = deps.take(i);
    if !all_present(exes, t) {
        lemma_first_missing_exists(exes, t);
        let k = choose|k: int| is_first_missing(exes, t, k);
        assert forall|j: int| 0 <= j <= k implies #[trigger] deps[j] == t[j] by {}
        assert(is_first_missing(exes, deps, k));
    } else {
        assert forall|j: int| 0 <= j < i implies has_name(exes, #[trigger] deps[j]) by {
            assert(t[j] == deps[j]);
        }
        assert(is_first_missing(exes, deps, i));
    }
}

/// Changing the update mark of an entry that the observer does not name changes
/// no stale dependency.
proof fn lemma_mark_keeps_stale_deps(exes: Seq<ExecutableView>, t: int, flag: bool, deps: Seq<Seq<char>>)
    requires
        0 <= t < exes.len(),
        forall|i: int| 0 <= i < deps.len() ==> #[trigger] deps[i] != exes[t].name,
    ensures
        stale_deps(with_mark(exes, t, flag), deps) == stale_deps(exes, deps),
    decreases deps.len(),
{
    if deps.len() > 0 {
        let b = deps.drop_last();
        assert forall|i: int| 0 <= i < b.len() implies #[trigger] b[i] != exes[t].name by {
            assert(b[i] == deps[i]);
        }
        lemma_mark_keeps_stale_deps(exes, t, flag, b);
        assert(deps.last() == deps[deps.len() - 1]);
        lemma_mark_keeps_other_lookups(exes, t, flag, deps.last());
    }
}

/// Marking an entry that is neither the observer's executable nor one of its
/// dependencies as needing an update, or not, leaves what that observer is sent unchanged.
pub proof fn lemma_unrelated_mark_keeps_delivery(exes: Seq<ExecutableView>, o: ObserverView, t: int, flag: bool)
    requires
        0 <= t < exes.len(),
        o.executable != exes[t].name,
        !o.deps.contains(exes[t].name),
    ensures
        delivery_for(with_mark(exes, t, flag), o) == delivery_for(exes, o),
{
    let e2 = with_mark(exes, t, flag);
    assert forall|i: int| 0 <= i < o.deps.len() implies #[trigger] o.deps[i] != exes[t].name by {
        if o.deps[i] == exes[t].name {
            assert(o.deps.contains(exes[t].name));
        }
    }
    assert forall|i: int| 0 <= i < o.deps.len() implies has_name(e2, #[trigger] o.deps[i]) == has_name(
        exes,
        o.deps[i],
    ) by {
        lemma_mark_keeps_other_lookups(exes, t, flag, o.deps[i]);
    }
    lemma_mark_keeps_other_lookups(exes, t, flag, o.executable);
    lemma_mark_keeps_stale_deps(exes, t, flag, o.deps);
    if !all_present(exes, o.deps) {
        assert(!all_present(e2, o.deps));
        lemma_first_missing_exists(exes, o.deps);
        lemma_first_missing_exists(e2, o.deps);
        let c1 = choose|k: int| is_first_missing(exes, o.deps, k);
        let c2 = choose|k: int| is_first_missing(e2, o.deps, k);
        assert(is_first_missing(exes, o.deps, c2));
        if c1 < c2 {
            assert(has_name(e2, o.deps[c1]));
        } else if c2 < c1 {
            assert(has_name(exes, o.deps[c2]));
        }
    } else {
        assert(all_present(e2, o.deps));
    }
}

} // verus!
