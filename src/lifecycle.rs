//! The Lifecycle Controller: what install, list, run, stop, delete and
//! shutdown decide, given what the host found on disk and in the processes.
use crate::naming::{base_name_of, get_base_name, get_version, version_of};
use crate::ordering::{lemma_permutation_map, lex_le, lower_of, lowercase, sort_by_keys};
use crate::registry::{observed, status_of, Poll, Registry, Status};
use vstd::prelude::*;

verus! {

/// What the host shows of one installed extension.
pub struct ExtensionInfo {
    pub id: String,
    pub name: String,
    pub version: String,
    pub is_running: bool,
}

impl View for ExtensionInfo {
    type V = (Seq<char>, Seq<char>, Seq<char>, bool);

    open spec fn view(&self) -> Self::V {
        (self.id@, self.name@, self.version@, self.is_running)
    }
}

/// The descriptor of the file `id`.
pub open spec fn info_of(id: Seq<char>, running: bool) -> (Seq<char>, Seq<char>, Seq<char>, bool) {
    (id, base_name_of(id), version_of(id), running)
}

impl ExtensionInfo {
    /// The descriptor of the installed file `id`, running or not.
    pub fn describe(id: &String, is_running: bool) -> (r: Self)
        ensures
            r@ == info_of(id@, is_running),
    {
        ExtensionInfo {
            id: id.clone(),
            name: get_base_name(id.as_str()),
            version: get_version(id.as_str()),
            is_running,
        }
    }

    /// A copy of the descriptor.
    pub fn duplicate(&self) -> (r: Self)
        ensures
            r@ == self@,
    {
        ExtensionInfo {
            id: self.id.clone(),
            name: self.name.clone(),
            version: self.version.clone(),
            is_running: self.is_running,
        }
    }
}

/// The kinds of failure of an operation.
#[derive(Clone, Copy, Debug, PartialEq, Eq, Structural)]
pub enum ErrorKind {
    /// Creating, reading, writing, changing or deleting a file failed.
    IoError,
    /// The identifier names no installed file.
    NotFound,
    /// The extension already has a live process.
    AlreadyRunning,
    /// The process could not be created.
    SpawnError,
    /// The process could not be terminated.
    KillError,
}

/// A failed operation: its kind, what it failed on (an identifier, or a path
/// for `IoError`), and the system's message, empty where there is none.
#[derive(Debug)]
pub struct ExtensionError {
    pub kind: ErrorKind,
    pub subject: String,
    pub detail: String,
}

/// The text that describes a failure.
pub open spec fn error_text(kind: ErrorKind, subject: Seq<char>, detail: Seq<char>) -> Seq<char> {
    match kind {
        ErrorKind::IoError => "Failed to access '"@ + subject + "': "@ + detail,
        ErrorKind::NotFound => "Extension '"@ + subject + "' not found"@,
        ErrorKind::AlreadyRunning => "Extension '"@ + subject + "' is already running"@,
        ErrorKind::SpawnError => "Failed to spawn extension '"@ + subject + "': "@ + detail,
        ErrorKind::KillError => "Failed to kill extension '"@ + subject + "': "@ + detail,
    }
}

impl ExtensionError {
    /// A failure of `kind` on `subject`, with the system's message `detail`.
    pub fn new(kind: ErrorKind, subject: String, detail: String) -> (r: Self)
        ensures
            r.kind == kind,
            r.subject@ == subject@,
            r.detail@ == detail@,
    {
        ExtensionError { kind, subject, detail }
    }

    /// The text that describes the failure.
    pub fn message(&self) -> (r: String)
        ensures
            r@ == error_text(self.kind, self.subject@, self.detail@),
    {
        let s = self.subject.as_str();
        let d = self.detail.as_str();
        match self.kind {
            ErrorKind::IoError => String::from_str("Failed to access '").concat(s).concat(
                "': ",
            ).concat(d),
            ErrorKind::NotFound => String::from_str("Extension '").concat(s).concat("' not found"),
            ErrorKind::AlreadyRunning => String::from_str("Extension '").concat(s).concat(
                "' is already running",
            ),
            ErrorKind::SpawnError => String::from_str("Failed to spawn extension '").concat(
                s,
            ).concat("': ").concat(d),
            ErrorKind::KillError => String::from_str("Failed to kill extension '").concat(
                s,
            ).concat("': ").concat(d),
        }
    }
}

/// The kind of failure of an operation, or `Ok`.
pub open spec fn outcome(r: Result<(), ExtensionError>) -> Result<(), ErrorKind> {
    match r {
        Ok(_) => Ok(()),
        Err(e) => Err(e.kind),
    }
}

/// Whether a request to run `id` may go on to spawn a process: `in_store`
/// tells whether the Store holds `id`, and `poll` is what polling its tracked
/// process found.
pub open spec fn run_check<P>(m: Map<Seq<char>, P>, id: Seq<char>, in_store: bool, poll: Poll) -> Result<
    (),
    ErrorKind,
> {
    if !in_store {
        Err(ErrorKind::NotFound)
    } else if status_of(m, id, poll) == Status::Running {
        Err(ErrorKind::AlreadyRunning)
    } else {
        Ok(())
    }
}

/// The table after a request to run `id` has been checked.
pub open spec fn after_run_check<P>(
    m: Map<Seq<char>, P>,
    id: Seq<char>,
    in_store: bool,
    poll: Poll,
) -> Map<Seq<char>, P> {
    if !in_store {
        m
    } else {
        observed(m, id, poll)
    }
}

/// Checks a request to run `id`. An identifier that the Store lacks is not
/// found, and the table is left alone. Otherwise `id` is observed first (a
/// stale entry of an exited process is cleared), and a live process refuses
/// the request. On `Ok` the host spawns the process and hands the outcome to
/// `finish_run`.
pub fn run_extension<P>(registry: &mut Registry<P>, id: &String, in_store: bool, poll: Poll) -> (r:
    Result<(), ExtensionError>)
    requires
        old(registry).wf(),
    ensures
        final(registry).wf(),
        outcome(r) == run_check(old(registry)@, id@, in_store, poll),
        final(registry)@ == after_run_check(old(registry)@, id@, in_store, poll),
        r matches Err(e) ==> e.subject@ == id@ && e.detail@.len() == 0,
{
    if !in_store {
        return Err(ExtensionError::new(ErrorKind::NotFound, id.clone(), String::new()));
    }
    let status = registry.is_running(id, poll);
    if matches!(status, Status::Running) {
        Err(ExtensionError::new(ErrorKind::AlreadyRunning, id.clone(), String::new()))
    } else {
        Ok(())
    }
}

/// Records the outcome of spawning the process of `id`: the new handle is
/// tracked, or the system's refusal is reported and the table left alone.
pub fn finish_run<P>(registry: &mut Registry<P>, id: String, spawned: Result<P, String>) -> (r:
    Result<(), ExtensionError>)
    requires
        old(registry).wf(),
        !old(registry)@.contains_key(id@),
    ensures
        final(registry).wf(),
        match spawned {
            Ok(h) => r is Ok && final(registry)@ == old(registry)@.insert(id@, h),
            Err(msg) => r matches Err(e) && e.kind == ErrorKind::SpawnError && e.subject@ == id@
                && e.detail@ == msg@ && final(registry)@ == old(registry)@,
        },
{
    match spawned {
        Ok(h) => {
            registry.insert(id, h);
            Ok(())
        },
        Err(msg) => Err(ExtensionError::new(ErrorKind::SpawnError, id, msg)),
    }
}

/// The table after a request to stop `id`, where `killed` tells whether
/// terminating its process succeeded.
pub open spec fn after_stop<P>(m: Map<Seq<char>, P>, id: Seq<char>, killed: bool) -> Map<
    Seq<char>,
    P,
> {
    if killed {
        m.remove(id)
    } else {
        m
    }
}

/// Records a request to stop `id`, where `killed` is the outcome of
/// terminating its tracked process (it is not read where `id` has no entry).
/// An untracked identifier is already stopped. A failed termination keeps the
/// entry, so that the request can be retried.
pub fn stop_extension<P>(registry: &mut Registry<P>, id: &String, killed: Result<(), String>) -> (r:
    Result<(), ExtensionError>)
    requires
        old(registry).wf(),
    ensures
        final(registry).wf(),
        !old(registry)@.contains_key(id@) ==> r is Ok && final(registry)@ == old(registry)@,
        old(registry)@.contains_key(id@) ==> final(registry)@ == after_stop(
            old(registry)@,
            id@,
            killed is Ok,
        ) && match killed {
            Ok(_) => r is Ok,
            Err(msg) => r matches Err(e) && e.kind == ErrorKind::KillError && e.subject@ == id@
                && e.detail@ == msg@,
        },
{
    if !registry.is_tracked(id) {
        return Ok(());
    }
    match killed {
        Ok(()) => {
            registry.remove(id);
            Ok(())
        },
        Err(msg) => Err(ExtensionError::new(ErrorKind::KillError, id.clone(), msg)),
    }
}

/// Takes `id` out of the table before its file is deleted, handing back the
/// handle of its process, which the host terminates whether or not that
/// succeeds.
pub fn delete_extension<P>(registry: &mut Registry<P>, id: &String) -> (r: Option<P>)
    requires
        old(registry).wf(),
    ensures
        final(registry).wf(),
        final(registry)@ == old(registry)@.remove(id@),
        match r {
            Some(h) => old(registry)@.contains_key(id@) && h == old(registry)@[id@],
            None => !old(registry)@.contains_key(id@),
        },
{
    registry.remove(id)
}

/// Empties the table at shutdown, handing back every tracked identifier with
/// its handle, for the host to terminate.
pub fn cleanup_processes<P>(registry: &mut Registry<P>) -> (r: Vec<(String, P)>)
    requires
        old(registry).wf(),
    ensures
        final(registry).wf(),
        final(registry)@ == Map::<Seq<char>, P>::empty(),
        forall|i: int|
            0 <= i < r@.len() ==> old(registry)@.contains_key(#[trigger] r@[i].0@) && old(
                registry,
            )@[r@[i].0@] == r@[i].1,
        forall|i: int, j: int| 0 <= i < j < r@.len() ==> #[trigger] r@[i].0@ != #[trigger] r@[j].0@,
        forall|k: Seq<char>| #[trigger]
            old(registry)@.contains_key(k) ==> exists|i: int| 0 <= i < r@.len() && r@[i].0@ == k,
{
    registry.drain()
}

/// A process that a listing found exited with a failure.
pub struct CrashReport {
    pub id: String,
    pub name: String,
}

impl CrashReport {
    /// The notice shown for the crash.
    pub fn message(&self) -> (r: String)
        ensures
            r@ == "Extension '"@ + self.name@ + "' exited with an error."@,
    {
        String::from_str("Extension '").concat(self.name.as_str()).concat(
            "' exited with an error.",
        )
    }
}

/// What listing the Store reports: the descriptors, ordered by display name
/// without regard to case, and the crashes it came upon, in the order of the
/// Store's listing.
pub struct Listing {
    pub extensions: Vec<ExtensionInfo>,
    pub crashed: Vec<CrashReport>,
}

/// The table once the first `n` of `obs` have been observed, in order; each
/// observation pairs an installed file with what polling its process found.
pub open spec fn registry_after<P>(m: Map<Seq<char>, P>, obs: Seq<(String, Poll)>, n: int) -> Map<
    Seq<char>,
    P,
>
    decreases n,
{
    if n <= 0 {
        m
    } else {
        observed(registry_after(m, obs, n - 1), obs[n - 1].0@, obs[n - 1].1)
    }
}

/// The status that observation `i` of `obs` reports.
pub open spec fn status_at<P>(m: Map<Seq<char>, P>, obs: Seq<(String, Poll)>, i: int) -> Status {
    status_of(registry_after(m, obs, i), obs[i].0@, obs[i].1)
}

/// The descriptors of the observed files, in the order observed.
pub open spec fn listing_of<P>(m: Map<Seq<char>, P>, obs: Seq<(String, Poll)>) -> Seq<
    (Seq<char>, Seq<char>, Seq<char>, bool),
> {
    Seq::new(obs.len(), |i: int| info_of(obs[i].0@, status_at(m, obs, i) == Status::Running))
}

/// The files among the first `n` of `obs` whose process was found exited with
/// a failure.
pub open spec fn crashes_of<P>(m: Map<Seq<char>, P>, obs: Seq<(String, Poll)>, n: int) -> Seq<
    Seq<char>,
>
    decreases n,
{
    if n <= 0 {
        Seq::empty()
    } else if status_at(m, obs, n - 1) is ExitedError {
        crashes_of(m, obs, n - 1).push(obs[n - 1].0@)
    } else {
        crashes_of(m, obs, n - 1)
    }
}

/// Lists the Store. `observations` holds each installed file, in the order
/// the Store lists them, with what polling its tracked process found (not read
/// where the file has no entry). Each file is observed in turn; an entry
/// whose process has exited leaves the table, and one that failed is reported
/// as a crash.
pub fn list_extensions<P>(registry: &mut Registry<P>, observations: &Vec<(String, Poll)>) -> (r:
    Listing)
    requires
        old(registry).wf(),
    ensures
        final(registry).wf(),
        final(registry)@ == registry_after(
            old(registry)@,
            observations@,
            observations@.len() as int,
        ),
        r.extensions@.map_values(|e: ExtensionInfo| e@).to_multiset() == listing_of(
            old(registry)@,
            observations@,
        ).to_multiset(),
        forall|i: int, j: int|
            0 <= i < j < r.extensions@.len() ==> lex_le(
                lower_of(#[trigger] r.extensions@[i].name@),
                lower_of(#[trigger] r.extensions@[j].name@),
            ),
        r.crashed@.map_values(|c: CrashReport| c.id@) == crashes_of(
            old(registry)@,
            observations@,
            observations@.len() as int,
        ),
        forall|i: int|
            0 <= i < r.crashed@.len() ==> (#[trigger] r.crashed@[i]).name@ == base_name_of(
                r.crashed@[i].id@,
            ),
{
    let ghost m = old(registry)@;
    let ghost obs = observations@;
    let mut keyed: Vec<(String, ExtensionInfo)> = Vec::new();
    let mut crashed: Vec<CrashReport> = Vec::new();
    let mut i: usize = 0;
    while i < observations.len()
        invariant
            registry.wf(),
            m == old(registry)@,
            obs == observations@,
            i <= obs.len(),
            registry@ == registry_after(m, obs, i as int),
            keyed@.len() == i,
            forall|k: int|
                0 <= k < i ==> (#[trigger] keyed@[k]).1@ == listing_of(m, obs)[k] && keyed@[k].0@
                    == lower_of(keyed@[k].1.name@),
            crashed@.map_values(|c: CrashReport| c.id@) == crashes_of(m, obs, i as int),
            forall|k: int|
                0 <= k < crashed@.len() ==> (#[trigger] crashed@[k]).name@ == base_name_of(
                    crashed@[k].id@,
                ),
        decreases obs.len() - i,
    {
        let id = &observations[i].0;
        let status = registry.is_running(id, observations[i].1);
        let info = ExtensionInfo::describe(id, matches!(status, Status::Running));
        if matches!(status, Status::ExitedError(_)) {
            let ghost before = crashed@;
            crashed.push(CrashReport { id: id.clone(), name: get_base_name(id.as_str()) });
            assert(crashed@.map_values(|c: CrashReport| c.id@) =~= before.map_values(
                |c: CrashReport| c.id@,
            ).push(id@));
        }
        let key = lowercase(info.name.as_str());
        keyed.push((key, info));
        i = i + 1;
    }
    let sorted = sort_by_keys(keyed);
    let mut extensions: Vec<ExtensionInfo> = Vec::new();
    let mut k: usize = 0;
    while k < sorted.len()
        invariant
            k <= sorted@.len(),
            extensions@.len() == k,
            forall|j: int| 0 <= j < k ==> (#[trigger] extensions@[j])@ == sorted@[j].1@,
        decreases sorted@.len() - k,
    {
        extensions.push(sorted[k].1.duplicate());
        k = k + 1;
    }
    proof {
        broadcast use vstd::seq_lib::group_to_multiset_ensures;

        let info_view = |p: (String, ExtensionInfo)| p.1@;
        lemma_permutation_map(sorted@, keyed@, info_view);
        assert(extensions@.map_values(|e: ExtensionInfo| e@) =~= sorted@.map_values(info_view));
        assert(keyed@.map_values(info_view) =~= listing_of(m, obs));
        assert forall|j: int| 0 <= j < sorted@.len() implies sorted@[j].0@ == lower_of(
            sorted@[j].1.name@,
        ) by {
            assert(sorted@.to_multiset().count(sorted@[j]) > 0);
            assert(keyed@.contains(sorted@[j]));
        }
    }
    Listing { extensions, crashed }
}

/// A request to run an identifier that the Store lacks fails as not found and
/// leaves the table as it was.
pub proof fn lemma_run_missing_is_not_found<P>(m: Map<Seq<char>, P>, id: Seq<char>, poll: Poll)
    ensures
        run_check(m, id, false, poll) == Err::<(), ErrorKind>(ErrorKind::NotFound),
        after_run_check(m, id, false, poll) == m,
{
}

/// Once a run of `id` has been admitted and its process `h` spawned, a second
/// run of `id` while that process is alive is refused as already running, and
/// the table keeps its one entry for `id`, with `h`.
pub proof fn lemma_second_run_refused<P>(m: Map<Seq<char>, P>, id: Seq<char>, poll: Poll, h: P)
    requires
        run_check(m, id, true, poll) is Ok,
    ensures
        ({
            let started = after_run_check(m, id, true, poll).insert(id, h);
            &&& run_check(started, id, true, Poll::Alive) == Err::<(), ErrorKind>(
                ErrorKind::AlreadyRunning,
            )
            &&& after_run_check(started, id, true, Poll::Alive) == started
            &&& started.dom().filter(|k: Seq<char>| k == id) == set![id]
            &&& started[id] == h
        }),
{
    let started = after_run_check(m, id, true, poll).insert(id, h);
    assert(started.dom().filter(|k: Seq<char>| k == id) =~= set![id]);
}

/// Observations never add an entry to the table.
proof fn lemma_registry_after_shrinks<P>(
    m: Map<Seq<char>, P>,
    obs: Seq<(String, Poll)>,
    j: int,
    n: int,
    k: Seq<char>,
)
    requires
        j <= n,
        registry_after(m, obs, n).contains_key(k),
    ensures
        registry_after(m, obs, j).contains_key(k),
    decreases n - j,
{
    if j < n {
        lemma_registry_after_shrinks(m, obs, j, n - 1, k);
    }
}

/// When a listing finds the process of a file exited, with success or not,
/// the table has no entry for that file afterwards, and the listing does not
/// report it running. The Store lists each file once.
pub proof fn lemma_exited_process_leaves_listing<P>(
    m: Map<Seq<char>, P>,
    obs: Seq<(String, Poll)>,
    i: int,
)
    requires
        0 <= i < obs.len(),
        obs[i].1 is ExitedOk || obs[i].1 is ExitedError,
        forall|a: int, b: int| 0 <= a < b < obs.len() ==> #[trigger] obs[a].0@ != #[trigger] obs[b].0@,
    ensures
        !registry_after(m, obs, obs.len() as int).contains_key(obs[i].0@),
        forall|k: int|
            0 <= k < obs.len() && (#[trigger] listing_of(m, obs)[k]).0 == obs[i].0@ ==> !listing_of(
                m,
                obs,
            )[k].3,
{
    let id = obs[i].0@;
    assert(!registry_after(m, obs, i + 1).contains_key(id));
    if registry_after(m, obs, obs.len() as int).contains_key(id) {
        lemma_registry_after_shrinks(m, obs, i + 1, obs.len() as int, id);
    }
    assert forall|k: int|
        0 <= k < obs.len() && (#[trigger] listing_of(m, obs)[k]).0 == id implies !listing_of(
        m,
        obs,
    )[k].3 by {
        if k != i {
            assert(obs[k].0@ == id);
            if k < i {
                assert(obs[k].0@ != obs[i].0@);
            } else {
                if registry_after(m, obs, k).contains_key(id) {
                    lemma_registry_after_shrinks(m, obs, i + 1, k, id);
                }
            }
        }
    }
}

/// After a delete, observing the deleted identifier finds it untracked; a
/// delete of an identifier that the table lacks changes nothing.
pub proof fn lemma_deleted_is_not_tracked<P>(m: Map<Seq<char>, P>, id: Seq<char>, poll: Poll)
    ensures
        status_of(m.remove(id), id, poll) == Status::NotTracked,
        !m.contains_key(id) ==> m.remove(id) == m,
{
    if !m.contains_key(id) {
        assert(m.remove(id) =~= m);
    }
}

/// After shutdown, every identifier is untracked, whatever was live before.
pub proof fn lemma_shutdown_untracks_all<P>(id: Seq<char>, poll: Poll)
    ensures
        status_of(Map::<Seq<char>, P>::empty(), id, poll) == Status::NotTracked,
{
}

} // verus!
