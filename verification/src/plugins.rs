//! The plugin runtime's bookkeeping: which files are taken up as plugins,
//! the registry of those that were loaded, and what a dispatch to them
//! returns. The sandbox that runs a plugin is not part of this library: it
//! reports what a load or a call came to, and the rules here decide the rest.

use vstd::prelude::*;
use vstd::string::*;
use crate::paths::{is_module, is_module_path};

verus! {

/// What went wrong with a plugin.
#[derive(Clone, Copy, Debug, PartialEq, Eq, Structural)]
pub enum WasmError {
    /// The file could not be read.
    Load,
    /// The file does not hold a module that compiles.
    Compile,
    /// The module could not be instantiated.
    Instantiate,
    /// A call into the plugin trapped or returned an error.
    Runtime,
}

impl WasmError {
    /// The error in words.
    pub fn message(&self) -> (text: &'static str)
        ensures
            text@ == match *self {
                WasmError::Load => "Load error"@,
                WasmError::Compile => "Compile error"@,
                WasmError::Instantiate => "Instantiation error"@,
                WasmError::Runtime => "Runtime error"@,
            },
    {
        match self {
            WasmError::Load => "Load error",
            WasmError::Compile => "Compile error",
            WasmError::Instantiate => "Instantiation error",
            WasmError::Runtime => "Runtime error",
        }
    }
}

/// A point in time, as the time passed since the Unix epoch.
#[derive(Clone, Copy, Debug, PartialEq, Eq, Structural)]
pub struct LoadTime {
    pub secs: u64,
    pub nanos: u32,
}

/// What is recorded of a loaded plugin, as contracts speak of it.
pub struct Descriptor {
    pub path: Seq<char>,
    pub size: Option<u64>,
    pub loaded_time: LoadTime,
}

/// What is recorded of a loaded plugin: where it was loaded from, the size
/// of the file then, if known, and when it was loaded.
#[derive(Debug)]
pub struct WasmPlugin {
    pub path: String,
    pub size: Option<u64>,
    pub loaded_time: LoadTime,
}

impl DeepView for WasmPlugin {
    type V = Descriptor;

    open spec fn deep_view(&self) -> Descriptor {
        Descriptor { path: self.path@, size: self.size, loaded_time: self.loaded_time }
    }
}

impl Clone for WasmPlugin {
    fn clone(&self) -> (copy: WasmPlugin)
        ensures
            copy.deep_view() == self.deep_view(),
    {
        WasmPlugin { path: self.path.clone(), size: self.size, loaded_time: self.loaded_time }
    }
}

/// What the sandbox made of a file.
#[derive(Clone, Copy, Debug, PartialEq, Eq, Structural)]
pub enum Attempt {
    /// The file was not tried.
    Skipped,
    /// The file was tried and did not load.
    Failed(WasmError),
    /// The file was loaded.
    Loaded { size: Option<u64>, loaded_time: LoadTime },
}

/// A file that may be a plugin, with what the sandbox made of it.
#[derive(Debug)]
pub struct Candidate {
    pub path: String,
    pub attempt: Attempt,
}

impl DeepView for Candidate {
    type V = (Seq<char>, Attempt);

    open spec fn deep_view(&self) -> (Seq<char>, Attempt) {
        (self.path@, self.attempt)
    }
}

/// Why a file was not taken up as a plugin.
#[derive(Clone, Copy, Debug, PartialEq, Eq, Structural)]
pub enum Refusal {
    /// The file does not have the extension of a module.
    Extension,
    /// The file has the extension, and did not load.
    Failed(WasmError),
}

/// A file that was not taken up, and why.
#[derive(Debug)]
pub struct Rejection {
    pub path: String,
    pub refusal: Refusal,
}

impl DeepView for Rejection {
    type V = (Seq<char>, Refusal);

    open spec fn deep_view(&self) -> (Seq<char>, Refusal) {
        (self.path@, self.refusal)
    }
}

/// A candidate, with whether its path names a module.
pub struct Judged {
    pub path: Seq<char>,
    pub module: bool,
    pub attempt: Attempt,
}

/// What becomes of a candidate: a file that is no module is refused whatever
/// was made of it, a module that failed to load is refused with its error, a
/// module that was not tried counts as not read, and a module that loaded is
/// recorded.
pub open spec fn verdict(candidate: Judged) -> Result<Descriptor, Refusal> {
    if !candidate.module {
        Err(Refusal::Extension)
    } else {
        match candidate.attempt {
            Attempt::Loaded { size, loaded_time } => Ok(
                Descriptor { path: candidate.path, size, loaded_time },
            ),
            Attempt::Failed(error) => Err(Refusal::Failed(error)),
            Attempt::Skipped => Err(Refusal::Failed(WasmError::Load)),
        }
    }
}

/// The registry after a candidate is recorded.
pub open spec fn recorded(registry: Seq<Descriptor>, candidate: Judged) -> Seq<Descriptor> {
    match verdict(candidate) {
        Ok(descriptor) => registry.push(descriptor),
        Err(_) => registry,
    }
}

/// The descriptors of the candidates that are taken up, in their order.
pub open spec fn registered(candidates: Seq<Judged>) -> Seq<Descriptor>
    decreases candidates.len(),
{
    if candidates.len() == 0 {
        Seq::<Descriptor>::empty()
    } else {
        recorded(registered(candidates.drop_last()), candidates.last())
    }
}

/// The candidates that are not taken up, in their order, each with the
/// reason.
pub open spec fn refused(candidates: Seq<Judged>) -> Seq<(Seq<char>, Refusal)>
    decreases candidates.len(),
{
    if candidates.len() == 0 {
        Seq::<(Seq<char>, Refusal)>::empty()
    } else {
        let before = refused(candidates.drop_last());
        match verdict(candidates.last()) {
            Ok(_) => before,
            Err(refusal) => before.push((candidates.last().path, refusal)),
        }
    }
}

/// The candidates, each judged by its path.
pub open spec fn judged(candidates: Seq<(Seq<char>, Attempt)>) -> Seq<Judged> {
    Seq::new(
        candidates.len(),
        |i: int|
            Judged {
                path: candidates[i].0,
                module: is_module_path(candidates[i].0),
                attempt: candidates[i].1,
            },
    )
}

/// What one call into one plugin came to: a reply, no reply, or an error.
pub type Outcome = Result<Option<String>, WasmError>;

/// The reply that an outcome gives: the text that the plugin returned, where
/// it returned one that is not empty. A plugin that failed, returned nothing
/// or returned the empty text gives no reply.
pub open spec fn reply_in(outcome: Outcome) -> Option<Seq<char>> {
    match outcome {
        Ok(Some(reply)) => if reply@.len() > 0 {
            Some(reply@)
        } else {
            None
        },
        _ => None,
    }
}

/// The replies among `outcomes`, in their order.
pub open spec fn replies_of(outcomes: Seq<Outcome>) -> Seq<Seq<char>>
    decreases outcomes.len(),
{
    if outcomes.len() == 0 {
        Seq::<Seq<char>>::empty()
    } else {
        let before = replies_of(outcomes.drop_last());
        match reply_in(outcomes.last()) {
            Some(reply) => before.push(reply),
            None => before,
        }
    }
}

/// The errors among `outcomes`, in their order, each with the place of the
/// plugin that it came from.
pub open spec fn failures_of(outcomes: Seq<Outcome>) -> Seq<(usize, WasmError)>
    decreases outcomes.len(),
{
    if outcomes.len() == 0 {
        Seq::<(usize, WasmError)>::empty()
    } else {
        let before = failures_of(outcomes.drop_last());
        match outcomes.last() {
            Err(error) => before.push(((outcomes.len() - 1) as usize, error)),
            _ => before,
        }
    }
}

/// What the directory watcher reports of one change, as far as the runtime
/// reads it.
#[derive(Clone, Copy, Debug, PartialEq, Eq, Structural)]
pub enum EventKind {
    /// A file was created.
    CreateFile,
    /// Anything else: a change to a file, a removal, a new directory.
    Other,
}

/// One change in a watched directory, with the paths it is about.
#[derive(Debug)]
pub struct FsEvent {
    pub kind: EventKind,
    pub paths: Vec<String>,
}

impl DeepView for FsEvent {
    type V = (EventKind, Seq<Seq<char>>);

    open spec fn deep_view(&self) -> (EventKind, Seq<Seq<char>>) {
        (self.kind, self.paths.deep_view())
    }
}

/// The paths of the events that report a new file, in the order of the
/// events and, within one event, of its paths.
pub open spec fn created_paths(events: Seq<(EventKind, Seq<Seq<char>>)>) -> Seq<Seq<char>>
    decreases events.len(),
{
    if events.len() == 0 {
        Seq::<Seq<char>>::empty()
    } else {
        let before = created_paths(events.drop_last());
        if events.last().0 == EventKind::CreateFile {
            before + events.last().1
        } else {
            before
        }
    }
}

/// A watcher of one directory of plugins.
#[derive(Debug)]
pub struct FsWatcher {
    pub dir: String,
}

impl FsWatcher {
    /// The files to try after a settled burst of events in the directory:
    /// those that were created, and no others.
    pub fn watch(&self, events: &Vec<FsEvent>) -> (paths: Vec<String>)
        ensures
            paths.deep_view() == created_paths(events.deep_view()),
    {
        let ghost seen = events.deep_view();
        let mut paths: Vec<String> = Vec::new();
        let mut i: usize = 0;
        proof {
            assert(paths.deep_view() =~= created_paths(seen.take(0)));
        }
        while i < events.len()
            invariant
                i <= events.len(),
                seen == events.deep_view(),
                paths.deep_view() == created_paths(seen.take(i as int)),
            decreases events.len() - i,
        {
            let event = &events[i];
            proof {
                let upto = seen.take(i + 1);
                assert(upto.drop_last() == seen.take(i as int));
                assert(upto.last() == seen[i as int]);
                assert(seen[i as int] == event.deep_view());
            }
            if event.kind == EventKind::CreateFile {
                let ghost before = paths.deep_view();
                let mut j: usize = 0;
                while j < event.paths.len()
                    invariant
                        j <= event.paths.len(),
                        paths.deep_view() == before + event.paths.deep_view().take(j as int),
                    decreases event.paths.len() - j,
                {
                    let ghost sofar = paths.deep_view();
                    paths.push(event.paths[j].clone());
                    proof {
                        assert(paths.deep_view() =~= sofar.push(event.paths[j as int]@));
                        assert(event.paths.deep_view().take(j + 1) =~= event.paths.deep_view().take(
                            j as int,
                        ).push(event.paths[j as int]@));
                    }
                    j += 1;
                }
                proof {
                    assert(event.paths.deep_view().take(j as int) == event.paths.deep_view());
                }
            }
            i += 1;
        }
        proof {
            assert(seen.take(i as int) == seen);
        }
        paths
    }
}

/// The watchers of the plugin runtime: one for the plugin directory, none
/// where no directory is configured.
#[derive(Debug)]
pub struct Watchers {
    pub watchers: Vec<FsWatcher>,
}

/// The plugin runtime to start with: an empty registry, and a watcher for
/// the plugin directory where one is configured. Without a directory the
/// registry stays empty and there is nothing to watch.
pub fn new_plugins(plugin_dir: Option<&str>) -> (runtime: (Watchers, Manager))
    ensures
        runtime.1@ == Seq::<Descriptor>::empty(),
        match plugin_dir {
            Some(dir) => runtime.0.watchers@.len() == 1 && runtime.0.watchers@[0].dir@ == dir@,
            None => runtime.0.watchers@.len() == 0,
        },
{
    let mut watchers: Vec<FsWatcher> = Vec::new();
    match plugin_dir {
        Some(dir) => {
            watchers.push(FsWatcher { dir: dir.to_owned() });
        },
        None => {},
    }
    (Watchers { watchers }, Manager::new())
}

/// What a dispatch came to: the replies of the plugins that gave one, in the
/// order of the registry, and the errors of those that failed.
#[derive(Debug)]
pub struct Dispatch {
    pub replies: Vec<String>,
    pub failures: Vec<(usize, WasmError)>,
}

/// The registry of loaded plugins, in the order in which they were loaded.
/// Plugins are added at the end and never leave.
#[derive(Debug)]
pub struct Manager {
    ps: Vec<WasmPlugin>,
}

impl View for Manager {
    type V = Seq<Descriptor>;

    closed spec fn view(&self) -> Seq<Descriptor> {
        self.ps.deep_view()
    }
}

impl Clone for Manager {
    /// A registry of its own with the same plugins: what the registry holds
    /// at this point in time.
    fn clone(&self) -> (copy: Manager)
        ensures
            copy@ == self@,
    {
        let mut ps: Vec<WasmPlugin> = Vec::new();
        let mut i: usize = 0;
        while i < self.ps.len()
            invariant
                i <= self.ps.len(),
                ps.len() == i,
                forall|j: int| 0 <= j < i ==> (#[trigger] ps@[j]).deep_view() == self.ps@[j].deep_view(),
            decreases self.ps.len() - i,
        {
            ps.push(self.ps[i].clone());
            i += 1;
        }
        proof {
            assert(ps.deep_view() =~= self.ps.deep_view());
        }
        Manager { ps }
    }
}

impl Manager {
    /// A registry without plugins.
    pub fn new() -> (manager: Manager)
        ensures
            manager@ == Seq::<Descriptor>::empty(),
    {
        let manager = Manager { ps: Vec::new() };
        proof {
            assert(manager.ps.deep_view() =~= Seq::<Descriptor>::empty());
        }
        manager
    }

    /// The loaded plugins.
    pub fn get_info(&self) -> (ps: &Vec<WasmPlugin>)
        ensures
            ps.deep_view() == self@,
    {
        &self.ps
    }

    /// Records one candidate, given whether its path names a module: a
    /// module that was loaded is added after the plugins that are there, and
    /// anything else is refused, with the reason.
    pub fn record(&mut self, candidate: &Candidate, module: bool) -> (rejected: Option<Rejection>)
        ensures
            final(self)@ == recorded(
                old(self)@,
                Judged { path: candidate.path@, module, attempt: candidate.attempt },
            ),
            rejected.deep_view() == match verdict(
                Judged { path: candidate.path@, module, attempt: candidate.attempt },
            ) {
                Ok(_) => None::<(Seq<char>, Refusal)>,
                Err(refusal) => Some((candidate.path@, refusal)),
            },
    {
        let ghost before = self@;
        let refusal = if !module {
            Refusal::Extension
        } else {
            match candidate.attempt {
                Attempt::Loaded { size, loaded_time } => {
                    self.ps.push(WasmPlugin { path: candidate.path.clone(), size, loaded_time });
                    proof {
                        assert(self@ =~= before.push(
                            Descriptor { path: candidate.path@, size, loaded_time },
                        ));
                    }
                    return None;
                },
                Attempt::Failed(error) => Refusal::Failed(error),
                Attempt::Skipped => Refusal::Failed(WasmError::Load),
            }
        };
        Some(Rejection { path: candidate.path.clone(), refusal })
    }

    /// Takes up the candidates that are modules and were loaded, in their
    /// order, after the plugins that are there, and returns the others with
    /// the reason for which each was refused.
    pub fn register(&mut self, candidates: Vec<Candidate>) -> (rejected: Vec<Rejection>)
        ensures
            final(self)@ == old(self)@ + registered(judged(candidates.deep_view())),
            rejected.deep_view() == refused(judged(candidates.deep_view())),
    {
        let ghost offers = judged(candidates.deep_view());
        let mut rejected: Vec<Rejection> = Vec::new();
        let mut i: usize = 0;
        proof {
            assert(self@ =~= old(self)@ + registered(offers.take(0)));
            assert(rejected.deep_view() =~= refused(offers.take(0)));
        }
        while i < candidates.len()
            invariant
                i <= candidates.len(),
                offers == judged(candidates.deep_view()),
                self@ == old(self)@ + registered(offers.take(i as int)),
                rejected.deep_view() == refused(offers.take(i as int)),
            decreases candidates.len() - i,
        {
            let candidate = &candidates[i];
            let ghost refusals = rejected.deep_view();
            proof {
                let upto = offers.take(i + 1);
                assert(upto.drop_last() == offers.take(i as int));
                assert(upto.last() == offers[i as int]);
                assert(candidates.deep_view()[i as int] == candidate.deep_view());
            }
            let module = is_module(candidate.path.as_str());
            match self.record(candidate, module) {
                Some(rejection) => {
                    rejected.push(rejection);
                    proof {
                        assert(rejected.deep_view() =~= refusals.push(rejection.deep_view()));
                    }
                },
                None => {
                    proof {
                        assert(old(self)@ + registered(offers.take(i as int)).push(
                            verdict(offers[i as int]).unwrap(),
                        ) =~= (old(self)@ + registered(offers.take(i as int))).push(
                            verdict(offers[i as int]).unwrap(),
                        ));
                    }
                },
            }
            i += 1;
        }
        proof {
            assert(offers.take(i as int) == offers);
        }
        rejected
    }

    /// Gathers what the plugins made of one batch of lines: the replies of
    /// those that gave one that is not empty, in the order of the registry,
    /// and the errors of those that failed. `outcomes` holds what each plugin
    /// came to, in the order of the registry, and each error comes with the
    /// place of its plugin in that order. An error of one plugin takes
    /// nothing from the replies of the others.
    pub fn handle_privmsg(&self, outcomes: Vec<Outcome>) -> (dispatch: Dispatch)
        ensures
            dispatch.replies.deep_view() == replies_of(outcomes@),
            dispatch.failures@ == failures_of(outcomes@),
            forall|k: int|
                0 <= k < dispatch.failures@.len() ==> (#[trigger] dispatch.failures@[k]).0
                    < outcomes@.len() && outcomes@[dispatch.failures@[k].0 as int] == Err::<
                    Option<String>,
                    WasmError,
                >(dispatch.failures@[k].1),
    {
        let mut replies: Vec<String> = Vec::new();
        let mut failures: Vec<(usize, WasmError)> = Vec::new();
        let mut i: usize = 0;
        proof {
            assert(replies.deep_view() =~= replies_of(outcomes@.take(0)));
        }
        while i < outcomes.len()
            invariant
                i <= outcomes.len(),
                replies.deep_view() == replies_of(outcomes@.take(i as int)),
                failures@ == failures_of(outcomes@.take(i as int)),
            decreases outcomes.len() - i,
        {
            let ghost before = replies.deep_view();
            proof {
                let upto = outcomes@.take(i + 1);
                assert(upto.drop_last() == outcomes@.take(i as int));
                assert(upto.last() == outcomes@[i as int]);
            }
            match &outcomes[i] {
                Ok(Some(reply)) => {
                    if !reply.as_str().is_empty() {
                        replies.push(reply.clone());
                        proof {
                            assert(replies.deep_view() =~= before.push(reply@));
                        }
                    }
                },
                Ok(None) => {},
                Err(error) => {
                    failures.push((i, *error));
                },
            }
            i += 1;
        }
        proof {
            assert(outcomes@.take(i as int) == outcomes@);
            lemma_failures_name_their_plugins(outcomes@);
        }
        Dispatch { replies, failures }
    }
}

/// The replies of two runs of outcomes, one after the other, are the replies
/// of the first and then those of the second.
pub proof fn lemma_replies_of_concat(first: Seq<Outcome>, second: Seq<Outcome>)
    ensures
        replies_of(first + second) == replies_of(first) + replies_of(second),
    decreases second.len(),
{
    if second.len() == 0 {
        assert(first + second =~= first);
        assert(replies_of(first) + replies_of(second) =~= replies_of(first));
    } else {
        lemma_replies_of_concat(first, second.drop_last());
        assert((first + second).drop_last() =~= first + second.drop_last());
        assert((first + second).last() == second.last());
        match reply_in(second.last()) {
            Some(reply) => {
                assert(replies_of(first + second) =~= replies_of(first) + replies_of(second));
            },
            None => {},
        }
    }
}

/// A plugin that gives no reply leaves no trace in the replies: they are
/// those that the other plugins would give without it. That is so of a plugin
/// that failed, of one that returned nothing, and of one that returned the
/// empty text.
pub proof fn lemma_no_reply_leaves_no_trace(outcomes: Seq<Outcome>, i: int)
    requires
        0 <= i < outcomes.len(),
        reply_in(outcomes[i]).is_none(),
    ensures
        replies_of(outcomes) == replies_of(outcomes.remove(i)),
{
    let head = outcomes.take(i);
    let tail = outcomes.skip(i + 1);
    let silent = seq![outcomes[i]];
    assert(outcomes =~= head + silent + tail);
    assert(outcomes.remove(i) =~= head + tail);
    lemma_replies_of_concat(head + silent, tail);
    lemma_replies_of_concat(head, silent);
    lemma_replies_of_concat(head, tail);
    assert(replies_of(silent.drop_last()) =~= Seq::<Seq<char>>::empty());
    assert(silent.last() == outcomes[i]);
    assert(replies_of(silent) =~= Seq::<Seq<char>>::empty());
    assert(replies_of(head) + replies_of(silent) =~= replies_of(head));
}

/// A plugin that fails adds nothing to the replies and takes nothing from
/// them: the replies are those that the other plugins would give without it.
pub proof fn lemma_failure_leaves_no_trace(outcomes: Seq<Outcome>, i: int, error: WasmError)
    requires
        0 <= i < outcomes.len(),
        outcomes[i] == Err::<Option<String>, WasmError>(error),
    ensures
        replies_of(outcomes) == replies_of(outcomes.remove(i)),
{
    lemma_no_reply_leaves_no_trace(outcomes, i);
}

/// No reply that is gathered is empty, and there are no more replies than
/// outcomes.
pub proof fn lemma_replies_are_not_empty(outcomes: Seq<Outcome>)
    ensures
        replies_of(outcomes).len() <= outcomes.len(),
        forall|k: int|
            0 <= k < replies_of(outcomes).len() ==> (#[trigger] replies_of(outcomes)[k]).len() > 0,
    decreases outcomes.len(),
{
    if outcomes.len() > 0 {
        lemma_replies_are_not_empty(outcomes.drop_last());
    }
}

/// Every error that is gathered comes with the place of the plugin that
/// failed with it: the place is one of the outcomes, and the outcome there is
/// that error. The places ascend.
pub proof fn lemma_failures_name_their_plugins(outcomes: Seq<Outcome>)
    requires
        outcomes.len() <= usize::MAX,
    ensures
        failures_of(outcomes).len() <= outcomes.len(),
        forall|k: int|
            0 <= k < failures_of(outcomes).len() ==> (#[trigger] failures_of(outcomes)[k]).0
                < outcomes.len() && outcomes[failures_of(outcomes)[k].0 as int] == Err::<
                Option<String>,
                WasmError,
            >(failures_of(outcomes)[k].1),
        forall|j: int, k: int|
            0 <= j < k < failures_of(outcomes).len() ==> (#[trigger] failures_of(outcomes)[j]).0 < (
            #[trigger] failures_of(outcomes)[k]).0,
    decreases outcomes.len(),
{
    if outcomes.len() > 0 {
        let rest = outcomes.drop_last();
        lemma_failures_name_their_plugins(rest);
        assert forall|k: int| 0 <= k < failures_of(rest).len() implies outcomes[(
        #[trigger] failures_of(rest)[k]).0 as int] == rest[failures_of(rest)[k].0 as int] by {}
    }
}

/// Every reply of a plugin that is not empty is among the replies gathered,
/// whatever the other plugins came to.
pub proof fn lemma_reply_is_gathered(outcomes: Seq<Outcome>, i: int, reply: String)
    requires
        0 <= i < outcomes.len(),
        outcomes[i] == Ok::<Option<String>, WasmError>(Some(reply)),
        reply@.len() > 0,
    ensures
        replies_of(outcomes).contains(reply@),
{
    let head = outcomes.take(i);
    let tail = outcomes.skip(i + 1);
    let given = seq![outcomes[i]];
    assert(outcomes =~= head + given + tail);
    lemma_replies_of_concat(head + given, tail);
    lemma_replies_of_concat(head, given);
    assert(replies_of(given.drop_last()) =~= Seq::<Seq<char>>::empty());
    assert(given.last() == outcomes[i]);
    assert(replies_of(given) =~= seq![reply@]);
    let all = replies_of(head) + seq![reply@] + replies_of(tail);
    assert(all[replies_of(head).len() as int] == reply@);
}

/// Whether a candidate is taken up.
pub open spec fn loads(candidate: Judged) -> bool {
    verdict(candidate) is Ok
}

/// How many of the candidates are taken up.
pub open spec fn count_loading(candidates: Seq<Judged>) -> nat
    decreases candidates.len(),
{
    if candidates.len() == 0 {
        0
    } else {
        count_loading(candidates.drop_last()) + if loads(candidates.last()) {
            1nat
        } else {
            0nat
        }
    }
}

/// Of the candidates, as many are registered as load, and every other one is
/// refused: none is lost and none counts twice.
pub proof fn lemma_every_candidate_counts(candidates: Seq<Judged>)
    ensures
        registered(candidates).len() == count_loading(candidates),
        refused(candidates).len() == candidates.len() - count_loading(candidates),
    decreases candidates.len(),
{
    if candidates.len() > 0 {
        lemma_every_candidate_counts(candidates.drop_last());
    }
}

} // verus!
