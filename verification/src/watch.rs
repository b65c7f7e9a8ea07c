//! The watch-triggered build scheduler: the set of active build/run/watch
//! registrations of a project, debounce coalescing of raw filesystem
//! events, and the per-registration trigger policy. Everything here is a
//! pure decision; running the triggered action and watching the filesystem
//! belong to the surrounding tasks, which hand events and outcomes in as
//! plain values.

use crate::message::Message;
use crate::text::{file_name, file_name_of, str_eq};
use crate::DaemonError;
use vstd::prelude::*;
use vstd::string::*;

verus! {

/// The kind of a filesystem change.
#[derive(Clone, Copy, PartialEq, Eq, Structural, Debug)]
pub enum EventKind {
    Create,
    Remove,
    Rename,
    ContentUpdate,
    Other,
}

/// A debounced filesystem event handed to the scheduler. Paths excluded by
/// the project's ignore patterns never arrive here: filtering is the
/// watch collaborator's responsibility.
#[derive(Debug)]
pub struct Event {
    pub path: String,
    pub kind: EventKind,
    /// Whether the disappearance of the path was already observed by an
    /// earlier event.
    pub seen: bool,
}

/// The mathematical content of an `Event`.
pub ghost struct EventModel {
    pub path: Seq<char>,
    pub kind: EventKind,
    pub seen: bool,
}

impl View for Event {
    type V = EventModel;

    open spec fn view(&self) -> EventModel {
        EventModel { path: self.path@, kind: self.kind, seen: self.seen }
    }
}

impl Event {
    pub fn is_content_update_event(&self) -> (r: bool)
        ensures
            r == (self.kind is ContentUpdate),
    {
        matches!(self.kind, EventKind::ContentUpdate)
    }

    pub fn is_create_event(&self) -> (r: bool)
        ensures
            r == (self.kind is Create),
    {
        matches!(self.kind, EventKind::Create)
    }

    pub fn is_remove_event(&self) -> (r: bool)
        ensures
            r == (self.kind is Remove),
    {
        matches!(self.kind, EventKind::Remove)
    }

    pub fn is_rename_event(&self) -> (r: bool)
        ensures
            r == (self.kind is Rename),
    {
        matches!(self.kind, EventKind::Rename)
    }

    /// The file name of the changed path.
    pub fn file_name(&self) -> (r: String)
        ensures
            r@ == file_name_of(self.path@),
    {
        file_name(self.path.as_str())
    }
}

/// The operation a registration re-executes when triggered.
#[derive(Clone, Copy, PartialEq, Eq, Structural, Debug)]
pub enum Operation {
    Build,
    Run,
}

/// One active build/run/watch registration, keyed by its normalized
/// signature (target, configuration and operation kind).
pub struct Watchable {
    pub signature: String,
    pub target: String,
    pub client_pid: i32,
    pub op: Operation,
}

/// The mathematical content of a `Watchable`.
pub ghost struct WatchableModel {
    pub signature: Seq<char>,
    pub target: Seq<char>,
    pub client_pid: int,
    pub op: Operation,
}

impl View for Watchable {
    type V = WatchableModel;

    open spec fn view(&self) -> WatchableModel {
        WatchableModel {
            signature: self.signature@,
            target: self.target@,
            client_pid: self.client_pid as int,
            op: self.op,
        }
    }
}

/// Trigger policy: an event re-executes a registration when it is a
/// content update, rename, creation or removal, or when the registration's
/// own backing path no longer exists and that disappearance has not
/// already been observed.
pub open spec fn spec_should_trigger(kind: EventKind, seen: bool, backing_exists: bool) -> bool {
    ||| kind is ContentUpdate
    ||| kind is Rename
    ||| kind is Create
    ||| kind is Remove
    ||| (!backing_exists && !seen)
}

/// What one registration does with one debounced event.
#[derive(Clone, Copy, PartialEq, Eq, Structural, Debug)]
pub enum Decision {
    /// Re-execute the registered action.
    Trigger,
    /// Remove the registration permanently.
    Discard,
    /// Nothing to do.
    Skip,
}

pub open spec fn spec_decide(
    kind: EventKind,
    seen: bool,
    backing_exists: bool,
    client_connected: bool,
) -> Decision {
    if !client_connected {
        Decision::Discard
    } else if spec_should_trigger(kind, seen, backing_exists) {
        Decision::Trigger
    } else {
        Decision::Skip
    }
}

impl Watchable {
    /// The trigger predicate of this registration; `backing_exists` says
    /// whether its backing path currently exists on disk.
    pub fn should_trigger(&self, event: &Event, backing_exists: bool) -> (r: bool)
        ensures
            r == spec_should_trigger(event.kind, event.seen, backing_exists),
    {
        self.is_triggering_kind(event) || (!backing_exists && !event.seen)
    }

    fn is_triggering_kind(&self, event: &Event) -> (r: bool)
        ensures
            r == (event.kind is ContentUpdate || event.kind is Rename || event.kind is Create
                || event.kind is Remove),
    {
        event.is_content_update_event() || event.is_rename_event() || event.is_create_event()
            || event.is_remove_event()
    }

    /// Discard policy: a registration is dropped when its owning client
    /// has disconnected, independent of triggering.
    pub fn should_discard(&self, client_connected: bool) -> (r: bool)
        ensures
            r == !client_connected,
    {
        !client_connected
    }

    /// Decides what this registration does with one debounced event:
    /// discard wins over trigger, and anything else is a no-op.
    pub fn decide(&self, event: &Event, backing_exists: bool, client_connected: bool) -> (d:
        Decision)
        ensures
            d == spec_decide(event.kind, event.seen, backing_exists, client_connected),
    {
        if self.should_discard(client_connected) {
            Decision::Discard
        } else if self.should_trigger(event, backing_exists) {
            Decision::Trigger
        } else {
            Decision::Skip
        }
    }
}

/// The text of the notification a successful trigger emits.
pub open spec fn built_notice(target: Seq<char>) -> Seq<char> {
    "["@ + target + "] Built"@
}

/// The text of the notification a failed trigger emits.
pub open spec fn failed_notice(target: Seq<char>) -> Seq<char> {
    "["@ + target + "] Rebuilding failed, checkout logs"@
}

/// The text of the log line a failed trigger emits.
pub open spec fn failed_log(target: Seq<char>) -> Seq<char> {
    "["@ + target + "] run failed"@
}

fn bracketed(target: &str, suffix: &str) -> (r: String)
    ensures
        r@ == "["@ + target@ + suffix@,
{
    let mut out = String::new();
    out.append("[");
    out.append(target);
    out.append(suffix);
    out
}

/// The messages a completed trigger emits through the hub: on success
/// exactly one info notification; on failure exactly one error
/// notification and exactly one error log line. The registration itself
/// is never removed on failure, so the next edit retries the build.
pub fn trigger_outcome_messages(target: &str, success: bool) -> (msgs: Vec<Message>)
    ensures
        success ==> msgs@.len() == 1 && (msgs@[0] matches Message::Notify { level, text }
            && level is Info && text@ == built_notice(target@)),
        !success ==> msgs@.len() == 2 && (msgs@[0] matches Message::Notify { level, text }
            && level is Error && text@ == failed_notice(target@)) && (msgs@[1] matches
        Message::Log { stream, level, text } && stream is Stderr && level is Error && text@
            == failed_log(target@)),
{
    let mut msgs: Vec<Message> = Vec::new();
    if success {
        msgs.push(Message::notify_info(bracketed(target, "] Built")));
    } else {
        msgs.push(Message::notify_error(bracketed(target, "] Rebuilding failed, checkout logs")));
        msgs.push(Message::log_error(bracketed(target, "] run failed")));
    }
    msgs
}

/// The registrations that do not carry the given signature, in order.
pub open spec fn keep_others(rs: Seq<WatchableModel>, sig: Seq<char>) -> Seq<WatchableModel>
    decreases rs.len(),
{
    if rs.len() == 0 {
        Seq::empty()
    } else if rs.last().signature == sig {
        keep_others(rs.drop_last(), sig)
    } else {
        keep_others(rs.drop_last(), sig).push(rs.last())
    }
}

/// How many registrations carry the given signature.
pub open spec fn count_sig(rs: Seq<WatchableModel>, sig: Seq<char>) -> int
    decreases rs.len(),
{
    if rs.len() == 0 {
        0
    } else {
        count_sig(rs.drop_last(), sig) + if rs.last().signature == sig {
            1int
        } else {
            0int
        }
    }
}

proof fn lemma_keep_others_none(rs: Seq<WatchableModel>, sig: Seq<char>)
    requires
        forall|k: int| 0 <= k < rs.len() ==> rs[k].signature != sig,
    ensures
        keep_others(rs, sig) == rs,
    decreases rs.len(),
{
    if rs.len() > 0 {
        lemma_keep_others_none(rs.drop_last(), sig);
        assert(keep_others(rs.drop_last(), sig).push(rs.last()) =~= rs);
    }
}

proof fn lemma_keep_others_remove_one(rs: Seq<WatchableModel>, sig: Seq<char>, idx: int)
    requires
        0 <= idx < rs.len(),
        rs[idx].signature == sig,
        forall|k: int| 0 <= k < rs.len() && k != idx ==> rs[k].signature != sig,
    ensures
        keep_others(rs, sig) == rs.remove(idx),
    decreases rs.len(),
{
    let dl = rs.drop_last();
    if idx == rs.len() - 1 {
        lemma_keep_others_none(dl, sig);
        assert(rs.remove(idx) =~= dl);
    } else {
        lemma_keep_others_remove_one(dl, sig, idx);
        assert(rs.remove(idx) =~= dl.remove(idx).push(rs.last()));
    }
}

proof fn lemma_count_zero(rs: Seq<WatchableModel>, sig: Seq<char>)
    requires
        forall|k: int| 0 <= k < rs.len() ==> rs[k].signature != sig,
    ensures
        count_sig(rs, sig) == 0,
    decreases rs.len(),
{
    if rs.len() > 0 {
        lemma_count_zero(rs.drop_last(), sig);
    }
}

/// The set of active build/run/watch registrations of one project.
pub struct WatchStore {
    pub registrations: Vec<Watchable>,
}

impl WatchStore {
    /// The registrations as mathematical values, in order.
    pub open spec fn models(self) -> Seq<WatchableModel> {
        self.registrations@.map_values(|w: Watchable| w@)
    }

    /// Store invariant: signatures are pairwise distinct, so there is at
    /// most one active registration per signature.
    pub open spec fn wf(self) -> bool {
        forall|i: int, j: int|
            0 <= i < j < self.models().len() ==> self.models()[i].signature
                != self.models()[j].signature
    }

    pub open spec fn contains_sig(self, sig: Seq<char>) -> bool {
        exists|i: int| 0 <= i < self.models().len() && self.models()[i].signature == sig
    }

    /// An empty store.
    pub fn new() -> (s: WatchStore)
        ensures
            s.wf(),
            s.models() == Seq::<WatchableModel>::empty(),
    {
        let s = WatchStore { registrations: Vec::new() };
        proof {
            assert(s.models() =~= Seq::<WatchableModel>::empty());
        }
        s
    }

    fn find_sig(&self, sig: &str) -> (r: Option<usize>)
        ensures
            r matches Some(i) ==> i < self.models().len() && self.models()[i as int].signature
                == sig@,
            r is None ==> forall|k: int|
                0 <= k < self.models().len() ==> self.models()[k].signature != sig@,
    {
        let n = self.registrations.len();
        let mut i: usize = 0;
        while i < n
            invariant
                0 <= i <= n,
                n == self.models().len(),
                forall|k: int| 0 <= k < i ==> self.models()[k].signature != sig@,
            decreases n - i,
        {
            if str_eq(self.registrations[i].signature.as_str(), sig) {
                return Some(i);
            }
            i += 1;
        }
        None
    }

    /// Inserts or replaces the registration keyed by the signature of `w`:
    /// an equivalent registration is removed first, so the store holds
    /// exactly one active registration under that signature afterwards.
    pub fn register(&mut self, w: Watchable)
        requires
            old(self).wf(),
        ensures
            final(self).wf(),
            final(self).models() == keep_others(old(self).models(), w@.signature).push(w@),
            count_sig(final(self).models(), w@.signature) == 1,
    {
        let ghost sig = w@.signature;
        let ghost pre = self.models();
        let found = self.find_sig(w.signature.as_str());
        match found {
            Some(idx) => {
                proof {
                    lemma_keep_others_remove_one(pre, sig, idx as int);
                }
                self.registrations.remove(idx);
                proof {
                    assert(self.models() =~= pre.remove(idx as int));
                }
            },
            None => {
                proof {
                    lemma_keep_others_none(pre, sig);
                }
            },
        }
        let ghost mid = self.models();
        self.registrations.push(w);
        proof {
            assert(self.models() =~= mid.push(w@));
            assert(mid == keep_others(pre, sig));
            assert forall|k: int| 0 <= k < mid.len() implies mid[k].signature != sig by {
                lemma_keep_others_no_sig(pre, sig);
            }
            lemma_count_zero(mid, sig);
            assert(self.models().drop_last() =~= mid);
        }
    }

    /// Removes the registration under the given signature; a signature
    /// that is not registered is a `StateError`, and the store is
    /// untouched.
    pub fn unregister(&mut self, sig: &str) -> (r: Result<(), DaemonError>)
        requires
            old(self).wf(),
        ensures
            final(self).wf(),
            r is Ok ==> old(self).contains_sig(sig@) && final(self).models() == keep_others(
                old(self).models(),
                sig@,
            ),
            r matches Err(e) ==> e is StateError && !old(self).contains_sig(sig@) && *final(self)
                == *old(self),
    {
        let ghost pre = self.models();
        let found = self.find_sig(sig);
        match found {
            Some(idx) => {
                proof {
                    lemma_keep_others_remove_one(pre, sig@, idx as int);
                }
                self.registrations.remove(idx);
                proof {
                    assert(self.models() =~= pre.remove(idx as int));
                }
                Ok(())
            },
            None => Err(DaemonError::StateError),
        }
    }

    /// Evaluates one debounced event against every registration, in
    /// order. `backing_exists[i]` and `client_connected[i]` report, for
    /// the `i`-th registration, whether its backing path exists and its
    /// owning client is still attached.
    pub fn on_event(
        &self,
        event: &Event,
        backing_exists: &Vec<bool>,
        client_connected: &Vec<bool>,
    ) -> (ds: Vec<Decision>)
        requires
            backing_exists@.len() == self.models().len(),
            client_connected@.len() == self.models().len(),
        ensures
            ds@.len() == self.models().len(),
            forall|i: int|
                0 <= i < ds@.len() ==> ds@[i] == spec_decide(
                    event.kind,
                    event.seen,
                    backing_exists@[i],
                    client_connected@[i],
                ),
    {
        let n = self.registrations.len();
        let mut ds: Vec<Decision> = Vec::new();
        let mut i: usize = 0;
        while i < n
            invariant
                0 <= i <= n,
                n == self.models().len(),
                backing_exists@.len() == n,
                client_connected@.len() == n,
                ds@.len() == i,
                forall|k: int|
                    0 <= k < i ==> ds@[k] == spec_decide(
                        event.kind,
                        event.seen,
                        backing_exists@[k],
                        client_connected@[k],
                    ),
            decreases n - i,
        {
            let d = self.registrations[i].decide(event, backing_exists[i], client_connected[i]);
            ds.push(d);
            i += 1;
        }
        ds
    }
}

proof fn lemma_keep_others_no_sig(rs: Seq<WatchableModel>, sig: Seq<char>)
    ensures
        forall|k: int|
            0 <= k < keep_others(rs, sig).len() ==> keep_others(rs, sig)[k].signature != sig,
    decreases rs.len(),
{
    if rs.len() > 0 {
        lemma_keep_others_no_sig(rs.drop_last(), sig);
    }
}

/// At most one active registration per signature: uniqueness is an
/// invariant of the store, so registering the same signature any number of
/// times leaves exactly one active registration under it.
pub proof fn lemma_at_most_one_registration(s: WatchStore, sig: Seq<char>)
    requires
        s.wf(),
    ensures
        count_sig(s.models(), sig) <= 1,
{
    lemma_count_at_most_one(s.models(), sig);
}

proof fn lemma_count_at_most_one(rs: Seq<WatchableModel>, sig: Seq<char>)
    requires
        forall|i: int, j: int| 0 <= i < j < rs.len() ==> rs[i].signature != rs[j].signature,
    ensures
        count_sig(rs, sig) <= 1,
        count_sig(rs, sig) == 1 ==> exists|i: int| 0 <= i < rs.len() && rs[i].signature == sig,
    decreases rs.len(),
{
    if rs.len() > 0 {
        let dl = rs.drop_last();
        lemma_count_at_most_one(dl, sig);
        if rs.last().signature == sig {
            lemma_count_zero(dl, sig);
        }
    }
}

/// A raw filesystem event before debounce coalescing, stamped with its
/// arrival time in milliseconds.
#[derive(Debug, PartialEq)]
pub struct RawEvent {
    pub path: String,
    pub kind: EventKind,
    pub time_ms: u64,
}

/// The mathematical content of a `RawEvent`.
pub ghost struct RawEventModel {
    pub path: Seq<char>,
    pub kind: EventKind,
    pub time: int,
}

impl View for RawEvent {
    type V = RawEventModel;

    open spec fn view(&self) -> RawEventModel {
        RawEventModel { path: self.path@, kind: self.kind, time: self.time_ms as int }
    }
}

/// Whether an event survives coalescing, given the arrival time of the
/// last kept event per path.
pub open spec fn keeps(last: Map<Seq<char>, int>, e: RawEventModel, window: int) -> bool {
    !last.contains_key(e.path) || e.time >= last[e.path] + window
}

pub open spec fn coalesce_from(
    evs: Seq<RawEventModel>,
    last: Map<Seq<char>, int>,
    window: int,
) -> Seq<RawEventModel>
    decreases evs.len(),
{
    if evs.len() == 0 {
        Seq::empty()
    } else {
        let e = evs.first();
        if keeps(last, e, window) {
            seq![e] + coalesce_from(evs.drop_first(), last.insert(e.path, e.time), window)
        } else {
            coalesce_from(evs.drop_first(), last, window)
        }
    }
}

/// Debounce: of the raw events of one path arriving in order, only one
/// per coalescing window survives; events of distinct paths do not
/// interfere.
pub open spec fn spec_coalesce(evs: Seq<RawEventModel>, window: int) -> Seq<RawEventModel> {
    coalesce_from(evs, Map::empty(), window)
}

proof fn lemma_coalesce_none(
    evs: Seq<RawEventModel>,
    last: Map<Seq<char>, int>,
    window: int,
    p: Seq<char>,
    t0: int,
)
    requires
        forall|i: int| 0 <= i < evs.len() ==> evs[i].path == p && evs[i].time < t0 + window,
        last.contains_key(p),
        last[p] >= t0,
    ensures
        coalesce_from(evs, last, window).len() == 0,
    decreases evs.len(),
{
    if evs.len() > 0 {
        assert(evs[0].path == p);
        assert(!keeps(last, evs.first(), window));
        lemma_coalesce_none(evs.drop_first(), last, window, p, t0);
    }
}

/// Debounce coalescing: a burst of events for one path, all arriving
/// within one coalescing window, yields at most one logical event, so the
/// scheduler triggers at most once for it.
pub proof fn lemma_debounce_burst(evs: Seq<RawEventModel>, window: int, p: Seq<char>, t0: int)
    requires
        forall|i: int| 0 <= i < evs.len() ==> evs[i].path == p && t0 <= evs[i].time < t0 + window,
    ensures
        spec_coalesce(evs, window).len() <= 1,
{
    if evs.len() > 0 {
        let e = evs.first();
        assert(keeps(Map::empty(), e, window));
        let m = Map::<Seq<char>, int>::empty().insert(e.path, e.time);
        lemma_coalesce_none(evs.drop_first(), m, window, p, t0);
    }
}

fn find_path(paths: &Vec<String>, p: &str) -> (r: Option<usize>)
    ensures
        r matches Some(f) ==> f < paths@.len() && paths@[f as int]@ == p@,
        r is None ==> forall|j: int| 0 <= j < paths@.len() ==> paths@[j]@ != p@,
{
    let n = paths.len();
    let mut k: usize = 0;
    while k < n
        invariant
            0 <= k <= n,
            n == paths@.len(),
            forall|j: int| 0 <= j < k ==> paths@[j]@ != p@,
        decreases n - k,
    {
        if str_eq(paths[k].as_str(), p) {
            return Some(k);
        }
        k += 1;
    }
    None
}

/// Coalesces raw events, exactly as `spec_coalesce` says, using the given
/// window in milliseconds.
pub fn coalesce(events: &Vec<RawEvent>, window_ms: u64) -> (out: Vec<RawEvent>)
    ensures
        out@.map_values(|e: RawEvent| e@) == spec_coalesce(
            events@.map_values(|e: RawEvent| e@),
            window_ms as int,
        ),
{
    let ghost evs = events@.map_values(|e: RawEvent| e@);
    let mut out: Vec<RawEvent> = Vec::new();
    let mut last_paths: Vec<String> = Vec::new();
    let mut last_times: Vec<u64> = Vec::new();
    let mut i: usize = 0;
    let ghost mut m = Map::<Seq<char>, int>::empty();
    proof {
        assert(out@.map_values(|e: RawEvent| e@) =~= Seq::<RawEventModel>::empty());
        assert(evs.skip(0) =~= evs);
    }
    while i < events.len()
        invariant
            0 <= i <= events@.len(),
            evs == events@.map_values(|e: RawEvent| e@),
            last_paths@.len() == last_times@.len(),
            forall|k: int|
                0 <= k < last_paths@.len() ==> m.contains_key(#[trigger] last_paths@[k]@)
                    && m[last_paths@[k]@] == last_times@[k] as int,
            forall|key: Seq<char>|
                m.contains_key(key) ==> exists|k: int|
                    0 <= k < last_paths@.len() && #[trigger] last_paths@[k]@ == key,
            forall|k: int, l: int|
                0 <= k < l < last_paths@.len() ==> last_paths@[k]@ != last_paths@[l]@,
            out@.map_values(|e: RawEvent| e@) + coalesce_from(
                evs.skip(i as int),
                m,
                window_ms as int,
            ) == spec_coalesce(evs, window_ms as int),
        decreases events@.len() - i,
    {
        let e = &events[i];
        proof {
            assert(evs.skip(i as int)[0] == evs[i as int]);
            assert(evs.skip(i as int).drop_first() =~= evs.skip(i as int + 1));
        }
        let found = find_path(&last_paths, e.path.as_str());
        let keep: bool = match found {
            Some(f) => {
                proof {
                    assert(m.contains_key(e.path@));
                    assert(m[e.path@] == last_times@[f as int] as int);
                }
                let t = last_times[f];
                e.time_ms >= t && e.time_ms - t >= window_ms
            },
            None => {
                proof {
                    if m.contains_key(e.path@) {
                        let j = choose|j: int|
                            0 <= j < last_paths@.len() && #[trigger] last_paths@[j]@ == e.path@;
                        assert(false);
                    }
                }
                true
            },
        };
        proof {
            assert(keep == keeps(m, evs[i as int], window_ms as int));
        }
        if keep {
            let ghost prev_out = out@.map_values(|x: RawEvent| x@);
            let ghost m_next = m.insert(evs[i as int].path, evs[i as int].time);
            out.push(RawEvent { path: e.path.clone(), kind: e.kind, time_ms: e.time_ms });
            proof {
                assert(out@.map_values(|x: RawEvent| x@) =~= prev_out.push(evs[i as int]));
                assert(prev_out.push(evs[i as int]) + coalesce_from(
                    evs.skip(i as int + 1),
                    m_next,
                    window_ms as int,
                ) =~= prev_out + (seq![evs[i as int]] + coalesce_from(
                    evs.skip(i as int + 1),
                    m_next,
                    window_ms as int,
                )));
            }
            // record the new last kept time of this path
            let ghost old_paths = last_paths@;
            let ghost old_times = last_times@;
            match found {
                Some(f) => {
                    last_paths.remove(f);
                    last_times.remove(f);
                },
                None => {},
            }
            last_paths.push(e.path.clone());
            last_times.push(e.time_ms);
            proof {
                m = m_next;
                let ghost np = last_paths@;
                let ghost nt = last_times@;
                match found {
                    Some(f) => {
                        assert forall|k: int|
                            0 <= k < np.len() - 1 implies np[k]@ == (if k < f {
                            old_paths[k]@
                        } else {
                            old_paths[k + 1]@
                        }) && nt[k] == (if k < f {
                            old_times[k]
                        } else {
                            old_times[k + 1]
                        }) by {
                            assert(old_paths.remove(f as int) =~= old_paths.take(f as int)
                                + old_paths.skip(f as int + 1));
                            assert(old_times.remove(f as int) =~= old_times.take(f as int)
                                + old_times.skip(f as int + 1));
                        }
                        assert forall|k: int|
                            0 <= k < np.len() - 1 implies np[k]@ != e.path@ by {
                            if k < f {
                            } else {
                                assert(old_paths[f as int]@ == e.path@);
                                assert(old_paths[k + 1]@ != old_paths[f as int]@);
                            }
                        }
                    },
                    None => {},
                }
                assert forall|key: Seq<char>| m.contains_key(key) implies exists|j: int|
                    0 <= j < np.len() && #[trigger] np[j]@ == key by {
                    if key == evs[i as int].path {
                        assert(np[np.len() - 1]@ == key);
                    } else {
                        let j0 = choose|j0: int|
                            0 <= j0 < old_paths.len() && #[trigger] old_paths[j0]@ == key;
                        match found {
                            Some(f) => {
                                assert(old_paths[f as int]@ == e.path@);
                                if j0 < f {
                                    assert(np[j0]@ == key);
                                } else {
                                    assert(j0 != f);
                                    assert(np[j0 - 1]@ == key);
                                }
                            },
                            None => {
                                assert(np[j0]@ == key);
                            },
                        }
                    }
                }
            }
        }
        i += 1;
    }
    proof {
        assert(evs.skip(evs.len() as int) =~= Seq::<RawEventModel>::empty());
    }
    out
}

} // verus!
