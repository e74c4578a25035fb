//! The session logs on this machine: where they are, in which order they are read, and what
//! their newest quota event says.
use vstd::prelude::*;
use vstd::set_lib::{lemma_int_range, lemma_len_subset, set_int_range};
use vstd::utf8::{
    decode_utf8, is_char_boundary_iff_not_is_continuation_byte, valid_utf8, valid_utf8_split,
};

use crate::fields::names;
use crate::quota::{
    line_view, missing_view, parse_event_line, view_of, QuotaSnapshot, SnapshotView,
};
use crate::text::{ends_with, lines_of, split_lines, starts_with, texts};

verus! {

/// How many logs are read at most.
pub const MAX_FILES_TO_SCAN: usize = 32;

/// How much of the end of a log is read at most, in bytes.
pub const MAX_TAIL_BYTES: u64 = 2_097_152;

/// The variables of the environment that say where the data is.
#[derive(Debug, Clone, Copy, PartialEq, Eq, Structural)]
pub enum HomeVariable {
    CodexHome,
    UserProfile,
}

/// A place below the directory that a variable of the environment names.
#[derive(Debug, Clone, PartialEq)]
pub struct Location {
    pub base: HomeVariable,
    pub components: Vec<&'static str>,
}

/// The place of `leaf` among the data: directly below the data directory where that is named,
/// and otherwise in the usual directory below the user's own.
pub open spec fn located(
    location: Option<Location>,
    codex_home: bool,
    user_profile: bool,
    leaf: Seq<char>,
) -> bool {
    match location {
        Some(place) => if codex_home {
            place.base == HomeVariable::CodexHome && names(place.components@) == seq![leaf]
        } else {
            user_profile && place.base == HomeVariable::UserProfile && names(place.components@)
                == seq![".codex"@, leaf]
        },
        None => !codex_home && !user_profile,
    }
}

/// The place of `leaf` among the data, given which variables are set.
fn locate(codex_home: bool, user_profile: bool, leaf: &'static str) -> (location: Option<Location>)
    ensures
        located(location, codex_home, user_profile, leaf@),
{
    if codex_home {
        let components: Vec<&'static str> = vec![leaf];
        assert(names(components@) == seq![leaf@]);
        Some(Location { base: HomeVariable::CodexHome, components })
    } else if user_profile {
        let components: Vec<&'static str> = vec![".codex", leaf];
        assert(names(components@) == seq![".codex"@, leaf@]);
        Some(Location { base: HomeVariable::UserProfile, components })
    } else {
        None
    }
}

/// The directory of the session logs, given which variables are set.
pub fn codex_session_root(codex_home: bool, user_profile: bool) -> (location: Option<Location>)
    ensures
        located(location, codex_home, user_profile, "sessions"@),
{
    locate(codex_home, user_profile, "sessions")
}

/// The login file, given which variables are set.
pub fn auth_path(codex_home: bool, user_profile: bool) -> (location: Option<Location>)
    ensures
        located(location, codex_home, user_profile, "auth.json"@),
{
    locate(codex_home, user_profile, "auth.json")
}

/// The names of session logs.
pub open spec fn is_rollout(name: Seq<char>) -> bool {
    "rollout-"@.is_prefix_of(name) && ".jsonl"@.is_suffix_of(name)
}

/// Whether a file name is that of a session log.
pub fn is_rollout_name(name: &str) -> (answer: bool)
    ensures
        answer == is_rollout(name@),
        answer <==> "rollout-"@.is_prefix_of(name@) && ".jsonl"@.is_suffix_of(name@),
{
    starts_with(name, "rollout-") && ends_with(name, ".jsonl")
}

/// What a directory holds, as far as a search for session logs looks at it.
#[derive(Debug)]
pub enum Entry {
    /// An entry of which nothing is known.
    Unknown,
    /// A directory, with what it holds.
    Directory(Vec<Entry>),
    /// Any other entry: its name, where it is text, the time at which it was modified, where
    /// that is known, and a number by which it is found again.
    File { name: Option<String>, modified: Option<i128>, id: usize },
}

/// The session logs in an entry, each with the time at which it was modified and its number: a
/// log itself, and all that a directory holds, however deep. A time that is not known counts
/// as zero.
pub open spec fn logs_in(entry: Entry) -> Seq<(i128, usize)>
    decreases entry, 0nat,
{
    match entry {
        Entry::Unknown => Seq::empty(),
        Entry::Directory(entries) => logs_among(entries@, 0),
        Entry::File { name, modified, id } => if name matches Some(text) && is_rollout(text@) {
            seq![
                (
                    match modified {
                        Some(time) => time,
                        None => 0,
                    },
                    id,
                ),
            ]
        } else {
            Seq::empty()
        },
    }
}

/// The session logs in these entries from the place `i` on, in order.
pub open spec fn logs_among(entries: Seq<Entry>, i: nat) -> Seq<(i128, usize)>
    decreases entries, entries.len() - i,
{
    if i < entries.len() {
        logs_in(entries[i as int]) + logs_among(entries, i + 1)
    } else {
        Seq::empty()
    }
}

/// Appends the session logs in these entries to a list.
fn collect_into(entries: &Vec<Entry>, output: &mut Vec<(i128, usize)>)
    ensures
        final(output)@ == old(output)@ + logs_among(entries@, 0),
    decreases entries@,
{
    let ghost start: Seq<(i128, usize)> = output@;
    let mut i: usize = 0;
    while i < entries.len()
        invariant
            i <= entries@.len(),
            output@ + logs_among(entries@, i as nat) == start + logs_among(entries@, 0),
        decreases entries@.len() - i,
    {
        let ghost before: Seq<(i128, usize)> = output@;
        match &entries[i] {
            Entry::Unknown => {},
            Entry::Directory(inner) => {
                assert(decreases_to!(entries@ => entries@[i as int]));
                collect_into(inner, output);
            },
            Entry::File { name, modified, id } => {
                if let Some(text) = name {
                    if is_rollout_name(text.as_str()) {
                        let time: i128 = match modified {
                            Some(time) => *time,
                            None => 0,
                        };
                        output.push((time, *id));
                    }
                }
            },
        }
        assert(output@ == before + logs_in(entries@[i as int]));
        assert(output@ + logs_among(entries@, (i + 1) as nat) == before + logs_among(
            entries@,
            i as nat,
        ));
        i = i + 1;
    }
    assert(output@ + Seq::<(i128, usize)>::empty() == output@);
}

/// The session logs below a directory, each with the time at which it was modified and its
/// number.
pub fn collect_rollout_files(entries: &Vec<Entry>) -> (logs: Vec<(i128, usize)>)
    ensures
        logs@ == logs_among(entries@, 0),
{
    let mut logs: Vec<(i128, usize)> = Vec::new();
    collect_into(entries, &mut logs);
    assert(logs@ == logs_among(entries@, 0));
    logs
}

/// What a directory holds is what its entries hold, in order; an entry that is no directory is a log
/// just where it is a file whose name begins with `rollout-` and ends with `.jsonl`, and then it
/// counts once, with its own time and number.
pub proof fn law_logs_are_files_by_name(entry: Entry, entries: Seq<Entry>, i: nat)
    ensures
        entry is Unknown ==> logs_in(entry).len() == 0,
        entry matches Entry::Directory(inner) ==> logs_in(entry) == logs_among(inner@, 0),
        entry matches Entry::File { name, modified, id } ==> {
            &&& name is None ==> logs_in(entry).len() == 0
            &&& name matches Some(text) ==> {
                let named = "rollout-"@.is_prefix_of(text@) && ".jsonl"@.is_suffix_of(text@);
                &&& !named ==> logs_in(entry).len() == 0
                &&& named && modified is Some ==> logs_in(entry) == seq![(modified->0, id)]
                &&& named && modified is None ==> logs_in(entry) == seq![(0i128, id)]
            }
        },
        i < entries.len() ==> logs_among(entries, i) == logs_in(entries[i as int]) + logs_among(
            entries,
            i + 1,
        ),
        i >= entries.len() ==> logs_among(entries, i).len() == 0,
{
}

/// The entry to which a path leads: its steps are places in the directory at hand.
pub open spec fn entry_at(entries: Seq<Entry>, path: Seq<nat>) -> Option<Entry>
    decreases path.len(),
{
    if path.len() == 0 || path[0] >= entries.len() {
        None
    } else if path.len() == 1 {
        Some(entries[path[0] as int])
    } else {
        match entries[path[0] as int] {
            Entry::Directory(inner) => entry_at(inner@, path.skip(1)),
            _ => None,
        }
    }
}

/// Whether an entry is the session log with this time and this number.
pub open spec fn is_log(entry: Entry, log: (i128, usize)) -> bool {
    entry is File && logs_in(entry) == seq![log]
}

/// A search finds the session logs at any depth, and nothing else.
pub proof fn law_logs_are_found_at_any_depth(entries: Seq<Entry>, log: (i128, usize))
    ensures
        logs_among(entries, 0).contains(log) <==> exists|path: Seq<nat>|
            (#[trigger] entry_at(entries, path)) is Some && is_log(
                entry_at(entries, path)->0,
                log,
            ),
{
    if logs_among(entries, 0).contains(log) {
        let path: Seq<nat> = lemma_path_to_log(entries, 0, log);
    }
    if exists|path: Seq<nat>|
        (#[trigger] entry_at(entries, path)) is Some && is_log(entry_at(entries, path)->0, log) {
        let path: Seq<nat> = choose|path: Seq<nat>|
            (#[trigger] entry_at(entries, path)) is Some && is_log(entry_at(entries, path)->0, log);
        lemma_log_at_path(entries, path, log);
    }
}

/// What one of the entries holds is found among them.
proof fn lemma_found_among(entries: Seq<Entry>, k: nat, i: nat, log: (i128, usize))
    requires
        k <= i < entries.len(),
        logs_in(entries[i as int]).contains(log),
    ensures
        logs_among(entries, k).contains(log),
    decreases i - k,
{
    let first: Seq<(i128, usize)> = logs_in(entries[k as int]);
    let rest: Seq<(i128, usize)> = logs_among(entries, k + 1);
    if k == i {
        let j: int = choose|j: int| 0 <= j < first.len() && first[j] == log;
        assert((first + rest)[j] == log);
    } else {
        lemma_found_among(entries, k + 1, i, log);
        let j: int = choose|j: int| 0 <= j < rest.len() && rest[j] == log;
        assert((first + rest)[first.len() + j] == log);
    }
}

/// A log to which a path leads is found.
proof fn lemma_log_at_path(entries: Seq<Entry>, path: Seq<nat>, log: (i128, usize))
    requires
        entry_at(entries, path) is Some,
        is_log(entry_at(entries, path)->0, log),
    ensures
        logs_among(entries, 0).contains(log),
    decreases path.len(),
{
    let entry: Entry = entries[path[0] as int];
    if path.len() == 1 {
        assert(seq![log][0] == log);
        assert(logs_in(entry).contains(log));
    } else {
        lemma_log_at_path(entry->Directory_0@, path.skip(1), log);
    }
    lemma_found_among(entries, 0, path[0], log);
}

/// A path leads to a log that is found.
proof fn lemma_path_to_log(entries: Seq<Entry>, k: nat, log: (i128, usize)) -> (path: Seq<nat>)
    requires
        logs_among(entries, k).contains(log),
    ensures
        entry_at(entries, path) is Some,
        is_log(entry_at(entries, path)->0, log),
    decreases entries, entries.len() - k,
{
    let all: Seq<(i128, usize)> = logs_among(entries, k);
    let entry: Entry = entries[k as int];
    let first: Seq<(i128, usize)> = logs_in(entry);
    let rest: Seq<(i128, usize)> = logs_among(entries, k + 1);
    let j: int = choose|j: int| 0 <= j < all.len() && all[j] == log;
    if j < first.len() {
        assert(first[j] == log);
        match entry {
            Entry::Directory(inner) => {
                let below: Seq<nat> = lemma_path_to_log(inner@, 0, log);
                let path: Seq<nat> = seq![k] + below;
                assert(path.skip(1) == below);
                path
            },
            _ => {
                assert(first == seq![log]);
                seq![k]
            },
        }
    } else {
        assert(rest[j - first.len()] == log);
        lemma_path_to_log(entries, k + 1, log)
    }
}

/// Whether the log at `i` is read before the log at `j`: the newer one first, and of two that
/// are equally old the one met first.
pub open spec fn reads_before(modified: Seq<i128>, i: int, j: int) -> bool {
    modified[i] > modified[j] || (modified[i] == modified[j] && i < j)
}

/// `order` lists the logs to read, given when each was modified: the newest, in order, as
/// many as are read at most.
pub open spec fn is_reading_order(modified: Seq<i128>, order: Seq<usize>) -> bool {
    &&& order.len() == if modified.len() < MAX_FILES_TO_SCAN {
        modified.len()
    } else {
        MAX_FILES_TO_SCAN as nat
    }
    &&& forall|a: int| 0 <= a < order.len() ==> (#[trigger] order[a]) < modified.len()
    &&& forall|a: int, b: int|
        0 <= a < b < order.len() ==> reads_before(
            modified,
            #[trigger] order[a] as int,
            #[trigger] order[b] as int,
        )
    &&& forall|a: int, j: usize|
        0 <= a < order.len() && j < modified.len() && !order.contains(j) ==> #[trigger] reads_before(
            modified,
            order[a] as int,
            j as int,
        )
}

/// Whether the log at `j` comes after those of `order`.
spec fn waits(modified: Seq<i128>, order: Seq<usize>, j: int) -> bool {
    order.len() > 0 ==> reads_before(modified, order.last() as int, j)
}

/// The first log to be read after those of `order`.
fn next_newest(modified: &Vec<i128>, order: &Vec<usize>) -> (best: Option<usize>)
    requires
        order@.len() > 0 ==> order@.last() < modified@.len(),
    ensures
        match best {
            Some(b) => {
                &&& b < modified@.len()
                &&& waits(modified@, order@, b as int)
                &&& forall|j: int|
                    0 <= j < modified@.len() && j != b && #[trigger] waits(modified@, order@, j)
                        ==> reads_before(modified@, b as int, j)
            },
            None => forall|j: int|
                0 <= j < modified@.len() ==> !#[trigger] waits(modified@, order@, j),
        },
{
    let mut best: Option<usize> = None;
    let mut i: usize = 0;
    while i < modified.len()
        invariant
            i <= modified@.len(),
            order@.len() > 0 ==> order@.last() < modified@.len(),
            match best {
                Some(b) => {
                    &&& b < i
                    &&& waits(modified@, order@, b as int)
                    &&& forall|j: int|
                        0 <= j < i && j != b && #[trigger] waits(modified@, order@, j)
                            ==> reads_before(modified@, b as int, j)
                },
                None => forall|j: int| 0 <= j < i ==> !#[trigger] waits(modified@, order@, j),
            },
        decreases modified@.len() - i,
    {
        let open: bool = if order.len() == 0 {
            true
        } else {
            let last: usize = order[order.len() - 1];
            modified[last] > modified[i] || (modified[last] == modified[i] && last < i)
        };
        assert(open == waits(modified@, order@, i as int));
        if open {
            match best {
                Some(b) => {
                    if modified[i] > modified[b] {
                        best = Some(i);
                    }
                },
                None => {
                    best = Some(i);
                },
            }
        }
        i = i + 1;
    }
    best
}

/// The logs to read, given when each was modified.
fn newest_first(modified: &Vec<i128>) -> (order: Vec<usize>)
    ensures
        is_reading_order(modified@, order@),
{
    let mut order: Vec<usize> = Vec::new();
    let count: usize = modified.len();
    let limit: usize = if count < MAX_FILES_TO_SCAN {
        count
    } else {
        MAX_FILES_TO_SCAN
    };
    while order.len() < limit
        invariant
            count == modified@.len(),
            order@.len() <= limit <= count,
            forall|a: int| 0 <= a < order@.len() ==> (#[trigger] order@[a]) < modified@.len(),
            forall|a: int, b: int|
                0 <= a < b < order@.len() ==> reads_before(
                    modified@,
                    #[trigger] order@[a] as int,
                    #[trigger] order@[b] as int,
                ),
            forall|j: usize|
                j < modified@.len() && !(#[trigger] order@.contains(j)) ==> waits(
                    modified@,
                    order@,
                    j as int,
                ),
        decreases limit - order@.len(),
    {
        let ghost before: Seq<usize> = order@;
        match next_newest(modified, &order) {
            Some(b) => {
                order.push(b);
                proof {
                    assert(order@.last() == b);
                    assert forall|a: int, c: int| 0 <= a < c < order@.len() implies reads_before(
                        modified@,
                        #[trigger] order@[a] as int,
                        #[trigger] order@[c] as int,
                    ) by {
                        if c == before.len() {
                            if a < before.len() - 1 {
                                assert(reads_before(
                                    modified@,
                                    before[a] as int,
                                    before[before.len() - 1] as int,
                                ));
                            }
                        } else {
                            assert(reads_before(modified@, before[a] as int, before[c] as int));
                        }
                    }
                    assert forall|j: usize|
                        j < modified@.len() && !(#[trigger] order@.contains(j)) implies waits(
                        modified@,
                        order@,
                        j as int,
                    ) by {
                        assert(order@[order@.len() - 1] == b);
                        if before.contains(j) {
                            let k: int = choose|k: int| 0 <= k < before.len() && before[k] == j;
                            assert(order@[k] == j);
                        }
                        assert(waits(modified@, before, j as int));
                    }
                }
            },
            None => {
                proof {
                    let j: usize = lemma_some_log_left(modified@, before);
                    assert(waits(modified@, before, j as int));
                    assert(false);
                }
                return order;
            },
        }
    }
    proof {
        assert forall|a: int, j: usize|
            0 <= a < order@.len() && j < modified@.len() && !order@.contains(
                j,
            ) implies #[trigger] reads_before(modified@, order@[a] as int, j as int) by {
            assert(waits(modified@, order@, j as int));
            if a < order@.len() - 1 {
                assert(reads_before(
                    modified@,
                    order@[a] as int,
                    order@[order@.len() - 1] as int,
                ));
            }
        }
    }
    order
}

/// Where fewer logs are listed than there are, some log is not listed.
proof fn lemma_some_log_left(modified: Seq<i128>, order: Seq<usize>) -> (j: usize)
    requires
        order.len() < modified.len(),
        modified.len() <= usize::MAX,
    ensures
        j < modified.len(),
        !order.contains(j),
{
    let n: int = modified.len() as int;
    let listed: Seq<int> = order.map_values(|x: usize| x as int);
    let all: Set<int> = set_int_range(0, n);
    listed.lemma_cardinality_of_set();
    lemma_int_range(0, n);
    if all.subset_of(listed.to_set()) {
        lemma_len_subset(all, listed.to_set());
        assert(false);
    }
    let j: int = choose|j: int| #[trigger] all.contains(j) && !listed.to_set().contains(j);
    if order.contains(j as usize) {
        let k: int = choose|k: int| 0 <= k < order.len() && order[k] == j as usize;
        assert(listed[k] == j);
        assert(listed.contains(j));
    }
    j as usize
}

/// What the scan of the logs comes to where none of them holds a quota event.
pub open spec fn no_event_message() -> Seq<char> {
    "会话日志中尚无额度事件，请在 Codex 中运行一次任务后刷新。"@
}

/// When each of these logs was modified.
pub open spec fn times(logs: Seq<(i128, usize)>) -> Seq<i128> {
    logs.map_values(|log: (i128, usize)| log.0)
}

/// The numbers of the logs at these places.
pub open spec fn numbers(logs: Seq<(i128, usize)>, places: Seq<usize>) -> Seq<usize> {
    places.map_values(|place: usize| logs[place as int].1)
}

/// What to do next in a scan: read the log with a number, or stop with a snapshot.
pub enum ScanStep {
    Read(usize),
    Done(QuotaSnapshot),
}

/// The model of a step.
pub enum StepView {
    Read(usize),
    Done(SnapshotView),
}

impl View for ScanStep {
    type V = StepView;

    open spec fn view(&self) -> StepView {
        match *self {
            ScanStep::Read(id) => StepView::Read(id),
            ScanStep::Done(snapshot) => StepView::Done(snapshot@),
        }
    }
}

/// The step after `asked` logs were asked for, of which the last held this.
pub open spec fn next_step(
    ids: Seq<usize>,
    asked: int,
    held: Option<SnapshotView>,
) -> StepView {
    match held {
        Some(snapshot) => StepView::Done(snapshot),
        None => if asked < ids.len() {
            StepView::Read(ids[asked])
        } else {
            StepView::Done(missing_view(no_event_message()))
        },
    }
}

/// What a scan comes to, where each log holds what `logs` says.
pub open spec fn scan_result(
    ids: Seq<usize>,
    logs: spec_fn(usize) -> Option<SnapshotView>,
    asked: int,
    held: Option<SnapshotView>,
) -> SnapshotView
    decreases ids.len() - asked,
{
    match next_step(ids, asked, held) {
        StepView::Done(snapshot) => snapshot,
        StepView::Read(id) => if asked < ids.len() {
            scan_result(ids, logs, asked + 1, logs(id))
        } else {
            missing_view(no_event_message())
        },
    }
}

/// A scan of the session logs, newest first.
pub struct SessionScan {
    ids: Vec<usize>,
    next: usize,
}

impl SessionScan {
    /// The numbers of the logs to read, in order.
    pub closed spec fn ids(&self) -> Seq<usize> {
        self.ids@
    }

    /// How many logs have been asked for.
    pub closed spec fn asked(&self) -> int {
        self.next as int
    }

    /// No more logs are asked for than there are to read.
    pub open spec fn well_formed(&self) -> bool {
        0 <= self.asked() <= self.ids().len()
    }

    /// Starts a scan of these logs.
    pub fn begin(logs: &Vec<(i128, usize)>) -> (scan: SessionScan)
        ensures
            scan.well_formed(),
            scan.asked() == 0,
            scan.ids().len() == if logs@.len() < 32 {
                logs@.len()
            } else {
                32
            },
            exists|order: Seq<usize>|
                {
                    &&& #[trigger] is_reading_order(times(logs@), order)
                    &&& scan.ids() == numbers(logs@, order)
                    &&& scan.ids().len() == order.len()
                    &&& forall|a: int|
                        0 <= a < order.len() ==> (#[trigger] order[a]) < logs@.len()
                            && scan.ids()[a] == logs@[order[a] as int].1
                    &&& forall|a: int, b: int|
                        0 <= a < b < order.len() ==> {
                            let earlier = logs@[#[trigger] order[a] as int];
                            let later = logs@[#[trigger] order[b] as int];
                            earlier.0 > later.0 || (earlier.0 == later.0 && order[a] < order[b])
                        }
                    &&& forall|a: int, j: usize|
                        0 <= a < order.len() && j < logs@.len() && !(#[trigger] order.contains(j))
                            ==> {
                            let listed = logs@[#[trigger] order[a] as int];
                            listed.0 > logs@[j as int].0 || (listed.0 == logs@[j as int].0
                                && order[a] < j)
                        }
                },
    {
        let mut modified: Vec<i128> = Vec::new();
        let mut i: usize = 0;
        while i < logs.len()
            invariant
                i <= logs@.len(),
                modified@ == times(logs@).take(i as int),
            decreases logs@.len() - i,
        {
            modified.push(logs[i].0);
            assert(modified@ == times(logs@).take(i + 1));
            i = i + 1;
        }
        assert(modified@ == times(logs@));
        let order: Vec<usize> = newest_first(&modified);
        let mut ids: Vec<usize> = Vec::new();
        let mut k: usize = 0;
        while k < order.len()
            invariant
                k <= order@.len(),
                is_reading_order(times(logs@), order@),
                ids@ == numbers(logs@, order@).take(k as int),
            decreases order@.len() - k,
        {
            assert(order@[k as int] < logs@.len());
            ids.push(logs[order[k]].1);
            assert(ids@ == numbers(logs@, order@).take(k + 1));
            k = k + 1;
        }
        assert(ids@ == numbers(logs@, order@));
        proof {
            lemma_reading_order_of_logs(logs@, order@);
        }
        SessionScan { ids, next: 0 }
    }

    /// The next step, given what the log asked for last holds; nothing has been asked for
    /// before the first step.
    pub fn step(&mut self, held: Option<QuotaSnapshot>) -> (step: ScanStep)
        requires
            old(self).well_formed(),
        ensures
            final(self).well_formed(),
            final(self).ids() == old(self).ids(),
            step@ == next_step(old(self).ids(), old(self).asked(), view_of(held)),
            held matches Some(snapshot) ==> step == ScanStep::Done(snapshot),
            held is None && old(self).asked() < old(self).ids().len() ==> step == ScanStep::Read(
                old(self).ids()[old(self).asked()],
            ),
            held is None && old(self).asked() == old(self).ids().len() ==> {
                &&& step is Done
                &&& step->Done_0@ == missing_view(
                    "会话日志中尚无额度事件，请在 Codex 中运行一次任务后刷新。"@,
                )
            },
            final(self).asked() == if step is Read {
                old(self).asked() + 1
            } else {
                old(self).asked()
            },
    {
        match held {
            Some(snapshot) => ScanStep::Done(snapshot),
            None => {
                if self.next < self.ids.len() {
                    let id: usize = self.ids[self.next];
                    self.next = self.next + 1;
                    ScanStep::Read(id)
                } else {
                    ScanStep::Done(
                        QuotaSnapshot::missing(
                            "会话日志中尚无额度事件，请在 Codex 中运行一次任务后刷新。",
                        ),
                    )
                }
            },
        }
    }
}

/// The snapshot where the user's directory is not known.
pub fn no_home_snapshot() -> (snapshot: QuotaSnapshot)
    ensures
        snapshot@ == missing_view("无法定位用户目录。"@),
{
    QuotaSnapshot::missing("无法定位用户目录。")
}

/// The snapshot where there is no directory of session logs.
pub fn no_sessions_snapshot() -> (snapshot: QuotaSnapshot)
    ensures
        snapshot@ == missing_view("尚未找到 Codex 会话目录，请先运行一次 Codex 任务。"@),
{
    QuotaSnapshot::missing("尚未找到 Codex 会话目录，请先运行一次 Codex 任务。")
}

/// What the reading order of logs means for the logs themselves.
proof fn lemma_reading_order_of_logs(logs: Seq<(i128, usize)>, order: Seq<usize>)
    requires
        is_reading_order(times(logs), order),
    ensures
        order.len() == if logs.len() < 32 {
            logs.len()
        } else {
            32
        },
        numbers(logs, order).len() == order.len(),
        forall|a: int|
            0 <= a < order.len() ==> (#[trigger] order[a]) < logs.len() && numbers(logs, order)[a]
                == logs[order[a] as int].1,
        forall|a: int, b: int|
            0 <= a < b < order.len() ==> {
                let earlier = logs[#[trigger] order[a] as int];
                let later = logs[#[trigger] order[b] as int];
                earlier.0 > later.0 || (earlier.0 == later.0 && order[a] < order[b])
            },
        forall|a: int, j: usize|
            0 <= a < order.len() && j < logs.len() && !(#[trigger] order.contains(j)) ==> {
                let listed = logs[#[trigger] order[a] as int];
                listed.0 > logs[j as int].0 || (listed.0 == logs[j as int].0 && order[a] < j)
            },
{
    assert forall|a: int, b: int| 0 <= a < b < order.len() implies {
        let earlier = logs[#[trigger] order[a] as int];
        let later = logs[#[trigger] order[b] as int];
        earlier.0 > later.0 || (earlier.0 == later.0 && order[a] < order[b])
    } by {
        assert(reads_before(times(logs), order[a] as int, order[b] as int));
    }
    assert forall|a: int, j: usize|
        0 <= a < order.len() && j < logs.len() && !(#[trigger] order.contains(j)) implies {
        let listed = logs[#[trigger] order[a] as int];
        listed.0 > logs[j as int].0 || (listed.0 == logs[j as int].0 && order[a] < j)
    } by {
        assert(reads_before(times(logs), order[a] as int, j as int));
    }
}

/// The newer of two logs is read first: where the older one is read at all, so is the newer one,
/// before it.
pub proof fn law_newer_log_is_read_first(
    logs: Seq<(i128, usize)>,
    order: Seq<usize>,
    newer: usize,
    older: usize,
)
    requires
        is_reading_order(times(logs), order),
        newer < logs.len(),
        older < logs.len(),
        logs[newer as int].0 > logs[older as int].0,
        order.contains(older),
    ensures
        exists|a: int, b: int|
            {
                &&& 0 <= a < b < order.len()
                &&& #[trigger] order[a] == newer
                &&& #[trigger] order[b] == older
                &&& numbers(logs, order)[a] == logs[newer as int].1
                &&& numbers(logs, order)[b] == logs[older as int].1
            },
{
    lemma_reading_order_of_logs(logs, order);
    let b: int = choose|b: int| 0 <= b < order.len() && order[b] == older;
    if !order.contains(newer) {
        assert(order[b] == older);
        assert(false);
    }
    let a: int = choose|a: int| 0 <= a < order.len() && order[a] == newer;
    if a > b {
        assert(order[b] < logs.len() && order[a] < logs.len());
        assert(false);
    }
    assert(order[a] == newer && order[b] == older);
}

/// No log is read twice, of two that are equally old the one met first is read first, and as many
/// are read as there are, up to thirty-two.
pub proof fn law_logs_are_read_once(
    logs: Seq<(i128, usize)>,
    order: Seq<usize>,
    a: int,
    b: int,
)
    requires
        is_reading_order(times(logs), order),
    ensures
        order.len() == if logs.len() < 32 {
            logs.len()
        } else {
            32
        },
        0 <= a < b < order.len() ==> order[a] != order[b],
        0 <= a < b < order.len() && logs[order[a] as int].0 == logs[order[b] as int].0 ==> order[a]
            < order[b],
{
    lemma_reading_order_of_logs(logs, order);
}

/// A scan ends with a snapshot once a log holds one; otherwise it goes on to the next log, and after
/// the last it says that there is no event.
pub proof fn law_scan_goes_on_until_a_snapshot(
    ids: Seq<usize>,
    asked: int,
    snapshot: SnapshotView,
)
    requires
        0 <= asked <= ids.len(),
    ensures
        next_step(ids, asked, Some(snapshot)) == StepView::Done(snapshot),
        asked < ids.len() ==> next_step(ids, asked, None) == StepView::Read(ids[asked]),
        asked == ids.len() ==> next_step(ids, asked, None) == StepView::Done(
            missing_view("会话日志中尚无额度事件，请在 Codex 中运行一次任务后刷新。"@),
        ),
{
}

/// A scan gives the snapshot of the newest log that holds one, where that is among those that
/// are read: what older logs hold makes no difference.
pub proof fn law_scan_finds_newest(
    logs: Seq<(i128, usize)>,
    order: Seq<usize>,
    held: spec_fn(usize) -> Option<SnapshotView>,
    newest: usize,
)
    requires
        is_reading_order(times(logs), order),
        order.contains(newest),
        held(logs[newest as int].1) is Some,
        forall|j: int|
            0 <= j < logs.len() && j != newest && held((#[trigger] logs[j]).1) is Some
                ==> reads_before(times(logs), newest as int, j),
    ensures
        scan_result(numbers(logs, order), held, 0, None) == held(logs[newest as int].1)->0,
{
    let k: int = choose|k: int| 0 <= k < order.len() && order[k] == newest;
    lemma_scan_reaches(logs, order, held, newest, k, 0);
}

/// A scan passes over the logs before the place `k`, which hold nothing, and ends there.
proof fn lemma_scan_reaches(
    logs: Seq<(i128, usize)>,
    order: Seq<usize>,
    held: spec_fn(usize) -> Option<SnapshotView>,
    newest: usize,
    k: int,
    i: int,
)
    requires
        is_reading_order(times(logs), order),
        0 <= i <= k < order.len(),
        order[k] == newest,
        held(logs[newest as int].1) is Some,
        forall|j: int|
            0 <= j < logs.len() && j != newest && held((#[trigger] logs[j]).1) is Some
                ==> reads_before(times(logs), newest as int, j),
    ensures
        scan_result(numbers(logs, order), held, i, None) == held(logs[newest as int].1)->0,
    decreases k - i,
{
    let ids: Seq<usize> = numbers(logs, order);
    assert(ids[i] == logs[order[i] as int].1);
    assert(order[i] < logs.len());
    if i < k {
        assert(reads_before(times(logs), order[i] as int, order[k] as int));
        assert(held(logs[order[i] as int].1) is None);
        lemma_scan_reaches(logs, order, held, newest, k, i + 1);
    } else {
        let snapshot: Option<SnapshotView> = held(ids[i]);
        assert(scan_result(ids, held, i + 1, snapshot) == snapshot->0);
    }
}

/// Where none of the logs that are read holds a snapshot, a scan says so.
pub proof fn law_scan_without_events(ids: Seq<usize>, held: spec_fn(usize) -> Option<SnapshotView>)
    requires
        forall|i: int| 0 <= i < ids.len() ==> held(#[trigger] ids[i]) is None,
    ensures
        scan_result(ids, held, 0, None) == missing_view(no_event_message()),
{
    lemma_scan_without_events(ids, held, 0);
}

/// A scan of logs that hold nothing goes on to the end.
proof fn lemma_scan_without_events(
    ids: Seq<usize>,
    held: spec_fn(usize) -> Option<SnapshotView>,
    asked: int,
)
    requires
        0 <= asked <= ids.len(),
        forall|i: int| 0 <= i < ids.len() ==> held(#[trigger] ids[i]) is None,
    ensures
        scan_result(ids, held, asked, None) == missing_view(no_event_message()),
    decreases ids.len() - asked,
{
    if asked < ids.len() {
        assert(held(ids[asked]) is None);
        lemma_scan_without_events(ids, held, asked + 1);
    }
}

/// The place in a log of this length from which on it is read.
pub fn tail_start(length: u64) -> (start: u64)
    ensures
        length <= MAX_TAIL_BYTES ==> start == 0,
        length > MAX_TAIL_BYTES ==> start == length - MAX_TAIL_BYTES,
        start <= length,
        length - start <= 2 * 1024 * 1024,
        start > 0 ==> length - start == 2 * 1024 * 1024,
{
    if length > MAX_TAIL_BYTES {
        length - MAX_TAIL_BYTES
    } else {
        0
    }
}

/// The place after the first newline, from `from` on.
pub open spec fn after_newline(bytes: Seq<u8>, from: int) -> Option<int>
    decreases bytes.len() - from,
{
    if from >= bytes.len() {
        None
    } else if bytes[from] == 10 {
        Some(from + 1)
    } else {
        after_newline(bytes, from + 1)
    }
}

/// The whole lines at the end of a log, given its last bytes: where they are cut off from what
/// comes before, the first line is left out.
pub open spec fn whole_lines(bytes: Seq<u8>, cut_off: bool) -> Option<Seq<u8>> {
    if cut_off {
        match after_newline(bytes, 0) {
            Some(start) => Some(bytes.skip(start)),
            None => None,
        }
    } else {
        Some(bytes)
    }
}

/// What is read of the end of a log starts at a line, right after a newline of the log, and
/// where the log encodes text, so does what is read of it.
pub proof fn law_tail_starts_at_a_line(log: Seq<u8>, start: int)
    requires
        0 <= start <= log.len(),
    ensures
        whole_lines(log.skip(start), true) matches Some(kept) ==> {
            &&& exists|at: int|
                start < at <= log.len() && #[trigger] log[at - 1] == 10 && kept == log.skip(at)
            &&& valid_utf8(log) ==> valid_utf8(kept)
        },
{
    let tail: Seq<u8> = log.skip(start);
    if after_newline(tail, 0) is Some {
        let n: int = after_newline(tail, 0)->0;
        let at: int = start + n;
        lemma_after_newline(tail, 0);
        assert(tail[n - 1] == log[at - 1]);
        assert(tail.skip(n) == log.skip(at));
        if valid_utf8(log) {
            is_char_boundary_iff_not_is_continuation_byte(log, at - 1);
            valid_utf8_split(log, at - 1);
            let line: Seq<u8> = log.subrange(at - 1, log.len() as int);
            assert(valid_utf8(line));
            assert(line[0] == 10);
            assert(line.subrange(1, line.len() as int) == log.skip(at));
        }
    }
}

/// The place after a newline is right after one.
proof fn lemma_after_newline(bytes: Seq<u8>, from: int)
    requires
        0 <= from,
    ensures
        after_newline(bytes, from) matches Some(at) ==> from < at <= bytes.len() && bytes[at - 1]
            == 10,
    decreases bytes.len() - from,
{
    if from < bytes.len() && bytes[from] != 10 {
        lemma_after_newline(bytes, from + 1);
    }
}

/// The snapshot of the last of these lines that states one.
pub open spec fn last_view(lines: Seq<Seq<char>>) -> Option<SnapshotView>
    decreases lines.len(),
{
    if lines.len() == 0 {
        None
    } else {
        match line_view(lines.last()) {
            Some(snapshot) => Some(snapshot),
            None => last_view(lines.drop_last()),
        }
    }
}

/// The text that `String::from_utf8_lossy` makes of bytes.
pub uninterp spec fn lossy_text(bytes: Seq<u8>) -> Seq<char>;

/// `String::from_utf8_lossy`: the text that the bytes encode, and for bytes that encode none
/// one with replacement characters.
#[verifier::external_body]
fn text_from_utf8(bytes: &[u8]) -> (text: String)
    ensures
        text@ == lossy_text(bytes@),
        valid_utf8(bytes@) ==> text@ == decode_utf8(bytes@),
{
    String::from_utf8_lossy(bytes).into_owned()
}

/// The snapshot that the last bytes of a log state.
pub open spec fn tail_view(bytes: Seq<u8>, cut_off: bool) -> Option<SnapshotView> {
    match whole_lines(bytes, cut_off) {
        Some(kept) => last_view(lines_of(lossy_text(kept))),
        None => None,
    }
}

/// The snapshot of the last line of a text that states one.
pub fn text_snapshot(text: &str) -> (snapshot: Option<QuotaSnapshot>)
    ensures
        view_of(snapshot) == last_view(lines_of(text@)),
{
    let lines: Vec<String> = split_lines(text);
    let ghost all: Seq<Seq<char>> = texts(lines@);
    let mut n: usize = lines.len();
    assert(all.take(n as int) == all);
    while n > 0
        invariant
            n <= lines@.len(),
            all == texts(lines@),
            all == lines_of(text@),
            last_view(all) == last_view(all.take(n as int)),
        decreases n,
    {
        let ghost shown: Seq<Seq<char>> = all.take(n as int);
        assert(shown.last() == lines@[n - 1]@);
        assert(shown.drop_last() == all.take(n - 1));
        if let Some(snapshot) = parse_event_line(lines[n - 1].as_str()) {
            return Some(snapshot);
        }
        n = n - 1;
    }
    None
}

/// The snapshot that the last bytes of a log state; `cut_off` where the log starts before
/// them. Of lines that encode text it is the one of the last line that states any.
pub fn snapshot_from_tail(bytes: &[u8], cut_off: bool) -> (snapshot: Option<QuotaSnapshot>)
    ensures
        view_of(snapshot) == tail_view(bytes@, cut_off),
        whole_lines(bytes@, cut_off) matches Some(kept) ==> (valid_utf8(kept) ==> view_of(snapshot)
            == last_view(lines_of(decode_utf8(kept)))),
{
    let mut start: usize = 0;
    if cut_off {
        let mut i: usize = 0;
        while i < bytes.len() && bytes[i] != 10
            invariant
                i <= bytes@.len(),
                after_newline(bytes@, 0) == after_newline(bytes@, i as int),
            decreases bytes@.len() - i,
        {
            i = i + 1;
        }
        if i == bytes.len() {
            return None;
        }
        start = i + 1;
    }
    let kept: &[u8] = vstd::slice::slice_subrange(bytes, start, bytes.len());
    assert(kept@ == bytes@.skip(start as int));
    assert(bytes@.skip(0) == bytes@);
    let text: String = text_from_utf8(kept);
    text_snapshot(text.as_str())
}

/// The last line of a log that states a snapshot decides: what stands before it, and lines
/// after it that state none, make no difference.
pub proof fn law_last_event_wins(
    before: Seq<Seq<char>>,
    line: Seq<char>,
    after: Seq<Seq<char>>,
)
    requires
        line_view(line) is Some,
        forall|i: int| 0 <= i < after.len() ==> line_view(#[trigger] after[i]) is None,
    ensures
        last_view(before + seq![line] + after) == line_view(line),
    decreases after.len(),
{
    let lines: Seq<Seq<char>> = before + seq![line] + after;
    if after.len() == 0 {
        assert(lines.last() == line);
    } else {
        assert(lines.last() == after[after.len() - 1]);
        assert(lines.drop_last() == before + seq![line] + after.drop_last());
        law_last_event_wins(before, line, after.drop_last());
    }
}

/// What is read of a log that is cut off starts after its first newline, wherever that is; without
/// one nothing is read. A log that is not cut off is read whole.
pub proof fn law_cut_line_is_left_out(line: Seq<u8>, rest: Seq<u8>)
    requires
        !line.contains(10u8),
    ensures
        whole_lines(line + seq![10u8] + rest, true) == Some(rest),
        whole_lines(line, true) is None,
        whole_lines(line, false) == Some(line),
        whole_lines(line + seq![10u8] + rest, false) == Some(line + seq![10u8] + rest),
{
    let whole: Seq<u8> = line + seq![10u8] + rest;
    let n: int = line.len() as int;
    assert forall|i: int| 0 <= i < n implies line[i] != 10 by {
        assert(line.contains(line[i]));
    }
    lemma_newline_at(line, 0, n);
    assert forall|i: int| 0 <= i < n implies whole[i] != 10 by {
        assert(whole[i] == line[i]);
    }
    assert(whole[n] == 10);
    lemma_newline_at(whole, 0, n);
    assert(whole.skip(n + 1) == rest);
}

/// A search for a newline ends at the first.
proof fn lemma_newline_at(bytes: Seq<u8>, from: int, place: int)
    requires
        0 <= from <= place <= bytes.len(),
        forall|i: int| from <= i < place ==> bytes[i] != 10,
        place == bytes.len() || bytes[place] == 10,
    ensures
        place < bytes.len() ==> after_newline(bytes, from) == Some(place + 1),
        place == bytes.len() ==> after_newline(bytes, from) is None,
    decreases place - from,
{
    if from < place {
        lemma_newline_at(bytes, from + 1, place);
    }
}

/// Of the lines of a log the last decides where it states a snapshot, and otherwise those before it
/// do; without lines there is no snapshot.
pub proof fn law_lines_are_read_backwards(lines: Seq<Seq<char>>, line: Seq<char>)
    ensures
        line_view(line) is Some ==> last_view(lines.push(line)) == line_view(line),
        line_view(line) is None ==> last_view(lines.push(line)) == last_view(lines),
        last_view(Seq::empty()) is None,
{
    assert(lines.push(line).drop_last() == lines);
}

/// The end of a log states what the whole lines of it state.
pub proof fn law_tail_states_its_whole_lines(bytes: Seq<u8>, cut_off: bool)
    ensures
        whole_lines(bytes, cut_off) matches Some(kept) ==> tail_view(bytes, cut_off) == last_view(
            lines_of(lossy_text(kept)),
        ),
        whole_lines(bytes, cut_off) is None ==> tail_view(bytes, cut_off) is None,
{
}

/// With the data directory named, the data is directly below it; otherwise it is in the directory
/// `.codex` below the user's own; with neither known there is none.
pub proof fn law_data_is_below_the_named_directory(
    location: Option<Location>,
    codex_home: bool,
    user_profile: bool,
    leaf: Seq<char>,
)
    requires
        located(location, codex_home, user_profile, leaf),
    ensures
        codex_home ==> location is Some && location->0.base == HomeVariable::CodexHome
            && location->0.components@.len() == 1 && location->0.components@[0]@ == leaf,
        !codex_home && user_profile ==> location is Some && location->0.base
            == HomeVariable::UserProfile && location->0.components@.len() == 2
            && location->0.components@[0]@ == ".codex"@ && location->0.components@[1]@ == leaf,
        !codex_home && !user_profile ==> location is None,
{
    if let Some(place) = location {
        let listed: Seq<Seq<char>> = names(place.components@);
        assert(listed.len() == place.components@.len());
        assert(listed[0] == place.components@[0]@);
        if !codex_home {
            assert(listed[1] == place.components@[1]@);
        }
    }
}

} // verus!
