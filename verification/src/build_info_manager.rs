//! The notification lifecycle core: an index from (monitor name, revision)
//! to the state of a previously posted Slack message, the post-or-update
//! decision taken against it, and the throttled eviction of stale entries.

use vstd::prelude::*;

use crate::gocd::{spec_resolve_revision, HistoryRecord, LookupError};
use crate::slack::{pass_fail_str, PassFail};
use crate::text::{is_prefix_of, starts_with, str_eq};

verus! {

/// How long an entry may go without an update before a sweep removes it.
pub const STALE_AFTER_SECONDS: i64 = 14400;

/// How long after one sweep the next may run.
pub const SWEEP_INTERVAL_SECONDS: i64 = 86400;

/// The interface through which extracted build events are handed on.
pub trait AcceptBuildInfo {
    /// Accepts one extracted build event.
    fn new_build_message(
        &self,
        stage_name: &str,
        build_num: u64,
        build_step: &str,
        pass_fail: &str,
    );
}

/// One tracked pipeline family: its name, the stage-name prefix that
/// selects it, and the channel its notifications go to.
pub struct BuildInfoMonitor {
    pub name: String,
    pub filter_prefix: String,
    pub post_channel: String,
}

/// The key of one build's notification thread: the monitor it falls under
/// and the stable source-control revision of the build.
pub struct BuildInfoIndex {
    pub monitor_name: String,
    pub git_index: u64,
}

impl View for BuildInfoIndex {
    type V = (Seq<char>, u64);

    open spec fn view(&self) -> (Seq<char>, u64) {
        (self.monitor_name@, self.git_index)
    }
}

impl Clone for BuildInfoIndex {
    fn clone(&self) -> (r: Self)
        ensures
            r == *self,
    {
        BuildInfoIndex { monitor_name: self.monitor_name.clone(), git_index: self.git_index }
    }
}

impl BuildInfoIndex {
    fn key_eq(&self, other: &BuildInfoIndex) -> (r: bool)
        ensures
            r == (self@ == other@),
    {
        self.git_index == other.git_index && str_eq(
            self.monitor_name.as_str(),
            other.monitor_name.as_str(),
        )
    }
}

/// The record of one previously posted notification message: whether the
/// last reported outcome was a failure, the handle of the posted message,
/// and when the entry was last updated.
pub struct BuildInfoEntry {
    pub failed: bool,
    pub slack_timestamp: String,
    pub last_update_time: i64,
}

impl View for BuildInfoEntry {
    type V = (bool, Seq<char>, int);

    open spec fn view(&self) -> (bool, Seq<char>, int) {
        (self.failed, self.slack_timestamp@, self.last_update_time as int)
    }
}

impl Clone for BuildInfoEntry {
    fn clone(&self) -> (r: Self)
        ensures
            r == *self,
    {
        BuildInfoEntry {
            failed: self.failed,
            slack_timestamp: self.slack_timestamp.clone(),
            last_update_time: self.last_update_time,
        }
    }
}

/// Whether an entry last updated at `t` is still fresh at `now`.
pub open spec fn entry_fresh(e: BuildInfoEntry, now: i64) -> bool {
    (now as int) - (e.last_update_time as int) < (STALE_AFTER_SECONDS as int)
}

/// The predicate a sweep at `now` keeps entries by.
pub open spec fn fresh_pred(now: i64) -> spec_fn((BuildInfoIndex, BuildInfoEntry)) -> bool {
    |p: (BuildInfoIndex, BuildInfoEntry)| entry_fresh(p.1, now)
}

/// Whether a sweep is due at `now`, one interval after the last one.
pub open spec fn sweep_due(last_sweep: int, now: i64) -> bool {
    (now as int) - last_sweep >= (SWEEP_INTERVAL_SECONDS as int)
}

/// No two entries of the sequence share a key.
pub open spec fn keys_unique(s: Seq<(BuildInfoIndex, BuildInfoEntry)>) -> bool {
    forall|i: int, j: int| 0 <= i < j < s.len() ==> s[i].0@ != s[j].0@
}

/// Every entry's update time is a nonnegative unix time.
pub open spec fn times_ok(s: Seq<(BuildInfoIndex, BuildInfoEntry)>) -> bool {
    forall|i: int| 0 <= i < s.len() ==> #[trigger] s[i].1.last_update_time >= 0
}

/// The mapping an entry sequence holds, later entries shadowing earlier
/// ones (with unique keys, there is no shadowing).
pub open spec fn entries_map(s: Seq<(BuildInfoIndex, BuildInfoEntry)>) -> Map<
    (Seq<char>, u64),
    (bool, Seq<char>, int),
>
    decreases s.len(),
{
    if s.len() == 0 {
        Map::empty()
    } else {
        entries_map(s.drop_last()).insert(s.last().0@, s.last().1@)
    }
}

proof fn lemma_entries_map_contains(s: Seq<(BuildInfoIndex, BuildInfoEntry)>, k: (Seq<char>, u64))
    ensures
        entries_map(s).contains_key(k) <==> (exists|i: int| 0 <= i < s.len() && s[i].0@ == k),
    decreases s.len(),
{
    if s.len() > 0 {
        let dl = s.drop_last();
        lemma_entries_map_contains(dl, k);
        if entries_map(s).contains_key(k) {
            if k == s.last().0@ {
                assert(s[s.len() - 1].0@ == k);
            } else {
                let i = choose|i: int| 0 <= i < dl.len() && dl[i].0@ == k;
                assert(s[i].0@ == k);
            }
        }
        if exists|i: int| 0 <= i < s.len() && s[i].0@ == k {
            let i = choose|i: int| 0 <= i < s.len() && s[i].0@ == k;
            if i < s.len() - 1 {
                assert(dl[i].0@ == k);
            }
        }
    }
}

proof fn lemma_keys_unique_drop_last(s: Seq<(BuildInfoIndex, BuildInfoEntry)>)
    requires
        keys_unique(s),
        s.len() > 0,
    ensures
        keys_unique(s.drop_last()),
        !entries_map(s.drop_last()).contains_key(s.last().0@),
{
    let dl = s.drop_last();
    assert forall|i: int, j: int| 0 <= i < j < dl.len() implies dl[i].0@ != dl[j].0@ by {
        assert(s[i].0@ != s[j].0@);
    }
    lemma_entries_map_contains(dl, s.last().0@);
    if entries_map(dl).contains_key(s.last().0@) {
        let i = choose|i: int| 0 <= i < dl.len() && dl[i].0@ == s.last().0@;
        assert(s[i].0@ == s[s.len() - 1].0@);
        assert(false);
    }
}

proof fn lemma_entries_map_value(s: Seq<(BuildInfoIndex, BuildInfoEntry)>, i: int)
    requires
        keys_unique(s),
        0 <= i < s.len(),
    ensures
        entries_map(s).contains_key(s[i].0@),
        entries_map(s)[s[i].0@] == s[i].1@,
    decreases s.len(),
{
    let dl = s.drop_last();
    lemma_keys_unique_drop_last(s);
    if i < s.len() - 1 {
        lemma_entries_map_value(dl, i);
        assert(s[i].0@ != s.last().0@);
        assert(dl[i] == s[i]);
    }
}

proof fn lemma_entries_map_push(
    s: Seq<(BuildInfoIndex, BuildInfoEntry)>,
    p: (BuildInfoIndex, BuildInfoEntry),
)
    ensures
        entries_map(s.push(p)) == entries_map(s).insert(p.0@, p.1@),
{
    assert(s.push(p).drop_last() =~= s);
    assert(s.push(p).last() == p);
}

proof fn lemma_entries_map_remove(s: Seq<(BuildInfoIndex, BuildInfoEntry)>, i: int)
    requires
        keys_unique(s),
        0 <= i < s.len(),
    ensures
        keys_unique(s.remove(i)),
        times_ok(s) ==> times_ok(s.remove(i)),
        entries_map(s.remove(i)) == entries_map(s).remove(s[i].0@),
    decreases s.len(),
{
    let k = s[i].0@;
    let t = s.remove(i);
    assert forall|a: int, b: int| 0 <= a < b < t.len() implies t[a].0@ != t[b].0@ by {
        let a2 = if a < i { a } else { a + 1 };
        let b2 = if b < i { b } else { b + 1 };
        assert(t[a] == s[a2] && t[b] == s[b2]);
        assert(s[a2].0@ != s[b2].0@);
    }
    if times_ok(s) {
        assert forall|a: int| 0 <= a < t.len() implies #[trigger] t[a].1.last_update_time >= 0 by {
            let a2 = if a < i { a } else { a + 1 };
            assert(t[a] == s[a2]);
            assert(s[a2].1.last_update_time >= 0);
        }
    }
    let dl = s.drop_last();
    lemma_keys_unique_drop_last(s);
    if i == s.len() - 1 {
        assert(t =~= dl);
        assert(entries_map(s) == entries_map(dl).insert(k, s.last().1@));
        assert(entries_map(s).remove(k) =~= entries_map(dl)) by {
            lemma_entries_map_contains(dl, k);
        }
    } else {
        assert(t.drop_last() =~= dl.remove(i));
        assert(t.last() == s.last());
        lemma_entries_map_remove(dl, i);
        assert(entries_map(t) == entries_map(dl).remove(k).insert(s.last().0@, s.last().1@));
        assert(k != s.last().0@) by {
            assert(s[i].0@ != s[s.len() - 1].0@);
        }
        assert(entries_map(dl).remove(k).insert(s.last().0@, s.last().1@) =~= entries_map(
            dl,
        ).insert(s.last().0@, s.last().1@).remove(k));
        assert(entries_map(s).remove(k) == entries_map(dl).insert(
            s.last().0@,
            s.last().1@,
        ).remove(k));
    }
}

proof fn lemma_entries_map_len(s: Seq<(BuildInfoIndex, BuildInfoEntry)>)
    requires
        keys_unique(s),
    ensures
        entries_map(s).dom().finite(),
        entries_map(s).dom().len() == s.len(),
    decreases s.len(),
{
    if s.len() > 0 {
        let dl = s.drop_last();
        lemma_keys_unique_drop_last(s);
        lemma_entries_map_len(dl);
        assert(entries_map(s).dom() =~= entries_map(dl).dom().insert(s.last().0@));
    }
}

/// A sweep keeps exactly the fresh entries, with their values unchanged.
proof fn lemma_entries_map_filter(s: Seq<(BuildInfoIndex, BuildInfoEntry)>, now: i64)
    requires
        keys_unique(s),
    ensures
        keys_unique(s.filter(fresh_pred(now))),
        times_ok(s) ==> times_ok(s.filter(fresh_pred(now))),
        forall|k: (Seq<char>, u64)|
            entries_map(s.filter(fresh_pred(now))).contains_key(k) <==> (entries_map(
                s,
            ).contains_key(k) && now as int - entries_map(s)[k].2 < (STALE_AFTER_SECONDS as int)),
        forall|k: (Seq<char>, u64)|
            entries_map(s.filter(fresh_pred(now))).contains_key(k)
                ==> #[trigger] entries_map(s.filter(fresh_pred(now)))[k] == entries_map(s)[k],
    decreases s.len(),
{
    reveal(Seq::filter);
    let f = s.filter(fresh_pred(now));
    if s.len() > 0 {
        let dl = s.drop_last();
        lemma_keys_unique_drop_last(s);
        lemma_entries_map_filter(dl, now);
        let fdl = dl.filter(fresh_pred(now));
        if fresh_pred(now)(s.last()) {
            assert(f == fdl.push(s.last()));
            lemma_entries_map_push(fdl, s.last());
            assert forall|a: int, b: int| 0 <= a < b < f.len() implies f[a].0@ != f[b].0@ by {
                if b < f.len() - 1 {
                    assert(fdl[a].0@ != fdl[b].0@);
                } else {
                    assert(f[a] == fdl[a]);
                    lemma_entries_map_contains(fdl, fdl[a].0@);
                    assert(entries_map(fdl).contains_key(fdl[a].0@));
                    assert(!entries_map(dl).contains_key(s.last().0@));
                }
            }
            if times_ok(s) {
                assert(times_ok(dl));
                assert forall|a: int| 0 <= a < f.len() implies #[trigger] f[a].1.last_update_time
                    >= 0 by {
                    if a < f.len() - 1 {
                        assert(fdl[a].1.last_update_time >= 0);
                    } else {
                        assert(f[a] == s.last());
                        assert(s[s.len() - 1].1.last_update_time >= 0);
                    }
                }
            }
        } else {
            assert(f == fdl);
            assert(!entry_fresh(s.last().1, now));
            if times_ok(s) {
                assert(times_ok(dl));
            }
        }
    }
}

/// What a notification decision needs once the event is resolved: the
/// dedup key, the message text, and the destination channel.
pub struct PreparedNotification {
    pub index: BuildInfoIndex,
    pub message_text: String,
    pub channel: String,
}

/// Why an event yields no notification at all.
#[derive(Debug)]
pub enum NotificationSkip {
    /// No monitor's prefix matches the stage name.
    NoMonitor,
    /// The build's revision could not be resolved.
    Lookup(LookupError),
}

/// The message either posted or updated for one build event.
pub enum MessageAction {
    /// Post a new message to the channel.
    Post { channel: String, text: String },
    /// Update the previously posted message, addressed by its handle.
    Update { ts: String, channel: String, text: String },
}

/// The message text composed for a build event.
pub open spec fn build_message_text(
    monitor_name: Seq<char>,
    build_step: Seq<char>,
    stage_name: Seq<char>,
    pass_fail: Seq<char>,
) -> Seq<char> {
    "GoCD Build for "@ + monitor_name + " has reached step "@ + build_step + " on "@ + stage_name
        + " and "@ + pass_fail
}

/// Composes the message text for a build event.
pub fn new_build_message_text(
    monitor_name: &str,
    build_step: &str,
    stage_name: &str,
    pass_fail: &str,
) -> (r: String)
    ensures
        r@ == build_message_text(monitor_name@, build_step@, stage_name@, pass_fail@),
{
    let mut s = String::from_str("GoCD Build for ");
    s.append(monitor_name);
    s.append(" has reached step ");
    s.append(build_step);
    s.append(" on ");
    s.append(stage_name);
    s.append(" and ");
    s.append(pass_fail);
    s
}

/// The first monitor, at or after `i`, whose prefix matches the stage name.
pub open spec fn find_monitor_at(
    monitors: Seq<BuildInfoMonitor>,
    stage_name: Seq<char>,
    i: int,
) -> Option<int>
    decreases monitors.len() - i,
{
    if i < 0 || i >= monitors.len() {
        None
    } else if is_prefix_of(monitors[i].filter_prefix@, stage_name) {
        Some(i)
    } else {
        find_monitor_at(monitors, stage_name, i + 1)
    }
}

/// The first monitor whose prefix matches the stage name.
pub open spec fn spec_find_monitor(monitors: Seq<BuildInfoMonitor>, stage_name: Seq<char>) -> Option<
    int,
> {
    find_monitor_at(monitors, stage_name, 0)
}

proof fn lemma_find_monitor_skip(
    monitors: Seq<BuildInfoMonitor>,
    stage_name: Seq<char>,
    from: int,
    i: int,
)
    requires
        0 <= from <= i <= monitors.len(),
        forall|j: int| from <= j < i ==> !is_prefix_of(#[trigger] monitors[j].filter_prefix@, stage_name),
    ensures
        find_monitor_at(monitors, stage_name, from) == find_monitor_at(monitors, stage_name, i),
    decreases i - from,
{
    if from < i {
        lemma_find_monitor_skip(monitors, stage_name, from + 1, i);
    }
}

/// The notification lifecycle manager: the index of previously posted
/// messages, the monitors, and the sweep clock.
pub struct BuildInfoManager {
    message_index: Vec<(BuildInfoIndex, BuildInfoEntry)>,
    /// The Slack credential the outbound messaging calls are made with.
    pub slack_instance_token: String,
    /// The GoCD credential the history lookups are made with.
    pub gocd_token: String,
    last_cleanout_time: i64,
    info_monitors: Vec<BuildInfoMonitor>,
}

impl BuildInfoManager {
    /// The notification index: one entry per (monitor name, revision) key.
    pub closed spec fn index_map(&self) -> Map<(Seq<char>, u64), (bool, Seq<char>, int)> {
        entries_map(self.message_index@)
    }

    /// The configured monitors, in the order they are matched.
    pub closed spec fn monitors(&self) -> Seq<BuildInfoMonitor> {
        self.info_monitors@
    }

    /// When the last eviction sweep ran.
    pub closed spec fn last_sweep_time(&self) -> int {
        self.last_cleanout_time as int
    }

    /// The Slack credential, as configured.
    pub closed spec fn spec_slack_token(&self) -> Seq<char> {
        self.slack_instance_token@
    }

    /// The GoCD credential, as configured.
    pub closed spec fn spec_gocd_token(&self) -> Seq<char> {
        self.gocd_token@
    }

    /// Well-formedness: keys unique, all times nonnegative.
    pub closed spec fn wf(&self) -> bool {
        keys_unique(self.message_index@) && times_ok(self.message_index@)
            && self.last_cleanout_time >= 0
    }

    /// A fresh manager: an empty index, the given monitors, and a sweep
    /// clock starting at `now`.
    pub fn new(
        slack_token: &str,
        gocd_token: &str,
        info_monitors: Vec<BuildInfoMonitor>,
        now: i64,
    ) -> (r: BuildInfoManager)
        requires
            now >= 0,
        ensures
            r.wf(),
            r.index_map() == Map::<(Seq<char>, u64), (bool, Seq<char>, int)>::empty(),
            r.monitors() == info_monitors@,
            r.last_sweep_time() == now as int,
            r.spec_slack_token() == slack_token@,
            r.spec_gocd_token() == gocd_token@,
    {
        BuildInfoManager {
            message_index: Vec::new(),
            slack_instance_token: String::from_str(slack_token),
            gocd_token: String::from_str(gocd_token),
            last_cleanout_time: now,
            info_monitors,
        }
    }

    /// The number of entries the index holds.
    pub fn entry_count(&self) -> (r: usize)
        requires
            self.wf(),
        ensures
            r == self.index_map().dom().len(),
    {
        proof {
            lemma_entries_map_len(self.message_index@);
        }
        self.message_index.len()
    }

    fn find_entry_pos(&self, key: &BuildInfoIndex) -> (r: Option<usize>)
        ensures
            match r {
                Some(i) => i < self.message_index@.len() && self.message_index@[i as int].0@
                    == key@,
                None => forall|j: int|
                    0 <= j < self.message_index@.len() ==> #[trigger] self.message_index@[j].0@
                        != key@,
            },
    {
        let n = self.message_index.len();
        let mut i: usize = 0;
        while i < n
            invariant
                0 <= i <= n == self.message_index@.len(),
                forall|j: int| 0 <= j < i ==> #[trigger] self.message_index@[j].0@ != key@,
            decreases n - i,
        {
            if self.message_index[i].0.key_eq(key) {
                return Some(i);
            }
            i = i + 1;
        }
        None
    }

    /// Whether the index holds an entry for the key.
    pub fn contains_entry(&self, key: &BuildInfoIndex) -> (r: bool)
        requires
            self.wf(),
        ensures
            r == self.index_map().contains_key(key@),
    {
        proof {
            lemma_entries_map_contains(self.message_index@, key@);
        }
        match self.find_entry_pos(key) {
            Some(i) => {
                proof {
                    lemma_entries_map_value(self.message_index@, i as int);
                }
                true
            },
            None => false,
        }
    }

    /// The entry recorded for the key, where there is one.
    pub fn get_entry(&self, key: &BuildInfoIndex) -> (r: Option<&BuildInfoEntry>)
        requires
            self.wf(),
        ensures
            match r {
                Some(e) => self.index_map().contains_key(key@) && e@ == self.index_map()[key@],
                None => !self.index_map().contains_key(key@),
            },
    {
        proof {
            lemma_entries_map_contains(self.message_index@, key@);
        }
        match self.find_entry_pos(key) {
            Some(i) => {
                proof {
                    lemma_entries_map_value(self.message_index@, i as int);
                }
                Some(&self.message_index[i].1)
            },
            None => None,
        }
    }

    fn upsert_entry(&mut self, index: BuildInfoIndex, entry: BuildInfoEntry)
        requires
            old(self).wf(),
            entry.last_update_time >= 0,
        ensures
            final(self).wf(),
            final(self).index_map() == old(self).index_map().insert(index@, entry@),
            final(self).monitors() == old(self).monitors(),
            final(self).last_sweep_time() == old(self).last_sweep_time(),
            final(self).spec_slack_token() == old(self).spec_slack_token(),
            final(self).spec_gocd_token() == old(self).spec_gocd_token(),
    {
        let ghost s0 = self.message_index@;
        match self.find_entry_pos(&index) {
            Some(i) => {
                self.message_index.remove(i);
                proof {
                    lemma_entries_map_remove(s0, i as int);
                    lemma_entries_map_contains(s0.remove(i as int), index@);
                }
            },
            None => {
                proof {
                    lemma_entries_map_contains(s0, index@);
                }
            },
        }
        let ghost s1 = self.message_index@;
        proof {
            assert(!entries_map(s1).contains_key(index@));
            lemma_entries_map_contains(s1, index@);
            lemma_entries_map_push(s1, (index, entry));
        }
        self.message_index.push((index, entry));
        proof {
            assert forall|a: int, b: int|
                0 <= a < b < self.message_index@.len() implies self.message_index@[a].0@
                != self.message_index@[b].0@ by {
                if b < self.message_index@.len() - 1 {
                    assert(s1[a].0@ != s1[b].0@);
                } else {
                    assert(self.message_index@[a] == s1[a]);
                }
            }
            assert forall|a: int|
                0 <= a < self.message_index@.len() implies #[trigger] self.message_index@[a].1.last_update_time
                >= 0 by {
                if a < self.message_index@.len() - 1 {
                    assert(s1[a].1.last_update_time >= 0);
                }
            }
            assert(entries_map(self.message_index@) =~= entries_map(s0).insert(index@, entry@));
        }
    }

    /// The first configured monitor whose prefix matches the stage name.
    pub fn find_monitor(&self, stage_name: &str) -> (r: Option<&BuildInfoMonitor>)
        ensures
            match (r, spec_find_monitor(self.monitors(), stage_name@)) {
                (Some(m), Some(i)) => 0 <= i < self.monitors().len() && *m == self.monitors()[i],
                (None, None) => true,
                _ => false,
            },
    {
        let n = self.info_monitors.len();
        let mut i: usize = 0;
        while i < n
            invariant
                0 <= i <= n == self.info_monitors@.len(),
                forall|j: int|
                    0 <= j < i ==> !is_prefix_of(
                        #[trigger] self.info_monitors@[j].filter_prefix@,
                        stage_name@,
                    ),
            decreases n - i,
        {
            let m = &self.info_monitors[i];
            if starts_with(stage_name, m.filter_prefix.as_str()) {
                proof {
                    lemma_find_monitor_skip(self.info_monitors@, stage_name@, 0, i as int);
                }
                return Some(m);
            }
            i = i + 1;
        }
        proof {
            lemma_find_monitor_skip(self.info_monitors@, stage_name@, 0, n as int);
        }
        None
    }

    /// Resolves one build event against fetched history records: the
    /// monitor it falls under, the dedup key from that monitor's name and
    /// the build's revision, the composed message text, and the monitor's
    /// channel. An event under no monitor, or whose revision cannot be
    /// resolved, yields no notification.
    pub fn prepare_notification(
        &self,
        stage_name: &str,
        build_num: u64,
        build_step: &str,
        pass_fail: PassFail,
        records: &Vec<HistoryRecord>,
    ) -> (r: Result<PreparedNotification, NotificationSkip>)
        ensures
            match spec_find_monitor(self.monitors(), stage_name@) {
                None => r == Err::<PreparedNotification, NotificationSkip>(
                    NotificationSkip::NoMonitor,
                ),
                Some(mi) => match spec_resolve_revision(records@, build_num) {
                    Err(e) => r == Err::<PreparedNotification, NotificationSkip>(
                        NotificationSkip::Lookup(e),
                    ),
                    Ok(item) => r matches Ok(p) && p.index@ == (
                        self.monitors()[mi].name@,
                        item.id,
                    ) && p.channel@ == self.monitors()[mi].post_channel@ && p.message_text@
                        == build_message_text(
                        self.monitors()[mi].name@,
                        build_step@,
                        stage_name@,
                        pass_fail_str(pass_fail),
                    ),
                },
            },
    {
        let monitor = match self.find_monitor(stage_name) {
            Some(m) => m,
            None => {
                return Err(NotificationSkip::NoMonitor);
            },
        };
        let item = match crate::gocd::resolve_revision(records, build_num) {
            Ok(item) => item,
            Err(e) => {
                return Err(NotificationSkip::Lookup(e));
            },
        };
        let text = new_build_message_text(
            monitor.name.as_str(),
            build_step,
            stage_name,
            pass_fail.as_str(),
        );
        Ok(
            PreparedNotification {
                index: BuildInfoIndex { monitor_name: monitor.name.clone(), git_index: item.id },
                message_text: text,
                channel: monitor.post_channel.clone(),
            },
        )
    }

    /// Decides post-versus-update for a key: a key with no entry is posted
    /// anew to the channel; a key with an entry is updated in place,
    /// addressed at the recorded message handle.
    pub fn decide_message_action(
        &self,
        index: &BuildInfoIndex,
        message_text: &str,
        post_channel: &str,
    ) -> (r: MessageAction)
        requires
            self.wf(),
        ensures
            if self.index_map().contains_key(index@) {
                r matches MessageAction::Update { ts, channel, text } && ts@
                    == self.index_map()[index@].1 && channel@ == post_channel@ && text@
                    == message_text@
            } else {
                r matches MessageAction::Post { channel, text } && channel@ == post_channel@
                    && text@ == message_text@
            },
    {
        match self.get_entry(index) {
            Some(e) => MessageAction::Update {
                ts: e.slack_timestamp.clone(),
                channel: String::from_str(post_channel),
                text: String::from_str(message_text),
            },
            None => MessageAction::Post {
                channel: String::from_str(post_channel),
                text: String::from_str(message_text),
            },
        }
    }

    /// Records a successfully posted message: the key now maps to an entry
    /// holding the returned message handle, the reported outcome, and the
    /// current time. On a post failure nothing is recorded, so a later
    /// event retries the post.
    pub fn record_post_success(
        &mut self,
        index: BuildInfoIndex,
        failed: bool,
        slack_timestamp: String,
        now: i64,
    )
        requires
            old(self).wf(),
            now >= 0,
        ensures
            final(self).wf(),
            final(self).index_map() == old(self).index_map().insert(
                index@,
                (failed, slack_timestamp@, now as int),
            ),
            final(self).monitors() == old(self).monitors(),
            final(self).last_sweep_time() == old(self).last_sweep_time(),
            final(self).spec_slack_token() == old(self).spec_slack_token(),
            final(self).spec_gocd_token() == old(self).spec_gocd_token(),
    {
        let entry = BuildInfoEntry { failed, slack_timestamp, last_update_time: now };
        self.upsert_entry(index, entry);
    }

    /// Records a successful update of an existing message: the entry keeps
    /// its handle and takes the reported outcome and the current time. A
    /// key with no entry is left as it is, as is the whole index on an
    /// update failure, so a later event retries against the same handle.
    pub fn record_update_success(&mut self, index: &BuildInfoIndex, failed: bool, now: i64)
        requires
            old(self).wf(),
            now >= 0,
        ensures
            final(self).wf(),
            if old(self).index_map().contains_key(index@) {
                final(self).index_map() == old(self).index_map().insert(
                    index@,
                    (failed, old(self).index_map()[index@].1, now as int),
                )
            } else {
                final(self).index_map() == old(self).index_map()
            },
            final(self).monitors() == old(self).monitors(),
            final(self).last_sweep_time() == old(self).last_sweep_time(),
            final(self).spec_slack_token() == old(self).spec_slack_token(),
            final(self).spec_gocd_token() == old(self).spec_gocd_token(),
    {
        proof {
            lemma_entries_map_contains(self.message_index@, index@);
        }
        match self.find_entry_pos(index) {
            Some(i) => {
                proof {
                    lemma_entries_map_value(self.message_index@, i as int);
                }
                let ts = self.message_index[i].1.slack_timestamp.clone();
                let key = self.message_index[i].0.clone();
                let entry = BuildInfoEntry { failed, slack_timestamp: ts, last_update_time: now };
                self.upsert_entry(key, entry);
            },
            None => {},
        }
    }

    /// The throttled eviction sweep. Within one interval of the last sweep
    /// nothing changes. Otherwise every entry older than the staleness
    /// window goes, every fresh entry stays unchanged, and the sweep clock
    /// is set to `now`.
    pub fn clear_old_message_entries(&mut self, now: i64)
        requires
            old(self).wf(),
            now >= 0,
        ensures
            final(self).wf(),
            !sweep_due(old(self).last_sweep_time(), now) ==> *final(self) == *old(self),
            sweep_due(old(self).last_sweep_time(), now) ==> {
                &&& final(self).last_sweep_time() == now as int
                &&& forall|k: (Seq<char>, u64)|
                    final(self).index_map().contains_key(k) <==> (old(
                        self,
                    ).index_map().contains_key(k) && now as int - old(self).index_map()[k].2
                        < (STALE_AFTER_SECONDS as int))
                &&& forall|k: (Seq<char>, u64)|
                    final(self).index_map().contains_key(k)
                        ==> #[trigger] final(self).index_map()[k] == old(self).index_map()[k]
            },
            final(self).monitors() == old(self).monitors(),
            final(self).spec_slack_token() == old(self).spec_slack_token(),
            final(self).spec_gocd_token() == old(self).spec_gocd_token(),
    {
        if now - self.last_cleanout_time < SWEEP_INTERVAL_SECONDS {
            return ;
        }
        let ghost s = self.message_index@;
        proof {
            reveal(Seq::filter);
        }
        let n = self.message_index.len();
        let mut kept: Vec<(BuildInfoIndex, BuildInfoEntry)> = Vec::new();
        let mut i: usize = 0;
        proof {
            assert(s.subrange(0, 0) =~= Seq::<(BuildInfoIndex, BuildInfoEntry)>::empty());
        }
        while i < n
            invariant
                0 <= i <= n == s.len(),
                self.message_index@ == s,
                times_ok(s),
                now >= 0,
                kept@ == s.subrange(0, i as int).filter(fresh_pred(now)),
            decreases n - i,
        {
            let entry_time = self.message_index[i].1.last_update_time;
            proof {
                reveal(Seq::filter);
                assert(s[i as int].1.last_update_time >= 0);
                assert(s.subrange(0, i as int + 1).drop_last() =~= s.subrange(0, i as int));
                assert(s.subrange(0, i as int + 1).last() == s[i as int]);
            }
            if now - entry_time < STALE_AFTER_SECONDS {
                let pair = (self.message_index[i].0.clone(), self.message_index[i].1.clone());
                proof {
                    assert(pair == s[i as int]);
                    assert(fresh_pred(now)(s[i as int]));
                }
                kept.push(pair);
            } else {
                proof {
                    assert(!fresh_pred(now)(s[i as int]));
                }
            }
            i = i + 1;
        }
        proof {
            assert(s.subrange(0, n as int) =~= s);
            lemma_entries_map_filter(s, now);
        }
        self.message_index = kept;
        self.last_cleanout_time = now;
    }
}

/// One post per key, then updates: a key absent from the index is decided
/// as a post; once the post is recorded the key is present, so every later
/// event for it — a replay of the same payload included — is decided as an
/// update addressed at the recorded handle, and recording that update
/// keeps the key present with the handle unchanged.
pub proof fn lemma_one_post_then_updates(
    m: Map<(Seq<char>, u64), (bool, Seq<char>, int)>,
    k: (Seq<char>, u64),
    failed: bool,
    handle: Seq<char>,
    t: int,
    failed2: bool,
    t2: int,
)
    requires
        !m.contains_key(k),
    ensures
        ({
            let after_post = m.insert(k, (failed, handle, t));
            let after_update = after_post.insert(k, (failed2, after_post[k].1, t2));
            &&& after_post.contains_key(k)
            &&& after_post[k].1 == handle
            &&& after_update.contains_key(k)
            &&& after_update[k].1 == handle
        }),
{
}

} // verus!
