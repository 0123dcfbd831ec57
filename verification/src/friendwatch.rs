//! The watcher's state and its decisions: the watch queue, pruning friends
//! who left CS2, what one poll changes, when an alert opens, and what a join
//! or dismissal does. The program around it polls Steam, shows the window,
//! plays the sound and opens URIs, and hands the results back here.
use vstd::prelude::*;
use std::collections::HashMap;
use crate::text::{lower_of, to_lowercase, decimal, chars_of, string_of, push_str_chars, push_decimal, decimal_string};
use crate::watcher::{
    first_joinable, first_joinable_index, join_token_of, joinable_with, still_joinable_with, FriendPresence, JoinMethod, NotifyDebouncer, NotifyKey,
    PresenceView, WatchedFriendStatus, debounce_step, fresh_debounce,
};
use crate::steam::FriendInfo;

verus! {

broadcast use vstd::std_specs::hash::group_hash_axioms;

/// Colour family of a badge or label.
#[derive(Debug, Clone, Copy, PartialEq, Eq)]
pub enum Tone {
    Green,
    Amber,
    Muted,
    Red,
}

/// Badge text of a presence.
pub open spec fn badge_label(p: PresenceView) -> Seq<char> {
    match p {
        PresenceView::Joinable { .. } => "JOINABLE"@,
        PresenceView::InCs2Full => "IN GAME"@,
        PresenceView::OtherGame { .. } => "OTHER"@,
        PresenceView::OfflineOrUnknown => "AWAY"@,
    }
}

/// Badge colour of a presence.
pub open spec fn badge_tone(p: PresenceView) -> Tone {
    match p {
        PresenceView::Joinable { .. } => Tone::Green,
        PresenceView::InCs2Full => Tone::Amber,
        _ => Tone::Muted,
    }
}

/// The badge shown next to a friend.
pub fn presence_badge(p: &FriendPresence) -> (r: (&'static str, Tone))
    ensures
        r.0@ == badge_label(p@),
        r.1 == badge_tone(p@),
{
    match p {
        FriendPresence::Joinable { .. } => ("JOINABLE", Tone::Green),
        FriendPresence::InCs2Full => ("IN GAME", Tone::Amber),
        FriendPresence::OtherGame { .. } => ("OTHER", Tone::Muted),
        FriendPresence::OfflineOrUnknown => ("AWAY", Tone::Muted),
    }
}

/// Detail text of a presence when no rich-presence line is known.
pub open spec fn fallback_text(p: PresenceView) -> Seq<char> {
    match p {
        PresenceView::Joinable { .. } => "Spot available"@,
        PresenceView::InCs2Full => "In CS2 — no open spot"@,
        PresenceView::OtherGame { .. } => "Other game"@,
        PresenceView::OfflineOrUnknown => "Offline / unknown"@,
    }
}

pub fn presence_fallback(p: &FriendPresence) -> (r: &'static str)
    ensures
        r@ == fallback_text(p@),
{
    match p {
        FriendPresence::Joinable { .. } => "Spot available",
        FriendPresence::InCs2Full => "In CS2 — no open spot",
        FriendPresence::OtherGame { .. } => "Other game",
        FriendPresence::OfflineOrUnknown => "Offline / unknown",
    }
}

/// The label in the window's corner for the app id Steamworks runs as.
pub open spec fn app_label(app_id: Option<u32>) -> (Seq<char>, Tone) {
    match app_id {
        Some(id) => if id == 730 {
            ("APP 730"@, Tone::Green)
        } else if id == 480 {
            ("APP 480"@, Tone::Amber)
        } else {
            ("STEAM"@, Tone::Green)
        },
        None => ("NO STEAM"@, Tone::Red),
    }
}

pub fn app_badge(app_id: Option<u32>) -> (r: (&'static str, Tone))
    ensures
        (r.0@, r.1) == app_label(app_id),
{
    match app_id {
        Some(730) => ("APP 730", Tone::Green),
        Some(480) => ("APP 480", Tone::Amber),
        Some(_) => ("STEAM", Tone::Green),
        None => ("NO STEAM", Tone::Red),
    }
}

/// The status line after connecting to Steam (`session` is the app id
/// Steamworks runs as, or why it could not start).
pub open spec fn connection_text(session: Result<u32, Seq<char>>, friends_in_cs2: nat) -> Seq<char> {
    match session {
        Ok(id) => if id == 730 {
            "Connected as CS2 (730) — "@ + decimal(friends_in_cs2) + " friend(s) in-game."@
        } else if id == 480 {
            "Connected as Spacewar (480) — CS2 was already running. Rich presence may be limited. "@
                + decimal(friends_in_cs2) + " in CS2."@
        } else {
            "Connected (app "@ + decimal(id as nat) + ") — "@ + decimal(friends_in_cs2) + " in CS2."@
        },
        Err(e) => e,
    }
}

pub fn connection_status(session: &Result<u32, String>, friends_in_cs2: u64) -> (r: String)
    ensures
        r@ == connection_text(
            match session {
                Ok(id) => Ok(*id),
                Err(e) => Err(e@),
            },
            friends_in_cs2 as nat,
        ),
{
    let mut r = String::new();
    match session {
        Ok(id) => {
            if *id == 730 {
                push_str_chars(&mut r, "Connected as CS2 (730) — ");
                push_decimal(&mut r, friends_in_cs2);
                push_str_chars(&mut r, " friend(s) in-game.");
            } else if *id == 480 {
                push_str_chars(
                    &mut r,
                    "Connected as Spacewar (480) — CS2 was already running. Rich presence may be limited. ",
                );
                push_decimal(&mut r, friends_in_cs2);
                push_str_chars(&mut r, " in CS2.");
            } else {
                push_str_chars(&mut r, "Connected (app ");
                push_decimal(&mut r, *id as u64);
                push_str_chars(&mut r, ") — ");
                push_decimal(&mut r, friends_in_cs2);
                push_str_chars(&mut r, " in CS2.");
            }
        },
        Err(e) => {
            push_str_chars(&mut r, e.as_str());
        },
    }
    assert(r@ =~= connection_text(
        match session {
            Ok(id) => Ok(*id),
            Err(e) => Err(e@),
        },
        friends_in_cs2 as nat,
    ));
    r
}

/// A spot that is waiting for the user to join or dismiss it.
#[derive(Debug, Clone)]
pub struct PendingJoin {
    pub steam_id: u64,
    pub name: String,
    pub detail: String,
    pub method: JoinMethod,
}

/// The elements of `s` for which `keep` holds, in order.
pub open spec fn retained(s: Seq<u64>, keep: spec_fn(u64) -> bool) -> Seq<u64>
    decreases s.len(),
{
    if s.len() == 0 {
        Seq::empty()
    } else if keep(s.last()) {
        retained(s.drop_last(), keep).push(s.last())
    } else {
        retained(s.drop_last(), keep)
    }
}

/// Any id but `id`.
pub open spec fn not_id(id: u64) -> spec_fn(u64) -> bool {
    |x: u64| x != id
}

/// The watch queue after a friend's row is ticked (`checked`) or unticked.
pub open spec fn toggled(order: Seq<u64>, id: u64, checked: bool) -> Seq<u64> {
    if checked {
        if order.contains(id) {
            order
        } else {
            order.push(id)
        }
    } else {
        retained(order, not_id(id))
    }
}

/// Some status of friend `id` says they are away or in another game.
pub open spec fn status_gone(statuses: Seq<WatchedFriendStatus>, id: u64) -> bool {
    exists|k: int|
        0 <= k < statuses.len() && #[trigger] statuses[k].steam_id == id && (
        statuses[k].presence@ is OfflineOrUnknown || statuses[k].presence@ is OtherGame)
}

/// Some status of friend `id` says they are in CS2.
pub open spec fn status_in_cs2(statuses: Seq<WatchedFriendStatus>, id: u64) -> bool {
    exists|k: int|
        0 <= k < statuses.len() && #[trigger] statuses[k].steam_id == id && (
        statuses[k].presence@ is InCs2Full || statuses[k].presence@ is Joinable)
}

/// Friend `id` stays in the watch queue: no status says they left, and the
/// friend list or a status still shows them in CS2.
pub open spec fn stays_watched(statuses: Seq<WatchedFriendStatus>, in_cs2: Seq<u64>, id: u64) -> bool {
    !status_gone(statuses, id) && (in_cs2.contains(id) || status_in_cs2(statuses, id))
}

/// Which friends stay in the watch queue.
pub open spec fn stays_pred(statuses: Seq<WatchedFriendStatus>, in_cs2: Seq<u64>) -> spec_fn(u64) -> bool {
    |id: u64| stays_watched(statuses, in_cs2, id)
}

/// Status line once every watched friend has left CS2 while watching.
pub open spec fn queue_cleared_text() -> Seq<char> {
    "Watch queue cleared — no watched friends still in CS2."@
}

/// Status line when an alert opens.
pub open spec fn spot_text() -> Seq<char> {
    "Spot available — confirm join in the alert window."@
}

/// Status line when an open alert's spot is no longer joinable.
pub open spec fn spot_gone_text(watching: bool) -> Seq<char> {
    if watching {
        "Spot gone — still watching."@
    } else {
        "Spot gone."@
    }
}

/// What a poll did to the join alert.
#[derive(Debug, Clone, Copy, PartialEq, Eq)]
pub enum SpotChange {
    /// An alert opened: notify and play the sound.
    Opened,
    /// The open alert's spot is gone: the alert closed; stop the sound.
    Closed,
    /// Nothing changed.
    Unchanged,
}

/// Status line when watching starts.
pub open spec fn watching_text(n: nat) -> Seq<char> {
    "Watching "@ + decimal(n) + " friend(s) for an open spot…"@
}

/// Status line after a join.
pub open spec fn joined_text(name: Seq<char>) -> Seq<char> {
    "Joined via "@ + name + ". Watching stopped — click Start watching to look again."@
}

/// Name and detail caches and statuses after one poll's statuses are
/// taken in: each name is remembered, a non-empty detail is remembered, and
/// an empty detail is filled from what was remembered.
pub open spec fn merged(
    names: Map<u64, String>,
    details: Map<u64, String>,
    ss: Seq<WatchedFriendStatus>,
) -> (Map<u64, String>, Map<u64, String>, Seq<WatchedFriendStatus>)
    decreases ss.len(),
{
    if ss.len() == 0 {
        (names, details, Seq::empty())
    } else {
        let prev = merged(names, details, ss.drop_last());
        let s = ss.last();
        let n2 = prev.0.insert(s.steam_id, s.name);
        if s.detail@.len() > 0 {
            (n2, prev.1.insert(s.steam_id, s.detail), prev.2.push(s))
        } else if prev.1.contains_key(s.steam_id) {
            (
                n2,
                prev.1,
                prev.2.push(
                    WatchedFriendStatus {
                        steam_id: s.steam_id,
                        name: s.name,
                        presence: s.presence,
                        detail: prev.1[s.steam_id],
                        rich_debug: s.rich_debug,
                    },
                ),
            )
        } else {
            (n2, prev.1, prev.2.push(s))
        }
    }
}

/// Name and detail caches after the friend list is taken in.
pub open spec fn ingested(
    names: Map<u64, String>,
    details: Map<u64, String>,
    list: Seq<FriendInfo>,
) -> (Map<u64, String>, Map<u64, String>)
    decreases list.len(),
{
    if list.len() == 0 {
        (names, details)
    } else {
        let prev = ingested(names, details, list.drop_last());
        let f = list.last();
        let n2 = prev.0.insert(f.steam_id, f.name);
        if f.detail@.len() > 0 {
            (n2, prev.1.insert(f.steam_id, f.detail))
        } else {
            (n2, prev.1)
        }
    }
}

/// The alert that a spot at `statuses[j]` opens.
pub open spec fn pending_for(s: WatchedFriendStatus) -> PendingJoin {
    PendingJoin { steam_id: s.steam_id, name: s.name, detail: s.detail, method: s.presence->method }
}

/// Detail line for a friend-list row.
pub open spec fn detail_line(f: FriendInfo, details: Map<u64, String>) -> Seq<char> {
    if f.detail@.len() > 0 {
        f.detail@
    } else if details.contains_key(f.steam_id) && details[f.steam_id]@.len() > 0 {
        details[f.steam_id]@
    } else {
        match f.presence@ {
            PresenceView::Joinable { .. } => "Spot available"@,
            PresenceView::InCs2Full => "In CS2 — no open spot signal"@,
            _ => "In CS2"@,
        }
    }
}

/// What the watcher keeps between frames.
pub struct WatchState {
    /// Watched friends in priority order (first available wins).
    pub watched_order: Vec<u64>,
    pub watching: bool,
    /// True after a successful Join until the user starts watching again.
    pub needs_rewatch: bool,
    /// Fire sound/focus once per pending alert.
    pub alert_armed: bool,
    pub statuses: Vec<WatchedFriendStatus>,
    pub debouncer: NotifyDebouncer,
    pub pending: Option<PendingJoin>,
    pub status_msg: String,
    pub name_cache: HashMap<u64, String>,
    pub detail_cache: HashMap<u64, String>,
}

fn contains_id(ids: &[u64], id: u64) -> (r: bool)
    ensures
        r == ids@.contains(id),
{
    let mut i: usize = 0;
    while i < ids.len()
        invariant
            i <= ids@.len(),
            forall|k: int| 0 <= k < i ==> ids@[k] != id,
        decreases ids.len() - i,
    {
        if ids[i] == id {
            assert(ids@[i as int] == id);
            return true;
        }
        i += 1;
    }
    false
}

fn gone_in(statuses: &Vec<WatchedFriendStatus>, id: u64) -> (r: bool)
    ensures
        r == status_gone(statuses@, id),
{
    let mut i: usize = 0;
    while i < statuses.len()
        invariant
            i <= statuses@.len(),
            forall|k: int|
                0 <= k < i ==> !(#[trigger] statuses@[k].steam_id == id && (
                statuses@[k].presence@ is OfflineOrUnknown || statuses@[k].presence@ is OtherGame)),
        decreases statuses.len() - i,
    {
        if statuses[i].steam_id == id {
            match statuses[i].presence {
                FriendPresence::OfflineOrUnknown | FriendPresence::OtherGame { .. } => {
                    return true;
                },
                _ => {},
            }
        }
        i += 1;
    }
    false
}

fn live_in(statuses: &Vec<WatchedFriendStatus>, id: u64) -> (r: bool)
    ensures
        r == status_in_cs2(statuses@, id),
{
    let mut i: usize = 0;
    while i < statuses.len()
        invariant
            i <= statuses@.len(),
            forall|k: int|
                0 <= k < i ==> !(#[trigger] statuses@[k].steam_id == id && (
                statuses@[k].presence@ is InCs2Full || statuses@[k].presence@ is Joinable)),
        decreases statuses.len() - i,
    {
        if statuses[i].steam_id == id {
            match statuses[i].presence {
                FriendPresence::InCs2Full | FriendPresence::Joinable { .. } => {
                    return true;
                },
                _ => {},
            }
        }
        i += 1;
    }
    false
}

impl WatchState {
    /// The state at start-up: the saved watch queue, not watching, nothing pending.
    pub fn new(watched_order: Vec<u64>, status_msg: String) -> (s: Self)
        ensures
            s.watched_order@ == watched_order@,
            !s.watching,
            !s.needs_rewatch,
            !s.alert_armed,
            s.statuses@.len() == 0,
            s.debouncer@ == fresh_debounce(),
            s.pending is None,
            s.status_msg@ == status_msg@,
            s.name_cache@ == Map::<u64, String>::empty(),
            s.detail_cache@ == Map::<u64, String>::empty(),
    {
        WatchState {
            watched_order,
            watching: false,
            needs_rewatch: false,
            alert_armed: false,
            statuses: Vec::new(),
            debouncer: NotifyDebouncer::new(),
            pending: None,
            status_msg,
            name_cache: HashMap::new(),
            detail_cache: HashMap::new(),
        }
    }

    /// Whether friend `id` is in the watch queue.
    pub fn is_watched(&self, id: u64) -> (r: bool)
        ensures
            r == self.watched_order@.contains(id),
    {
        contains_id(self.watched_order.as_slice(), id)
    }

    /// Tick (`checked`) or untick a friend's row: remember the name, and add
    /// the friend at the end of the queue or remove every occurrence.
    pub fn toggle_watch(&mut self, steam_id: u64, name: &str, checked: bool)
        ensures
            final(self).watched_order@ == toggled(old(self).watched_order@, steam_id, checked),
            final(self).name_cache@.dom() == old(self).name_cache@.dom().insert(steam_id),
            final(self).name_cache@[steam_id]@ == name@,
            forall|k: u64| k != steam_id ==> #[trigger] final(self).name_cache@[k] == old(self).name_cache@[k],
            final(self).watching == old(self).watching,
            final(self).pending == old(self).pending,
            final(self).statuses == old(self).statuses,
            final(self).status_msg == old(self).status_msg,
            final(self).detail_cache == old(self).detail_cache,
            final(self).debouncer == old(self).debouncer,
            final(self).needs_rewatch == old(self).needs_rewatch,
            final(self).alert_armed == old(self).alert_armed,
    {
        self.name_cache.insert(steam_id, string_of(&chars_of(name)));
        if checked {
            if !self.is_watched(steam_id) {
                self.watched_order.push(steam_id);
            }
        } else {
            let kept = retain_ids(&self.watched_order, steam_id);
            self.watched_order = kept;
        }
    }

    /// Drop friends who left CS2 from the watch queue. `in_cs2` are the ids
    /// of the friend list just read. Returns whether the queue changed (and
    /// must be saved). Watching stops when the queue becomes empty.
    pub fn prune_offline_from_watch_queue(&mut self, in_cs2: &[u64]) -> (changed: bool)
        ensures
            final(self).watched_order@ == retained(
                old(self).watched_order@,
                stays_pred(old(self).statuses@, in_cs2@),
            ),
            changed == (final(self).watched_order@.len() != old(self).watched_order@.len()),
            if changed && old(self).watching && final(self).watched_order@.len() == 0 {
                &&& !final(self).watching
                &&& final(self).status_msg@ == queue_cleared_text()
            } else {
                &&& final(self).watching == old(self).watching
                &&& final(self).status_msg == old(self).status_msg
            },
            final(self).pending == old(self).pending,
            final(self).statuses == old(self).statuses,
            final(self).name_cache == old(self).name_cache,
            final(self).detail_cache == old(self).detail_cache,
            final(self).debouncer == old(self).debouncer,
            final(self).needs_rewatch == old(self).needs_rewatch,
            final(self).alert_armed == old(self).alert_armed,
    {
        let ghost keep = stays_pred(self.statuses@, in_cs2@);
        let before = self.watched_order.len();
        let mut kept: Vec<u64> = Vec::new();
        let mut i: usize = 0;
        while i < self.watched_order.len()
            invariant
                i <= self.watched_order@.len(),
                keep == stays_pred(self.statuses@, in_cs2@),
                kept@ == retained(self.watched_order@.take(i as int), keep),
            decreases self.watched_order.len() - i,
        {
            let id = self.watched_order[i];
            let stays = !gone_in(&self.statuses, id) && (contains_id(in_cs2, id) || live_in(
                &self.statuses,
                id,
            ));
            proof {
                let t = self.watched_order@.take(i + 1);
                assert(t.drop_last() =~= self.watched_order@.take(i as int));
                assert(t.last() == id);
            }
            if stays {
                kept.push(id);
            }
            i += 1;
        }
        assert(self.watched_order@.take(self.watched_order@.len() as int) =~= self.watched_order@);
        self.watched_order = kept;
        let changed = self.watched_order.len() != before;
        if changed {
            if self.watching && self.watched_order.len() == 0 {
                self.stop_watching();
                self.status_msg = string_of(&chars_of("Watch queue cleared — no watched friends still in CS2."));
            }
        }
        changed
    }

    /// Take in one poll's statuses, filling and remembering names and details.
    pub fn record_statuses(&mut self, statuses: Vec<WatchedFriendStatus>)
        ensures
            ({
                let (n, d, ss) = merged(old(self).name_cache@, old(self).detail_cache@, statuses@);
                &&& final(self).name_cache@ == n
                &&& final(self).detail_cache@ == d
                &&& final(self).statuses@ == ss
            }),
            final(self).watched_order == old(self).watched_order,
            final(self).watching == old(self).watching,
            final(self).pending == old(self).pending,
            final(self).status_msg == old(self).status_msg,
            final(self).debouncer == old(self).debouncer,
            final(self).needs_rewatch == old(self).needs_rewatch,
            final(self).alert_armed == old(self).alert_armed,
    {
        let ghost names0 = self.name_cache@;
        let ghost details0 = self.detail_cache@;
        let ghost all = statuses@;
        let mut rest = statuses;
        let mut rev: Vec<WatchedFriendStatus> = Vec::new();
        while rest.len() > 0
            invariant
                rev@.len() + rest@.len() == all.len(),
                forall|i: int| 0 <= i < rest@.len() ==> rest@[i] == all[i],
                forall|i: int| 0 <= i < rev@.len() ==> rev@[i] == all[all.len() - 1 - i],
            decreases rest.len(),
        {
            let x = rest.pop().unwrap();
            rev.push(x);
        }
        let n = rev.len();
        let mut out: Vec<WatchedFriendStatus> = Vec::new();
        assert(all.take(0) =~= Seq::<WatchedFriendStatus>::empty());
        while rev.len() > 0
            invariant
                rev@.len() <= n == all.len(),
                forall|i: int| 0 <= i < rev@.len() ==> rev@[i] == all[all.len() - 1 - i],
                self.watched_order == old(self).watched_order,
                self.watching == old(self).watching,
                self.pending == old(self).pending,
                self.status_msg == old(self).status_msg,
                self.debouncer == old(self).debouncer,
                self.needs_rewatch == old(self).needs_rewatch,
                self.alert_armed == old(self).alert_armed,
                self.statuses == old(self).statuses,
                ({
                    let (nm, dt, ss) = merged(names0, details0, all.take(n - rev@.len()));
                    &&& self.name_cache@ == nm
                    &&& self.detail_cache@ == dt
                    &&& out@ == ss
                }),
            decreases rev.len(),
        {
            let ghost idx = n - rev@.len();
            let mut s = rev.pop().unwrap();
            assert(s == all[idx]);
            proof {
                let t = all.take(idx + 1);
                assert(t.drop_last() =~= all.take(idx));
                assert(t.last() == s);
            }
            self.name_cache.insert(s.steam_id, s.name.clone());
            if !s.detail.as_str().is_empty() {
                self.detail_cache.insert(s.steam_id, s.detail.clone());
            } else {
                match self.detail_cache.get(&s.steam_id) {
                    Some(d) => {
                        s.detail = d.clone();
                    },
                    None => {},
                }
            }
            out.push(s);
        }
        assert(all.take(n as int) =~= all);
        self.statuses = out;
    }

    /// Take in the friend list just read: remember each name and each
    /// non-empty detail.
    pub fn ingest_friends(&mut self, list: &[FriendInfo])
        ensures
            ({
                let (n, d) = ingested(old(self).name_cache@, old(self).detail_cache@, list@);
                &&& final(self).name_cache@ == n
                &&& final(self).detail_cache@ == d
            }),
            final(self).watched_order == old(self).watched_order,
            final(self).watching == old(self).watching,
            final(self).pending == old(self).pending,
            final(self).statuses == old(self).statuses,
            final(self).status_msg == old(self).status_msg,
            final(self).debouncer == old(self).debouncer,
            final(self).needs_rewatch == old(self).needs_rewatch,
            final(self).alert_armed == old(self).alert_armed,
    {
        let ghost names0 = self.name_cache@;
        let ghost details0 = self.detail_cache@;
        let mut i: usize = 0;
        assert(list@.take(0) =~= Seq::<FriendInfo>::empty());
        while i < list.len()
            invariant
                i <= list@.len(),
                self.watched_order == old(self).watched_order,
                self.watching == old(self).watching,
                self.pending == old(self).pending,
                self.status_msg == old(self).status_msg,
                self.debouncer == old(self).debouncer,
                self.needs_rewatch == old(self).needs_rewatch,
                self.alert_armed == old(self).alert_armed,
                self.statuses == old(self).statuses,
                ({
                    let (nm, dt) = ingested(names0, details0, list@.take(i as int));
                    &&& self.name_cache@ == nm
                    &&& self.detail_cache@ == dt
                }),
            decreases list.len() - i,
        {
            proof {
                let t = list@.take(i + 1);
                assert(t.drop_last() =~= list@.take(i as int));
                assert(t.last() == list@[i as int]);
            }
            self.name_cache.insert(list[i].steam_id, list[i].name.clone());
            if !list[i].detail.as_str().is_empty() {
                self.detail_cache.insert(list[i].steam_id, list[i].detail.clone());
            }
            i += 1;
        }
        assert(list@.take(list@.len() as int) =~= list@);
    }

    /// After a poll: an open alert stays while its own friend is still
    /// joinable through the same method, and nothing else happens. Otherwise
    /// the first joinable watched friend is put to the debouncer: if it
    /// alerts, a new alert opens (`Opened`); if not, an alert that was open
    /// closes (`Closed`) and watching goes on. `now` and `cooldown` are
    /// milliseconds. On `Opened` the caller notifies and plays the sound; on
    /// `Closed` it stops the sound.
    pub fn check_for_spot(&mut self, now: u64, cooldown: u64) -> (change: SpotChange)
        requires
            now + cooldown <= u64::MAX,
        ensures
            ({
                let ss = old(self).statuses@;
                let fj = first_joinable_index(old(self).watched_order@, ss);
                let key = match fj {
                    Some(j) => Some((ss[j].steam_id, join_token_of(ss[j].presence->method@))),
                    None => None,
                };
                let (d, out) = debounce_step(old(self).debouncer@, key, now, cooldown);
                if old(self).pending matches Some(p) && joinable_with(ss, p.steam_id, p.method@) {
                    &&& change == SpotChange::Unchanged
                    &&& final(self).debouncer == old(self).debouncer
                    &&& final(self).pending == old(self).pending
                    &&& final(self).alert_armed == old(self).alert_armed
                    &&& final(self).status_msg == old(self).status_msg
                } else {
                    &&& final(self).debouncer@ == d
                    &&& if out is Some {
                        &&& change == SpotChange::Opened
                        &&& final(self).pending == Some(pending_for(ss[fj->0]))
                        &&& final(self).alert_armed
                        &&& final(self).status_msg@ == spot_text()
                    } else if old(self).pending is Some {
                        &&& change == SpotChange::Closed
                        &&& final(self).pending is None
                        &&& !final(self).alert_armed
                        &&& final(self).status_msg@ == spot_gone_text(old(self).watching)
                    } else {
                        &&& change == SpotChange::Unchanged
                        &&& final(self).pending == old(self).pending
                        &&& final(self).alert_armed == old(self).alert_armed
                        &&& final(self).status_msg == old(self).status_msg
                    }
                }
            }),
            final(self).watched_order == old(self).watched_order,
            final(self).watching == old(self).watching,
            final(self).statuses == old(self).statuses,
            final(self).name_cache == old(self).name_cache,
            final(self).detail_cache == old(self).detail_cache,
            final(self).needs_rewatch == old(self).needs_rewatch,
    {
        let was_open = match &self.pending {
            Some(p) => {
                if still_joinable_with(self.statuses.as_slice(), p.steam_id, &p.method) {
                    return SpotChange::Unchanged;
                }
                true
            },
            None => false,
        };
        let found = first_joinable(self.watched_order.as_slice(), self.statuses.as_slice());
        let candidate: Option<(NotifyKey, PendingJoin)> = match found {
            Some(s) => match &s.presence {
                FriendPresence::Joinable { method } => Some(
                    (
                        NotifyKey::from_joinable(s.steam_id, method),
                        PendingJoin {
                            steam_id: s.steam_id,
                            name: s.name.clone(),
                            detail: s.detail.clone(),
                            method: method.duplicate(),
                        },
                    ),
                ),
                _ => None,
            },
            None => None,
        };
        let (key, pending) = match candidate {
            Some((k, p)) => (Some(k), Some(p)),
            None => (None, None),
        };
        let fired = self.debouncer.consider(key, now, cooldown);
        match fired {
            Some(_) => {
                self.pending = pending;
                self.alert_armed = true;
                self.status_msg = string_of(&chars_of("Spot available — confirm join in the alert window."));
                SpotChange::Opened
            },
            None => {
                if was_open {
                    self.pending = None;
                    self.alert_armed = false;
                    if self.watching {
                        self.status_msg = string_of(&chars_of("Spot gone — still watching."));
                    } else {
                        self.status_msg = string_of(&chars_of("Spot gone."));
                    }
                    SpotChange::Closed
                } else {
                    SpotChange::Unchanged
                }
            },
        }
    }

    /// Start watching: clear the debouncer and say how many friends are watched.
    pub fn start_watching(&mut self)
        ensures
            final(self).watching,
            !final(self).needs_rewatch,
            final(self).debouncer@ == fresh_debounce(),
            final(self).status_msg@ == watching_text(old(self).watched_order@.len()),
            final(self).watched_order == old(self).watched_order,
            final(self).pending == old(self).pending,
            final(self).statuses == old(self).statuses,
            final(self).name_cache == old(self).name_cache,
            final(self).detail_cache == old(self).detail_cache,
            final(self).alert_armed == old(self).alert_armed,
    {
        self.watching = true;
        self.needs_rewatch = false;
        self.debouncer.reset();
        let mut msg = String::new();
        push_str_chars(&mut msg, "Watching ");
        push_decimal(&mut msg, self.watched_order.len() as u64);
        push_str_chars(&mut msg, " friend(s) for an open spot…");
        assert(msg@ =~= watching_text(self.watched_order@.len()));
        self.status_msg = msg;
    }

    /// Stop watching; say so unless a join already said it.
    pub fn stop_watching(&mut self)
        ensures
            !final(self).watching,
            if old(self).needs_rewatch {
                final(self).status_msg == old(self).status_msg
            } else {
                final(self).status_msg@ == "Watching stopped."@
            },
            final(self).needs_rewatch == old(self).needs_rewatch,
            final(self).watched_order == old(self).watched_order,
            final(self).pending == old(self).pending,
            final(self).statuses == old(self).statuses,
            final(self).name_cache == old(self).name_cache,
            final(self).detail_cache == old(self).detail_cache,
            final(self).debouncer == old(self).debouncer,
            final(self).alert_armed == old(self).alert_armed,
    {
        self.watching = false;
        if !self.needs_rewatch {
            self.status_msg = string_of(&chars_of("Watching stopped."));
        }
    }

    /// After a join: stop watching until the user starts again, and close the alert.
    pub fn stop_watching_after_join(&mut self, name: &str)
        ensures
            !final(self).watching,
            final(self).needs_rewatch,
            final(self).pending is None,
            !final(self).alert_armed,
            final(self).status_msg@ == joined_text(name@),
            final(self).watched_order == old(self).watched_order,
            final(self).statuses == old(self).statuses,
            final(self).name_cache == old(self).name_cache,
            final(self).detail_cache == old(self).detail_cache,
            final(self).debouncer == old(self).debouncer,
    {
        self.watching = false;
        self.needs_rewatch = true;
        self.pending = None;
        self.alert_armed = false;
        let mut msg = String::new();
        push_str_chars(&mut msg, "Joined via ");
        push_str_chars(&mut msg, name);
        push_str_chars(&mut msg, ". Watching stopped — click Start watching to look again.");
        assert(msg@ =~= joined_text(name@));
        self.status_msg = msg;
    }

    /// The open alert, taken out to be joined.
    pub fn take_pending(&mut self) -> (p: Option<PendingJoin>)
        ensures
            p == old(self).pending,
            final(self).pending is None,
            final(self).watching == old(self).watching,
            final(self).needs_rewatch == old(self).needs_rewatch,
            final(self).alert_armed == old(self).alert_armed,
            final(self).status_msg == old(self).status_msg,
            final(self).watched_order == old(self).watched_order,
            final(self).statuses == old(self).statuses,
            final(self).name_cache == old(self).name_cache,
            final(self).detail_cache == old(self).detail_cache,
            final(self).debouncer == old(self).debouncer,
    {
        self.pending.take()
    }

    /// What opening the join URI for the open alert `p` came to. On success
    /// the join is done and watching stops; an error is shown and the alert
    /// stays open.
    pub fn finish_join(&mut self, p: PendingJoin, outcome: Result<(), String>)
        ensures
            match outcome {
                Ok(()) => {
                    &&& !final(self).watching
                    &&& final(self).needs_rewatch
                    &&& final(self).pending is None
                    &&& !final(self).alert_armed
                    &&& final(self).status_msg@ == joined_text(p.name@)
                },
                Err(e) => {
                    &&& final(self).status_msg == e
                    &&& final(self).pending == Some(p)
                    &&& final(self).watching == old(self).watching
                    &&& final(self).needs_rewatch == old(self).needs_rewatch
                    &&& final(self).alert_armed == old(self).alert_armed
                },
            },
            final(self).watched_order == old(self).watched_order,
            final(self).statuses == old(self).statuses,
            final(self).name_cache == old(self).name_cache,
            final(self).detail_cache == old(self).detail_cache,
            final(self).debouncer == old(self).debouncer,
    {
        match outcome {
            Ok(()) => self.stop_watching_after_join(p.name.as_str()),
            Err(e) => {
                self.status_msg = e;
                self.pending = Some(p);
            },
        }
    }

    /// What opening the join URI from friend `name`'s row came to. On
    /// success the join is done: watching stops and any open alert closes.
    /// An error is shown, and any open alert stays as it was.
    pub fn finish_row_join(&mut self, name: &str, outcome: Result<(), String>)
        ensures
            match outcome {
                Ok(()) => {
                    &&& !final(self).watching
                    &&& final(self).needs_rewatch
                    &&& final(self).pending is None
                    &&& !final(self).alert_armed
                    &&& final(self).status_msg@ == joined_text(name@)
                },
                Err(e) => {
                    &&& final(self).status_msg == e
                    &&& final(self).pending == old(self).pending
                    &&& final(self).watching == old(self).watching
                    &&& final(self).needs_rewatch == old(self).needs_rewatch
                    &&& final(self).alert_armed == old(self).alert_armed
                },
            },
            final(self).watched_order == old(self).watched_order,
            final(self).statuses == old(self).statuses,
            final(self).name_cache == old(self).name_cache,
            final(self).detail_cache == old(self).detail_cache,
            final(self).debouncer == old(self).debouncer,
    {
        match outcome {
            Ok(()) => self.stop_watching_after_join(name),
            Err(e) => self.status_msg = e,
        }
    }

    /// Close the alert without joining.
    pub fn dismiss_pending(&mut self)
        ensures
            final(self).pending is None,
            !final(self).alert_armed,
            final(self).status_msg@ == if old(self).watching {
                "Join dismissed — still watching."@
            } else {
                "Join dismissed."@
            },
            final(self).watching == old(self).watching,
            final(self).needs_rewatch == old(self).needs_rewatch,
            final(self).watched_order == old(self).watched_order,
            final(self).statuses == old(self).statuses,
            final(self).name_cache == old(self).name_cache,
            final(self).detail_cache == old(self).detail_cache,
            final(self).debouncer == old(self).debouncer,
    {
        self.pending = None;
        self.alert_armed = false;
        if self.watching {
            self.status_msg = string_of(&chars_of("Join dismissed — still watching."));
        } else {
            self.status_msg = string_of(&chars_of("Join dismissed."));
        }
    }

    /// Detail line for a friend-list row: the friend's own, else the
    /// remembered one, else a word on their presence.
    pub fn friend_detail_line(&self, friend: &FriendInfo) -> (r: String)
        ensures
            r@ == detail_line(*friend, self.detail_cache@),
    {
        if !friend.detail.as_str().is_empty() {
            return friend.detail.clone();
        }
        if let Some(d) = self.detail_cache.get(&friend.steam_id) {
            if !d.as_str().is_empty() {
                return d.clone();
            }
        }
        match friend.presence {
            FriendPresence::Joinable { .. } => string_of(&chars_of("Spot available")),
            FriendPresence::InCs2Full => string_of(&chars_of("In CS2 — no open spot signal")),
            _ => string_of(&chars_of("In CS2")),
        }
    }
}


/// After an alert, stay quiet this long (milliseconds).
pub const NOTIFY_COOLDOWN_MS: u64 = 30000;

/// What one frame should fetch from Steam: the friend list (while idle,
/// once `refresh_interval` has passed or it was never read) and the
/// watched friends (while watching, once `poll_interval` has passed or they
/// were never polled). Intervals and elapsed times are milliseconds; the
/// intervals are the idle refresh and active poll settings.
pub fn frame_fetches(
    steam_ok: bool,
    watching: bool,
    since_list_refresh: Option<u64>,
    since_poll: Option<u64>,
    refresh_interval: u64,
    poll_interval: u64,
) -> (r: (bool, bool))
    ensures
        r.0 == (steam_ok && !watching && match since_list_refresh {
            Some(t) => t >= refresh_interval,
            None => true,
        }),
        r.1 == (watching && match since_poll {
            Some(t) => t >= poll_interval,
            None => true,
        }),
{
    let list_due = match since_list_refresh {
        Some(t) => t >= refresh_interval,
        None => true,
    };
    let poll_due = match since_poll {
        Some(t) => t >= poll_interval,
        None => true,
    };
    (steam_ok && list_due && !watching, watching && poll_due)
}


/// `needle` occurs in `hay` as a run of consecutive characters.
pub open spec fn occurs_in(needle: Seq<char>, hay: Seq<char>) -> bool {
    exists|i: int|
        0 <= i && i + needle.len() <= hay.len() && #[trigger] hay.subrange(i, i + needle.len()) == needle
}

/// A friend-list row is shown under `filter`: the filter is empty once
/// lower-cased, or occurs in the lower-cased name.
pub open spec fn name_matches(name: Seq<char>, filter: Seq<char>) -> bool {
    lower_of(filter).len() == 0 || occurs_in(lower_of(filter), lower_of(name))
}

fn window_eq(hay: &Vec<char>, needle: &Vec<char>, i: usize) -> (r: bool)
    requires
        i + needle@.len() <= hay@.len(),
    ensures
        r == (hay@.subrange(i as int, i + needle@.len()) == needle@),
{
    let mut k: usize = 0;
    while k < needle.len()
        invariant
            k <= needle@.len(),
            i + needle@.len() <= hay@.len(),
            hay@.len() == hay.len(),
            needle@.len() == needle.len(),
            forall|m: int| 0 <= m < k ==> hay@[i + m] == needle@[m],
        decreases needle.len() - k,
    {
        assert(i + k < hay@.len());
        if hay[i + k] != needle[k] {
            assert(hay@.subrange(i as int, i + needle@.len())[k as int] != needle@[k as int]);
            return false;
        }
        k += 1;
    }
    assert(hay@.subrange(i as int, i + needle@.len()) =~= needle@);
    true
}

/// Whether a friend named `name` is shown under the list filter `filter`
/// (case is ignored).
pub fn name_matches_filter(name: &str, filter: &str) -> (r: bool)
    ensures
        r == name_matches(name@, filter@),
{
    let f = chars_of(to_lowercase(filter).as_str());
    if f.len() == 0 {
        return true;
    }
    let h = chars_of(to_lowercase(name).as_str());
    if f.len() > h.len() {
        assert(!occurs_in(f@, h@)) by {
            if occurs_in(f@, h@) {
                let i = choose|i: int|
                    0 <= i && i + f@.len() <= h@.len() && #[trigger] h@.subrange(i, i + f@.len()) == f@;
            }
        }
        return false;
    }
    let last = h.len() - f.len();
    let mut i: usize = 0;
    while i <= last
        invariant
            1 <= f@.len() <= h@.len(),
            f@.len() == f.len(),
            h@.len() == h.len(),
            last == h@.len() - f@.len(),
            i <= last + 1,
            f@ == lower_of(filter@),
            h@ == lower_of(name@),
            forall|j: int| 0 <= j < i ==> #[trigger] h@.subrange(j, j + f@.len()) != f@,
        decreases last + 1 - i,
    {
        if window_eq(&h, &f, i) {
            return true;
        }
        i += 1;
    }
    assert(!occurs_in(f@, h@)) by {
        if occurs_in(f@, h@) {
            let j = choose|j: int|
                0 <= j && j + f@.len() <= h@.len() && #[trigger] h@.subrange(j, j + f@.len()) == f@;
            assert(j < i);
        }
    }
    false
}

/// How soon the window should redraw (milliseconds), if it must.
pub fn repaint_after_ms(watching: bool, pending: bool, steam_ok: bool) -> (r: Option<u64>)
    ensures
        r == if watching {
            Some(200u64)
        } else if pending {
            Some(100u64)
        } else if steam_ok {
            Some(1000u64)
        } else {
            None
        },
{
    if watching {
        Some(200)
    } else if pending {
        Some(100)
    } else if steam_ok {
        Some(1000)
    } else {
        None
    }
}

/// `k` is the last status of friend `id` (a later status replaces an earlier one).
pub open spec fn last_status_of(statuses: Seq<WatchedFriendStatus>, id: u64, k: int) -> bool {
    &&& 0 <= k < statuses.len()
    &&& statuses[k].steam_id == id
    &&& forall|k2: int| k < k2 < statuses.len() ==> #[trigger] statuses[k2].steam_id != id
}

/// `j` is the first friend-list entry of friend `id`.
pub open spec fn first_friend_of(friends: Seq<FriendInfo>, id: u64, j: int) -> bool {
    &&& 0 <= j < friends.len()
    &&& friends[j].steam_id == id
    &&& forall|j2: int| 0 <= j2 < j ==> #[trigger] friends[j2].steam_id != id
}

/// One row of the watch queue as shown.
pub struct QueueRow {
    pub name: String,
    pub badge: &'static str,
    pub tone: Tone,
    pub detail: String,
}

/// The name shown for a queued friend.
pub open spec fn queue_name(names: Map<u64, String>, id: u64) -> Seq<char> {
    if names.contains_key(id) {
        names[id]@
    } else {
        decimal(id as nat)
    }
}

/// Detail of a queued friend with a status: its own, else the remembered
/// one, else a word on their presence.
pub open spec fn status_detail(s: WatchedFriendStatus, details: Map<u64, String>) -> Seq<char> {
    if s.detail@.len() > 0 {
        s.detail@
    } else if details.contains_key(s.steam_id) && details[s.steam_id]@.len() > 0 {
        details[s.steam_id]@
    } else {
        fallback_text(s.presence@)
    }
}

impl WatchState {
    /// The row of the watch queue for friend `id`, from their last status,
    /// else their friend-list entry, else as waiting.
    pub fn queue_row(&self, id: u64, friends: &[FriendInfo]) -> (r: QueueRow)
        ensures
            r.name@ == queue_name(self.name_cache@, id),
            (exists|k: int| #[trigger] last_status_of(self.statuses@, id, k)) ==> exists|k: int|
                #[trigger] last_status_of(self.statuses@, id, k) && r.badge@ == badge_label(
                    self.statuses@[k].presence@,
                ) && r.tone == badge_tone(self.statuses@[k].presence@) && r.detail@ == status_detail(
                    self.statuses@[k],
                    self.detail_cache@,
                ),
            !(exists|k: int| #[trigger] last_status_of(self.statuses@, id, k)) && (exists|j: int|
                #[trigger] first_friend_of(friends@, id, j)) ==> exists|j: int|
                #[trigger] first_friend_of(friends@, id, j) && r.badge@ == badge_label(
                    friends@[j].presence@,
                ) && r.tone == badge_tone(friends@[j].presence@) && r.detail@ == detail_line(
                    friends@[j],
                    self.detail_cache@,
                ),
            !(exists|k: int| #[trigger] last_status_of(self.statuses@, id, k)) && !(exists|j: int|
                #[trigger] first_friend_of(friends@, id, j)) ==> r.badge@ == "WAITING"@ && r.tone
                == Tone::Muted && r.detail@ == "Not in CS2"@,
    {
        let name = match self.name_cache.get(&id) {
            Some(n) => n.clone(),
            None => decimal_string(id),
        };
        let n = self.statuses.len();
        let mut k = n;
        while k > 0 && self.statuses[k - 1].steam_id != id
            invariant
                k <= n == self.statuses@.len(),
                forall|k2: int| k <= k2 < n ==> #[trigger] self.statuses@[k2].steam_id != id,
            decreases k,
        {
            k -= 1;
        }
        if k > 0 {
            let s = &self.statuses[k - 1];
            assert(last_status_of(self.statuses@, id, k - 1));
            let (badge, tone) = presence_badge(&s.presence);
            let detail = if !s.detail.as_str().is_empty() {
                s.detail.clone()
            } else {
                let cached = match self.detail_cache.get(&id) {
                    Some(d) => if !d.as_str().is_empty() {
                        Some(d.clone())
                    } else {
                        None
                    },
                    None => None,
                };
                match cached {
                    Some(d) => d,
                    None => string_of(&chars_of(presence_fallback(&s.presence))),
                }
            };
            return QueueRow { name, badge, tone, detail };
        }
        assert(!(exists|k2: int| #[trigger] last_status_of(self.statuses@, id, k2))) by {
            if exists|k2: int| #[trigger] last_status_of(self.statuses@, id, k2) {
                let k2 = choose|k2: int| #[trigger] last_status_of(self.statuses@, id, k2);
                assert(self.statuses@[k2].steam_id != id);
            }
        }
        let mut j: usize = 0;
        while j < friends.len() && friends[j].steam_id != id
            invariant
                j <= friends@.len(),
                forall|j2: int| 0 <= j2 < j ==> #[trigger] friends@[j2].steam_id != id,
            decreases friends.len() - j,
        {
            j += 1;
        }
        if j < friends.len() {
            assert(first_friend_of(friends@, id, j as int));
            let (badge, tone) = presence_badge(&friends[j].presence);
            let detail = self.friend_detail_line(&friends[j]);
            return QueueRow { name, badge, tone, detail };
        }
        assert(!(exists|j2: int| #[trigger] first_friend_of(friends@, id, j2))) by {
            if exists|j2: int| #[trigger] first_friend_of(friends@, id, j2) {
                let j2 = choose|j2: int| #[trigger] first_friend_of(friends@, id, j2);
                assert(friends@[j2].steam_id != id);
            }
        }
        QueueRow { name, badge: "WAITING", tone: Tone::Muted, detail: string_of(&chars_of("Not in CS2")) }
    }
}

/// The queue without any occurrence of `id`.
fn retain_ids(order: &Vec<u64>, id: u64) -> (kept: Vec<u64>)
    ensures
        kept@ == retained(order@, not_id(id)),
{
    let ghost keep = not_id(id);
    let mut kept: Vec<u64> = Vec::new();
    let mut i: usize = 0;
    while i < order.len()
        invariant
            i <= order@.len(),
            keep == not_id(id),
            kept@ == retained(order@.take(i as int), keep),
        decreases order.len() - i,
    {
        proof {
            let t = order@.take(i + 1);
            assert(t.drop_last() =~= order@.take(i as int));
            assert(t.last() == order@[i as int]);
        }
        if order[i] != id {
            kept.push(order[i]);
        }
        i += 1;
    }
    assert(order@.take(order@.len() as int) =~= order@);
    kept
}

// ---------------------------------------------------------------------------
// Laws of the watch queue
// ---------------------------------------------------------------------------

/// Everything kept satisfies the condition, and nothing else is added.
pub proof fn lemma_retained_members(s: Seq<u64>, keep: spec_fn(u64) -> bool, x: u64)
    ensures
        retained(s, keep).contains(x) <==> (s.contains(x) && keep(x)),
    decreases s.len(),
{
    if s.len() > 0 {
        lemma_retained_members(s.drop_last(), keep, x);
        let r = retained(s.drop_last(), keep);
        if s.contains(x) && x != s.last() {
            let k = choose|k: int| 0 <= k < s.len() && s[k] == x;
            assert(s.drop_last()[k] == x);
        }
        if s.drop_last().contains(x) {
            let k = choose|k: int| 0 <= k < s.drop_last().len() && s.drop_last()[k] == x;
            assert(s[k] == x);
        }
        if keep(s.last()) {
            if r.push(s.last()).contains(x) && x != s.last() {
                let k = choose|k: int| 0 <= k < r.push(s.last()).len() && r.push(s.last())[k] == x;
                assert(r[k] == x);
            }
            if r.contains(x) {
                let k = choose|k: int| 0 <= k < r.len() && r[k] == x;
                assert(r.push(s.last())[k] == x);
            }
            assert(r.push(s.last())[r.len() as int] == s.last());
        }
        assert(s[s.len() - 1] == s.last());
    }
}

/// Retaining keeps the order and never repeats an element that occurred once.
pub proof fn lemma_retained_no_duplicates(s: Seq<u64>, keep: spec_fn(u64) -> bool)
    requires
        s.no_duplicates(),
    ensures
        retained(s, keep).no_duplicates(),
    decreases s.len(),
{
    if s.len() > 0 {
        let init = s.drop_last();
        assert forall|i: int, j: int| 0 <= i < j < init.len() implies init[i] != init[j] by {
            assert(s[i] == init[i] && s[j] == init[j]);
        }
        lemma_retained_no_duplicates(init, keep);
        if keep(s.last()) {
            lemma_retained_members(init, keep, s.last());
            if init.contains(s.last()) {
                let k = choose|k: int| 0 <= k < init.len() && init[k] == s.last();
                assert(s[k] == s[s.len() - 1]);
            }
            let r = retained(init, keep);
            assert forall|i: int, j: int| 0 <= i < j < r.push(s.last()).len() implies r.push(s.last())[i]
                != r.push(s.last())[j] by {
                if j == r.len() {
                    assert(r.contains(r[i]));
                }
            }
        }
    }
}

/// Ticking a friend never puts them in the queue twice, and unticking
/// removes them entirely; a queue without repeats keeps none.
pub proof fn lemma_toggle_no_duplicates(order: Seq<u64>, id: u64, checked: bool)
    requires
        order.no_duplicates(),
    ensures
        toggled(order, id, checked).no_duplicates(),
        toggled(order, id, checked).contains(id) == checked,
        forall|x: u64| x != id ==> (#[trigger] toggled(order, id, checked).contains(x) == order.contains(x)),
{
    if checked {
        if !order.contains(id) {
            let r = order.push(id);
            assert forall|i: int, j: int| 0 <= i < j < r.len() implies r[i] != r[j] by {
                if j == order.len() {
                    assert(order.contains(order[i]));
                }
            }
            assert(r[order.len() as int] == id);
            assert forall|x: u64| x != id implies (#[trigger] r.contains(x) == order.contains(x)) by {
                if r.contains(x) {
                    let k = choose|k: int| 0 <= k < r.len() && r[k] == x;
                    assert(order[k] == x);
                }
                if order.contains(x) {
                    let k = choose|k: int| 0 <= k < order.len() && order[k] == x;
                    assert(r[k] == x);
                }
            }
        }
    } else {
        lemma_retained_no_duplicates(order, not_id(id));
        lemma_retained_members(order, not_id(id), id);
        assert forall|x: u64| x != id implies (#[trigger] toggled(order, id, checked).contains(x)
            == order.contains(x)) by {
            lemma_retained_members(order, not_id(id), x);
        }
    }
}

/// Ticking a friend who is not watched and then unticking them gives the
/// queue back as it was.
pub proof fn lemma_toggle_on_off(order: Seq<u64>, id: u64)
    requires
        !order.contains(id),
    ensures
        toggled(toggled(order, id, true), id, false) == order,
{
    lemma_retained_without(order, id);
    let p = order.push(id);
    assert(p.drop_last() =~= order);
    assert(p.last() == id);
}

proof fn lemma_retained_without(order: Seq<u64>, id: u64)
    requires
        !order.contains(id),
    ensures
        retained(order, not_id(id)) == order,
    decreases order.len(),
{
    if order.len() > 0 {
        let init = order.drop_last();
        if init.contains(id) {
            let k = choose|k: int| 0 <= k < init.len() && init[k] == id;
            assert(order[k] == id);
        }
        lemma_retained_without(init, id);
        assert(order[order.len() - 1] != id);
        assert(init.push(order.last()) =~= order);
    }
}

/// After pruning, every friend left in the queue is still in CS2 and none
/// was added.
pub proof fn lemma_prune_keeps_only_present(
    order: Seq<u64>,
    statuses: Seq<WatchedFriendStatus>,
    in_cs2: Seq<u64>,
    x: u64,
)
    ensures
        retained(order, stays_pred(statuses, in_cs2)).contains(x) <==> (order.contains(x)
            && stays_watched(statuses, in_cs2, x)),
{
    lemma_retained_members(order, stays_pred(statuses, in_cs2), x);
}

/// A friend whose status says they went offline or into another game
/// leaves the queue, whatever the friend list says.
pub proof fn lemma_prune_drops_gone(
    order: Seq<u64>,
    statuses: Seq<WatchedFriendStatus>,
    in_cs2: Seq<u64>,
    k: int,
)
    requires
        0 <= k < statuses.len(),
        statuses[k].presence@ is OfflineOrUnknown || statuses[k].presence@ is OtherGame,
    ensures
        !retained(order, stays_pred(statuses, in_cs2)).contains(statuses[k].steam_id),
{
    lemma_retained_members(order, stays_pred(statuses, in_cs2), statuses[k].steam_id);
    assert(status_gone(statuses, statuses[k].steam_id));
}

/// `k` is the last position of the poll `ss` with a non-empty detail for `id`.
pub open spec fn last_status_detail(ss: Seq<WatchedFriendStatus>, id: u64, k: int) -> bool {
    &&& 0 <= k < ss.len()
    &&& ss[k].steam_id == id
    &&& ss[k].detail@.len() > 0
    &&& forall|m: int| k < m < ss.len() && #[trigger] ss[m].steam_id == id ==> ss[m].detail@.len() == 0
}

/// `k` is the last position of the friend list with a non-empty detail for `id`.
pub open spec fn last_friend_detail(list: Seq<FriendInfo>, id: u64, k: int) -> bool {
    &&& 0 <= k < list.len()
    &&& list[k].steam_id == id
    &&& list[k].detail@.len() > 0
    &&& forall|m: int| k < m < list.len() && #[trigger] list[m].steam_id == id ==> list[m].detail@.len() == 0
}

/// A poll remembers the newest detail: after taking in `ss`, the detail
/// cache maps `id` to the last non-empty detail that `ss` holds for it,
/// whatever was cached before; when `ss` holds no non-empty detail for
/// `id`, the cache keeps what it had for `id`.
pub proof fn lemma_poll_remembers_newest_detail(
    names: Map<u64, String>,
    details: Map<u64, String>,
    ss: Seq<WatchedFriendStatus>,
    id: u64,
)
    ensures
        forall|k: int| #[trigger] last_status_detail(ss, id, k) ==> {
            &&& merged(names, details, ss).1.contains_key(id)
            &&& merged(names, details, ss).1[id] == ss[k].detail
        },
        (forall|k: int| 0 <= k < ss.len() && #[trigger] ss[k].steam_id == id ==> ss[k].detail@.len() == 0)
            ==> {
            &&& merged(names, details, ss).1.contains_key(id) == details.contains_key(id)
            &&& details.contains_key(id) ==> merged(names, details, ss).1[id] == details[id]
        },
    decreases ss.len(),
{
    if ss.len() > 0 {
        let init = ss.drop_last();
        let n = ss.len() - 1;
        lemma_poll_remembers_newest_detail(names, details, init, id);
        assert forall|k: int| #[trigger] last_status_detail(ss, id, k) implies {
            &&& merged(names, details, ss).1.contains_key(id)
            &&& merged(names, details, ss).1[id] == ss[k].detail
        } by {
            if k < n {
                assert(ss[n].steam_id == id ==> ss[n].detail@.len() == 0);
                assert forall|m: int| k < m < init.len() && #[trigger] init[m].steam_id == id implies init[m].detail@.len()
                    == 0 by {
                    assert(init[m] == ss[m]);
                }
                assert(last_status_detail(init, id, k));
            }
        }
        if forall|k: int| 0 <= k < ss.len() && #[trigger] ss[k].steam_id == id ==> ss[k].detail@.len() == 0 {
            assert forall|k: int| 0 <= k < init.len() && #[trigger] init[k].steam_id == id implies init[k].detail@.len()
                == 0 by {
                assert(init[k] == ss[k]);
            }
            assert(ss[n].steam_id == id ==> ss[n].detail@.len() == 0);
        }
    }
}

/// A poll fills each empty detail from what is remembered at that point:
/// the last non-empty detail for the friend earlier in the same poll, else
/// the one cached before the poll, else it stays empty. Every other field,
/// and every non-empty detail, is kept.
pub proof fn lemma_poll_fills_empty_detail(
    names: Map<u64, String>,
    details: Map<u64, String>,
    ss: Seq<WatchedFriendStatus>,
    i: int,
)
    requires
        0 <= i < ss.len(),
    ensures
        merged(names, details, ss).2.len() == ss.len(),
        ({
            let out = merged(names, details, ss).2[i];
            let s = ss[i];
            let before = ss.take(i);
            &&& out.steam_id == s.steam_id
            &&& out.name == s.name
            &&& out.presence == s.presence
            &&& out.rich_debug == s.rich_debug
            &&& s.detail@.len() > 0 ==> out.detail == s.detail
            &&& s.detail@.len() == 0 ==> forall|k: int| #[trigger] last_status_detail(before, s.steam_id, k)
                ==> out.detail == ss[k].detail
            &&& s.detail@.len() == 0 && (forall|k: int| 0 <= k < before.len() && #[trigger] before[k].steam_id
                == s.steam_id ==> before[k].detail@.len() == 0) ==> out.detail == if details.contains_key(
                s.steam_id,
            ) {
                details[s.steam_id]
            } else {
                s.detail
            }
        }),
    decreases ss.len(),
{
    lemma_merged_len(names, details, ss);
    let init = ss.drop_last();
    let n = ss.len() - 1;
    if i < n {
        lemma_poll_fills_empty_detail(names, details, init, i);
        assert(init.take(i) =~= ss.take(i));
        assert(init[i] == ss[i]);
        assert(merged(names, details, ss).2[i] == merged(names, details, init).2[i]);
        let before = ss.take(i);
        assert forall|k: int| #[trigger] last_status_detail(before, ss[i].steam_id, k) implies ss[k].detail == init[k].detail by {
            assert(init[k] == ss[k]);
        }
    } else {
        assert(ss.take(i) =~= init);
        lemma_poll_remembers_newest_detail(names, details, init, ss[i].steam_id);
    }
}

proof fn lemma_merged_len(names: Map<u64, String>, details: Map<u64, String>, ss: Seq<WatchedFriendStatus>)
    ensures
        merged(names, details, ss).2.len() == ss.len(),
    decreases ss.len(),
{
    if ss.len() > 0 {
        lemma_merged_len(names, details, ss.drop_last());
    }
}

/// The friend list remembers only non-empty details, the newest one for
/// each friend: the cache maps `id` to the last non-empty detail the list
/// holds for it; when the list holds none for `id` (an empty detail
/// included), the cache keeps what it had for `id`.
pub proof fn lemma_list_remembers_newest_detail(
    names: Map<u64, String>,
    details: Map<u64, String>,
    list: Seq<FriendInfo>,
    id: u64,
)
    ensures
        forall|k: int| #[trigger] last_friend_detail(list, id, k) ==> {
            &&& ingested(names, details, list).1.contains_key(id)
            &&& ingested(names, details, list).1[id] == list[k].detail
        },
        (forall|k: int| 0 <= k < list.len() && #[trigger] list[k].steam_id == id ==> list[k].detail@.len() == 0)
            ==> {
            &&& ingested(names, details, list).1.contains_key(id) == details.contains_key(id)
            &&& details.contains_key(id) ==> ingested(names, details, list).1[id] == details[id]
        },
    decreases list.len(),
{
    if list.len() > 0 {
        let init = list.drop_last();
        let n = list.len() - 1;
        lemma_list_remembers_newest_detail(names, details, init, id);
        assert forall|k: int| #[trigger] last_friend_detail(list, id, k) implies {
            &&& ingested(names, details, list).1.contains_key(id)
            &&& ingested(names, details, list).1[id] == list[k].detail
        } by {
            if k < n {
                assert(list[n].steam_id == id ==> list[n].detail@.len() == 0);
                assert forall|m: int| k < m < init.len() && #[trigger] init[m].steam_id == id implies init[m].detail@.len()
                    == 0 by {
                    assert(init[m] == list[m]);
                }
                assert(last_friend_detail(init, id, k));
            }
        }
        if forall|k: int| 0 <= k < list.len() && #[trigger] list[k].steam_id == id ==> list[k].detail@.len() == 0 {
            assert forall|k: int| 0 <= k < init.len() && #[trigger] init[k].steam_id == id implies init[k].detail@.len()
                == 0 by {
                assert(init[k] == list[k]);
            }
            assert(list[n].steam_id == id ==> list[n].detail@.len() == 0);
        }
    }
}

/// Detail shown for a friend: their own non-empty detail; else a
/// non-empty remembered one; else a word on their presence. This holds both
/// for a queued friend's last status and for a friend-list row.
pub proof fn lemma_detail_prefers_own_then_remembered(
    s: WatchedFriendStatus,
    f: FriendInfo,
    details: Map<u64, String>,
)
    ensures
        s.detail@.len() > 0 ==> status_detail(s, details) == s.detail@,
        s.detail@.len() == 0 && details.contains_key(s.steam_id) && details[s.steam_id]@.len() > 0
            ==> status_detail(s, details) == details[s.steam_id]@,
        s.detail@.len() == 0 && !(details.contains_key(s.steam_id) && details[s.steam_id]@.len() > 0)
            ==> status_detail(s, details) == fallback_text(s.presence@),
        f.detail@.len() > 0 ==> detail_line(f, details) == f.detail@,
        f.detail@.len() == 0 && details.contains_key(f.steam_id) && details[f.steam_id]@.len() > 0
            ==> detail_line(f, details) == details[f.steam_id]@,
{
}

} // verus!
