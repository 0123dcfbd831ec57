//! What the library makes of what Steam reports: rich-presence values,
//! friends in CS2 and their order, and one poll of a watched friend. The
//! Steamworks calls themselves are made by the program around the library.
use vstd::prelude::*;
use crate::text::{trim, decimal, lower_of, chars_of, trim_bounds, push_range, to_lowercase, decimal_string};
use crate::rich::{RichPresence, debug_dump};
use crate::watcher::{
    classify_presence, format_rich_detail, format_rich_debug, presence_of, rich_detail, FriendPresence,
    WatchedFriendStatus, CS2_APP_ID,
};
use crate::order::{stable_order, stably_sorted};

verus! {

/// Spacewar — fallback when CS2 (730) is already running and holds the app slot.
pub const FALLBACK_APP_ID: u32 = 480;

/// A friend who is in CS2, as the friend list shows them.
#[derive(Debug, Clone)]
pub struct FriendInfo {
    pub steam_id: u64,
    pub name: String,
    pub presence: FriendPresence,
    pub detail: String,
    /// Medium avatar RGBA (64×64×4), if available this poll.
    pub avatar_rgba: Option<Vec<u8>>,
}

/// A rich-presence value as kept: trimmed, and absent when blank.
pub open spec fn clean_value(raw: Option<Seq<char>>) -> Option<Seq<char>> {
    match raw {
        Some(v) => if trim(v).len() > 0 {
            Some(trim(v))
        } else {
            None
        },
        None => None,
    }
}

/// Keeps a value Steam returned for a rich-presence key: trimmed, or `None`
/// when it is missing or blank.
pub fn presence_value(raw: Option<String>) -> (r: Option<String>)
    ensures
        match r {
            Some(v) => clean_value(match raw {
                Some(x) => Some(x@),
                None => None,
            }) == Some(v@),
            None => clean_value(match raw {
                Some(x) => Some(x@),
                None => None,
            }) is None,
        },
{
    match raw {
        Some(v) => {
            let chars = chars_of(v.as_str());
            let (lo, hi) = trim_bounds(&chars);
            if lo < hi {
                let mut t = String::new();
                push_range(&mut t, &chars, lo, hi);
                assert(t@ =~= trim(v@));
                Some(t)
            } else {
                None
            }
        },
        None => None,
    }
}

/// The raw (key, value) reads of one friend, as values.
pub open spec fn fetched_view(f: Seq<(String, Option<String>)>) -> Seq<(Seq<char>, Option<Seq<char>>)> {
    f.map_values(
        |p: (String, Option<String>)|
            (
                p.0@,
                match p.1 {
                    Some(v) => Some(v@),
                    None => None,
                },
            ),
    )
}

/// The keys kept from reads in order: a read counts when its key is not
/// blank, not already kept, and its value is not blank.
pub open spec fn collected(f: Seq<(Seq<char>, Option<Seq<char>>)>) -> Map<Seq<char>, Seq<char>>
    decreases f.len(),
{
    if f.len() == 0 {
        Map::empty()
    } else {
        let m = collected(f.drop_last());
        let (k, v) = f.last();
        if k.len() > 0 && !m.dom().contains(k) && clean_value(v) is Some {
            m.insert(k, clean_value(v)->0)
        } else {
            m
        }
    }
}

/// Builds a friend's rich-presence set from the reads made for the known
/// keys and then for the keys Steam lists.
pub fn collect_rich_presence(fetched: Vec<(String, Option<String>)>) -> (r: RichPresence)
    ensures
        r@ == collected(fetched_view(fetched@)),
{
    let ghost fv = fetched_view(fetched@);
    let mut r = RichPresence::new();
    let mut rest = fetched;
    let ghost all = rest@;
    // Reverse so that popping yields the reads first to last.
    let mut rev: Vec<(String, Option<String>)> = Vec::new();
    while rest.len() > 0
        invariant
            rev@.len() + rest@.len() == all.len(),
            forall|i: int| 0 <= i < rest@.len() ==> rest@[i] == all[i],
            forall|i: int| 0 <= i < rev@.len() ==> rev@[i] == all[all.len() - 1 - i],
        decreases rest.len(),
    {
        let x = rest.pop().unwrap();
        rev.push(x);
    }
    let n = rev.len();
    assert(fv.take(0) =~= Seq::<(Seq<char>, Option<Seq<char>>)>::empty());
    while rev.len() > 0
        invariant
            rev@.len() <= n == all.len(),
            forall|i: int| 0 <= i < rev@.len() ==> rev@[i] == all[all.len() - 1 - i],
            fv == fetched_view(all),
            r@ == collected(fv.take(n - rev@.len())),
        decreases rev.len(),
    {
        let ghost idx = n - rev@.len();
        let (key, raw) = rev.pop().unwrap();
        let ghost raw_view = match &raw {
            Some(x) => Some(x@),
            None => None,
        };
        assert((key, raw) == all[idx]);
        assert(fv[idx] == (key@, raw_view));
        let kchars = chars_of(key.as_str());
        let value = presence_value(raw);
        if kchars.len() > 0 && value.is_some() {
            if r.get(key.as_str()).is_none() {
                r.insert(key, value.unwrap());
            }
        }
        proof {
            let t = fv.take(idx + 1);
            assert(t.drop_last() =~= fv.take(idx));
            assert(t.last() == fv[idx]);
        }
    }
    assert(fv.take(n as int) =~= fv);
    r
}

/// Whether a friend who plays `game` (app id, lobby id) is in CS2, so that
/// their rich presence is worth reading.
pub fn plays_cs2(game: Option<(u32, u64)>) -> (r: bool)
    ensures
        r == match game {
            Some((app_id, _)) => app_id == CS2_APP_ID,
            None => false,
        },
{
    match game {
        Some((app_id, _)) => app_id == CS2_APP_ID,
        None => false,
    }
}

/// Whether a friend shown in the friend list is in CS2: what to show of
/// them, or `None` when they play nothing or another game.
pub open spec fn cs2_friend_fits(
    info: FriendInfo,
    steam_id: u64,
    name: Seq<char>,
    app_id: u32,
    lobby: u64,
    rich: Map<Seq<char>, Seq<char>>,
) -> bool {
    &&& info.steam_id == steam_id
    &&& info.name@ == name
    &&& info.presence@ == presence_of(Some(app_id), if lobby == 0 { None } else { Some(lobby) }, rich)
    &&& info.detail@ == rich_detail(rich)
}

/// The friend-list entry for a friend, when they play CS2. `game` is the
/// app id and lobby id (0 for none) of the game they play, if any.
pub fn cs2_friend_info(
    steam_id: u64,
    name: String,
    game: Option<(u32, u64)>,
    keys: &RichPresence,
    avatar_rgba: Option<Vec<u8>>,
) -> (r: Option<FriendInfo>)
    ensures
        match game {
            None => r is None,
            Some((app_id, lobby)) => if app_id != CS2_APP_ID {
                r is None
            } else {
                r matches Some(info) && cs2_friend_fits(info, steam_id, name@, app_id, lobby, keys@)
                    && info.avatar_rgba == avatar_rgba
            },
        },
{
    let (app_id, lobby) = match game {
        Some(g) => g,
        None => {
            return None;
        },
    };
    if app_id != CS2_APP_ID {
        return None;
    }
    let lobby_opt = if lobby == 0 {
        None
    } else {
        Some(lobby)
    };
    Some(
        FriendInfo {
            steam_id,
            name,
            presence: classify_presence(Some(app_id), lobby_opt, keys),
            detail: format_rich_detail(keys),
            avatar_rgba,
        },
    )
}

/// The lower-cased names of `list`, by which the friend list is sorted.
pub open spec fn name_keys(list: Seq<FriendInfo>) -> Seq<Seq<char>> {
    list.map_values(|f: FriendInfo| lower_of(f.name@))
}

/// Sorts the friend list by lower-cased name, keeping the order of equal names.
pub fn sort_friends_by_name(list: Vec<FriendInfo>) -> (r: Vec<FriendInfo>)
    ensures
        r@.len() == list@.len(),
        exists|order: Seq<usize>|
            #[trigger] stably_sorted(name_keys(list@), order) && forall|k: int|
                0 <= k < r@.len() ==> r@[k] == list@[order[k] as int],
{
    let n = list.len();
    let mut keys: Vec<Vec<char>> = Vec::new();
    let mut i: usize = 0;
    while i < n
        invariant
            n == list@.len(),
            i <= n,
            keys@.len() == i,
            forall|j: int| 0 <= j < i ==> #[trigger] keys@[j]@ == lower_of(list@[j].name@),
        decreases n - i,
    {
        let low = to_lowercase(list[i].name.as_str());
        keys.push(chars_of(low.as_str()));
        i += 1;
    }
    let order = stable_order(&keys);
    proof {
        assert(keys@.map_values(|k: Vec<char>| k@) =~= name_keys(list@));
    }
    let ghost all = list@;
    let mut slots: Vec<Option<FriendInfo>> = Vec::new();
    let mut j: usize = 0;
    while j < n
        invariant
            j <= n,
            slots@.len() == j,
            forall|k: int| 0 <= k < j ==> slots@[k] is None,
        decreases n - j,
    {
        slots.push(None);
        j += 1;
    }
    let mut rest = list;
    while rest.len() > 0
        invariant
            slots@.len() == n == all.len(),
            rest@.len() <= n,
            forall|k: int| 0 <= k < rest@.len() ==> rest@[k] == all[k],
            forall|k: int| rest@.len() <= k < n ==> slots@[k] == Some(all[k]),
        decreases rest.len(),
    {
        let idx = rest.len() - 1;
        let f = rest.pop().unwrap();
        slots.set(idx, Some(f));
    }
    let mut out: Vec<FriendInfo> = Vec::new();
    let mut q: usize = 0;
    while q < n
        invariant
            slots@.len() == n == all.len() == order@.len(),
            stably_sorted(name_keys(all), order@),
            q <= n,
            out@.len() == q,
            forall|k: int| 0 <= k < q ==> out@[k] == all[order@[k] as int],
            forall|k: int| q <= k < n ==> slots@[order@[k] as int] == Some(all[order@[k] as int]),
        decreases n - q,
    {
        let o = order[q];
        let taken = slots.remove(o);
        slots.insert(o, None);
        proof {
            assert forall|k: int| q < k < n implies slots@[order@[k] as int] == Some(
                all[order@[k] as int],
            ) by {
                assert(order@[k] != order@[q as int]) by {
                    assert(crate::order::key_before(
                        name_keys(all),
                        order@[q as int] as int,
                        order@[k] as int,
                    ));
                    crate::text::lemma_seq_lt_irreflexive(name_keys(all)[order@[k] as int]);
                }
            }
        }
        out.push(taken.unwrap());
        q += 1;
    }
    out
}

/// The name shown for friend `id`: the first known name, else the id in decimal.
pub open spec fn lookup_name(names: Seq<(u64, String)>, id: u64) -> Seq<char>
    decreases names.len(),
{
    if names.len() == 0 {
        decimal(id as nat)
    } else if names[0].0 == id {
        names[0].1@
    } else {
        lookup_name(names.drop_first(), id)
    }
}

/// The name to show for friend `id`.
pub fn friend_name(names: &[(u64, String)], id: u64) -> (r: String)
    ensures
        r@ == lookup_name(names@, id),
{
    let mut i: usize = 0;
    assert(names@.skip(0) =~= names@);
    while i < names.len()
        invariant
            i <= names@.len(),
            lookup_name(names@, id) == lookup_name(names@.skip(i as int), id),
        decreases names.len() - i,
    {
        assert(names@.skip(i as int)[0] == names@[i as int]);
        if names[i].0 == id {
            return names[i].1.clone();
        }
        assert(names@.skip(i as int).drop_first() =~= names@.skip(i + 1));
        i += 1;
    }
    decimal_string(id)
}

/// One poll of a watched friend. `game` is the app id and lobby id (0 for
/// none) of the game they play, if any; `keys` is their rich presence.
pub fn watched_status(
    id: u64,
    names: &[(u64, String)],
    game: Option<(u32, u64)>,
    keys: &RichPresence,
) -> (r: WatchedFriendStatus)
    ensures
        r.steam_id == id,
        r.name@ == lookup_name(names@, id),
        r.presence@ == match game {
            Some((app_id, lobby)) => presence_of(
                Some(app_id),
                if lobby == 0 {
                    None
                } else {
                    Some(lobby)
                },
                keys@,
            ),
            None => presence_of(None, None, keys@),
        },
        r.detail@ == rich_detail(keys@),
        r.rich_debug@ == debug_dump(keys@),
{
    let name = friend_name(names, id);
    let presence = match game {
        Some((app_id, lobby)) => {
            let lobby_opt = if lobby == 0 {
                None
            } else {
                Some(lobby)
            };
            classify_presence(Some(app_id), lobby_opt, keys)
        },
        None => FriendPresence::OfflineOrUnknown,
    };
    WatchedFriendStatus {
        steam_id: id,
        name,
        presence,
        detail: format_rich_detail(keys),
        rich_debug: format_rich_debug(keys),
    }
}

/// The message shown when Steamworks could not start under either app id.
pub open spec fn init_failure_text(e730: Seq<char>, e480: Seq<char>) -> Seq<char> {
    "Steamworks init failed (730: "@ + e730 + "; 480: "@ + e480
        + "). Is Steam running and are you logged in?"@
}

pub fn init_failure_message(e730: &str, e480: &str) -> (r: String)
    ensures
        r@ == init_failure_text(e730@, e480@),
{
    let mut r = String::new();
    crate::text::push_str_chars(&mut r, "Steamworks init failed (730: ");
    crate::text::push_str_chars(&mut r, e730);
    crate::text::push_str_chars(&mut r, "; 480: ");
    crate::text::push_str_chars(&mut r, e480);
    crate::text::push_str_chars(&mut r, "). Is Steam running and are you logged in?");
    assert(r@ =~= init_failure_text(e730@, e480@));
    r
}


/// Which app id Steamworks came up under, from the attempts made so far:
/// CS2's (`first`) and, once that failed, the fallback's. `None` means the
/// fallback is still to be tried; when both failed, the message says why.
pub fn steam_init_result(first: &Result<(), String>, fallback: &Option<Result<(), String>>) -> (r: Option<
    Result<u32, String>,
>)
    ensures
        match first {
            Ok(()) => r == Some(Ok::<u32, String>(CS2_APP_ID)),
            Err(e1) => match fallback {
                None => r is None,
                Some(Ok(())) => r == Some(Ok::<u32, String>(FALLBACK_APP_ID)),
                Some(Err(e2)) => r matches Some(Err(m)) && m@ == init_failure_text(e1@, e2@),
            },
        },
{
    match first {
        Ok(()) => Some(Ok(CS2_APP_ID)),
        Err(e1) => match fallback {
            None => None,
            Some(Ok(())) => Some(Ok(FALLBACK_APP_ID)),
            Some(Err(e2)) => Some(Err(init_failure_message(e1.as_str(), e2.as_str()))),
        },
    }
}

} // verus!
