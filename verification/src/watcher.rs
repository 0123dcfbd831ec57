//! Presence and join logic: classifying a friend's presence, choosing the
//! first joinable friend, building join URIs, status lines, and debouncing
//! alerts.
use vstd::prelude::*;
use crate::text::{lemma_decimal_injective, join, capitalize, push_all, push_capitalized, lemma_join_push, trim, decimal, pad2, hex_digit, flatten, chars_of, trim_bounds, string_of, push_str_chars, push_decimal, push_char, push_pad2, hex_char, trimmed, lemma_flatten_push};
use crate::rich::RichPresence;

verus! {

/// Steam app id of Counter-Strike 2.
pub const CS2_APP_ID: u32 = 730;

/// How to ask Steam/CS2 to join this friend.
#[derive(Debug, Clone, PartialEq, Eq)]
pub enum JoinMethod {
    /// Classic Steam lobby URI.
    Lobby { lobby_id: u64 },
    /// CS2 rich-presence connect, e.g. `+gcconnect…`.
    Connect { connect: String },
}

impl JoinMethod {
    /// A copy of the method.
    pub fn duplicate(&self) -> (r: Self)
        ensures
            r == *self,
    {
        match self {
            JoinMethod::Lobby { lobby_id } => JoinMethod::Lobby { lobby_id: *lobby_id },
            JoinMethod::Connect { connect } => JoinMethod::Connect { connect: connect.clone() },
        }
    }
}

/// A join method as values.
pub enum JoinMethodView {
    Lobby { lobby_id: u64 },
    Connect { connect: Seq<char> },
}

impl View for JoinMethod {
    type V = JoinMethodView;

    open spec fn view(&self) -> JoinMethodView {
        match self {
            JoinMethod::Lobby { lobby_id } => JoinMethodView::Lobby { lobby_id: *lobby_id },
            JoinMethod::Connect { connect } => JoinMethodView::Connect { connect: connect@ },
        }
    }
}

/// What Steam shows of a friend.
#[derive(Debug, Clone, PartialEq, Eq)]
pub enum FriendPresence {
    OfflineOrUnknown,
    OtherGame { app_id: u32 },
    /// In CS2 but no Steam join path (lobby id / connect string).
    InCs2Full,
    Joinable { method: JoinMethod },
}

/// A presence as values.
pub enum PresenceView {
    OfflineOrUnknown,
    OtherGame { app_id: u32 },
    InCs2Full,
    Joinable { method: JoinMethodView },
}

impl View for FriendPresence {
    type V = PresenceView;

    open spec fn view(&self) -> PresenceView {
        match self {
            FriendPresence::OfflineOrUnknown => PresenceView::OfflineOrUnknown,
            FriendPresence::OtherGame { app_id } => PresenceView::OtherGame { app_id: *app_id },
            FriendPresence::InCs2Full => PresenceView::InCs2Full,
            FriendPresence::Joinable { method } => PresenceView::Joinable { method: method@ },
        }
    }
}

/// One watched friend as the last poll saw them.
#[derive(Debug, Clone, PartialEq, Eq)]
pub struct WatchedFriendStatus {
    pub steam_id: u64,
    pub name: String,
    pub presence: FriendPresence,
    /// Map / score / mode line from rich presence when available.
    pub detail: String,
    /// Full rich-presence key dump for debugging.
    pub rich_debug: String,
}

/// The value of rich-presence key `k`, trimmed, when it is set and not blank.
pub open spec fn rich_field(m: Map<Seq<char>, Seq<char>>, k: Seq<char>) -> Option<Seq<char>> {
    if m.dom().contains(k) && trim(m[k]).len() > 0 {
        Some(trim(m[k]))
    } else {
        None
    }
}

/// The presence that Steam's game id, lobby id and rich presence describe:
/// joinable only through a non-zero lobby id or a non-blank `connect` value.
pub open spec fn presence_of(
    game_app_id: Option<u32>,
    lobby_id: Option<u64>,
    rich: Map<Seq<char>, Seq<char>>,
) -> PresenceView {
    match game_app_id {
        None => PresenceView::OfflineOrUnknown,
        Some(app_id) => if app_id != CS2_APP_ID {
            PresenceView::OtherGame { app_id }
        } else if lobby_id is Some && lobby_id->0 != 0 {
            PresenceView::Joinable { method: JoinMethodView::Lobby { lobby_id: lobby_id->0 } }
        } else {
            match rich_field(rich, "connect"@) {
                Some(c) => PresenceView::Joinable { method: JoinMethodView::Connect { connect: c } },
                None => PresenceView::InCs2Full,
            }
        },
    }
}

/// The trimmed, non-blank value of key `k`.
pub(crate) fn field(keys: &RichPresence, k: &str) -> (r: Option<Vec<char>>)
    ensures
        match r {
            Some(v) => rich_field(keys@, k@) == Some(v@),
            None => rich_field(keys@, k@) is None,
        },
{
    match keys.get(k) {
        Some(v) => {
            let chars = chars_of(v.as_str());
            let (lo, hi) = trim_bounds(&chars);
            if lo < hi {
                let mut t: Vec<char> = Vec::new();
                let mut i = lo;
                while i < hi
                    invariant
                        lo <= i <= hi <= chars.len(),
                        t@ == chars@.subrange(lo as int, i as int),
                    decreases hi - i,
                {
                    t.push(chars[i]);
                    assert(chars@.subrange(lo as int, i + 1) =~= t@);
                    i += 1;
                }
                Some(t)
            } else {
                None
            }
        },
        None => None,
    }
}

/// Classify from Steamworks lobby id + CS2 rich-presence keys.
///
/// Only treat as joinable when Steam exposes a real join path:
/// a lobby id, or a `connect` / `+gcconnect…` string.
/// Party size keys (`members:numPlayers`, `steam_player_group_size`) are **not**
/// join signals — Premier/comp often show open party seats while mid-match and
/// Steam still hides Join Game.
pub fn classify_presence(
    game_app_id: Option<u32>,
    lobby_id: Option<u64>,
    rich: &RichPresence,
) -> (r: FriendPresence)
    ensures
        r@ == presence_of(game_app_id, lobby_id, rich@),
{
    let app_id = match game_app_id {
        Some(a) => a,
        None => {
            return FriendPresence::OfflineOrUnknown;
        },
    };
    if app_id != CS2_APP_ID {
        return FriendPresence::OtherGame { app_id };
    }
    if let Some(id) = lobby_id {
        if id != 0 {
            return FriendPresence::Joinable { method: JoinMethod::Lobby { lobby_id: id } };
        }
    }
    match field(rich, "connect") {
        Some(c) => FriendPresence::Joinable { method: JoinMethod::Connect { connect: string_of(&c) } },
        None => FriendPresence::InCs2Full,
    }
}

/// Classification reads no rich-presence key but `connect`: party size,
/// access and lock keys never make a friend joinable or not.
pub proof fn lemma_only_connect_decides(
    game_app_id: Option<u32>,
    lobby_id: Option<u64>,
    a: Map<Seq<char>, Seq<char>>,
    b: Map<Seq<char>, Seq<char>>,
)
    requires
        rich_field(a, "connect"@) == rich_field(b, "connect"@),
    ensures
        presence_of(game_app_id, lobby_id, a) == presence_of(game_app_id, lobby_id, b),
{
}

/// A friend is joinable only in CS2, and only through a non-zero lobby id
/// or a non-blank `connect` value.
pub proof fn lemma_joinable_needs_join_path(
    game_app_id: Option<u32>,
    lobby_id: Option<u64>,
    rich: Map<Seq<char>, Seq<char>>,
)
    ensures
        presence_of(game_app_id, lobby_id, rich) is Joinable ==> game_app_id == Some(CS2_APP_ID) && (
        (lobby_id is Some && lobby_id->0 != 0) || rich_field(rich, "connect"@) is Some),
{
}

/// `j` is the first status of friend `id`.
pub open spec fn first_status_of(statuses: Seq<WatchedFriendStatus>, id: u64, j: int) -> bool {
    &&& 0 <= j < statuses.len()
    &&& statuses[j].steam_id == id
    &&& forall|k: int| 0 <= k < j ==> #[trigger] statuses[k].steam_id != id
}

/// Index of the first status of friend `id`, if there is one.
pub open spec fn first_status_index(statuses: Seq<WatchedFriendStatus>, id: u64) -> Option<int> {
    if exists|j: int| #[trigger] first_status_of(statuses, id, j) {
        Some(choose|j: int| #[trigger] first_status_of(statuses, id, j))
    } else {
        None
    }
}

/// Friend `id`'s first status says they are joinable.
pub open spec fn joinable_in(statuses: Seq<WatchedFriendStatus>, id: u64) -> bool {
    &&& first_status_index(statuses, id) is Some
    &&& statuses[first_status_index(statuses, id)->0].presence@ is Joinable
}

/// `i` is the first position of `order` whose friend is joinable.
pub open spec fn first_joinable_pos(order: Seq<u64>, statuses: Seq<WatchedFriendStatus>, i: int) -> bool {
    &&& 0 <= i < order.len()
    &&& joinable_in(statuses, order[i])
    &&& forall|i2: int| 0 <= i2 < i ==> !joinable_in(statuses, #[trigger] order[i2])
}

/// Index in `statuses` of the first friend of `order` who is joinable.
pub open spec fn first_joinable_index(order: Seq<u64>, statuses: Seq<WatchedFriendStatus>) -> Option<int> {
    if exists|i: int| #[trigger] first_joinable_pos(order, statuses, i) {
        first_status_index(statuses, order[choose|i: int| #[trigger] first_joinable_pos(order, statuses, i)])
    } else {
        None
    }
}

proof fn lemma_first_status_unique(statuses: Seq<WatchedFriendStatus>, id: u64, j: int)
    requires
        first_status_of(statuses, id, j),
    ensures
        first_status_index(statuses, id) == Some(j),
{
    let c = choose|c: int| #[trigger] first_status_of(statuses, id, c);
    assert(first_status_of(statuses, id, c));
    if c < j {
        assert(statuses[c].steam_id != id);
    } else if c > j {
        assert(statuses[j].steam_id != id);
    }
}

proof fn lemma_first_joinable_unique(order: Seq<u64>, statuses: Seq<WatchedFriendStatus>, i: int)
    requires
        first_joinable_pos(order, statuses, i),
    ensures
        first_joinable_index(order, statuses) == first_status_index(statuses, order[i]),
{
    let c = choose|c: int| #[trigger] first_joinable_pos(order, statuses, c);
    assert(first_joinable_pos(order, statuses, c));
    if c < i {
        assert(!joinable_in(statuses, order[c]));
    } else if c > i {
        assert(!joinable_in(statuses, order[i]));
    }
}

/// First friend in `order` that is currently joinable.
pub fn first_joinable<'a>(order: &[u64], statuses: &'a [WatchedFriendStatus]) -> (r: Option<
    &'a WatchedFriendStatus,
>)
    ensures
        r is None <==> first_joinable_index(order@, statuses@) is None,
        r matches Some(s) ==> *s == statuses@[first_joinable_index(order@, statuses@)->0],
{
    let mut i: usize = 0;
    while i < order.len()
        invariant
            i <= order@.len(),
            forall|i2: int| 0 <= i2 < i ==> !joinable_in(statuses@, #[trigger] order@[i2]),
        decreases order.len() - i,
    {
        let id = order[i];
        let mut j: usize = 0;
        while j < statuses.len() && statuses[j].steam_id != id
            invariant
                j <= statuses@.len(),
                forall|k: int| 0 <= k < j ==> #[trigger] statuses@[k].steam_id != id,
            decreases statuses.len() - j,
        {
            j += 1;
        }
        if j < statuses.len() {
            proof {
                assert(first_status_of(statuses@, id, j as int));
                lemma_first_status_unique(statuses@, id, j as int);
            }
            if let FriendPresence::Joinable { .. } = statuses[j].presence {
                proof {
                    assert(first_joinable_pos(order@, statuses@, i as int));
                    lemma_first_joinable_unique(order@, statuses@, i as int);
                }
                return Some(&statuses[j]);
            }
        } else {
            assert(!(exists|j2: int| #[trigger] first_status_of(statuses@, id, j2))) by {
                if exists|j2: int| #[trigger] first_status_of(statuses@, id, j2) {
                    let j2 = choose|j2: int| #[trigger] first_status_of(statuses@, id, j2);
                    assert(statuses@[j2].steam_id != id);
                }
            }
        }
        i += 1;
    }
    assert(!(exists|i2: int| #[trigger] first_joinable_pos(order@, statuses@, i2)));
    None
}


/// Two join methods ask for the same join.
fn same_method(a: &JoinMethod, b: &JoinMethod) -> (r: bool)
    ensures
        r == (a@ == b@),
{
    match (a, b) {
        (JoinMethod::Lobby { lobby_id: x }, JoinMethod::Lobby { lobby_id: y }) => *x == *y,
        (JoinMethod::Connect { connect: x }, JoinMethod::Connect { connect: y }) => {
            let r = *x == *y;
            proof {
                if x@ == y@ {
                    assert(a@ == b@);
                }
            }
            r
        },
        _ => false,
    }
}

/// Friend `id`'s first status says they are joinable with method `m`.
pub open spec fn joinable_with(statuses: Seq<WatchedFriendStatus>, id: u64, m: JoinMethodView) -> bool {
    match first_status_index(statuses, id) {
        Some(j) => statuses[j].presence@ == PresenceView::Joinable { method: m },
        None => false,
    }
}

/// Whether friend `id`'s spot through `method` is still there in `statuses`.
pub fn still_joinable_with(statuses: &[WatchedFriendStatus], id: u64, method: &JoinMethod) -> (r: bool)
    ensures
        r == joinable_with(statuses@, id, method@),
{
    let mut j: usize = 0;
    while j < statuses.len() && statuses[j].steam_id != id
        invariant
            j <= statuses@.len(),
            forall|k: int| 0 <= k < j ==> #[trigger] statuses@[k].steam_id != id,
        decreases statuses.len() - j,
    {
        j += 1;
    }
    if j < statuses.len() {
        proof {
            assert(first_status_of(statuses@, id, j as int));
            lemma_first_status_unique(statuses@, id, j as int);
        }
        match &statuses[j].presence {
            FriendPresence::Joinable { method: m } => same_method(m, method),
            _ => false,
        }
    } else {
        assert(!(exists|j2: int| #[trigger] first_status_of(statuses@, id, j2))) by {
            if exists|j2: int| #[trigger] first_status_of(statuses@, id, j2) {
                let j2 = choose|j2: int| #[trigger] first_status_of(statuses@, id, j2);
                assert(statuses@[j2].steam_id != id);
            }
        }
        false
    }
}

/// No two statuses are for the same friend.
pub open spec fn ids_distinct(ss: Seq<WatchedFriendStatus>) -> bool {
    forall|i: int, j: int| 0 <= i < j < ss.len() ==> #[trigger] ss[i].steam_id != #[trigger] ss[j].steam_id
}

/// `s2` is `s1` reordered: `s2[i]` is `s1[p[i]]`, and `p` is a permutation.
pub open spec fn is_reordering(p: Seq<int>, s1: Seq<WatchedFriendStatus>, s2: Seq<WatchedFriendStatus>) -> bool {
    &&& s1.len() == s2.len()
    &&& p.len() == s2.len()
    &&& forall|i: int| 0 <= i < s2.len() ==> 0 <= #[trigger] p[i] < s1.len() && s2[i] == s1[p[i]]
    &&& forall|i: int, k: int| 0 <= i < k < s2.len() ==> #[trigger] p[i] != #[trigger] p[k]
    &&& forall|j: int| #![trigger s1[j]] 0 <= j < s1.len() ==> exists|i: int| 0 <= i < s2.len() && #[trigger] p[i] == j
}

proof fn lemma_reorder_status(p: Seq<int>, s1: Seq<WatchedFriendStatus>, s2: Seq<WatchedFriendStatus>, id: u64)
    requires
        is_reordering(p, s1, s2),
        ids_distinct(s1),
    ensures
        match first_status_index(s1, id) {
            Some(j1) => first_status_index(s2, id) matches Some(j2) && s2[j2] == s1[j1],
            None => first_status_index(s2, id) is None,
        },
        joinable_in(s1, id) == joinable_in(s2, id),
{
    if exists|j: int| 0 <= j < s1.len() && #[trigger] s1[j].steam_id == id {
        let j1 = choose|j: int| 0 <= j < s1.len() && #[trigger] s1[j].steam_id == id;
        assert(first_status_of(s1, id, j1)) by {
            assert forall|k: int| 0 <= k < j1 implies #[trigger] s1[k].steam_id != id by {
                assert(s1[k].steam_id != s1[j1].steam_id);
            }
        }
        lemma_first_status_unique(s1, id, j1);
        let i = choose|i: int| 0 <= i < s2.len() && #[trigger] p[i] == j1;
        assert(s2[i] == s1[j1]);
        assert(first_status_of(s2, id, i)) by {
            assert forall|k: int| 0 <= k < i implies #[trigger] s2[k].steam_id != id by {
                assert(s2[k] == s1[p[k]]);
                assert(p[k] != p[i]);
                if p[k] < j1 {
                    assert(s1[p[k]].steam_id != s1[j1].steam_id);
                } else if p[k] > j1 {
                    assert(s1[j1].steam_id != s1[p[k]].steam_id);
                }
            }
        }
        lemma_first_status_unique(s2, id, i);
    } else {
        assert(!(exists|j: int| #[trigger] first_status_of(s1, id, j))) by {
            if exists|j: int| #[trigger] first_status_of(s1, id, j) {
                let j = choose|j: int| #[trigger] first_status_of(s1, id, j);
                assert(s1[j].steam_id == id);
            }
        }
        assert(!(exists|j: int| #[trigger] first_status_of(s2, id, j))) by {
            if exists|j: int| #[trigger] first_status_of(s2, id, j) {
                let j = choose|j: int| #[trigger] first_status_of(s2, id, j);
                assert(s2[j] == s1[p[j]]);
                assert(s1[p[j]].steam_id == id);
            }
        }
    }
}

/// The winner is decided by watch order, never by the order of the
/// statuses: reordering statuses of distinct friends picks the same status.
pub proof fn lemma_first_joinable_ignores_status_order(
    order: Seq<u64>,
    p: Seq<int>,
    s1: Seq<WatchedFriendStatus>,
    s2: Seq<WatchedFriendStatus>,
)
    requires
        is_reordering(p, s1, s2),
        ids_distinct(s1),
    ensures
        first_joinable_index(order, s1) is None <==> first_joinable_index(order, s2) is None,
        first_joinable_index(order, s1) matches Some(j1) ==> s2[first_joinable_index(order, s2)->0] == s1[j1],
{
    assert forall|id: u64| joinable_in(s1, id) == joinable_in(s2, id) by {
        lemma_reorder_status(p, s1, s2, id);
    }
    if exists|i: int| #[trigger] first_joinable_pos(order, s1, i) {
        let i = choose|i: int| #[trigger] first_joinable_pos(order, s1, i);
        assert(first_joinable_pos(order, s2, i));
        lemma_first_joinable_unique(order, s1, i);
        lemma_first_joinable_unique(order, s2, i);
        lemma_reorder_status(p, s1, s2, order[i]);
    } else {
        assert(!(exists|i: int| #[trigger] first_joinable_pos(order, s2, i))) by {
            if exists|i: int| #[trigger] first_joinable_pos(order, s2, i) {
                let i = choose|i: int| #[trigger] first_joinable_pos(order, s2, i);
                assert(first_joinable_pos(order, s1, i));
            }
        }
    }
}

/// `steam://joinlobby/730/<lobby>/<friend>`.
pub open spec fn lobby_uri(lobby_id: u64, friend_steam_id: u64) -> Seq<char> {
    "steam://joinlobby/"@ + decimal(CS2_APP_ID as nat) + seq!['/'] + decimal(lobby_id as nat)
        + seq!['/'] + decimal(friend_steam_id as nat)
}

pub fn join_lobby_uri(lobby_id: u64, friend_steam_id: u64) -> (s: String)
    ensures
        s@ == lobby_uri(lobby_id, friend_steam_id),
{
    let mut s = String::new();
    push_str_chars(&mut s, "steam://joinlobby/");
    push_decimal(&mut s, CS2_APP_ID as u64);
    push_char(&mut s, '/');
    push_decimal(&mut s, lobby_id);
    push_char(&mut s, '/');
    push_decimal(&mut s, friend_steam_id);
    assert(s@ =~= lobby_uri(lobby_id, friend_steam_id));
    s
}

/// Bytes that stay as they are in the URI: ASCII letters, digits, `-`, `_`, `.`.
pub open spec fn unreserved(b: u8) -> bool {
    ||| (48 <= b && b <= 57)
    ||| (65 <= b && b <= 90)
    ||| (97 <= b && b <= 122)
    ||| b == 45
    ||| b == 95
    ||| b == 46
}

/// One byte in the URI: itself when unreserved, else `%` and two upper-case hex digits.
pub open spec fn encode_byte(b: u8) -> Seq<char> {
    if unreserved(b) {
        seq![b as char]
    } else {
        seq!['%', hex_digit((b / 16) as nat), hex_digit((b % 16) as nat)]
    }
}

/// Percent-encoding of a byte string.
pub open spec fn percent_encode(bytes: Seq<u8>) -> Seq<char> {
    flatten(bytes.map_values(|b: u8| encode_byte(b)))
}

/// `steam://run/730//` followed by the encoded UTF-8 bytes of the trimmed connect string.
pub open spec fn connect_uri(connect: Seq<char>) -> Seq<char> {
    connect_uri_prefix() + percent_encode(vstd::utf8::encode_utf8(trim(connect)))
}

/// `steam://run/730//`, before the encoded arguments.
pub open spec fn connect_uri_prefix() -> Seq<char> {
    "steam://run/"@ + decimal(CS2_APP_ID as nat) + seq!['/', '/']
}

/// Characters an encoded argument consists of: ASCII letters and digits,
/// `-`, `_`, `.` and `%`.
pub open spec fn uri_safe(c: char) -> bool {
    ||| ('0' <= c && c <= '9')
    ||| ('A' <= c && c <= 'Z')
    ||| ('a' <= c && c <= 'z')
    ||| c == '-'
    ||| c == '_'
    ||| c == '.'
    ||| c == '%'
}

fn is_unreserved(b: u8) -> (r: bool)
    ensures
        r == unreserved(b),
{
    (48 <= b && b <= 57) || (65 <= b && b <= 90) || (97 <= b && b <= 122) || b == 45 || b == 95
        || b == 46
}

/// Launch CS2 with a rich-presence connect string (`+gcconnect…`).
pub fn join_connect_uri(connect: &str) -> (s: String)
    ensures
        s@ == connect_uri(connect@),
{
    let args = trimmed(connect);
    let bytes = args.as_str().as_bytes();
    let ghost bs = bytes@;
    assert(bs == vstd::utf8::encode_utf8(trim(connect@)));
    let ghost parts = bs.map_values(|b: u8| encode_byte(b));
    let mut s = String::new();
    push_str_chars(&mut s, "steam://run/");
    push_decimal(&mut s, CS2_APP_ID as u64);
    push_char(&mut s, '/');
    push_char(&mut s, '/');
    let ghost head = s@;
    let mut i: usize = 0;
    while i < bytes.len()
        invariant
            bs == bytes@,
            parts == bs.map_values(|b: u8| encode_byte(b)),
            i <= bs.len(),
            s@ == head + flatten(parts.take(i as int)),
        decreases bytes.len() - i,
    {
        let b = bytes[i];
        let ghost before = s@;
        if is_unreserved(b) {
            push_char(&mut s, b as char);
        } else {
            push_char(&mut s, '%');
            push_char(&mut s, hex_char(b / 16));
            push_char(&mut s, hex_char(b % 16));
        }
        proof {
            assert(parts.take(i + 1) =~= parts.take(i as int).push(parts[i as int]));
            lemma_flatten_push(parts.take(i as int), parts[i as int]);
            assert(s@ =~= before + encode_byte(b));
        }
        i += 1;
    }
    assert(parts.take(bs.len() as int) =~= parts);
    assert(s@ =~= connect_uri(connect@));
    s
}


/// Value of a hexadecimal digit character (`0`–`9`, `A`–`F`).
pub open spec fn hex_value(c: char) -> int {
    if '0' <= c && c <= '9' {
        c as int - 48
    } else {
        c as int - 55
    }
}

/// Percent-decoding: `%` and two hex digits stand for one byte, any other
/// character for its own code.
pub open spec fn percent_decode(s: Seq<char>) -> Seq<u8>
    decreases s.len(),
{
    if s.len() == 0 {
        Seq::empty()
    } else if s[0] == '%' && s.len() >= 3 {
        seq![(hex_value(s[1]) * 16 + hex_value(s[2])) as u8] + percent_decode(s.skip(3))
    } else {
        seq![s[0] as u8] + percent_decode(s.skip(1))
    }
}

proof fn lemma_flatten_front(parts: Seq<Seq<char>>)
    requires
        parts.len() > 0,
    ensures
        flatten(parts) == parts[0] + flatten(parts.drop_first()),
    decreases parts.len(),
{
    if parts.len() == 1 {
        assert(parts.drop_first().len() == 0);
        assert(parts.drop_last().len() == 0);
        assert(flatten(parts.drop_first()) == Seq::<char>::empty());
        assert(flatten(parts.drop_last()) == Seq::<char>::empty());
        assert(flatten(parts) == flatten(parts.drop_last()) + parts.last());
        assert(parts.last() == parts[0]);
        assert(flatten(parts) =~= parts[0] + flatten(parts.drop_first()));
    } else {
        let a = parts.drop_last();
        let b = parts.drop_first();
        lemma_flatten_front(a);
        assert(a.drop_first() =~= b.drop_last());
        assert(b.last() == parts.last());
        assert(a[0] == parts[0]);
        assert(flatten(parts) == flatten(a) + parts.last());
        assert(flatten(b) == flatten(b.drop_last()) + b.last());
        assert(flatten(parts) =~= parts[0] + flatten(parts.drop_first()));
    }
}

proof fn lemma_decode_one(b: u8, rest: Seq<char>)
    ensures
        percent_decode(encode_byte(b) + rest) == seq![b] + percent_decode(rest),
{
    let e = encode_byte(b) + rest;
    if unreserved(b) {
        assert(e[0] == b as char);
        assert(e.skip(1) =~= rest);
    } else {
        let hi = (b / 16) as nat;
        let lo = (b % 16) as nat;
        assert(e[0] == '%');
        assert(e[1] == hex_digit(hi));
        assert(e[2] == hex_digit(lo));
        assert(hex_value(hex_digit(hi)) == hi) by {
            if hi < 10 {
                assert((((48 + hi) as u8) as char) as u32 == 48 + hi);
            } else {
                assert((((55 + hi) as u8) as char) as u32 == 55 + hi);
            }
        }
        assert(hex_value(hex_digit(lo)) == lo) by {
            if lo < 10 {
                assert((((48 + lo) as u8) as char) as u32 == 48 + lo);
            } else {
                assert((((55 + lo) as u8) as char) as u32 == 55 + lo);
            }
        }
        assert(e.skip(3) =~= rest);
    }
}

/// Decoding the percent-encoding gives back the bytes: every byte of the
/// connect string, `+` among them, survives the URI.
pub proof fn lemma_percent_roundtrip(bytes: Seq<u8>)
    ensures
        percent_decode(percent_encode(bytes)) == bytes,
    decreases bytes.len(),
{
    if bytes.len() == 0 {
        assert(percent_encode(bytes) == Seq::<char>::empty());
    } else {
        let parts = bytes.map_values(|b: u8| encode_byte(b));
        lemma_flatten_front(parts);
        assert(parts.drop_first() =~= bytes.drop_first().map_values(|b: u8| encode_byte(b)));
        lemma_percent_roundtrip(bytes.drop_first());
        lemma_decode_one(bytes[0], percent_encode(bytes.drop_first()));
        assert(bytes =~= seq![bytes[0]] + bytes.drop_first());
    }
}


proof fn lemma_encode_byte_safe(b: u8)
    ensures
        forall|k: int| 0 <= k < encode_byte(b).len() ==> uri_safe(#[trigger] encode_byte(b)[k]),
{
    if unreserved(b) {
        assert((b as char) as u32 == b as u32);
    } else {
        let hi = (b / 16) as nat;
        let lo = (b % 16) as nat;
        if hi < 10 {
            assert((((48 + hi) as u8) as char) as u32 == 48 + hi);
        } else {
            assert((((55 + hi) as u8) as char) as u32 == 55 + hi);
        }
        if lo < 10 {
            assert((((48 + lo) as u8) as char) as u32 == 48 + lo);
        } else {
            assert((((55 + lo) as u8) as char) as u32 == 55 + lo);
        }
    }
}

proof fn lemma_percent_encode_safe(bytes: Seq<u8>)
    ensures
        forall|k: int| 0 <= k < percent_encode(bytes).len() ==> uri_safe(#[trigger] percent_encode(bytes)[k]),
    decreases bytes.len(),
{
    if bytes.len() > 0 {
        let init = bytes.drop_last();
        lemma_percent_encode_safe(init);
        lemma_encode_byte_safe(bytes.last());
        let parts = bytes.map_values(|b: u8| encode_byte(b));
        assert(parts.drop_last() =~= init.map_values(|b: u8| encode_byte(b)));
        assert(parts.last() == encode_byte(bytes.last()));
        let a = percent_encode(init);
        let e = encode_byte(bytes.last());
        assert(percent_encode(bytes) == a + e);
        assert forall|k: int| 0 <= k < percent_encode(bytes).len() implies uri_safe(
            #[trigger] percent_encode(bytes)[k],
        ) by {
            if k < a.len() {
                assert(percent_encode(bytes)[k] == a[k]);
            } else {
                assert(percent_encode(bytes)[k] == e[k - a.len()]);
            }
        }
    }
}

/// After `steam://run/730//`, the connect URI holds only ASCII letters,
/// digits, `-`, `_`, `.` and `%` (no `+`, space, `:`, `/`, `?`, `#`, `&`,
/// `=`), and percent-decoding it gives back the UTF-8 bytes of the trimmed
/// connect string.
pub proof fn lemma_connect_uri_tail(connect: Seq<char>)
    ensures
        ({
            let tail = connect_uri(connect).skip(connect_uri_prefix().len() as int);
            &&& connect_uri_prefix().is_prefix_of(connect_uri(connect))
            &&& forall|k: int| 0 <= k < tail.len() ==> uri_safe(#[trigger] tail[k])
            &&& percent_decode(tail) == vstd::utf8::encode_utf8(trim(connect))
        }),
{
    let bytes = vstd::utf8::encode_utf8(trim(connect));
    let tail = connect_uri(connect).skip(connect_uri_prefix().len() as int);
    assert(tail =~= percent_encode(bytes));
    assert(connect_uri_prefix() =~= connect_uri(connect).subrange(0, connect_uri_prefix().len() as int));
    lemma_percent_encode_safe(bytes);
    lemma_percent_roundtrip(bytes);
}

/// `h:mm:ss` when at least an hour has passed, else `mm:ss`.
pub open spec fn elapsed_text(secs: nat) -> Seq<char> {
    let h = secs / 3600;
    let m = (secs % 3600) / 60;
    let s = secs % 60;
    if h > 0 {
        decimal(h) + seq![':'] + pad2(m) + seq![':'] + pad2(s)
    } else {
        pad2(m) + seq![':'] + pad2(s)
    }
}

pub fn format_elapsed(secs: u64) -> (r: String)
    ensures
        r@ == elapsed_text(secs as nat),
{
    let h = secs / 3600;
    let m = (secs % 3600) / 60;
    let s = secs % 60;
    let mut out = String::new();
    if h > 0 {
        push_decimal(&mut out, h);
        push_char(&mut out, ':');
    }
    push_pad2(&mut out, m);
    push_char(&mut out, ':');
    push_pad2(&mut out, s);
    assert(out@ =~= elapsed_text(secs as nat));
    out
}


/// The part of a path after its last `/` (all of it when there is none).
pub open spec fn after_last_slash(s: Seq<char>) -> Seq<char>
    decreases s.len(),
{
    if s.len() == 0 {
        s
    } else if s.last() == '/' {
        Seq::empty()
    } else {
        after_last_slash(s.drop_last()).push(s.last())
    }
}

/// `s` without the prefix `p`, when it starts with it (`str::strip_prefix`).
pub open spec fn strip(s: Seq<char>, p: Seq<char>) -> Seq<char> {
    if p.is_prefix_of(s) {
        s.skip(p.len() as int)
    } else {
        s
    }
}

/// The pieces of `s` between occurrences of `c` (`str::split`).
pub open spec fn split_on(s: Seq<char>, c: char) -> Seq<Seq<char>>
    decreases s.len(),
{
    if s.len() == 0 {
        seq![Seq::empty()]
    } else {
        let init = split_on(s.drop_last(), c);
        if s.last() == c {
            init.push(Seq::empty())
        } else {
            init.update(init.len() - 1, init.last().push(s.last()))
        }
    }
}

pub proof fn lemma_split_on_nonempty(s: Seq<char>, c: char)
    ensures
        split_on(s, c).len() >= 1,
    decreases s.len(),
{
    if s.len() > 0 {
        lemma_split_on_nonempty(s.drop_last(), c);
    }
}

/// A map id shown as words: `de_dust2` → `Dust2`, `maps/cs_office` → `Office`.
pub open spec fn pretty_map_text(raw: Seq<char>) -> Seq<char> {
    let name = strip(
        strip(strip(after_last_slash(raw), seq!['d', 'e', '_']), seq!['c', 's', '_']),
        seq!['g', 'd', '_'],
    );
    join(split_on(name, '_').map_values(|w: Seq<char>| capitalize(w)), seq![' '])
}

/// The separator between the parts of a composed detail line.
pub open spec fn detail_sep() -> Seq<char> {
    seq![' ', '\u{b7}', ' ']
}

/// The first of two optional values that is present.
pub open spec fn or_else(a: Option<Seq<char>>, b: Option<Seq<char>>) -> Option<Seq<char>> {
    if a is Some {
        a
    } else {
        b
    }
}

/// `parts` with `p` added when present.
pub open spec fn push_some(parts: Seq<Seq<char>>, p: Option<Seq<char>>) -> Seq<Seq<char>> {
    match p {
        Some(x) => parts.push(x),
        None => parts,
    }
}

/// The detail line: CS2's own `steam_display` (unless it is a `#` token),
/// else `status`, else mode, map and score composed.
pub open spec fn rich_detail(m: Map<Seq<char>, Seq<char>>) -> Seq<char> {
    let display = rich_field(m, "steam_display"@);
    let status = rich_field(m, "status"@);
    if display is Some && display->0[0] != '#' {
        display->0
    } else if status is Some {
        status->0
    } else {
        let map = or_else(
            rich_field(m, "game:map"@),
            or_else(rich_field(m, "game:mapgroupname"@), rich_field(m, "map"@)),
        );
        let mode = or_else(rich_field(m, "game:mode"@), rich_field(m, "mode"@));
        let score = or_else(rich_field(m, "game:score"@), rich_field(m, "score"@));
        let parts = push_some(
            push_some(
                push_some(Seq::empty(), match mode {
                    Some(x) => Some(capitalize(x)),
                    None => None,
                }),
                match map {
                    Some(x) => Some(pretty_map_text(x)),
                    None => None,
                },
            ),
            score,
        );
        join(parts, detail_sep())
    }
}

/// Index just past the last `/` of `v` (0 when there is none).
fn after_last_slash_start(v: &Vec<char>) -> (j: usize)
    ensures
        j <= v.len(),
        v@.subrange(j as int, v.len() as int) == after_last_slash(v@),
{
    let n = v.len();
    let mut j = n;
    assert(v@.take(n as int) =~= v@);
    assert(v@.subrange(n as int, n as int) =~= Seq::<char>::empty());
    while j > 0 && v[j - 1] != '/'
        invariant
            j <= n == v.len(),
            after_last_slash(v@) == after_last_slash(v@.take(j as int)) + v@.subrange(j as int, n as int),
        decreases j,
    {
        proof {
            let t = v@.take(j as int);
            assert(t.drop_last() =~= v@.take(j - 1));
            assert(t.last() == v@[j - 1]);
            assert(v@.subrange(j - 1, n as int) =~= seq![v@[j - 1]] + v@.subrange(j as int, n as int));
            assert(after_last_slash(t) == after_last_slash(v@.take(j - 1)).push(v@[j - 1]));
            assert(after_last_slash(v@.take(j - 1)).push(v@[j - 1]) + v@.subrange(j as int, n as int)
                =~= after_last_slash(v@.take(j - 1)) + v@.subrange(j - 1, n as int));
        }
        j -= 1;
    }
    proof {
        let t = v@.take(j as int);
        if j > 0 {
            assert(t.last() == v@[j - 1]);
            assert(after_last_slash(t) == Seq::<char>::empty());
        } else {
            assert(t.len() == 0);
        }
        assert(after_last_slash(v@) =~= v@.subrange(j as int, n as int));
    }
    j
}

/// Start of `v[lo..hi]` once the three-character prefix `[a, b, c]` is stripped.
fn strip3(v: &Vec<char>, lo: usize, hi: usize, a: char, b: char, c: char) -> (r: usize)
    requires
        lo <= hi <= v.len(),
    ensures
        lo <= r <= hi,
        v@.subrange(r as int, hi as int) == strip(v@.subrange(lo as int, hi as int), seq![a, b, c]),
{
    let ghost w = v@.subrange(lo as int, hi as int);
    let ghost p = seq![a, b, c];
    if hi - lo >= 3 && v[lo] == a && v[lo + 1] == b && v[lo + 2] == c {
        assert(p =~= w.subrange(0, 3));
        assert(w.skip(3) =~= v@.subrange(lo + 3, hi as int));
        lo + 3
    } else {
        proof {
            if p.is_prefix_of(w) {
                assert(w[0] == p[0] && w[1] == p[1] && w[2] == p[2]);
            }
        }
        lo
    }
}

/// The pieces of `v[lo..hi]` between underscores.
fn split_underscores(v: &Vec<char>, lo: usize, hi: usize) -> (pieces: Vec<Vec<char>>)
    requires
        lo <= hi <= v.len(),
    ensures
        pieces@.map_values(|p: Vec<char>| p@) == split_on(v@.subrange(lo as int, hi as int), '_'),
{
    let ghost w = v@.subrange(lo as int, hi as int);
    let mut done: Vec<Vec<char>> = Vec::new();
    let mut cur: Vec<char> = Vec::new();
    let mut i = lo;
    assert(w.take(0) =~= Seq::<char>::empty());
    assert(done@.map_values(|p: Vec<char>| p@).push(cur@) =~= split_on(w.take(0), '_'));
    while i < hi
        invariant
            lo <= i <= hi <= v.len(),
            w == v@.subrange(lo as int, hi as int),
            done@.map_values(|p: Vec<char>| p@).push(cur@) == split_on(w.take(i - lo), '_'),
        decreases hi - i,
    {
        let ghost prev = split_on(w.take(i - lo), '_');
        proof {
            let t = w.take(i - lo + 1);
            assert(t.drop_last() =~= w.take(i - lo));
            assert(t.last() == v@[i as int]);
            lemma_split_on_nonempty(w.take(i - lo), '_');
        }
        if v[i] == '_' {
            let finished = cur;
            done.push(finished);
            cur = Vec::new();
            assert(done@.map_values(|p: Vec<char>| p@).push(cur@) =~= prev.push(Seq::empty()));
        } else {
            let ghost before_done = done@.map_values(|p: Vec<char>| p@);
            cur.push(v[i]);
            assert(done@.map_values(|p: Vec<char>| p@) =~= before_done);
            assert(done@.map_values(|p: Vec<char>| p@).push(cur@) =~= prev.update(
                prev.len() - 1,
                prev.last().push(v@[i as int]),
            ));
        }
        i += 1;
    }
    assert(w.take(hi - lo) =~= w);
    done.push(cur);
    assert(done@.map_values(|p: Vec<char>| p@) =~= split_on(w, '_'));
    done
}

/// Appends `join(pieces.map(capitalize), " ")`.
fn push_capitalized_words(out: &mut String, pieces: &Vec<Vec<char>>)
    ensures
        final(out)@ == old(out)@ + join(
            pieces@.map_values(|p: Vec<char>| p@).map_values(|w: Seq<char>| capitalize(w)),
            seq![' '],
        ),
{
    let ghost words = pieces@.map_values(|p: Vec<char>| p@).map_values(|w: Seq<char>| capitalize(w));
    let mut i: usize = 0;
    assert(words.take(0) =~= Seq::<Seq<char>>::empty());
    assert(old(out)@ + join(words.take(0), seq![' ']) =~= old(out)@);
    while i < pieces.len()
        invariant
            i <= pieces.len(),
            words == pieces@.map_values(|p: Vec<char>| p@).map_values(|w: Seq<char>| capitalize(w)),
            out@ == old(out)@ + join(words.take(i as int), seq![' ']),
        decreases pieces.len() - i,
    {
        let ghost before = out@;
        if i > 0 {
            push_char(out, ' ');
        }
        let ghost mid = out@;
        push_capitalized(out, &pieces[i]);
        proof {
            assert(words[i as int] == capitalize(pieces@[i as int]@));
            assert(words.take(i + 1) =~= words.take(i as int).push(words[i as int]));
            lemma_join_push(words.take(i as int), seq![' '], words[i as int]);
            assert(out@ =~= old(out)@ + join(words.take(i + 1), seq![' ']));
        }
        i += 1;
    }
    assert(words.take(pieces.len() as int) =~= words);
}

/// Appends the pretty form of a map id.
fn push_pretty_map(out: &mut String, raw: &Vec<char>)
    ensures
        final(out)@ == old(out)@ + pretty_map_text(raw@),
{
    let n = raw.len();
    let start = after_last_slash_start(raw);
    let a = strip3(raw, start, n, 'd', 'e', '_');
    let b = strip3(raw, a, n, 'c', 's', '_');
    let c = strip3(raw, b, n, 'g', 'd', '_');
    let pieces = split_underscores(raw, c, n);
    push_capitalized_words(out, &pieces);
}

fn pretty_map(raw: &str) -> (s: String)
    ensures
        s@ == pretty_map_text(raw@),
{
    let v = chars_of(raw);
    let mut s = String::new();
    push_pretty_map(&mut s, &v);
    assert(s@ =~= pretty_map_text(raw@));
    s
}

fn pretty_token(raw: &str) -> (s: String)
    ensures
        s@ == capitalize(raw@),
{
    let v = chars_of(raw);
    let mut s = String::new();
    push_capitalized(&mut s, &v);
    assert(s@ =~= capitalize(raw@));
    s
}

fn field_or(keys: &RichPresence, a: &str, b: &str) -> (r: Option<Vec<char>>)
    ensures
        match r {
            Some(v) => or_else(rich_field(keys@, a@), rich_field(keys@, b@)) == Some(v@),
            None => or_else(rich_field(keys@, a@), rich_field(keys@, b@)) is None,
        },
{
    match field(keys, a) {
        Some(v) => Some(v),
        None => field(keys, b),
    }
}

/// CS2's own display line wins: when the trimmed `steam_display` value is
/// non-blank and does not start with `#`, the detail line is that value,
/// whatever `status` or any other key holds.
pub proof fn lemma_display_line_wins(m: Map<Seq<char>, Seq<char>>)
    requires
        m.dom().contains("steam_display"@),
        trim(m["steam_display"@]).len() > 0,
        trim(m["steam_display"@])[0] != '#',
    ensures
        rich_detail(m) == trim(m["steam_display"@]),
{
}

/// Without a usable display line (missing, blank or a `#` token), a
/// non-blank `status` is the detail line, trimmed.
pub proof fn lemma_status_line_next(m: Map<Seq<char>, Seq<char>>)
    requires
        !m.dom().contains("steam_display"@) || trim(m["steam_display"@]).len() == 0
            || trim(m["steam_display"@])[0] == '#',
        m.dom().contains("status"@),
        trim(m["status"@]).len() > 0,
    ensures
        rich_detail(m) == trim(m["status"@]),
{
}

/// Prefer CS2's own display line (`steam_display` / `status`), else compose from keys.
pub fn format_rich_detail(keys: &RichPresence) -> (s: String)
    ensures
        s@ == rich_detail(keys@),
{
    let display = field(keys, "steam_display");
    if let Some(d) = &display {
        if d[0] != '#' {
            return string_of(d);
        }
    }
    if let Some(st) = field(keys, "status") {
        return string_of(&st);
    }
    let map = match field(keys, "game:map") {
        Some(v) => Some(v),
        None => field_or(keys, "game:mapgroupname", "map"),
    };
    let mode = field_or(keys, "game:mode", "mode");
    let score = field_or(keys, "game:score", "score");
    let ghost m = keys@;
    let ghost p0: Seq<Seq<char>> = Seq::empty();
    let ghost p1 = push_some(p0, match &mode {
        Some(x) => Some(capitalize(x@)),
        None => None,
    });
    let ghost p2 = push_some(p1, match &map {
        Some(x) => Some(pretty_map_text(x@)),
        None => None,
    });
    let ghost p3 = push_some(p2, match &score {
        Some(x) => Some(x@),
        None => None,
    });
    let mut out = String::new();
    let mut count: usize = 0;
    if let Some(md) = &mode {
        push_capitalized(&mut out, md);
        count += 1;
        proof {
            lemma_join_push(p0, detail_sep(), capitalize(md@));
        }
    }
    assert(out@ =~= join(p1, detail_sep()));
    assert(p1.len() == count);
    if let Some(mp) = &map {
        let ghost before = out@;
        if count > 0 {
            push_char(&mut out, ' ');
            push_char(&mut out, '\u{b7}');
            push_char(&mut out, ' ');
        }
        let ghost mid = out@;
        push_pretty_map(&mut out, mp);
        count += 1;
        proof {
            lemma_join_push(p1, detail_sep(), pretty_map_text(mp@));
            if p1.len() > 0 {
                assert(mid =~= before + detail_sep());
            }
        }
    }
    assert(out@ =~= join(p2, detail_sep()));
    assert(p2.len() == count);
    if let Some(sc) = &score {
        let ghost before = out@;
        if count > 0 {
            push_char(&mut out, ' ');
            push_char(&mut out, '\u{b7}');
            push_char(&mut out, ' ');
        }
        let ghost mid = out@;
        push_all(&mut out, sc);
        proof {
            lemma_join_push(p2, detail_sep(), sc@);
            if p2.len() > 0 {
                assert(mid =~= before + detail_sep());
            }
        }
    }
    assert(out@ =~= join(p3, detail_sep()));
    out
}

/// Sorted `key=value | …` dump for debug UI / logs.
pub fn format_rich_debug(keys: &RichPresence) -> (s: String)
    ensures
        s@ == crate::rich::debug_dump(keys@),
{
    crate::rich::rich_debug_dump(keys)
}

/// Which friend and which join path an alert was for.
#[derive(Debug, Clone, PartialEq, Eq)]
pub struct NotifyKey {
    pub steam_id: u64,
    /// Distinguishes lobby id vs connect token.
    pub join_token: String,
}

impl View for NotifyKey {
    type V = (u64, Seq<char>);

    open spec fn view(&self) -> (u64, Seq<char>) {
        (self.steam_id, self.join_token@)
    }
}

/// `lobby:<id>` or `connect:<string>`.
pub open spec fn join_token_of(method: JoinMethodView) -> Seq<char> {
    match method {
        JoinMethodView::Lobby { lobby_id } => "lobby:"@ + decimal(lobby_id as nat),
        JoinMethodView::Connect { connect } => "connect:"@ + connect,
    }
}

impl NotifyKey {
    pub fn from_joinable(steam_id: u64, method: &JoinMethod) -> (k: Self)
        ensures
            k@ == (steam_id, join_token_of(method@)),
    {
        let mut join_token = String::new();
        match method {
            JoinMethod::Lobby { lobby_id } => {
                push_str_chars(&mut join_token, "lobby:");
                push_decimal(&mut join_token, *lobby_id);
            },
            JoinMethod::Connect { connect } => {
                push_str_chars(&mut join_token, "connect:");
                push_str_chars(&mut join_token, connect.as_str());
            },
        }
        assert(join_token@ =~= join_token_of(method@));
        NotifyKey { steam_id, join_token }
    }

    /// A copy of the key.
    pub fn duplicate(&self) -> (k: Self)
        ensures
            k == *self,
    {
        NotifyKey { steam_id: self.steam_id, join_token: self.join_token.clone() }
    }
}


/// Alert keys tell spots apart: two keys are equal exactly when friend and
/// join method are; a lobby id and a connect string never give the same key.
pub proof fn lemma_join_tokens_distinct(a: u64, m1: JoinMethodView, b: u64, m2: JoinMethodView)
    ensures
        (a, join_token_of(m1)) == (b, join_token_of(m2)) <==> (a == b && m1 == m2),
{
    if (a, join_token_of(m1)) == (b, join_token_of(m2)) {
        let t1 = join_token_of(m1);
        let t2 = join_token_of(m2);
        assert(t1 == t2);
        reveal_strlit("lobby:");
        reveal_strlit("connect:");
        match (m1, m2) {
            (JoinMethodView::Lobby { lobby_id: x }, JoinMethodView::Lobby { lobby_id: y }) => {
                let p = "lobby:"@;
                assert((p + decimal(x as nat)).skip(p.len() as int) =~= decimal(x as nat));
                assert((p + decimal(y as nat)).skip(p.len() as int) =~= decimal(y as nat));
                lemma_decimal_injective(x as nat, y as nat);
            },
            (JoinMethodView::Connect { connect: x }, JoinMethodView::Connect { connect: y }) => {
                let p = "connect:"@;
                assert((p + x).skip(p.len() as int) =~= x);
                assert((p + y).skip(p.len() as int) =~= y);
            },
            (JoinMethodView::Lobby { lobby_id: x }, JoinMethodView::Connect { connect: y }) => {
                assert(t1[0] == 'l');
                assert(t2[0] == 'c');
            },
            (JoinMethodView::Connect { connect: x }, JoinMethodView::Lobby { lobby_id: y }) => {
                assert(t1[0] == 'c');
                assert(t2[0] == 'l');
            },
        }
    }
}

/// The debouncer's memory: the key last alerted for, and until when alerts
/// stay quiet (milliseconds on the caller's clock).
pub struct DebounceView {
    pub last_notified: Option<(u64, Seq<char>)>,
    pub cooldown_until: Option<u64>,
}

/// Fires an alert once per joinable spot, then stays quiet for a cooldown.
#[derive(Debug, Default)]
pub struct NotifyDebouncer {
    last_notified: Option<NotifyKey>,
    cooldown_until: Option<u64>,
}

impl View for NotifyDebouncer {
    type V = DebounceView;

    closed spec fn view(&self) -> DebounceView {
        DebounceView {
            last_notified: match self.last_notified {
                Some(k) => Some(k@),
                None => None,
            },
            cooldown_until: self.cooldown_until,
        }
    }
}

/// One `consider` step: the new memory and the key to alert for, if any.
pub open spec fn debounce_step(
    d: DebounceView,
    joinable: Option<(u64, Seq<char>)>,
    now: u64,
    cooldown: u64,
) -> (DebounceView, Option<(u64, Seq<char>)>) {
    match joinable {
        None => {
            let expired = d.cooldown_until is None || now >= d.cooldown_until->0;
            (
                DebounceView {
                    last_notified: if expired {
                        None
                    } else {
                        d.last_notified
                    },
                    cooldown_until: d.cooldown_until,
                },
                None,
            )
        },
        Some(key) => {
            if d.cooldown_until is Some && now < d.cooldown_until->0 {
                (d, None)
            } else if d.last_notified == Some(key) {
                (d, None)
            } else {
                (
                    DebounceView {
                        last_notified: Some(key),
                        cooldown_until: Some((now + cooldown) as u64),
                    },
                    Some(key),
                )
            }
        },
    }
}

/// The memory of a new debouncer.
pub open spec fn fresh_debounce() -> DebounceView {
    DebounceView { last_notified: None, cooldown_until: None }
}

impl NotifyDebouncer {
    pub fn new() -> (d: Self)
        ensures
            d@ == fresh_debounce(),
    {
        NotifyDebouncer { last_notified: None, cooldown_until: None }
    }

    /// Decide whether the current first joinable spot (if any) alerts now.
    /// `now` and `cooldown` are milliseconds on the caller's monotonic clock.
    pub fn consider(&mut self, joinable: Option<NotifyKey>, now: u64, cooldown: u64) -> (r: Option<
        NotifyKey,
    >)
        requires
            now + cooldown <= u64::MAX,
        ensures
            ({
                let (d, out) = debounce_step(
                    old(self)@,
                    match joinable {
                        Some(k) => Some(k@),
                        None => None,
                    },
                    now,
                    cooldown,
                );
                &&& final(self)@ == d
                &&& match r {
                    Some(k) => out == Some(k@) && joinable == Some(k),
                    None => out is None,
                }
            }),
    {
        let key = match joinable {
            Some(k) => k,
            None => {
                let expired = match self.cooldown_until {
                    None => true,
                    Some(t) => now >= t,
                };
                if expired {
                    self.last_notified = None;
                }
                return None;
            },
        };
        if let Some(t) = self.cooldown_until {
            if now < t {
                return None;
            }
        }
        let same = match &self.last_notified {
            Some(last) => last.steam_id == key.steam_id && last.join_token == key.join_token,
            None => false,
        };
        if same {
            return None;
        }
        self.last_notified = Some(key.duplicate());
        self.cooldown_until = Some(now + cooldown);
        Some(key)
    }

    /// Forget the last alert and any cooldown.
    pub fn reset(&mut self)
        ensures
            final(self)@ == fresh_debounce(),
    {
        *self = NotifyDebouncer::new();
    }
}

/// After an alert fires at `now`, no alert fires before `now + cooldown`,
/// whatever is considered in between.
pub proof fn lemma_quiet_during_cooldown(
    d: DebounceView,
    key: (u64, Seq<char>),
    now: u64,
    cooldown: u64,
    later: Option<(u64, Seq<char>)>,
    now2: u64,
    cooldown2: u64,
)
    requires
        now + cooldown <= u64::MAX,
        debounce_step(d, Some(key), now, cooldown).1 is Some,
        now2 < now + cooldown,
    ensures
        debounce_step(debounce_step(d, Some(key), now, cooldown).0, later, now2, cooldown2).1 is None,
{
}

/// The same spot never alerts twice in a row: it alerts again only after a
/// step without any joinable spot once the cooldown is over.
pub proof fn lemma_same_spot_alerts_once(
    d: DebounceView,
    key: (u64, Seq<char>),
    now: u64,
    cooldown: u64,
    now2: u64,
    cooldown2: u64,
)
    requires
        now + cooldown <= u64::MAX,
        debounce_step(d, Some(key), now, cooldown).1 is Some,
    ensures
        debounce_step(debounce_step(d, Some(key), now, cooldown).0, Some(key), now2, cooldown2).1 is None,
{
}

/// Once the cooldown is over and a step saw no joinable spot, the next
/// joinable spot alerts at once.
pub proof fn lemma_alerts_after_quiet_reset(
    d: DebounceView,
    key: (u64, Seq<char>),
    now: u64,
    now2: u64,
    cooldown2: u64,
)
    requires
        d.cooldown_until is None || now >= d.cooldown_until->0,
        now2 >= now,
    ensures
        ({
            let d1 = debounce_step(d, None, now, 0).0;
            debounce_step(d1, Some(key), now2, cooldown2).1 == Some(key)
        }),
{
}

/// A new or reset debouncer alerts for the first joinable spot it sees.
pub proof fn lemma_fresh_alerts(key: (u64, Seq<char>), now: u64, cooldown: u64)
    ensures
        debounce_step(fresh_debounce(), Some(key), now, cooldown).1 == Some(key),
{
}

/// One `consider` call: what was considered, the time and the cooldown.
pub type DebounceCall = (Option<(u64, Seq<char>)>, u64, u64);

/// The memory and the answers after a run of `consider` calls.
pub open spec fn debounce_run(d: DebounceView, calls: Seq<DebounceCall>) -> (
    DebounceView,
    Seq<Option<(u64, Seq<char>)>>,
)
    decreases calls.len(),
{
    if calls.len() == 0 {
        (d, Seq::empty())
    } else {
        let prev = debounce_run(d, calls.drop_last());
        let c = calls.last();
        let next = debounce_step(prev.0, c.0, c.1, c.2);
        (next.0, prev.1.push(next.1))
    }
}

/// While the memory holds `key` and a cooldown to `until`, calls that come
/// before `until` or consider `key` again answer nothing and change nothing.
proof fn lemma_quiet_run(d: DebounceView, key: (u64, Seq<char>), until: u64, calls: Seq<DebounceCall>)
    requires
        d.last_notified == Some(key),
        d.cooldown_until == Some(until),
        forall|i: int| 0 <= i < calls.len() ==> (#[trigger] calls[i]).1 < until || calls[i].0 == Some(key),
    ensures
        debounce_run(d, calls).0 == d,
        debounce_run(d, calls).1.len() == calls.len(),
        forall|i: int| 0 <= i < calls.len() ==> (#[trigger] debounce_run(d, calls).1[i]) is None,
    decreases calls.len(),
{
    if calls.len() > 0 {
        let init = calls.drop_last();
        assert forall|i: int| 0 <= i < init.len() implies (#[trigger] init[i]).1 < until || init[i].0 == Some(key) by {
            assert(init[i] == calls[i]);
        }
        lemma_quiet_run(d, key, until, init);
        assert(calls.last() == calls[calls.len() - 1]);
        let outs = debounce_run(d, calls).1;
        assert forall|i: int| 0 <= i < calls.len() implies (#[trigger] outs[i]) is None by {
            if i < init.len() {
                assert(outs[i] == debounce_run(d, init).1[i]);
            }
        }
    }
}

/// No second alert inside the cooldown: after an alert at `now`, every
/// later call before `now + cooldown` answers nothing, whatever it considers.
pub proof fn lemma_no_alert_within_cooldown(
    d: DebounceView,
    key: (u64, Seq<char>),
    now: u64,
    cooldown: u64,
    later: Seq<DebounceCall>,
)
    requires
        now + cooldown <= u64::MAX,
        debounce_step(d, Some(key), now, cooldown).1 is Some,
        forall|i: int| 0 <= i < later.len() ==> (#[trigger] later[i]).1 < now + cooldown,
    ensures
        ({
            let outs = debounce_run(debounce_step(d, Some(key), now, cooldown).0, later).1;
            forall|i: int| 0 <= i < later.len() ==> (#[trigger] outs[i]) is None
        }),
{
    let d1 = debounce_step(d, Some(key), now, cooldown).0;
    lemma_quiet_run(d1, key, (now + cooldown) as u64, later);
}

/// The same spot is announced once until it disappears: after an alert for
/// `key`, calls that consider `key` again, at any time, answer nothing, and
/// so do all calls before the cooldown ends; only a call after the cooldown
/// that sees no spot or another spot can change that.
pub proof fn lemma_same_spot_silent_until_gone(
    d: DebounceView,
    key: (u64, Seq<char>),
    now: u64,
    cooldown: u64,
    later: Seq<DebounceCall>,
)
    requires
        now + cooldown <= u64::MAX,
        debounce_step(d, Some(key), now, cooldown).1 is Some,
        forall|i: int|
            0 <= i < later.len() ==> (#[trigger] later[i]).0 == Some(key) || later[i].1 < now + cooldown,
    ensures
        ({
            let d1 = debounce_step(d, Some(key), now, cooldown).0;
            let run = debounce_run(d1, later);
            &&& run.0 == d1
            &&& forall|i: int| 0 <= i < later.len() ==> (#[trigger] run.1[i]) is None
        }),
{
    let d1 = debounce_step(d, Some(key), now, cooldown).0;
    lemma_quiet_run(d1, key, (now + cooldown) as u64, later);
}

} // verus!
