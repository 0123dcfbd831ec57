//! Text helpers shared by the presence, URI and status formatting code:
//! character views of strings, Unicode whitespace trimming, decimal and
//! hexadecimal rendering, joining, and lexicographic order.
use vstd::prelude::*;

verus! {

// ---------------------------------------------------------------------------
// Specifications
// ---------------------------------------------------------------------------

/// The Unicode `White_Space` property, which `char::is_whitespace` and
/// `str::trim` use.
pub open spec fn is_ws(c: char) -> bool {
    let u = c as u32;
    ||| (0x09 <= u && u <= 0x0d)
    ||| u == 0x20
    ||| u == 0x85
    ||| u == 0xa0
    ||| u == 0x1680
    ||| (0x2000 <= u && u <= 0x200a)
    ||| u == 0x2028
    ||| u == 0x2029
    ||| u == 0x202f
    ||| u == 0x205f
    ||| u == 0x3000
}

/// `s` without its leading whitespace.
pub open spec fn trim_start(s: Seq<char>) -> Seq<char>
    decreases s.len(),
{
    if s.len() > 0 && is_ws(s[0]) {
        trim_start(s.drop_first())
    } else {
        s
    }
}

/// `s` without its trailing whitespace.
pub open spec fn trim_end(s: Seq<char>) -> Seq<char>
    decreases s.len(),
{
    if s.len() > 0 && is_ws(s.last()) {
        trim_end(s.drop_last())
    } else {
        s
    }
}

/// What `str::trim` returns: whitespace removed at both ends.
pub open spec fn trim(s: Seq<char>) -> Seq<char> {
    trim_end(trim_start(s))
}

/// The character of a decimal digit.
pub open spec fn digit(d: nat) -> char {
    ((48 + d) as u8) as char
}

/// Decimal rendering of a natural number, as `{}` prints an unsigned integer.
pub open spec fn decimal(n: nat) -> Seq<char>
    decreases n,
{
    if n < 10 {
        seq![digit(n)]
    } else {
        decimal(n / 10).push(digit(n % 10))
    }
}

/// Decimal rendering padded with a zero to two digits, as `{:02}` prints.
pub open spec fn pad2(n: nat) -> Seq<char> {
    if n < 10 {
        seq!['0'].add(decimal(n))
    } else {
        decimal(n)
    }
}

/// Upper-case hexadecimal digit of a value below 16.
pub open spec fn hex_digit(d: nat) -> char {
    if d < 10 {
        digit(d)
    } else {
        ((55 + d) as u8) as char
    }
}

/// `parts` joined with `sep` between consecutive parts, as `[String]::join` does.
pub open spec fn join(parts: Seq<Seq<char>>, sep: Seq<char>) -> Seq<char>
    decreases parts.len(),
{
    if parts.len() == 0 {
        Seq::empty()
    } else if parts.len() == 1 {
        parts[0]
    } else {
        join(parts.drop_last(), sep) + sep + parts.last()
    }
}

/// All sequences of `parts`, one after the other.
pub open spec fn flatten(parts: Seq<Seq<char>>) -> Seq<char>
    decreases parts.len(),
{
    if parts.len() == 0 {
        Seq::empty()
    } else {
        flatten(parts.drop_last()) + parts.last()
    }
}

/// Strict lexicographic order by code point, which is the order of `str`
/// (UTF-8 keeps the code point order byte by byte).
pub open spec fn seq_lt(a: Seq<char>, b: Seq<char>) -> bool
    decreases a.len(),
{
    if a.len() == 0 {
        b.len() > 0
    } else if b.len() == 0 {
        false
    } else if a[0] != b[0] {
        (a[0] as u32) < (b[0] as u32)
    } else {
        seq_lt(a.drop_first(), b.drop_first())
    }
}

/// Upper-case form of a character, as `char::to_uppercase` yields it.
pub uninterp spec fn upper_char(c: char) -> Seq<char>;

/// Lower-case form of a string, as `str::to_lowercase` returns it.
pub uninterp spec fn lowercase(s: Seq<char>) -> Seq<char>;

/// ASCII upper-casing of one character.
pub open spec fn ascii_upper(c: char) -> char {
    if 'a' <= c && c <= 'z' {
        ((c as u32 - 32) as u8) as char
    } else {
        c
    }
}

/// ASCII lower-casing of one character.
pub open spec fn ascii_lower(c: char) -> char {
    if 'A' <= c && c <= 'Z' {
        ((c as u32 + 32) as u8) as char
    } else {
        c
    }
}

/// Upper-case form of a character: the ASCII upper-case letter (or the
/// character itself) for ASCII, else Unicode's mapping.
pub open spec fn upper_of(c: char) -> Seq<char> {
    if (c as u32) < 128 {
        seq![ascii_upper(c)]
    } else {
        upper_char(c)
    }
}

/// Every character of `s` is ASCII.
pub open spec fn all_ascii(s: Seq<char>) -> bool {
    forall|i: int| 0 <= i < s.len() ==> (#[trigger] s[i] as u32) < 128
}

/// Lower-case form of a string: ASCII lower-casing for ASCII text, else
/// Unicode's mapping.
pub open spec fn lower_of(s: Seq<char>) -> Seq<char> {
    if all_ascii(s) {
        s.map_values(|c: char| ascii_lower(c))
    } else {
        lowercase(s)
    }
}

/// `s` with its first character upper-cased (empty stays empty).
pub open spec fn capitalize(s: Seq<char>) -> Seq<char> {
    if s.len() == 0 {
        s
    } else {
        upper_of(s[0]) + s.drop_first()
    }
}

// ---------------------------------------------------------------------------
// Lemmas
// ---------------------------------------------------------------------------

/// `seq_lt` is `str` order: the empty string comes before every other
/// string, and a proper prefix comes before the longer string.
pub proof fn lemma_seq_lt_prefix_first(p: Seq<char>, t: Seq<char>)
    requires
        t.len() > 0,
    ensures
        seq_lt(Seq::empty(), t),
        seq_lt(p, p + t),
        !seq_lt(p + t, p),
    decreases p.len(),
{
    if p.len() > 0 {
        assert((p + t)[0] == p[0]);
        assert((p + t).drop_first() =~= p.drop_first() + t);
        lemma_seq_lt_prefix_first(p.drop_first(), t);
    }
}

/// `seq_lt` is `str` order: where two strings first differ, the smaller
/// code point comes first, whatever follows.
pub proof fn lemma_seq_lt_first_difference(a: Seq<char>, b: Seq<char>, i: int)
    requires
        0 <= i < a.len(),
        i < b.len(),
        a.take(i) == b.take(i),
        a[i] != b[i],
    ensures
        seq_lt(a, b) == ((a[i] as u32) < (b[i] as u32)),
    decreases i,
{
    if i > 0 {
        assert(a[0] == a.take(i)[0]);
        assert(b[0] == b.take(i)[0]);
        assert(a.drop_first()[i - 1] == a[i]);
        assert(b.drop_first()[i - 1] == b[i]);
        assert(a.drop_first().take(i - 1) =~= a.take(i).drop_first());
        assert(b.drop_first().take(i - 1) =~= b.take(i).drop_first());
        lemma_seq_lt_first_difference(a.drop_first(), b.drop_first(), i - 1);
    }
}

pub proof fn lemma_seq_lt_irreflexive(a: Seq<char>)
    ensures
        !seq_lt(a, a),
    decreases a.len(),
{
    if a.len() > 0 {
        lemma_seq_lt_irreflexive(a.drop_first());
    }
}

pub proof fn lemma_seq_lt_asymmetric(a: Seq<char>, b: Seq<char>)
    ensures
        !(seq_lt(a, b) && seq_lt(b, a)),
    decreases a.len(),
{
    if a.len() > 0 && b.len() > 0 && a[0] == b[0] {
        lemma_seq_lt_asymmetric(a.drop_first(), b.drop_first());
    }
}

pub proof fn lemma_seq_lt_transitive(a: Seq<char>, b: Seq<char>, c: Seq<char>)
    requires
        seq_lt(a, b),
        seq_lt(b, c),
    ensures
        seq_lt(a, c),
    decreases a.len(),
{
    if a.len() > 0 && b.len() > 0 && c.len() > 0 && a[0] == b[0] && b[0] == c[0] {
        lemma_seq_lt_transitive(a.drop_first(), b.drop_first(), c.drop_first());
    }
}

pub proof fn lemma_seq_lt_total(a: Seq<char>, b: Seq<char>)
    requires
        a != b,
    ensures
        seq_lt(a, b) || seq_lt(b, a),
    decreases a.len(),
{
    if a.len() > 0 && b.len() > 0 && a[0] == b[0] {
        if a.drop_first() == b.drop_first() {
            assert(a =~= seq![a[0]] + a.drop_first());
            assert(b =~= seq![b[0]] + b.drop_first());
        }
        lemma_seq_lt_total(a.drop_first(), b.drop_first());
    } else if a.len() == 0 && b.len() == 0 {
        assert(a =~= b);
    } else if a.len() > 0 && b.len() > 0 {
        vstd::utf8::char_u32_cast(a[0], a[0] as u32);
        vstd::utf8::char_u32_cast(b[0], b[0] as u32);
    }
}

proof fn lemma_trim_start_skip(s: Seq<char>, i: int)
    requires
        0 <= i <= s.len(),
        forall|k: int| 0 <= k < i ==> is_ws(#[trigger] s[k]),
    ensures
        trim_start(s) == trim_start(s.subrange(i, s.len() as int)),
    decreases i,
{
    if i > 0 {
        lemma_trim_start_skip(s.drop_first(), i - 1);
        assert(s.drop_first().subrange(i - 1, s.drop_first().len() as int) =~= s.subrange(
            i,
            s.len() as int,
        ));
    } else {
        assert(s.subrange(0, s.len() as int) =~= s);
    }
}

proof fn lemma_trim_end_cut(s: Seq<char>, j: int)
    requires
        0 <= j <= s.len(),
        forall|k: int| j <= k < s.len() ==> is_ws(#[trigger] s[k]),
    ensures
        trim_end(s) == trim_end(s.subrange(0, j)),
    decreases s.len() - j,
{
    if j < s.len() {
        lemma_trim_end_cut(s.drop_last(), j);
        assert(s.drop_last().subrange(0, j) =~= s.subrange(0, j));
    } else {
        assert(s.subrange(0, j) =~= s);
    }
}

proof fn lemma_decimal_len(n: nat)
    ensures
        decimal(n).len() >= 1,
    decreases n,
{
    if n >= 10 {
        lemma_decimal_len(n / 10);
    }
}


proof fn lemma_digit_injective(a: nat, b: nat)
    requires
        a < 10,
        b < 10,
        digit(a) == digit(b),
    ensures
        a == b,
{
    assert((((48 + a) as u8) as char) as u32 == 48 + a);
    assert((((48 + b) as u8) as char) as u32 == 48 + b);
}

/// Different numbers have different decimal renderings.
pub proof fn lemma_decimal_injective(n: nat, m: nat)
    requires
        decimal(n) == decimal(m),
    ensures
        n == m,
    decreases n,
{
    if n < 10 && m < 10 {
        assert(decimal(n)[0] == digit(n));
        assert(decimal(m)[0] == digit(m));
        lemma_digit_injective(n, m);
    } else if n < 10 {
        lemma_decimal_len(m / 10);
        assert(decimal(m).len() == decimal(m / 10).len() + 1);
    } else if m < 10 {
        lemma_decimal_len(n / 10);
        assert(decimal(n).len() == decimal(n / 10).len() + 1);
    } else {
        let dn = decimal(n);
        let dm = decimal(m);
        assert(dn.drop_last() =~= decimal(n / 10));
        assert(dm.drop_last() =~= decimal(m / 10));
        lemma_decimal_injective(n / 10, m / 10);
        assert(dn.last() == digit(n % 10));
        assert(dm.last() == digit(m % 10));
        lemma_digit_injective(n % 10, m % 10);
    }
}

// ---------------------------------------------------------------------------
// Executable helpers
// ---------------------------------------------------------------------------

/// Appends one character with `String::push`; trusted to leave the string
/// as it was with exactly `c` added at the end.
#[verifier::external_body]
pub(crate) fn push_char(s: &mut String, c: char)
    ensures
        final(s)@ == old(s)@.push(c),
{
    s.push(c);
}

/// Upper-cases one character with `char::to_uppercase`, collected into a
/// string; trusted to give `upper_char(c)` (a name for Unicode's upper-case
/// mapping, the same for the same character), and for an ASCII character
/// the ASCII upper-case letter or the character itself.
#[verifier::external_body]
fn char_to_upper(c: char) -> (r: String)
    ensures
        r@ == upper_char(c),
        r@ == upper_of(c),
{
    c.to_uppercase().collect::<String>()
}

/// Lower-cases a string with `str::to_lowercase`; trusted to give
/// `lowercase(s)` (a name for Unicode's lower-case mapping of the whole
/// string, the same for the same text), and for ASCII text the ASCII
/// lower-casing of each character.
#[verifier::external_body]
pub(crate) fn to_lowercase(s: &str) -> (r: String)
    ensures
        r@ == lowercase(s@),
        r@ == lower_of(s@),
{
    s.to_lowercase()
}

/// The characters of `s`, in order.
pub(crate) fn chars_of(s: &str) -> (res: Vec<char>)
    ensures
        res@ == s@,
{
    let mut res: Vec<char> = Vec::new();
    for c in it: s.chars()
        invariant
            res@ == it.seq().take(it.index() as int),
            it.seq() == s@,
    {
        res.push(c);
    }
    res
}

/// Appends `v[lo..hi]` to `out`.
pub(crate) fn push_range(out: &mut String, v: &Vec<char>, lo: usize, hi: usize)
    requires
        lo <= hi <= v.len(),
    ensures
        final(out)@ == old(out)@ + v@.subrange(lo as int, hi as int),
{
    let mut i = lo;
    while i < hi
        invariant
            lo <= i <= hi <= v.len(),
            out@ == old(out)@ + v@.subrange(lo as int, i as int),
        decreases hi - i,
    {
        push_char(out, v[i]);
        assert(v@.subrange(lo as int, i + 1) =~= v@.subrange(lo as int, i as int).push(v@[i as int]));
        i += 1;
    }
}

/// Appends all of `v` to `out`.
pub(crate) fn push_all(out: &mut String, v: &Vec<char>)
    ensures
        final(out)@ == old(out)@ + v@,
{
    push_range(out, v, 0, v.len());
    assert(v@.subrange(0, v@.len() as int) =~= v@);
}

/// Appends the characters of `s` to `out`.
pub(crate) fn push_str_chars(out: &mut String, s: &str)
    ensures
        final(out)@ == old(out)@ + s@,
{
    let v = chars_of(s);
    push_all(out, &v);
}

/// A new string holding `v`.
pub(crate) fn string_of(v: &Vec<char>) -> (s: String)
    ensures
        s@ == v@,
{
    let mut s = String::new();
    push_all(&mut s, v);
    assert(s@ =~= v@);
    s
}

/// Whether `c` is Unicode whitespace (`char::is_whitespace`).
pub fn is_whitespace(c: char) -> (b: bool)
    ensures
        b == is_ws(c),
{
    let u = c as u32;
    (0x09 <= u && u <= 0x0d) || u == 0x20 || u == 0x85 || u == 0xa0 || u == 0x1680 || (0x2000
        <= u && u <= 0x200a) || u == 0x2028 || u == 0x2029 || u == 0x202f || u == 0x205f || u
        == 0x3000
}

/// The bounds `[lo, hi)` of `trim(v)` inside `v`.
pub(crate) fn trim_bounds(v: &Vec<char>) -> (r: (usize, usize))
    ensures
        r.0 <= r.1 <= v.len(),
        v@.subrange(r.0 as int, r.1 as int) == trim(v@),
{
    let n = v.len();
    let mut i: usize = 0;
    while i < n && is_whitespace(v[i])
        invariant
            i <= n == v.len(),
            forall|k: int| 0 <= k < i ==> is_ws(#[trigger] v@[k]),
        decreases n - i,
    {
        i += 1;
    }
    proof {
        lemma_trim_start_skip(v@, i as int);
        if i < n {
            assert(!is_ws(v@.subrange(i as int, n as int)[0]));
        } else {
            assert(v@.subrange(i as int, n as int).len() == 0);
        }
    }
    let ghost w = v@.subrange(i as int, n as int);
    assert(trim_start(v@) == w);
    let mut j: usize = n;
    while j > i && is_whitespace(v[j - 1])
        invariant
            i <= j <= n == v.len(),
            w == v@.subrange(i as int, n as int),
            forall|k: int| j <= k < n ==> is_ws(#[trigger] v@[k]),
        decreases j - i,
    {
        j -= 1;
    }
    proof {
        assert forall|k: int| (j - i) <= k < w.len() implies is_ws(#[trigger] w[k]) by {
            assert(w[k] == v@[k + i]);
        }
        lemma_trim_end_cut(w, (j - i) as int);
        assert(w.subrange(0, (j - i) as int) =~= v@.subrange(i as int, j as int));
        let u = v@.subrange(i as int, j as int);
        if j > i {
            assert(u.last() == v@[j - 1]);
        } else {
            assert(u.len() == 0);
        }
    }
    (i, j)
}

/// `str::trim`: the string without leading and trailing whitespace.
pub fn trimmed(s: &str) -> (r: String)
    ensures
        r@ == trim(s@),
{
    let v = chars_of(s);
    let (lo, hi) = trim_bounds(&v);
    let mut r = String::new();
    push_range(&mut r, &v, lo, hi);
    assert(r@ =~= trim(s@));
    r
}

/// The decimal digit character for `d < 10`.
pub(crate) fn digit_char(d: u64) -> (c: char)
    requires
        d < 10,
    ensures
        c == digit(d as nat),
{
    (48u8 + d as u8) as char
}

/// The upper-case hexadecimal digit character for `d < 16`.
pub(crate) fn hex_char(d: u8) -> (c: char)
    requires
        d < 16,
    ensures
        c == hex_digit(d as nat),
{
    if d < 10 {
        (48u8 + d) as char
    } else {
        (55u8 + d) as char
    }
}

/// Appends the decimal rendering of `n` (as `{}` prints it).
pub(crate) fn push_decimal(out: &mut String, n: u64)
    ensures
        final(out)@ == old(out)@ + decimal(n as nat),
    decreases n,
{
    if n >= 10 {
        push_decimal(out, n / 10);
    }
    push_char(out, digit_char(n % 10));
    proof {
        if n >= 10 {
            assert(decimal(n as nat) == decimal((n / 10) as nat).push(digit((n % 10) as nat)));
        }
    }
    assert(out@ =~= old(out)@ + decimal(n as nat));
}

/// Appends `n` padded to two digits with a leading zero (as `{:02}` prints it).
pub(crate) fn push_pad2(out: &mut String, n: u64)
    ensures
        final(out)@ == old(out)@ + pad2(n as nat),
{
    if n < 10 {
        push_char(out, '0');
    }
    push_decimal(out, n);
    assert(out@ =~= old(out)@ + pad2(n as nat));
}

/// Decimal rendering of `n` (`u64::to_string`).
pub fn decimal_string(n: u64) -> (s: String)
    ensures
        s@ == decimal(n as nat),
{
    let mut s = String::new();
    push_decimal(&mut s, n);
    assert(s@ =~= decimal(n as nat));
    s
}

/// Appends `capitalize(v)`: the first character upper-cased, the rest as is.
pub(crate) fn push_capitalized(out: &mut String, v: &Vec<char>)
    ensures
        final(out)@ == old(out)@ + capitalize(v@),
{
    if v.len() > 0 {
        let up = char_to_upper(v[0]);
        let upv = chars_of(up.as_str());
        push_all(out, &upv);
        push_range(out, v, 1, v.len());
        assert(v@.subrange(1, v@.len() as int) =~= v@.drop_first());
        assert(out@ =~= old(out)@ + capitalize(v@));
    } else {
        assert(out@ =~= old(out)@ + capitalize(v@));
    }
}

/// Whether `a` comes strictly before `b` in code point order.
pub(crate) fn chars_lt(a: &Vec<char>, b: &Vec<char>) -> (r: bool)
    ensures
        r == seq_lt(a@, b@),
{
    let mut i: usize = 0;
    assert(a@.skip(0) =~= a@);
    assert(b@.skip(0) =~= b@);
    while i < a.len() && i < b.len() && a[i] == b[i]
        invariant
            i <= a.len(),
            i <= b.len(),
            seq_lt(a@, b@) == seq_lt(a@.skip(i as int), b@.skip(i as int)),
        decreases a.len() - i,
    {
        proof {
            let sa = a@.skip(i as int);
            let sb = b@.skip(i as int);
            assert(sa.drop_first() =~= a@.skip(i + 1));
            assert(sb.drop_first() =~= b@.skip(i + 1));
        }
        i += 1;
    }
    proof {
        let sa = a@.skip(i as int);
        let sb = b@.skip(i as int);
        if i < a.len() && i < b.len() {
            assert(sa[0] == a@[i as int]);
            assert(sb[0] == b@[i as int]);
        }
    }
    if i == a.len() {
        i < b.len()
    } else if i == b.len() {
        false
    } else {
        (a[i] as u32) < (b[i] as u32)
    }
}

/// `join` of one more part: the join grows by the separator and the part.
pub proof fn lemma_join_push(parts: Seq<Seq<char>>, sep: Seq<char>, p: Seq<char>)
    ensures
        join(parts.push(p), sep) == if parts.len() == 0 {
            p
        } else {
            join(parts, sep) + sep + p
        },
{
    assert(parts.push(p).drop_last() =~= parts);
}

/// `flatten` of one more part.
pub proof fn lemma_flatten_push(parts: Seq<Seq<char>>, p: Seq<char>)
    ensures
        flatten(parts.push(p)) == flatten(parts) + p,
{
    assert(parts.push(p).drop_last() =~= parts);
}

/// Joins `parts` with `sep` into a new string.
pub(crate) fn join_chars(parts: &Vec<Vec<char>>, sep: &Vec<char>) -> (s: String)
    ensures
        s@ == join(parts@.map_values(|p: Vec<char>| p@), sep@),
{
    let ghost views = parts@.map_values(|p: Vec<char>| p@);
    let mut s = String::new();
    let mut i: usize = 0;
    while i < parts.len()
        invariant
            i <= parts.len(),
            views == parts@.map_values(|p: Vec<char>| p@),
            s@ == join(views.take(i as int), sep@),
        decreases parts.len() - i,
    {
        if i > 0 {
            push_all(&mut s, sep);
        }
        push_all(&mut s, &parts[i]);
        proof {
            assert(views.take(i + 1) =~= views.take(i as int).push(views[i as int]));
            lemma_join_push(views.take(i as int), sep@, views[i as int]);
            if i == 0 {
                assert(s@ =~= views[0]);
            }
        }
        i += 1;
    }
    assert(views.take(parts.len() as int) =~= views);
    s
}

} // verus!
