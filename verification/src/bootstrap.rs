//! What start-up derives from the embedded Steam files: the app id to run
//! as, and the library search path. Unpacking the files and setting the
//! environment happen in the program around the library.
use vstd::prelude::*;
use vstd::utf8::{valid_utf8, decode_utf8};
use crate::text::{trim, chars_of, trim_bounds, push_range, push_str_chars};

verus! {

/// `s` up to its first line feed.
pub open spec fn before_newline(s: Seq<char>) -> Seq<char>
    decreases s.len(),
{
    if s.len() == 0 {
        s
    } else if s[0] == '\n' {
        Seq::empty()
    } else {
        seq![s[0]] + before_newline(s.drop_first())
    }
}

/// The app id text of the embedded `steam_appid.txt`: its first line,
/// trimmed; `480` when the file is not UTF-8 or is empty. (`str::lines`
/// also drops a `\r` before the line feed, which trimming removes anyway.)
pub open spec fn app_id_text(bytes: Seq<u8>) -> Seq<char> {
    let text = if valid_utf8(bytes) {
        decode_utf8(bytes)
    } else {
        "480"@
    };
    if text.len() == 0 {
        "480"@
    } else {
        trim(before_newline(text))
    }
}

/// Decodes UTF-8 with `std::str::from_utf8`; trusted to succeed exactly on
/// valid UTF-8 and then to give the characters those bytes encode.
#[verifier::external_body]
fn utf8_text(bytes: &[u8]) -> (r: Option<String>)
    ensures
        r is Some <==> valid_utf8(bytes@),
        r matches Some(s) ==> s@ == decode_utf8(bytes@),
{
    std::str::from_utf8(bytes).ok().map(|s| s.to_string())
}

proof fn lemma_before_newline_prefix(s: Seq<char>, i: int)
    requires
        0 <= i <= s.len(),
        forall|k: int| 0 <= k < i ==> s[k] != '\n',
        i == s.len() || s[i] == '\n',
    ensures
        before_newline(s) == s.take(i),
    decreases i,
{
    if i > 0 {
        lemma_before_newline_prefix(s.drop_first(), i - 1);
        assert(seq![s[0]] + s.drop_first().take(i - 1) =~= s.take(i));
    } else {
        if s.len() > 0 {
            assert(s[0] == '\n');
        }
        assert(s.take(0) =~= Seq::<char>::empty());
    }
}

/// The app id to run as, from the bytes of the embedded `steam_appid.txt`.
pub fn embedded_app_id(bytes: &[u8]) -> (r: String)
    ensures
        r@ == app_id_text(bytes@),
{
    let text = match utf8_text(bytes) {
        Some(t) => t,
        None => {
            let mut d = String::new();
            push_str_chars(&mut d, "480");
            assert(d@ =~= "480"@);
            d
        },
    };
    let v = chars_of(text.as_str());
    if v.len() == 0 {
        let mut d = String::new();
        push_str_chars(&mut d, "480");
        assert(d@ =~= "480"@);
        return d;
    }
    let mut i: usize = 0;
    while i < v.len() && v[i] != '\n'
        invariant
            i <= v@.len(),
            forall|k: int| 0 <= k < i ==> v@[k] != '\n',
        decreases v.len() - i,
    {
        i += 1;
    }
    proof {
        lemma_before_newline_prefix(v@, i as int);
    }
    let mut line: Vec<char> = Vec::new();
    let mut k: usize = 0;
    while k < i
        invariant
            k <= i <= v@.len(),
            line@ == v@.take(k as int),
        decreases i - k,
    {
        line.push(v[k]);
        assert(v@.take(k + 1) =~= v@.take(k as int).push(v@[k as int]));
        k += 1;
    }
    let (lo, hi) = trim_bounds(&line);
    let mut r = String::new();
    push_range(&mut r, &line, lo, hi);
    assert(r@ =~= app_id_text(bytes@));
    r
}

/// A library search path with `dir` in front of what was set before.
pub open spec fn prepended_path(dir: Seq<char>, existing: Option<Seq<char>>) -> Seq<char> {
    match existing {
        Some(e) => dir + seq![':'] + e,
        None => dir,
    }
}

/// The search path value to set: `dir`, then `:` and the earlier value if any.
pub fn prepend_search_path(dir: &str, existing: Option<String>) -> (r: String)
    ensures
        r@ == prepended_path(
            dir@,
            match existing {
                Some(e) => Some(e@),
                None => None,
            },
        ),
{
    let mut r = String::new();
    push_str_chars(&mut r, dir);
    if let Some(e) = &existing {
        crate::text::push_char(&mut r, ':');
        push_str_chars(&mut r, e.as_str());
    }
    assert(r@ =~= prepended_path(
        dir@,
        match existing {
            Some(e) => Some(e@),
            None => None,
        },
    ));
    r
}

} // verus!
