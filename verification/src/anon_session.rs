//! Cookies and identifiers of anonymous browser sessions.

use vstd::prelude::*;

use crate::hex::hex_text;
#[allow(unused_imports)]
use crate::hex::{hex, law_hex_is_lower_case};
use crate::ordered::OrderedMap;
#[allow(unused_imports)]
use crate::ordered::{lemma_viewed_lookup, lookup, viewed};
#[allow(unused_imports)]
use crate::text::{
    all_white, begins, byte_len, decimal, ends, find_char, holds_text, lacks,
    law_texts_hold_their_parts, lemma_find_char_is, lemma_trim_padded, lemma_trim_parts,
    lemma_trim_solid, split_on, texts, trim, white,
};
use crate::text::{byte_count, chars_of, decimal_text, same_text, split, split_once, trimmed};

verus! {

pub const SESSION_COOKIE: &'static str = "arvm_anon";

pub const SESSION_TTL_SECS: u64 = 1800;

/// The value of the session cookie in the first of the parts from `index` on that sets it.
pub open spec fn sid_from(parts: Seq<Seq<char>>, index: int) -> Option<Seq<char>>
    decreases parts.len() - index,
{
    if !(0 <= index < parts.len()) {
        None
    } else {
        let part = trim(parts[index]);
        let i = find_char(part, '=');
        if i < part.len() && trim(part.take(i)) == SESSION_COOKIE@ {
            Some(trim(part.skip(i + 1)))
        } else {
            sid_from(parts, index + 1)
        }
    }
}

/// The session identifier in a cookie header.
pub fn extract_sid(cookie_header: &str) -> (r: Option<String>)
    ensures
        match r {
            Some(sid) => sid_from(split_on(cookie_header@, ';'), 0) == Some(sid@),
            None => sid_from(split_on(cookie_header@, ';'), 0) is None,
        },
{
    let parts = split(cookie_header, ';');
    let ghost all = split_on(cookie_header@, ';');
    let mut i: usize = 0;
    while i < parts.len()
        invariant
            i <= parts@.len(),
            all == texts(parts@),
            all == split_on(cookie_header@, ';'),
            sid_from(all, 0) == sid_from(all, i as int),
        decreases parts@.len() - i,
    {
        assert(all[i as int] == parts@[i as int]@);
        let part = trimmed(parts[i].as_str());
        match split_once(part.as_str(), '=') {
            Some((key, value)) => {
                if same_text(trimmed(key.as_str()).as_str(), SESSION_COOKIE) {
                    return Some(trimmed(value.as_str()));
                }
            },
            None => {},
        }
        i += 1;
    }
    None
}

/// Whether a character is a hexadecimal digit.
pub open spec fn hex_character(c: char) -> bool {
    ('0' <= c && c <= '9') || ('a' <= c && c <= 'f') || ('A' <= c && c <= 'F')
}

/// Whether a text has the form of a session identifier.
pub open spec fn valid_sid(s: Seq<char>) -> bool {
    byte_len(s) == 64 && forall|i: int| 0 <= i < s.len() ==> hex_character(#[trigger] s[i])
}

pub fn is_valid_sid_format(s: &str) -> (r: bool)
    ensures
        r == valid_sid(s@),
{
    if byte_count(s) != 64 {
        return false;
    }
    let chars = chars_of(s);
    let mut i: usize = 0;
    while i < chars.len()
        invariant
            i <= chars@.len(),
            chars@ == s@,
            forall|j: int| 0 <= j < i ==> hex_character(#[trigger] s@[j]),
        decreases chars@.len() - i,
    {
        let c = chars[i];
        if !(('0' <= c && c <= '9') || ('a' <= c && c <= 'f') || ('A' <= c && c <= 'F')) {
            assert(!hex_character(s@[i as int]));
            return false;
        }
        i += 1;
    }
    true
}

/// A session identifier made of random bytes, where there are any.
pub fn generate_sid(random: Option<[u8; 32]>) -> (r: Option<String>)
    ensures
        match r {
            Some(sid) => random is Some && sid@ == hex(random->0@),
            None => random is None,
        },
{
    match random {
        None => None,
        Some(bytes) => Some(hex_text(bytes.as_slice())),
    }
}

/// The header that sets the session cookie.
pub open spec fn set_cookie(id: Seq<char>, secure: bool) -> Seq<char> {
    SESSION_COOKIE@ + "="@ + id + "; Path=/; HttpOnly; SameSite=Strict; Max-Age="@ + decimal(
        SESSION_TTL_SECS as nat,
    ) + (if secure {
        "; Secure"@
    } else {
        ""@
    })
}

pub fn cookie_header(id: &str, secure: bool) -> (r: String)
    ensures
        r@ == set_cookie(id@, secure),
{
    let mut r = SESSION_COOKIE.to_owned();
    r.push_str("=");
    r.push_str(id);
    r.push_str("; Path=/; HttpOnly; SameSite=Strict; Max-Age=");
    r.push_str(decimal_text(SESSION_TTL_SECS).as_str());
    r.push_str(if secure {
        "; Secure"
    } else {
        ""
    });
    r
}

/// The headers of a request by their names, which are in lower case.
pub type Headers = Seq<(Seq<char>, Seq<char>)>;

/// Whether a request comes from the allowed origin.
pub open spec fn origin_allowed(headers: Headers, allowed: Seq<char>) -> bool {
    lookup::<String, Seq<char>>(headers, "origin"@) matches Some(origin) && trim(origin) == allowed
}

pub fn check_origin(headers: &OrderedMap<String, String>, allowed_origin: &str) -> (r: bool)
    ensures
        r == origin_allowed(viewed::<String, String>(headers@), allowed_origin@),
{
    proof {
        lemma_viewed_lookup::<String, String>(headers@, "origin"@);
    }
    match headers.get(&"origin".to_owned()) {
        None => false,
        Some(origin) => same_text(trimmed(origin.as_str()).as_str(), allowed_origin),
    }
}

/// A cookie header gives the value of the session cookie wherever it stands among other cookies, and
/// with or without white space around it.
pub proof fn law_the_session_cookie_is_found(
    parts: Seq<Seq<char>>,
    k: int,
    before: Seq<char>,
    sid: Seq<char>,
    after: Seq<char>,
)
    requires
        0 <= k < parts.len(),
        all_white(before),
        all_white(after),
        sid.len() > 0,
        !white(sid[0]),
        !white(sid.last()),
        parts[k] == before + ("arvm_anon="@ + sid) + after,
        forall|j: int| 0 <= j < k ==> lacks(#[trigger] parts[j], '='),
    ensures
        sid_from(parts, 0) == Some(sid),
{
    lemma_session_cookie_from(parts, k, before, sid, after, 0);
}

proof fn lemma_session_cookie_from(
    parts: Seq<Seq<char>>,
    k: int,
    before: Seq<char>,
    sid: Seq<char>,
    after: Seq<char>,
    index: int,
)
    requires
        0 <= index <= k < parts.len(),
        all_white(before),
        all_white(after),
        sid.len() > 0,
        !white(sid[0]),
        !white(sid.last()),
        parts[k] == before + ("arvm_anon="@ + sid) + after,
        forall|j: int| 0 <= j < k ==> lacks(#[trigger] parts[j], '='),
    ensures
        sid_from(parts, index) == Some(sid),
    decreases k - index,
{
    reveal_strlit("arvm_anon=");
    reveal_strlit("arvm_anon");
    if index < k {
        let part = trim(parts[index]);
        let (x, y) = lemma_trim_parts(parts[index]);
        assert forall|j: int| 0 <= j < part.len() implies part[j] != '=' by {
            assert(parts[index][x.len() + j] == part[j]);
        }
        lemma_find_char_is(part, '=', part.len() as int);
        lemma_session_cookie_from(parts, k, before, sid, after, index + 1);
    } else {
        let body = "arvm_anon="@ + sid;
        assert(body[0] == 'a');
        assert(body.last() == sid.last());
        lemma_trim_padded(before, body, after);
        assert forall|j: int| 0 <= j < 9 implies body[j] != '=' by {
            assert(body[j] == "arvm_anon="@[j]);
        }
        assert(body[9] == '=');
        lemma_find_char_is(body, '=', 9);
        assert(body.take(9) =~= "arvm_anon"@);
        assert(body.skip(10) =~= sid);
        assert("arvm_anon"@[0] == 'a' && "arvm_anon"@[8] == 'n');
        lemma_trim_solid("arvm_anon"@);
        lemma_trim_solid(sid);
    }
}

/// An identifier of a session is 64 hexadecimal digits, and what is generated is one.
pub proof fn law_session_identifiers(s: &str, r: bool, random: Option<[u8; 32]>, sid: Option<String>)
    requires
        call_ensures(is_valid_sid_format, (s,), r),
        call_ensures(generate_sid, (random,), sid),
    ensures
        r ==> byte_len(s@) == 64 && forall|i: int|
            0 <= i < s@.len() ==> ('0' <= #[trigger] s@[i] <= '9' || 'a' <= s@[i] <= 'f' || 'A'
                <= s@[i] <= 'F'),
        s@.len() != byte_len(s@) ==> !r,
        sid is Some <==> random is Some,
        sid matches Some(sid) ==> sid@ == hex(random->0@),
{
    if r {
        assert forall|i: int| 0 <= i < s@.len() implies ('0' <= #[trigger] s@[i] <= '9' || 'a'
            <= s@[i] <= 'f' || 'A' <= s@[i] <= 'F') by {
            assert(hex_character(s@[i]));
        }
        assert forall|i: int| 0 <= i < s@.len() implies '\0' <= #[trigger] s@[i] <= '\u{7f}' by {
            assert(hex_character(s@[i]));
        }
        lemma_small_bytes(s@);
    }
}

/// Characters of ASCII have one byte each.
proof fn lemma_small_bytes(s: Seq<char>)
    requires
        forall|i: int| 0 <= i < s.len() ==> '\0' <= #[trigger] s[i] <= '\u{7f}',
    ensures
        byte_len(s) == s.len(),
{
    assert(vstd::utf8::is_ascii_chars(s));
    vstd::utf8::is_ascii_chars_encode_utf8(s);
}

/// A request comes from the allowed origin exactly where its `origin` header, without the white
/// space around it, is that origin.
pub proof fn law_origins_are_compared_in_full(headers: Headers, allowed: Seq<char>, origin: Seq<char>)
    ensures
        lookup::<String, Seq<char>>(headers, "origin"@) is None ==> !origin_allowed(headers, allowed),
        lookup::<String, Seq<char>>(headers, "origin"@) == Some(origin) && origin.len() > 0 && !white(
            origin[0],
        ) && !white(origin.last()) ==> (origin_allowed(headers, allowed) <==> origin == allowed),
{
}

/// The cookie that is set names the session, is kept from scripts and from other sites, and ends
/// with the session.
pub proof fn law_session_cookies_are_kept_apart(id: &str, secure: bool, r: String)
    requires
        call_ensures(cookie_header, (id, secure), r),
    ensures
        begins(r@, "arvm_anon="@ + id@),
        holds_text(r@, "HttpOnly"@),
        holds_text(r@, "SameSite=Strict"@),
        holds_text(r@, "Max-Age="@ + decimal(1800)),
        secure ==> ends(r@, "; Secure"@),
{
    reveal_strlit("arvm_anon");
    reveal_strlit("arvm_anon=");
    reveal_strlit("=");
    reveal_strlit("; Path=/; HttpOnly; SameSite=Strict; Max-Age=");
    reveal_strlit("HttpOnly");
    reveal_strlit("SameSite=Strict");
    reveal_strlit("Max-Age=");
    reveal_strlit("; Path=/; ");
    reveal_strlit("; ");
    reveal_strlit("; Secure");
    reveal_strlit("");
    let tail = if secure {
        "; Secure"@
    } else {
        ""@
    };
    let number = decimal(1800);
    let first = "arvm_anon="@ + id@;
    let a = first + "; Path=/; "@;
    let b = a + "HttpOnly"@ + "; "@;
    let c = b + "SameSite=Strict"@ + "; "@;
    assert(r@ =~= first + ("; Path=/; HttpOnly; SameSite=Strict; Max-Age="@ + number + tail));
    assert(r@ =~= a + "HttpOnly"@ + ("; SameSite=Strict; Max-Age="@ + number + tail)) by {
        reveal_strlit("; SameSite=Strict; Max-Age=");
    }
    assert(r@ =~= b + "SameSite=Strict"@ + ("; Max-Age="@ + number + tail)) by {
        reveal_strlit("; Max-Age=");
    }
    assert(r@ =~= c + ("Max-Age="@ + number) + tail);
    law_texts_hold_their_parts(r@, first);
    law_texts_hold_their_parts(r@, "HttpOnly"@);
    law_texts_hold_their_parts(r@, "SameSite=Strict"@);
    law_texts_hold_their_parts(r@, "Max-Age="@ + number);
    if secure {
        assert(r@ =~= (c + ("Max-Age="@ + number)) + "; Secure"@);
        law_texts_hold_their_parts(r@, "; Secure"@);
    }
}

} // verus!
