//! The Graph paths the proxy knows, the content type it accepts, and the
//! upstream URL it posts to.
use vstd::prelude::*;
use vstd::string::StringExecFns;
use crate::auth::all_visible_ascii;
use crate::text::chars_of;

verus! {

/// The Graph path that creates a draft.
pub open spec fn create_draft_path() -> Seq<char> {
    "/v1.0/me/messages"@
}

/// The path under which a draft's send action lives: before the draft's ID.
pub open spec fn send_prefix() -> Seq<char> {
    "/v1.0/me/messages/"@
}

/// The path under which a draft's send action lives: after the draft's ID.
pub open spec fn send_suffix() -> Seq<char> {
    "/send"@
}

/// A byte allowed in a draft ID: an ASCII letter or digit, or one of `-_.=%`.
pub open spec fn draft_id_byte(b: u8) -> bool {
    ||| 48 <= b <= 57
    ||| 65 <= b <= 90
    ||| 97 <= b <= 122
    ||| b == 45
    ||| b == 95
    ||| b == 46
    ||| b == 61
    ||| b == 37
}

/// The draft ID in a send path `/v1.0/me/messages/{id}/send`, where `id` is
/// 1 to 512 bytes, each allowed by `draft_id_byte`.
pub open spec fn send_path_id(path: Seq<char>) -> Option<Seq<char>> {
    let p = send_prefix().len();
    let q = send_suffix().len();
    if path.len() >= p + q && path.take(p as int) == send_prefix() && path.skip(path.len() - q)
        == send_suffix() {
        let id = path.subrange(p as int, path.len() - q);
        let bytes = vstd::utf8::encode_utf8(id);
        if 0 < bytes.len() <= 512 && forall|i: int|
            0 <= i < bytes.len() ==> draft_id_byte(#[trigger] bytes[i]) {
            Some(id)
        } else {
            None
        }
    } else {
        None
    }
}

/// Every ID of 1 to 512 characters, each an ASCII letter, an ASCII digit or
/// one of `-_.=%`, is the draft ID of its send path.
pub proof fn lemma_send_path_accepts_ids(id: Seq<char>)
    requires
        1 <= id.len() <= 512,
        forall|i: int|
            0 <= i < id.len() ==> {
                let c = #[trigger] id[i];
                ||| '0' <= c <= '9'
                ||| 'a' <= c <= 'z'
                ||| 'A' <= c <= 'Z'
                ||| c == '-'
                ||| c == '_'
                ||| c == '.'
                ||| c == '='
                ||| c == '%'
            },
    ensures
        send_path_id(send_prefix() + id + send_suffix()) == Some(id),
{
    let path = send_prefix() + id + send_suffix();
    let p = send_prefix().len() as int;
    let q = send_suffix().len() as int;
    assert(path.take(p) =~= send_prefix());
    assert(path.skip(path.len() - q) =~= send_suffix());
    assert(path.subrange(p, path.len() - q) =~= id);
    assert forall|i: int| 0 <= i < id.len() implies '\0' <= #[trigger] id[i] <= '\u{7f}' by {
        let c = id[i];
        assert(c <= '\u{7f}');
    }
    vstd::utf8::is_ascii_chars_encode_utf8(id);
    let bytes = vstd::utf8::encode_utf8(id);
    assert forall|i: int| 0 <= i < bytes.len() implies draft_id_byte(#[trigger] bytes[i]) by {
        let c = id[i];
        assert(bytes[i] == c as u8);
        assert(c as u32 <= 0x7f);
        assert((c as u8) as u32 == c as u32);
    }
}

/// A draft ID taken from a send path is 1 to 512 bytes of UTF-8, every byte an
/// ASCII digit (`0x30`-`0x39`), an ASCII letter (`0x41`-`0x5A`,
/// `0x61`-`0x7A`) or one of `-` `_` `.` `=` `%`; the path is the prefix, the
/// ID and the suffix.
pub proof fn lemma_send_path_id_bytes(path: Seq<char>)
    ensures
        send_path_id(path) matches Some(id) ==> {
            let bytes = vstd::utf8::encode_utf8(id);
            &&& 1 <= bytes.len() <= 512
            &&& forall|i: int|
                0 <= i < bytes.len() ==> {
                    let b = #[trigger] bytes[i];
                    ||| 0x30 <= b <= 0x39
                    ||| 0x41 <= b <= 0x5A
                    ||| 0x61 <= b <= 0x7A
                    ||| b == '-' as u8
                    ||| b == '_' as u8
                    ||| b == '.' as u8
                    ||| b == '=' as u8
                    ||| b == '%' as u8
                }
            &&& path == send_prefix() + id + send_suffix()
        },
{
    if let Some(id) = send_path_id(path) {
        lemma_send_path_roundtrip(path, id);
    }
}

/// Whether `s[start..start + lit.len()]` is `lit`.
fn chars_match_at(s: &Vec<char>, start: usize, lit: &Vec<char>) -> (r: bool)
    requires
        start + lit.len() <= s.len(),
    ensures
        r == (s@.subrange(start as int, start + lit.len()) == lit@),
{
    let mut i: usize = 0;
    while i < lit.len()
        invariant
            start + lit.len() <= s.len(),
            i <= lit.len(),
            forall|k: int| 0 <= k < i ==> s@[start + k] == lit@[k],
        decreases lit.len() - i,
    {
        if s[start + i] != lit[i] {
            proof {
                assert(s@.subrange(start as int, start + lit.len())[i as int] != lit@[i as int]);
            }
            return false;
        }
        i = i + 1;
    }
    assert(s@.subrange(start as int, start + lit.len()) =~= lit@);
    true
}

/// The draft ID of a path that names a draft's send action.
pub fn send_draft_id(path: &str) -> (id: Option<&str>)
    ensures
        match id {
            Some(id) => send_path_id(path@) == Some(id@),
            None => send_path_id(path@) is None,
        },
{
    let cs = chars_of(path);
    let prefix = chars_of("/v1.0/me/messages/");
    let suffix = chars_of("/send");
    let n = cs.len();
    let p = prefix.len();
    let q = suffix.len();
    if n < p || n - p < q {
        return None;
    }
    if !chars_match_at(&cs, 0, &prefix) || !chars_match_at(&cs, n - q, &suffix) {
        proof {
            assert(cs@.take(p as int) =~= cs@.subrange(0, p as int));
            assert(cs@.skip(n - q) =~= cs@.subrange(n - q, n as int));
        }
        return None;
    }
    proof {
        assert(cs@.take(p as int) =~= cs@.subrange(0, p as int));
        assert(cs@.skip(n - q) =~= cs@.subrange(n - q, n as int));
    }
    let id = path.substring_char(p, n - q);
    let bytes = id.as_bytes();
    if bytes.len() == 0 || bytes.len() > 512 {
        return None;
    }
    if !all_draft_id_bytes(bytes) {
        return None;
    }
    Some(id)
}

fn all_draft_id_bytes(bytes: &[u8]) -> (r: bool)
    ensures
        r == forall|k: int| 0 <= k < bytes@.len() ==> draft_id_byte(#[trigger] bytes@[k]),
{
    let mut i: usize = 0;
    while i < bytes.len()
        invariant
            i <= bytes@.len(),
            forall|k: int| 0 <= k < i ==> draft_id_byte(#[trigger] bytes@[k]),
        decreases bytes@.len() - i,
    {
        let b = bytes[i];
        let allowed = (48 <= b && b <= 57) || (65 <= b && b <= 90) || (97 <= b && b <= 122) || b
            == 45 || b == 95 || b == 46 || b == 61 || b == 37;
        if !allowed {
            proof {
                assert(!draft_id_byte(bytes@[i as int]));
            }
            return false;
        }
        i = i + 1;
    }
    true
}

/// ASCII lower case of a byte.
pub open spec fn ascii_lower(b: u8) -> u8 {
    if 65 <= b <= 90 {
        (b + 32) as u8
    } else {
        b
    }
}

/// Whether a content-type header value (or its absence) announces JSON: the
/// value reads as text and equals `application/json` up to ASCII case.
pub open spec fn json_content_type(header: Option<Seq<u8>>) -> bool {
    match header {
        Some(v) => {
            let lit = vstd::utf8::encode_utf8("application/json"@);
            &&& all_visible_ascii(v)
            &&& v.len() == lit.len()
            &&& forall|i: int| 0 <= i < v.len() ==> ascii_lower(#[trigger] v[i]) == ascii_lower(lit[i])
        },
        None => false,
    }
}

fn lower_byte(b: u8) -> (r: u8)
    ensures
        r == ascii_lower(b),
{
    if 65 <= b && b <= 90 {
        b + 32
    } else {
        b
    }
}

/// Whether a content-type header value announces JSON (see
/// `json_content_type`).
pub fn content_type_is_json(header: Option<&[u8]>) -> (ok: bool)
    ensures
        ok == json_content_type(
            match header {
                Some(h) => Some(h@),
                None => None,
            },
        ),
{
    match header {
        Some(v) => json_bytes(v),
        None => false,
    }
}

fn json_bytes(v: &[u8]) -> (ok: bool)
    ensures
        ok == json_content_type(Some(v@)),
{
    let lit = "application/json".as_bytes();
    if v.len() != lit.len() {
        return false;
    }
    let mut i: usize = 0;
    while i < v.len()
        invariant
            v@.len() == lit@.len(),
            lit@ == vstd::utf8::encode_utf8("application/json"@),
            i <= v@.len(),
            forall|k: int| 0 <= k < i ==> crate::text::is_visible_ascii(#[trigger] v@[k]),
            forall|k: int| 0 <= k < i ==> ascii_lower(#[trigger] v@[k]) == ascii_lower(lit@[k]),
        decreases v@.len() - i,
    {
        let b = v[i];
        if !((32 <= b && b < 127) || b == 9) {
            proof {
                assert(!crate::text::is_visible_ascii(v@[i as int]));
                assert(!all_visible_ascii(v@));
            }
            return false;
        }
        if lower_byte(b) != lower_byte(lit[i]) {
            return false;
        }
        i = i + 1;
    }
    true
}

/// A content-type value is accepted exactly when it is visible ASCII and,
/// with its ASCII capitals made small, is the bytes of `application/json`.
pub proof fn lemma_json_content_type_rule(v: Seq<u8>)
    ensures
        json_content_type(Some(v)) <==> all_visible_ascii(v) && v.map_values(
            |b: u8|
                if 0x41 <= b <= 0x5A {
                    (b + 0x20) as u8
                } else {
                    b
                },
        ) == vstd::utf8::encode_utf8("application/json"@).map_values(
            |b: u8|
                if 0x41 <= b <= 0x5A {
                    (b + 0x20) as u8
                } else {
                    b
                },
        ),
{
    let lit = vstd::utf8::encode_utf8("application/json"@);
    let f = |b: u8|
        if 0x41 <= b <= 0x5A {
            (b + 0x20) as u8
        } else {
            b
        };
    if json_content_type(Some(v)) {
        assert(v.map_values(f) =~= lit.map_values(f)) by {
            assert forall|i: int| 0 <= i < v.len() implies v.map_values(f)[i] == lit.map_values(f)[i] by {
                assert(ascii_lower(v[i]) == ascii_lower(lit[i]));
            }
        }
    }
    if all_visible_ascii(v) && v.map_values(f) == lit.map_values(f) {
        assert(v.map_values(f).len() == v.len());
        assert(lit.map_values(f).len() == lit.len());
        assert(v.len() == lit.len());
        assert forall|i: int| 0 <= i < v.len() implies ascii_lower(#[trigger] v[i]) == ascii_lower(lit[i]) by {
            assert(v.map_values(f)[i] == lit.map_values(f)[i]);
        }
    }
}

/// The Graph URL that creates a draft, under the API base `base`.
pub fn create_draft_url(base: &str) -> (url: String)
    ensures
        url@ == base@ + create_draft_path(),
{
    let mut url = base.to_owned();
    url.append("/v1.0/me/messages");
    url
}

/// The draft ID that a send path yields rebuilds the path between the
/// prefix and the suffix.
pub proof fn lemma_send_path_roundtrip(path: Seq<char>, id: Seq<char>)
    requires
        send_path_id(path) == Some(id),
    ensures
        path == send_prefix() + id + send_suffix(),
{
    let p = send_prefix().len() as int;
    let q = send_suffix().len() as int;
    assert(path =~= path.take(p) + path.subrange(p, path.len() - q) + path.skip(path.len() - q));
}

/// Why forwarding a draft to Graph failed.
pub struct ProxyError(pub String);

} // verus!
