//! Authentication of the inter-VM capability: the bearer header is hashed
//! with SHA-256 and compared, in constant time, with the configured digest.
use vstd::prelude::*;
use crate::text::{ascii_chars, is_visible_ascii, is_white_space, lemma_leading_ws, lemma_trailing_ws, trim, trim_bounds};

verus! {

/// What `openssl::sha::sha256` returns for `data`: its SHA-256 digest.
pub uninterp spec fn sha256_digest(data: Seq<u8>) -> Seq<u8>;

/// Calls `openssl::sha::sha256`. Claimed: the digest is `sha256_digest` of the
/// bytes hashed, a function of those bytes alone. The 32-byte length comes
/// from the array type; no other property of SHA-256 is stated.
#[verifier::external_body]
fn sha256(data: &[u8]) -> (digest: [u8; 32])
    ensures
        digest@ == sha256_digest(data@),
{
    openssl::sha::sha256(data)
}

/// Compares two byte strings in time that depends only on their lengths:
/// every position up to the longer length is visited.
pub fn constant_time_eq(left: &[u8], right: &[u8]) -> (eq: bool)
    ensures
        eq == (left@ == right@),
{
    let left_len = left.len();
    let right_len = right.len();
    let mut difference: usize = left_len ^ right_len;
    proof {
        assert((left_len ^ right_len) == 0usize <==> left_len == right_len) by (bit_vector);
    }
    let max_len = if left_len >= right_len {
        left_len
    } else {
        right_len
    };
    let mut index: usize = 0;
    while index < max_len
        invariant
            left_len == left@.len(),
            right_len == right@.len(),
            max_len == if left_len >= right_len { left_len } else { right_len },
            index <= max_len,
            left_len != right_len ==> difference != 0,
            left_len == right_len ==> (difference == 0 <==> forall|k: int|
                0 <= k < index ==> left@[k] == right@[k]),
        decreases max_len - index,
    {
        let l: u8 = if index < left_len {
            left[index]
        } else {
            0
        };
        let r: u8 = if index < right_len {
            right[index]
        } else {
            0
        };
        let x: u8 = l ^ r;
        let d0 = difference;
        difference = difference | (x as usize);
        proof {
            assert((l ^ r) == 0u8 <==> l == r) by (bit_vector);
            assert(((d0 | ((l ^ r) as usize)) == 0usize) <==> (d0 == 0usize && (l ^ r) == 0u8))
                by (bit_vector);
        }
        index = index + 1;
    }
    proof {
        if left_len == right_len && difference == 0 {
            assert(left@ =~= right@);
        }
    }
    difference == 0
}

/// Every byte of `header` is one that `HeaderValue::to_str` accepts.
pub open spec fn all_visible_ascii(header: Seq<u8>) -> bool {
    forall|i: int| 0 <= i < header.len() ==> is_visible_ascii(#[trigger] header[i])
}

/// The bytes of the token that a bearer header value presents: the value read
/// as text (which requires visible ASCII) and trimmed.
pub open spec fn presented_token(header: Seq<u8>) -> Option<Seq<u8>> {
    if all_visible_ascii(header) {
        Some(vstd::utf8::encode_utf8(trim(ascii_chars(header))))
    } else {
        None
    }
}

/// Whether a request that carries `header` (or none) in its bearer header is
/// let in, for the configured digest `expected`.
pub open spec fn bearer_accepted(header: Option<Seq<u8>>, expected: Seq<u8>) -> bool {
    match header {
        Some(h) => match presented_token(h) {
            Some(token) => sha256_digest(token) == expected,
            None => false,
        },
        None => false,
    }
}

/// An ASCII byte string encodes to itself.
proof fn lemma_ascii_encodes_to_itself(bytes: Seq<u8>)
    requires
        all_visible_ascii(bytes),
    ensures
        vstd::utf8::encode_utf8(ascii_chars(bytes)) == bytes,
{
    let c = ascii_chars(bytes);
    assert forall|i: int| 0 <= i < c.len() implies '\0' <= #[trigger] c[i] <= '\u{7f}' by {
        assert(is_visible_ascii(bytes[i]));
    }
    vstd::utf8::is_ascii_chars_encode_utf8(c);
    assert forall|i: int| 0 <= i < bytes.len() implies #[trigger] vstd::utf8::encode_utf8(c)[i]
        == bytes[i] by {
        let b = bytes[i];
        assert(is_visible_ascii(b));
        assert(c[i] == b as char);
        assert((b as char) as u8 == b);
    }
    assert(vstd::utf8::encode_utf8(c) =~= bytes);
}

/// Whether the bearer header value `header` presents a token whose SHA-256
/// digest is `expected`.
pub fn authenticated(header: Option<&[u8]>, expected: &[u8; 32]) -> (ok: bool)
    ensures
        ok == bearer_accepted(
            match header {
                Some(h) => Some(h@),
                None => None,
            },
            expected@,
        ),
{
    match header {
        Some(value) => match token_bounds(value) {
            Some((a, b)) => {
                let digest = sha256(&value[a..b]);
                constant_time_eq(&digest, expected)
            },
            None => false,
        },
        None => false,
    }
}

/// Where `value` is visible ASCII, the bounds of its trimmed part, which is
/// the token it presents.
fn token_bounds(value: &[u8]) -> (r: Option<(usize, usize)>)
    ensures
        match r {
            Some((a, b)) => a <= b <= value@.len() && presented_token(value@) == Some(
                value@.subrange(a as int, b as int),
            ),
            None => presented_token(value@) is None,
        },
{
    let n = value.len();
    let mut chars: Vec<char> = Vec::new();
    let mut i: usize = 0;
    while i < n
        invariant
            n == value@.len(),
            i <= n,
            chars@ == ascii_chars(value@.take(i as int)),
            all_visible_ascii(value@.take(i as int)),
        decreases n - i,
    {
        let b = value[i];
        if !((32 <= b && b < 127) || b == 9) {
            proof {
                assert(!is_visible_ascii(value@[i as int]));
                assert(!all_visible_ascii(value@));
            }
            return None;
        }
        chars.push(b as char);
        proof {
            assert(value@.take(i + 1) =~= value@.take(i as int).push(b));
            assert(ascii_chars(value@.take(i + 1)) =~= ascii_chars(value@.take(i as int)).push(
                b as char,
            ));
        }
        i = i + 1;
    }
    proof {
        assert(value@.take(n as int) =~= value@);
    }
    let (a, b) = trim_bounds(&chars, 0, n);
    proof {
        assert(chars@.subrange(0, n as int) =~= chars@);
        let sub = value@.subrange(a as int, b as int);
        assert(ascii_chars(sub) =~= chars@.subrange(a as int, b as int));
        assert(all_visible_ascii(sub));
        lemma_ascii_encodes_to_itself(sub);
    }
    Some((a, b))
}

/// A bearer header whose trimmed text hashes to the configured digest is let
/// in; one that is absent, or not visible ASCII, is not.
pub proof fn lemma_configured_token_accepted(header: Seq<u8>, expected: Seq<u8>)
    ensures
        all_visible_ascii(header) && sha256_digest(vstd::utf8::encode_utf8(trim(ascii_chars(header))))
            == expected ==> bearer_accepted(Some(header), expected),
        !all_visible_ascii(header) ==> !bearer_accepted(Some(header), expected),
        !bearer_accepted(None, expected),
{
}

/// A bearer header made of spaces and tabs, then a token of printable ASCII
/// that neither starts nor ends with a space, then spaces and tabs, is let in
/// exactly when the SHA-256 digest of the token is the configured one.
pub proof fn lemma_padded_token(pre: Seq<u8>, token: Seq<u8>, post: Seq<u8>, expected: Seq<u8>)
    requires
        forall|i: int| 0 <= i < pre.len() ==> (#[trigger] pre[i] == 32 || pre[i] == 9),
        forall|i: int| 0 <= i < post.len() ==> (#[trigger] post[i] == 32 || post[i] == 9),
        forall|i: int| 0 <= i < token.len() ==> 32 <= #[trigger] token[i] < 127,
        token.len() > 0 ==> token[0] != 32 && token[token.len() - 1] != 32,
    ensures
        bearer_accepted(Some(pre + token + post), expected) == (sha256_digest(token) == expected),
{
    let h = pre + token + post;
    assert(all_visible_ascii(h)) by {
        assert forall|i: int| 0 <= i < h.len() implies is_visible_ascii(#[trigger] h[i]) by {
            if i < pre.len() {
                assert(h[i] == pre[i]);
            } else if i < pre.len() + token.len() {
                assert(h[i] == token[i - pre.len()]);
            } else {
                assert(h[i] == post[i - pre.len() - token.len()]);
            }
        }
    }
    let c = ascii_chars(h);
    let p = pre.len() as int;
    let e = p + token.len();
    assert forall|k: int| 0 <= k < p implies is_white_space(#[trigger] c[k]) by {
        assert(c[k] == h[k] as char);
        assert(h[k] == pre[k]);
    }
    assert forall|k: int| e <= k < c.len() implies is_white_space(#[trigger] c[k]) by {
        assert(c[k] == h[k] as char);
        assert(h[k] == post[k - e]);
    }
    let tc = ascii_chars(token);
    assert(tc =~= c.subrange(p, e));
    if token.len() > 0 {
        assert(c[p] == token[0] as char);
        assert(c[e - 1] == token[token.len() - 1] as char);
        lemma_leading_ws(c, p);
        let t = c.skip(p);
        assert forall|k: int| e - p <= k < t.len() implies is_white_space(#[trigger] t[k]) by {
            assert(t[k] == c[p + k]);
        }
        assert(t[e - p - 1] == c[e - 1]);
        lemma_trailing_ws(t, e - p);
        assert(trim(c) =~= tc);
    } else {
        assert forall|k: int| 0 <= k < c.len() implies is_white_space(#[trigger] c[k]) by {
            if k < p {
            } else {
                assert(k >= e);
            }
        }
        lemma_leading_ws(c, c.len() as int);
        let t = c.skip(c.len() as int);
        lemma_trailing_ws(t, 0);
        assert(trim(c) =~= tc);
    }
    assert forall|i: int| 0 <= i < token.len() implies is_visible_ascii(#[trigger] token[i]) by {}
    lemma_ascii_encodes_to_itself(token);
}

} // verus!
