//! The draft schema and the limits that a draft must meet before it is
//! forwarded to Graph.
use vstd::prelude::*;
use vstd::string::StrSliceExecFns;
use crate::text::{chars_of, find_char, is_white_space, is_white_space_char, lemma_split_once_found, lemma_split_once_range, lemma_split_once_shape, split_once, trim, trim_bounds};

verus! {

/// An Outlook message draft.
pub struct Draft {
    pub subject: String,
    pub body: Body,
    pub to_recipients: Vec<Recipient>,
    pub cc_recipients: Vec<Recipient>,
}

/// The body of a draft.
pub struct Body {
    pub content_type: String,
    pub content: String,
}

/// One addressee of a draft.
pub struct Recipient {
    pub email_address: EmailAddress,
}

/// An address with an optional display name.
pub struct EmailAddress {
    pub address: String,
    pub name: Option<String>,
}

/// Why a draft is refused.
#[derive(Debug, PartialEq, Eq, Structural)]
pub enum DraftError {
    SubjectLength,
    BodyContentType,
    BodyTooLong,
    TooManyRecipients,
    InvalidAddress,
    NameTooLong,
}

impl DraftError {
    /// The message that reports this error.
    pub open spec fn text(self) -> Seq<char> {
        match self {
            DraftError::SubjectLength => "subject must contain 1 to 200 characters"@,
            DraftError::BodyContentType => "body.contentType must be Text or HTML"@,
            DraftError::BodyTooLong => "body content exceeds 10000 characters"@,
            DraftError::TooManyRecipients => "draft exceeds 10 recipients"@,
            DraftError::InvalidAddress => "recipient contains an invalid email address"@,
            DraftError::NameTooLong => "recipient name exceeds 200 characters"@,
        }
    }

    /// The message that reports this error.
    pub fn message(&self) -> (m: String)
        ensures
            m@ == self.text(),
    {
        match self {
            DraftError::SubjectLength => "subject must contain 1 to 200 characters".to_owned(),
            DraftError::BodyContentType => "body.contentType must be Text or HTML".to_owned(),
            DraftError::BodyTooLong => "body content exceeds 10000 characters".to_owned(),
            DraftError::TooManyRecipients => "draft exceeds 10 recipients".to_owned(),
            DraftError::InvalidAddress => "recipient contains an invalid email address".to_owned(),
            DraftError::NameTooLong => "recipient name exceeds 200 characters".to_owned(),
        }
    }
}

/// Number of bytes in the UTF-8 encoding of `c`.
pub open spec fn utf8_width(c: char) -> nat {
    let u = c as u32;
    if u <= 0x7F {
        1
    } else if u <= 0x7FF {
        2
    } else if u <= 0xFFFF {
        3
    } else {
        4
    }
}

/// Number of bytes in the UTF-8 encoding of `s`.
pub open spec fn utf8_len(s: Seq<char>) -> nat
    decreases s.len(),
{
    if s.len() == 0 {
        0
    } else {
        utf8_width(s[0]) + utf8_len(s.drop_first())
    }
}

pub proof fn lemma_utf8_len(s: Seq<char>)
    ensures
        vstd::utf8::encode_utf8(s).len() == utf8_len(s),
    decreases s.len(),
{
    if s.len() > 0 {
        vstd::utf8::char_is_scalar(s[0]);
        lemma_utf8_len(s.drop_first());
    }
}

pub proof fn lemma_utf8_len_push(s: Seq<char>, c: char)
    ensures
        utf8_len(s.push(c)) == utf8_len(s) + utf8_width(c),
    decreases s.len(),
{
    assert(utf8_len(Seq::<char>::empty()) == 0);
    assert(s.push(c)[0] == if s.len() == 0 { c } else { s[0] });
    if s.len() == 0 {
        assert(s.push(c).drop_first() =~= Seq::<char>::empty());
    } else {
        assert(s.push(c).drop_first() =~= s.drop_first().push(c));
        lemma_utf8_len_push(s.drop_first(), c);
    }
}

/// Whether `value` is accepted as an email address: trimmed, it has a
/// non-empty part before its first `@`, a part after it that contains a `.`
/// and neither starts nor ends with one, no white space, and at most 254
/// bytes.
pub open spec fn email_ok(value: Seq<char>) -> bool {
    let t = trim(value);
    match split_once(t, '@') {
        None => false,
        Some((local, domain)) => {
            &&& local.len() > 0
            &&& domain.contains('.')
            &&& !(domain.len() > 0 && domain[0] == '.')
            &&& !(domain.len() > 0 && domain.last() == '.')
            &&& !exists|i: int| 0 <= i < t.len() && is_white_space(#[trigger] t[i])
            &&& vstd::utf8::encode_utf8(t).len() <= 254
        },
    }
}

/// Whether `value` is accepted as an email address (see `email_ok`).
pub fn valid_email(value: &str) -> (ok: bool)
    ensures
        ok == email_ok(value@),
{
    let cs = chars_of(value);
    let n = cs.len();
    let (a, b) = trim_bounds(&cs, 0, n);
    proof {
        assert(cs@.subrange(0, n as int) =~= cs@);
    }
    let ghost t = cs@.subrange(a as int, b as int);
    let at = find_char(&cs, a, b, '@');
    proof {
        lemma_split_once_range(cs@, a as int, b as int, '@', at);
    }
    let p = match at {
        Some(p) => p,
        None => {
            return false;
        },
    };
    let ghost domain = cs@.subrange(p + 1, b as int);
    if p == a {
        return false;
    }
    let dot = find_char(&cs, p + 1, b, '.');
    match dot {
        Some(d) => {
            proof {
                assert(domain[d - p - 1] == '.');
            }
        },
        None => {
            proof {
                if domain.contains('.') {
                    let k = choose|k: int| 0 <= k < domain.len() && domain[k] == '.';
                    assert(cs@[p + 1 + k] == '.');
                }
            }
            return false;
        },
    }
    // The domain is non-empty here, since it contains a dot.
    if cs[p + 1] == '.' || cs[b - 1] == '.' {
        return false;
    }
    if !no_white_space(&cs, a, b) {
        proof {
            let k = choose|k: int| a <= k < b && is_white_space(#[trigger] cs@[k]);
            assert(t[k - a] == cs@[k]);
        }
        return false;
    }
    proof {
        assert forall|k: int| 0 <= k < t.len() implies !is_white_space(#[trigger] t[k]) by {
            assert(t[k] == cs@[a + k]);
        }
        lemma_utf8_len(t);
    }
    utf8_len_at_most(&cs, a, b, 254)
}

/// Whether no character of `s[from..to]` is white space.
fn no_white_space(s: &Vec<char>, from: usize, to: usize) -> (r: bool)
    requires
        from <= to <= s.len(),
    ensures
        r == !exists|k: int| from <= k < to && is_white_space(#[trigger] s@[k]),
{
    let mut i = from;
    while i < to
        invariant
            from <= i <= to <= s.len(),
            forall|k: int| from <= k < i ==> !is_white_space(#[trigger] s@[k]),
        decreases to - i,
    {
        if is_white_space_char(s[i]) {
            return false;
        }
        i = i + 1;
    }
    true
}

/// Whether `s[from..to]` takes at most `limit` bytes in UTF-8.
fn utf8_len_at_most(s: &Vec<char>, from: usize, to: usize, limit: usize) -> (r: bool)
    requires
        from <= to <= s.len(),
        limit <= 0x1000,
    ensures
        r == (utf8_len(s@.subrange(from as int, to as int)) <= limit),
{
    let ghost t = s@.subrange(from as int, to as int);
    let mut bytes: usize = 0;
    let mut j = from;
    while j < to
        invariant
            from <= j <= to <= s.len(),
            limit <= 0x1000,
            t == s@.subrange(from as int, to as int),
            bytes == utf8_len(s@.subrange(from as int, j as int)),
            bytes <= limit,
        decreases to - j,
    {
        let u = s[j] as u32;
        let w: usize = if u <= 0x7F {
            1
        } else if u <= 0x7FF {
            2
        } else if u <= 0xFFFF {
            3
        } else {
            4
        };
        proof {
            assert(s@.subrange(from as int, j + 1) =~= s@.subrange(from as int, j as int).push(
                s@[j as int],
            ));
            lemma_utf8_len_push(s@.subrange(from as int, j as int), s@[j as int]);
        }
        if bytes + w > limit {
            proof {
                lemma_utf8_len_prefix(t, j - from + 1);
                assert(t.take(j - from + 1) =~= s@.subrange(from as int, j + 1));
            }
            return false;
        }
        bytes = bytes + w;
        j = j + 1;
    }
    true
}

/// A prefix never needs more bytes than the whole.
pub proof fn lemma_utf8_len_prefix(s: Seq<char>, k: int)
    requires
        0 <= k <= s.len(),
    ensures
        utf8_len(s.take(k)) <= utf8_len(s),
    decreases s.len() - k,
{
    if k < s.len() {
        lemma_utf8_len_prefix(s, k + 1);
        assert(s.take(k + 1) =~= s.take(k).push(s[k]));
        lemma_utf8_len_push(s.take(k), s[k]);
    } else {
        assert(s.take(k) =~= s);
    }
}

/// An address is accepted exactly when, trimmed to `t`, it has a first `@` at
/// some position `p > 0`, a `.` somewhere after `p`, no `.` right after `p`
/// nor at its end, no white space, and at most 254 bytes of UTF-8.
pub proof fn lemma_email_rule(value: Seq<char>)
    ensures
        email_ok(value) <==> ({
            let t = trim(value);
            &&& exists|p: int|
                #![trigger t[p]]
                {
                    &&& 0 < p < t.len()
                    &&& t[p] == '@'
                    &&& forall|k: int| 0 <= k < p ==> t[k] != '@'
                    &&& exists|j: int| p < j < t.len() && t[j] == '.'
                    &&& p + 1 < t.len()
                    &&& t[p + 1] != '.'
                }
            &&& t.len() > 0 && t[t.len() - 1] != '.'
            &&& forall|k: int| 0 <= k < t.len() ==> !is_white_space(#[trigger] t[k])
            &&& vstd::utf8::encode_utf8(t).len() <= 254
        }),
{
    let t = trim(value);
    lemma_split_once_shape(t, '@');
    if email_ok(value) {
        let (l, d) = split_once(t, '@')->0;
        let p = l.len() as int;
        assert(t[p] == '@');
        assert forall|k: int| 0 <= k < p implies t[k] != '@' by {
            assert(t[k] == l[k]);
        }
        let j0 = choose|j: int| 0 <= j < d.len() && d[j] == '.';
        assert(t[p + 1 + j0] == '.');
        assert(t[p + 1] == d[0]);
        assert(t[t.len() - 1] == d.last());
    }
    if ({
        &&& exists|p: int|
            #![trigger t[p]]
            {
                &&& 0 < p < t.len()
                &&& t[p] == '@'
                &&& forall|k: int| 0 <= k < p ==> t[k] != '@'
                &&& exists|j: int| p < j < t.len() && t[j] == '.'
                &&& p + 1 < t.len()
                &&& t[p + 1] != '.'
            }
        &&& t.len() > 0 && t[t.len() - 1] != '.'
        &&& forall|k: int| 0 <= k < t.len() ==> !is_white_space(#[trigger] t[k])
        &&& vstd::utf8::encode_utf8(t).len() <= 254
    }) {
        let p = choose|p: int|
            #![trigger t[p]]
            {
                &&& 0 < p < t.len()
                &&& t[p] == '@'
                &&& forall|k: int| 0 <= k < p ==> t[k] != '@'
                &&& exists|j: int| p < j < t.len() && t[j] == '.'
                &&& p + 1 < t.len()
                &&& t[p + 1] != '.'
            };
        lemma_split_once_found(t, '@', p);
        let d = t.skip(p + 1);
        let j = choose|j: int| p < j < t.len() && t[j] == '.';
        assert(d[j - p - 1] == '.');
        assert(d.contains('.'));
        assert(d[0] == t[p + 1]);
        assert(d.last() == t[t.len() - 1]);
    }
}

/// An address whose text after its first `@` holds no `.` is refused,
/// whatever dots come before the `@`.
pub proof fn lemma_email_needs_dot_in_domain(value: Seq<char>, p: int)
    requires
        0 <= p < trim(value).len(),
        trim(value)[p] == '@',
        forall|k: int| 0 <= k < p ==> trim(value)[k] != '@',
        forall|j: int| p < j < trim(value).len() ==> trim(value)[j] != '.',
    ensures
        !email_ok(value),
{
    let t = trim(value);
    lemma_split_once_found(t, '@', p);
    let d = t.skip(p + 1);
    if d.contains('.') {
        let j = choose|j: int| 0 <= j < d.len() && d[j] == '.';
        assert(t[p + 1 + j] == '.');
    }
}

/// Why `r` is refused as a recipient, if it is.
pub open spec fn recipient_error(r: Recipient) -> Option<DraftError> {
    if !email_ok(r.email_address.address@) {
        Some(DraftError::InvalidAddress)
    } else if r.email_address.name matches Some(name) && name@.len() > 200 {
        Some(DraftError::NameTooLong)
    } else {
        None
    }
}

/// The error of the first refused recipient in `rs`, if any.
pub open spec fn recipients_error(rs: Seq<Recipient>) -> Option<DraftError>
    decreases rs.len(),
{
    if rs.len() == 0 {
        None
    } else {
        match recipient_error(rs[0]) {
            Some(e) => Some(e),
            None => recipients_error(rs.drop_first()),
        }
    }
}

/// Why `d` is refused, if it is; the checks run in this order and the first
/// that fails decides.
pub open spec fn draft_error(d: Draft) -> Option<DraftError> {
    let subject_chars = trim(d.subject@).len();
    if subject_chars == 0 || subject_chars > 200 {
        Some(DraftError::SubjectLength)
    } else if !(d.body.content_type@ == "Text"@ || d.body.content_type@ == "HTML"@) {
        Some(DraftError::BodyContentType)
    } else if d.body.content@.len() > 10000 {
        Some(DraftError::BodyTooLong)
    } else if d.to_recipients@.len() + d.cc_recipients@.len() > 10 {
        Some(DraftError::TooManyRecipients)
    } else {
        recipients_error(d.to_recipients@ + d.cc_recipients@)
    }
}

/// A list of recipients has no error exactly when none of them has one; where
/// it has one, it is the error of some recipient all of whose predecessors
/// are fine.
pub proof fn lemma_recipients_rule(rs: Seq<Recipient>)
    ensures
        recipients_error(rs) is None <==> forall|i: int|
            0 <= i < rs.len() ==> recipient_error(#[trigger] rs[i]) is None,
        recipients_error(rs) matches Some(e) ==> exists|i: int|
            0 <= i < rs.len() && recipient_error(#[trigger] rs[i]) == Some(e) && forall|k: int|
                0 <= k < i ==> recipient_error(rs[k]) is None,
    decreases rs.len(),
{
    if rs.len() > 0 {
        let rest = rs.drop_first();
        lemma_recipients_rule(rest);
        assert forall|i: int| 0 < i < rs.len() implies rs[i] == rest[i - 1] by {}
        if recipients_error(rs) is None {
            assert forall|i: int| 0 <= i < rs.len() implies recipient_error(#[trigger] rs[i]) is None by {
                if i > 0 {
                    assert(rs[i] == rest[i - 1]);
                }
            }
        }
        if forall|i: int| 0 <= i < rs.len() ==> recipient_error(#[trigger] rs[i]) is None {
            assert(recipient_error(rs[0]) is None);
            assert forall|i: int| 0 <= i < rest.len() implies recipient_error(#[trigger] rest[i]) is None by {
                assert(rest[i] == rs[i + 1]);
            }
        }
        if let Some(e) = recipients_error(rs) {
            if recipient_error(rs[0]) is None {
                let j = choose|j: int|
                    0 <= j < rest.len() && recipient_error(#[trigger] rest[j]) == Some(e) && forall|k: int|
                        0 <= k < j ==> recipient_error(rest[k]) is None;
                assert(rs[j + 1] == rest[j]);
                assert forall|k: int| 0 <= k < j + 1 implies recipient_error(rs[k]) is None by {
                    if k > 0 {
                        assert(rs[k] == rest[k - 1]);
                    }
                }
            } else {
                assert(recipient_error(rs[0]) == Some(e));
            }
        }
    }
}

/// A recipient is refused for its address exactly when the address is not
/// accepted, and otherwise for its name exactly when the name has more than
/// 200 characters.
pub proof fn lemma_recipient_rule(r: Recipient)
    ensures
        !email_ok(r.email_address.address@) ==> recipient_error(r) == Some(
            DraftError::InvalidAddress,
        ),
        email_ok(r.email_address.address@) ==> (recipient_error(r) == Some(
            DraftError::NameTooLong,
        ) <==> (r.email_address.name is Some && r.email_address.name->0@.len() > 200)),
        email_ok(r.email_address.address@) ==> (recipient_error(r) is None <==> (
        r.email_address.name is None || r.email_address.name->0@.len() <= 200)),
{
}

/// A draft passes exactly when its trimmed subject has 1 to 200 characters,
/// its body is `Text` or `HTML` with at most 10000 characters, it has at most
/// 10 recipients in all, and every recipient (to, then cc) passes. A subject
/// error is reported before a content-type error, that before a body-length
/// error, that before a recipient-count error, and that before any recipient
/// error.
pub proof fn lemma_draft_rules(d: Draft)
    ensures
        draft_error(d) is None <==> {
            &&& 1 <= trim(d.subject@).len() <= 200
            &&& (d.body.content_type@ == "Text"@ || d.body.content_type@ == "HTML"@)
            &&& d.body.content@.len() <= 10000
            &&& d.to_recipients@.len() + d.cc_recipients@.len() <= 10
            &&& forall|i: int|
                0 <= i < d.to_recipients@.len() ==> recipient_error(
                    #[trigger] d.to_recipients@[i],
                ) is None
            &&& forall|i: int|
                0 <= i < d.cc_recipients@.len() ==> recipient_error(
                    #[trigger] d.cc_recipients@[i],
                ) is None
        },
        !(1 <= trim(d.subject@).len() <= 200) ==> draft_error(d) == Some(DraftError::SubjectLength),
        1 <= trim(d.subject@).len() <= 200 && !(d.body.content_type@ == "Text"@
            || d.body.content_type@ == "HTML"@) ==> draft_error(d) == Some(
            DraftError::BodyContentType,
        ),
        1 <= trim(d.subject@).len() <= 200 && (d.body.content_type@ == "Text"@
            || d.body.content_type@ == "HTML"@) && d.body.content@.len() > 10000 ==> draft_error(d)
            == Some(DraftError::BodyTooLong),
        1 <= trim(d.subject@).len() <= 200 && (d.body.content_type@ == "Text"@
            || d.body.content_type@ == "HTML"@) && d.body.content@.len() <= 10000
            && d.to_recipients@.len() + d.cc_recipients@.len() > 10 ==> draft_error(d) == Some(
            DraftError::TooManyRecipients,
        ),
{
    let all = d.to_recipients@ + d.cc_recipients@;
    lemma_recipients_rule(all);
    assert forall|i: int| 0 <= i < d.to_recipients@.len() implies all[i] == d.to_recipients@[i] by {}
    assert forall|i: int| 0 <= i < d.cc_recipients@.len() implies all[d.to_recipients@.len() + i]
        == d.cc_recipients@[i] by {}
    if forall|i: int| 0 <= i < d.to_recipients@.len() ==> recipient_error(#[trigger] d.to_recipients@[i]) is None {
        if forall|i: int| 0 <= i < d.cc_recipients@.len() ==> recipient_error(#[trigger] d.cc_recipients@[i]) is None {
            assert forall|i: int| 0 <= i < all.len() implies recipient_error(#[trigger] all[i]) is None by {
                if i < d.to_recipients@.len() {
                    assert(all[i] == d.to_recipients@[i]);
                } else {
                    assert(all[i] == d.cc_recipients@[i - d.to_recipients@.len()]);
                }
            }
        }
    }
    if forall|i: int| 0 <= i < all.len() ==> recipient_error(#[trigger] all[i]) is None {
        assert forall|i: int| 0 <= i < d.to_recipients@.len() implies recipient_error(#[trigger] d.to_recipients@[i]) is None by {
            assert(all[i] == d.to_recipients@[i]);
        }
        assert forall|i: int| 0 <= i < d.cc_recipients@.len() implies recipient_error(#[trigger] d.cc_recipients@[i]) is None by {
            assert(all[d.to_recipients@.len() + i] == d.cc_recipients@[i]);
        }
    }
}

/// The first failing recipient of `a + b` is in `a` where `a` has one.
pub proof fn lemma_recipients_error_concat(a: Seq<Recipient>, b: Seq<Recipient>)
    ensures
        recipients_error(a + b) == match recipients_error(a) {
            Some(e) => Some(e),
            None => recipients_error(b),
        },
    decreases a.len(),
{
    if a.len() == 0 {
        assert(a + b =~= b);
    } else {
        assert((a + b).drop_first() =~= a.drop_first() + b);
        lemma_recipients_error_concat(a.drop_first(), b);
    }
}

fn recipient_check(r: &Recipient) -> (e: Option<DraftError>)
    ensures
        e == recipient_error(*r),
{
    if !valid_email(r.email_address.address.as_str()) {
        return Some(DraftError::InvalidAddress);
    }
    match &r.email_address.name {
        Some(name) => {
            if name.as_str().unicode_len() > 200 {
                Some(DraftError::NameTooLong)
            } else {
                None
            }
        },
        None => None,
    }
}

fn recipients_check(rs: &Vec<Recipient>) -> (e: Option<DraftError>)
    ensures
        e == recipients_error(rs@),
{
    let mut i: usize = 0;
    proof {
        assert(rs@.skip(0) =~= rs@);
    }
    while i < rs.len()
        invariant
            i <= rs@.len(),
            recipients_error(rs@) == recipients_error(rs@.skip(i as int)),
        decreases rs@.len() - i,
    {
        let e = recipient_check(&rs[i]);
        proof {
            assert(rs@.skip(i as int)[0] == rs@[i as int]);
            assert(rs@.skip(i as int).drop_first() =~= rs@.skip(i + 1));
        }
        if e.is_some() {
            return e;
        }
        i = i + 1;
    }
    proof {
        assert(rs@.skip(i as int) =~= Seq::<Recipient>::empty());
    }
    None
}

impl Draft {
    /// Checks the draft against the schema's limits (see `draft_error`).
    pub fn validate(&self) -> (r: Result<(), DraftError>)
        ensures
            r == match draft_error(*self) {
                Some(e) => Err(e),
                None => Ok::<(), DraftError>(()),
            },
    {
        let cs = chars_of(self.subject.as_str());
        let n = cs.len();
        let (a, b) = trim_bounds(&cs, 0, n);
        proof {
            assert(cs@.subrange(0, n as int) =~= cs@);
        }
        if a == b || b - a > 200 {
            return Err(DraftError::SubjectLength);
        }
        let text_type = "Text".to_owned();
        let html_type = "HTML".to_owned();
        if !(self.body.content_type == text_type || self.body.content_type == html_type) {
            return Err(DraftError::BodyContentType);
        }
        if self.body.content.as_str().unicode_len() > 10000 {
            return Err(DraftError::BodyTooLong);
        }
        let to_len = self.to_recipients.len();
        let cc_len = self.cc_recipients.len();
        if to_len > 10 || cc_len > 10 - to_len {
            return Err(DraftError::TooManyRecipients);
        }
        proof {
            lemma_recipients_error_concat(self.to_recipients@, self.cc_recipients@);
        }
        match recipients_check(&self.to_recipients) {
            Some(e) => {
                return Err(e);
            },
            None => {},
        }
        match recipients_check(&self.cc_recipients) {
            Some(e) => Err(e),
            None => Ok(()),
        }
    }
}

} // verus!
