//! Runtime configuration: read from the process environment and from the
//! assignments of a `.env` file, the environment taking precedence.
use vstd::prelude::*;
use crate::text::{chars_of, find_char, lemma_split_once_found, lemma_split_once_missing, lemma_split_once_range, split_all, split_once, trim, trim_bounds};
use crate::vars::{text_opt, VarMap};

verus! {

/// The proxy's settings.
pub struct Config {
    /// SHA-256 digest of the inter-VM bearer capability.
    pub inter_vm_bearer_sha256: [u8; 32],
    /// Placeholder that the sandbox swaps for the Graph access token.
    pub graph_access_token_placeholder: String,
    pub listen_addr: String,
    pub graph_api_base: String,
}

/// Why the configuration could not be loaded.
pub struct ConfigError(pub String);

/// The assignment that one line of a `.env` file makes, if any: the line is
/// trimmed; blank lines and lines that start with `#` make none; otherwise the
/// text before the first `=` (trimmed) is set to the text after it (trimmed).
/// A line without `=` makes none.
pub open spec fn line_assignment(line: Seq<char>) -> Option<(Seq<char>, Seq<char>)> {
    let t = trim(line);
    if t.len() == 0 || t[0] == '#' {
        None
    } else {
        match split_once(t, '=') {
            Some((k, v)) => Some((trim(k), trim(v))),
            None => None,
        }
    }
}

/// The variables that a sequence of `.env` lines sets, later lines winning.
pub open spec fn lines_vars(lines: Seq<Seq<char>>) -> Map<Seq<char>, Seq<char>>
    decreases lines.len(),
{
    if lines.len() == 0 {
        Map::empty()
    } else {
        let earlier = lines_vars(lines.drop_last());
        match line_assignment(lines.last()) {
            Some((k, v)) => earlier.insert(k, v),
            None => earlier,
        }
    }
}

/// The variables that the text of a `.env` file sets. Its lines are the
/// pieces between `\n`s; a `\r` before a `\n` is white space that trimming
/// removes, so this agrees with `str::lines`.
pub open spec fn dotenv_vars(contents: Seq<char>) -> Map<Seq<char>, Seq<char>> {
    lines_vars(split_all(contents, '\n'))
}

/// The variables of a `.env` file that could be read, or none.
pub open spec fn dotenv_vars_opt(contents: Option<Seq<char>>) -> Map<Seq<char>, Seq<char>> {
    match contents {
        Some(c) => dotenv_vars(c),
        None => Map::empty(),
    }
}

/// The value of `key`: from the environment where it is set there, else from
/// the `.env` variables.
pub open spec fn lookup_var(
    env: Map<Seq<char>, Seq<char>>,
    dotenv: Map<Seq<char>, Seq<char>>,
    key: Seq<char>,
) -> Option<Seq<char>> {
    if env.contains_key(key) {
        Some(env[key])
    } else if dotenv.contains_key(key) {
        Some(dotenv[key])
    } else {
        None
    }
}

/// An ASCII hexadecimal digit.
pub open spec fn is_hex_digit(b: u8) -> bool {
    (48 <= b <= 57) || (65 <= b <= 70) || (97 <= b <= 102)
}

/// The value of a hexadecimal digit.
pub open spec fn hex_value(b: u8) -> int {
    if b <= 57 {
        b - 48
    } else if b <= 70 {
        b - 55
    } else {
        b - 87
    }
}

/// Exactly 64 hexadecimal digits: the text form of a SHA-256 digest.
pub open spec fn is_hex_sha256(bytes: Seq<u8>) -> bool {
    bytes.len() == 64 && forall|i: int| 0 <= i < 64 ==> is_hex_digit(#[trigger] bytes[i])
}

/// The 32 bytes that 64 hexadecimal digits spell, two digits per byte, the
/// high half first.
pub open spec fn hex_digest(bytes: Seq<u8>) -> Seq<u8> {
    Seq::new(32, |i: int| (hex_value(bytes[2 * i]) * 16 + hex_value(bytes[2 * i + 1])) as u8)
}

/// The value of each hexadecimal digit: `0`-`9` are 0 to 9, `a`-`f` and
/// `A`-`F` are 10 to 15.
pub proof fn lemma_hex_digit_values()
    ensures
        hex_value(0x30) == 0, hex_value(0x31) == 1, hex_value(0x32) == 2, hex_value(0x33) == 3,
        hex_value(0x34) == 4, hex_value(0x35) == 5, hex_value(0x36) == 6, hex_value(0x37) == 7,
        hex_value(0x38) == 8, hex_value(0x39) == 9,
        hex_value(0x61) == 10, hex_value(0x62) == 11, hex_value(0x63) == 12,
        hex_value(0x64) == 13, hex_value(0x65) == 14, hex_value(0x66) == 15,
        hex_value(0x41) == 10, hex_value(0x42) == 11, hex_value(0x43) == 12,
        hex_value(0x44) == 13, hex_value(0x45) == 14, hex_value(0x46) == 15,
        forall|b: u8| is_hex_digit(b) <==> (0x30 <= b <= 0x39 || 0x61 <= b <= 0x66 || 0x41 <= b <= 0x46),
{
}

/// The hexadecimal digit for a value below 16, in lower or upper case.
pub open spec fn hex_digit_for(n: int, upper: bool) -> u8 {
    if n < 10 {
        (0x30 + n) as u8
    } else if upper {
        (0x41 + n - 10) as u8
    } else {
        (0x61 + n - 10) as u8
    }
}

/// The 64 hexadecimal digits of 32 bytes, the high half of each byte first.
pub open spec fn hex_text(digest: Seq<u8>, upper: bool) -> Seq<u8> {
    Seq::new(
        64,
        |i: int|
            if i % 2 == 0 {
                hex_digit_for(digest[i / 2] as int / 16, upper)
            } else {
                hex_digit_for(digest[i / 2] as int % 16, upper)
            },
    )
}

/// Decoding the hexadecimal text of any 32 bytes, in either case, gives
/// those bytes back.
pub proof fn lemma_hex_round_trip(digest: Seq<u8>, upper: bool)
    requires
        digest.len() == 32,
    ensures
        is_hex_sha256(hex_text(digest, upper)),
        hex_digest(hex_text(digest, upper)) == digest,
{
    let h = hex_text(digest, upper);
    assert forall|i: int| 0 <= i < 64 implies is_hex_digit(#[trigger] h[i]) by {
        let n = if i % 2 == 0 { digest[i / 2] as int / 16 } else { digest[i / 2] as int % 16 };
        assert(0 <= n < 16);
    }
    assert forall|i: int| 0 <= i < 32 implies #[trigger] hex_digest(h)[i] == digest[i] by {
        let b = digest[i];
        assert((2 * i) / 2 == i && (2 * i) % 2 == 0);
        assert((2 * i + 1) / 2 == i && (2 * i + 1) % 2 == 1);
        let hi = b as int / 16;
        let lo = b as int % 16;
        assert(0 <= hi < 16 && 0 <= lo < 16);
        assert(hex_value(h[2 * i]) == hi);
        assert(hex_value(h[2 * i + 1]) == lo);
        assert(hi * 16 + lo == b);
    }
    assert(hex_digest(h) =~= digest);
}

/// A line that, trimmed, is not blank, does not start with `#` and has its
/// first `=` at `p` sets the trimmed text before `p` to the trimmed text after
/// it, whatever other characters (`#`, `=`, ...) the line holds.
pub proof fn lemma_assignment_line(line: Seq<char>, p: int)
    requires
        0 <= p < trim(line).len(),
        trim(line)[0] != '#',
        trim(line)[p] == '=',
        forall|k: int| 0 <= k < p ==> trim(line)[k] != '=',
    ensures
        line_assignment(line) == Some(
            (trim(trim(line).take(p)), trim(trim(line).skip(p + 1))),
        ),
{
    lemma_split_once_found(trim(line), '=', p);
}

/// A blank line, a line whose trimmed text starts with `#`, and a line
/// without `=` set nothing.
pub proof fn lemma_lines_that_set_nothing(line: Seq<char>)
    ensures
        trim(line).len() == 0 ==> line_assignment(line) is None,
        trim(line).len() > 0 && trim(line)[0] == '#' ==> line_assignment(line) is None,
        (forall|k: int| 0 <= k < trim(line).len() ==> trim(line)[k] != '=') ==> line_assignment(
            line,
        ) is None,
{
    if forall|k: int| 0 <= k < trim(line).len() ==> trim(line)[k] != '=' {
        lemma_split_once_missing(trim(line), '=');
    }
}

/// A file of one assignment line (no line break) sets exactly that variable.
pub proof fn lemma_single_line_file(text: Seq<char>, p: int)
    requires
        forall|k: int| 0 <= k < text.len() ==> text[k] != '\n',
        0 <= p < trim(text).len(),
        trim(text)[0] != '#',
        trim(text)[p] == '=',
        forall|k: int| 0 <= k < p ==> trim(text)[k] != '=',
    ensures
        dotenv_vars(text) == Map::<Seq<char>, Seq<char>>::empty().insert(
            trim(trim(text).take(p)),
            trim(trim(text).skip(p + 1)),
        ),
{
    lemma_split_once_missing(text, '\n');
    assert(split_all(text, '\n') == seq![text]);
    lemma_assignment_line(text, p);
    let lines = seq![text];
    assert(lines.drop_last() =~= Seq::<Seq<char>>::empty());
    assert(lines.last() == text);
    assert(lines_vars(Seq::<Seq<char>>::empty()) == Map::<Seq<char>, Seq<char>>::empty());
    assert(lines_vars(lines) == lines_vars(lines.drop_last()).insert(
        trim(trim(text).take(p)),
        trim(trim(text).skip(p + 1)),
    ));
}

/// Loading fails with "INTER_VM_BEARER_SHA256 not set" when the digest is set
/// nowhere; else with the 64-digit message when the digest is not 64
/// hexadecimal digits; else with "CLIMICROSOFT365_ACCESS_TOKEN not set" when
/// the token is set nowhere; and succeeds otherwise.
pub proof fn lemma_config_requirements(env: Map<Seq<char>, Seq<char>>, dotenv: Map<Seq<char>, Seq<char>>)
    ensures
        !env.contains_key("INTER_VM_BEARER_SHA256"@) && !dotenv.contains_key(
            "INTER_VM_BEARER_SHA256"@,
        ) ==> config_failure(env, dotenv) == Some("INTER_VM_BEARER_SHA256 not set"@),
        lookup_var(env, dotenv, "INTER_VM_BEARER_SHA256"@) matches Some(v) && !is_hex_sha256(
            vstd::utf8::encode_utf8(v),
        ) ==> config_failure(env, dotenv) == Some(
            "INTER_VM_BEARER_SHA256 must be exactly 64 hexadecimal characters"@,
        ),
        lookup_var(env, dotenv, "INTER_VM_BEARER_SHA256"@) matches Some(v) && is_hex_sha256(
            vstd::utf8::encode_utf8(v),
        ) ==> (config_failure(env, dotenv) is None <==> (env.contains_key(
            "CLIMICROSOFT365_ACCESS_TOKEN"@,
        ) || dotenv.contains_key("CLIMICROSOFT365_ACCESS_TOKEN"@))),
        lookup_var(env, dotenv, "INTER_VM_BEARER_SHA256"@) matches Some(v) && is_hex_sha256(
            vstd::utf8::encode_utf8(v),
        ) && !env.contains_key("CLIMICROSOFT365_ACCESS_TOKEN"@) && !dotenv.contains_key(
            "CLIMICROSOFT365_ACCESS_TOKEN"@,
        ) ==> config_failure(env, dotenv) == Some("CLIMICROSOFT365_ACCESS_TOKEN not set"@),
{
}

/// The lines of a `.env` file set what the earlier lines set, overridden by
/// what the later lines set.
pub proof fn lemma_lines_vars_concat(x: Seq<Seq<char>>, y: Seq<Seq<char>>)
    ensures
        lines_vars(x + y) == lines_vars(x).union_prefer_right(lines_vars(y)),
    decreases y.len(),
{
    if y.len() == 0 {
        assert(x + y =~= x);
        assert(lines_vars(x).union_prefer_right(lines_vars(y)) =~= lines_vars(x));
    } else {
        let y0 = y.drop_last();
        assert((x + y).drop_last() =~= x + y0);
        assert((x + y).last() == y.last());
        lemma_lines_vars_concat(x, y0);
        match line_assignment(y.last()) {
            Some((k, v)) => {
                assert(lines_vars(x + y) =~= lines_vars(x).union_prefer_right(lines_vars(y)));
            },
            None => {},
        }
    }
}

/// A `.env` text of a first line (no line break), a `\n` and the rest sets
/// what the first line sets, overridden by what the rest sets.
pub proof fn lemma_dotenv_first_line(first: Seq<char>, rest: Seq<char>)
    requires
        forall|k: int| 0 <= k < first.len() ==> first[k] != '\n',
    ensures
        dotenv_vars(first + seq!['\n'] + rest) == dotenv_vars(first).union_prefer_right(
            dotenv_vars(rest),
        ),
{
    let text = first + seq!['\n'] + rest;
    let p = first.len() as int;
    assert forall|k: int| 0 <= k < p implies #[trigger] text[k] != '\n' by {
        assert(text[k] == first[k]);
    }
    assert(text[p] == '\n');
    lemma_split_once_found(text, '\n', p);
    assert(text.take(p) =~= first);
    assert(text.skip(p + 1) =~= rest);
    assert(split_all(text, '\n') == seq![first] + split_all(rest, '\n'));
    lemma_split_once_missing(first, '\n');
    assert(split_all(first, '\n') == seq![first]);
    lemma_lines_vars_concat(seq![first], split_all(rest, '\n'));
}

/// Reads the text of a `.env` file, where one could be read.
pub fn load_dotenv(contents: Option<&str>) -> (vars: VarMap)
    ensures
        vars@ == dotenv_vars_opt(
            match contents {
                Some(c) => Some(c@),
                None => None,
            },
        ),
{
    match contents {
        Some(text) => parse_dotenv(text),
        None => VarMap::new(),
    }
}

fn parse_dotenv(text: &str) -> (vars: VarMap)
    ensures
        vars@ == dotenv_vars(text@),
{
    let cs = chars_of(text);
    let n = cs.len();
    let mut vars = VarMap::new();
    let mut start: usize = 0;
    let ghost mut done: Seq<Seq<char>> = Seq::empty();
    proof {
        assert(cs@.subrange(0, n as int) =~= cs@);
    }
    loop
        invariant_except_break
            start <= n,
            n == cs@.len(),
            cs@ == text@,
            split_all(cs@, '\n') == done + split_all(cs@.subrange(start as int, n as int), '\n'),
            vars@ == lines_vars(done),
        ensures
            vars@ == lines_vars(split_all(cs@, '\n')),
            cs@ == text@,
        decreases n - start,
    {
        let next = find_char(&cs, start, n, '\n');
        let line_end = match next {
            Some(p) => p,
            None => n,
        };
        let ghost line = cs@.subrange(start as int, line_end as int);
        proof {
            lemma_split_once_range(cs@, start as int, n as int, '\n', next);
        }
        let (a, b) = trim_bounds(&cs, start, line_end);
        let ghost t = cs@.subrange(a as int, b as int);
        if a < b && cs[a] != '#' {
            let eq = find_char(&cs, a, b, '=');
            proof {
                lemma_split_once_range(cs@, a as int, b as int, '=', eq);
            }
            match eq {
                Some(p) => {
                    let (ka, kb) = trim_bounds(&cs, a, p);
                    let (va, vb) = trim_bounds(&cs, p + 1, b);
                    let key: String = text.substring_char(ka, kb).to_owned();
                    let value: String = text.substring_char(va, vb).to_owned();
                    vars.insert(key, value);
                },
                None => {},
            }
        }
        proof {
            assert(t == trim(line));
            let done2 = done.push(line);
            assert(done2.drop_last() =~= done);
            assert(done2.last() == line);
            done = done2;
        }
        match next {
            Some(p) => {
                proof {
                    assert(seq![line] + split_all(cs@.subrange(p + 1, n as int), '\n')
                        == split_all(cs@.subrange(start as int, n as int), '\n'));
                    assert(done.drop_last() + (seq![line] + split_all(
                        cs@.subrange(p + 1, n as int),
                        '\n',
                    )) =~= done + split_all(cs@.subrange(p + 1, n as int), '\n'));
                }
                start = p + 1;
            },
            None => {
                proof {
                    assert(split_all(cs@.subrange(start as int, n as int), '\n') == seq![line]);
                    assert(done.drop_last() + seq![line] =~= done);
                }
                break;
            },
        }
    }
    vars
}

/// The value of `key`: from the process environment `env` where it is set
/// there, else from the `.env` variables.
pub fn get_var(env: &VarMap, dotenv: &VarMap, key: &str) -> (value: Option<String>)
    ensures
        text_opt(value) == lookup_var(env@, dotenv@, key@),
{
    match env.get(key) {
        Some(v) => Some(v),
        None => dotenv.get(key),
    }
}

/// The error for a digest setting that is not 64 hexadecimal digits.
pub open spec fn bad_digest_message() -> Seq<char> {
    "INTER_VM_BEARER_SHA256 must be exactly 64 hexadecimal characters"@
}

/// Decodes the hexadecimal text of a SHA-256 digest.
pub fn decode_sha256(value: &str) -> (r: Result<[u8; 32], ConfigError>)
    ensures
        match r {
            Ok(digest) => is_hex_sha256(vstd::utf8::encode_utf8(value@)) && digest@ == hex_digest(
                vstd::utf8::encode_utf8(value@),
            ),
            Err(e) => !is_hex_sha256(vstd::utf8::encode_utf8(value@)) && e.0@
                == bad_digest_message(),
        },
{
    let bytes = value.as_bytes();
    let ghost spec_bytes = vstd::utf8::encode_utf8(value@);
    assert(bytes@ == spec_bytes);
    if bytes.len() != 64 {
        return Err(ConfigError("INTER_VM_BEARER_SHA256 must be exactly 64 hexadecimal characters".to_owned()));
    }
    let mut i: usize = 0;
    while i < 64
        invariant
            bytes@ == spec_bytes,
            spec_bytes == vstd::utf8::encode_utf8(value@),
            bytes@.len() == 64,
            i <= 64,
            forall|k: int| 0 <= k < i ==> is_hex_digit(#[trigger] bytes@[k]),
        decreases 64 - i,
    {
        let b = bytes[i];
        if !((48 <= b && b <= 57) || (65 <= b && b <= 70) || (97 <= b && b <= 102)) {
            proof {
                assert(!is_hex_digit(bytes@[i as int]));
                assert(!is_hex_sha256(bytes@));
            }
            return Err(ConfigError("INTER_VM_BEARER_SHA256 must be exactly 64 hexadecimal characters".to_owned()));
        }
        i = i + 1;
    }
    let mut digest: [u8; 32] = [0u8; 32];
    let mut j: usize = 0;
    while j < 32
        invariant
            bytes@ == spec_bytes,
            spec_bytes == vstd::utf8::encode_utf8(value@),
            is_hex_sha256(bytes@),
            j <= 32,
            forall|k: int| 0 <= k < j ==> digest@[k] == #[trigger] hex_digest(bytes@)[k],
        decreases 32 - j,
    {
        let hi = hex_digit_value(bytes[2 * j]);
        let lo = hex_digit_value(bytes[2 * j + 1]);
        digest[j] = hi * 16 + lo;
        j = j + 1;
    }
    assert(digest@ =~= hex_digest(bytes@));
    Ok(digest)
}

fn hex_digit_value(b: u8) -> (v: u8)
    requires
        is_hex_digit(b),
    ensures
        v == hex_value(b),
        v < 16,
{
    if b <= 57 {
        b - 48
    } else if b <= 70 {
        b - 55
    } else {
        b - 87
    }
}

/// The value of `key` or, where it is not set, `default`.
pub open spec fn var_or(value: Option<Seq<char>>, default: Seq<char>) -> Seq<char> {
    match value {
        Some(v) => v,
        None => default,
    }
}

/// Why loading fails, if it does, for the variables `env` and `dotenv`.
pub open spec fn config_failure(
    env: Map<Seq<char>, Seq<char>>,
    dotenv: Map<Seq<char>, Seq<char>>,
) -> Option<Seq<char>> {
    match lookup_var(env, dotenv, "INTER_VM_BEARER_SHA256"@) {
        None => Some("INTER_VM_BEARER_SHA256 not set"@),
        Some(digest) => if !is_hex_sha256(vstd::utf8::encode_utf8(digest)) {
            Some(bad_digest_message())
        } else if lookup_var(env, dotenv, "CLIMICROSOFT365_ACCESS_TOKEN"@) is None {
            Some("CLIMICROSOFT365_ACCESS_TOKEN not set"@)
        } else {
            None
        },
    }
}

impl Config {
    /// Loads the settings from the process environment `env` and the text of
    /// the `.env` file, where that file could be read.
    pub fn load(dotenv_contents: Option<&str>, env: &VarMap) -> (r: Result<Config, ConfigError>)
        ensures
            ({
                let dotenv = dotenv_vars_opt(
                    match dotenv_contents {
                        Some(c) => Some(c@),
                        None => None,
                    },
                );
                match r {
                    Ok(config) => {
                        &&& config_failure(env@, dotenv) is None
                        &&& config.inter_vm_bearer_sha256@ == hex_digest(
                            vstd::utf8::encode_utf8(
                                lookup_var(env@, dotenv, "INTER_VM_BEARER_SHA256"@)->0,
                            ),
                        )
                        &&& Some(config.graph_access_token_placeholder@) == lookup_var(
                            env@,
                            dotenv,
                            "CLIMICROSOFT365_ACCESS_TOKEN"@,
                        )
                        &&& config.listen_addr@ == var_or(
                            lookup_var(env@, dotenv, "LISTEN_ADDR"@),
                            "127.0.0.1:18081"@,
                        )
                        &&& config.graph_api_base@ == var_or(
                            lookup_var(env@, dotenv, "GRAPH_API_BASE"@),
                            "https://graph.microsoft.com"@,
                        )
                    },
                    Err(e) => config_failure(env@, dotenv) == Some(e.0@),
                }
            }),
    {
        let dotenv = load_dotenv(dotenv_contents);
        let digest = match get_var(env, &dotenv, "INTER_VM_BEARER_SHA256") {
            Some(value) => match decode_sha256(value.as_str()) {
                Ok(d) => d,
                Err(e) => {
                    return Err(e);
                },
            },
            None => {
                return Err(ConfigError("INTER_VM_BEARER_SHA256 not set".to_owned()));
            },
        };
        let token = match get_var(env, &dotenv, "CLIMICROSOFT365_ACCESS_TOKEN") {
            Some(t) => t,
            None => {
                return Err(ConfigError("CLIMICROSOFT365_ACCESS_TOKEN not set".to_owned()));
            },
        };
        let listen_addr = match get_var(env, &dotenv, "LISTEN_ADDR") {
            Some(v) => v,
            None => "127.0.0.1:18081".to_owned(),
        };
        let graph_api_base = match get_var(env, &dotenv, "GRAPH_API_BASE") {
            Some(v) => v,
            None => "https://graph.microsoft.com".to_owned(),
        };
        Ok(
            Config {
                inter_vm_bearer_sha256: digest,
                graph_access_token_placeholder: token,
                listen_addr,
                graph_api_base,
            },
        )
    }
}

/// A `.env` line that assigns a key decides its value over every earlier
/// line.
pub proof fn lemma_later_assignment_wins(lines: Seq<Seq<char>>, key: Seq<char>, value: Seq<char>)
    requires
        lines.len() > 0,
        line_assignment(lines.last()) == Some((key, value)),
    ensures
        lines_vars(lines).contains_key(key),
        lines_vars(lines)[key] == value,
{
}

/// A variable set in the process environment wins over the `.env` file.
pub proof fn lemma_environment_wins(
    env: Map<Seq<char>, Seq<char>>,
    dotenv: Map<Seq<char>, Seq<char>>,
    key: Seq<char>,
)
    requires
        env.contains_key(key),
    ensures
        lookup_var(env, dotenv, key) == Some(env[key]),
{
}

} // verus!
