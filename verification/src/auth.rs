use vstd::prelude::*;
use crate::text::{self, push_decimal, push_hex_fixed, string_of};

verus! {

/// The salt mixed into every stored hash.
pub const HASH_SALT: &'static str = "splanner-local-admin-v1";

/// The FNV-1a 64-bit offset basis.
pub const FNV_OFFSET: u64 = 0xcbf29ce484222325;

/// The FNV-1a 64-bit prime.
pub const FNV_PRIME: u64 = 0x100000001b3;

/// One FNV-1a step.
pub open spec fn fnv_step(h: u64, b: u8) -> u64 {
    (h ^ (b as u64)).wrapping_mul(FNV_PRIME)
}

/// FNV-1a over a byte sequence, from the state `h`.
pub open spec fn fnv(h: u64, bytes: Seq<u8>) -> u64
    decreases bytes.len(),
{
    if bytes.len() == 0 {
        h
    } else {
        fnv_step(fnv(h, bytes.drop_last()), bytes.last())
    }
}

/// `password_hash`: FNV-1a 64 of the salt's UTF-8 bytes followed by the
/// password's, as 16 lower-case hexadecimal digits.
pub open spec fn password_hash_spec(password: Seq<char>) -> Seq<char> {
    text::hex_fixed(
        fnv(
            FNV_OFFSET,
            vstd::utf8::encode_utf8(HASH_SALT@) + vstd::utf8::encode_utf8(password),
        ) as nat,
        16,
    )
}

/// Hashes a password or PIN with the salted FNV-1a 64-bit hash, as 16
/// lower-case hexadecimal digits.
pub fn password_hash(password: &str) -> (out: String)
    ensures
        out@ == password_hash_spec(password@),
{
    let salt = HASH_SALT.as_bytes();
    let pw = password.as_bytes();
    let ghost all = salt@ + pw@;
    let mut hash: u64 = FNV_OFFSET;
    assert(salt@.take(0) == Seq::<u8>::empty());
    for i in 0..salt.len()
        invariant
            hash == fnv(FNV_OFFSET, salt@.take(i as int)),
    {
        assert(salt@.take(i + 1).drop_last() == salt@.take(i as int));
        hash = (hash ^ (salt[i] as u64)).wrapping_mul(FNV_PRIME);
    }
    assert(salt@.take(salt.len() as int) == salt@);
    assert(all.take(salt.len() as int) == salt@);
    for j in 0..pw.len()
        invariant
            all == salt@ + pw@,
            hash == fnv(FNV_OFFSET, all.take(salt.len() + j)),
    {
        assert(all.take(salt.len() + j + 1).drop_last() == all.take(salt.len() + j));
        assert(all.take(salt.len() + j + 1).last() == pw@[j as int]);
        hash = (hash ^ (pw[j] as u64)).wrapping_mul(FNV_PRIME);
    }
    assert(all.take(salt.len() + pw.len()) == all);
    let mut out: Vec<char> = Vec::new();
    push_hex_fixed(&mut out, hash, 16);
    assert(out@ == Seq::<char>::empty() + text::hex_fixed(hash as nat, 16));
    string_of(&out)
}

/// Whether the stored admin hash (the file's text, if it could be read)
/// matches the password.
pub open spec fn admin_password_ok(saved: Option<Seq<char>>, password: Seq<char>) -> bool {
    match saved {
        Some(t) => text::trim(t) == password_hash_spec(password),
        None => false,
    }
}

/// The view of an optional string slice.
pub open spec fn opt_str_view(o: Option<&str>) -> Option<Seq<char>> {
    match o {
        Some(s) => Some(s@),
        None => None,
    }
}

/// Checks a password against the stored admin hash: the stored text, trimmed,
/// must equal the password's hash. Nothing stored means no match.
pub fn verify_admin_password(password: &str, saved: Option<&str>) -> (r: bool)
    ensures
        r == admin_password_ok(opt_str_view(saved), password@),
{
    match saved {
        None => false,
        Some(t) => {
            let cs = text::chars_of(t);
            let trimmed = text::trim_chars(&cs);
            let h = password_hash(password);
            let hc = text::chars_of(h.as_str());
            if trimmed.len() != hc.len() {
                return false;
            }
            for i in 0..hc.len()
                invariant
                    trimmed.len() == hc.len(),
                    trimmed@ == text::trim(t@),
                    hc@ == password_hash_spec(password@),
                    saved == Some(t),
                    forall|k: int| 0 <= k < i ==> trimmed@[k] == hc@[k],
            {
                if trimmed[i] != hc[i] {
                    assert(trimmed@[i as int] != hc@[i as int]);
                    return false;
                }
            }
            assert(trimmed@ =~= hc@);
            true
        },
    }
}

/// The prefix and decimal timestamp of a new item id.
pub open spec fn id_text(prefix: Seq<char>, now_ms: u128) -> Seq<char> {
    prefix + text::decimal(now_ms as nat)
}

/// The id of a new task: `task-` and the time in milliseconds.
pub fn create_server_id(now_ms: u128) -> (out: String)
    ensures
        out@ == id_text("task-"@, now_ms),
{
    let mut out: Vec<char> = Vec::new();
    text::append_str(&mut out, "task-");
    push_decimal(&mut out, now_ms);
    string_of(&out)
}

/// The id of a new broadcast: `broadcast-` and the time in milliseconds.
pub fn create_broadcast_id(now_ms: u128) -> (out: String)
    ensures
        out@ == id_text("broadcast-"@, now_ms),
{
    let mut out: Vec<char> = Vec::new();
    text::append_str(&mut out, "broadcast-");
    push_decimal(&mut out, now_ms);
    string_of(&out)
}

/// The id of a new event: `event-` and the time in milliseconds.
pub fn create_event_id(now_ms: u128) -> (out: String)
    ensures
        out@ == id_text("event-"@, now_ms),
{
    let mut out: Vec<char> = Vec::new();
    text::append_str(&mut out, "event-");
    push_decimal(&mut out, now_ms);
    string_of(&out)
}

/// The body `{"nowMs":<ms>}` that tells the browser the host's clock.
pub fn host_time_json(now_ms: u128) -> (out: String)
    ensures
        out@ == "{\"nowMs\":"@ + text::decimal(now_ms as nat) + "}"@,
{
    let mut out: Vec<char> = Vec::new();
    text::append_str(&mut out, "{\"nowMs\":");
    push_decimal(&mut out, now_ms);
    text::append_str(&mut out, "}");
    string_of(&out)
}

/// The text without its trailing carriage returns and line feeds.
pub open spec fn trim_line_endings_spec(s: Seq<char>) -> Seq<char>
    decreases s.len(),
{
    if s.len() > 0 && (s.last() == '\r' || s.last() == '\n') {
        trim_line_endings_spec(s.drop_last())
    } else {
        s
    }
}

/// Drops trailing carriage returns and line feeds, as a password typed on
/// the command line ends.
pub fn trim_line_endings(s: &str) -> (out: String)
    ensures
        out@ == trim_line_endings_spec(s@),
{
    let cs = text::chars_of(s);
    let mut n: usize = cs.len();
    assert(cs@.take(cs.len() as int) == cs@);
    while n > 0 && (cs[n - 1] == '\r' || cs[n - 1] == '\n')
        invariant
            n <= cs.len(),
            trim_line_endings_spec(cs@) == trim_line_endings_spec(cs@.take(n as int)),
        decreases n,
    {
        assert(cs@.take(n as int).drop_last() == cs@.take(n - 1));
        n = n - 1;
    }
    let mut out: Vec<char> = Vec::new();
    for j in 0..n
        invariant
            n <= cs.len(),
            out@ == cs@.take(j as int),
    {
        out.push(cs[j]);
        assert(cs@.take(j + 1) == cs@.take(j as int).push(cs@[j as int]));
    }
    string_of(&out)
}

} // verus!
