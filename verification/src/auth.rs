//! Password login and sessions: Argon2 password hashes, opaque random
//! access/refresh tokens tracked server-side (with refresh-token rotation and
//! a short grace window for a racing second use), and a login throttle.

use argon2::{PasswordHasher, PasswordVerifier};
use vstd::prelude::*;
use vstd::string::*;

use crate::models::{now_ms, opt_view, spec_hex, to_hex};
use crate::text::{chars_of, spec_starts_with, starts_with, string_from_range};
use crate::workspace::{first_index, keep, lemma_first_index, lemma_keep_sound};

verus! {

/// How long an access token is valid for (15 minutes).
pub const ACCESS_TOKEN_TTL_MS: i64 = 900_000;

/// How long a refresh token is valid for (30 days).
pub const REFRESH_TOKEN_TTL_MS: i64 = 2_592_000_000;

/// How long a rotated-out refresh token is still honoured as a stand-in for
/// its replacement.
pub const REUSE_GRACE_MS: i64 = 10_000;

/// The fixed login name of the admin role.
pub const ADMIN_USERNAME: &'static str = "admin";

/// Failures below this many don't slow anything down.
pub const FREE_ATTEMPTS: u32 = 2;

/// The wait imposed once a username's failures pass the free ones.
pub const RETRY_AFTER_MS: i64 = 8_000;

/// A ceiling on distinct usernames tracked at once.
pub const MAX_TRACKED: usize = 10_000;

/// The latest clock reading the token arithmetic accepts; a later reading
/// (hundreds of millions of years away) is taken as this one.
pub const MAX_CLOCK_MS: i64 = 9_000_000_000_000_000_000;

/// Who a verified token belongs to.
#[derive(Clone, Debug, PartialEq, Eq)]
pub enum Subject {
    Admin,
    Account(String),
}

/// A subject as a plain value: `None` for the admin, else the account id.
pub open spec fn subject_view(s: Subject) -> Option<Seq<char>> {
    match s {
        Subject::Admin => None,
        Subject::Account(id) => Some(id@),
    }
}

impl Subject {
    /// A copy of the subject.
    pub fn copy(&self) -> (r: Subject)
        ensures
            r == *self,
    {
        match self {
            Subject::Admin => Subject::Admin,
            Subject::Account(id) => Subject::Account(id.clone()),
        }
    }

    /// Whether two subjects are the same.
    pub fn same(&self, other: &Subject) -> (r: bool)
        ensures
            r == (subject_view(*self) == subject_view(*other)),
    {
        match (self, other) {
            (Subject::Admin, Subject::Admin) => true,
            (Subject::Account(a), Subject::Account(b)) => *a == *b,
            _ => false,
        }
    }
}

/// The role a session is reported with. A routing hint for the client only:
/// every request is still checked against the token's own subject.
pub open spec fn spec_role(subject: Subject) -> Seq<char> {
    match subject {
        Subject::Admin => "admin"@,
        Subject::Account(_) => "account"@,
    }
}

/// `"admin"` or `"account"`, the one place a subject becomes a role, so a
/// login and a refresh can never report different roles for one subject.
pub fn role_of(subject: &Subject) -> (r: &'static str)
    ensures
        r@ == spec_role(*subject),
{
    match subject {
        Subject::Admin => "admin",
        Subject::Account(_) => "account",
    }
}

/// The token an `Authorization` header value carries: what follows
/// `Bearer `, if it starts so.
pub open spec fn spec_bearer(header: Seq<char>) -> Option<Seq<char>> {
    if spec_starts_with(header, "Bearer "@) {
        Some(header.subrange("Bearer "@.len() as int, header.len() as int))
    } else {
        None
    }
}

/// The bearer token of an `Authorization` header value, if it has one.
pub fn bearer_token(header: &str) -> (r: Option<String>)
    ensures
        opt_view(r) == spec_bearer(header@),
{
    let cs = chars_of(header);
    let prefix = chars_of("Bearer ");
    if starts_with(&cs, &prefix) {
        Some(string_from_range(&cs, prefix.len(), cs.len()))
    } else {
        None
    }
}

/// One account's own login fields.
#[derive(Clone, Debug)]
pub struct AccountCredentials {
    pub username: String,
    /// An Argon2 hash, or `None` when no fixed password has been set yet.
    pub password_hash: Option<String>,
    /// Lets the admin view this account's data read-only.
    pub allow_admin_readonly: bool,
}

// --- Passwords ------------------------------------------------------------------

/// Whether Argon2 accepts `password` against the PHC-format `hash` (as
/// `argon2::PasswordVerifier::verify_password` decides it).
pub uninterp spec fn argon2_accepts(password: Seq<char>, hash: Seq<char>) -> bool;

/// Hashes a password with Argon2 (default parameters) and a fresh random salt
/// (`argon2::PasswordHasher::hash_password`), in PHC string form. The text
/// depends on the random salt and is not stated; what is stated is that
/// Argon2 accepts the password against it. Argon2 refuses a password of
/// more than `u32::MAX` bytes; a character takes at most four, so the bound
/// below keeps every admitted password inside that limit. A failure of the
/// system's random source or of allocation is not an input and is not
/// covered.
#[verifier::external_body]
pub fn hash_password(password: &str) -> (r: String)
    requires
        password@.len() <= 1_000_000_000,
    ensures
        argon2_accepts(password@, r@),
{
    argon2::Argon2::default().hash_password(password.as_bytes()).expect(
        "hashing a bounded-length password never fails",
    ).to_string()
}

/// Checks a password against a stored Argon2 hash
/// (`argon2::PasswordVerifier::verify_password`); a malformed stored hash is
/// a mismatch.
#[verifier::external_body]
pub fn verify_password(password: &str, hash: &str) -> (r: bool)
    ensures
        r == argon2_accepts(password@, hash@),
{
    argon2::Argon2::default().verify_password(password.as_bytes(), hash).is_ok()
}

// --- Randomness -----------------------------------------------------------------

/// Sixteen bytes from the system's secure random source
/// (`password_hash::generate_salt`). Which bytes is chance. That function
/// panics if the random source itself fails, which is no input and is not
/// covered here.
#[verifier::external_body]
fn random_bytes() -> (r: Vec<u8>)
    ensures
        r@.len() == 16,
{
    argon2::password_hash::generate_salt().to_vec()
}

/// The characters a boot password is drawn from: letters and digits without
/// the look-alikes `0`, `O`, `1`, `l`, `I`.
pub open spec fn spec_password_alphabet() -> Seq<char> {
    seq![
        '2', '3', '4', '5', '6', '7', '8', '9', 'A', 'B', 'C', 'D', 'E', 'F', 'G', 'H', 'J', 'K',
        'L', 'M', 'N', 'P', 'Q', 'R', 'S', 'T', 'U', 'V', 'W', 'X', 'Y', 'Z', 'a', 'b', 'c', 'd',
        'e', 'f', 'g', 'h', 'i', 'j', 'k', 'm', 'n', 'o', 'p', 'q', 'r', 's', 't', 'u', 'v', 'w',
        'x', 'y', 'z',
    ]
}

/// The boot password spelled by `bytes`: each byte picks the alphabet
/// character at its value modulo the alphabet's size.
pub open spec fn spec_boot_password(bytes: Seq<u8>) -> Seq<char> {
    Seq::new(bytes.len(), |i: int| spec_password_alphabet()[(bytes[i] as int) % 57])
}

/// Spells a boot password from random bytes.
pub fn boot_password_from(bytes: &Vec<u8>) -> (r: String)
    ensures
        r@ == spec_boot_password(bytes@),
{
    let alphabet: Vec<char> = vec![
        '2', '3', '4', '5', '6', '7', '8', '9', 'A', 'B', 'C', 'D', 'E', 'F', 'G', 'H', 'J', 'K',
        'L', 'M', 'N', 'P', 'Q', 'R', 'S', 'T', 'U', 'V', 'W', 'X', 'Y', 'Z', 'a', 'b', 'c', 'd',
        'e', 'f', 'g', 'h', 'i', 'j', 'k', 'm', 'n', 'o', 'p', 'q', 'r', 's', 't', 'u', 'v', 'w',
        'x', 'y', 'z',
    ];
    assert(alphabet@ =~= spec_password_alphabet());
    let mut r = String::new();
    let mut i: usize = 0;
    while i < bytes.len()
        invariant
            alphabet@ == spec_password_alphabet(),
            i <= bytes@.len(),
            r@ =~= spec_boot_password(bytes@.subrange(0, i as int)),
        decreases bytes@.len() - i,
    {
        let k = (bytes[i] as usize) % 57;
        crate::text::push_char(&mut r, alphabet[k]);
        i = i + 1;
        assert(r@ =~= spec_boot_password(bytes@.subrange(0, i as int)));
    }
    assert(bytes@.subrange(0, i as int) =~= bytes@);
    r
}

/// A random password an operator can read off a log line and type by hand:
/// 20 characters of the unambiguous alphabet.
pub fn generate_boot_password() -> (r: String)
    ensures
        r@.len() == 20,
        forall|i: int| 0 <= i < r@.len() ==> spec_password_alphabet().contains(#[trigger] r@[i]),
{
    let mut bytes = random_bytes();
    let more = random_bytes();
    let mut i: usize = 0;
    while i < 4
        invariant
            i <= 4,
            more@.len() == 16,
            bytes@.len() == 16 + i,
        decreases 4 - i,
    {
        bytes.push(more[i]);
        i = i + 1;
    }
    let r = boot_password_from(&bytes);
    assert forall|i: int| 0 <= i < r@.len() implies spec_password_alphabet().contains(#[trigger] r@[i]) by {
        let k = (bytes@[i] as int) % 57;
        assert(spec_password_alphabet()[k] == r@[i]);
    }
    r
}

/// A random opaque token: 32 random bytes, hex-encoded (64 characters).
pub fn generate_token() -> (r: String)
    ensures
        exists|bytes: Seq<u8>| bytes.len() == 32 && #[trigger] crate::models::spec_hex(bytes) == r@,
        r@.len() == 64,
{
    let mut bytes = random_bytes();
    let more = random_bytes();
    let mut i: usize = 0;
    while i < 16
        invariant
            i <= 16,
            more@.len() == 16,
            bytes@.len() == 16 + i,
        decreases 16 - i,
    {
        bytes.push(more[i]);
        i = i + 1;
    }
    proof {
        crate::models::lemma_hex_len(bytes@);
    }
    to_hex(&bytes)
}


/// The clock, as the token arithmetic takes it.
fn clock() -> (r: i64)
    ensures
        r <= MAX_CLOCK_MS,
{
    let t = now_ms();
    if t > MAX_CLOCK_MS {
        MAX_CLOCK_MS
    } else {
        t
    }
}

// --- Keyed lists ----------------------------------------------------------------

/// The first element of `s` whose key is `k`.
pub open spec fn lookup<T>(s: Seq<T>, key: spec_fn(T) -> Seq<char>, k: Seq<char>) -> Option<T>
    decreases s.len(),
{
    if s.len() == 0 {
        None
    } else if key(s[0]) == k {
        Some(s[0])
    } else {
        lookup(s.drop_first(), key, k)
    }
}

/// No two elements share a key.
pub open spec fn keys_distinct<T>(s: Seq<T>, key: spec_fn(T) -> Seq<char>) -> bool {
    forall|i: int, j: int| 0 <= i < s.len() && 0 <= j < s.len() && i != j ==> key(#[trigger] s[i]) != key(#[trigger] s[j])
}

proof fn lemma_distinct_tail<T>(s: Seq<T>, key: spec_fn(T) -> Seq<char>)
    requires
        keys_distinct(s, key),
        s.len() > 0,
    ensures
        keys_distinct(s.drop_first(), key),
        forall|j: int| 0 <= j < s.drop_first().len() ==> key(#[trigger] s.drop_first()[j]) != key(s[0]),
{
    let t = s.drop_first();
    assert forall|i: int, j: int| 0 <= i < t.len() && 0 <= j < t.len() && i != j implies key(#[trigger] t[i]) != key(#[trigger] t[j]) by {
        assert(t[i] == s[i + 1]);
        assert(t[j] == s[j + 1]);
    }
    assert forall|j: int| 0 <= j < t.len() implies key(#[trigger] t[j]) != key(s[0]) by {
        assert(t[j] == s[j + 1]);
    }
}

proof fn lemma_lookup_absent<T>(s: Seq<T>, key: spec_fn(T) -> Seq<char>, k: Seq<char>)
    requires
        forall|j: int| 0 <= j < s.len() ==> key(#[trigger] s[j]) != k,
    ensures
        lookup(s, key, k) is None,
    decreases s.len(),
{
    if s.len() > 0 {
        assert(key(s[0]) != k);
        assert forall|j: int| 0 <= j < s.drop_first().len() implies key(#[trigger] s.drop_first()[j]) != k by {
            assert(s.drop_first()[j] == s[j + 1]);
        }
        lemma_lookup_absent(s.drop_first(), key, k);
    }
}

/// What `lookup` finds in a distinct-keyed list after `keep`.
proof fn lemma_lookup_keep<T>(s: Seq<T>, key: spec_fn(T) -> Seq<char>, f: spec_fn(T) -> bool, k: Seq<char>)
    requires
        keys_distinct(s, key),
    ensures
        keys_distinct(keep(s, f), key),
        lookup(keep(s, f), key, k) == match lookup(s, key, k) {
            Some(x) => if f(x) {
                Some(x)
            } else {
                None
            },
            None => None,
        },
    decreases s.len(),
{
    if s.len() > 0 {
        let t = s.drop_first();
        lemma_distinct_tail(s, key);
        lemma_lookup_keep(t, key, f, k);
        lemma_keep_sound(t, f);
        let kt = keep(t, f);
        if f(s[0]) {
            let ks = keep(s, f);
            assert(ks.drop_first() =~= kt);
            assert forall|i: int, j: int| 0 <= i < ks.len() && 0 <= j < ks.len() && i != j implies key(#[trigger] ks[i]) != key(#[trigger] ks[j]) by {
                if i == 0 || j == 0 {
                    let o = if i == 0 { j } else { i };
                    assert(ks[o] == kt[o - 1]);
                    let w = choose|w: int| 0 <= w < t.len() && t[w] == kt[o - 1];
                } else {
                    assert(ks[i] == kt[i - 1]);
                    assert(ks[j] == kt[j - 1]);
                }
            }
        }
        if key(s[0]) == k {
            lemma_lookup_absent(t, key, k);
        }
    }
}

proof fn lemma_lookup_at<T>(s: Seq<T>, key: spec_fn(T) -> Seq<char>, i: int)
    requires
        keys_distinct(s, key),
        0 <= i < s.len(),
    ensures
        lookup(s, key, key(s[i])) == Some(s[i]),
    decreases s.len(),
{
    if i > 0 {
        lemma_distinct_tail(s, key);
        assert(s.drop_first()[i - 1] == s[i]);
        lemma_lookup_at(s.drop_first(), key, i - 1);
    }
}

proof fn lemma_lookup_found<T>(s: Seq<T>, key: spec_fn(T) -> Seq<char>, k: Seq<char>)
    ensures
        lookup(s, key, k) matches Some(x) ==> exists|j: int| 0 <= j < s.len() && s[j] == x && key(x) == k,
    decreases s.len(),
{
    if s.len() > 0 && key(s[0]) != k {
        lemma_lookup_found(s.drop_first(), key, k);
        if lookup(s, key, k) is Some {
            let j = choose|j: int| 0 <= j < s.drop_first().len() && s.drop_first()[j] == lookup(s, key, k)->0;
            assert(s[j + 1] == s.drop_first()[j]);
        }
    }
}

/// Adds `x` to a distinct-keyed list, replacing the element with its key.
fn put_keyed<T, F: Fn(&T) -> bool>(v: &mut Vec<T>, x: T, same_key: F, Ghost(key): Ghost<spec_fn(T) -> Seq<char>>)
    requires
        keys_distinct(old(v)@, key),
        forall|y: &T| #[trigger] same_key.requires((y,)),
        forall|y: &T, b: bool| same_key.ensures((y,), b) ==> b == (key(*y) == key(x)),
    ensures
        keys_distinct(final(v)@, key),
        forall|k: Seq<char>| #[trigger] lookup(final(v)@, key, k) == if k == key(x) {
            Some(x)
        } else {
            lookup(old(v)@, key, k)
        },
        final(v)@.len() == if lookup(old(v)@, key, key(x)) is Some {
            old(v)@.len()
        } else {
            old(v)@.len() + 1
        },
{
    let ghost s = v@;
    let ghost kx = key(x);
    proof {
        lemma_lookup_first(s, key, kx);
    }
    let found = crate::workspace::find_where(v, same_key, Ghost(key_is(key, kx)));
    proof {
        lemma_first_index(s, key_is(key, kx));
    }
    match found {
        Some(i) => {
            v.set(i, x);
            proof {
                let t = v@;
                let ii = i as int;
                assert forall|a: int, b: int| 0 <= a < t.len() && 0 <= b < t.len() && a != b implies key(#[trigger] t[a]) != key(#[trigger] t[b]) by {
                    if a != ii {
                        assert(t[a] == s[a]);
                    }
                    if b != ii {
                        assert(t[b] == s[b]);
                    }
                }
                assert forall|k: Seq<char>| #[trigger] lookup(t, key, k) == if k == kx {
                    Some(x)
                } else {
                    lookup(s, key, k)
                } by {
                    if k == kx {
                        lemma_lookup_at(t, key, ii);
                    } else {
                        lemma_lookup_found(s, key, k);
                        lemma_lookup_found(t, key, k);
                        if lookup(s, key, k) is Some {
                            let j = choose|j: int| 0 <= j < s.len() && s[j] == lookup(s, key, k)->0 && key(s[j]) == k;
                            assert(j != ii);
                            assert(t[j] == s[j]);
                            lemma_lookup_at(s, key, j);
                            lemma_lookup_at(t, key, j);
                        } else if lookup(t, key, k) is Some {
                            let j = choose|j: int| 0 <= j < t.len() && t[j] == lookup(t, key, k)->0 && key(t[j]) == k;
                            assert(j != ii);
                            assert(t[j] == s[j]);
                            lemma_lookup_at(s, key, j);
                        }
                    }
                }
            }
        },
        None => {
            v.push(x);
            proof {
                let t = v@;
                assert forall|a: int, b: int| 0 <= a < t.len() && 0 <= b < t.len() && a != b implies key(#[trigger] t[a]) != key(#[trigger] t[b]) by {
                    if a < s.len() {
                        assert(t[a] == s[a]);
                    }
                    if b < s.len() {
                        assert(t[b] == s[b]);
                    }
                    if a == s.len() {
                        assert(!key_is(key, kx)(s[b]));
                    }
                    if b == s.len() {
                        assert(!key_is(key, kx)(s[a]));
                    }
                }
                assert forall|k: Seq<char>| #[trigger] lookup(t, key, k) == if k == kx {
                    Some(x)
                } else {
                    lookup(s, key, k)
                } by {
                    assert forall|j: int| 0 <= j < s.len() implies key(#[trigger] s[j]) != kx by {
                        assert(!key_is(key, kx)(s[j]));
                    }
                    lemma_lookup_absent(s, key, kx);
                    lemma_lookup_push(s, key, x, k);
                }
            }
        },
    }
}

proof fn lemma_lookup_push<T>(s: Seq<T>, key: spec_fn(T) -> Seq<char>, x: T, k: Seq<char>)
    ensures
        lookup(s, key, k) is Some ==> lookup(s.push(x), key, k) == lookup(s, key, k),
        lookup(s, key, k) is None ==> lookup(s.push(x), key, k) == if key(x) == k {
            Some(x)
        } else {
            None::<T>
        },
    decreases s.len(),
{
    if s.len() == 0 {
        assert(s.push(x)[0] == x);
        assert(s.push(x).drop_first() =~= s);
    } else {
        assert(s.push(x)[0] == s[0]);
        assert(s.push(x).drop_first() =~= s.drop_first().push(x));
        lemma_lookup_push(s.drop_first(), key, x, k);
    }
}

/// Whether an element's key is `k`.
pub open spec fn key_is<T>(key: spec_fn(T) -> Seq<char>, k: Seq<char>) -> spec_fn(T) -> bool {
    |y: T| key(y) == k
}

/// `lookup` finds the element `first_index` points at.
proof fn lemma_lookup_first<T>(s: Seq<T>, key: spec_fn(T) -> Seq<char>, k: Seq<char>)
    ensures
        ({
            let i = first_index(s, key_is(key, k));
            &&& i < 0 ==> lookup(s, key, k) is None
            &&& i >= 0 ==> i < s.len() && lookup(s, key, k) == Some(s[i])
        }),
    decreases s.len(),
{
    let f = key_is(key, k);
    lemma_first_index(s, f);
    if s.len() > 0 && !f(s[0]) {
        lemma_lookup_first(s.drop_first(), key, k);
    }
}

/// Removes the element with key `k` from a distinct-keyed list.
fn remove_keyed<T, F: Fn(&T) -> bool>(v: &mut Vec<T>, other_key: F, Ghost(key): Ghost<spec_fn(T) -> Seq<char>>, Ghost(k): Ghost<Seq<char>>)
    requires
        keys_distinct(old(v)@, key),
        forall|y: &T| #[trigger] other_key.requires((y,)),
        forall|y: &T, b: bool| other_key.ensures((y,), b) ==> b == (key(*y) != k),
    ensures
        keys_distinct(final(v)@, key),
        forall|q: Seq<char>| #[trigger] lookup(final(v)@, key, q) == if q == k {
            None
        } else {
            lookup(old(v)@, key, q)
        },
        final(v)@.len() <= old(v)@.len(),
{
    let ghost s = v@;
    let ghost f = |y: T| key(y) != k;
    crate::workspace::retain_where(v, other_key, Ghost(f));
    proof {
        lemma_keep_sound(s, f);
        assert forall|q: Seq<char>| #[trigger] lookup(v@, key, q) == if q == k {
            None
        } else {
            lookup(s, key, q)
        } by {
            lemma_lookup_keep(s, key, f, q);
            lemma_lookup_found(s, key, q);
        }
        lemma_lookup_keep(s, key, f, k);
    }
}

// --- Tokens ---------------------------------------------------------------------

/// A live token and who it belongs to.
pub struct TokenEntry {
    pub token: String,
    pub subject: Subject,
    pub expires_at: i64,
}

/// A refresh token already exchanged once, kept briefly to answer a racing
/// second presentation with the same replacement.
pub struct RetiredEntry {
    pub token: String,
    pub replacement: String,
    pub subject: Subject,
    pub retired_at: i64,
}

/// The key of a token entry.
pub open spec fn token_key() -> spec_fn(TokenEntry) -> Seq<char> {
    |e: TokenEntry| e.token@
}

/// The key of a retired entry.
pub open spec fn retired_key() -> spec_fn(RetiredEntry) -> Seq<char> {
    |e: RetiredEntry| e.token@
}

/// A token entry as plain values: its subject and expiry.
pub open spec fn token_view(e: Option<TokenEntry>) -> Option<(Option<Seq<char>>, i64)> {
    match e {
        Some(x) => Some((subject_view(x.subject), x.expires_at)),
        None => None,
    }
}

/// A retired entry as plain values: its replacement, subject and time.
pub open spec fn retired_view(e: Option<RetiredEntry>) -> Option<(Seq<char>, Option<Seq<char>>, i64)> {
    match e {
        Some(x) => Some((x.replacement@, subject_view(x.subject), x.retired_at)),
        None => None,
    }
}

/// The live access and refresh tokens, in separate tables so a refresh token
/// can never pass as an access token, plus the recently retired refresh
/// tokens.
pub struct TokenStore {
    access: Vec<TokenEntry>,
    refresh: Vec<TokenEntry>,
    retired: Vec<RetiredEntry>,
}

/// A freshly issued token pair.
#[derive(Clone, Debug)]
pub struct IssuedTokens {
    pub access_token: String,
    pub refresh_token: String,
}

impl TokenStore {
    #[verifier::type_invariant]
    spec fn inv(self) -> bool {
        &&& keys_distinct(self.access@, token_key())
        &&& keys_distinct(self.refresh@, token_key())
        &&& keys_distinct(self.retired@, retired_key())
    }

    /// The access token `t`: its subject and expiry.
    pub closed spec fn access_entry(&self, t: Seq<char>) -> Option<(Option<Seq<char>>, i64)> {
        token_view(lookup(self.access@, token_key(), t))
    }

    /// The refresh token `t`: its subject and expiry.
    pub closed spec fn refresh_entry(&self, t: Seq<char>) -> Option<(Option<Seq<char>>, i64)> {
        token_view(lookup(self.refresh@, token_key(), t))
    }

    /// The retired refresh token `t`: its replacement, subject and time.
    pub closed spec fn retired_entry(&self, t: Seq<char>) -> Option<(Seq<char>, Option<Seq<char>>, i64)> {
        retired_view(lookup(self.retired@, retired_key(), t))
    }
}

/// The pair `issued` stands in `store` as issued for subject `sv` at time
/// `now`: each token expires its lifetime after `now`, and the access token
/// verifies as `sv` until then.
pub open spec fn spec_issued_at(store: TokenStore, issued: IssuedTokens, sv: Option<Seq<char>>, now: i64) -> bool {
    &&& store.access_entry(issued.access_token@) == Some((sv, (now + ACCESS_TOKEN_TTL_MS) as i64))
    &&& store.refresh_entry(issued.refresh_token@) == Some((sv, (now + REFRESH_TOKEN_TTL_MS) as i64))
    &&& forall|later: i64| later <= now + ACCESS_TOKEN_TTL_MS ==> #[trigger] spec_verify(store, issued.access_token@, later)
        == Some(sv)
}

/// A verification result as the subject view it resolves to.
pub open spec fn spec_verified_as(r: Option<Subject>) -> Option<Option<Seq<char>>> {
    match r {
        Some(x) => Some(subject_view(x)),
        None => None,
    }
}

/// Whom access token `t` verifies as at time `now`: its subject unless it is
/// unknown or expired.
pub open spec fn spec_verify(store: TokenStore, t: Seq<char>, now: i64) -> Option<Option<Seq<char>>> {
    match store.access_entry(t) {
        Some((s, exp)) => if exp < now {
            None
        } else {
            Some(s)
        },
        None => None,
    }
}

/// `lookup` over a token table, as an index.
fn find_token(v: &Vec<TokenEntry>, t: &String) -> (r: Option<usize>)
    ensures
        match r {
            Some(i) => i < v@.len() && lookup(v@, token_key(), t@) == Some(v@[i as int]),
            None => lookup(v@, token_key(), t@) is None,
        },
{
    let r = crate::workspace::find_where(
        v,
        (|e: &TokenEntry| -> (b: bool)
            ensures
                b == (e.token@ == t@),
            { e.token == *t }),
        Ghost(key_is(token_key(), t@)),
    );
    proof {
        lemma_lookup_first(v@, token_key(), t@);
    }
    r
}

impl Default for TokenStore {
    fn default() -> (r: TokenStore)
        ensures
            forall|t: Seq<char>| #[trigger] r.access_entry(t) is None,
            forall|t: Seq<char>| #[trigger] r.refresh_entry(t) is None,
            forall|t: Seq<char>| #[trigger] r.retired_entry(t) is None,
    {
        TokenStore { access: Vec::new(), refresh: Vec::new(), retired: Vec::new() }
    }
}

impl TokenStore {
    /// Records token `token` for `subject` in `table` until `expires_at`.
    fn put_token(table: &mut Vec<TokenEntry>, token: String, subject: Subject, expires_at: i64)
        requires
            keys_distinct(old(table)@, token_key()),
        ensures
            keys_distinct(final(table)@, token_key()),
            forall|q: Seq<char>| #[trigger] token_view(lookup(final(table)@, token_key(), q)) == if q == token@ {
                Some((subject_view(subject), expires_at))
            } else {
                token_view(lookup(old(table)@, token_key(), q))
            },
    {
        let key = token.clone();
        let ghost tv = token@;
        put_keyed(
            table,
            TokenEntry { token, subject, expires_at },
            (|e: &TokenEntry| -> (b: bool)
                ensures
                    b == (e.token@ == key@),
                { e.token == key }),
            Ghost(token_key()),
        );
    }

    /// Drops token `token` from `table`.
    fn drop_token(table: &mut Vec<TokenEntry>, token: &String)
        requires
            keys_distinct(old(table)@, token_key()),
        ensures
            keys_distinct(final(table)@, token_key()),
            forall|q: Seq<char>| #[trigger] token_view(lookup(final(table)@, token_key(), q)) == if q == token@ {
                None
            } else {
                token_view(lookup(old(table)@, token_key(), q))
            },
    {
        remove_keyed(
            table,
            (|e: &TokenEntry| -> (b: bool)
                ensures
                    b == (e.token@ != token@),
                { e.token != *token }),
            Ghost(token_key()),
            Ghost(token@),
        );
    }

    /// Issues the given access/refresh pair for `subject` at time `now`,
    /// discarding nothing already issued.
    pub fn issue_at(&mut self, subject: Subject, now: i64, access_token: String, refresh_token: String) -> (r: IssuedTokens)
        requires
            now <= MAX_CLOCK_MS,
        ensures
            r.access_token == access_token,
            r.refresh_token == refresh_token,
            forall|t: Seq<char>| #[trigger] final(self).access_entry(t) == if t == access_token@ {
                Some((subject_view(subject), (now + ACCESS_TOKEN_TTL_MS) as i64))
            } else {
                old(self).access_entry(t)
            },
            forall|t: Seq<char>| #[trigger] final(self).refresh_entry(t) == if t == refresh_token@ {
                Some((subject_view(subject), (now + REFRESH_TOKEN_TTL_MS) as i64))
            } else {
                old(self).refresh_entry(t)
            },
            forall|t: Seq<char>| #[trigger] final(self).retired_entry(t) == old(self).retired_entry(t),
            // The new access token verifies as `subject` until it expires.
            forall|later: i64| later <= now + ACCESS_TOKEN_TTL_MS ==> #[trigger] spec_verify(*final(self), access_token@, later) == Some(subject_view(subject)),
    {
        proof {
            use_type_invariant(&*self);
        }
        let a = access_token.clone();
        let r = refresh_token.clone();
        let mut table: Vec<TokenEntry> = Vec::new();
        core::mem::swap(&mut table, &mut self.access);
        Self::put_token(&mut table, access_token, subject.copy(), now + ACCESS_TOKEN_TTL_MS);
        self.access = table;
        let mut table: Vec<TokenEntry> = Vec::new();
        core::mem::swap(&mut table, &mut self.refresh);
        Self::put_token(&mut table, refresh_token, subject, now + REFRESH_TOKEN_TTL_MS);
        self.refresh = table;
        IssuedTokens { access_token: a, refresh_token: r }
    }

    /// Issues a fresh random access/refresh pair for `subject`; a login from a
    /// second device is a second, independent session.
    pub fn issue(&mut self, subject: Subject) -> (r: IssuedTokens)
        ensures
            exists|now: i64|
                #![trigger spec_issued_at(*final(self), r, subject_view(subject), now)]
                now <= MAX_CLOCK_MS && spec_issued_at(*final(self), r, subject_view(subject), now),
            forall|t: Seq<char>| #[trigger] final(self).retired_entry(t) == old(self).retired_entry(t),
            r.access_token@.len() == 64,
            r.refresh_token@.len() == 64,
            final(self).access_entry(r.access_token@) matches Some((s, _)) && s == subject_view(subject),
            final(self).refresh_entry(r.refresh_token@) matches Some((s, _)) && s == subject_view(subject),
            forall|t: Seq<char>| t != r.access_token@ ==> #[trigger] final(self).access_entry(t) == old(self).access_entry(t),
            forall|t: Seq<char>| t != r.refresh_token@ ==> #[trigger] final(self).refresh_entry(t) == old(self).refresh_entry(t),
    {
        let now = clock();
        let a = generate_token();
        let r = generate_token();
        let ghost sv = subject_view(subject);
        let issued = self.issue_at(subject, now, a, r);
        assert(spec_issued_at(*self, issued, sv, now));
        issued
    }

    /// Whom an access token resolves to at time `now`; an expired one is
    /// dropped on the way.
    pub fn verify_access_at(&mut self, token: &str, now: i64) -> (r: Option<Subject>)
        ensures
            match r {
                Some(x) => spec_verify(*old(self), token@, now) == Some(subject_view(x)),
                None => spec_verify(*old(self), token@, now) is None,
            },
            forall|t: Seq<char>| #[trigger] final(self).access_entry(t) == if t == token@ && (old(self).access_entry(token@) matches Some((_, e)) && e < now) {
                None
            } else {
                old(self).access_entry(t)
            },
            forall|t: Seq<char>| #[trigger] final(self).refresh_entry(t) == old(self).refresh_entry(t),
            forall|t: Seq<char>| #[trigger] final(self).retired_entry(t) == old(self).retired_entry(t),
    {
        proof {
            use_type_invariant(&*self);
        }
        let key = String::from_str(token);
        match find_token(&self.access, &key) {
            None => None,
            Some(i) => {
                if self.access[i].expires_at < now {
                    let mut table: Vec<TokenEntry> = Vec::new();
                    core::mem::swap(&mut table, &mut self.access);
                    Self::drop_token(&mut table, &key);
                    self.access = table;
                    None
                } else {
                    Some(self.access[i].subject.copy())
                }
            },
        }
    }

    /// Whom an access token resolves to now: the rule of
    /// [`Self::verify_access_at`] at the clock's reading. A known token that
    /// no clock reading can expire always resolves to its subject.
    pub fn verify_access(&mut self, token: &str) -> (r: Option<Subject>)
        ensures
            exists|now: i64|
                #![trigger spec_verify(*old(self), token@, now)]
                now <= MAX_CLOCK_MS && spec_verify(*old(self), token@, now) == spec_verified_as(r),
            r matches Some(x) ==> old(self).access_entry(token@) matches Some((s, _)) && s == subject_view(x),
            old(self).access_entry(token@) is None ==> r is None,
            old(self).access_entry(token@) matches Some((s, e)) ==> (e >= MAX_CLOCK_MS ==> spec_verified_as(r)
                == Some(s)),
            r is Some ==> final(self).access_entry(token@) == old(self).access_entry(token@),
            r is None ==> final(self).access_entry(token@) is None,
            forall|t: Seq<char>| t != token@ ==> #[trigger] final(self).access_entry(t) == old(self).access_entry(t),
            forall|t: Seq<char>| #[trigger] final(self).refresh_entry(t) == old(self).refresh_entry(t),
            forall|t: Seq<char>| #[trigger] final(self).retired_entry(t) == old(self).retired_entry(t),
    {
        let now = clock();
        let r = self.verify_access_at(token, now);
        assert(spec_verify(*old(self), token@, now) == spec_verified_as(r));
        r
    }

    /// Drops exactly the tokens presented; unknown ones are ignored.
    pub fn revoke_tokens(&mut self, access: Option<&str>, refresh: Option<&str>)
        ensures
            forall|t: Seq<char>| #[trigger] final(self).access_entry(t) == if (access matches Some(a) && t == a@) {
                None
            } else {
                old(self).access_entry(t)
            },
            forall|t: Seq<char>| #[trigger] final(self).refresh_entry(t) == if (refresh matches Some(a) && t == a@) {
                None
            } else {
                old(self).refresh_entry(t)
            },
            forall|t: Seq<char>| #[trigger] final(self).retired_entry(t) == old(self).retired_entry(t),
    {
        proof {
            use_type_invariant(&*self);
        }
        match access {
            Some(a) => {
                let key = String::from_str(a);
                let mut table: Vec<TokenEntry> = Vec::new();
                core::mem::swap(&mut table, &mut self.access);
                Self::drop_token(&mut table, &key);
                self.access = table;
            },
            None => {},
        }
        match refresh {
            Some(a) => {
                let key = String::from_str(a);
                let mut table: Vec<TokenEntry> = Vec::new();
                core::mem::swap(&mut table, &mut self.refresh);
                Self::drop_token(&mut table, &key);
                self.refresh = table;
            },
            None => {},
        }
    }

    /// Drops every token of `table` belonging to `subject`.
    fn drop_subject(table: &mut Vec<TokenEntry>, subject: &Subject)
        requires
            keys_distinct(old(table)@, token_key()),
        ensures
            keys_distinct(final(table)@, token_key()),
            forall|q: Seq<char>| #[trigger] token_view(lookup(final(table)@, token_key(), q)) == match token_view(lookup(old(table)@, token_key(), q)) {
                Some((s, e)) => if s == subject_view(*subject) {
                    None
                } else {
                    Some((s, e))
                },
                None => None,
            },
    {
        let ghost s = table@;
        let ghost f = |e: TokenEntry| subject_view(e.subject) != subject_view(*subject);
        crate::workspace::retain_where(
            table,
            (|e: &TokenEntry| -> (b: bool)
                ensures
                    b == (subject_view(e.subject) != subject_view(*subject)),
                { !e.subject.same(subject) }),
            Ghost(f),
        );
        proof {
            lemma_lookup_keep(s, token_key(), f, Seq::empty());
            assert forall|q: Seq<char>| #[trigger] token_view(lookup(table@, token_key(), q)) == match token_view(lookup(s, token_key(), q)) {
                Some((sv, e)) => if sv == subject_view(*subject) {
                    None
                } else {
                    Some((sv, e))
                },
                None => None,
            } by {
                lemma_lookup_keep(s, token_key(), f, q);
            }
        }
    }

    /// Drops every access and refresh token of `subject`, ending all of its
    /// sessions at once.
    pub fn revoke_subject(&mut self, subject: &Subject)
        ensures
            forall|t: Seq<char>| #[trigger] final(self).access_entry(t) == match old(self).access_entry(t) {
                Some((s, e)) => if s == subject_view(*subject) {
                    None
                } else {
                    Some((s, e))
                },
                None => None,
            },
            forall|t: Seq<char>| #[trigger] final(self).refresh_entry(t) == match old(self).refresh_entry(t) {
                Some((s, e)) => if s == subject_view(*subject) {
                    None
                } else {
                    Some((s, e))
                },
                None => None,
            },
            forall|t: Seq<char>| #[trigger] final(self).retired_entry(t) == old(self).retired_entry(t),
            // No token of the subject is left.
            forall|t: Seq<char>, now: i64| #[trigger] spec_verify(*final(self), t, now) != Some(subject_view(*subject)),
            forall|t: Seq<char>| !(#[trigger] final(self).refresh_entry(t) matches Some((s, _)) && s == subject_view(*subject)),
    {
        proof {
            use_type_invariant(&*self);
        }
        let mut table: Vec<TokenEntry> = Vec::new();
        core::mem::swap(&mut table, &mut self.access);
        Self::drop_subject(&mut table, subject);
        self.access = table;
        let mut table: Vec<TokenEntry> = Vec::new();
        core::mem::swap(&mut table, &mut self.refresh);
        Self::drop_subject(&mut table, subject);
        self.refresh = table;
    }
}

/// What presenting refresh token `t` at time `now` leads to.
pub enum RefreshOutcome {
    /// A live refresh token: rotated, for this subject.
    Rotate(Option<Seq<char>>),
    /// A recently rotated-out token whose replacement is still live: answered
    /// with that replacement, for this subject.
    Replay(Seq<char>, Option<Seq<char>>),
    /// A refresh token past its expiry: dropped and refused.
    Expired,
    /// Anything else: refused.
    Refused,
}

/// The outcome of presenting refresh token `t` to `store` at time `now`.
pub open spec fn spec_refresh_outcome(store: TokenStore, t: Seq<char>, now: i64) -> RefreshOutcome {
    match store.refresh_entry(t) {
        Some((sv, exp)) => if exp < now {
            RefreshOutcome::Expired
        } else {
            RefreshOutcome::Rotate(sv)
        },
        None => match store.retired_entry(t) {
            Some((rep, sv, at)) => if now - at > REUSE_GRACE_MS {
                RefreshOutcome::Refused
            } else if store.refresh_entry(rep) is Some {
                RefreshOutcome::Replay(rep, sv)
            } else {
                RefreshOutcome::Refused
            },
            None => RefreshOutcome::Refused,
        },
    }
}

/// Whether a refresh result answers an outcome: a rotation or a replay
/// yields that subject (a replay with the live replacement as its refresh
/// token); an expired or refused token yields nothing.
pub open spec fn spec_refresh_answer(outcome: RefreshOutcome, r: Option<(IssuedTokens, Subject)>) -> bool {
    match outcome {
        RefreshOutcome::Rotate(sv) => r matches Some((_, x)) && subject_view(x) == sv,
        RefreshOutcome::Replay(rep, sv) => r matches Some((it, x)) && it.refresh_token@ == rep && subject_view(x)
            == sv,
        RefreshOutcome::Expired => r is None,
        RefreshOutcome::Refused => r is None,
    }
}

/// The retired entries still inside their grace window at `now`.
pub open spec fn spec_pruned(store: TokenStore, now: i64, q: Seq<char>) -> Option<(Seq<char>, Option<Seq<char>>, i64)> {
    match store.retired_entry(q) {
        Some((rep, sv, at)) => if now - at > REUSE_GRACE_MS {
            None
        } else {
            Some((rep, sv, at))
        },
        None => None,
    }
}

impl TokenStore {
    /// Drops retirement records past their grace window.
    fn prune_retired(&mut self, now: i64)
        ensures
            forall|q: Seq<char>| #[trigger] final(self).retired_entry(q) == spec_pruned(*old(self), now, q),
            forall|q: Seq<char>| #[trigger] final(self).access_entry(q) == old(self).access_entry(q),
            forall|q: Seq<char>| #[trigger] final(self).refresh_entry(q) == old(self).refresh_entry(q),
    {
        proof {
            use_type_invariant(&*self);
        }
        let mut table: Vec<RetiredEntry> = Vec::new();
        core::mem::swap(&mut table, &mut self.retired);
        let ghost s = table@;
        let ghost f = |e: RetiredEntry| now - e.retired_at <= REUSE_GRACE_MS;
        crate::workspace::retain_where(
            &mut table,
            (|e: &RetiredEntry| -> (b: bool)
                ensures
                    b == (now - e.retired_at <= REUSE_GRACE_MS),
                { (now as i128) - (e.retired_at as i128) <= (REUSE_GRACE_MS as i128) }),
            Ghost(f),
        );
        proof {
            lemma_lookup_keep(s, retired_key(), f, Seq::empty());
            assert forall|q: Seq<char>| #[trigger] retired_view(lookup(table@, retired_key(), q)) == spec_pruned(*old(self), now, q) by {
                lemma_lookup_keep(s, retired_key(), f, q);
            }
        }
        self.retired = table;
    }

    /// Mints the replacement pair for `old_token` and records the retirement.
    fn rotate(&mut self, old_token: &String, subject: Subject, now: i64, access_token: String, refresh_token: String) -> (r: IssuedTokens)
        requires
            now <= MAX_CLOCK_MS,
        ensures
            r.access_token == access_token,
            r.refresh_token == refresh_token,
            forall|t: Seq<char>| #[trigger] final(self).access_entry(t) == if t == access_token@ {
                Some((subject_view(subject), (now + ACCESS_TOKEN_TTL_MS) as i64))
            } else {
                old(self).access_entry(t)
            },
            forall|t: Seq<char>| #[trigger] final(self).refresh_entry(t) == if t == refresh_token@ {
                Some((subject_view(subject), (now + REFRESH_TOKEN_TTL_MS) as i64))
            } else {
                old(self).refresh_entry(t)
            },
            forall|t: Seq<char>| #[trigger] final(self).retired_entry(t) == if t == old_token@ {
                Some((refresh_token@, subject_view(subject), now))
            } else {
                old(self).retired_entry(t)
            },
    {
        proof {
            use_type_invariant(&*self);
        }
        let replacement = refresh_token.clone();
        let ghost a0 = access_token@;
        let issued = self.issue_at(subject.copy(), now, access_token, refresh_token);
        proof {
            use_type_invariant(&*self);
        }
        let ghost mid = *self;
        assert(forall|t: Seq<char>| #[trigger] mid.access_entry(t) == if t == a0 {
                Some((subject_view(subject), (now + ACCESS_TOKEN_TTL_MS) as i64))
            } else {
                old(self).access_entry(t)
            });
        let mut table: Vec<RetiredEntry> = Vec::new();
        core::mem::swap(&mut table, &mut self.retired);
        let key = old_token.clone();
        let ghost t0 = table@;
        let ghost replacement_v = replacement@;
        let entry = RetiredEntry { token: old_token.clone(), replacement, subject, retired_at: now };
        let ghost ev = entry;
        put_keyed(
            &mut table,
            entry,
            (|e: &RetiredEntry| -> (b: bool)
                ensures
                    b == (e.token@ == key@),
                { e.token == key }),
            Ghost(retired_key()),
        );
        self.retired = table;
        proof {
            assert(self.access@ == mid.access@);
            assert(self.refresh@ == mid.refresh@);
            assert forall|t: Seq<char>| #[trigger] self.access_entry(t) == mid.access_entry(t) by {}
            assert forall|t: Seq<char>| #[trigger] self.refresh_entry(t) == mid.refresh_entry(t) by {}
            assert forall|t: Seq<char>| #[trigger] self.retired_entry(t) == if t == old_token@ {
                Some((replacement_v, subject_view(subject), now))
            } else {
                old(self).retired_entry(t)
            } by {
                assert(mid.retired_entry(t) == old(self).retired_entry(t));
                assert(lookup(self.retired@, retired_key(), t) == if t == old_token@ {
                    Some(ev)
                } else {
                    lookup(t0, retired_key(), t)
                });
            }
        }
        issued
    }

    /// Exchanges refresh token `token` at time `now`: a live one is rotated
    /// into the given new pair; a just-rotated one inside the grace window is
    /// answered with its (still live) replacement and the given access
    /// token; anything else is refused.
    pub fn refresh_at(&mut self, token: &str, now: i64, access_token: String, refresh_token: String) -> (r: Option<(IssuedTokens, Subject)>)
        requires
            now <= MAX_CLOCK_MS,
        ensures
            forall|q: Seq<char>| q != token@ ==> #[trigger] final(self).retired_entry(q) == spec_pruned(*old(self), now, q),
            match spec_refresh_outcome(*old(self), token@, now) {
                RefreshOutcome::Rotate(sv) => {
                    &&& r matches Some((it, x)) && it.access_token == access_token && it.refresh_token == refresh_token
                        && subject_view(x) == sv
                    &&& forall|q: Seq<char>| #[trigger] final(self).access_entry(q) == if q == access_token@ {
                        Some((sv, (now + ACCESS_TOKEN_TTL_MS) as i64))
                    } else {
                        old(self).access_entry(q)
                    }
                    &&& forall|q: Seq<char>| #[trigger] final(self).refresh_entry(q) == if q == refresh_token@ {
                        Some((sv, (now + REFRESH_TOKEN_TTL_MS) as i64))
                    } else if q == token@ {
                        None
                    } else {
                        old(self).refresh_entry(q)
                    }
                    &&& final(self).retired_entry(token@) == Some((refresh_token@, sv, now))
                    // The presented token is retired: a racing second use inside the
                    // grace window gets the same replacement, a later one is refused.
                    &&& refresh_token@ != token@ ==> final(self).refresh_entry(token@) is None
                    &&& forall|later: i64| refresh_token@ != token@ && now <= later <= now + REUSE_GRACE_MS
                        ==> #[trigger] spec_refresh_outcome(*final(self), token@, later) == RefreshOutcome::Replay(refresh_token@, sv)
                    &&& forall|later: i64| refresh_token@ != token@ && later > now + REUSE_GRACE_MS
                        ==> #[trigger] spec_refresh_outcome(*final(self), token@, later) == RefreshOutcome::Refused
                },
                RefreshOutcome::Replay(rep, sv) => {
                    &&& r matches Some((it, x)) && it.access_token == access_token && it.refresh_token@ == rep
                        && subject_view(x) == sv
                    &&& forall|q: Seq<char>| #[trigger] final(self).access_entry(q) == if q == access_token@ {
                        Some((sv, (now + ACCESS_TOKEN_TTL_MS) as i64))
                    } else {
                        old(self).access_entry(q)
                    }
                    &&& forall|q: Seq<char>| #[trigger] final(self).refresh_entry(q) == old(self).refresh_entry(q)
                    &&& final(self).retired_entry(token@) == spec_pruned(*old(self), now, token@)
                },
                RefreshOutcome::Expired => {
                    &&& r is None
                    &&& forall|q: Seq<char>| #[trigger] final(self).access_entry(q) == old(self).access_entry(q)
                    &&& forall|q: Seq<char>| #[trigger] final(self).refresh_entry(q) == if q == token@ {
                        None
                    } else {
                        old(self).refresh_entry(q)
                    }
                    &&& final(self).retired_entry(token@) == spec_pruned(*old(self), now, token@)
                },
                RefreshOutcome::Refused => {
                    &&& r is None
                    &&& forall|q: Seq<char>| #[trigger] final(self).access_entry(q) == old(self).access_entry(q)
                    &&& forall|q: Seq<char>| #[trigger] final(self).refresh_entry(q) == old(self).refresh_entry(q)
                    &&& final(self).retired_entry(token@) == spec_pruned(*old(self), now, token@)
                },
            },
            // A token that is neither a refresh token nor a retired one (an
            // access token, say) is refused.
            old(self).refresh_entry(token@) is None && old(self).retired_entry(token@) is None ==> r is None,
    {
        proof {
            use_type_invariant(&*self);
        }
        self.prune_retired(now);
        proof {
            use_type_invariant(&*self);
        }
        let ghost p1 = *self;
        let key = String::from_str(token);
        let mut table: Vec<TokenEntry> = Vec::new();
        core::mem::swap(&mut table, &mut self.refresh);
        let ghost t1 = table@;
        match find_token(&table, &key) {
            Some(i) => {
                let expired = table[i].expires_at < now;
                let subject = table[i].subject.copy();
                let ghost sv = subject_view(subject);
                Self::drop_token(&mut table, &key);
                self.refresh = table;
                let ghost p2 = *self;
                proof {
                    assert(t1 == p1.refresh@);
                    assert(p1.refresh_entry(token@) == old(self).refresh_entry(token@));
                    assert(lookup(t1, token_key(), token@) == Some(t1[i as int]));
                    assert(old(self).refresh_entry(token@) == Some((sv, t1[i as int].expires_at)));
                    assert forall|q: Seq<char>| #[trigger] p2.refresh_entry(q) == if q == token@ {
                        None
                    } else {
                        old(self).refresh_entry(q)
                    } by {
                        assert(p1.refresh_entry(q) == old(self).refresh_entry(q));
                        assert(p2.refresh@ == table@);
                    }
                    assert forall|q: Seq<char>| #[trigger] p2.access_entry(q) == old(self).access_entry(q) by {
                        assert(p2.access@ == p1.access@);
                        assert(p1.access_entry(q) == old(self).access_entry(q));
                    }
                    assert forall|q: Seq<char>| #[trigger] p2.retired_entry(q) == spec_pruned(*old(self), now, q) by {
                        assert(p2.retired@ == p1.retired@);
                        assert(p1.retired_entry(q) == spec_pruned(*old(self), now, q));
                    }
                }
                if expired {
                    return None;
                }
                let rt = refresh_token.clone();
                let issued = self.rotate(&key, subject.copy(), now, access_token, refresh_token);
                proof {
                    let f = *self;
                    if rt@ != token@ {
                        assert(f.refresh_entry(token@) is None);
                        assert(f.retired_entry(token@) == Some((rt@, sv, now)));
                        assert(f.refresh_entry(rt@) is Some);
                        assert forall|later: i64| now <= later <= now + REUSE_GRACE_MS implies #[trigger] spec_refresh_outcome(f, token@, later) == RefreshOutcome::Replay(rt@, sv) by {}
                        assert forall|later: i64| later > now + REUSE_GRACE_MS implies #[trigger] spec_refresh_outcome(f, token@, later) == RefreshOutcome::Refused by {}
                    }
                }
                return Some((issued, subject));
            },
            None => {
                self.refresh = table;
            },
        }
        proof {
            assert(old(self).refresh_entry(token@) is None);
            assert(self.refresh@ == p1.refresh@);
            assert forall|q: Seq<char>| #[trigger] self.refresh_entry(q) == old(self).refresh_entry(q) by {
                assert(p1.refresh_entry(q) == old(self).refresh_entry(q));
            }
            assert forall|q: Seq<char>| #[trigger] self.access_entry(q) == old(self).access_entry(q) by {
                assert(self.access@ == p1.access@);
                assert(p1.access_entry(q) == old(self).access_entry(q));
            }
            assert forall|q: Seq<char>| #[trigger] self.retired_entry(q) == spec_pruned(*old(self), now, q) by {
                assert(self.retired@ == p1.retired@);
                assert(p1.retired_entry(q) == spec_pruned(*old(self), now, q));
            }
        }
        let ghost p2 = *self;
        assert(forall|q: Seq<char>| #[trigger] p2.access_entry(q) == old(self).access_entry(q));
        assert(forall|q: Seq<char>| #[trigger] p2.refresh_entry(q) == old(self).refresh_entry(q));
        assert(forall|q: Seq<char>| #[trigger] p2.retired_entry(q) == spec_pruned(*old(self), now, q));
        let rk = key.clone();
        let found = crate::workspace::find_where(
            &self.retired,
            (|e: &RetiredEntry| -> (b: bool)
                ensures
                    b == (e.token@ == rk@),
                { e.token == rk }),
            Ghost(key_is(retired_key(), key@)),
        );
        proof {
            lemma_lookup_first(self.retired@, retired_key(), key@);
        }
        match found {
            None => None,
            Some(j) => {
                let rec = &self.retired[j];
                if (now as i128) - (rec.retired_at as i128) > (REUSE_GRACE_MS as i128) {
                    return None;
                }
                let replacement = rec.replacement.clone();
                let subject = rec.subject.copy();
                if find_token(&self.refresh, &replacement).is_none() {
                    return None;
                }
                let a = access_token.clone();
                let ghost av = access_token@;
                let mut table: Vec<TokenEntry> = Vec::new();
                core::mem::swap(&mut table, &mut self.access);
                let ghost ta = table@;
                Self::put_token(&mut table, access_token, subject.copy(), now + ACCESS_TOKEN_TTL_MS);
                self.access = table;
                proof {
                    assert(ta == p2.access@);
                    assert(self.refresh@ == p2.refresh@);
                    assert(self.retired@ == p2.retired@);
                    assert forall|q: Seq<char>| #[trigger] self.refresh_entry(q) == old(self).refresh_entry(q) by {
                        assert(p2.refresh_entry(q) == old(self).refresh_entry(q));
                    }
                    assert forall|q: Seq<char>| #[trigger] self.retired_entry(q) == spec_pruned(*old(self), now, q) by {
                        assert(p2.retired_entry(q) == spec_pruned(*old(self), now, q));
                    }
                    assert forall|q: Seq<char>| #[trigger] self.access_entry(q) == if q == av {
                        Some((subject_view(subject), (now + ACCESS_TOKEN_TTL_MS) as i64))
                    } else {
                        old(self).access_entry(q)
                    } by {
                        assert(p2.access_entry(q) == old(self).access_entry(q));
                    }
                }
                Some((IssuedTokens { access_token: a, refresh_token: replacement }, subject))
            },
        }
    }

    /// Exchanges a refresh token now, minting fresh random tokens: the rule
    /// of [`Self::refresh_at`] at the clock's reading. A live refresh token
    /// that no clock reading can expire is always rotated.
    pub fn refresh(&mut self, token: &str) -> (r: Option<(IssuedTokens, Subject)>)
        ensures
            exists|now: i64|
                #![trigger spec_refresh_outcome(*old(self), token@, now)]
                now <= MAX_CLOCK_MS && spec_refresh_answer(spec_refresh_outcome(*old(self), token@, now), r),
            old(self).refresh_entry(token@) matches Some((sv, exp)) ==> (exp >= MAX_CLOCK_MS ==> (r matches Some(
                (_, x),
            ) && subject_view(x) == sv)),
            r matches Some((it, _)) ==> it.access_token@.len() == 64,
            r matches Some((_, x)) ==> (old(self).refresh_entry(token@) matches Some((s, _)) && s == subject_view(x))
                || (old(self).retired_entry(token@) matches Some((_, s, _)) && s == subject_view(x)),
            old(self).refresh_entry(token@) is None && old(self).retired_entry(token@) is None ==> r is None,
    {
        let now = clock();
        let a = generate_token();
        let n = generate_token();
        let r = self.refresh_at(token, now, a, n);
        assert(spec_refresh_answer(spec_refresh_outcome(*old(self), token@, now), r));
        r
    }
}

// --- Login throttle ---------------------------------------------------------------

/// The failed-login record of one typed-in username.
pub struct AttemptEntry {
    pub username: String,
    pub failures: u32,
    /// Set once `failures` passes the free attempts: the time until which
    /// this username must wait.
    pub retry_after: Option<i64>,
}

/// The key of an attempt record.
pub open spec fn attempt_key() -> spec_fn(AttemptEntry) -> Seq<char> {
    |e: AttemptEntry| e.username@
}

/// Slows down online password guessing: keyed on the literal username typed
/// in (known or not), a short fixed wait after the free failures.
pub struct LoginThrottle {
    by_username: Vec<AttemptEntry>,
}

impl LoginThrottle {
    #[verifier::type_invariant]
    spec fn inv(self) -> bool {
        &&& keys_distinct(self.by_username@, attempt_key())
        &&& self.by_username@.len() <= MAX_TRACKED
    }

    /// The record of username `u`: its failure count and wait-until time.
    pub closed spec fn attempts(&self, u: Seq<char>) -> Option<(u32, Option<i64>)> {
        match lookup(self.by_username@, attempt_key(), u) {
            Some(e) => Some((e.failures, e.retry_after)),
            None => None,
        }
    }

    /// How many usernames are tracked.
    pub closed spec fn tracked_count(&self) -> nat {
        self.by_username@.len()
    }
}

impl Default for LoginThrottle {
    fn default() -> (r: LoginThrottle)
        ensures
            forall|u: Seq<char>| #[trigger] r.attempts(u) is None,
            r.tracked_count() == 0,
    {
        LoginThrottle { by_username: Vec::new() }
    }
}

/// The wait, in whole seconds rounded up, that username `u` still owes at
/// time `now`, if any.
pub open spec fn spec_wait(t: LoginThrottle, u: Seq<char>, now: i64) -> Option<u32> {
    match t.attempts(u) {
        Some((_, Some(until))) => if until > now {
            Some(((until - now + 999) / 1000) as u32)
        } else {
            None
        },
        _ => None,
    }
}

/// The record after one more failure at time `now`.
pub open spec fn spec_after_failure(prev: Option<(u32, Option<i64>)>, now: i64) -> (u32, Option<i64>) {
    let (f, r) = match prev {
        Some(p) => p,
        None => (0u32, None),
    };
    let f2: u32 = if f == u32::MAX {
        f
    } else {
        (f + 1) as u32
    };
    (f2, if f2 > FREE_ATTEMPTS {
        Some((now + RETRY_AFTER_MS) as i64)
    } else {
        r
    })
}

impl LoginThrottle {
    fn find(&self, username: &String) -> (r: Option<usize>)
        ensures
            match r {
                Some(i) => i < self.by_username@.len() && lookup(self.by_username@, attempt_key(), username@)
                    == Some(self.by_username@[i as int]),
                None => lookup(self.by_username@, attempt_key(), username@) is None,
            },
    {
        let r = crate::workspace::find_where(
            &self.by_username,
            (|e: &AttemptEntry| -> (b: bool)
                ensures
                    b == (e.username@ == username@),
                { e.username == *username }),
            Ghost(key_is(attempt_key(), username@)),
        );
        proof {
            lemma_lookup_first(self.by_username@, attempt_key(), username@);
        }
        r
    }

    /// `Some(seconds)` if `username` must wait, at time `now`, before its
    /// password is even checked.
    pub fn retry_after_secs_at(&self, username: &str, now: i64) -> (r: Option<u32>)
        ensures
            r == spec_wait(*self, username@, now),
    {
        let key = String::from_str(username);
        match self.find(&key) {
            None => None,
            Some(i) => match self.by_username[i].retry_after {
                None => None,
                Some(until) => {
                    if until > now {
                        let d: i128 = (until as i128) - (now as i128) + 999;
                        Some((d / 1000) as u32)
                    } else {
                        None
                    }
                },
            },
        }
    }

    /// `Some(seconds)` if `username` must wait now: the rule of
    /// [`Self::retry_after_secs_at`] at the clock's reading. A wait that runs
    /// past every clock reading is always owed.
    pub fn retry_after_secs(&self, username: &str) -> (r: Option<u32>)
        ensures
            exists|now: i64|
                #![trigger spec_wait(*self, username@, now)]
                now <= MAX_CLOCK_MS && r == spec_wait(*self, username@, now),
            r is Some ==> self.attempts(username@) matches Some((_, Some(_))),
            self.attempts(username@) matches Some((_, Some(until))) && until > MAX_CLOCK_MS ==> r is Some,
    {
        let now = clock();
        let r = self.retry_after_secs_at(username, now);
        assert(r == spec_wait(*self, username@, now));
        r
    }

    /// Counts a failed login for `username` at time `now`. Past the free
    /// failures, the username waits a short fixed time. Tracking a new
    /// username when the table is full first clears it.
    pub fn record_failure_at(&mut self, username: &str, now: i64)
        requires
            now <= MAX_CLOCK_MS,
        ensures
            ({
                let cleared = old(self).tracked_count() >= MAX_TRACKED && old(self).attempts(username@) is None;
                &&& final(self).attempts(username@) == Some(spec_after_failure(
                    if cleared {
                        None
                    } else {
                        old(self).attempts(username@)
                    },
                    now,
                ))
                &&& forall|v: Seq<char>| v != username@ ==> #[trigger] final(self).attempts(v) == if cleared {
                    None
                } else {
                    old(self).attempts(v)
                }
            }),
            final(self).tracked_count() <= MAX_TRACKED,
    {
        proof {
            use_type_invariant(&*self);
        }
        let key = String::from_str(username);
        let found = self.find(&key);
        let mut table: Vec<AttemptEntry> = Vec::new();
        core::mem::swap(&mut table, &mut self.by_username);
        let ghost t0 = table@;
        let mut prev: Option<(u32, Option<i64>)> = match found {
            Some(i) => Some((table[i].failures, table[i].retry_after)),
            None => None,
        };
        if table.len() >= MAX_TRACKED && found.is_none() {
            table = Vec::new();
            prev = None;
        }
        let ghost t1 = table@;
        let (f, r) = match prev {
            Some(p) => p,
            None => (0u32, None),
        };
        let f2: u32 = if f == u32::MAX { f } else { f + 1 };
        let r2 = if f2 > FREE_ATTEMPTS { Some(now + RETRY_AFTER_MS) } else { r };
        let k2 = key.clone();
        let entry = AttemptEntry { username: key, failures: f2, retry_after: r2 };
        let ghost ev = entry;
        put_keyed(
            &mut table,
            entry,
            (|e: &AttemptEntry| -> (b: bool)
                ensures
                    b == (e.username@ == k2@),
                { e.username == k2 }),
            Ghost(attempt_key()),
        );
        self.by_username = table;
    }

    /// Counts a failed login for `username` now.
    pub fn record_failure(&mut self, username: &str)
        ensures
            exists|now: i64|
                #![trigger spec_after_failure(spec_failure_base(*old(self), username@), now)]
                now <= MAX_CLOCK_MS && final(self).attempts(username@) == Some(
                    spec_after_failure(spec_failure_base(*old(self), username@), now),
                ),
            final(self).attempts(username@) matches Some((f, _)) && f >= 1,
            forall|v: Seq<char>| v != username@ ==> #[trigger] final(self).attempts(v) == if old(self).tracked_count()
                >= MAX_TRACKED && old(self).attempts(username@) is None {
                None
            } else {
                old(self).attempts(v)
            },
            final(self).tracked_count() <= MAX_TRACKED,
    {
        let now = clock();
        self.record_failure_at(username, now);
        assert(self.attempts(username@) == Some(spec_after_failure(spec_failure_base(*old(self), username@), now)));
    }

    /// Clears any record for `username`: a successful login wipes the slate.
    pub fn record_success(&mut self, username: &str)
        ensures
            final(self).attempts(username@) is None,
            forall|v: Seq<char>| v != username@ ==> #[trigger] final(self).attempts(v) == old(self).attempts(v),
    {
        proof {
            use_type_invariant(&*self);
        }
        let key = String::from_str(username);
        let mut table: Vec<AttemptEntry> = Vec::new();
        core::mem::swap(&mut table, &mut self.by_username);
        let ghost t0 = table@;
        remove_keyed(
            &mut table,
            (|e: &AttemptEntry| -> (b: bool)
                ensures
                    b == (e.username@ != key@),
                { e.username != key }),
            Ghost(attempt_key()),
            Ghost(key@),
        );
        self.by_username = table;
    }
}

// --- Login ------------------------------------------------------------------------

/// Why a login was refused.
#[derive(Clone, Copy, Debug, PartialEq, Eq, Structural)]
pub enum LoginError {
    /// Unknown username or wrong password: the two are not told apart.
    InvalidCredentials,
    /// Too many recent failures for this username; try again after this
    /// many seconds.
    TooManyAttempts { retry_after_secs: u32 },
}

/// The record a failure leaves for `u`, counting from what the throttle held
/// (nothing, when a full table had to be cleared to track `u`).
pub open spec fn spec_failure_base(t: LoginThrottle, u: Seq<char>) -> Option<(u32, Option<i64>)> {
    if t.tracked_count() >= MAX_TRACKED && t.attempts(u) is None {
        None
    } else {
        t.attempts(u)
    }
}

/// Whether the password opens the account it names: the username is known
/// and Argon2 accepts the password against its hash.
pub open spec fn spec_credentials_ok(known: Option<(Subject, &str)>, password: Seq<char>) -> bool {
    match known {
        Some((_, hash)) => argon2_accepts(password, hash@),
        None => false,
    }
}

/// What a login at time `now` leaves, given whether the credentials hold
/// (`ok`): a username that must still wait is refused with its wait and
/// nothing changes; wrong credentials are refused and counted as a failure;
/// right ones clear the record and issue a live pair for the subject.
pub open spec fn spec_login_answer(
    throttle: LoginThrottle,
    throttle_after: LoginThrottle,
    tokens: TokenStore,
    tokens_after: TokenStore,
    u: Seq<char>,
    ok: bool,
    known: Option<(Subject, &str)>,
    now: i64,
    r: Result<(IssuedTokens, Subject), LoginError>,
) -> bool {
    let wait = spec_wait(throttle, u, now);
    &&& wait matches Some(secs) ==> {
        &&& r == Err::<(IssuedTokens, Subject), LoginError>(LoginError::TooManyAttempts { retry_after_secs: secs })
        &&& throttle_after == throttle
        &&& tokens_after == tokens
    }
    &&& wait is None && !ok ==> {
        &&& r == Err::<(IssuedTokens, Subject), LoginError>(LoginError::InvalidCredentials)
        &&& throttle_after.attempts(u) == Some(spec_after_failure(spec_failure_base(throttle, u), now))
        &&& tokens_after == tokens
    }
    &&& wait is None && ok ==> {
        &&& r matches Ok((issued, subject)) && known matches Some((k, _)) && subject == k && {
            &&& tokens_after.access_entry(issued.access_token@) == Some((subject_view(k), (now + ACCESS_TOKEN_TTL_MS) as i64))
            &&& tokens_after.refresh_entry(issued.refresh_token@) == Some((subject_view(k), (now + REFRESH_TOKEN_TTL_MS) as i64))
        }
        &&& throttle_after.attempts(u) is None
    }
}

/// The login flow every role shares, at time `now` with the token pair to
/// issue on success. `known` is the subject and stored hash the typed-in
/// username names, if it names one. A username that must still wait is
/// refused before its password is looked at. Otherwise the password is
/// checked (against `dummy_hash` when the username is unknown, so both
/// refusals cost the same); a refusal counts as a failure for the typed-in
/// username, and a success clears its record and issues the pair.
pub fn login_at(
    throttle: &mut LoginThrottle,
    tokens: &mut TokenStore,
    username: &str,
    password: &str,
    known: Option<(Subject, &str)>,
    dummy_hash: &str,
    now: i64,
    access_token: String,
    refresh_token: String,
) -> (r: Result<(IssuedTokens, Subject), LoginError>)
    requires
        now <= MAX_CLOCK_MS,
    ensures
        ({
            let wait = spec_wait(*old(throttle), username@, now);
            let ok = spec_credentials_ok(known, password@);
            &&& wait matches Some(secs) ==> {
                &&& r == Err::<(IssuedTokens, Subject), LoginError>(LoginError::TooManyAttempts { retry_after_secs: secs })
                &&& *final(throttle) == *old(throttle)
                &&& *final(tokens) == *old(tokens)
            }
            &&& wait is None && !ok ==> {
                &&& r == Err::<(IssuedTokens, Subject), LoginError>(LoginError::InvalidCredentials)
                &&& final(throttle).attempts(username@) == Some(spec_after_failure(spec_failure_base(*old(throttle), username@), now))
                &&& *final(tokens) == *old(tokens)
            }
            &&& wait is None && ok ==> {
                &&& r matches Ok((issued, subject)) && known matches Some((k, _)) && subject == k && {
                    &&& issued.access_token == access_token
                    &&& issued.refresh_token == refresh_token
                    &&& final(tokens).access_entry(access_token@) == Some((subject_view(k), (now + ACCESS_TOKEN_TTL_MS) as i64))
                    &&& final(tokens).refresh_entry(refresh_token@) == Some((subject_view(k), (now + REFRESH_TOKEN_TTL_MS) as i64))
                }
                &&& final(throttle).attempts(username@) is None
            }
        }),
{
    if let Some(secs) = throttle.retry_after_secs_at(username, now) {
        return Err(LoginError::TooManyAttempts { retry_after_secs: secs });
    }
    let ok = match known {
        Some((_, hash)) => verify_password(password, hash),
        None => {
            let _ = verify_password(password, dummy_hash);
            false
        },
    };
    if !ok {
        throttle.record_failure_at(username, now);
        return Err(LoginError::InvalidCredentials);
    }
    throttle.record_success(username);
    match known {
        Some((subject, _)) => {
            let issued = tokens.issue_at(subject.copy(), now, access_token, refresh_token);
            Ok((issued, subject))
        },
        None => Err(LoginError::InvalidCredentials),
    }
}

/// Logs in now, issuing a fresh random token pair on success (see
/// [`login_at`] for the rule).
pub fn login(
    throttle: &mut LoginThrottle,
    tokens: &mut TokenStore,
    username: &str,
    password: &str,
    known: Option<(Subject, &str)>,
    dummy_hash: &str,
) -> (r: Result<(IssuedTokens, Subject), LoginError>)
    ensures
        exists|now: i64|
            #![trigger spec_wait(*old(throttle), username@, now)]
            now <= MAX_CLOCK_MS && spec_login_answer(
                *old(throttle),
                *final(throttle),
                *old(tokens),
                *final(tokens),
                username@,
                spec_credentials_ok(known, password@),
                known,
                now,
                r,
            ),
        !spec_credentials_ok(known, password@) ==> r is Err,
        spec_credentials_ok(known, password@) && !(old(throttle).attempts(username@) matches Some((_, Some(_))))
            ==> r is Ok,
        r matches Ok((_, subject)) ==> known matches Some((k, _)) && subject == k,
        r matches Ok((issued, _)) ==> issued.access_token@.len() == 64 && issued.refresh_token@.len() == 64,
        r matches Ok(_) ==> final(throttle).attempts(username@) is None,
        r matches Err(LoginError::TooManyAttempts { .. }) ==> *final(throttle) == *old(throttle),
{
    let now = clock();
    let a = generate_token();
    let t = generate_token();
    let r = login_at(throttle, tokens, username, password, known, dummy_hash, now, a, t);
    assert(spec_login_answer(
        *old(throttle),
        *throttle,
        *old(tokens),
        *tokens,
        username@,
        spec_credentials_ok(known, password@),
        known,
        now,
        r,
    ));
    r
}

} // verus!
