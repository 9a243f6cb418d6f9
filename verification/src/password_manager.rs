//! Password hashing and verification.
//!
//! A stored hash is one line of text that carries everything needed to
//! derive the digest again:
//!
//! ```text
//! $argon2id$v=19$m=<memory>,t=<iterations>,p=<lanes>$<salt>$<digest>
//! ```
//!
//! The three numbers are canonical decimals; salt and digest are non-empty
//! texts of letters, digits, `+` and `/`. Verification reads the parameters
//! from the stored text and from nowhere else: a text that lacks one of them
//! is not a stored hash, and never verifies.

use crate::primitives::{argon2id_digest, constant_time_eq, derive_digest, fresh_salt};
use crate::text::{
    append_chars, append_text, chars_of, check_b64_text, decimal, field_views, is_b64_char,
    is_b64_text, is_digit, join, lemma_absent, lemma_canonical_decimal_unique,
    lemma_decimal_digits, lemma_decimal_round_trip, lemma_join_push, lemma_join_split,
    lemma_split_extend, lemma_split_single, parse_decimal_up_to, push_decimal, read_decimal,
    same_text, split, split_chars, string_of, tail_of,
};
use vstd::prelude::*;

verus! {

/// Memory, in KiB, that a new hash is made with.
pub const DEFAULT_MEMORY_KIB: u32 = 19456;

/// Passes over the memory that a new hash is made with.
pub const DEFAULT_ITERATIONS: u32 = 2;

/// Lanes that a new hash is made with.
pub const DEFAULT_LANES: u32 = 1;

/// Why a password could not be hashed.
#[derive(Clone, Copy, Debug, PartialEq, Eq, Structural)]
pub enum PasswordError {
    /// The salt is empty or holds a character that is no letter, digit, `+` or `/`.
    InvalidSalt,
    /// Argon2 refused the password or the salt.
    Refused,
}

/// What a stored hash holds.
pub struct StoredHash {
    pub memory_kib: u32,
    pub iterations: u32,
    pub lanes: u32,
    pub salt: String,
    pub digest: String,
}

/// The mathematical value of a `StoredHash`.
pub struct HashRecord {
    pub memory_kib: u32,
    pub iterations: u32,
    pub lanes: u32,
    pub salt: Seq<char>,
    pub digest: Seq<char>,
}

impl View for StoredHash {
    type V = HashRecord;

    open spec fn view(&self) -> HashRecord {
        HashRecord {
            memory_kib: self.memory_kib,
            iterations: self.iterations,
            lanes: self.lanes,
            salt: self.salt@,
            digest: self.digest@,
        }
    }
}

/// Salt and digest are texts that the stored form can carry.
pub open spec fn well_formed(h: HashRecord) -> bool {
    is_b64_text(h.salt) && is_b64_text(h.digest)
}

/// One cost parameter in the stored form: its name, `=`, its value.
pub open spec fn param_text(name: char, value: u32) -> Seq<char> {
    seq![name, '='] + decimal(value as nat)
}

/// The three cost parameters in the stored form.
pub open spec fn params_text(h: HashRecord) -> Seq<char> {
    param_text('m', h.memory_kib) + seq![','] + param_text('t', h.iterations) + seq![',']
        + param_text('p', h.lanes)
}

/// The stored form of a hash.
pub open spec fn stored_text(h: HashRecord) -> Seq<char> {
    Seq::<char>::empty() + seq!['$'] + "argon2id"@ + seq!['$'] + "v=19"@ + seq!['$'] + params_text(
        h,
    ) + seq!['$'] + h.salt + seq!['$'] + h.digest
}

/// The value of the cost parameter `name` that `field` states.
pub open spec fn parse_param(field: Seq<char>, name: char) -> Option<u32> {
    if field.len() >= 2 && field[0] == name && field[1] == '=' {
        match parse_decimal_up_to(field.skip(2), u32::MAX as nat) {
            Some(n) => Some(n as u32),
            None => None,
        }
    } else {
        None
    }
}

/// What a stored text holds, where it has the stored form.
pub open spec fn parse_stored(s: Seq<char>) -> Option<HashRecord> {
    let parts = split(s, '$');
    if parts.len() == 6 && parts[0].len() == 0 && parts[1] == "argon2id"@ && parts[2] == "v=19"@
        && is_b64_text(parts[4]) && is_b64_text(parts[5]) {
        let params = split(parts[3], ',');
        if params.len() == 3 {
            match (
                parse_param(params[0], 'm'),
                parse_param(params[1], 't'),
                parse_param(params[2], 'p'),
            ) {
                (Some(m), Some(t), Some(p)) => Some(
                    HashRecord {
                        memory_kib: m,
                        iterations: t,
                        lanes: p,
                        salt: parts[4],
                        digest: parts[5],
                    },
                ),
                _ => None,
            }
        } else {
            None
        }
    } else {
        None
    }
}

/// The stored hash of `password` under `salt`, where there is one: the salt
/// is a text that the stored form can carry, and Argon2 derives a digest
/// from the two under the default cost parameters.
pub open spec fn hashed(password: Seq<char>, salt: Seq<char>) -> Option<Seq<char>> {
    if is_b64_text(salt) {
        match argon2id_digest(
            password,
            salt,
            DEFAULT_MEMORY_KIB,
            DEFAULT_ITERATIONS,
            DEFAULT_LANES,
        ) {
            Some(digest) => if is_b64_text(digest) {
                Some(
                    stored_text(
                        HashRecord {
                            memory_kib: DEFAULT_MEMORY_KIB,
                            iterations: DEFAULT_ITERATIONS,
                            lanes: DEFAULT_LANES,
                            salt,
                            digest,
                        },
                    ),
                )
            } else {
                None
            },
            None => None,
        }
    } else {
        None
    }
}

/// Whether `password` is the password of the stored hash `stored`: the text
/// has the stored form, and the digest that Argon2 derives from the
/// password under the salt and the cost parameters found in the text is the
/// digest found in the text.
pub open spec fn verifies(stored: Seq<char>, password: Seq<char>) -> bool {
    match parse_stored(stored) {
        Some(h) => h.lanes * 8 <= u32::MAX && argon2id_digest(
            password,
            h.salt,
            h.memory_kib,
            h.iterations,
            h.lanes,
        ) == Some(h.digest),
        None => false,
    }
}

proof fn lemma_b64_text_free(s: Seq<char>, c: char)
    requires
        is_b64_text(s),
        !is_b64_char(c),
    ensures
        !s.contains(c),
{
    assert forall|i: int| 0 <= i < s.len() implies #[trigger] s[i] != c by {
        assert(is_b64_char(s[i]));
    }
    lemma_absent(s, c);
}

proof fn lemma_param_text(name: char, value: u32, c: char)
    requires
        c != name,
        c != '=',
        !is_digit(c),
    ensures
        !param_text(name, value).contains(c),
        parse_param(param_text(name, value), name) == Some(value),
{
    let field = param_text(name, value);
    let digits = decimal(value as nat);
    lemma_decimal_digits(value as nat);
    lemma_decimal_round_trip(value as nat);
    assert(field.len() == 2 + digits.len());
    assert forall|i: int| 0 <= i < field.len() implies #[trigger] field[i] != c by {
        if i >= 2 {
            assert(field[i] == digits[i - 2]);
            assert(is_digit(digits[i - 2]));
        }
    }
    lemma_absent(field, c);
    assert(field.skip(2) == digits);
}

proof fn lemma_params_text(h: HashRecord)
    ensures
        !params_text(h).contains('$'),
        split(params_text(h), ',') == seq![
            param_text('m', h.memory_kib),
            param_text('t', h.iterations),
            param_text('p', h.lanes),
        ],
{
    let m = param_text('m', h.memory_kib);
    let t = param_text('t', h.iterations);
    let p = param_text('p', h.lanes);
    lemma_param_text('m', h.memory_kib, ',');
    lemma_param_text('t', h.iterations, ',');
    lemma_param_text('p', h.lanes, ',');
    lemma_param_text('m', h.memory_kib, '$');
    lemma_param_text('t', h.iterations, '$');
    lemma_param_text('p', h.lanes, '$');
    lemma_split_single(m, ',');
    lemma_split_extend(m, t, ',');
    lemma_split_extend(m + seq![','] + t, p, ',');
    assert(seq![m].push(t).push(p) == seq![m, t, p]);
    let all = params_text(h);
    assert forall|i: int| 0 <= i < all.len() implies #[trigger] all[i] != '$' by {
        if i < m.len() {
            assert(all[i] == m[i]);
            assert(m.contains(m[i]));
        } else if i == m.len() {
        } else if i < m.len() + 1 + t.len() {
            assert(all[i] == t[i - m.len() - 1]);
            assert(t.contains(t[i - m.len() - 1]));
        } else if i == m.len() + 1 + t.len() {
        } else {
            assert(all[i] == p[i - m.len() - t.len() - 2]);
            assert(p.contains(p[i - m.len() - t.len() - 2]));
        }
    }
    lemma_absent(all, '$');
}

proof fn lemma_literals()
    ensures
        !"argon2id"@.contains('$'),
        !"v=19"@.contains('$'),
{
    reveal_strlit("argon2id");
    reveal_strlit("v=19");
    lemma_absent("argon2id"@, '$');
    lemma_absent("v=19"@, '$');
}

/// A stored text is read back as the hash that it was written from.
pub proof fn stored_form_round_trip(h: HashRecord)
    requires
        well_formed(h),
    ensures
        parse_stored(stored_text(h)) == Some(h),
{
    let e = Seq::<char>::empty();
    let alg = "argon2id"@;
    let ver = "v=19"@;
    let par = params_text(h);
    lemma_literals();
    lemma_params_text(h);
    lemma_b64_text_free(h.salt, '$');
    lemma_b64_text_free(h.digest, '$');
    let d = seq!['$'];
    assert(split(e, '$') == seq![e]);
    lemma_split_extend(e, alg, '$');
    lemma_split_extend(e + d + alg, ver, '$');
    lemma_split_extend(e + d + alg + d + ver, par, '$');
    lemma_split_extend(e + d + alg + d + ver + d + par, h.salt, '$');
    lemma_split_extend(e + d + alg + d + ver + d + par + d + h.salt, h.digest, '$');
    let parts = split(stored_text(h), '$');
    assert(parts == seq![e].push(alg).push(ver).push(par).push(h.salt).push(h.digest));
    assert(parts.len() == 6);
    assert(parts[0] == e);
    assert(parts[1] == alg);
    assert(parts[2] == ver);
    assert(parts[3] == par);
    assert(parts[4] == h.salt);
    assert(parts[5] == h.digest);
    let params = split(par, ',');
    assert(params.len() == 3);
    assert(params[0] == param_text('m', h.memory_kib));
    assert(params[1] == param_text('t', h.iterations));
    assert(params[2] == param_text('p', h.lanes));
    lemma_param_text('m', h.memory_kib, '$');
    lemma_param_text('t', h.iterations, '$');
    lemma_param_text('p', h.lanes, '$');
}

proof fn lemma_param_unique(field: Seq<char>, name: char)
    requires
        parse_param(field, name) is Some,
    ensures
        param_text(name, parse_param(field, name)->0) == field,
{
    let digits = field.skip(2);
    lemma_canonical_decimal_unique(digits);
    assert(field == seq![name, '='] + digits);
}

/// The stored form is the only text that is read as a given hash: a text
/// that is read as `h` is the text that `h` is written as.
pub proof fn stored_form_is_unique(s: Seq<char>)
    requires
        parse_stored(s) is Some,
    ensures
        stored_text(parse_stored(s)->0) == s,
{
    let h = parse_stored(s)->0;
    let parts = split(s, '$');
    let params = split(parts[3], ',');
    lemma_param_unique(params[0], 'm');
    lemma_param_unique(params[1], 't');
    lemma_param_unique(params[2], 'p');
    lemma_join_split(parts[3], ',');
    assert(params == seq![params[0]].push(params[1]).push(params[2]));
    lemma_join_push(seq![params[0]], params[1], ',');
    lemma_join_push(seq![params[0]].push(params[1]), params[2], ',');
    assert(join(seq![params[0]], ',') == params[0]);
    assert(parts[3] == params_text(h));
    lemma_join_split(s, '$');
    let one = seq![parts[0]];
    let two = one.push(parts[1]);
    let three = two.push(parts[2]);
    let four = three.push(parts[3]);
    let five = four.push(parts[4]);
    assert(parts == five.push(parts[5]));
    assert(join(one, '$') == parts[0]);
    lemma_join_push(one, parts[1], '$');
    lemma_join_push(two, parts[2], '$');
    lemma_join_push(three, parts[3], '$');
    lemma_join_push(four, parts[4], '$');
    lemma_join_push(five, parts[5], '$');
    assert(parts[0] == Seq::<char>::empty());
}

/// Another password is accepted for a stored hash only where Argon2 gives
/// it the digest of the password that was hashed: for passwords `p` and
/// `q` and every salt, the stored hash of `p` verifies against `q` exactly
/// where the digests of the two, under that salt and the default cost
/// parameters, are the same.
pub proof fn other_password_needs_the_same_digest(p: Seq<char>, q: Seq<char>, salt: Seq<char>)
    requires
        hashed(p, salt) is Some,
    ensures
        verifies(hashed(p, salt)->0, q) <==> argon2id_digest(
            q,
            salt,
            DEFAULT_MEMORY_KIB,
            DEFAULT_ITERATIONS,
            DEFAULT_LANES,
        ) == argon2id_digest(p, salt, DEFAULT_MEMORY_KIB, DEFAULT_ITERATIONS, DEFAULT_LANES),
{
    let digest = argon2id_digest(
        p,
        salt,
        DEFAULT_MEMORY_KIB,
        DEFAULT_ITERATIONS,
        DEFAULT_LANES,
    )->0;
    let h = HashRecord {
        memory_kib: DEFAULT_MEMORY_KIB,
        iterations: DEFAULT_ITERATIONS,
        lanes: DEFAULT_LANES,
        salt,
        digest,
    };
    stored_form_round_trip(h);
}

/// Whoever presents the password that a stored hash was made from is
/// accepted: for every password and every salt, where hashing gives a
/// stored hash, that stored hash verifies against the password.
pub proof fn hashed_password_verifies(password: Seq<char>, salt: Seq<char>)
    requires
        hashed(password, salt) is Some,
    ensures
        verifies(hashed(password, salt)->0, password),
{
    other_password_needs_the_same_digest(password, password, salt);
}

fn push_param(out: &mut Vec<char>, name: char, value: u32)
    ensures
        final(out)@ == old(out)@ + param_text(name, value),
{
    out.push(name);
    out.push('=');
    push_decimal(out, value as u64);
    assert(out@ =~= old(out)@ + param_text(name, value));
}

fn read_param(field: &Vec<char>, name: char) -> (r: Option<u32>)
    ensures
        r == parse_param(field@, name),
{
    if field.len() >= 2 && field[0] == name && field[1] == '=' {
        let digits = tail_of(field, 2);
        match read_decimal(&digits, 4294967295u64) {
            Some(n) => Some(n as u32),
            None => None,
        }
    } else {
        None
    }
}

impl StoredHash {
    /// Salt and digest are texts that the stored form can carry.
    pub open spec fn wf(&self) -> bool {
        well_formed(self@)
    }

    /// Writes the hash in its stored form.
    pub fn encode(&self) -> (text: String)
        ensures
            text@ == stored_text(self@),
    {
        let mut out: Vec<char> = Vec::new();
        out.push('$');
        append_text(&mut out, "argon2id");
        out.push('$');
        append_text(&mut out, "v=19");
        out.push('$');
        let ghost before = out@;
        push_param(&mut out, 'm', self.memory_kib);
        out.push(',');
        push_param(&mut out, 't', self.iterations);
        out.push(',');
        push_param(&mut out, 'p', self.lanes);
        assert(out@ =~= before + params_text(self@));
        out.push('$');
        let salt = chars_of(self.salt.as_str());
        append_chars(&mut out, &salt);
        out.push('$');
        let digest = chars_of(self.digest.as_str());
        append_chars(&mut out, &digest);
        assert(out@ =~= stored_text(self@));
        string_of(&out)
    }

    /// Reads a stored hash: `Some` exactly for the texts that have the stored
    /// form, with what they hold.
    pub fn parse(text: &str) -> (r: Option<StoredHash>)
        ensures
            match r {
                Some(h) => parse_stored(text@) == Some(h@) && h.wf(),
                None => parse_stored(text@) is None,
            },
    {
        let chars = chars_of(text);
        let parts = split_chars(&chars, '$');
        proof {
            assert(forall|i: int|
                0 <= i < parts.len() ==> (#[trigger] parts@[i])@ == split(text@, '$')[i]) by {
                assert forall|i: int| 0 <= i < parts.len() implies (#[trigger] parts@[i])@
                    == split(text@, '$')[i] by {
                    assert(field_views(parts@)[i] == parts@[i]@);
                }
            }
            assert(parts.len() == split(text@, '$').len());
        }
        if parts.len() != 6 {
            return None;
        }
        if parts[0].len() != 0 {
            return None;
        }
        if !same_text(&parts[1], "argon2id") {
            return None;
        }
        if !same_text(&parts[2], "v=19") {
            return None;
        }
        if !check_b64_text(&parts[4]) {
            return None;
        }
        if !check_b64_text(&parts[5]) {
            return None;
        }
        let params = split_chars(&parts[3], ',');
        proof {
            assert forall|i: int| 0 <= i < params.len() implies (#[trigger] params@[i])@ == split(
                parts@[3]@,
                ',',
            )[i] by {
                assert(field_views(params@)[i] == params@[i]@);
            }
            assert(params.len() == split(parts@[3]@, ',').len());
        }
        if params.len() != 3 {
            return None;
        }
        let m = read_param(&params[0], 'm');
        let t = read_param(&params[1], 't');
        let p = read_param(&params[2], 'p');
        match (m, t, p) {
            (Some(memory_kib), Some(iterations), Some(lanes)) => Some(
                StoredHash {
                    memory_kib,
                    iterations,
                    lanes,
                    salt: string_of(&parts[4]),
                    digest: string_of(&parts[5]),
                },
            ),
            _ => None,
        }
    }
}

/// Whether `r` is how hashing `password` under `salt` ends: with the stored
/// hash, where there is one; else with `InvalidSalt` where the salt is no
/// text that the stored form can carry, and with `Refused` where it is one
/// and Argon2 gives no digest that the stored form can carry.
pub open spec fn hashing_ends(
    password: Seq<char>,
    salt: Seq<char>,
    r: Result<String, PasswordError>,
) -> bool {
    match r {
        Ok(stored) => hashed(password, salt) == Some(stored@),
        Err(e) => hashed(password, salt) is None && (e == PasswordError::InvalidSalt
            <==> !is_b64_text(salt)),
    }
}

/// Hashes `password` under the salt `salt` with the default cost
/// parameters, and gives the stored hash.
///
/// The result is `Ok` exactly where `hashed` gives a stored hash, and is
/// then that stored hash; it verifies against `password`.
pub fn hash_password_with_salt(password: &str, salt: &str) -> (r: Result<String, PasswordError>)
    ensures
        hashing_ends(password@, salt@, r),
        r matches Ok(stored) ==> verifies(stored@, password@),
{
    let salt_chars = chars_of(salt);
    if !check_b64_text(&salt_chars) {
        return Err(PasswordError::InvalidSalt);
    }
    match derive_digest(password, salt, DEFAULT_MEMORY_KIB, DEFAULT_ITERATIONS, DEFAULT_LANES) {
        None => Err(PasswordError::Refused),
        Some(digest) => {
            let digest_chars = chars_of(digest.as_str());
            if !check_b64_text(&digest_chars) {
                return Err(PasswordError::Refused);
            }
            let hash = StoredHash {
                memory_kib: DEFAULT_MEMORY_KIB,
                iterations: DEFAULT_ITERATIONS,
                lanes: DEFAULT_LANES,
                salt: string_of(&salt_chars),
                digest,
            };
            proof {
                hashed_password_verifies(password@, salt@);
            }
            Ok(hash.encode())
        },
    }
}

/// Hashes `password` under a salt drawn afresh from the operating system,
/// with the default cost parameters, and gives the stored hash.
///
/// The salt is 22 characters of the alphabet that the stored form carries,
/// so the salt is never at fault. Whatever salt was drawn, the result is how
/// hashing `password` under that salt ends: with the stored hash of
/// `password` under it, which verifies against `password`, where Argon2
/// derives a digest from the two; and with `Refused` where Argon2 does not.
pub fn hash_password(password: &str) -> (r: Result<String, PasswordError>)
    ensures
        exists|salt: Seq<char>|
            is_b64_text(salt) && salt.len() == 22 && #[trigger] hashing_ends(password@, salt, r),
        r matches Ok(stored) ==> verifies(stored@, password@),
        r matches Err(e) ==> e == PasswordError::Refused,
{
    let salt = fresh_salt();
    let r = hash_password_with_salt(password, salt.as_str());
    assert(hashing_ends(password@, salt@, r));
    r
}

/// Whether `password` is the password of the stored hash `hash_password`.
///
/// A text that is no stored hash verifies against no password; the answer
/// does not tell such a text from a wrong password.
pub fn verify_password(hash_password: &str, password: &str) -> (accepted: bool)
    ensures
        accepted == verifies(hash_password@, password@),
{
    match StoredHash::parse(hash_password) {
        None => false,
        Some(hash) => {
            if hash.lanes > 536870911u32 {
                return false;
            }
            match derive_digest(
                password,
                hash.salt.as_str(),
                hash.memory_kib,
                hash.iterations,
                hash.lanes,
            ) {
                None => false,
                Some(digest) => constant_time_eq(digest.as_str(), hash.digest.as_str()),
            }
        },
    }
}

} // verus!
