//! Signed, time-bounded bearer tokens.
//!
//! A token is six fields joined by `.`:
//!
//! ```text
//! HS256.<user id>.<0 or 1>.<issued at>.<expires at>.<signature>
//! ```
//!
//! The numbers are canonical decimals, the times in seconds. The signature
//! is the HMAC-SHA-256 tag, in lower-case hexadecimal, of everything before
//! the last `.` under the service's secret. Every character is safe in a
//! URL.

use crate::primitives::{authentication_tag, constant_time_eq, hmac_sha256};
use crate::response::AuthError;
use crate::text::{
    append_chars, append_text, chars_of, decimal, field_views, head_of, hex_encode, hex_text,
    is_digit, join, lemma_absent, lemma_canonical_decimal_unique, lemma_decimal_digits,
    lemma_decimal_free, lemma_decimal_round_trip,
    lemma_hex_text_has_no_dot, lemma_hex_text_injective, lemma_join_push, lemma_join_split,
    lemma_signed_decimal_free, lemma_signed_decimal_round_trip, lemma_signed_decimal_unique,
    lemma_split_extend, lemma_split_peel, lemma_split_single, parse_decimal_up_to,
    parse_signed_decimal, push_decimal, push_signed_decimal, read_decimal, read_signed_decimal,
    same_text, signed_decimal, split, split_chars, string_of,
};
use vstd::prelude::*;

verus! {

/// Seconds from the issue of a token to its expiry: one day.
pub const TOKEN_LIFETIME: u64 = 86400;

/// Who a token speaks for, and for how long.
#[derive(Clone, Copy, Debug, PartialEq, Eq, Structural)]
pub struct Claims {
    /// The user's id.
    pub id: i32,
    /// Whether the user is an administrator.
    pub is_admin: bool,
    /// When the token was issued, in seconds.
    pub iat: u64,
    /// The first second at which the token is no longer valid.
    pub exp: u64,
}

/// Why a token is refused. This is for the service's own records: callers
/// are told `AuthError::InvalidCredentials` and no more.
#[derive(Clone, Copy, Debug, PartialEq, Eq, Structural)]
pub enum TokenFault {
    /// The text has not the form of a token.
    Malformed,
    /// The signature is not the one that the secret gives.
    BadSignature,
    /// The token is well signed, and its time is over.
    Expired,
}

/// The text of the administrator flag.
pub open spec fn flag_text(flag: bool) -> Seq<char> {
    if flag {
        seq!['1']
    } else {
        seq!['0']
    }
}

/// The flag that a field states.
pub open spec fn parse_flag(field: Seq<char>) -> Option<bool> {
    if field == seq!['1'] {
        Some(true)
    } else if field == seq!['0'] {
        Some(false)
    } else {
        None
    }
}

/// The tag of `message` under `key`, taken as the 32 bytes that
/// HMAC-SHA-256 gives.
pub open spec fn tag_of(key: Seq<u8>, message: Seq<char>) -> Seq<u8> {
    let tag = hmac_sha256(key, message);
    Seq::new(
        32,
        |i: int|
            if i < tag.len() {
                tag[i]
            } else {
                0u8
            },
    )
}

/// What is signed: the algorithm's name and the four claims.
pub open spec fn claims_text(c: Claims) -> Seq<char> {
    "HS256"@ + seq!['.'] + signed_decimal(c.id as int) + seq!['.'] + flag_text(c.is_admin) + seq![
        '.',
    ] + decimal(c.iat as nat) + seq!['.'] + decimal(c.exp as nat)
}

/// The token that states `c` under the secret `key`.
pub open spec fn token_text(key: Seq<u8>, c: Claims) -> Seq<char> {
    claims_text(c) + seq!['.'] + hex_text(tag_of(key, claims_text(c)))
}

/// The claims that the first five fields of a token state.
pub open spec fn parse_claims(fields: Seq<Seq<char>>) -> Option<Claims> {
    if fields.len() == 5 && fields[0] == "HS256"@ {
        match (
            parse_signed_decimal(fields[1]),
            parse_flag(fields[2]),
            parse_decimal_up_to(fields[3], u64::MAX as nat),
            parse_decimal_up_to(fields[4], u64::MAX as nat),
        ) {
            (Some(id), Some(is_admin), Some(iat), Some(exp)) => if i32::MIN <= id <= i32::MAX {
                Some(Claims { id: id as i32, is_admin, iat: iat as u64, exp: exp as u64 })
            } else {
                None
            },
            _ => None,
        }
    } else {
        None
    }
}

/// The part of a token that its signature covers: all that stands before
/// the `.` that precedes the last field.
pub open spec fn signed_part(token: Seq<char>) -> Seq<char> {
    token.take(token.len() - split(token, '.').last().len() - 1)
}

/// What becomes of a token presented at the time `now` to a service whose
/// secret is `key`. The signature is looked at first: a text whose last
/// field is not the tag of what precedes it has a bad signature, whatever
/// else it holds. Then the claims are read, and last the time is held
/// against the expiry.
pub open spec fn inspected(key: Seq<u8>, token: Seq<char>, now: u64) -> Result<Claims, TokenFault> {
    let parts = split(token, '.');
    if parts.len() != 6 {
        Err(TokenFault::Malformed)
    } else if parts[5] != hex_text(tag_of(key, signed_part(token))) {
        Err(TokenFault::BadSignature)
    } else {
        match parse_claims(parts.take(5)) {
            None => Err(TokenFault::Malformed),
            Some(c) => if now < c.exp {
                Ok(c)
            } else {
                Err(TokenFault::Expired)
            },
        }
    }
}

/// What a caller learns of a token: the claims, or that it is not accepted.
pub open spec fn verified(key: Seq<u8>, token: Seq<char>, now: u64) -> Result<Claims, AuthError> {
    match inspected(key, token, now) {
        Ok(c) => Ok(c),
        Err(_) => Err(AuthError::InvalidCredentials),
    }
}

proof fn lemma_claims_fields(c: Claims)
    ensures
        split(claims_text(c), '.') == seq![
            "HS256"@,
            signed_decimal(c.id as int),
            flag_text(c.is_admin),
            decimal(c.iat as nat),
            decimal(c.exp as nat),
        ],
        parse_claims(split(claims_text(c), '.')) == Some(c),
{
    let name = "HS256"@;
    let id = signed_decimal(c.id as int);
    let flag = flag_text(c.is_admin);
    let iat = decimal(c.iat as nat);
    let exp = decimal(c.exp as nat);
    let d = seq!['.'];
    reveal_strlit("HS256");
    lemma_absent(name, '.');
    lemma_signed_decimal_free(c.id as int, '.');
    lemma_absent(flag, '.');
    lemma_decimal_free(c.iat as nat, '.');
    lemma_decimal_free(c.exp as nat, '.');
    lemma_split_single(name, '.');
    lemma_split_extend(name, id, '.');
    lemma_split_extend(name + d + id, flag, '.');
    lemma_split_extend(name + d + id + d + flag, iat, '.');
    lemma_split_extend(name + d + id + d + flag + d + iat, exp, '.');
    let fields = split(claims_text(c), '.');
    assert(fields == seq![name].push(id).push(flag).push(iat).push(exp));
    assert(fields == seq![name, id, flag, iat, exp]);
    lemma_signed_decimal_round_trip(c.id as int);
    lemma_decimal_round_trip(c.iat as nat);
    lemma_decimal_round_trip(c.exp as nat);
    assert(fields[0] == name);
    assert(fields[1] == id);
    assert(fields[2] == flag);
    assert(fields[3] == iat);
    assert(fields[4] == exp);
    assert(parse_flag(flag) == Some(c.is_admin)) by {
        assert(seq!['1'][0] != seq!['0'][0]);
    }
}

proof fn lemma_token_fields(key: Seq<u8>, c: Claims)
    ensures
        split(token_text(key, c), '.').len() == 6,
        split(token_text(key, c), '.').take(5) == split(claims_text(c), '.'),
        split(token_text(key, c), '.')[5] == hex_text(tag_of(key, claims_text(c))),
        signed_part(token_text(key, c)) == claims_text(c),
{
    let signature = hex_text(tag_of(key, claims_text(c)));
    let token = token_text(key, c);
    lemma_claims_fields(c);
    lemma_hex_text_has_no_dot(tag_of(key, claims_text(c)));
    lemma_split_extend(claims_text(c), signature, '.');
    let parts = split(token, '.');
    assert(parts == split(claims_text(c), '.').push(signature));
    assert(parts.take(5) == split(claims_text(c), '.'));
    assert(parts.last() == signature);
    assert(token.take(token.len() - signature.len() - 1) == claims_text(c));
}

/// A token is accepted with the claims that it was issued for until it
/// expires, and refused from then on: for every secret, all claims and
/// every time, the token that states `c` is read as `c` while `now` is
/// before `c.exp`, and is found expired otherwise.
pub proof fn issued_token_verifies_until_expiry(key: Seq<u8>, c: Claims, now: u64)
    ensures
        now < c.exp ==> inspected(key, token_text(key, c), now) == Ok::<Claims, TokenFault>(c),
        now < c.exp ==> verified(key, token_text(key, c), now) == Ok::<Claims, AuthError>(c),
        now >= c.exp ==> inspected(key, token_text(key, c), now) == Err::<Claims, TokenFault>(
            TokenFault::Expired,
        ),
        now >= c.exp ==> verified(key, token_text(key, c), now) == Err::<Claims, AuthError>(
            AuthError::InvalidCredentials,
        ),
{
    lemma_claims_fields(c);
    lemma_token_fields(key, c);
}

/// Only what `sign` writes is well signed: a text whose signature holds and
/// whose claims can be read, be it expired or not, is the token that states
/// those claims.
pub proof fn well_signed_token_is_the_issued_one(key: Seq<u8>, token: Seq<char>, now: u64)
    requires
        inspected(key, token, now) is Ok || inspected(key, token, now) == Err::<
            Claims,
            TokenFault,
        >(TokenFault::Expired),
    ensures
        split(token, '.').len() == 6,
        parse_claims(split(token, '.').take(5)) is Some,
        token == token_text(key, parse_claims(split(token, '.').take(5))->0),
{
    let parts = split(token, '.');
    let fields = parts.take(5);
    let c = parse_claims(fields)->0;
    lemma_split_peel(token, '.');
    let head = signed_part(token);
    assert(parts.drop_last() == fields);
    assert(split(head, '.') == fields);
    lemma_join_split(head, '.');
    let one = seq![fields[0]];
    let two = one.push(fields[1]);
    let three = two.push(fields[2]);
    let four = three.push(fields[3]);
    assert(fields == four.push(fields[4]));
    assert(join(one, '.') == fields[0]);
    lemma_join_push(one, fields[1], '.');
    lemma_join_push(two, fields[2], '.');
    lemma_join_push(three, fields[3], '.');
    lemma_join_push(four, fields[4], '.');
    lemma_signed_decimal_unique(fields[1]);
    lemma_canonical_decimal_unique(fields[3]);
    lemma_canonical_decimal_unique(fields[4]);
    assert(head == claims_text(c));
}

/// A character that needs no escaping in a URL: a letter, a digit, `-`,
/// `.`, `_` or `~`.
pub open spec fn is_url_safe(c: char) -> bool {
    ('A' <= c && c <= 'Z') || ('a' <= c && c <= 'z') || ('0' <= c && c <= '9') || c == '-' || c
        == '.' || c == '_' || c == '~'
}

/// A token can stand in a URL as it is: for every secret and all claims,
/// each character of the token that states the claims is a letter, a digit,
/// `-` or `.`.
pub proof fn token_is_url_safe(key: Seq<u8>, c: Claims)
    ensures
        forall|i: int|
            0 <= i < token_text(key, c).len() ==> is_url_safe(#[trigger] token_text(key, c)[i]),
{
    let name = "HS256"@;
    let id = signed_decimal(c.id as int);
    let flag = flag_text(c.is_admin);
    let iat = decimal(c.iat as nat);
    let exp = decimal(c.exp as nat);
    let signature = hex_text(tag_of(key, claims_text(c)));
    let token = token_text(key, c);
    reveal_strlit("HS256");
    lemma_decimal_digits(c.iat as nat);
    lemma_decimal_digits(c.exp as nat);
    assert forall|i: int| 0 <= i < name.len() implies is_url_safe(#[trigger] name[i]) by {}
    assert forall|i: int| 0 <= i < id.len() implies is_url_safe(#[trigger] id[i]) by {
        if c.id < 0 {
            let digits = decimal((-(c.id as int)) as nat);
            lemma_decimal_digits((-(c.id as int)) as nat);
            if i >= 1 {
                assert(id[i] == digits[i - 1]);
                assert(is_digit(digits[i - 1]));
            }
        } else {
            lemma_decimal_digits(c.id as nat);
            assert(is_digit(id[i]));
        }
    }
    assert forall|i: int| 0 <= i < iat.len() implies is_url_safe(#[trigger] iat[i]) by {
        assert(is_digit(iat[i]));
    }
    assert forall|i: int| 0 <= i < exp.len() implies is_url_safe(#[trigger] exp[i]) by {
        assert(is_digit(exp[i]));
    }
    assert forall|i: int| 0 <= i < signature.len() implies is_url_safe(
        #[trigger] signature[i],
    ) by {}
    let a = name.len();
    let b = a + 1 + id.len();
    let d = b + 1 + flag.len();
    let e = d + 1 + iat.len();
    let f = e + 1 + exp.len();
    assert(token.len() == f + 1 + signature.len());
    assert forall|i: int| 0 <= i < token.len() implies is_url_safe(#[trigger] token[i]) by {
        if i < a {
            assert(token[i] == name[i]);
        } else if i == a {
        } else if i < b {
            assert(token[i] == id[i - a - 1]);
        } else if i == b {
        } else if i < d {
            assert(token[i] == flag[i - b - 1]);
        } else if i == d {
        } else if i < e {
            assert(token[i] == iat[i - d - 1]);
        } else if i == e {
        } else if i < f {
            assert(token[i] == exp[i - e - 1]);
        } else if i == f {
        } else {
            assert(token[i] == signature[i - f - 1]);
        }
    }
}

proof fn lemma_accepted_frame(key: Seq<u8>, token: Seq<char>, now: u64)
    requires
        inspected(key, token, now) is Ok,
    ensures
        token.len() >= 65,
        signed_part(token) == token.take(token.len() - 65),
        token[token.len() - 65] == '.',
        token.skip(token.len() - 64) == hex_text(tag_of(key, signed_part(token))),
{
    let parts = split(token, '.');
    lemma_split_peel(token, '.');
    let signature = parts.last();
    assert(signature == parts[5]);
    assert(signature.len() == 64);
    let head = token.take(token.len() - 65);
    assert(token == head + seq!['.'] + signature);
    assert(token[token.len() - 65] == '.');
    assert(token.skip(token.len() - 64) == signature);
}

/// A token that is accepted stays accepted under no change of a single
/// character: where `altered` differs from an accepted `token` at exactly
/// the position `at`, `altered` is refused. A change in the signed part is
/// caught by the tag, unless the changed text has the very tag of the text
/// it was made from; the tag is taken from another crate, and that it tells
/// the two texts apart is the one thing asked here.
pub proof fn altered_token_is_refused(
    key: Seq<u8>,
    token: Seq<char>,
    altered: Seq<char>,
    at: int,
    now: u64,
)
    requires
        inspected(key, token, now) is Ok,
        altered.len() == token.len(),
        0 <= at < token.len(),
        altered[at] != token[at],
        forall|j: int| 0 <= j < token.len() && j != at ==> altered[j] == token[j],
        at < token.len() - 65 ==> tag_of(key, altered.take(token.len() - 65)) != tag_of(
            key,
            token.take(token.len() - 65),
        ),
    ensures
        inspected(key, altered, now) is Err,
{
    lemma_accepted_frame(key, token, now);
    if inspected(key, altered, now) is Ok {
        lemma_accepted_frame(key, altered, now);
        let n = token.len();
        let cut = n - 65;
        let sig = token.skip(n - 64);
        let sig2 = altered.skip(n - 64);
        if at < cut {
            assert(sig =~= sig2) by {
                assert forall|k: int| 0 <= k < 64 implies sig[k] == sig2[k] by {
                    assert(sig[k] == token[n - 64 + k]);
                    assert(sig2[k] == altered[n - 64 + k]);
                }
            }
            lemma_hex_text_injective(
                tag_of(key, signed_part(token)),
                tag_of(key, signed_part(altered)),
            );
        } else if at == cut {
        } else {
            assert(token.take(cut) =~= altered.take(cut));
            assert(sig == sig2);
            assert(sig[at - (n - 64)] == token[at]);
            assert(sig2[at - (n - 64)] == altered[at]);
        }
    }
}

impl Claims {
    /// The claims of a token issued at `now` to the user `id`: it expires
    /// `TOKEN_LIFETIME` seconds later. `None` where that time cannot be
    /// written in 64 bits.
    pub fn new(id: i32, is_admin: bool, now: u64) -> (r: Option<Claims>)
        ensures
            match r {
                Some(c) => now + TOKEN_LIFETIME <= u64::MAX && c == (Claims {
                    id,
                    is_admin,
                    iat: now,
                    exp: (now + TOKEN_LIFETIME) as u64,
                }),
                None => now + TOKEN_LIFETIME > u64::MAX,
            },
    {
        match now.checked_add(TOKEN_LIFETIME) {
            Some(exp) => Some(Claims { id, is_admin, iat: now, exp }),
            None => None,
        }
    }
}

fn push_claims(out: &mut Vec<char>, c: &Claims)
    ensures
        final(out)@ == old(out)@ + claims_text(*c),
{
    append_text(out, "HS256");
    out.push('.');
    push_signed_decimal(out, c.id);
    out.push('.');
    if c.is_admin {
        out.push('1');
    } else {
        out.push('0');
    }
    out.push('.');
    push_decimal(out, c.iat);
    out.push('.');
    push_decimal(out, c.exp);
    assert(out@ =~= old(out)@ + claims_text(*c));
}

fn read_flag(field: &Vec<char>) -> (r: Option<bool>)
    ensures
        r == parse_flag(field@),
{
    if field.len() == 1 && field[0] == '1' {
        assert(field@ =~= seq!['1']);
        Some(true)
    } else if field.len() == 1 && field[0] == '0' {
        assert(field@ =~= seq!['0']);
        assert(seq!['1'][0] != field@[0]);
        Some(false)
    } else {
        proof {
            if field@ == seq!['1'] {
                assert(field@[0] == '1');
            }
            if field@ == seq!['0'] {
                assert(field@[0] == '0');
            }
        }
        None
    }
}

fn read_claims(parts: &Vec<Vec<char>>) -> (r: Option<Claims>)
    requires
        parts.len() == 6,
    ensures
        r == parse_claims(field_views(parts@).take(5)),
{
    let ghost fields = field_views(parts@).take(5);
    proof {
        assert(fields.len() == 5);
        assert(fields[0] == parts@[0]@);
        assert(fields[1] == parts@[1]@);
        assert(fields[2] == parts@[2]@);
        assert(fields[3] == parts@[3]@);
        assert(fields[4] == parts@[4]@);
    }
    if !same_text(&parts[0], "HS256") {
        return None;
    }
    let id = read_signed_decimal(&parts[1]);
    let is_admin = read_flag(&parts[2]);
    let iat = read_decimal(&parts[3], u64::MAX);
    let exp = read_decimal(&parts[4], u64::MAX);
    match (id, is_admin, iat, exp) {
        (Some(id), Some(is_admin), Some(iat), Some(exp)) => Some(
            Claims { id, is_admin, iat, exp },
        ),
        _ => None,
    }
}

/// Issues and verifies tokens under one secret, which it is made with and
/// keeps unchanged.
pub struct TokenService {
    secret: Vec<u8>,
}

impl TokenService {
    /// The secret that signs the tokens.
    pub closed spec fn key(&self) -> Seq<u8> {
        self.secret@
    }

    /// A service that signs with `secret`.
    pub fn new(secret: Vec<u8>) -> (service: TokenService)
        ensures
            service.key() == secret@,
    {
        TokenService { secret }
    }

    /// The token that states `claims`.
    pub fn sign(&self, claims: &Claims) -> (token: String)
        ensures
            token@ == token_text(self.key(), *claims),
    {
        let mut out: Vec<char> = Vec::new();
        push_claims(&mut out, claims);
        assert(out@ == claims_text(*claims));
        let signed = string_of(&out);
        let tag = authentication_tag(self.secret.as_slice(), signed.as_str());
        assert(tag@ =~= tag_of(self.key(), signed@));
        let signature = hex_encode(&tag);
        out.push('.');
        append_chars(&mut out, &signature);
        assert(out@ =~= token_text(self.key(), *claims));
        string_of(&out)
    }

    /// Issues a token at the time `now` to the user `user_id`; it expires
    /// `TOKEN_LIFETIME` seconds later. `None` where that time cannot be
    /// written in 64 bits.
    pub fn issue(&self, user_id: i32, is_admin: bool, now: u64) -> (token: Option<String>)
        ensures
            match token {
                Some(t) => now + TOKEN_LIFETIME <= u64::MAX && t@ == token_text(
                    self.key(),
                    Claims {
                        id: user_id,
                        is_admin,
                        iat: now,
                        exp: (now + TOKEN_LIFETIME) as u64,
                    },
                ),
                None => now + TOKEN_LIFETIME > u64::MAX,
            },
    {
        match Claims::new(user_id, is_admin, now) {
            Some(claims) => Some(self.sign(&claims)),
            None => None,
        }
    }

    /// Reads a token presented at the time `now`: its claims, or the reason
    /// for which it is refused.
    pub fn inspect(&self, token: &str, now: u64) -> (r: Result<Claims, TokenFault>)
        ensures
            r == inspected(self.key(), token@, now),
    {
        let chars = chars_of(token);
        let parts = split_chars(&chars, '.');
        if parts.len() != 6 {
            assert(split(token@, '.').len() == parts.len());
            return Err(TokenFault::Malformed);
        }
        proof {
            assert(split(token@, '.').len() == 6);
            lemma_split_peel(token@, '.');
            assert(field_views(parts@)[5] == parts@[5]@);
            assert(split(token@, '.').last() == parts@[5]@);
        }
        let covered = head_of(&chars, chars.len() - parts[5].len() - 1);
        assert(covered@ == signed_part(token@));
        let signed = string_of(&covered);
        let tag = authentication_tag(self.secret.as_slice(), signed.as_str());
        assert(tag@ =~= tag_of(self.key(), signed@));
        let expected = string_of(&hex_encode(&tag));
        let presented = string_of(&parts[5]);
        if !constant_time_eq(presented.as_str(), expected.as_str()) {
            return Err(TokenFault::BadSignature);
        }
        match read_claims(&parts) {
            None => Err(TokenFault::Malformed),
            Some(claims) => {
                if now < claims.exp {
                    Ok(claims)
                } else {
                    Err(TokenFault::Expired)
                }
            },
        }
    }

    /// Verifies a token presented at the time `now`: its claims where it is
    /// well signed and not expired, and `InvalidCredentials` otherwise,
    /// whatever the reason.
    pub fn verify(&self, token: &str, now: u64) -> (r: Result<Claims, AuthError>)
        ensures
            r == verified(self.key(), token@, now),
    {
        match self.inspect(token, now) {
            Ok(claims) => Ok(claims),
            Err(_) => Err(AuthError::InvalidCredentials),
        }
    }
}

} // verus!
