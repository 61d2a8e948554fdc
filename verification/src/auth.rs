//! The credential check that guards score submissions.
//!
//! The configured secret is a text of tokens parted by whitespace: each
//! token is a run of characters other than whitespace, as long as it can be
//! made. A request is let through when the credential it presents is one of
//! these tokens; the empty credential is none of them.

use vstd::prelude::*;

verus! {

/// Proof that a request presented a valid credential. Only
/// [`authenticate`] makes one.
#[derive(Debug)]
pub struct Authentication {
    checked: (),
}

/// Why a request was turned away.
#[derive(Clone, Copy, Debug, PartialEq, Eq, Structural)]
pub enum LoginError {
    /// The credential is none of the configured tokens.
    BadSecret,
    /// The request presented no credential.
    NoSecret,
}

/// The HTTP status for a request that presented no credential.
pub const UNAUTHORIZED: u16 = 401;

/// The HTTP status for a request whose credential is not accepted.
pub const FORBIDDEN: u16 = 403;

impl LoginError {
    /// The HTTP status that answers a request turned away for this reason.
    pub fn status(&self) -> (code: u16)
        ensures
            code == match *self {
                LoginError::NoSecret => UNAUTHORIZED,
                LoginError::BadSecret => FORBIDDEN,
            },
    {
        match self {
            LoginError::NoSecret => UNAUTHORIZED,
            LoginError::BadSecret => FORBIDDEN,
        }
    }
}

/// The characters that part the tokens of the secret: those that Unicode
/// marks `White_Space`.
pub open spec fn is_whitespace(c: char) -> bool {
    let code = c as u32;
    ||| 0x09 <= code <= 0x0D
    ||| code == 0x20
    ||| code == 0x85
    ||| code == 0xA0
    ||| code == 0x1680
    ||| 0x2000 <= code <= 0x200A
    ||| code == 0x2028
    ||| code == 0x2029
    ||| code == 0x202F
    ||| code == 0x205F
    ||| code == 0x3000
}

/// The characters from `from` up to `to` are a whole piece of `secret`:
/// there is at least one, they hold no whitespace, and whitespace or an end
/// of the text stands on either side.
pub open spec fn is_piece(secret: Seq<char>, from: int, to: int) -> bool {
    &&& 0 <= from < to <= secret.len()
    &&& (from == 0 || is_whitespace(secret[from - 1]))
    &&& (to == secret.len() || is_whitespace(secret[to]))
    &&& forall|k: int| from <= k < to ==> !is_whitespace(#[trigger] secret[k])
}

/// `token` is one of the pieces into which whitespace parts `secret`. No
/// piece is empty, however much whitespace stands in a row or at an end.
pub open spec fn is_token(secret: Seq<char>, token: Seq<char>) -> bool {
    exists|from: int, to: int| #[trigger]
        is_piece(secret, from, to) && secret.subrange(from, to) == token
}

/// The empty credential is no token, whatever the secret.
pub proof fn lemma_empty_is_no_token(secret: Seq<char>)
    ensures
        !is_token(secret, Seq::<char>::empty()),
{
    assert forall|from: int, to: int| #[trigger] is_piece(secret, from, to) implies secret.subrange(
        from,
        to,
    ) != Seq::<char>::empty() by {
        assert(secret.subrange(from, to).len() == to - from);
    }
}

/// Whether `c` parts tokens.
fn parts(c: char) -> (yes: bool)
    ensures
        yes == is_whitespace(c),
{
    let code = c as u32;
    (0x09 <= code && code <= 0x0D) || code == 0x20 || code == 0x85 || code == 0xA0 || code
        == 0x1680 || (0x2000 <= code && code <= 0x200A) || code == 0x2028 || code == 0x2029
        || code == 0x202F || code == 0x205F || code == 0x3000
}

/// The characters of `text`.
fn chars_of(text: &str) -> (chars: Vec<char>)
    ensures
        chars@ == text@,
{
    broadcast use vstd::string::group_string_axioms;

    let mut chars: Vec<char> = Vec::new();
    for c in it: text.chars()
        invariant
            it.seq() == text@,
            chars@ == it.seq().take(it.index()),
    {
        chars.push(c);
    }
    assert(chars@ =~= text@);
    chars
}

/// Whether the characters of `text` from `from` up to `to` are `wanted`.
fn matches_at(text: &Vec<char>, from: usize, to: usize, wanted: &Vec<char>) -> (same: bool)
    requires
        from <= to <= text.len(),
    ensures
        same == (text@.subrange(from as int, to as int) == wanted@),
{
    if to - from != wanted.len() {
        return false;
    }
    let ghost piece = text@.subrange(from as int, to as int);
    let mut k: usize = 0;
    while k < wanted.len()
        invariant
            from <= to <= text.len(),
            to - from == wanted.len(),
            k <= wanted.len(),
            piece == text@.subrange(from as int, to as int),
            forall|m: int| 0 <= m < k ==> piece[m] == wanted@[m],
        decreases wanted.len() - k,
    {
        if text[from + k] != wanted[k] {
            assert(piece[k as int] != wanted@[k as int]);
            return false;
        }
        k += 1;
    }
    assert(piece =~= wanted@);
    true
}

/// Whether `credential` is one of the tokens of `secret`.
pub fn accepts(secret: &str, credential: &str) -> (yes: bool)
    ensures
        yes == is_token(secret@, credential@),
{
    let text = chars_of(secret);
    let wanted = chars_of(credential);
    let mut start: usize = 0;
    let mut at: usize = 0;
    while at < text.len()
        invariant
            start <= at <= text.len(),
            text@ == secret@,
            wanted@ == credential@,
            start == 0 || is_whitespace(text@[start - 1]),
            forall|k: int| start <= k < at ==> !is_whitespace(#[trigger] text@[k]),
            forall|from: int, to: int|
                to < at && #[trigger] is_piece(text@, from, to) ==> text@.subrange(from, to)
                    != wanted@,
        decreases text.len() - at,
    {
        if parts(text[at]) {
            if start < at && matches_at(&text, start, at, &wanted) {
                assert(is_piece(text@, start as int, at as int));
                return true;
            }
            assert forall|from: int, to: int| to < at + 1 && #[trigger] is_piece(
                text@,
                from,
                to,
            ) implies text@.subrange(from, to) != wanted@ by {
                if to == at {
                    lemma_piece_start(text@, start as int, from, to);
                }
            }
            start = at + 1;
        }
        at += 1;
    }
    if start < at && matches_at(&text, start, at, &wanted) {
        assert(is_piece(text@, start as int, at as int));
        return true;
    }
    assert forall|from: int, to: int| #[trigger] is_piece(text@, from, to) implies text@.subrange(
        from,
        to,
    ) != wanted@ by {
        if to == at {
            lemma_piece_start(text@, start as int, from, to);
        }
    }
    false
}

/// A piece that ends at `to` starts where the last whitespace before `to`
/// ends.
proof fn lemma_piece_start(secret: Seq<char>, start: int, from: int, to: int)
    requires
        is_piece(secret, from, to),
        0 <= start <= to,
        start == 0 || is_whitespace(secret[start - 1]),
        forall|k: int| start <= k < to ==> !is_whitespace(#[trigger] secret[k]),
    ensures
        from == start,
{
    if from < start {
        assert(!is_whitespace(secret[start - 1]));
    }
    if start < from {
        assert(!is_whitespace(secret[from - 1]));
    }
}

/// Checks the credential of a request against the configured secret.
///
/// A request without a credential is turned away with
/// [`LoginError::NoSecret`], one whose credential is none of the tokens of
/// `secret` with [`LoginError::BadSecret`]; any other is let through.
pub fn authenticate(credential: Option<&str>, secret: &str) -> (outcome: Result<
    Authentication,
    LoginError,
>)
    ensures
        match credential {
            None => outcome == Err::<Authentication, LoginError>(LoginError::NoSecret),
            Some(presented) => if is_token(secret@, presented@) {
                outcome is Ok
            } else {
                outcome == Err::<Authentication, LoginError>(LoginError::BadSecret)
            },
        },
{
    match credential {
        None => Err(LoginError::NoSecret),
        Some(presented) => if accepts(secret, presented) {
            Ok(Authentication { checked: () })
        } else {
            Err(LoginError::BadSecret)
        },
    }
}

/// How the credential check of a request ended.
#[derive(Debug)]
pub enum Admission {
    /// The credential is one of the configured tokens.
    Granted(Authentication),
    /// The request is turned away.
    Refused(LoginError),
    /// The request presented a credential, and no secret is configured to
    /// hold it against.
    SecretMissing,
}

/// Checks the credential of a request against the secret, where one is
/// configured.
///
/// A request without a credential is turned away with
/// [`LoginError::NoSecret`], whether a secret is configured or not. For a
/// request with a credential a secret must be configured: without one the
/// outcome is [`Admission::SecretMissing`], with one it is what
/// [`authenticate`] says.
pub fn check_credential(credential: Option<&str>, secret: Option<&str>) -> (outcome: Admission)
    ensures
        match credential {
            None => outcome == Admission::Refused(LoginError::NoSecret),
            Some(presented) => match secret {
                None => outcome == Admission::SecretMissing,
                Some(configured) => if is_token(configured@, presented@) {
                    outcome is Granted
                } else {
                    outcome == Admission::Refused(LoginError::BadSecret)
                },
            },
        },
{
    match credential {
        None => Admission::Refused(LoginError::NoSecret),
        Some(_) => match secret {
            None => Admission::SecretMissing,
            Some(configured) => match authenticate(credential, configured) {
                Ok(granted) => Admission::Granted(granted),
                Err(refusal) => Admission::Refused(refusal),
            },
        },
    }
}

} // verus!
