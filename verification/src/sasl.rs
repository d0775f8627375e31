//! The message by which SASL PLAIN authenticates.

use crate::text::{after, before, cat, lemma_split_joined};
use vstd::prelude::*;
use vstd::utf8::encode_utf8;

verus! {

/// Whether `c` occurs in Base64 text of the standard alphabet, padding included.
pub open spec fn is_base64_char(c: char) -> bool {
    'A' <= c <= 'Z' || 'a' <= c <= 'z' || '0' <= c <= '9' || c == '+' || c == '/' || c == '='
}

/// How long the Base64 text of `n` bytes is: four characters for every three bytes begun.
pub open spec fn base64_len(n: nat) -> nat {
    4 * ((n + 2) / 3)
}

/// What `base64::engine::general_purpose::STANDARD` encodes `bytes` to.
pub uninterp spec fn base64_text(bytes: Seq<u8>) -> Seq<char>;

/// Calls `base64::Engine::encode` of the engine `base64::engine::general_purpose::STANDARD`.
///
/// Believed of the outside function: its result depends on the bytes alone, has four
/// characters for every three bytes begun, and is made of the characters of the standard
/// alphabet and of the padding character. It is not called where its result would be longer
/// than memory can hold, since it does not return there.
#[verifier::external_body]
fn base64_standard(bytes: &[u8]) -> (text: String)
    requires
        base64_len(bytes@.len()) <= isize::MAX,
    ensures
        text@ == base64_text(bytes@),
        text@.len() == base64_len(bytes@.len()),
        forall|i: int| 0 <= i < text@.len() ==> is_base64_char(#[trigger] text@[i]),
{
    base64::Engine::encode(&base64::engine::general_purpose::STANDARD, bytes)
}

/// The credentials of SASL PLAIN. No identity is given to act as, so they begin with the
/// separator; the account and, behind a second separator, the password follow.
pub open spec fn plain_credentials(account: Seq<char>, password: Seq<char>) -> Seq<char> {
    seq!['\0'] + account + seq!['\0'] + password
}

/// The credentials in the form in which they are sent.
pub open spec fn plain_message(account: Seq<char>, password: Seq<char>) -> Seq<char> {
    base64_text(encode_utf8(plain_credentials(account, password)))
}

/// Whether memory can hold the credentials in the form in which they are sent.
pub open spec fn plain_fits(account: Seq<char>, password: Seq<char>) -> bool {
    base64_len(encode_utf8(plain_credentials(account, password)).len()) <= isize::MAX
}

/// The credentials in the form in which they are sent, where memory can hold them. They
/// are one word: nothing in them can end the parameter that they are sent as.
pub fn sasl_plain(account: &str, password: &str) -> (message: Option<String>)
    ensures
        match message {
            Some(text) => plain_fits(account@, password@) && text@ == plain_message(
                account@,
                password@,
            ) && text@.len() > 0 && forall|i: int|
                0 <= i < text@.len() ==> is_base64_char(#[trigger] text@[i]),
            None => !plain_fits(account@, password@),
        },
{
    proof {
        reveal_strlit("\0");
        assert("\0"@ =~= seq!['\0']);
    }
    let mut credentials = cat("\0", account);
    credentials.append("\0");
    credentials.append(password);
    assert(credentials@ =~= plain_credentials(account@, password@));
    let bytes = credentials.as_str().as_bytes();
    let n: usize = bytes.len();
    let begun: usize = n / 3 + if n % 3 == 0 {
        0
    } else {
        1
    };
    assert(begun == (n + 2) / 3);
    if begun <= isize::MAX as usize / 4 {
        proof {
            vstd::utf8::encode_utf8_first_scalar(credentials@);
        }
        Some(base64_standard(bytes))
    } else {
        None
    }
}

/// The credentials begin with the separator. What follows, split at the first separator, is
/// exactly the account and exactly the password.
pub proof fn law_credentials_give_account_and_password(account: Seq<char>, password: Seq<char>)
    requires
        !account.contains('\0'),
    ensures
        ({
            let credentials = plain_credentials(account, password);
            &&& credentials.len() == account.len() + password.len() + 2
            &&& credentials[0] == '\0'
            &&& before(credentials.skip(1), '\0') == account
            &&& after(credentials.skip(1), '\0') == password
        }),
{
    let credentials = plain_credentials(account, password);
    assert(credentials.skip(1) =~= account + seq!['\0'] + password);
    lemma_split_joined(account, '\0', password);
}

/// Every character of the account and of the password stands in the credentials, in its place
/// and as it is.
pub proof fn law_credentials_change_no_character(account: Seq<char>, password: Seq<char>, i: int)
    ensures
        plain_credentials(account, password).len() == account.len() + password.len() + 2,
        0 <= i < account.len() ==> plain_credentials(account, password)[i + 1] == account[i],
        plain_credentials(account, password)[account.len() as int + 1] == '\0',
        0 <= i < password.len() ==> plain_credentials(account, password)[account.len() + 2 + i]
            == password[i],
{
}

/// What is sent is the Base64 text of the UTF-8 bytes of the credentials and of nothing else,
/// wherever memory can hold it.
pub proof fn law_credentials_are_encoded_whole(account: Seq<char>, password: Seq<char>)
    ensures
        ({
            let bytes = encode_utf8(seq!['\0'] + account + seq!['\0'] + password);
            &&& plain_message(account, password) == base64_text(bytes)
            &&& plain_fits(account, password) <==> 4 * ((bytes.len() + 2) / 3) <= isize::MAX
        }),
{
}

} // verus!
