//! The password that guards a server on the network.

use argon2::{PasswordHasher, PasswordVerifier};
use vstd::prelude::*;
use vstd::string::*;
use vstd::utf8::*;

use crate::app::App;
use crate::error;
use crate::error::{other, Error, Failure};
use crate::ident;
use crate::text;

verus! {

/// What Argon2 makes of a password and a salt, or why it makes nothing of them.
pub uninterp spec fn argon2_hash(password: Seq<char>, salt: Seq<u8>) -> Result<
    Seq<char>,
    Seq<char>,
>;

/// A hash is one that Argon2 made of the password.
pub uninterp spec fn argon2_accepts(password: Seq<char>, hash: Seq<char>) -> bool;

/// Hashes with `hash_password` of `argon2::Argon2::default`, with a salt that
/// `argon2::password_hash::SaltString::encode_b64` writes down. The result is named.
/// There is a hash for every password but those of more bytes than a `u32` counts.
/// It is a text in the PHC format, which begins with `$` and holds no white space,
/// and `verify_password` accepts the password for it. A machine without the memory
/// that hashing takes ends the program.
#[verifier::external_body]
fn hash_with(password: &str, salt: &[u8; 16]) -> (result: Result<String, String>)
    ensures
        match (argon2_hash(password@, salt@), result) {
            (Ok(hash), Ok(made)) => made@ == hash,
            (Err(reason), Err(message)) => message@ == reason,
            _ => false,
        },
        result is Ok <==> encode_utf8(password@).len() <= u32::MAX,
        result matches Ok(hash) ==> {
            &&& argon2_accepts(password@, hash@)
            &&& hash@.len() > 0
            &&& forall|i: int| 0 <= i < hash@.len() ==> !text::is_whitespace(#[trigger] hash@[i])
        },
{
    let salt = argon2::password_hash::SaltString::encode_b64(salt)
        .map_err(|error| error.to_string())?;
    argon2::Argon2::default()
        .hash_password(password.as_bytes(), &salt)
        .map(|hash| hash.to_string())
        .map_err(|error| error.to_string())
}

/// Reads a hash with `argon2::PasswordHash::new` and checks a password with
/// `verify_password` of `argon2::Argon2::default`. The answer is named; a text that
/// is no hash is accepted for no password. A hash says how much memory the check
/// takes, and one that asks for more than there is ends the program.
#[verifier::external_body]
fn accepts(password: &str, hash: &str) -> (answer: bool)
    ensures
        answer == argon2_accepts(password@, hash@),
{
    argon2::PasswordHash::new(hash).is_ok_and(
        |parsed| argon2::Argon2::default().verify_password(password.as_bytes(), &parsed).is_ok(),
    )
}

/// The hash in a password file: what stands in it without the white space around,
/// if there is anything.
pub open spec fn stored_hash(contents: Option<Seq<char>>) -> Option<Seq<char>> {
    match contents {
        Some(contents) => if text::trim(contents).len() == 0 {
            None
        } else {
            Some(text::trim(contents))
        },
        None => None,
    }
}

/// What a password file is to hold.
pub open spec fn password_file(hashed: Result<Seq<char>, Seq<char>>) -> Result<
    Seq<char>,
    Failure,
> {
    match hashed {
        Ok(hash) => Ok(hash + "\n"@),
        Err(reason) => Err(Failure::Other("failed to hash password: "@ + reason)),
    }
}

/// What a password file is to hold.
pub fn password_contents(hashed: Result<String, String>) -> (result: Result<String, Error>)
    ensures
        error::viewed(result) == password_file(
            match hashed {
                Ok(hash) => Ok(hash@),
                Err(reason) => Err(reason@),
            },
        ),
{
    match hashed {
        Ok(hash) => Ok(text::concat2(hash.as_str(), "\n")),
        Err(reason) => Err(other(text::concat2("failed to hash password: ", reason.as_str()))),
    }
}

/// The hash in a password file: `contents` is what the file holds, if there is
/// one.
pub fn read_password_hash(contents: Option<&str>) -> (hash: Option<String>)
    ensures
        text::optional(hash) == stored_hash(text::optional_str(contents)),
{
    match contents {
        Some(contents) => {
            let hash = text::trimmed(contents);
            if text::chars_of(hash.as_str()).len() == 0 {
                None
            } else {
                Some(hash)
            }
        },
        None => None,
    }
}

/// Whether a password is the one that a hash was made of.
pub fn verify_password(password: &str, hash: &str) -> (answer: bool)
    ensures
        answer == argon2_accepts(password@, hash@),
{
    accepts(password, hash)
}

/// A password that was typed twice alike.
pub fn confirm_password(first: &str, second: &str) -> (result: Result<(), Error>)
    ensures
        error::done(result) == if first@ == second@ {
            Ok(())
        } else {
            Err(Failure::Other("passwords do not match"@))
        },
{
    if text::same(first, second) {
        Ok(())
    } else {
        Err(other("passwords do not match".to_owned()))
    }
}

impl App {
    /// Whether a password is set: `contents` is what the password file holds, if
    /// there is one.
    pub fn has_password(&self, contents: Option<&str>) -> (answer: bool)
        ensures
            answer == (stored_hash(text::optional_str(contents)) is Some),
    {
        read_password_hash(contents).is_some()
    }

    /// What the password file is to hold for a password. It is what
    /// [`read_password_hash`] reads the hash from, and the password is accepted for
    /// that hash.
    pub fn set_password(&self, password: &str) -> (result: Result<String, Error>)
        ensures
            password@.len() == 0 ==> error::viewed(result) == Err::<Seq<char>, Failure>(
                Failure::Other("password must not be empty"@),
            ),
            password@.len() > 0 ==> exists|salt: Seq<u8>|
                salt.len() == 16 && error::viewed(result) == password_file(
                    #[trigger] argon2_hash(password@, salt),
                ),
            result is Ok <==> 0 < encode_utf8(password@).len() <= u32::MAX,
            result matches Ok(contents) ==> {
                &&& stored_hash(Some(contents@)) matches Some(hash)
                &&& argon2_accepts(password@, hash)
            },
    {
        if text::chars_of(password).len() == 0 {
            assert(encode_utf8(password@).len() == 0);
            return Err(other("password must not be empty".to_owned()));
        }
        let salt: [u8; 16] = ident::random_bytes();
        let hashed = hash_with(password, &salt);
        assert(salt@.len() == 16);
        proof {
            if hashed is Ok {
                hash_is_read_back(hashed->Ok_0@);
            }
        }
        password_contents(hashed)
    }
}

/// A hash without white space is read back from the file that it was written to.
pub proof fn hash_is_read_back(hash: Seq<char>)
    requires
        hash.len() > 0,
        forall|i: int| 0 <= i < hash.len() ==> !text::is_whitespace(#[trigger] hash[i]),
    ensures
        stored_hash(Some(hash + "\n"@)) == Some(hash),
{
    reveal_strlit("\n");
    let contents = hash + "\n"@;
    assert(!text::is_whitespace(contents[0]));
    assert(text::trim_start(contents) == contents);
    assert(contents.last() == '\n');
    assert(contents.drop_last() =~= hash);
    assert(text::trim_end(hash) == hash);
    assert(text::trim_end(contents) == text::trim_end(hash));
}

} // verus!
