use vstd::prelude::*;
use vstd::utf8::decode_utf8;
use vstd::utf8::valid_utf8;

verus! {

/// The reply to a login packet that cannot be read.
pub const LOGIN_ERROR: u8 = 0x02;

/// The request code of a login attempt.
pub const LOGIN_ATTEMPT: u8 = 0x10;

/// The request code of an account creation.
pub const LOGIN_CREATE: u8 = 0x20;

/// The request code of a change of password.
pub const LOGIN_CHANGE_PASSWORD: u8 = 0x30;

/// The status bit of an account in good standing.
pub const ACCOUNT_STATUS_CODE_NORMAL: u32 = 0x01;

/// The status bit of a banned account.
pub const ACCOUNT_STATUS_CODE_BANNED: u32 = 0x02;

/// The length of a login packet: 16 bytes of name, 16 bytes of password and
/// one byte of request code.
pub const LOGIN_PACKET_LEN: usize = 33;

/// `std::str::from_utf8` gives the bytes as a string slice where they are
/// valid UTF-8, and an error where they are not. The characters of the
/// slice are those that the bytes encode.
#[verifier::external_body]
fn utf8_text(bytes: &[u8]) -> (text: Option<&str>)
    ensures
        text is Some <==> valid_utf8(bytes@),
        text matches Some(s) ==> s@ == decode_utf8(bytes@),
{
    match std::str::from_utf8(bytes) {
        Ok(text) => Some(text),
        Err(_) => None,
    }
}

/// What a login packet asks for.
#[derive(Debug, PartialEq, Eq)]
pub struct LoginRequest {
    pub name: String,
    pub password: String,
    pub code: u8,
}

/// The bytes of the name in a login packet.
pub open spec fn name_bytes(packet: Seq<u8>) -> Seq<u8> {
    packet.subrange(0, 16)
}

/// The bytes of the password in a login packet.
pub open spec fn password_bytes(packet: Seq<u8>) -> Seq<u8> {
    packet.subrange(16, 32)
}

/// Whether a login packet can be read: its name and its password are valid
/// UTF-8.
pub open spec fn readable_packet(packet: Seq<u8>) -> bool {
    valid_utf8(name_bytes(packet)) && valid_utf8(password_bytes(packet))
}

/// Takes a login packet apart into name, password and request code. Where
/// the name or the password is not valid UTF-8, the result is the reply to
/// send instead, `LOGIN_ERROR`.
pub fn read_login_packet(buffer: &[u8; 33]) -> (request: Result<LoginRequest, u8>)
    ensures
        request is Ok <==> readable_packet(buffer@),
        request matches Ok(r) ==> r.name@ == decode_utf8(name_bytes(buffer@)) && r.password@
            == decode_utf8(password_bytes(buffer@)) && r.code == buffer@[32],
        request matches Err(reply) ==> reply == LOGIN_ERROR,
{
    let name = utf8_text(&buffer[0..16]);
    let password = utf8_text(&buffer[16..32]);
    let code = buffer[32];
    match (name, password) {
        (Some(name), Some(password)) => Ok(
            LoginRequest { name: name.to_owned(), password: password.to_owned(), code },
        ),
        _ => Err(LOGIN_ERROR),
    }
}

/// Whether an account of this status may log in: its `NORMAL` bit is set.
pub fn account_is_normal(status: u32) -> (normal: bool)
    ensures
        normal == (status & ACCOUNT_STATUS_CODE_NORMAL != 0),
{
    status & ACCOUNT_STATUS_CODE_NORMAL > 0
}

} // verus!
