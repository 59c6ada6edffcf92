//! Replies of the HTTP endpoints, from the value of the request's `ID`
//! header.

use vstd::prelude::*;
use crate::text::{str_equal, string_of};

verus! {

/// The reply of `POST /user/auth`.
pub open spec fn auth_reply(id_header: Option<Seq<char>>) -> Seq<char> {
    match id_header {
        None => "Failed"@,
        Some(key) => if key == "1234"@ {
            "Xin chao"@ + key
        } else {
            "Cut' lon. xao` me"@
        },
    }
}

/// The reply of `GET /user/cac`.
pub open spec fn index_reply(id_header: Option<Seq<char>>) -> Seq<char> {
    match id_header {
        None => "Failed"@,
        Some(a) => if a == "123"@ {
            a
        } else {
            "Ok"@
        },
    }
}

pub open spec fn opt_view(h: Option<&str>) -> Option<Seq<char>> {
    match h {
        None => None,
        Some(s) => Some(s@),
    }
}

/// `GET /user/cac` echoes the header only when it is exactly "123": every
/// other header is answered "Ok", a missing one "Failed". `POST /user/auth`
/// greets only the key "1234" and refuses every other.
pub proof fn only_exact_headers_are_accepted(h: Seq<char>)
    ensures
        h != "123"@ ==> index_reply(Some(h)) == "Ok"@,
        index_reply(Some("123"@)) == "123"@,
        index_reply(None) == "Failed"@,
        h != "1234"@ ==> auth_reply(Some(h)) == "Cut' lon. xao` me"@,
        auth_reply(Some("1234"@)) == "Xin chao1234"@,
        auth_reply(None) == "Failed"@,
{
    reveal_strlit("Xin chao");
    reveal_strlit("1234");
    reveal_strlit("Xin chao1234");
    assert("Xin chao"@ + "1234"@ =~= "Xin chao1234"@);
}

/// Answers `POST /user/auth`: "Failed" without an `ID` header; a greeting
/// for the key "1234"; a refusal for any other key.
pub fn auth(id_header: Option<&str>) -> (r: String)
    ensures
        r@ == auth_reply(opt_view(id_header)),
{
    match id_header {
        None => string_of("Failed"),
        Some(key) => {
            if str_equal(key, "1234") {
                let mut t = string_of("Xin chao");
                t.append(key);
                t
            } else {
                string_of("Cut' lon. xao` me")
            }
        },
    }
}

/// Answers `GET /user/cac`: "Failed" without an `ID` header; the header
/// itself when it is "123"; "Ok" otherwise.
pub fn index(id_header: Option<&str>) -> (r: String)
    ensures
        r@ == index_reply(opt_view(id_header)),
{
    match id_header {
        None => string_of("Failed"),
        Some(a) => {
            if str_equal(a, "123") {
                string_of(a)
            } else {
                string_of("Ok")
            }
        },
    }
}

} // verus!
