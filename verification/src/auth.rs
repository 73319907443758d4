//! Shared mesh-token protection of the registry routes.

use crate::config::SecuritySection;
use crate::responses::{
    error_reply, is_error_reply, ApiReply, STATUS_INTERNAL_SERVER_ERROR, STATUS_UNAUTHORIZED,
};
use crate::text::{chars_of, copy_str, string_from_chars, trim, trim_bounds, trim_str};
use vstd::prelude::*;

verus! {

/// The text `Bearer ` that starts an authorization header carrying a token.
pub open spec fn bearer_prefix() -> Seq<char> {
    seq!['B', 'e', 'a', 'r', 'e', 'r', ' ']
}

/// The token of an authorization header: what follows `Bearer `, trimmed,
/// when that is not empty.
pub open spec fn bearer_token_of(value: Seq<char>) -> Option<Seq<char>> {
    if bearer_prefix().is_prefix_of(value) && trim(value.skip(7)).len() > 0 {
        Some(trim(value.skip(7)))
    } else {
        None
    }
}

/// A present header value, trimmed, when that is not empty.
pub open spec fn trimmed_nonempty(value: Option<Seq<char>>) -> Option<Seq<char>> {
    match value {
        Some(v) => if trim(v).len() > 0 {
            Some(trim(v))
        } else {
            None
        },
        None => None,
    }
}

/// The token a request presents: the bearer token of its authorization
/// header, else its trimmed `x-mesh-token` header.
pub open spec fn presented_token(authorization: Option<Seq<char>>, token_header: Option<Seq<char>>) -> Option<
    Seq<char>,
> {
    match authorization {
        Some(a) => match bearer_token_of(a) {
            Some(t) => Some(t),
            None => trimmed_nonempty(token_header),
        },
        None => trimmed_nonempty(token_header),
    }
}

/// The model of an optional borrowed text.
pub open spec fn opt_str(o: Option<&str>) -> Option<Seq<char>> {
    match o {
        Some(s) => Some(s@),
        None => None,
    }
}

/// The token the server expects: the configured token, trimmed (empty when none).
pub open spec fn expected_token(security: SecuritySection) -> Seq<char> {
    match security.mesh_token {
        Some(t) => trim(t@),
        None => Seq::empty(),
    }
}

/// The bearer token of an authorization header value.
pub fn bearer_token(value: &str) -> (token: Option<String>)
    ensures
        opt_string(token) == bearer_token_of(value@),
{
    let cs = chars_of(value);
    let prefix = chars_of("Bearer ");
    proof {
        reveal_strlit("Bearer ");
        assert(prefix@ =~= bearer_prefix());
    }
    assert(bearer_prefix().len() == 7);
    if cs.len() < 7 {
        return None;
    }
    let mut i: usize = 0;
    while i < 7
        invariant
            i <= 7 <= cs@.len(),
            cs@ == value@,
            prefix@ == bearer_prefix(),
            forall|k: int| 0 <= k < i ==> cs@[k] == prefix@[k],
        decreases 7 - i,
    {
        if cs[i] != prefix[i] {
            assert(bearer_prefix()[i as int] != value@[i as int]);
            return None;
        }
        i = i + 1;
    }
    assert(bearer_prefix().is_prefix_of(value@));
    let rest = string_from_chars(&cs, 7, cs.len());
    assert(rest@ =~= value@.skip(7));
    let token = trim_str(rest.as_str());
    if token.as_str().is_empty() {
        None
    } else {
        assert(token@.len() != 0);
        Some(token)
    }
}

/// The model of an optional string.
pub open spec fn opt_string(o: Option<String>) -> Option<Seq<char>> {
    match o {
        Some(s) => Some(s@),
        None => None,
    }
}

/// A header value trimmed, when that is not empty.
pub fn trimmed_header(value: Option<&str>) -> (out: Option<String>)
    ensures
        opt_string(out) == trimmed_nonempty(opt_str(value)),
{
    match value {
        Some(v) => {
            let cs = chars_of(v);
            let (lo, hi) = trim_bounds(&cs);
            if lo == hi {
                None
            } else {
                Some(string_from_chars(&cs, lo, hi))
            }
        },
        None => None,
    }
}

/// The token presented by a request, from its authorization header or its
/// `x-mesh-token` header.
pub fn request_mesh_token(authorization: Option<&str>, token_header: Option<&str>) -> (token: Option<
    String,
>)
    ensures
        opt_string(token) == presented_token(opt_str(authorization), opt_str(token_header)),
{
    match authorization {
        Some(a) => match bearer_token(a) {
            Some(t) => Some(t),
            None => trimmed_header(token_header),
        },
        None => trimmed_header(token_header),
    }
}

/// Byte-wise equality that reads every byte of the longer input, whatever
/// the inputs hold.
pub fn constant_time_eq(left: &[u8], right: &[u8]) -> (equal: bool)
    ensures
        equal == (left@ == right@),
{
    let max_len = if left.len() >= right.len() {
        left.len()
    } else {
        right.len()
    };
    let left_len = left.len();
    let right_len = right.len();
    let mut diff: usize = left_len ^ right_len;
    assert(diff == 0 <==> left_len == right_len) by (bit_vector)
        requires
            diff == left_len ^ right_len,
    ;
    let mut index: usize = 0;
    while index < max_len
        invariant
            max_len == if left@.len() >= right@.len() {
                left@.len()
            } else {
                right@.len()
            },
            index <= max_len,
            diff == 0 <==> (left@.len() == right@.len() && forall|k: int|
                0 <= k < index ==> left@[k] == right@[k]),
        decreases max_len - index,
    {
        let left_byte: u8 = if index < left.len() {
            left[index]
        } else {
            0
        };
        let right_byte: u8 = if index < right.len() {
            right[index]
        } else {
            0
        };
        let x: u8 = left_byte ^ right_byte;
        let old_diff = diff;
        diff = diff | (x as usize);
        assert(diff == 0 <==> (old_diff == 0 && left_byte == right_byte)) by (bit_vector)
            requires
                x == left_byte ^ right_byte,
                diff == old_diff | (x as usize),
        ;
        index = index + 1;
    }
    let equal = diff == 0;
    if equal {
        assert(left@ =~= right@);
    }
    equal
}

/// What the mesh-token check decides for a request.
#[derive(Debug)]
pub enum AuthDecision {
    /// Pass the request on.
    Allow,
    /// Answer the request with this reply.
    Deny(ApiReply<()>),
}

/// The decision of the mesh-token check: requests pass when no token is
/// required, or when the presented token equals the configured one; a missing
/// configured token refuses everything.
pub open spec fn auth_decision_spec(
    security: SecuritySection,
    authorization: Option<Seq<char>>,
    token_header: Option<Seq<char>>,
    d: AuthDecision,
) -> bool {
    if !security.require_mesh_token {
        d is Allow
    } else if expected_token(security).len() == 0 {
        d matches AuthDecision::Deny(r) && is_error_reply(
            r,
            STATUS_INTERNAL_SERVER_ERROR,
            "Mesh token is not configured."@,
            "MESH_TOKEN_NOT_CONFIGURED"@,
        )
    } else {
        match presented_token(authorization, token_header) {
            Some(t) => if t == expected_token(security) {
                d is Allow
            } else {
                d matches AuthDecision::Deny(r) && is_error_reply(
                    r,
                    STATUS_UNAUTHORIZED,
                    "Invalid mesh authentication token."@,
                    "INVALID_MESH_TOKEN"@,
                )
            },
            None => d matches AuthDecision::Deny(r) && is_error_reply(
                r,
                STATUS_UNAUTHORIZED,
                "Mesh authentication token is required."@,
                "MESH_TOKEN_REQUIRED"@,
            ),
        }
    }
}

/// Checks a request against the mesh-token policy; tokens are compared as
/// UTF-8 bytes without stopping at the first difference.
pub fn mesh_auth_decision(security: &SecuritySection, authorization: Option<&str>, token_header: Option<
    &str,
>) -> (d: AuthDecision)
    ensures
        auth_decision_spec(*security, opt_str(authorization), opt_str(token_header), d),
{
    if !security.require_mesh_token {
        return AuthDecision::Allow;
    }
    let expected = match &security.mesh_token {
        Some(t) => trim_str(t.as_str()),
        None => String::new(),
    };
    assert(expected@ == expected_token(*security));
    if expected.as_str().is_empty() {
        return AuthDecision::Deny(
            error_reply(
                STATUS_INTERNAL_SERVER_ERROR,
                copy_str("Mesh token is not configured."),
                copy_str("MESH_TOKEN_NOT_CONFIGURED"),
            ),
        );
    }
    assert(expected@.len() != 0);
    match request_mesh_token(authorization, token_header) {
        Some(token) => {
            let equal = constant_time_eq(token.as_str().as_bytes(), expected.as_str().as_bytes());
            proof {
                vstd::utf8::encode_utf8_decode_utf8(token@);
                vstd::utf8::encode_utf8_decode_utf8(expected@);
            }
            if equal {
                AuthDecision::Allow
            } else {
                AuthDecision::Deny(
                    error_reply(
                        STATUS_UNAUTHORIZED,
                        copy_str("Invalid mesh authentication token."),
                        copy_str("INVALID_MESH_TOKEN"),
                    ),
                )
            }
        },
        None => AuthDecision::Deny(
            error_reply(
                STATUS_UNAUTHORIZED,
                copy_str("Mesh authentication token is required."),
                copy_str("MESH_TOKEN_REQUIRED"),
            ),
        ),
    }
}

} // verus!
