//! Signed tokens: assembling and signing a JWT from claims.
//!
//! The token is three URL-safe base64 parts joined by dots: a fixed
//! header, the claims as JSON, and a signature over the first two parts.
//! The JSON text and the decimal rendering of the timestamps are built and
//! verified here; only the hash and the base64 encoding are trusted.

use vstd::prelude::*;
use vstd::string::*;
use vstd::utf8::encode_utf8;
use crate::ids::UserId;
use crate::auth::{JwtClaims, AuthError};
use crate::crypto::{sha256, sha256_of, b64_encode_url, b64_url_of, uuid_to_string, uuid_text_of, concat_bytes};
use crate::text::{dec_text, json_escaped, json_escape, u64_text};

verus! {

/// The claims as a JSON object, fields in declaration order.
pub open spec fn claims_json(c: JwtClaims) -> Seq<char> {
    "{\"sub\":\""@ + json_escaped(c.sub@) + "\",\"username\":\""@ + json_escaped(c.username@)
        + "\",\"exp\":"@ + dec_text(c.exp as nat) + ",\"iat\":"@ + dec_text(c.iat as nat) + "}"@
}

/// The complete token text: header, claims and signature, each URL-safe
/// base64, joined by dots; the signature hashes the secret followed by the
/// first two parts.
pub open spec fn jwt_text(c: JwtClaims, secret: Seq<char>) -> Seq<char> {
    let eh = b64_url_of(encode_utf8("{\"alg\":\"HS256\",\"typ\":\"JWT\"}"@));
    let ep = b64_url_of(encode_utf8(claims_json(c)));
    let base = eh + "."@ + ep;
    base + "."@ + b64_url_of(sha256_of(encode_utf8(secret) + encode_utf8(base)))
}

/// Token service: assembles and signs JWTs under a shared secret.
pub struct WasmTokenService {
    pub secret: String,
}

impl WasmTokenService {
    /// A token service signing with this secret.
    pub fn new(secret: String) -> (r: Self)
        ensures
            r.secret == secret,
    {
        WasmTokenService { secret }
    }

    /// Keyed digest: one SHA-256 over the key's bytes followed by the
    /// data's bytes.
    pub fn hmac_sha256(data: &str, key: &str) -> (r: Result<Vec<u8>, AuthError>)
        ensures
            match r {
                Ok(v) => v@ == sha256_of(encode_utf8(key@) + encode_utf8(data@)) && v@.len() == 32,
                Err(_) => false,
            },
    {
        let joined = concat_bytes(key.as_bytes(), data.as_bytes());
        Ok(sha256(joined.as_slice()))
    }

    /// Assemble and sign the token for these claims. Fails only on a
    /// payload too large to encode.
    pub fn generate_jwt_internal(claims: &JwtClaims, secret: &str) -> (r: Result<String, AuthError>)
        ensures
            match r {
                Ok(t) => t@ == jwt_text(*claims, secret@),
                Err(e) => e == AuthError::TokenTooLarge,
            },
            encode_utf8(claims_json(*claims)).len() <= 0x1000_0000 ==> r is Ok,
    {
        let header: &str = "{\"alg\":\"HS256\",\"typ\":\"JWT\"}";
        proof {
            reveal_strlit("{\"alg\":\"HS256\",\"typ\":\"JWT\"}");
            broadcast use vstd::string::is_ascii_spec_bytes;

            assert(header@.len() == 27);
            assert(vstd::string::is_ascii(header));
            assert(header.spec_bytes().len() == 27);
        }
        let eh = b64_encode_url(header.as_bytes());

        let sub_escaped = json_escape(claims.sub.as_str());
        let username_escaped = json_escape(claims.username.as_str());
        let exp_text = u64_text(claims.exp);
        let iat_text = u64_text(claims.iat);
        let mut payload = String::new();
        payload.append("{\"sub\":\"");
        payload.append(sub_escaped.as_str());
        payload.append("\",\"username\":\"");
        payload.append(username_escaped.as_str());
        payload.append("\",\"exp\":");
        payload.append(exp_text.as_str());
        payload.append(",\"iat\":");
        payload.append(iat_text.as_str());
        payload.append("}");
        proof {
            assert(payload@ =~= claims_json(*claims));
        }
        let payload_bytes = payload.as_str().as_bytes();
        if payload_bytes.len() > 0x1000_0000 {
            return Err(AuthError::TokenTooLarge);
        }
        let ep = b64_encode_url(payload_bytes);

        let mut base = String::new();
        base.append(eh.as_str());
        base.append(".");
        base.append(ep.as_str());
        proof {
            reveal_strlit(".");
        }
        let sig_bytes = match Self::hmac_sha256(base.as_str(), secret) {
            Ok(v) => v,
            Err(e) => {
                return Err(e);
            },
        };
        let sig = b64_encode_url(sig_bytes.as_slice());
        let mut token = base;
        token.append(".");
        token.append(sig.as_str());
        proof {
            assert(token@ =~= jwt_text(*claims, secret@));
        }
        Ok(token)
    }

    /// The clock, in whole seconds; negative clock readings count as zero.
    /// Nothing further is promised of the value.
    fn current_timestamp() -> (r: u64)
        ensures
            r <= 9_223_372_036_854_775,
    {
        let m = crate::service::now_millis();
        if m <= 0 {
            0
        } else {
            let q = (m as u64) / 1000;
            proof {
                vstd::arithmetic::div_mod::lemma_div_is_ordered(
                    m as int,
                    0x7fff_ffff_ffff_ffff,
                    1000,
                );
            }
            q
        }
    }

    /// Issue a token for a user, valid for a day from now.
    pub fn generate_token(&self, user_id: UserId, username: &str) -> (r: Result<String, AuthError>)
        ensures
            match r {
                Ok(t) => exists|c: JwtClaims|
                    {
                        &&& (#[trigger] jwt_text(c, self.secret@)) == t@
                        &&& c.sub@ == uuid_text_of(user_id.0)
                        &&& c.username@ == username@
                        &&& c.exp == c.iat + 86400
                    },
                Err(e) => e == AuthError::TokenTooLarge,
            },
    {
        let now = Self::current_timestamp();
        let exp = now + 86400;
        let claims = JwtClaims {
            sub: uuid_to_string(user_id.0),
            username: username.to_owned(),
            exp,
            iat: now,
        };
        let r = Self::generate_jwt_internal(&claims, self.secret.as_str());
        match r {
            Ok(t) => {
                proof {
                    assert(jwt_text(claims, self.secret@) == t@);
                }
                Ok(t)
            },
            Err(e) => Err(e),
        }
    }

    /// Token validation is not offered yet; every call reports so.
    pub fn validate_token(&self, _token: &str) -> (r: Result<JwtClaims, AuthError>)
        ensures
            r is Err,
    {
        Err(AuthError::TokenValidationUnavailable)
    }
}

} // verus!
