//! The authentication client's interface boundary: the login endpoint URL, the
//! response and error types, and the status-code rule. The HTTP transport and
//! the JSON decoding stay outside the library; the host hands the status code
//! and body text in.

use vstd::prelude::*;

verus! {

/// A successful login response.
#[allow(non_snake_case)]
#[derive(Debug, Clone)]
pub struct LoginResponse {
    pub accessToken: String,
    pub licensed: bool,
}

/// Why a login attempt failed.
#[derive(Debug)]
pub enum AuthError {
    Http(String),
    Status(u16, String),
    Deserialize(String),
    Network(String),
}

/// `s` with every trailing slash removed.
pub open spec fn spec_trim_trailing_slashes(s: Seq<char>) -> Seq<char>
    decreases s.len(),
{
    if s.len() > 0 && s.last() == '/' {
        spec_trim_trailing_slashes(s.drop_last())
    } else {
        s
    }
}

/// The login endpoint under the given base URL: trailing slashes of the base
/// are dropped, then the fixed path is appended.
pub open spec fn spec_login_url(base: Seq<char>) -> Seq<char> {
    spec_trim_trailing_slashes(base) + "/auth/login"@
}

/// Builds the login endpoint URL from the base URL.
pub fn login_url(base_url: &str) -> (r: String)
    ensures
        r@ == spec_login_url(base_url@),
{
    let n = base_url.unicode_len();
    proof {
        assert(base_url@.take(n as int) =~= base_url@);
    }
    let mut end = n;
    while end > 0 && base_url.get_char(end - 1) == '/'
        invariant
            end <= n == base_url@.len(),
            spec_trim_trailing_slashes(base_url@.take(end as int)) == spec_trim_trailing_slashes(
                base_url@,
            ),
        decreases end,
    {
        proof {
            assert(base_url@.take(end as int - 1) =~= base_url@.take(end as int).drop_last());
        }
        end -= 1;
    }
    proof {
        let t = base_url@.take(end as int);
        assert(spec_trim_trailing_slashes(t) == t);
    }
    let mut r = base_url.substring_char(0, end).to_owned();
    r.append("/auth/login");
    r
}

/// Decides whether an HTTP response status grants login: any status in the
/// success class (200–299) does; anything else is reported as a status error
/// carrying the body text.
pub fn check_status(status: u16, body: String) -> (r: Result<(), AuthError>)
    ensures
        (200 <= status < 300) <==> r is Ok,
        !(200 <= status < 300) ==> r == Err::<(), AuthError>(AuthError::Status(status, body)),
{
    if 200 <= status && status < 300 {
        Ok(())
    } else {
        Err(AuthError::Status(status, body))
    }
}

} // verus!
