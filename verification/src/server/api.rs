//! The server's request checks: the error envelope, bearer-token
//! admission, the lock holder header and the lock endpoints' answers.

use vstd::prelude::*;
use crate::server::locks::{
    failure_of, release_result, release_table, try_lock_result, try_lock_table, FieldSet, LockError,
    LockErrorKind, LockFailure, LockManager,
};
use crate::text::{chars_of, concat, str_eq, to_string};

verus! {

/// An error answer: HTTP status code and message.
#[derive(Debug)]
pub struct ApiError {
    pub status: u16,
    pub message: String,
}

impl ApiError {
    /// `404 Not Found`.
    pub fn not_found(msg: &str) -> (r: Self)
        ensures
            r.status == 404,
            r.message@ == msg@,
    {
        ApiError { status: 404, message: to_string(msg) }
    }

    /// `400 Bad Request`.
    pub fn bad_request(msg: &str) -> (r: Self)
        ensures
            r.status == 400,
            r.message@ == msg@,
    {
        ApiError { status: 400, message: to_string(msg) }
    }

    /// `409 Conflict`.
    pub fn conflict(msg: &str) -> (r: Self)
        ensures
            r.status == 409,
            r.message@ == msg@,
    {
        ApiError { status: 409, message: to_string(msg) }
    }

    /// `401 Unauthorized`.
    pub fn unauthorized(msg: &str) -> (r: Self)
        ensures
            r.status == 401,
            r.message@ == msg@,
    {
        ApiError { status: 401, message: to_string(msg) }
    }

    /// `500 Internal Server Error`.
    pub fn internal(msg: &str) -> (r: Self)
        ensures
            r.status == 500,
            r.message@ == msg@,
    {
        ApiError { status: 500, message: to_string(msg) }
    }
}

// -------------------------------------------------------------------
// Bearer-token admission.
// -------------------------------------------------------------------

/// The bearer-token check in front of the protected routes.
#[derive(Debug)]
pub struct BearerAuth {
    pub token: Option<String>,
}

/// Whether a path is a liveness route, open to anyone.
pub open spec fn is_liveness_path(path: Seq<char>) -> bool {
    path == "/health"@ || path == "/version"@
}

/// Whether a request is let through: liveness routes always; any route
/// when no token is configured; otherwise only with an `Authorization`
/// header of `Bearer ` followed by exactly the token.
pub open spec fn admits(token: Option<Seq<char>>, path: Seq<char>, authorization: Option<Seq<char>>) -> bool {
    if is_liveness_path(path) {
        true
    } else {
        match token {
            None => true,
            Some(t) => match authorization {
                Some(h) => h == "Bearer "@ + t,
                None => false,
            },
        }
    }
}

impl BearerAuth {
    /// A check against `token`; `None` lets every request through.
    pub fn new(token: Option<String>) -> (r: Self)
        ensures
            r.token == token,
    {
        BearerAuth { token }
    }

    /// Whether a request for `path` with this `Authorization` header (if
    /// it has a readable one) is let through (see [`admits`]).
    pub fn admits(&self, path: &str, authorization: Option<&str>) -> (r: bool)
        ensures
            r == admits(
                match self.token {
                    Some(t) => Some(t@),
                    None => None,
                },
                path@,
                match authorization {
                    Some(h) => Some(h@),
                    None => None,
                },
            ),
    {
        if str_eq(path, "/health") || str_eq(path, "/version") {
            return true;
        }
        match &self.token {
            None => true,
            Some(t) => match authorization {
                Some(h) => {
                    let expected = concat("Bearer ", t.as_str());
                    str_eq(h, expected.as_str())
                },
                None => false,
            },
        }
    }
}

/// Liveness routes are always open; when a token is configured, every
/// other route admits exactly the requests that present it as a bearer
/// token.
pub proof fn law_bearer_admission(token: Option<Seq<char>>, path: Seq<char>, authorization: Option<Seq<char>>)
    ensures
        is_liveness_path(path) ==> admits(token, path, authorization),
        token is None ==> admits(token, path, authorization),
        token is Some && !is_liveness_path(path) ==> (admits(token, path, authorization)
            <==> authorization == Some("Bearer "@ + token.unwrap())),
{
}

// -------------------------------------------------------------------
// The lock holder header.
// -------------------------------------------------------------------

/// The longest holder name accepted, in bytes.
pub const MAX_HOLDER_LEN: usize = 256;

/// Whether a character is a control character (general category Cc).
pub open spec fn is_control(c: char) -> bool {
    (c as u32) <= 0x1F || (0x7F <= (c as u32) && (c as u32) <= 0x9F)
}

fn is_control_exec(c: char) -> (r: bool)
    ensures
        r == is_control(c),
{
    let u = c as u32;
    u <= 0x1F || (0x7F <= u && u <= 0x9F)
}

/// Why a holder header is refused, if it is: missing, empty, longer than
/// [`MAX_HOLDER_LEN`] bytes, or holding a control character.
pub open spec fn holder_problem(header: Option<&str>) -> Option<Seq<char>> {
    match header {
        None => Some("missing x-oxide-holder header"@),
        Some(raw) => if raw@.len() == 0 {
            Some("x-oxide-holder is empty"@)
        } else if raw.len() > MAX_HOLDER_LEN {
            Some("x-oxide-holder exceeds 256-byte limit"@)
        } else if exists|i: int| 0 <= i < raw@.len() && is_control(#[trigger] raw@[i]) {
            Some("x-oxide-holder contains control characters"@)
        } else {
            None
        },
    }
}

/// Reads the lock holder from the `x-oxide-holder` header, if the request
/// has a readable one: the header text, or `400` naming the problem (see
/// [`holder_problem`]).
pub fn holder_from(header: Option<&str>) -> (r: Result<String, ApiError>)
    ensures
        match holder_problem(header) {
            Some(m) => r matches Err(e) && e.status == 400 && e.message@ == m,
            None => r matches Ok(h) && header matches Some(raw) && h@ == raw@,
        },
{
    let raw = match header {
        None => {
            return Err(ApiError::bad_request("missing x-oxide-holder header"));
        },
        Some(raw) => raw,
    };
    let cs = chars_of(raw);
    if cs.len() == 0 {
        return Err(ApiError::bad_request("x-oxide-holder is empty"));
    }
    if raw.len() > MAX_HOLDER_LEN {
        return Err(ApiError::bad_request("x-oxide-holder exceeds 256-byte limit"));
    }
    let mut i: usize = 0;
    while i < cs.len()
        invariant
            i <= cs.len(),
            cs@ == raw@,
            raw@.len() > 0,
            raw.len() <= MAX_HOLDER_LEN,
            header == Some(raw),
            forall|j: int| 0 <= j < i ==> !is_control(#[trigger] raw@[j]),
        decreases cs.len() - i,
    {
        if is_control_exec(cs[i]) {
            assert(is_control(raw@[i as int]));
            return Err(ApiError::bad_request("x-oxide-holder contains control characters"));
        }
        i += 1;
    }
    Ok(to_string(raw))
}

// -------------------------------------------------------------------
// The lock endpoints.
// -------------------------------------------------------------------

/// The field set named in a lock request body.
#[derive(Debug, Clone, Copy, PartialEq, Eq, Structural)]
pub enum FieldSetWire {
    Symbol,
    Footprint,
    Model3d,
    SharedParams,
    SharedSupplyChain,
    SharedSimulation,
    Lifecycle,
}

/// The body of a lock request.
#[derive(Debug, Clone, Copy)]
pub struct LockBody {
    pub field_set: FieldSetWire,
}

/// The field set a wire name stands for.
pub open spec fn field_set_of(w: FieldSetWire) -> FieldSet {
    match w {
        FieldSetWire::Symbol => FieldSet::Symbol,
        FieldSetWire::Footprint => FieldSet::Footprint,
        FieldSetWire::Model3d => FieldSet::Model3d,
        FieldSetWire::SharedParams => FieldSet::SharedParams,
        FieldSetWire::SharedSupplyChain => FieldSet::SharedSupplyChain,
        FieldSetWire::SharedSimulation => FieldSet::SharedSimulation,
        FieldSetWire::Lifecycle => FieldSet::Lifecycle,
    }
}

impl From<FieldSetWire> for FieldSet {
    fn from(value: FieldSetWire) -> (r: Self) {
        match value {
            FieldSetWire::Symbol => FieldSet::Symbol,
            FieldSetWire::Footprint => FieldSet::Footprint,
            FieldSetWire::Model3d => FieldSet::Model3d,
            FieldSetWire::SharedParams => FieldSet::SharedParams,
            FieldSetWire::SharedSupplyChain => FieldSet::SharedSupplyChain,
            FieldSetWire::SharedSimulation => FieldSet::SharedSimulation,
            FieldSetWire::Lifecycle => FieldSet::Lifecycle,
        }
    }
}

impl vstd::std_specs::convert::FromSpecImpl<FieldSetWire> for FieldSet {
    open spec fn obeys_from_spec() -> bool {
        true
    }

    open spec fn from_spec(v: FieldSetWire) -> FieldSet {
        field_set_of(v)
    }
}

/// The answer to a refused lock request: `409` naming the holder, `400`
/// for an unknown holder (with `unknown`), `500` otherwise.
pub open spec fn refusal(f: LockFailure, unknown: Seq<char>) -> (u16, Seq<char>) {
    match f {
        LockFailure::Held(holder) => (409, "lock held by "@ + holder),
        LockFailure::UnknownHolder => (400, unknown),
        LockFailure::Internal => (500, "lock manager internal error"@),
    }
}

fn refusal_exec(e: LockError, unknown: &str) -> (r: ApiError)
    ensures
        (r.status, r.message@) == refusal(failure_of(e), unknown@),
{
    match e.kind {
        LockErrorKind::Held { holder } => {
            let m = concat("lock held by ", holder.as_str());
            ApiError { status: 409, message: m }
        },
        LockErrorKind::UnknownHolder => ApiError::bad_request(unknown),
        LockErrorKind::Internal => ApiError::internal("lock manager internal error"),
    }
}

/// `uuid::Uuid::parse_str`, as the 128-bit value or the error's text.
pub uninterp spec fn spec_parse_uuid(s: Seq<char>) -> Result<u128, Seq<char>>;

/// `uuid::Uuid::parse_str`: the UUID written in `s` (hyphenated, simple,
/// braced or URN form), as its 128-bit value, or the parser's error
/// message. Deterministic in `s`; the accepted forms are not restated.
#[verifier::external_body]
pub(crate) fn parse_uuid(s: &str) -> (r: Result<u128, String>)
    ensures
        match r {
            Ok(v) => spec_parse_uuid(s@) == Ok::<u128, Seq<char>>(v),
            Err(m) => spec_parse_uuid(s@) == Err::<u128, Seq<char>>(m@),
        },
{
    match uuid::Uuid::parse_str(s) {
        Ok(u) => Ok(u.as_u128()),
        Err(e) => Err(e.to_string()),
    }
}

/// Takes the lock a `POST /rows/{row_id}/locks` asks for: `400` for a
/// malformed row id (the parser's message) or a bad holder header, the
/// lock refusal (see [`refusal`]) when the manager refuses, `201` when
/// granted. The manager is consulted only when both inputs are good.
pub fn acquire_lock(
    locks: &mut LockManager,
    row_id: &str,
    holder_header: Option<&str>,
    body: LockBody,
) -> (r: Result<u16, ApiError>)
    ensures
        match spec_parse_uuid(row_id@) {
            Err(m) => r matches Err(e) && e.status == 400 && e.message@ == m && final(locks)@ == old(
                locks,
            )@,
            Ok(row) => match holder_problem(holder_header) {
                Some(m) => r matches Err(e) && e.status == 400 && e.message@ == m && final(locks)@
                    == old(locks)@,
                None => exists|now: u64|
                    {
                        &&& final(locks)@ == #[trigger] try_lock_table(
                            old(locks)@,
                            (row, field_set_of(body.field_set)),
                            holder_header.unwrap()@,
                            now,
                        )
                        &&& match try_lock_result(
                            old(locks)@,
                            (row, field_set_of(body.field_set)),
                            holder_header.unwrap()@,
                            now,
                        ) {
                            Ok(()) => r == Ok::<u16, ApiError>(201),
                            Err(f) => r matches Err(e) && (e.status, e.message@) == refusal(
                                f,
                                "unknown holder"@,
                            ),
                        }
                    },
            },
        },
{
    let row = match parse_uuid(row_id) {
        Ok(v) => v,
        Err(m) => {
            return Err(ApiError { status: 400, message: m });
        },
    };
    let holder = match holder_from(holder_header) {
        Ok(h) => h,
        Err(e) => {
            return Err(e);
        },
    };
    let fs = FieldSet::from(body.field_set);
    match locks.try_lock(row, fs, holder.as_str()) {
        Ok(()) => Ok(201),
        Err(e) => Err(refusal_exec(e, "unknown holder")),
    }
}

/// Gives up the lock a `DELETE /rows/{row_id}/locks` names: `400` for a
/// malformed row id or a bad holder header, the lock refusal (see
/// [`refusal`], `400` reading `not lock holder` for an unknown holder)
/// when the manager refuses, `204` when released.
pub fn release_lock(
    locks: &mut LockManager,
    row_id: &str,
    holder_header: Option<&str>,
    body: LockBody,
) -> (r: Result<u16, ApiError>)
    ensures
        match spec_parse_uuid(row_id@) {
            Err(m) => r matches Err(e) && e.status == 400 && e.message@ == m && final(locks)@ == old(
                locks,
            )@,
            Ok(row) => match holder_problem(holder_header) {
                Some(m) => r matches Err(e) && e.status == 400 && e.message@ == m && final(locks)@
                    == old(locks)@,
                None => exists|now: u64|
                    {
                        &&& final(locks)@ == #[trigger] release_table(
                            old(locks)@,
                            (row, field_set_of(body.field_set)),
                            holder_header.unwrap()@,
                            now,
                        )
                        &&& match release_result(
                            old(locks)@,
                            (row, field_set_of(body.field_set)),
                            holder_header.unwrap()@,
                            now,
                        ) {
                            Ok(()) => r == Ok::<u16, ApiError>(204),
                            Err(f) => r matches Err(e) && (e.status, e.message@) == refusal(
                                f,
                                "not lock holder"@,
                            ),
                        }
                    },
            },
        },
{
    let row = match parse_uuid(row_id) {
        Ok(v) => v,
        Err(m) => {
            return Err(ApiError { status: 400, message: m });
        },
    };
    let holder = match holder_from(holder_header) {
        Ok(h) => h,
        Err(e) => {
            return Err(e);
        },
    };
    let fs = FieldSet::from(body.field_set);
    match locks.release(row, fs, holder.as_str()) {
        Ok(()) => Ok(204),
        Err(e) => Err(refusal_exec(e, "not lock holder")),
    }
}

/// A refused lock request is answered `409` naming the holder when
/// another holder has it, `400` for an unknown holder, `500` otherwise.
pub proof fn law_refusal_status(holder: Seq<char>, unknown: Seq<char>)
    ensures
        refusal(LockFailure::Held(holder), unknown) == (409u16, "lock held by "@ + holder),
        refusal(LockFailure::UnknownHolder, unknown) == (400u16, unknown),
        refusal(LockFailure::Internal, unknown).0 == 500,
{
}

} // verus!
