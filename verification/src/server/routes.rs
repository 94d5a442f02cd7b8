//! The answers of the row and primitive endpoints, over the stores.

use vstd::prelude::*;
use crate::server::api::{parse_uuid, spec_parse_uuid, ApiError};
use crate::server::store::{
    primitive_index, row_index, PrimitiveStore, PrimitiveView, RowStore, RowView,
};
use crate::text::concat;

verus! {

/// The `k`-th hexadecimal digit of `u`, counted from the most significant.
pub open spec fn uuid_nibble(u: u128, k: int) -> int {
    ((u >> ((124 - 4 * k) as u128)) & 0xfu128) as int
}

/// `uuid::Uuid` as text: the 32 hexadecimal digits of its value, most
/// significant first and in lower case, in groups of 8, 4, 4, 4 and 12
/// joined by `-`.
pub open spec fn spec_format_uuid(u: u128) -> Seq<char> {
    Seq::new(
        36,
        |i: int|
            if i == 8 || i == 13 || i == 18 || i == 23 {
                '-'
            } else {
                let k = if i < 8 {
                    i
                } else if i < 13 {
                    i - 1
                } else if i < 18 {
                    i - 2
                } else if i < 23 {
                    i - 3
                } else {
                    i - 4
                };
                seq!['0', '1', '2', '3', '4', '5', '6', '7', '8', '9', 'a', 'b', 'c', 'd', 'e', 'f'][uuid_nibble(
                    u,
                    k,
                )]
            },
    )
}

/// `Uuid::to_string` of `Uuid::from_u128(u)`: `Display` writes the
/// hyphenated lower-case form of the value's big-endian bytes (the
/// crate's `format_hyphenated`), stated as [`spec_format_uuid`].
#[verifier::external_body]
pub(crate) fn format_uuid(u: u128) -> (r: String)
    ensures
        r@ == spec_format_uuid(u),
{
    uuid::Uuid::from_u128(u).to_string()
}

/// Reads the row identifier of a path: `400` with `row_id: ` and the
/// parser's message when it is not a UUID.
pub fn parse_row_id(raw: &str) -> (r: Result<u128, ApiError>)
    ensures
        match spec_parse_uuid(raw@) {
            Ok(v) => r == Ok::<u128, ApiError>(v),
            Err(m) => r matches Err(e) && e.status == 400 && e.message@ == "row_id: "@ + m,
        },
{
    match parse_uuid(raw) {
        Ok(v) => Ok(v),
        Err(m) => Err(ApiError { status: 400, message: concat("row_id: ", m.as_str()) }),
    }
}

/// The message for a row that is not in its table.
pub open spec fn row_missing_message(row_id: u128, table: Seq<char>) -> Seq<char> {
    "row "@ + spec_format_uuid(row_id) + " in table "@ + table
}

fn row_missing(row_id: u128, table: &str) -> (r: ApiError)
    ensures
        r.status == 404,
        r.message@ == row_missing_message(row_id, table@),
{
    let id = format_uuid(row_id);
    let a = concat("row ", id.as_str());
    let b = concat(a.as_str(), " in table ");
    ApiError { status: 404, message: concat(b.as_str(), table) }
}

/// Creates a row (`POST /tables/{name}/rows`): `201`, or `409` when the
/// table already has a row of that identifier, which stays as it was.
pub fn create_row(
    store: &mut RowStore,
    library_id: u128,
    table: &str,
    row_id: u128,
    internal_pn: &str,
    payload: &str,
) -> (r: Result<u16, ApiError>)
    ensures
        match row_index(
            old(store)@,
            (spec_format_uuid(library_id), table@, spec_format_uuid(row_id)),
        ) {
            Some(_) => r matches Err(e) && e.status == 409 && final(store)@ == old(store)@
                && e.message@ == "row "@ + spec_format_uuid(row_id) + " already exists in table "@
                + table@,
            None => r == Ok::<u16, ApiError>(201) && final(store)@ == old(store)@.push(
                RowView {
                    library_id: spec_format_uuid(library_id),
                    table_name: table@,
                    row_id: spec_format_uuid(row_id),
                    internal_pn: internal_pn@,
                    payload: payload@,
                    created_at: final(store)@.last().created_at,
                    updated_at: final(store)@.last().created_at,
                },
            ),
        },
{
    let lib = format_uuid(library_id);
    let id = format_uuid(row_id);
    if store.insert_row(lib.as_str(), table, id.as_str(), internal_pn, payload) {
        Ok(201)
    } else {
        let a = concat("row ", id.as_str());
        let b = concat(a.as_str(), " already exists in table ");
        Err(ApiError { status: 409, message: concat(b.as_str(), table) })
    }
}

/// Reads a row (`GET /tables/{name}/rows/{row_id}`): its payload, `400`
/// for a malformed identifier, `404` when the table has no such row.
pub fn get_row(store: &RowStore, library_id: u128, table: &str, raw_row_id: &str) -> (r: Result<
    String,
    ApiError,
>)
    ensures
        match spec_parse_uuid(raw_row_id@) {
            Err(m) => r matches Err(e) && e.status == 400 && e.message@ == "row_id: "@ + m,
            Ok(id) => match row_index(
                store@,
                (spec_format_uuid(library_id), table@, spec_format_uuid(id)),
            ) {
                Some(i) => r matches Ok(p) && p@ == store@[i].payload,
                None => r matches Err(e) && e.status == 404 && e.message@ == row_missing_message(
                    id,
                    table@,
                ),
            },
        },
{
    let id = parse_row_id(raw_row_id)?;
    let lib = format_uuid(library_id);
    let key = format_uuid(id);
    match store.fetch_row(lib.as_str(), table, key.as_str()) {
        Some(p) => Ok(p),
        None => Err(row_missing(id, table)),
    }
}

/// Replaces a row (`PUT /tables/{name}/rows/{row_id}`): `200`; `400` for
/// a malformed identifier or when the body names another row; `404` when
/// the table has no such row.
pub fn update_row(
    store: &mut RowStore,
    library_id: u128,
    table: &str,
    raw_row_id: &str,
    body_row_id: u128,
    internal_pn: &str,
    payload: &str,
) -> (r: Result<u16, ApiError>)
    ensures
        match spec_parse_uuid(raw_row_id@) {
            Err(m) => r matches Err(e) && e.status == 400 && final(store)@ == old(store)@
                && e.message@ == "row_id: "@ + m,
            Ok(id) => if id != body_row_id {
                r matches Err(e) && e.status == 400 && e.message@ == "row_id mismatch: url="@
                    + spec_format_uuid(id) + ", body="@ + spec_format_uuid(body_row_id)
                    && final(store)@ == old(store)@
            } else {
                match row_index(
                    old(store)@,
                    (spec_format_uuid(library_id), table@, spec_format_uuid(id)),
                ) {
                    Some(i) => r == Ok::<u16, ApiError>(200) && final(store)@ == old(store)@.update(
                        i,
                        RowView {
                            internal_pn: internal_pn@,
                            payload: payload@,
                            updated_at: final(store)@[i].updated_at,
                            ..old(store)@[i]
                        },
                    ),
                    None => r matches Err(e) && e.status == 404 && final(store)@ == old(store)@
                        && e.message@ == row_missing_message(id, table@),
                }
            },
        },
{
    let id = parse_row_id(raw_row_id)?;
    if id != body_row_id {
        let u = format_uuid(id);
        let b = format_uuid(body_row_id);
        let m1 = concat("row_id mismatch: url=", u.as_str());
        let m2 = concat(m1.as_str(), ", body=");
        return Err(ApiError { status: 400, message: concat(m2.as_str(), b.as_str()) });
    }
    let lib = format_uuid(library_id);
    let key = format_uuid(id);
    if store.update_row(lib.as_str(), table, key.as_str(), internal_pn, payload) {
        Ok(200)
    } else {
        Err(row_missing(id, table))
    }
}

/// Deletes a row (`DELETE /tables/{name}/rows/{row_id}`): `204`; `400`
/// for a malformed identifier; `404` when the table has no such row.
pub fn delete_row(store: &mut RowStore, library_id: u128, table: &str, raw_row_id: &str) -> (r: Result<
    u16,
    ApiError,
>)
    ensures
        match spec_parse_uuid(raw_row_id@) {
            Err(m) => r matches Err(e) && e.status == 400 && final(store)@ == old(store)@
                && e.message@ == "row_id: "@ + m,
            Ok(id) => match row_index(
                old(store)@,
                (spec_format_uuid(library_id), table@, spec_format_uuid(id)),
            ) {
                Some(i) => r == Ok::<u16, ApiError>(204) && final(store)@ == old(store)@.remove(i),
                None => r matches Err(e) && e.status == 404 && final(store)@ == old(store)@
                    && e.message@ == row_missing_message(id, table@),
            },
        },
{
    let id = parse_row_id(raw_row_id)?;
    let lib = format_uuid(library_id);
    let key = format_uuid(id);
    if store.delete_row(lib.as_str(), table, key.as_str()) {
        Ok(204)
    } else {
        Err(row_missing(id, table))
    }
}

/// Reads a primitive (`GET /{kind}s/{uuid}`): its payload; `400` without
/// a library or for a malformed identifier (the parser's message); `404`
/// naming `kind`, library and identifier when there is none.
pub fn get_primitive(store: &PrimitiveStore, kind: &str, library_id: Option<u128>, raw_uuid: &str) -> (r:
    Result<String, ApiError>)
    ensures
        match library_id {
            None => r matches Err(e) && e.status == 400 && e.message@
                == "missing library_id query parameter"@,
            Some(lib) => match spec_parse_uuid(raw_uuid@) {
                Err(m) => r matches Err(e) && e.status == 400 && e.message@ == m,
                Ok(u) => match primitive_index(store@, (spec_format_uuid(lib), spec_format_uuid(u))) {
                    Some(i) => r matches Ok(p) && p@ == store@[i].payload,
                    None => r matches Err(e) && e.status == 404 && e.message@ == kind@ + " "@
                        + spec_format_uuid(lib) + "/"@ + spec_format_uuid(u),
                },
            },
        },
{
    let lib = match library_id {
        None => {
            return Err(ApiError::bad_request("missing library_id query parameter"));
        },
        Some(l) => l,
    };
    let u = match parse_uuid(raw_uuid) {
        Ok(v) => v,
        Err(m) => {
            return Err(ApiError { status: 400, message: m });
        },
    };
    let ls = format_uuid(lib);
    let us = format_uuid(u);
    match store.fetch_payload(ls.as_str(), us.as_str()) {
        Some(p) => Ok(p),
        None => {
            let a = concat(kind, " ");
            let b = concat(a.as_str(), ls.as_str());
            let c = concat(b.as_str(), "/");
            Err(ApiError { status: 404, message: concat(c.as_str(), us.as_str()) })
        },
    }
}

/// Stores a primitive (`POST /{kind}s`) under its library and identifier
/// (see [`PrimitiveStore::upsert`]); always `201`.
pub fn create_primitive(store: &mut PrimitiveStore, library_id: u128, uuid: u128, name: &str, payload: &str) -> (r:
    u16)
    ensures
        r == 201,
        match primitive_index(old(store)@, (spec_format_uuid(library_id), spec_format_uuid(uuid))) {
            Some(i) => final(store)@ == old(store)@.update(
                i,
                PrimitiveView {
                    name: name@,
                    payload: payload@,
                    updated_at: final(store)@[i].updated_at,
                    ..old(store)@[i]
                },
            ),
            None => final(store)@ == old(store)@.push(
                PrimitiveView {
                    library_id: spec_format_uuid(library_id),
                    uuid: spec_format_uuid(uuid),
                    name: name@,
                    payload: payload@,
                    created_at: final(store)@.last().created_at,
                    updated_at: final(store)@.last().created_at,
                },
            ),
        },
{
    let ls = format_uuid(library_id);
    let us = format_uuid(uuid);
    store.upsert(ls.as_str(), us.as_str(), name, payload);
    201
}

} // verus!
