use vstd::prelude::*;

use crate::correlation::{resolve_correlation, resolve_spec, valid_correlation};
use crate::error::{message_of, status_of, AppError, ErrorModel};
use crate::ident::{parse_id, parse_spec, Identifier};
use crate::record::{Kind, Record};
use crate::store::{count_key, has_key, lookup, Store, MSG_EXHAUSTED, MSG_NOT_FOUND};
use crate::wire::{error_json, list_json, render_error, render_list};

verus! {

/// Detail surfaced when a path identifier does not parse.
pub const MSG_BAD_ID: &'static str = "invalid identifier: expected a kind tag, '@' and a number";

/// Detail surfaced when a well-formed identifier names the other kind.
pub const MSG_WRONG_KIND: &'static str = "identifier belongs to another resource kind";

/// The shared application state: one store per resource kind.  Both
/// schemas are defined once, at construction; re-registering a kind's
/// shape is thereby idempotent and can never conflict.
pub struct AppStateT {
    pub coffees: Store,
    pub beers: Store,
}

/// What the transport layer decoded from an inbound request: which
/// operation was routed, the raw path identifier where one was given,
/// and the outcome of decoding the body where one was expected.  A
/// failed body decode arrives as the decoder's status and detail.
pub enum Request {
    Create(Kind, Result<Record, DecodeFailure>),
    List(Kind),
    Update(Kind, String, Result<Record, DecodeFailure>),
    Delete(Kind, String),
}

/// A body that failed to decode: the client-error status the decoder
/// chose and its human-readable detail.
pub struct DecodeFailure {
    pub status: u16,
    pub message: String,
}

/// Everything this core decides about one response: the status, the
/// body, and the correlation identifier to echo in the response header.
pub struct Response {
    pub status: u16,
    pub body: String,
    pub correlation: String,
}

impl AppStateT {
    /// Well-formedness: each kind's store is well formed and holds that
    /// kind.
    pub open spec fn wf(self) -> bool {
        &&& self.coffees.wf()
        &&& self.coffees.kind == Kind::Coffee
        &&& self.beers.wf()
        &&& self.beers.kind == Kind::Beer
    }

    /// The store serving resource kind `k`.
    pub open spec fn store_of(self, k: Kind) -> Store {
        match k {
            Kind::Coffee => self.coffees,
            Kind::Beer => self.beers,
        }
    }

    /// Empty stores for both kinds.
    pub fn new() -> (s: AppStateT)
        ensures
            s.wf(),
            s.coffees.entries@.len() == 0,
            s.beers.entries@.len() == 0,
    {
        AppStateT { coffees: Store::new(Kind::Coffee), beers: Store::new(Kind::Beer) }
    }

    fn create_in(&mut self, k: Kind, rec: Record) -> (r: Result<Identifier, AppError>)
        requires
            old(self).wf(),
        ensures
            final(self).wf(),
            untouched_other(*old(self), *final(self), k),
            r is Ok <==> old(self).store_of(k).next < u64::MAX,
            match r {
                Ok(id) => {
                    &&& id.kind == k
                    &&& id.num == old(self).store_of(k).next
                    &&& !has_key(old(self).store_of(k).entries@, id.num)
                    &&& final(self).store_of(k).entries@ == old(self).store_of(k).entries@.push(
                        (id.num, rec),
                    )
                },
                Err(e) => {
                    &&& final(self).store_of(k) == old(self).store_of(k)
                    &&& e@ == (ErrorModel::StoreFailure { message: MSG_EXHAUSTED@ })
                },
            },
    {
        match k {
            Kind::Coffee => self.coffees.create(rec),
            Kind::Beer => self.beers.create(rec),
        }
    }

    fn update_in(&mut self, k: Kind, key: u64, rec: Record) -> (r: Result<(), AppError>)
        requires
            old(self).wf(),
        ensures
            final(self).wf(),
            untouched_other(*old(self), *final(self), k),
            r is Ok <==> has_key(old(self).store_of(k).entries@, key),
            match r {
                Ok(_) => {
                    &&& lookup(final(self).store_of(k).entries@, key) == Some(rec@)
                    &&& count_key(final(self).store_of(k).entries@, key) == 1
                    &&& forall|k2: u64|
                        k2 != key ==> lookup(final(self).store_of(k).entries@, k2) == lookup(
                            old(self).store_of(k).entries@,
                            k2,
                        )
                    &&& final(self).store_of(k).entries@.len() == old(self).store_of(
                        k,
                    ).entries@.len()
                },
                Err(e) => {
                    &&& final(self).store_of(k) == old(self).store_of(k)
                    &&& e@ == (ErrorModel::StoreFailure { message: MSG_NOT_FOUND@ })
                },
            },
    {
        match k {
            Kind::Coffee => self.coffees.update(key, rec),
            Kind::Beer => self.beers.update(key, rec),
        }
    }

    fn delete_in(&mut self, k: Kind, key: u64) -> (r: Result<(), AppError>)
        requires
            old(self).wf(),
        ensures
            final(self).wf(),
            untouched_other(*old(self), *final(self), k),
            r is Ok <==> has_key(old(self).store_of(k).entries@, key),
            match r {
                Ok(_) => {
                    &&& !has_key(final(self).store_of(k).entries@, key)
                    &&& forall|k2: u64|
                        k2 != key ==> lookup(final(self).store_of(k).entries@, k2) == lookup(
                            old(self).store_of(k).entries@,
                            k2,
                        )
                    &&& final(self).store_of(k).entries@.len() == old(self).store_of(
                        k,
                    ).entries@.len() - 1
                },
                Err(e) => {
                    &&& final(self).store_of(k) == old(self).store_of(k)
                    &&& e@ == (ErrorModel::StoreFailure { message: MSG_NOT_FOUND@ })
                },
            },
    {
        match k {
            Kind::Coffee => self.coffees.delete(key),
            Kind::Beer => self.beers.delete(key),
        }
    }
}

/// The store of the kind not addressed by the request is left as it was.
pub open spec fn untouched_other(pre: AppStateT, post: AppStateT, k: Kind) -> bool {
    match k {
        Kind::Coffee => post.beers == pre.beers,
        Kind::Beer => post.coffees == pre.coffees,
    }
}

/// One failure mapped to its full wire shape: the taxonomy's status and
/// the JSON error envelope around the taxonomy's message.
pub fn error_response(e: &AppError) -> (r: (u16, String))
    ensures
        r.0 == status_of(e@),
        r.1@ == error_json(message_of(e@)),
{
    let (status, message) = e.respond();
    (status, render_error(message.as_str()))
}

/// Serves one decoded request against the shared state and decides the
/// full response, including the correlation identifier to echo.
pub fn handle_request(
    state: &mut AppStateT,
    req: Request,
    inbound: Option<&String>,
    generated: String,
) -> (resp: Response)
    requires
        old(state).wf(),
        valid_correlation(generated@),
    ensures
        final(state).wf(),
        valid_correlation(resp.correlation@),
        (match inbound {
            Some(s) => resp.correlation@ == resolve_spec(Some(s@), generated@),
            None => resp.correlation@ == resolve_spec(None, generated@),
        }),
        (match req {
            Request::Create(k, body) => {
                let pre = old(state).store_of(k);
                let post = final(state).store_of(k);
                &&& untouched_other(*old(state), *final(state), k)
                &&& match body {
                    Ok(rec) => if pre.next < u64::MAX {
                        &&& resp.status == 200
                        &&& resp.body@.len() == 0
                        &&& post.entries@ == pre.entries@.push((pre.next, rec))
                    } else {
                        &&& resp.status == 500
                        &&& resp.body@ == error_json(MSG_EXHAUSTED@)
                        &&& post == pre
                    },
                    Err(df) => {
                        &&& resp.status == df.status
                        &&& resp.body@ == error_json(df.message@)
                        &&& post == pre
                    },
                }
            },
            Request::List(k) => {
                &&& *final(state) == *old(state)
                &&& resp.status == 200
                &&& resp.body@ == list_json(k, old(state).store_of(k).entries@)
            },
            Request::Update(k, ids, body) => {
                let pre = old(state).store_of(k);
                let post = final(state).store_of(k);
                &&& untouched_other(*old(state), *final(state), k)
                &&& match body {
                    Err(df) => {
                        &&& resp.status == df.status
                        &&& resp.body@ == error_json(df.message@)
                        &&& post == pre
                    },
                    Ok(rec) => match parse_spec(ids@) {
                        Some(id) => if id.kind == k {
                            if has_key(pre.entries@, id.num) {
                                &&& resp.status == 200
                                &&& resp.body@.len() == 0
                                &&& lookup(post.entries@, id.num) == Some(rec@)
                                &&& count_key(post.entries@, id.num) == 1
                                &&& (forall|k2: u64|
                                    k2 != id.num ==> lookup(post.entries@, k2) == lookup(
                                        pre.entries@,
                                        k2,
                                    ))
                                &&& post.entries@.len() == pre.entries@.len()
                            } else {
                                &&& resp.status == 500
                                &&& resp.body@ == error_json(MSG_NOT_FOUND@)
                                &&& post == pre
                            }
                        } else {
                            &&& resp.status == 400
                            &&& resp.body@ == error_json(MSG_WRONG_KIND@)
                            &&& post == pre
                        },
                        None => {
                            &&& resp.status == 400
                            &&& resp.body@ == error_json(MSG_BAD_ID@)
                            &&& post == pre
                        },
                    },
                }
            },
            Request::Delete(k, ids) => {
                let pre = old(state).store_of(k);
                let post = final(state).store_of(k);
                &&& untouched_other(*old(state), *final(state), k)
                &&& match parse_spec(ids@) {
                    Some(id) => if id.kind == k {
                        if has_key(pre.entries@, id.num) {
                            &&& resp.status == 200
                            &&& resp.body@.len() == 0
                            &&& !has_key(post.entries@, id.num)
                            &&& (forall|k2: u64|
                                k2 != id.num ==> lookup(post.entries@, k2) == lookup(
                                    pre.entries@,
                                    k2,
                                ))
                            &&& post.entries@.len() == pre.entries@.len() - 1
                        } else {
                            &&& resp.status == 500
                            &&& resp.body@ == error_json(MSG_NOT_FOUND@)
                            &&& post == pre
                        }
                    } else {
                        &&& resp.status == 400
                        &&& resp.body@ == error_json(MSG_WRONG_KIND@)
                        &&& post == pre
                    },
                    None => {
                        &&& resp.status == 400
                        &&& resp.body@ == error_json(MSG_BAD_ID@)
                        &&& post == pre
                    },
                }
            },
        }),
{
    let correlation = resolve_correlation(inbound, generated);
    let (status, body): (u16, String) = match req {
        Request::Create(k, body) => match body {
            Ok(rec) => match state.create_in(k, rec) {
                Ok(_id) => (200, String::new()),
                Err(e) => error_response(&e),
            },
            Err(df) => error_response(
                &AppError::InvalidInput { status: df.status, message: df.message },
            ),
        },
        Request::List(k) => {
            let b = match k {
                Kind::Coffee => render_list(&state.coffees),
                Kind::Beer => render_list(&state.beers),
            };
            (200, b)
        },
        Request::Update(k, ids, body) => match body {
            Err(df) => error_response(
                &AppError::InvalidInput { status: df.status, message: df.message },
            ),
            Ok(rec) => match parse_id(ids.as_str()) {
                None => error_response(
                    &AppError::InvalidInput { status: 400, message: MSG_BAD_ID.to_owned() },
                ),
                Some(id) => {
                    if id.kind == k {
                        match state.update_in(k, id.num, rec) {
                            Ok(_) => (200, String::new()),
                            Err(e) => error_response(&e),
                        }
                    } else {
                        error_response(
                            &AppError::InvalidInput {
                                status: 400,
                                message: MSG_WRONG_KIND.to_owned(),
                            },
                        )
                    }
                },
            },
        },
        Request::Delete(k, ids) => match parse_id(ids.as_str()) {
            None => error_response(
                &AppError::InvalidInput { status: 400, message: MSG_BAD_ID.to_owned() },
            ),
            Some(id) => {
                if id.kind == k {
                    match state.delete_in(k, id.num) {
                        Ok(_) => (200, String::new()),
                        Err(e) => error_response(&e),
                    }
                } else {
                    error_response(
                        &AppError::InvalidInput { status: 400, message: MSG_WRONG_KIND.to_owned() },
                    )
                }
            },
        },
    };
    Response { status, body, correlation }
}

} // verus!
