//! The request handlers: create, lookup and count, each a linear
//! pipeline from a parsed request to a response descriptor, with the
//! store passed in explicitly.
//!
//! The redirect status is 301 (Moved Permanently) throughout.

use vstd::prelude::*;
use vstd::string::{StrSliceExecFns, StringExecFns};
use vstd::utf8::encode_utf8;

use crate::config::Config;
use crate::form::{form_parses, parse_create_form, resolved_from, spec_form};
use crate::store::{bumped, find_code, UrlStore, UrlV};
use crate::text::{dec_digits, u64_to_dec};

verus! {

/// What the transport sends back: a status code, an optional `Location`
/// header, and an optional plain-text body.
#[derive(Debug)]
pub struct Response {
    pub status: u16,
    pub location: Option<String>,
    pub body: Option<Vec<u8>>,
}

/// A 404 with an empty body.
pub open spec fn is_not_found(r: Response) -> bool {
    r.status == 404 && r.location is None && r.body is None
}

/// A 400 whose body is the given plain-text reason.
pub open spec fn is_bad_request(r: Response, reason: Seq<char>) -> bool {
    &&& r.status == 400
    &&& r.location is None
    &&& r.body matches Some(b) && b@ == encode_utf8(reason)
}

/// Why a create request was refused; every variant is a client error.
pub enum CreateError {
    Bad(&'static str),
}

impl CreateError {
    /// The response a refusal maps to: 400 with the reason as body.
    pub fn into_response(self) -> (r: Response)
        ensures
            match self {
                CreateError::Bad(reason) => is_bad_request(r, reason@),
            },
    {
        match self {
            CreateError::Bad(reason) => Response {
                status: 400,
                location: None,
                body: Some(reason.as_bytes_vec()),
            },
        }
    }
}

/// The characters of an optional string.
pub open spec fn opt_str_view(o: Option<String>) -> Option<Seq<char>> {
    match o {
        Some(s) => Some(s@),
        None => None,
    }
}

/// Whether a submitted password opens the write gate: always when no
/// secret is configured, otherwise exactly on the matching password.
pub open spec fn password_accepts(secret: Option<Seq<char>>, password: Option<Seq<char>>) -> bool {
    match secret {
        None => true,
        Some(s) => password == Some(s),
    }
}

/// Checks the submitted password against the configured secret, as
/// [`password_accepts`] describes.
pub fn password_ok(secret: &Option<String>, password: &Option<String>) -> (r: bool)
    ensures
        r == password_accepts(opt_str_view(*secret), opt_str_view(*password)),
{
    match (secret, password) {
        (None, _) => true,
        (Some(s), Some(p)) => *s == *p,
        (Some(_), None) => false,
    }
}

/// What one redirect-causing lookup does to the table: the first record
/// carrying the code has its counter bumped, if it can still grow;
/// otherwise, and when no record matches, the table is untouched.
pub open spec fn visit_step(s: Seq<UrlV>, code: Seq<char>) -> Seq<UrlV> {
    match find_code(s, code) {
        Some(i) => if s[i].count < u64::MAX {
            s.update(i, bumped(s[i]))
        } else {
            s
        },
        None => s,
    }
}

/// The response of a redirect lookup: 301 with the stored target as
/// `Location` when the code is known, 404 otherwise.
pub open spec fn spec_redirect_response(s: Seq<UrlV>, code: Seq<char>, r: Response) -> bool {
    match find_code(s, code) {
        Some(i) => {
            &&& r.status == 301
            &&& r.location matches Some(l) && l@ == s[i].url
            &&& r.body is None
        },
        None => is_not_found(r),
    }
}

/// The response of a count query: 200 with the decimal counter as body
/// when the code is known, 404 otherwise.
pub open spec fn spec_count_response(s: Seq<UrlV>, code: Seq<char>, r: Response) -> bool {
    match find_code(s, code) {
        Some(i) => {
            &&& r.status == 200
            &&& r.location is None
            &&& r.body matches Some(b) && b@ == dec_digits(s[i].count as nat)
        },
        None => is_not_found(r),
    }
}

/// A lookup path that asks for the counter: it ends with the marker
/// `~`.
pub open spec fn is_count_query(code: Seq<char>) -> bool {
    code.len() > 0 && code.last() == '~'
}

/// Splits off the count-query marker: the code before the trailing `~`,
/// when the path ends with it.
pub fn count_query_code(request_code: &str) -> (r: Option<String>)
    ensures
        r is Some <==> is_count_query(request_code@),
        r matches Some(s) ==> s@ == request_code@.drop_last(),
{
    let n = request_code.unicode_len();
    if n > 0 && request_code.get_char(n - 1) == '~' {
        let stripped = request_code.substring_char(0, n - 1);
        proof {
            assert(stripped@ =~= request_code@.drop_last());
        }
        Some(stripped.to_owned())
    } else {
        None
    }
}

/// A 404 with an empty body.
pub fn not_found_response() -> (r: Response)
    ensures
        is_not_found(r),
{
    Response { status: 404, location: None, body: None }
}

/// A 201 pointing at the fresh code.
pub fn created_response(code: &str) -> (r: Response)
    ensures
        r.status == 201,
        r.location matches Some(l) && l@ == seq!['/'] + code@,
        r.body is None,
    {
    let mut l = String::from_str("/");
    l.append(code);
    proof {
        reveal_strlit("/");
        assert(l@ =~= seq!['/'] + code@);
    }
    Response { status: 201, location: Some(l), body: None }
}

/// A 301 pointing at the stored target.
pub fn redirect_response(target: &str) -> (r: Response)
    ensures
        r.status == 301,
        r.location matches Some(l) && l@ == target@,
        r.body is None,
{
    Response { status: 301, location: Some(target.to_owned()), body: None }
}

/// A 200 whose body is the decimal counter.
pub fn count_response(count: u64) -> (r: Response)
    ensures
        r.status == 200,
        r.location is None,
        r.body matches Some(b) && b@ == dec_digits(count as nat),
{
    Response { status: 200, location: None, body: Some(u64_to_dec(count)) }
}

/// What a create attempt with a resolved code does: when the store can
/// take the record it is appended with a zero counter and the response
/// is 201 with `Location: /<code>`; otherwise the table is untouched
/// and the response is the insertion refusal.
pub open spec fn create_outcome(
    pre: UrlStore,
    post: UrlStore,
    r: Response,
    code: Seq<char>,
    target: Seq<char>,
    now: i64,
) -> bool {
    if pre.can_insert(code, target) {
        &&& post@ == pre@.push(
            (UrlV { id: pre.next_id, code, url: target, create_time: now, count: 0 }),
        )
        &&& post.next_id == pre.next_id + 1
        &&& r.status == 201
        &&& r.location matches Some(l) && l@ == seq!['/'] + code
        &&& r.body is None
    } else {
        &&& post == pre
        &&& is_bad_request(r, "can not insert into database"@)
    }
}

/// The create pipeline: parse the body, check the password, resolve the
/// code, insert, and report.
pub fn create(config: &Config, store: &mut UrlStore, body: &[u8], now: i64) -> (r: Response)
    requires
        old(store).wf(),
    ensures
        final(store).wf(),
        !form_parses(body@) ==> *final(store) == *old(store) && is_bad_request(
            r,
            "body parse failed"@,
        ),
        form_parses(body@) && !password_accepts(
            opt_str_view(config.secret),
            spec_form(body@).password,
        ) ==> *final(store) == *old(store) && is_bad_request(r, "password does not match"@),
        form_parses(body@) && password_accepts(
            opt_str_view(config.secret),
            spec_form(body@).password,
        ) ==> exists|c: Seq<char>|
            #[trigger] resolved_from(spec_form(body@).code, c) && create_outcome(
                *old(store),
                *final(store),
                r,
                c,
                spec_form(body@).url,
                now,
            ),
{
    let form = match parse_create_form(body) {
        Some(f) => f,
        None => {
            return CreateError::Bad("body parse failed").into_response();
        },
    };
    if !password_ok(&config.secret, &form.password) {
        return CreateError::Bad("password does not match").into_response();
    }
    let form = form.ensure_code();
    let insertable = form.as_insertable();
    let ghost c = form@.code->0;
    let result = store.insert(&insertable, now);
    match result {
        Ok(()) => {
            let code = form.code.as_ref().unwrap();
            let resp = created_response(code.as_str());
            proof {
                assert(resolved_from(spec_form(body@).code, c) && create_outcome(
                    *old(store),
                    *store,
                    resp,
                    c,
                    spec_form(body@).url,
                    now,
                ));
            }
            resp
        },
        Err(_) => {
            let resp = CreateError::Bad("can not insert into database").into_response();
            proof {
                assert(resolved_from(spec_form(body@).code, c) && create_outcome(
                    *old(store),
                    *store,
                    resp,
                    c,
                    spec_form(body@).url,
                    now,
                ));
            }
            resp
        },
    }
}

/// The lookup pipeline: a path ending in the marker `~` is a count
/// query on the code before the marker; any other path is a redirect
/// lookup that bumps the counter best-effort.
pub fn lookup(store: &mut UrlStore, request_code: &str) -> (r: Response)
    requires
        old(store).wf(),
    ensures
        final(store).wf(),
        final(store).next_id == old(store).next_id,
        is_count_query(request_code@) ==> *final(store) == *old(store) && spec_count_response(
            old(store)@,
            request_code@.drop_last(),
            r,
        ),
        !is_count_query(request_code@) ==> final(store)@ == visit_step(
            old(store)@,
            request_code@,
        ) && spec_redirect_response(old(store)@, request_code@, r),
{
    if let Some(stripped) = count_query_code(request_code) {
        return lookup_count(store, stripped.as_str());
    }
    let ghost pre = store@;
    proof {
        crate::store::lemma_find_code_spec(pre, request_code@);
    }
    match store.find_by_code(request_code) {
        Some(rec) => {
            let ghost i = find_code(pre, request_code@)->0;
            proof {
                assert(0 <= i < pre.len());
                assert(pre[i] == rec@);
            }
            let result = store.record_visit(rec.id);
            proof {
                match result {
                    Ok(visited) => {
                        let j = choose|j: int|
                            0 <= j < pre.len() && #[trigger] pre[j].id == rec.id && visited@
                                == bumped(pre[j]) && store@ =~= pre.update(j, bumped(pre[j]));
                        assert(pre[i].id == rec.id);
                        if j != i {
                            assert(pre[i].id != pre[j].id);
                        }
                        assert(pre[i].count < u64::MAX);
                        assert(store@ == visit_step(pre, request_code@));
                    },
                    Err(_) => {
                        assert(pre[i].id == rec.id);
                        assert(!(pre[i].count < u64::MAX));
                        assert(store@ == visit_step(pre, request_code@));
                    },
                }
            }
            redirect_response(rec.url.as_str())
        },
        None => not_found_response(),
    }
}

/// The count query: reports the current counter of the code, without
/// touching it.
pub fn lookup_count(store: &UrlStore, request_code: &str) -> (r: Response)
    ensures
        spec_count_response(store@, request_code@, r),
{
    match store.find_by_code(request_code) {
        Some(rec) => count_response(rec.count),
        None => not_found_response(),
    }
}

} // verus!
