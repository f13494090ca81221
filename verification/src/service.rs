//! The decisions of each endpoint of the shortener. A handler that talks to
//! the database is split in steps: a step takes what the request carries
//! and what the last database call gave back, and says either what to do
//! next or what to answer.
use vstd::prelude::*;
use crate::analytics::{
    clicks_sum, count_links, is_most_clicked, law_running_total_is_sum, law_most_clicked_complete, law_most_clicked_ranked, is_most_recent, link_count, most_clicked, most_recent,
    running_total, total_clicks, RECENT_CLICKS_LIMIT, TOP_LIMIT,
};
use crate::code::{generate_code, is_generated_code};
use crate::model::{
    ApiError, ApiResponse, ClickLog, GlobalStats, Link, LinkStats, ShortenRequest,
    ShortenResponse, Status,
};
use crate::text::{concat2, concat3, contains, has_prefix, has_substring, same_text, starts_with};

verus! {

// ---------------------------------------------------------------------------
// Messages
// ---------------------------------------------------------------------------

/// The message for a missing or wrong API key.
pub open spec fn unauthorized_message() -> Seq<char> {
    "invalid or missing API key"@
}

/// The message for a URL that is not http or https.
pub open spec fn invalid_url_message() -> Seq<char> {
    "URL must start with http:// or https://"@
}

/// The message for a code that another link already has.
pub open spec fn taken_message(code: Seq<char>) -> Seq<char> {
    "code '"@ + code + "' is already taken, try a different custom_code"@
}

/// The message for a failed database call, with the database's own text.
pub open spec fn database_message(detail: Seq<char>) -> Seq<char> {
    "database error: "@ + detail
}

/// The message for a redirect to a code that no link has.
pub open spec fn no_link_message(code: Seq<char>) -> Seq<char> {
    "no link found for '"@ + code + "'"@
}

/// The message for statistics or deletion of a code that no link has.
pub open spec fn link_not_found_message(code: Seq<char>) -> Seq<char> {
    "link '"@ + code + "' not found"@
}

/// The message confirming a deletion.
pub open spec fn link_deleted_message(code: Seq<char>) -> Seq<char> {
    "link '"@ + code + "' deleted"@
}

/// The database's text for a sum or count that overflows 64 bits.
pub open spec fn overflow_detail() -> Seq<char> {
    "error returned from database: (code: 1) integer overflow"@
}

/// `e` answers with `status` and `message`.
pub open spec fn is_error(e: ApiError, status: Status, message: Seq<char>) -> bool {
    e.status == status && e.message@ == message
}

// ---------------------------------------------------------------------------
// Rules
// ---------------------------------------------------------------------------

/// The key a request presents: its `x-api-key` header, or nothing.
pub open spec fn presented_key(provided: Option<&str>) -> Seq<char> {
    match provided {
        Some(k) => k@,
        None => Seq::empty(),
    }
}

/// A request is let in when the key it presents is the API key.
pub open spec fn key_accepted(provided: Option<&str>, api_key: &str) -> bool {
    presented_key(provided) == api_key@
}

/// A URL that can be shortened: it starts with `http://` or `https://`.
pub open spec fn is_web_url(url: Seq<char>) -> bool {
    has_prefix(url, "http://"@) || has_prefix(url, "https://"@)
}

/// `code` is a code the service may give a new link: the code the caller
/// chose when that is not empty, else a generated one.
pub open spec fn is_chosen_code(custom: Option<String>, code: Seq<char>) -> bool {
    match custom {
        Some(c) => if c@.len() > 0 {
            code == c@
        } else {
            is_generated_code(code)
        },
        None => is_generated_code(code),
    }
}

/// The short URL of `code`: the base URL, a slash and the code.
pub open spec fn short_url_of(base_url: Seq<char>, code: Seq<char>) -> Seq<char> {
    base_url + "/"@ + code
}

/// The user agent recorded for a click: the request's `user-agent` header,
/// or `unknown`.
pub open spec fn recorded_agent(user_agent: Option<&str>) -> Seq<char> {
    match user_agent {
        Some(a) => a@,
        None => "unknown"@,
    }
}

// ---------------------------------------------------------------------------
// Steps
// ---------------------------------------------------------------------------

/// A link to store: its code and its target.
#[derive(Debug)]
pub struct NewLink {
    pub code: String,
    pub original_url: String,
}

/// A click to record before redirecting to `target`.
#[derive(Debug)]
pub struct ClickRecord {
    pub code: String,
    pub user_agent: String,
    pub target: String,
}

/// Permission given to a request whose key was accepted: it holds that key.
/// Only `check_auth` makes one.
pub struct Authorized {
    key: String,
}

impl Authorized {
    /// The key this request was let in with.
    pub closed spec fn granted_key(self) -> Seq<char> {
        self.key@
    }
}

/// `auth` was given for the service's API key `api_key`.
pub open spec fn admitted(auth: Authorized, api_key: &str) -> bool {
    auth.granted_key() == api_key@
}

/// An error answer.
fn error(status: Status, message: String) -> (e: ApiError)
    ensures
        e.status == status,
        e.message@ == message@,
{
    ApiError { status, message }
}

/// The answer to a failed database call whose error reads `detail`.
pub fn database_error(detail: &str) -> (e: ApiError)
    ensures
        is_error(e, Status::InternalServerError, database_message(detail@)),
{
    proof {
        reveal_strlit("database error: ");
    }
    error(Status::InternalServerError, concat2("database error: ", detail))
}

/// Lets a request in when the key it presents (`provided`, the `x-api-key`
/// header, absent or unreadable as `None`) equals the API key; a missing
/// header counts as the empty key.
pub fn check_auth(provided: Option<&str>, api_key: &str) -> (r: Result<Authorized, ApiError>)
    ensures
        r is Ok <==> key_accepted(provided, api_key),
        provided matches Some(k) ==> (r is Ok <==> k@ == api_key@),
        provided is None ==> (r is Ok <==> api_key@.len() == 0),
        r matches Ok(a) ==> a.granted_key() == api_key@,
        r matches Err(e) ==> is_error(e, Status::Unauthorized, unauthorized_message()),
{
    let presented: &str = match provided {
        Some(k) => k,
        None => "",
    };
    proof {
        reveal_strlit("");
        if provided is None {
            assert(presented@ =~= Seq::<char>::empty());
        }
        if api_key@.len() == 0 {
            assert(api_key@ =~= Seq::<char>::empty());
        }
    }
    assert(presented@ == presented_key(provided));
    if !same_text(presented, api_key) {
        return Err(
            error(Status::Unauthorized, String::from_str("invalid or missing API key")),
        );
    }
    Ok(Authorized { key: String::from_str(api_key) })
}

/// Lets a step of a protected endpoint go on only with a permission given
/// for the service's API key.
fn require_permission(auth: &Authorized, api_key: &str) -> (r: Result<(), ApiError>)
    ensures
        r is Ok <==> admitted(*auth, api_key),
        r matches Err(e) ==> is_error(e, Status::Unauthorized, unauthorized_message()),
{
    if !same_text(auth.key.as_str(), api_key) {
        return Err(
            error(Status::Unauthorized, String::from_str("invalid or missing API key")),
        );
    }
    Ok(())
}

/// The answer of the health check.
pub fn health() -> (r: ApiResponse)
    ensures
        r.message@ == "ok"@,
{
    ApiResponse { message: String::from_str("ok") }
}

/// The answer to a path that no route serves.
pub fn not_found() -> (e: ApiError)
    ensures
        is_error(e, Status::NotFound, "not found"@),
{
    error(Status::NotFound, String::from_str("not found"))
}

/// Whether `url` starts with `http://` or `https://`.
pub fn is_valid_url(url: &str) -> (r: bool)
    ensures
        r == is_web_url(url@),
{
    starts_with(url, "http://") || starts_with(url, "https://")
}

/// The code for a new link: the caller's code when it is given and not
/// empty, else a freshly generated one.
pub fn choose_code(custom: &Option<String>) -> (code: String)
    ensures
        is_chosen_code(*custom, code@),
        custom matches Some(c) ==> (c@.len() > 0 ==> code@ == c@),
        !(custom matches Some(c) && c@.len() > 0) ==> code@.len() == 6,
{
    match custom {
        Some(c) => {
            if !c.as_str().is_empty() {
                c.clone()
            } else {
                generate_code()
            }
        },
        None => generate_code(),
    }
}

/// First step of shortening: checks the key (`provided` is the
/// `x-api-key` header), then the URL, then picks the code. On success the
/// link to insert.
pub fn shorten_url(provided: Option<&str>, api_key: &str, request: &ShortenRequest) -> (r: Result<
    NewLink,
    ApiError,
>)
    ensures
        match r {
            Ok(link) => {
                &&& key_accepted(provided, api_key)
                &&& is_web_url(request.url@)
                &&& link.original_url@ == request.url@
                &&& is_chosen_code(request.custom_code, link.code@)
                &&& (request.custom_code matches Some(c) ==> (c@.len() > 0 ==> link.code@ == c@))
            },
            Err(e) => if !key_accepted(provided, api_key) {
                is_error(e, Status::Unauthorized, unauthorized_message())
            } else {
                !is_web_url(request.url@) && is_error(
                    e,
                    Status::BadRequest,
                    invalid_url_message(),
                )
            },
        },
{
    check_auth(provided, api_key)?;
    if !is_valid_url(request.url.as_str()) {
        return Err(
            error(
                Status::BadRequest,
                String::from_str("URL must start with http:// or https://"),
            ),
        );
    }
    let code = choose_code(&request.custom_code);
    Ok(NewLink { code, original_url: request.url.clone() })
}

/// Last step of shortening: the answer once the insert of `link` has run.
/// `inserted` is `Err` with the database's error text when it failed; a
/// failure that mentions `UNIQUE` means the code is taken.
pub fn shorten_url_outcome(base_url: &str, link: &NewLink, inserted: &Result<(), String>) -> (r:
    Result<(Status, ShortenResponse), ApiError>)
    ensures
        match inserted {
            Ok(_) => r matches Ok((status, body)) && status == Status::Created && body.code@
                == link.code@ && body.short_url@ == short_url_of(base_url@, link.code@)
                && body.short_url@ == base_url@ + "/"@ + link.code@
                && body.original_url@ == link.original_url@,
            Err(detail) => r matches Err(e) && if has_substring(detail@, "UNIQUE"@) {
                is_error(e, Status::Conflict, taken_message(link.code@))
            } else {
                is_error(e, Status::InternalServerError, database_message(detail@))
            },
        },
{
    match inserted {
        Ok(_) => {
            proof {
                reveal_strlit("/");
            }
            let short_url = concat3(base_url, "/", link.code.as_str());
            Ok(
                (
                    Status::Created,
                    ShortenResponse {
                        code: link.code.clone(),
                        short_url,
                        original_url: link.original_url.clone(),
                    },
                ),
            )
        },
        Err(detail) => {
            if contains(detail.as_str(), "UNIQUE") {
                proof {
                    reveal_strlit("code '");
                    reveal_strlit("' is already taken, try a different custom_code");
                }
                Err(
                    error(
                        Status::Conflict,
                        concat3(
                            "code '",
                            link.code.as_str(),
                            "' is already taken, try a different custom_code",
                        ),
                    ),
                )
            } else {
                Err(database_error(detail.as_str()))
            }
        },
    }
}

/// The user agent to record: the `user-agent` header, or `unknown`.
pub fn user_agent_or_unknown(user_agent: Option<&str>) -> (r: String)
    ensures
        r@ == recorded_agent(user_agent),
        user_agent matches Some(a) ==> r@ == a@,
        user_agent is None ==> r@ == "unknown"@,
{
    match user_agent {
        Some(a) => String::from_str(a),
        None => String::from_str("unknown"),
    }
}

/// The redirect decision once the target of `code` has been looked up:
/// `found` is the database's answer (`Err` with its error text when the
/// lookup failed). On success the click to record and the target.
pub fn redirect_link(code: &str, found: &Result<Option<String>, String>, user_agent: Option<&str>) -> (r:
    Result<ClickRecord, ApiError>)
    ensures
        match found {
            Err(detail) => r matches Err(e) && is_error(
                e,
                Status::InternalServerError,
                database_message(detail@),
            ),
            Ok(None) => r matches Err(e) && is_error(e, Status::NotFound, no_link_message(code@)),
            Ok(Some(url)) => r matches Ok(click) && click.code@ == code@ && click.target@ == url@
                && click.user_agent@ == recorded_agent(user_agent) && (user_agent matches Some(a)
                ==> click.user_agent@ == a@),
        },
{
    match found {
        Err(detail) => Err(database_error(detail.as_str())),
        Ok(None) => {
            proof {
                reveal_strlit("no link found for '");
                reveal_strlit("'");
            }
            Err(error(Status::NotFound, concat3("no link found for '", code, "'")))
        },
        Ok(Some(url)) => Ok(
            ClickRecord {
                code: String::from_str(code),
                user_agent: user_agent_or_unknown(user_agent),
                target: url.clone(),
            },
        ),
    }
}

/// The listing of all links once they have been read (`rows`, or the
/// database's error text), most clicked first. Runs only for a request let
/// in by `check_auth`.
pub fn list_links(auth: &Authorized, api_key: &str, rows: &Result<Vec<Link>, String>) -> (r: Result<
    Vec<Link>,
    ApiError,
>)
    ensures
        if !admitted(*auth, api_key) {
            r matches Err(e) && is_error(e, Status::Unauthorized, unauthorized_message())
        } else {
            match rows {
                Err(detail) => r matches Err(e) && is_error(
                    e,
                    Status::InternalServerError,
                    database_message(detail@),
                ),
                Ok(all) => r matches Ok(listed) && is_most_clicked(all@, all@.len(), listed@)
                    && listed@.len() == all@.len() && (forall|j: usize|
                    j < all@.len() ==> listed@.contains(#[trigger] all@[j as int])) && (forall|
                    a: int,
                    b: int,
                | 0 <= a < b < listed@.len() ==> listed@[a].clicks >= listed@[b].clicks),
            }
        },
{
    require_permission(auth, api_key)?;
    match rows {
        Err(detail) => Err(database_error(detail.as_str())),
        Ok(all) => {
            let listed = most_clicked(all, all.len());
            proof {
                law_most_clicked_complete(all@, all@.len(), listed@);
                law_most_clicked_ranked(all@, all@.len(), listed@);
            }
            Ok(listed)
        },
    }
}

/// First step of the statistics of `code`, once the link has been looked up
/// (`found`, or the database's error text). On success the link, whose
/// clicks are to be read next. Runs only for a request let in by
/// `check_auth`.
pub fn link_stats(auth: &Authorized, api_key: &str, code: &str, found: Result<Option<Link>, String>) -> (r: Result<Link, ApiError>)
    ensures
        if !admitted(*auth, api_key) {
            r matches Err(e) && is_error(e, Status::Unauthorized, unauthorized_message())
        } else {
            match found {
                Err(detail) => r matches Err(e) && is_error(
                    e,
                    Status::InternalServerError,
                    database_message(detail@),
                ),
                Ok(None) => r matches Err(e) && is_error(
                    e,
                    Status::NotFound,
                    link_not_found_message(code@),
                ),
                Ok(Some(link)) => r == Ok::<Link, ApiError>(link),
            }
        },
{
    require_permission(auth, api_key)?;
    match found {
        Err(detail) => Err(database_error(detail.as_str())),
        Ok(None) => {
            proof {
                reveal_strlit("link '");
                reveal_strlit("' not found");
            }
            Err(error(Status::NotFound, concat3("link '", code, "' not found")))
        },
        Ok(Some(link)) => Ok(link),
    }
}

/// Last step of the statistics of `link`, once its clicks have been read
/// (`clicks`, or the database's error text): the link with its
/// `RECENT_CLICKS_LIMIT` newest clicks, newest first.
pub fn link_stats_outcome(link: Link, clicks: &Result<Vec<ClickLog>, String>) -> (r: Result<
    LinkStats,
    ApiError,
>)
    ensures
        match clicks {
            Err(detail) => r matches Err(e) && is_error(
                e,
                Status::InternalServerError,
                database_message(detail@),
            ),
            Ok(all) => r matches Ok(stats) && stats.link == link && is_most_recent(
                all@,
                RECENT_CLICKS_LIMIT as nat,
                stats.recent_clicks@,
            ),
        },
{
    match clicks {
        Err(detail) => Err(database_error(detail.as_str())),
        Ok(all) => Ok(LinkStats { link, recent_clicks: most_recent(all, RECENT_CLICKS_LIMIT) }),
    }
}

/// The global analytics once the links have been read (`rows`, or the
/// database's error text): the number of links, the total of their clicks
/// and the `TOP_LIMIT` most clicked. A count or total that overflows 64 bits
/// is a database error, as the database reports it. Runs only for a request
/// let in by `check_auth`.
pub fn global_analytics(auth: &Authorized, api_key: &str, rows: &Result<Vec<Link>, String>) -> (r: Result<GlobalStats, ApiError>)
    ensures
        if !admitted(*auth, api_key) {
            r matches Err(e) && is_error(e, Status::Unauthorized, unauthorized_message())
        } else {
            match rows {
                Err(detail) => r matches Err(e) && is_error(
                    e,
                    Status::InternalServerError,
                    database_message(detail@),
                ),
                Ok(all) => match (link_count(all@), running_total(all@)) {
                    (Some(n), Some(t)) => r matches Ok(stats) && stats.total_links == n
                        && stats.total_links as int == all@.len() && stats.total_clicks == t
                        && stats.total_clicks as int == clicks_sum(all@) && is_most_clicked(
                        all@,
                        TOP_LIMIT as nat,
                        stats.top_links@,
                    ),
                    _ => r matches Err(e) && is_error(
                        e,
                        Status::InternalServerError,
                        database_message(overflow_detail()),
                    ),
                },
            }
        },
{
    require_permission(auth, api_key)?;
    match rows {
        Err(detail) => Err(database_error(detail.as_str())),
        Ok(all) => {
            proof {
                reveal_strlit("error returned from database: (code: 1) integer overflow");
            }
            let n = match count_links(all) {
                Some(n) => n,
                None => {
                    return Err(database_error("error returned from database: (code: 1) integer overflow"));
                },
            };
            let t = match total_clicks(all) {
                Some(t) => t,
                None => {
                    return Err(database_error("error returned from database: (code: 1) integer overflow"));
                },
            };
            proof {
                law_running_total_is_sum(all@);
            }
            Ok(GlobalStats { total_links: n, total_clicks: t, top_links: most_clicked(all, TOP_LIMIT) })
        },
    }
}

/// First step after deleting `code`: `deleted` is the number of links
/// removed, or the database's error text. `Ok` when the link is gone; its
/// clicks are to be removed next. Runs only for a request let in by
/// `check_auth`.
pub fn delete_link(auth: &Authorized, api_key: &str, code: &str, deleted: &Result<u64, String>) -> (r: Result<
    (),
    ApiError,
>)
    ensures
        if !admitted(*auth, api_key) {
            r matches Err(e) && is_error(e, Status::Unauthorized, unauthorized_message())
        } else {
            match deleted {
                Err(detail) => r matches Err(e) && is_error(
                    e,
                    Status::InternalServerError,
                    database_message(detail@),
                ),
                Ok(n) => if *n == 0 {
                    r matches Err(e) && is_error(e, Status::NotFound, link_not_found_message(code@))
                } else {
                    r is Ok
                },
            }
        },
{
    require_permission(auth, api_key)?;
    match deleted {
        Err(detail) => Err(database_error(detail.as_str())),
        Ok(n) => {
            proof {
                reveal_strlit("link '");
                reveal_strlit("' not found");
            }
            if *n == 0 {
                Err(error(Status::NotFound, concat3("link '", code, "' not found")))
            } else {
                Ok(())
            }
        },
    }
}

/// Last step of deleting `code`, once its clicks have been removed
/// (`cleared` is the number of click records removed, or the database's
/// error text): the deletion is confirmed only when the click history is
/// gone too.
pub fn delete_link_outcome(code: &str, cleared: &Result<u64, String>) -> (r: Result<
    ApiResponse,
    ApiError,
>)
    ensures
        match cleared {
            Err(detail) => r matches Err(e) && is_error(
                e,
                Status::InternalServerError,
                database_message(detail@),
            ),
            Ok(_) => r matches Ok(body) && body.message@ == link_deleted_message(code@),
        },
{
    match cleared {
        Err(detail) => Err(database_error(detail.as_str())),
        Ok(_) => {
            proof {
                reveal_strlit("link '");
                reveal_strlit("' deleted");
            }
            Ok(ApiResponse { message: concat3("link '", code, "' deleted") })
        },
    }
}

// ---------------------------------------------------------------------------
// Laws
// ---------------------------------------------------------------------------

/// A request is let in exactly when the key it presents is the API key,
/// character for character; a request without the header presents the
/// empty key.
pub proof fn law_key_must_match(k: &str, api_key: &str)
    ensures
        key_accepted(Some(k), api_key) <==> k@ == api_key@,
        key_accepted(None, api_key) <==> api_key@.len() == 0,
{
    if api_key@.len() == 0 {
        assert(api_key@ =~= Seq::<char>::empty());
    }
}

/// The short URL of a link is the base URL, a slash and the code: it starts
/// with the base URL, ends with the code, and two codes give the same short
/// URL only when they are the same.
pub proof fn law_short_url_names_code(base: Seq<char>, c1: Seq<char>, c2: Seq<char>)
    ensures
        short_url_of(base, c1).len() == base.len() + 1 + c1.len(),
        short_url_of(base, c1).take(base.len() as int) == base,
        short_url_of(base, c1)[base.len() as int] == '/',
        short_url_of(base, c1).skip((base.len() + 1) as int) == c1,
        short_url_of(base, c1) == short_url_of(base, c2) <==> c1 == c2,
{
    reveal_strlit("/");
    let s1 = short_url_of(base, c1);
    let s2 = short_url_of(base, c2);
    assert(s1.take(base.len() as int) =~= base);
    assert(s1.skip((base.len() + 1) as int) =~= c1);
    assert(s2.skip((base.len() + 1) as int) =~= c2);
}

/// A URL is accepted exactly when it starts with `http://` or `https://`:
/// any text after either prefix makes an accepted URL.
pub proof fn law_web_url(rest: Seq<char>, url: Seq<char>)
    ensures
        is_web_url("http://"@ + rest),
        is_web_url("https://"@ + rest),
        is_web_url(url) <==> (url.len() >= 7 && url.take(7) == "http://"@) || (url.len() >= 8
            && url.take(8) == "https://"@),
{
    reveal_strlit("http://");
    reveal_strlit("https://");
    assert(("http://"@ + rest).take(7) =~= "http://"@);
    assert(("https://"@ + rest).take(8) =~= "https://"@);
}

/// A custom code is kept whole: when the request carries a non-empty custom
/// code, the only code the new link may get is that code, character for
/// character, whatever its length; without one, the code has six
/// characters.
pub proof fn law_custom_code_kept_whole(custom: String, code: Seq<char>)
    ensures
        custom@.len() > 0 ==> (is_chosen_code(Some(custom), code) <==> code == custom@),
        custom@.len() == 0 && is_chosen_code(Some(custom), code) ==> code.len() == 6,
        is_chosen_code(None, code) ==> code.len() == 6,
{
}

/// The user agent recorded for a click is the whole `user-agent` header:
/// two requests record the same agent exactly when their headers are the
/// same, and a request without the header records `unknown`.
pub proof fn law_agent_recorded_whole(a: &str, b: &str)
    ensures
        recorded_agent(Some(a)) == a@,
        recorded_agent(Some(a)).len() == a@.len(),
        recorded_agent(Some(a)) == recorded_agent(Some(b)) <==> a@ == b@,
        recorded_agent(None) == "unknown"@,
{
}

} // verus!
