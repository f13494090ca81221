//! The records the service stores and the bodies it answers with.
use vstd::prelude::*;

verus! {

/// HTTP statuses the service answers with.
#[derive(Clone, Copy, Debug, PartialEq, Eq, Structural)]
pub enum Status {
    Success,
    Created,
    BadRequest,
    Unauthorized,
    NotFound,
    Conflict,
    InternalServerError,
}

/// The numeric HTTP code of a status.
pub open spec fn status_code(s: Status) -> u16 {
    match s {
        Status::Success => 200,
        Status::Created => 201,
        Status::BadRequest => 400,
        Status::Unauthorized => 401,
        Status::NotFound => 404,
        Status::Conflict => 409,
        Status::InternalServerError => 500,
    }
}

/// Each status answers with its standard HTTP code, and no two statuses
/// share a code.
pub proof fn law_status_codes(a: Status, b: Status)
    ensures
        status_code(Status::Success) == 200,
        status_code(Status::Created) == 201,
        status_code(Status::BadRequest) == 400,
        status_code(Status::Unauthorized) == 401,
        status_code(Status::NotFound) == 404,
        status_code(Status::Conflict) == 409,
        status_code(Status::InternalServerError) == 500,
        status_code(a) == status_code(b) <==> a == b,
{
}

impl Status {
    /// The numeric HTTP code of this status.
    pub fn code(&self) -> (c: u16)
        ensures
            c == status_code(*self),
    {
        match self {
            Status::Success => 200,
            Status::Created => 201,
            Status::BadRequest => 400,
            Status::Unauthorized => 401,
            Status::NotFound => 404,
            Status::Conflict => 409,
            Status::InternalServerError => 500,
        }
    }
}

/// A JSON body holding a message.
#[derive(Debug)]
pub struct ApiResponse {
    pub message: String,
}

/// A refused request: the status and the message of the JSON body.
#[derive(Debug)]
pub struct ApiError {
    pub status: Status,
    pub message: String,
}

/// A short link as stored: its row id, code, target, click count and
/// creation time.
#[derive(Debug)]
pub struct Link {
    pub id: i64,
    pub code: String,
    pub original_url: String,
    pub clicks: i64,
    pub created_at: String,
}

impl Link {
    /// A copy of this link.
    pub fn duplicate(&self) -> (r: Link)
        ensures
            r == *self,
    {
        Link {
            id: self.id,
            code: self.code.clone(),
            original_url: self.original_url.clone(),
            clicks: self.clicks,
            created_at: self.created_at.clone(),
        }
    }
}

/// One recorded click on a link.
#[derive(Debug)]
pub struct ClickLog {
    pub id: i64,
    pub code: String,
    pub user_agent: String,
    pub clicked_at: String,
}

impl ClickLog {
    /// A copy of this click record.
    pub fn duplicate(&self) -> (r: ClickLog)
        ensures
            r == *self,
    {
        ClickLog {
            id: self.id,
            code: self.code.clone(),
            user_agent: self.user_agent.clone(),
            clicked_at: self.clicked_at.clone(),
        }
    }
}

/// A request to shorten `url`, with an optional code chosen by the caller.
#[derive(Debug)]
pub struct ShortenRequest {
    pub url: String,
    pub custom_code: Option<String>,
}

/// The answer to a successful shortening.
#[derive(Debug)]
pub struct ShortenResponse {
    pub code: String,
    pub short_url: String,
    pub original_url: String,
}

/// Totals over all links and the most clicked ones.
#[derive(Debug)]
pub struct GlobalStats {
    pub total_links: i64,
    pub total_clicks: i64,
    pub top_links: Vec<Link>,
}

/// One link with its most recent clicks.
#[derive(Debug)]
pub struct LinkStats {
    pub link: Link,
    pub recent_clicks: Vec<ClickLog>,
}

} // verus!
