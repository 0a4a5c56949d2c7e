//! The request/response contract with the remote registration service.
//!
//! The client holds only connection configuration: a base URL and an
//! optional bearer credential. It builds request bodies and URLs and
//! interprets response bodies; sending the requests is the caller's part,
//! since this library does no network I/O itself.

use vstd::prelude::*;
use vstd::string::StringExecFns;
use vstd::string::StrSliceExecFns;
use crate::error::SdkError;
use crate::json::Json;
use crate::json::Jv;
use crate::json::jparse;
use crate::json::jser;
use crate::json::jv_lookup;
use crate::json::jv_wf;
use crate::schema::Storyboard;
use crate::schema::StoryboardV;
use crate::schema::opt_str_jv;

verus! {

/// Client configuration for the registration service.
#[derive(Debug, Clone)]
pub struct PiplopClient {
    /// Base URL of the service, without a trailing slash.
    pub base_url: String,
    /// Bearer credential attached to registration requests, if any.
    pub api_key: Option<String>,
}

/// The body sent to the registration endpoint: exactly `target_type`,
/// `target_id`, `title` and `description` — no other storyboard field
/// crosses the wire.
pub open spec fn register_body_jv(s: StoryboardV) -> Jv {
    Jv::Obj(
        seq![
            ("target_type"@, Jv::Str("storyboard"@)),
            ("target_id"@, Jv::Str(s.id)),
            ("title"@, Jv::Str(s.title)),
            ("description"@, opt_str_jv(s.description)),
        ],
    )
}

/// The string field `ip_id` of a JSON object, if present.
pub open spec fn ip_id_of(v: Jv) -> Option<Seq<char>> {
    match v {
        Jv::Obj(kvs) => match jv_lookup(kvs, "ip_id"@) {
            Some(Jv::Str(s)) => Some(s),
            _ => None,
        },
        _ => None,
    }
}

impl PiplopClient {
    /// A client for the service at `base_url`, with no credential.
    pub fn new(base_url: &str) -> (r: PiplopClient)
        ensures
            r.base_url@ == base_url@,
            r.api_key is None,
    {
        PiplopClient { base_url: base_url.to_owned(), api_key: None }
    }

    /// The same client with a bearer credential attached.
    pub fn with_api_key(self, api_key: &str) -> (r: PiplopClient)
        ensures
            r.base_url@ == self.base_url@,
            r.api_key matches Some(k) && k@ == api_key@,
    {
        PiplopClient { base_url: self.base_url, api_key: Some(api_key.to_owned()) }
    }

    /// The URL of the registration endpoint.
    pub fn register_url(&self) -> (r: String)
        ensures
            r@ == self.base_url@ + "/api/ip/register"@,
    {
        self.base_url.clone().concat("/api/ip/register")
    }

    /// The URL of the status endpoint for a registration identifier.
    pub fn status_url(&self, ip_id: &str) -> (r: String)
        ensures
            r@ == self.base_url@ + "/api/ip/"@ + ip_id@,
    {
        self.base_url.clone().concat("/api/ip/").concat(ip_id)
    }

    /// The value of the `Authorization` header for registration requests,
    /// when a credential is attached.
    pub fn auth_header(&self) -> (r: Option<String>)
        ensures
            match self.api_key {
                Some(k) => r matches Some(h) && h@ == "Bearer "@ + k@,
                None => r is None,
            },
    {
        match &self.api_key {
            Some(k) => {
                let mut h = String::from_str("Bearer ");
                h.append(k.as_str());
                Some(h)
            },
            None => None,
        }
    }

    /// The registration request body for a storyboard, as a JSON value.
    pub fn register_request_json(&self, storyboard: &Storyboard) -> (r: Json)
        ensures
            r.deep_view() == register_body_jv(storyboard.deep_view()),
    {
        let mut o: Vec<(String, Json)> = Vec::new();
        o.push((String::from_str("target_type"), Json::Str(String::from_str("storyboard"))));
        o.push((String::from_str("target_id"), Json::Str(storyboard.id.clone())));
        o.push((String::from_str("title"), Json::Str(storyboard.title.clone())));
        let descr: Json = match &storyboard.description {
            Some(d) => Json::Str(d.clone()),
            None => Json::Null,
        };
        o.push((String::from_str("description"), descr));
        let r = Json::Obj(o);
        proof {
            let kvs = r.deep_view()->Obj_0;
            let want = register_body_jv(storyboard.deep_view())->Obj_0;
            assert(kvs.len() == 4);
            assert(o@.len() == 4);
            assert(o@[0].0@ == "target_type"@);
            assert(kvs[0] == crate::json::entry_view(o@[0]));
            assert(kvs[0] == want[0]);
            assert(o@[1].0@ == "target_id"@);
            assert(kvs[1] == crate::json::entry_view(o@[1]));
            assert(kvs[1] == want[1]);
            assert(o@[2].0@ == "title"@);
            assert(kvs[2] == crate::json::entry_view(o@[2]));
            assert(kvs[2] == want[2]);
            assert(o@[3].0@ == "description"@);
            assert(kvs[3] == crate::json::entry_view(o@[3]));
            assert(kvs[3] == want[3]);
            assert(kvs =~= want);
        }
        r
    }

    /// The registration request body as JSON text, ready to send.
    pub fn register_request_body(&self, storyboard: &Storyboard) -> (r: String)
        ensures
            r@ == jser(register_body_jv(storyboard.deep_view())),
    {
        let j = self.register_request_json(storyboard);
        j.to_text()
    }

    /// Interprets the registration response.
    ///
    /// `success` is whether the HTTP status was a success status; `body` is
    /// the response body text. On a non-success status the body text is the
    /// error detail, verbatim. On success the body must be a JSON object
    /// with a string field `ip_id`, which is the registration identifier;
    /// a body that is not JSON is a transport error, and a JSON body
    /// without the field is a domain error with a fixed message.
    pub fn interpret_register_response(&self, success: bool, body: &str) -> (r: Result<
        String,
        SdkError,
    >)
        ensures
            !success ==> (r matches Err(e) && e matches SdkError::StoryProtocol(m) && m@
                == body@),
            success ==> match jparse(body@) {
                None => r matches Err(e) && e is Http,
                Some(v) => match ip_id_of(v) {
                    Some(s) => r matches Ok(id) && id@ == s,
                    None => r matches Err(e) && e matches SdkError::StoryProtocol(m) && m@
                        == "No IP ID in response"@,
                },
            },
    {
        if !success {
            return Err(SdkError::StoryProtocol(body.to_owned()));
        }
        let v = match crate::json::parse_json(body) {
            Ok(v) => v,
            Err(_) => {
                return Err(SdkError::Http(String::from_str("response body is not JSON")));
            },
        };
        match v.get("ip_id") {
            Some(f) => match f {
                Json::Str(s) => Ok(s.clone()),
                _ => Err(SdkError::StoryProtocol(String::from_str("No IP ID in response"))),
            },
            None => Err(SdkError::StoryProtocol(String::from_str("No IP ID in response"))),
        }
    }

    /// Interprets a status response: the body parsed as JSON, verbatim.
    ///
    /// A body that cannot be parsed is a transport error.
    pub fn interpret_status_response(&self, body: &str) -> (r: Result<Json, SdkError>)
        ensures
            match r {
                Ok(v) => jparse(body@) == Some(v.deep_view()) && jv_wf(v.deep_view()),
                Err(e) => jparse(body@) is None && e is Http,
            },
    {
        match crate::json::parse_json(body) {
            Ok(v) => Ok(v),
            Err(_) => Err(SdkError::Http(String::from_str("response body is not JSON"))),
        }
    }
}

} // verus!
