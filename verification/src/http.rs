//! What the redirect endpoint answers: the HTTP side of a visit, and the
//! small documents the service hands out about itself.

use vstd::prelude::*;
use crate::config::Config;
use crate::i18n::AVAILABLE_LOCALES;
use crate::materializer::{ActionView, MaterializeError, RedirectAction};
use crate::reply::{filled, named, param, plain};
use crate::text::opt_text;
use crate::translate::{param_views, Params, Translations};

verus! {

/// Status of a successful answer.
pub const STATUS_OK: u16 = 200;

/// Status that sends the browser on, keeping the request method.
pub const STATUS_TEMPORARY_REDIRECT: u16 = 307;

/// Status of an answer to a request that cannot be served.
pub const STATUS_BAD_REQUEST: u16 = 400;

/// Status of an answer about something that does not exist.
pub const STATUS_NOT_FOUND: u16 = 404;

/// Status of an answer after a failure on the service's side.
pub const STATUS_INTERNAL_SERVER_ERROR: u16 = 500;

/// An HTTP answer: a status, the place to go on to where there is one, and
/// a text.
#[derive(Debug, Clone)]
pub struct HttpReply {
    pub status: u16,
    /// Value of the `Location` header.
    pub location: Option<String>,
    pub body: String,
}

/// Mathematical model of an `HttpReply`.
pub ghost struct HttpReplyView {
    pub status: u16,
    pub location: Option<Seq<char>>,
    pub body: Seq<char>,
}

impl View for HttpReply {
    type V = HttpReplyView;

    open spec fn view(&self) -> HttpReplyView {
        HttpReplyView { status: self.status, location: opt_text(self.location), body: self.body@ }
    }
}

/// The view of an optional answer.
pub open spec fn opt_reply(reply: Option<HttpReply>) -> Option<HttpReplyView> {
    match reply {
        Some(r) => Some(r@),
        None => None,
    }
}

/// The answer that turns a browser away with the text under `key`.
pub open spec fn rejection(translations: Translations, config: Config, status: u16, key: Seq<char>) -> HttpReplyView {
    HttpReplyView {
        status,
        location: None,
        body: plain(translations, config.i18n.default_locale@, key),
    }
}

/// The HTTP answer that carries out `action`: a temporary redirect, or a
/// rejection with a text in the default locale. An action that asks for a
/// code to be minted has no answer yet. `detail` is what the platform said
/// when it failed.
pub open spec fn response_to(
    translations: Translations,
    config: Config,
    action: ActionView,
    detail: Seq<char>,
) -> Option<HttpReplyView> {
    match action {
        ActionView::Redirect(url) => Some(
            HttpReplyView {
                status: STATUS_TEMPORARY_REDIRECT,
                location: Some(url),
                body: Seq::<char>::empty(),
            },
        ),
        ActionView::CreateInvite(_) => None,
        ActionView::Reject(MaterializeError::NotFound) => Some(
            rejection(translations, config, STATUS_BAD_REQUEST, "http.errors.invalid_invite"@),
        ),
        ActionView::Reject(MaterializeError::ServerNotFound) => Some(
            rejection(translations, config, STATUS_BAD_REQUEST, "http.errors.server_not_found"@),
        ),
        ActionView::Reject(MaterializeError::InvalidChannel) => Some(
            rejection(translations, config, STATUS_BAD_REQUEST, "http.errors.invalid_channel"@),
        ),
        ActionView::Reject(MaterializeError::ExternalUnavailable) => Some(
            HttpReplyView {
                status: STATUS_INTERNAL_SERVER_ERROR,
                location: None,
                body: filled(
                    translations,
                    config.i18n.default_locale@,
                    "http.errors.create_failed"@,
                    seq![param("error"@, detail)],
                ),
            },
        ),
    }
}

/// Builds the answer that turns a browser away.
fn reject(translations: &Translations, config: &Config, status: u16, key: &str) -> (reply: HttpReply)
    ensures
        reply@ == rejection(*translations, *config, status, key@),
{
    HttpReply {
        status,
        location: None,
        body: translations.text(config.i18n.default_locale.as_str(), key, None),
    }
}

/// Builds the HTTP answer that carries out an action of the materializer.
pub fn redirect_response(
    translations: &Translations,
    config: &Config,
    action: &RedirectAction,
    detail: &str,
) -> (reply: Option<HttpReply>)
    ensures
        opt_reply(reply) == response_to(*translations, *config, action@, detail@),
{
    match action {
        RedirectAction::Redirect(url) => Some(
            HttpReply {
                status: STATUS_TEMPORARY_REDIRECT,
                location: Some(url.clone()),
                body: String::new(),
            },
        ),
        RedirectAction::CreateInvite(_) => None,
        RedirectAction::Reject(MaterializeError::NotFound) => Some(
            reject(translations, config, STATUS_BAD_REQUEST, "http.errors.invalid_invite"),
        ),
        RedirectAction::Reject(MaterializeError::ServerNotFound) => Some(
            reject(translations, config, STATUS_BAD_REQUEST, "http.errors.server_not_found"),
        ),
        RedirectAction::Reject(MaterializeError::InvalidChannel) => Some(
            reject(translations, config, STATUS_BAD_REQUEST, "http.errors.invalid_channel"),
        ),
        RedirectAction::Reject(MaterializeError::ExternalUnavailable) => {
            let mut params: Params = Vec::new();
            params.push(named("error", detail.to_owned()));
            assert(param_views(params@) =~= seq![param("error"@, detail@)]);
            Some(
                HttpReply {
                    status: STATUS_INTERNAL_SERVER_ERROR,
                    location: None,
                    body: translations.text(
                        config.i18n.default_locale.as_str(),
                        "http.errors.create_failed",
                        Some(&params),
                    ),
                },
            )
        },
    }
}

/// The document that shows the service's configuration.
#[derive(Debug, Clone)]
pub struct ConfigResponse {
    pub config: Config,
}

/// The document that lists the locales a catalogue ships for.
#[derive(Debug, Clone)]
pub struct LocalesResponse {
    pub locales: Vec<String>,
}

/// Wraps a configuration for showing.
pub fn get_config(config: Config) -> (response: ConfigResponse)
    ensures
        response.config == config,
{
    ConfigResponse { config }
}

/// Lists the available locales.
pub fn get_locales() -> (response: LocalesResponse)
    ensures
        response.locales@.len() == AVAILABLE_LOCALES@.len(),
        forall|i: int|
            0 <= i < AVAILABLE_LOCALES@.len() ==> (#[trigger] response.locales@[i])@
                == AVAILABLE_LOCALES@[i]@,
{
    let mut locales: Vec<String> = Vec::new();
    let mut i: usize = 0;
    while i < AVAILABLE_LOCALES.len()
        invariant
            i <= AVAILABLE_LOCALES@.len(),
            locales@.len() == i,
            forall|k: int| 0 <= k < i ==> (#[trigger] locales@[k])@ == AVAILABLE_LOCALES@[k]@,
        decreases AVAILABLE_LOCALES@.len() - i,
    {
        locales.push(AVAILABLE_LOCALES[i].to_owned());
        i += 1;
    }
    LocalesResponse { locales }
}

/// Name of the file that is served for the root of the site.
pub const INDEX_FILE: &'static str = "index.html";

/// The embedded file that a request path names: the path itself, and the
/// index file for the root.
pub open spec fn file_path(path: Option<Seq<char>>) -> Seq<char> {
    match path {
        Some(p) => if p.len() == 0 {
            INDEX_FILE@
        } else {
            p
        },
        None => INDEX_FILE@,
    }
}

/// The name of the embedded file to serve for a request path.
pub fn embedded_file_path(path: Option<&str>) -> (name: String)
    ensures
        name@ == file_path(
            match path {
                Some(p) => Some(p@),
                None => None,
            },
        ),
{
    match path {
        Some(p) => if p.is_empty() {
            INDEX_FILE.to_owned()
        } else {
            p.to_owned()
        },
        None => INDEX_FILE.to_owned(),
    }
}

/// The answer to a request for an embedded file.
#[derive(Debug, Clone)]
pub struct FileResponse {
    pub status: u16,
    /// Value of the `Content-Type` header.
    pub content_type: Option<String>,
    pub body: Vec<u8>,
}

/// Guesses the media type of a file from its name.
///
/// Trusted: calls `mime_guess::from_path` and takes
/// `first_or_octet_stream` of the guess. How a path is taken apart differs
/// between platforms, so nothing is claimed of the result.
#[verifier::external_body]
fn guess_media_type(path: &str) -> (media_type: String) {
    mime_guess::from_path(path).first_or_octet_stream().as_ref().to_owned()
}

/// The answer that serves `file` with the media type `media_type`, or
/// reports that there is no such file.
pub fn file_response(media_type: String, file: Option<Vec<u8>>) -> (response: FileResponse)
    ensures
        match file {
            Some(data) => {
                &&& response.status == STATUS_OK
                &&& response.content_type == Some(media_type)
                &&& response.body == data
            },
            None => {
                &&& response.status == STATUS_NOT_FOUND
                &&& response.content_type is None
                &&& response.body@ == "Not Found"@.map_values(|c: char| c as u8)
            },
        },
{
    match file {
        Some(data) => FileResponse { status: STATUS_OK, content_type: Some(media_type), body: data },
        None => {
            proof {
                reveal_strlit("Not Found");
            }
            let mut body: Vec<u8> = Vec::new();
            body.push(78u8);
            body.push(111u8);
            body.push(116u8);
            body.push(32u8);
            body.push(70u8);
            body.push(111u8);
            body.push(117u8);
            body.push(110u8);
            body.push(100u8);
            assert(body@ =~= "Not Found"@.map_values(|c: char| c as u8));
            FileResponse { status: STATUS_NOT_FOUND, content_type: None, body }
        },
    }
}

/// Serves the embedded file `file`, found under the name `path`, or reports
/// that there is none. The media type is guessed from the name.
pub fn serve_embedded_files(path: &str, file: Option<Vec<u8>>) -> (response: FileResponse)
    ensures
        match file {
            Some(data) => {
                &&& response.status == STATUS_OK
                &&& response.content_type is Some
                &&& response.body == data
            },
            None => {
                &&& response.status == STATUS_NOT_FOUND
                &&& response.content_type is None
                &&& response.body@ == "Not Found"@.map_values(|c: char| c as u8)
            },
        },
{
    let media_type = guess_media_type(path);
    file_response(media_type, file)
}

} // verus!
