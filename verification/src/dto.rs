//! Request and response bodies of the GUI service's JSON API that carry no
//! numbers, and the API's error type.

use vstd::prelude::*;

verus! {

/// Crate version string.
pub fn version() -> (v: &'static str)
    ensures
        v@ == "0.1.0"@,
{
    "0.1.0"
}

#[derive(Clone, Debug)]
pub struct HealthResponse {
    /// Server is healthy.
    pub ok: bool,
    /// Crate version.
    pub version: String,
}

/// The answer to a health probe: healthy, with the crate version.
pub fn health_response() -> (r: HealthResponse)
    ensures
        r.ok,
        r.version@ == "0.1.0"@,
{
    HealthResponse { ok: true, version: version().to_owned() }
}

#[derive(Clone, Debug)]
pub struct ErrorBody {
    /// Human-readable error message.
    pub error: String,
}

#[derive(Clone, Debug)]
pub struct LoadVenueRequest {
    /// Venue TOML text.
    pub toml: String,
}

#[derive(Clone, Debug)]
pub struct TomlResponse {
    /// Serialized venue TOML.
    pub toml: String,
}

#[derive(Clone, Debug)]
pub struct FeasibleResponse {
    /// Whether the pose is wrench-feasible.
    pub ok: bool,
}

#[derive(Clone, Debug)]
pub struct SceneExportResponse {
    /// Self-contained Plotly HTML.
    pub html: String,
}

#[derive(Clone, Debug)]
pub struct OkResponse {
    /// Operation succeeded.
    pub ok: bool,
}

#[derive(Clone, Debug)]
pub struct ConnectResponse {
    /// Connection succeeded.
    pub ok: bool,
    /// Number of motor axes.
    pub axes: usize,
}

#[derive(Clone, Debug)]
pub struct CalibrationLoadRequest {
    /// Calibration JSON text.
    pub json: String,
}

#[derive(Clone, Debug)]
pub struct CalibrationJsonResponse {
    /// Pretty JSON.
    pub json: String,
}

/// API error: a message answered with HTTP 400 and an [`ErrorBody`].
#[derive(Clone, Debug)]
pub struct ApiError(pub String);

impl From<String> for ApiError {
    fn from(s: String) -> (r: Self) {
        ApiError(s)
    }
}

impl vstd::std_specs::convert::FromSpecImpl<String> for ApiError {
    open spec fn obeys_from_spec() -> bool {
        true
    }

    open spec fn from_spec(v: String) -> ApiError {
        ApiError(v)
    }
}

impl ApiError {
    /// The JSON body answered for this error: its message.
    pub fn body(self) -> (b: ErrorBody)
        ensures
            b.error == self.0,
    {
        ErrorBody { error: self.0 }
    }
}

/// Default of boolean request fields that are on unless given.
pub fn default_true() -> (b: bool)
    ensures
        b,
{
    true
}

/// Default scene export format.
pub fn default_html_format() -> (s: String)
    ensures
        s@ == "html"@,
{
    "html".to_owned()
}

} // verus!
