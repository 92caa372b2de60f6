//! Tencent Cloud API calls: the TC3-HMAC-SHA256 request signature, the
//! request that a call sends, and the reading of the response.
use crate::util::{dec_int, dec_nat, hex_lower, i64_to_decimal, is_lower_hex_char, to_hex_lower, u64_to_decimal};
use hmac::Mac;
use sha2::Digest;
use vstd::prelude::*;
use vstd::string::{StringExecFns, StringSliceAdditionalSpecFns};
use vstd::utf8::encode_utf8;

verus! {

/// The earliest Unix timestamp that `chrono` can turn into a UTC date.
pub const MIN_DATE_TIMESTAMP: i64 = -8334601228800;

/// The latest Unix timestamp that `chrono` can turn into a UTC date.
pub const MAX_DATE_TIMESTAMP: i64 = 8210266876799;

/// The SHA-256 digest of `data`, as the `sha2` crate computes it.
pub uninterp spec fn sha256_digest(data: Seq<u8>) -> Seq<u8>;

/// The HMAC-SHA256 tag of `message` under `key`, as the `hmac` crate computes it.
pub uninterp spec fn hmac_sha256_tag(key: Seq<u8>, message: Seq<u8>) -> Seq<u8>;

/// The UTC calendar date of a Unix timestamp, written by `chrono` with the
/// format `%Y-%m-%d`.
pub uninterp spec fn utc_date_text(timestamp: i64) -> Seq<char>;

/// Calls `<sha2::Sha256 as Digest>::digest`. Trusted: the result is the
/// digest that `sha2` computes for these bytes, which is 32 bytes long.
#[verifier::external_body]
fn sha256(data: &[u8]) -> (r: Vec<u8>)
    ensures
        r@ == sha256_digest(data@),
        r@.len() == 32,
{
    sha2::Sha256::digest(data).to_vec()
}

/// Computes HMAC-SHA256 with `hmac::Hmac<sha2::Sha256>`: `new_from_slice`
/// (which accepts a key of any length, so the `unwrap` cannot fail), `update`
/// with the message, `finalize`. Trusted: the result is the tag that `hmac`
/// computes for this key and message, which is 32 bytes long.
#[verifier::external_body]
fn hmac(message: &[u8], key: &[u8]) -> (r: Vec<u8>)
    ensures
        r@ == hmac_sha256_tag(key@, message@),
        r@.len() == 32,
{
    let mut mac = hmac::Hmac::<sha2::Sha256>::new_from_slice(key).unwrap();
    mac.update(message);
    mac.finalize().into_bytes().to_vec()
}

/// Formats the UTC date of `timestamp` with `chrono`:
/// `Utc.timestamp_opt(timestamp, 0)`, then `format("%Y-%m-%d")`. The
/// `requires` is the range in which `chrono` gives a date (outside it the
/// `unwrap` would panic). Trusted: the result is the text `chrono` writes;
/// nothing is said of its calendar arithmetic.
#[verifier::external_body]
fn utc_date(timestamp: i64) -> (r: String)
    requires
        MIN_DATE_TIMESTAMP <= timestamp <= MAX_DATE_TIMESTAMP,
    ensures
        r@ == utc_date_text(timestamp),
{
    chrono::TimeZone::timestamp_opt(&chrono::Utc, timestamp, 0).unwrap().format("%Y-%m-%d").to_string()
}

/// The canonical request that TC3 signs for a JSON POST to `host`.
pub open spec fn canonical_request(host: Seq<char>, body: Seq<char>) -> Seq<char> {
    "POST\n/\n\ncontent-type:application/json\nhost:"@ + host + "\n\ncontent-type;host\n"@
        + hex_lower(sha256_digest(encode_utf8(body)))
}

/// The credential scope: the request's UTC date, the service name and `tc3_request`.
pub open spec fn credential_scope(service_name: Seq<char>, timestamp: i64) -> Seq<char> {
    utc_date_text(timestamp) + "/"@ + service_name + "/tc3_request"@
}

/// The string that TC3 signs.
pub open spec fn string_to_sign(
    service_host: Seq<char>,
    service_name: Seq<char>,
    timestamp: i64,
    body: Seq<char>,
) -> Seq<char> {
    "TC3-HMAC-SHA256\n"@ + dec_int(timestamp as int) + "\n"@ + credential_scope(service_name, timestamp)
        + "\n"@ + hex_lower(sha256_digest(encode_utf8(canonical_request(service_host, body))))
}

/// The signing key: HMAC chained over the date, the service name and `tc3_request`,
/// starting from `TC3` followed by the secret key.
pub open spec fn signing_key(secret_key: Seq<char>, service_name: Seq<char>, timestamp: i64) -> Seq<u8> {
    let secret_date = hmac_sha256_tag(encode_utf8("TC3"@ + secret_key), encode_utf8(utc_date_text(timestamp)));
    let secret_service = hmac_sha256_tag(secret_date, encode_utf8(service_name));
    hmac_sha256_tag(secret_service, encode_utf8("tc3_request"@))
}

/// The TC3-HMAC-SHA256 signature of a request: the HMAC, under the signing
/// key, of the string to sign.
pub open spec fn tc3_signature(
    secret_key: Seq<char>,
    service_host: Seq<char>,
    service_name: Seq<char>,
    timestamp: i64,
    body: Seq<char>,
) -> Seq<u8> {
    hmac_sha256_tag(
        signing_key(secret_key, service_name, timestamp),
        encode_utf8(string_to_sign(service_host, service_name, timestamp, body)),
    )
}

/// The `Authorization` header value of a TC3-HMAC-SHA256 signed request.
pub open spec fn tc3_authorization(
    secret_id: Seq<char>,
    secret_key: Seq<char>,
    service_host: Seq<char>,
    service_name: Seq<char>,
    timestamp: i64,
    body: Seq<char>,
) -> Seq<char> {
    let signature = tc3_signature(secret_key, service_host, service_name, timestamp, body);
    "TC3-HMAC-SHA256 Credential="@ + secret_id + "/"@ + credential_scope(service_name, timestamp)
        + ", SignedHeaders=content-type;host, Signature="@ + hex_lower(signature)
}

/// Appends `s` to a copy of `a`.
fn concat(a: &String, s: &str) -> (r: String)
    ensures
        r@ == a@ + s@,
{
    let mut r = a.clone();
    r.append(s);
    r
}

/// Signs a JSON POST request to a Tencent Cloud API with TC3-HMAC-SHA256 and
/// returns the `Authorization` header value.
pub fn tencent_cloud_api_signature(
    secret_id: &str,
    secret_key: &str,
    service_host: &str,
    service_name: &str,
    timestamp: i64,
    body: &str,
) -> (r: String)
    requires
        MIN_DATE_TIMESTAMP <= timestamp <= MAX_DATE_TIMESTAMP,
    ensures
        r@ == tc3_authorization(secret_id@, secret_key@, service_host@, service_name@, timestamp, body@),
        tc3_signature(secret_key@, service_host@, service_name@, timestamp, body@).len() == 32,
        hex_lower(tc3_signature(secret_key@, service_host@, service_name@, timestamp, body@)).len() == 64,
        forall|i: int| 0 <= i < 64 ==> is_lower_hex_char(
            #[trigger] hex_lower(tc3_signature(secret_key@, service_host@, service_name@, timestamp, body@))[i],
        ),
{
    let hashed_payload = to_hex_lower(sha256(body.as_bytes()).as_slice());
    let mut canonical = String::new();
    canonical.append("POST\n/\n\ncontent-type:application/json\nhost:");
    canonical.append(service_host);
    canonical.append("\n\ncontent-type;host\n");
    canonical.append(hashed_payload.as_str());
    assert(canonical@ =~= canonical_request(service_host@, body@));
    let hashed_canonical = to_hex_lower(sha256(canonical.as_str().as_bytes()).as_slice());

    let date = utc_date(timestamp);
    let mut scope = date.clone();
    scope.append("/");
    scope.append(service_name);
    scope.append("/tc3_request");
    assert(scope@ =~= credential_scope(service_name@, timestamp));

    let mut to_sign = String::new();
    to_sign.append("TC3-HMAC-SHA256\n");
    let ts_text = i64_to_decimal(timestamp);
    to_sign.append(ts_text.as_str());
    to_sign.append("\n");
    to_sign.append(scope.as_str());
    to_sign.append("\n");
    to_sign.append(hashed_canonical.as_str());
    assert(to_sign@ =~= string_to_sign(service_host@, service_name@, timestamp, body@));

    let mut date_key = String::new();
    date_key.append("TC3");
    date_key.append(secret_key);
    let secret_date = hmac(date.as_str().as_bytes(), date_key.as_str().as_bytes());
    let secret_service = hmac(service_name.as_bytes(), secret_date.as_slice());
    let secret_signing = hmac("tc3_request".as_bytes(), secret_service.as_slice());
    assert(secret_signing@ == signing_key(secret_key@, service_name@, timestamp));
    let signature = hmac(to_sign.as_str().as_bytes(), secret_signing.as_slice());
    proof {
        crate::util::lemma_hex_lower_is_lower_hex(signature@);
    }

    let mut out = String::new();
    out.append("TC3-HMAC-SHA256 Credential=");
    out.append(secret_id);
    out.append("/");
    out.append(scope.as_str());
    out.append(", SignedHeaders=content-type;host, Signature=");
    let sig_hex = to_hex_lower(signature.as_slice());
    out.append(sig_hex.as_str());
    assert(out@ =~= tc3_authorization(secret_id@, secret_key@, service_host@, service_name@, timestamp, body@));
    out
}

/// A Tencent Cloud service that the client calls.
#[derive(Clone, Copy, Debug, PartialEq, Eq, Structural)]
pub enum TencentService {
    Cvm,
    Vpc,
}

/// The name of a service.
pub open spec fn service_name(s: TencentService) -> Seq<char> {
    match s {
        TencentService::Cvm => "cvm"@,
        TencentService::Vpc => "vpc"@,
    }
}

/// The host of a service's API: its name under `tencentcloudapi.com`.
pub open spec fn service_host(s: TencentService) -> Seq<char> {
    service_name(s) + ".tencentcloudapi.com"@
}

/// The URL of a service's API: `https://` and its host.
pub open spec fn service_api_url(s: TencentService) -> Seq<char> {
    "https://"@ + service_host(s)
}

/// The API version used for a service.
pub open spec fn service_version(s: TencentService) -> Seq<char> {
    "2017-03-12"@
}

impl TencentService {
    /// The host of the service's API.
    pub fn get_host(&self) -> (r: &'static str)
        ensures
            r@ == service_host(*self),
    {
        proof {
            reveal_strlit("cvm");
            reveal_strlit("vpc");
            reveal_strlit(".tencentcloudapi.com");
            reveal_strlit("cvm.tencentcloudapi.com");
            reveal_strlit("vpc.tencentcloudapi.com");
            assert("cvm.tencentcloudapi.com"@ =~= "cvm"@ + ".tencentcloudapi.com"@);
            assert("vpc.tencentcloudapi.com"@ =~= "vpc"@ + ".tencentcloudapi.com"@);
        }
        match self {
            TencentService::Cvm => "cvm.tencentcloudapi.com",
            TencentService::Vpc => "vpc.tencentcloudapi.com",
        }
    }

    /// The URL of the service's API.
    pub fn get_api_url(&self) -> (r: &'static str)
        ensures
            r@ == service_api_url(*self),
    {
        proof {
            reveal_strlit("cvm");
            reveal_strlit("vpc");
            reveal_strlit("https://");
            reveal_strlit(".tencentcloudapi.com");
            reveal_strlit("https://cvm.tencentcloudapi.com");
            reveal_strlit("https://vpc.tencentcloudapi.com");
            assert("https://cvm.tencentcloudapi.com"@ =~= "https://"@ + ("cvm"@ + ".tencentcloudapi.com"@));
            assert("https://vpc.tencentcloudapi.com"@ =~= "https://"@ + ("vpc"@ + ".tencentcloudapi.com"@));
        }
        match self {
            TencentService::Cvm => "https://cvm.tencentcloudapi.com",
            TencentService::Vpc => "https://vpc.tencentcloudapi.com",
        }
    }

    /// The name of the service.
    pub fn get_service_name(&self) -> (r: &'static str)
        ensures
            r@ == service_name(*self),
    {
        match self {
            TencentService::Cvm => "cvm",
            TencentService::Vpc => "vpc",
        }
    }

    /// The API version used for the service.
    pub fn get_service_version(&self) -> (r: &'static str)
        ensures
            r@ == service_version(*self),
    {
        match self {
            TencentService::Cvm => "2017-03-12",
            TencentService::Vpc => "2017-03-12",
        }
    }
}

/// The URL of a service's API is `https://` followed by its host, and the
/// host is the service's name under `tencentcloudapi.com`.
pub proof fn lemma_service_addresses(s: TencentService)
    ensures
        service_api_url(s) == "https://"@ + service_host(s),
        service_host(s) == service_name(s) + ".tencentcloudapi.com"@,
{
}

/// The error a Tencent Cloud API call reports.
pub struct ErrorInfo {
    pub code: String,
    pub message: String,
}

/// The `Response` object of a Tencent Cloud API reply.
pub struct ResponseData<T> {
    pub error: Option<ErrorInfo>,
    pub request_id: String,
    pub result: Option<T>,
}

/// A Tencent Cloud API reply.
pub struct ApiResponse<T> {
    pub response: ResponseData<T>,
}

/// A failed Tencent Cloud API call, with its reason.
pub struct TencentErr(pub String);

impl TencentErr {
    /// The error's message (what its `Display` writes).
    pub fn message(&self) -> (r: String)
        ensures
            r@ == "Failed call tencent api due to: "@ + self.0@,
    {
        let mut r = String::new();
        r.append("Failed call tencent api due to: ");
        r.append(self.0.as_str());
        r
    }
}

/// Why a Tencent Cloud API call failed.
pub enum ApiError {
    /// The reply's HTTP status was not `200`.
    BadStatus(u16),
    /// The reply carried an error; this is its message.
    Remote(String),
    /// The reply carried neither an error nor a result.
    MissingResult,
    /// The action or the region cannot be sent as an HTTP header value.
    InvalidHeader,
}

/// Accepts a reply's HTTP status: only `200` is accepted.
pub fn check_status(status: u16) -> (r: Result<(), ApiError>)
    ensures
        status == 200 <==> r is Ok,
        r matches Err(e) ==> e matches ApiError::BadStatus(s) && s == status,
{
    if status != 200 {
        Err(ApiError::BadStatus(status))
    } else {
        Ok(())
    }
}

/// The result of a reply: its error's message if it carries one, else its
/// result, else `MissingResult`.
pub fn api_result<T>(response: ApiResponse<T>) -> (r: Result<T, ApiError>)
    ensures
        match response.response.error {
            Some(e) => r matches Err(ApiError::Remote(m)) && m@ == e.message@,
            None => match response.response.result {
                Some(v) => r == Ok::<T, ApiError>(v),
                None => r matches Err(ApiError::MissingResult),
            },
        },
{
    let ApiResponse { response } = response;
    let ResponseData { error, request_id: _, result } = response;
    match error {
        Some(e) => Err(ApiError::Remote(e.message)),
        None => match result {
            Some(v) => Ok(v),
            None => Err(ApiError::MissingResult),
        },
    }
}

/// A cloud virtual machine instance.
pub struct CvmInstance {
    id: String,
    name: String,
}

impl CvmInstance {
    /// An instance with the given id and name.
    pub fn new(id: String, name: String) -> (r: CvmInstance)
        ensures
            r.id_view() == id@,
            r.name_view() == name@,
    {
        CvmInstance { id, name }
    }

    /// The id of the instance.
    pub closed spec fn id_view(&self) -> Seq<char> {
        self.id@
    }

    /// The name of the instance.
    pub closed spec fn name_view(&self) -> Seq<char> {
        self.name@
    }

    /// The instance's id.
    pub fn id(&self) -> (r: &str)
        ensures
            r@ == self.id_view(),
    {
        self.id.as_str()
    }

    /// The instance's name.
    pub fn name(&self) -> (r: &str)
        ensures
            r@ == self.name_view(),
    {
        self.name.as_str()
    }
}

/// The position of the first instance with the given name.
pub fn find_instance_by_name(instances: &[CvmInstance], name: &str) -> (r: Option<usize>)
    ensures
        match r {
            Some(i) => i < instances@.len() && instances@[i as int].name_view() == name@
                && forall|j: int| 0 <= j < i ==> instances@[j].name_view() != name@,
            None => forall|j: int| 0 <= j < instances@.len() ==> instances@[j].name_view() != name@,
        },
{
    let n = instances.len();
    let mut i: usize = 0;
    while i < n
        invariant
            n == instances@.len(),
            i <= n,
            forall|j: int| 0 <= j < i ==> instances@[j].name_view() != name@,
        decreases n - i,
    {
        if crate::util::str_eq(instances[i].name(), name) {
            return Some(i);
        }
        i = i + 1;
    }
    None
}


/// The credentials of a Tencent Cloud account.
pub struct TencentCloudClient {
    secret_id: String,
    secret_key: String,
}

impl View for TencentCloudClient {
    type V = (Seq<char>, Seq<char>);

    closed spec fn view(&self) -> (Seq<char>, Seq<char>) {
        (self.secret_id@, self.secret_key@)
    }
}

/// An HTTP request ready to be sent.
pub struct ApiRequest {
    pub url: String,
    pub headers: Vec<(String, String)>,
    pub body: String,
}

/// The headers as pairs of name and value.
pub open spec fn headers_view(h: Seq<(String, String)>) -> Seq<(Seq<char>, Seq<char>)> {
    h.map_values(|p: (String, String)| (p.0@, p.1@))
}

/// The headers of a signed call of `action` on `service` in `region`.
pub open spec fn api_request_headers(
    secret_id: Seq<char>,
    secret_key: Seq<char>,
    service: TencentService,
    region: Seq<char>,
    action: Seq<char>,
    data: Seq<char>,
    timestamp: u64,
) -> Seq<(Seq<char>, Seq<char>)> {
    seq![
        ("authorization"@, tc3_authorization(secret_id, secret_key, service_host(service), service_name(service), timestamp as i64, data)),
        ("content-type"@, "application/json"@),
        ("host"@, service_host(service)),
        ("x-tc-action"@, action),
        ("x-tc-version"@, service_version(service)),
        ("x-tc-timestamp"@, dec_nat(timestamp as nat)),
        ("x-tc-region"@, region),
    ]
}

/// Builds the signed POST request of a call of `action` on `service` in
/// `region`, with JSON body `data`, made at Unix time `timestamp`.
pub fn build_api_request(
    secret_id: &str,
    secret_key: &str,
    service: TencentService,
    region: &str,
    action: &str,
    data: String,
    timestamp: u64,
) -> (r: ApiRequest)
    requires
        MIN_DATE_TIMESTAMP <= timestamp as i64 <= MAX_DATE_TIMESTAMP,
    ensures
        r.url@ == service_api_url(service),
        r.body@ == data@,
        headers_view(r.headers@) == api_request_headers(
            secret_id@,
            secret_key@,
            service,
            region@,
            action@,
            data@,
            timestamp,
        ),
{
    let sign = tencent_cloud_api_signature(
        secret_id,
        secret_key,
        service.get_host(),
        service.get_service_name(),
        timestamp as i64,
        data.as_str(),
    );
    let mut headers: Vec<(String, String)> = Vec::new();
    headers.push((String::from_str("authorization"), sign));
    headers.push((String::from_str("content-type"), String::from_str("application/json")));
    headers.push((String::from_str("host"), String::from_str(service.get_host())));
    headers.push((String::from_str("x-tc-action"), String::from_str(action)));
    headers.push((String::from_str("x-tc-version"), String::from_str(service.get_service_version())));
    headers.push((String::from_str("x-tc-timestamp"), u64_to_decimal(timestamp)));
    headers.push((String::from_str("x-tc-region"), String::from_str(region)));
    let url = String::from_str(service.get_api_url());
    assert(headers_view(headers@) =~= api_request_headers(
        secret_id@,
        secret_key@,
        service,
        region@,
        action@,
        data@,
        timestamp,
    ));
    ApiRequest { url, headers, body: data }
}

/// A byte that an HTTP header value may hold, as `http::HeaderValue`
/// accepts it: a byte of 32 or more other than 127, or a tab.
pub open spec fn header_byte_ok(b: u8) -> bool {
    (b >= 32 && b != 127) || b == 9
}

/// All bytes of `s` may stand in an HTTP header value.
pub open spec fn header_value_ok(s: Seq<u8>) -> bool {
    forall|i: int| 0 <= i < s.len() ==> header_byte_ok(#[trigger] s[i])
}

/// Whether `s` can be sent as an HTTP header value.
pub fn is_header_value(s: &[u8]) -> (r: bool)
    ensures
        r == header_value_ok(s@),
{
    let n = s.len();
    let mut i: usize = 0;
    while i < n
        invariant
            n == s@.len(),
            i <= n,
            forall|j: int| 0 <= j < i ==> header_byte_ok(#[trigger] s@[j]),
        decreases n - i,
    {
        let b = s[i];
        if !((b >= 32 && b != 127) || b == 9) {
            assert(!header_byte_ok(s@[i as int]));
            return false;
        }
        i = i + 1;
    }
    true
}

/// Builds the signed request of a call, as `build_api_request` does, after
/// checking that the action and the region can be sent as header values;
/// `InvalidHeader` when one of them cannot, and no request is built.
pub fn prepare_api_request(
    secret_id: &str,
    secret_key: &str,
    service: TencentService,
    region: &str,
    action: &str,
    data: String,
    timestamp: u64,
) -> (r: Result<ApiRequest, ApiError>)
    requires
        MIN_DATE_TIMESTAMP <= timestamp as i64 <= MAX_DATE_TIMESTAMP,
    ensures
        r is Ok <==> header_value_ok(action.spec_bytes()) && header_value_ok(region.spec_bytes()),
        r matches Err(e) ==> e is InvalidHeader,
        r matches Ok(req) ==> req.url@ == service_api_url(service) && req.body@ == data@
            && headers_view(req.headers@) == api_request_headers(
            secret_id@,
            secret_key@,
            service,
            region@,
            action@,
            data@,
            timestamp,
        ),
{
    if !is_header_value(action.as_bytes()) || !is_header_value(region.as_bytes()) {
        return Err(ApiError::InvalidHeader);
    }
    Ok(build_api_request(secret_id, secret_key, service, region, action, data, timestamp))
}

impl TencentCloudClient {
    /// A client with the given credentials.
    pub fn new(secret_id: String, secret_key: String) -> (r: Self)
        ensures
            r@ == (secret_id@, secret_key@),
    {
        Self { secret_id, secret_key }
    }

    /// The request of a call of `action` on `service` in `region`, with JSON
    /// body `data`, made at Unix time `timestamp` and signed with the
    /// client's credentials; `InvalidHeader` when the action or the region
    /// cannot be sent as a header value.
    pub fn api_request(
        &self,
        service: TencentService,
        region: &str,
        action: &str,
        data: String,
        timestamp: u64,
    ) -> (r: Result<ApiRequest, ApiError>)
        requires
            MIN_DATE_TIMESTAMP <= timestamp as i64 <= MAX_DATE_TIMESTAMP,
        ensures
            r is Ok <==> header_value_ok(action.spec_bytes()) && header_value_ok(region.spec_bytes()),
            r matches Err(e) ==> e is InvalidHeader,
            r matches Ok(req) ==> req.url@ == service_api_url(service) && req.body@ == data@
                && headers_view(req.headers@) == api_request_headers(
                self@.0,
                self@.1,
                service,
                region@,
                action@,
                data@,
                timestamp,
            ),
    {
        prepare_api_request(
            self.secret_id.as_str(),
            self.secret_key.as_str(),
            service,
            region,
            action,
            data,
            timestamp,
        )
    }

    /// The request of a `DescribeInstances` call in `region` at Unix time `timestamp`.
    pub fn describe_instances_request(&self, region: &str, timestamp: u64) -> (r: ApiRequest)
        requires
            MIN_DATE_TIMESTAMP <= timestamp as i64 <= MAX_DATE_TIMESTAMP,
        ensures
            r.url@ == service_api_url(TencentService::Cvm),
            r.body@ == "{}"@,
            headers_view(r.headers@) == api_request_headers(
                self@.0,
                self@.1,
                TencentService::Cvm,
                region@,
                "DescribeInstances"@,
                "{}"@,
                timestamp,
            ),
    {
        build_api_request(
            self.secret_id.as_str(),
            self.secret_key.as_str(),
            TencentService::Cvm,
            region,
            "DescribeInstances",
            String::from_str("{}"),
            timestamp,
        )
    }
}

} // verus!
