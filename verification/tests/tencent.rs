use cloudtun::tencent::{
    api_result, build_api_request, check_status, find_instance_by_name, is_header_value, prepare_api_request,
    tencent_cloud_api_signature,
    ApiError, ApiResponse, CvmInstance, ErrorInfo, ResponseData, TencentCloudClient, TencentErr,
    TencentService, MAX_DATE_TIMESTAMP, MIN_DATE_TIMESTAMP,
};
use chrono::TimeZone;
use hmac::Mac;
use sha2::Digest;

fn reference_hmac(message: &str, key: &[u8]) -> Vec<u8> {
    let mut mac = hmac::Hmac::<sha2::Sha256>::new_from_slice(key).unwrap();
    mac.update(message.as_bytes());
    mac.finalize().into_bytes().to_vec()
}

fn hex(bytes: &[u8]) -> String {
    bytes.iter().map(|b| format!("{:02x}", b)).collect()
}

fn reference_signature(id: &str, key: &str, host: &str, name: &str, ts: i64, body: &str) -> String {
    let hashed_payload = hex(&sha2::Sha256::digest(body.as_bytes()));
    let canonical = format!(
        "POST\n/\n\ncontent-type:application/json\nhost:{}\n\ncontent-type;host\n{}",
        host, hashed_payload
    );
    let hashed_canonical = hex(&sha2::Sha256::digest(canonical.as_bytes()));
    let date = chrono::Utc.timestamp_opt(ts, 0).unwrap().format("%Y-%m-%d").to_string();
    let scope = format!("{}/{}/tc3_request", date, name);
    let to_sign = format!("TC3-HMAC-SHA256\n{}\n{}\n{}", ts, scope, hashed_canonical);
    let secret_date = reference_hmac(&date, format!("TC3{}", key).as_bytes());
    let secret_service = reference_hmac(name, &secret_date);
    let secret_signing = reference_hmac("tc3_request", &secret_service);
    let signature = reference_hmac(&to_sign, &secret_signing);
    format!(
        "TC3-HMAC-SHA256 Credential={}/{}, SignedHeaders=content-type;host, Signature={}",
        id,
        scope,
        hex(&signature)
    )
}

#[test]
fn service_addresses() {
    assert_eq!(TencentService::Cvm.get_host(), "cvm.tencentcloudapi.com");
    assert_eq!(TencentService::Vpc.get_host(), "vpc.tencentcloudapi.com");
    assert_eq!(TencentService::Cvm.get_api_url(), "https://cvm.tencentcloudapi.com");
    assert_eq!(TencentService::Vpc.get_api_url(), "https://vpc.tencentcloudapi.com");
    assert_eq!(TencentService::Cvm.get_service_name(), "cvm");
    assert_eq!(TencentService::Vpc.get_service_name(), "vpc");
    assert_eq!(TencentService::Cvm.get_service_version(), "2017-03-12");
    assert_eq!(TencentService::Vpc.get_service_version(), "2017-03-12");
}

#[test]
fn signature_matches_reference_computation() {
    let body = r#"{"Limit": 1, "Filters": [{"Values": ["unnamed"], "Name": "instance-name"}]}"#;
    let got = tencent_cloud_api_signature(
        "AKIDexample",
        "secretExample",
        "cvm.tencentcloudapi.com",
        "cvm",
        1551113065,
        body,
    );
    let want = reference_signature(
        "AKIDexample",
        "secretExample",
        "cvm.tencentcloudapi.com",
        "cvm",
        1551113065,
        body,
    );
    assert_eq!(got, want);
    assert!(got.starts_with(
        "TC3-HMAC-SHA256 Credential=AKIDexample/2019-02-25/cvm/tc3_request, SignedHeaders=content-type;host, Signature="
    ));
    assert_eq!(got.len() - got.rfind('=').unwrap() - 1, 64);
}

#[test]
fn signature_depends_on_every_input() {
    let base = tencent_cloud_api_signature("id", "key", "cvm.tencentcloudapi.com", "cvm", 1700000000, "{}");
    assert_ne!(base, tencent_cloud_api_signature("id", "key2", "cvm.tencentcloudapi.com", "cvm", 1700000000, "{}"));
    assert_ne!(base, tencent_cloud_api_signature("id", "key", "vpc.tencentcloudapi.com", "cvm", 1700000000, "{}"));
    assert_ne!(base, tencent_cloud_api_signature("id", "key", "cvm.tencentcloudapi.com", "vpc", 1700000000, "{}"));
    assert_ne!(base, tencent_cloud_api_signature("id", "key", "cvm.tencentcloudapi.com", "cvm", 1700000001, "{}"));
    assert_ne!(base, tencent_cloud_api_signature("id", "key", "cvm.tencentcloudapi.com", "cvm", 1700000000, "{ }"));
}

#[test]
fn signature_at_date_range_edges() {
    for ts in [MIN_DATE_TIMESTAMP, -1, 0, MAX_DATE_TIMESTAMP] {
        let got = tencent_cloud_api_signature("i", "k", "h", "n", ts, "");
        assert_eq!(got, reference_signature("i", "k", "h", "n", ts, ""));
    }
    assert!(chrono::Utc.timestamp_opt(MAX_DATE_TIMESTAMP + 1, 0).single().is_none());
    assert!(chrono::Utc.timestamp_opt(MIN_DATE_TIMESTAMP - 1, 0).single().is_none());
}

#[test]
fn api_request_is_signed_post() {
    let req = build_api_request("id", "key", TencentService::Cvm, "ap-hongkong", "DescribeInstances", "{}".to_string(), 1700000000);
    assert_eq!(req.url, "https://cvm.tencentcloudapi.com");
    assert_eq!(req.body, "{}");
    let names: Vec<&str> = req.headers.iter().map(|h| h.0.as_str()).collect();
    assert_eq!(
        names,
        vec!["authorization", "content-type", "host", "x-tc-action", "x-tc-version", "x-tc-timestamp", "x-tc-region"]
    );
    assert_eq!(req.headers[0].1, reference_signature("id", "key", "cvm.tencentcloudapi.com", "cvm", 1700000000, "{}"));
    assert_eq!(req.headers[1].1, "application/json");
    assert_eq!(req.headers[2].1, "cvm.tencentcloudapi.com");
    assert_eq!(req.headers[3].1, "DescribeInstances");
    assert_eq!(req.headers[4].1, "2017-03-12");
    assert_eq!(req.headers[5].1, "1700000000");
    assert_eq!(req.headers[6].1, "ap-hongkong");

    let client = TencentCloudClient::new("id".to_string(), "key".to_string());
    let req2 = client.describe_instances_request("ap-hongkong", 1700000000);
    assert_eq!(req2.headers[0].1, req.headers[0].1);
    assert_eq!(req2.body, "{}");
}

#[test]
fn response_outcomes() {
    assert!(check_status(200).is_ok());
    assert!(matches!(check_status(404), Err(ApiError::BadStatus(404))));

    let ok = ApiResponse {
        response: ResponseData { error: None, request_id: "r".to_string(), result: Some(5u32) },
    };
    assert!(matches!(api_result(ok), Ok(5)));

    let remote = ApiResponse::<u32> {
        response: ResponseData {
            error: Some(ErrorInfo { code: "AuthFailure".to_string(), message: "bad key".to_string() }),
            request_id: "r".to_string(),
            result: Some(1),
        },
    };
    match api_result(remote) {
        Err(ApiError::Remote(m)) => assert_eq!(m, "bad key"),
        _ => panic!("expected a remote error"),
    }

    let missing = ApiResponse::<u32> {
        response: ResponseData { error: None, request_id: "r".to_string(), result: None },
    };
    assert!(matches!(api_result(missing), Err(ApiError::MissingResult)));
}

#[test]
fn tencent_err_message() {
    assert_eq!(TencentErr("boom".to_string()).message(), "Failed call tencent api due to: boom");
}

#[test]
fn finds_first_instance_by_name() {
    let instances = vec![
        CvmInstance::new("ins-1".to_string(), "web".to_string()),
        CvmInstance::new("ins-2".to_string(), "vray::proxy".to_string()),
        CvmInstance::new("ins-3".to_string(), "vray::proxy".to_string()),
    ];
    assert_eq!(find_instance_by_name(&instances, "vray::proxy"), Some(1));
    assert_eq!(instances[1].id(), "ins-2");
    assert_eq!(find_instance_by_name(&instances, "db"), None);
    assert_eq!(find_instance_by_name(&[], "web"), None);
}

#[test]
fn signature_part_is_64_lowercase_hex_digits() {
    let sig = tencent_cloud_api_signature("AKIDEXAMPLE", "KEY", "cvm.tencentcloudapi.com", "cvm", 1551113065, "{}");
    let prefix = "TC3-HMAC-SHA256 Credential=AKIDEXAMPLE/2019-02-25/cvm/tc3_request, SignedHeaders=content-type;host, Signature=";
    assert!(sig.starts_with(prefix));
    let hex = &sig[prefix.len()..];
    assert_eq!(hex.len(), 64);
    assert!(hex.bytes().all(|b| b.is_ascii_digit() || (b'a'..=b'f').contains(&b)));
}

#[test]
fn header_values_follow_http() {
    assert!(is_header_value(b"ap-hongkong"));
    assert!(is_header_value(b"a\tb"));
    assert!(is_header_value(&[0x80, 0xff]));
    assert!(!is_header_value(b"bad\nvalue"));
    assert!(!is_header_value(&[127]));
    assert!(!is_header_value(&[31]));
    assert!(is_header_value(b""));
}

#[test]
fn api_request_refuses_bad_header_values() {
    let ok = prepare_api_request("id", "key", TencentService::Cvm, "ap-hongkong", "DescribeInstances", "{}".to_string(), 1700000000);
    assert!(ok.is_ok());
    let bad_region = prepare_api_request("id", "key", TencentService::Cvm, "ap\nx", "DescribeInstances", "{}".to_string(), 1700000000);
    assert!(matches!(bad_region, Err(ApiError::InvalidHeader)));
    let bad_action = prepare_api_request("id", "key", TencentService::Cvm, "ap-hongkong", "Describe\u{7f}", "{}".to_string(), 1700000000);
    assert!(matches!(bad_action, Err(ApiError::InvalidHeader)));
    let client = TencentCloudClient::new("id".to_string(), "key".to_string());
    let req = client.api_request(TencentService::Cvm, "ap-hongkong", "DescribeInstances", "{}".to_string(), 1700000000).ok().unwrap();
    let plain = build_api_request("id", "key", TencentService::Cvm, "ap-hongkong", "DescribeInstances", "{}".to_string(), 1700000000);
    assert_eq!(req.headers, plain.headers);
    assert_eq!(req.url, plain.url);
}
