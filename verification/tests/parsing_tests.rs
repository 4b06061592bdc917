use base64::Engine;

use gcli_nexus::cli::{cli_to_aistudio, Chat, CliCandidate, CliResponse, CliResponseEnvelope,
    FinishReason};
use gcli_nexus::credentials::GoogleCredential;
use gcli_nexus::jwt::email_from_id_token;
use gcli_nexus::loader::is_json_file;
use gcli_nexus::models::{native_model_list, openai_model_list, BigModelList, ModelClassifier};
use gcli_nexus::refresh::{adopt_project, apply_token_response, effective_concurrency};
use gcli_nexus::request::{parse_model_path, preprocess_path};

fn jwt_with_payload(payload: &str) -> String {
    let seg = base64::engine::general_purpose::URL_SAFE_NO_PAD.encode(payload.as_bytes());
    format!("header.{seg}.signature")
}

#[test]
fn email_is_lifted_from_the_middle_segment() {
    let token = jwt_with_payload("{\"email\":\"user@example.com\",\"sub\":\"1\"}");
    assert_eq!(
        email_from_id_token(&token),
        Some("user@example.com".to_string())
    );
}

#[test]
fn id_token_without_dots_yields_nothing() {
    assert_eq!(email_from_id_token("nodotsatall"), None);
}

#[test]
fn invalid_base64_yields_nothing() {
    assert_eq!(email_from_id_token("header.!!!!.sig"), None);
}

#[test]
fn payload_without_email_yields_nothing() {
    let token = jwt_with_payload("{\"sub\":\"1\"}");
    assert_eq!(email_from_id_token(&token), None);
}

#[test]
fn payload_that_is_not_json_yields_nothing() {
    let token = jwt_with_payload("not json");
    assert_eq!(email_from_id_token(&token), None);
}

#[test]
fn model_path_splits_model_and_rpc() {
    let (model, stream) = parse_model_path("/v1beta/models/gemini-2.5-pro:generateContent");
    assert_eq!(model, "gemini-2.5-pro");
    assert!(!stream);

    let (model, stream) =
        parse_model_path("/v1beta/models/gemini-2.5-flash:streamGenerateContent");
    assert_eq!(model, "gemini-2.5-flash");
    assert!(stream);

    let (model, stream) = parse_model_path("gemini-2.5-pro");
    assert_eq!(model, "gemini-2.5-pro");
    assert!(!stream);

    let (model, _) = parse_model_path("/models/plain-segment");
    assert_eq!(model, "plain-segment");
}

#[test]
fn preprocess_keeps_the_raw_path() {
    let ctx = preprocess_path("/v1beta/models/m:streamGenerateContent");
    assert_eq!(ctx.model, "m");
    assert!(ctx.stream);
    assert_eq!(ctx.path, "/v1beta/models/m:streamGenerateContent");
}

#[test]
fn json_file_names_are_recognised() {
    assert!(is_json_file("cred.json"));
    assert!(is_json_file("cred.JSON"));
    assert!(is_json_file("a.b.Json"));
    assert!(!is_json_file("cred.txt"));
    assert!(!is_json_file("json"));
    assert!(!is_json_file(".json"));
    assert!(!is_json_file("cred."));
    assert!(!is_json_file(""));
}

#[test]
fn big_model_list_classifies_by_membership() {
    let list = BigModelList::new(vec!["gemini-2.5-pro".to_string()]);
    assert!(list.is_big_model("gemini-2.5-pro"));
    assert!(!list.is_big_model("gemini-2.5-flash"));
}

#[test]
fn model_listings_mirror_the_configured_keys() {
    let native = native_model_list(&vec!["m1".to_string(), "m2".to_string()]);
    assert_eq!(native.models.len(), 2);
    assert_eq!(native.models[0].name, "m1");
    assert_eq!(native.models[0].display_name, "m1");
    assert!(native.models[0].version.is_none());

    let oai = openai_model_list(&native);
    assert_eq!(oai.object, "list");
    assert_eq!(oai.data.len(), 2);
    assert_eq!(oai.data[1].id, "m2");
    assert_eq!(oai.data[1].object, "model");
    assert_eq!(oai.data[1].owned_by, "google");
}

#[test]
fn token_response_mutates_only_refresh_fields() {
    let mut cred = GoogleCredential {
        email: None,
        project_id: "p".to_string(),
        refresh_token: "r".to_string(),
        access_token: None,
        expiry: 0,
    };
    let id_token = jwt_with_payload("{\"email\":\"who@example.com\"}");
    apply_token_response(&mut cred, "tok".to_string(), 3600, Some(&id_token), 1_000);
    assert_eq!(cred.access_token.as_deref(), Some("tok"));
    assert_eq!(cred.expiry, 4_600);
    assert_eq!(cred.email.as_deref(), Some("who@example.com"));
    assert_eq!(cred.project_id, "p");
    assert_eq!(cred.refresh_token, "r");
}

#[test]
fn token_response_without_id_token_keeps_email() {
    let mut cred = GoogleCredential {
        email: Some("old@example.com".to_string()),
        project_id: "p".to_string(),
        refresh_token: "r".to_string(),
        access_token: None,
        expiry: 0,
    };
    apply_token_response(&mut cred, "tok".to_string(), 60, None, 100);
    assert_eq!(cred.email.as_deref(), Some("old@example.com"));
    assert_eq!(cred.expiry, 160);
}

#[test]
fn onboarding_adopts_the_discovered_project() {
    let mut cred = GoogleCredential {
        email: None,
        project_id: "before-onboarding".to_string(),
        refresh_token: "r".to_string(),
        access_token: None,
        expiry: 0,
    };
    adopt_project(&mut cred, Some("companion".to_string()));
    assert_eq!(cred.project_id, "companion");
    adopt_project(&mut cred, None);
    assert_eq!(cred.project_id, "companion");
}

#[test]
fn concurrency_floor_is_one() {
    assert_eq!(effective_concurrency(0), 1);
    assert_eq!(effective_concurrency(1), 1);
    assert_eq!(effective_concurrency(8), 8);
}

#[test]
fn cli_response_reshapes_into_aistudio() {
    let value = CliResponse {
        candidates: vec![
            CliCandidate {
                content: Chat {
                    role: "model".to_string(),
                    parts: vec![serde_json::Value::String("hello".to_string())],
                },
                finishReason: Some(FinishReason::STOP),
            },
            CliCandidate {
                content: Chat {
                    role: "model".to_string(),
                    parts: vec![],
                },
                finishReason: None,
            },
        ],
        usageMetadata: serde_json::Value::Null,
        modelVersion: "v1".to_string(),
        promptFeedback: None,
    };
    let out = cli_to_aistudio(value);
    assert_eq!(out.candidates.len(), 2);
    assert_eq!(out.candidates[0].content.role, "model");
    assert_eq!(out.candidates[0].finishReason, Some(FinishReason::STOP));
    assert_eq!(out.candidates[1].finishReason, None);
    assert_eq!(out.modelVersion, "v1");
    assert!(out.promptFeedback.is_none());
}

#[test]
fn envelope_unwraps_to_its_response() {
    let env = CliResponseEnvelope { response: 42u32 };
    assert_eq!(env.into_inner(), 42);
}
